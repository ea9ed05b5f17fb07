use vstd::prelude::*;
use crate::error::Error;
use crate::phys_mem::{PhysicalMemory, PhysicalReadData, PhysicalWriteData, apply_writes, writes_in_bounds};
use crate::types::PhysicalAddress;

verus! {

/// Gathers reads and writes, and hands them to a backend as one batched
/// read and one batched write.
pub struct PhysicalMemoryBatcher {
    reads: Vec<PhysicalReadData>,
    writes: Vec<PhysicalWriteData>,
}

impl PhysicalMemoryBatcher {
    pub closed spec fn reads_spec(&self) -> Seq<PhysicalReadData> {
        self.reads@
    }

    pub closed spec fn writes_spec(&self) -> Seq<PhysicalWriteData> {
        self.writes@
    }

    /// A batcher with nothing gathered.
    pub fn new() -> (r: PhysicalMemoryBatcher)
        ensures
            r.reads_spec().len() == 0,
            r.writes_spec().len() == 0,
    {
        PhysicalMemoryBatcher { reads: Vec::new(), writes: Vec::new() }
    }

    /// Adds a read of `len` bytes at `addr`; its bytes will be at the
    /// returned index of the result of `commit_rw`.
    pub fn read_raw(&mut self, addr: PhysicalAddress, len: usize) -> (r: usize)
        ensures
            r == old(self).reads_spec().len(),
            final(self).reads_spec().len() == old(self).reads_spec().len() + 1,
            final(self).reads_spec().drop_last() == old(self).reads_spec(),
            final(self).reads_spec().last().0 == addr,
            final(self).reads_spec().last().1@.len() == len,
            final(self).writes_spec() == old(self).writes_spec(),
    {
        let r = self.reads.len();
        self.reads.push(PhysicalReadData(addr, vec![0u8; len]));
        assert(self.reads@.drop_last() =~= old(self).reads@);
        r
    }

    /// Adds a write of `data` at `addr`, after those gathered before.
    pub fn write_raw(&mut self, addr: PhysicalAddress, data: Vec<u8>)
        ensures
            final(self).writes_spec() == old(self).writes_spec().push(PhysicalWriteData(addr, data)),
            final(self).reads_spec() == old(self).reads_spec(),
    {
        self.writes.push(PhysicalWriteData(addr, data));
    }

    /// Performs the gathered reads, then the gathered writes, each as one
    /// batch (none where nothing was gathered), and empties the batcher.
    /// The result holds the bytes of each read, in the order they were added.
    pub fn commit_rw<T: PhysicalMemory>(&mut self, mem: &mut T) -> (r: Result<Vec<Vec<u8>>, Error>)
        requires
            old(mem).inv(),
        ensures
            final(mem).inv(),
            final(self).reads_spec().len() == 0,
            final(self).writes_spec().len() == 0,
            r matches Ok(bufs) ==> {
                &&& bufs@.len() == old(self).reads_spec().len()
                &&& forall|i: int|
                    0 <= i < bufs@.len() ==> {
                        let a = old(self).reads_spec()[i].0.address.0 as int;
                        let n = old(self).reads_spec()[i].1@.len();
                        &&& (#[trigger] bufs@[i])@.len() == n
                        &&& n > 0 ==> a + n <= old(mem).phys_view().len() && bufs@[i]@ == old(
                            mem,
                        ).phys_view().subrange(a, a + n)
                    }
            },
            r is Ok ==> writes_in_bounds(old(mem).phys_view().len(), old(self).writes_spec()),
            r is Ok ==> final(mem).phys_view() == apply_writes(old(mem).phys_view(), old(self).writes_spec()),
            final(mem).read_log() == if old(self).reads_spec().len() > 0 {
                old(mem).read_log().push(old(self).reads_spec())
            } else {
                old(mem).read_log()
            },
            r is Ok ==> final(mem).write_log() == if old(self).writes_spec().len() > 0 {
                old(mem).write_log().push(old(self).writes_spec())
            } else {
                old(mem).write_log()
            },
            old(self).reads_spec().len() == 0 && old(self).writes_spec().len() == 0 ==> (r matches Ok(b) && b@.len()
                == 0),
    {
        let mut reads: Vec<PhysicalReadData> = Vec::new();
        let mut writes: Vec<PhysicalWriteData> = Vec::new();
        std::mem::swap(&mut reads, &mut self.reads);
        std::mem::swap(&mut writes, &mut self.writes);
        let ghost req = reads@;
        if reads.len() > 0 {
            match mem.phys_read_raw_list(&mut reads) {
                Err(e) => {
                    return Err(e);
                },
                Ok(_) => {},
            }
        }
        if writes.len() > 0 {
            match mem.phys_write_raw_list(&writes) {
                Err(e) => {
                    return Err(e);
                },
                Ok(_) => {},
            }
        } else {
            assert(apply_writes(old(mem).phys_view(), writes@) == old(mem).phys_view());
        }
        let ghost filled = reads@;
        let mut bufs: Vec<Vec<u8>> = Vec::new();
        let mut k = reads.len();
        while k > 0
            invariant
                k <= filled.len(),
                reads@ == filled.take(k as int),
                bufs@.len() == filled.len() - k,
                forall|j: int| 0 <= j < bufs@.len() ==> (#[trigger] bufs@[j])@ == filled[filled.len() - 1 - j].1@,
            decreases k,
        {
            match reads.pop() {
                Some(PhysicalReadData(_, b)) => {
                    k = k - 1;
                    assert(reads@ =~= filled.take(k as int));
                    bufs.push(b);
                },
                None => {
                    k = 0;
                },
            }
        }
        let mut out: Vec<Vec<u8>> = Vec::new();
        let mut j = bufs.len();
        let ghost rev = bufs@;
        while j > 0
            invariant
                j <= rev.len(),
                bufs@ == rev.take(j as int),
                out@.len() == rev.len() - j,
                forall|i: int| 0 <= i < out@.len() ==> #[trigger] out@[i] == rev[rev.len() - 1 - i],
            decreases j,
        {
            match bufs.pop() {
                Some(b) => {
                    j = j - 1;
                    assert(bufs@ =~= rev.take(j as int));
                    out.push(b);
                },
                None => {
                    j = 0;
                },
            }
        }
        proof {
            if req.len() > 0 {
                assert forall|i: int| 0 <= i < out@.len() implies ({
                    let a = req[i].0.address.0 as int;
                    let n = req[i].1@.len();
                    &&& (#[trigger] out@[i])@.len() == n
                    &&& n > 0 ==> a + n <= old(mem).phys_view().len() && out@[i]@ == old(mem).phys_view().subrange(a, a + n)
                }) by {
                    assert(filled[i].0 == req[i].0);
                }
            }
        }
        Ok(out)
    }
}

} // verus!
