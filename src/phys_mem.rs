use vstd::prelude::*;
use crate::error::Error;
use crate::text::{lemma_nul_index_facts, lossy_text, nul_index, scan_char_string, truncate_at_nul, until_nul, utf8_lossy};
use crate::mmu::{le_u64, le_u64_exec};
use crate::types::{Address, PhysicalAddress};

verus! {

/// What a backend reports of its address space.
#[derive(Debug, Clone, Copy, PartialEq, Eq, Structural)]
pub struct PhysicalMemoryMetadata {
    pub size: usize,
    pub readonly: bool,
}

/// One request of a batched read: where to read, and a buffer whose length
/// says how many bytes; the backend fills the buffer.
pub struct PhysicalReadData(pub PhysicalAddress, pub Vec<u8>);

/// One request of a batched write: where to write, and the bytes.
pub struct PhysicalWriteData(pub PhysicalAddress, pub Vec<u8>);

/// One entry of a memory map: `size` bytes at `base` are found at `real_base`.
#[derive(Debug, Clone, Copy, PartialEq, Eq, Structural)]
pub struct MemoryMapping {
    pub base: Address,
    pub size: usize,
    pub real_base: Address,
}

/// Whether `out` holds, for each request of `req` in turn, the bytes of `mem`
/// at its address; empty requests need not lie inside `mem`.
pub open spec fn reads_filled(mem: Seq<u8>, req: Seq<PhysicalReadData>, out: Seq<PhysicalReadData>) -> bool {
    &&& out.len() == req.len()
    &&& forall|i: int|
        0 <= i < req.len() ==> {
            let a = req[i].0.address.0 as int;
            let n = req[i].1@.len();
            &&& #[trigger] out[i].0 == req[i].0
            &&& out[i].1@.len() == n
            &&& n > 0 ==> a + n <= mem.len() && out[i].1@ == mem.subrange(a, a + n)
        }
}

/// Whether every non-empty request of `req` lies inside an address space of `len` bytes.
pub open spec fn reads_in_bounds(len: nat, req: Seq<PhysicalReadData>) -> bool {
    forall|i: int|
        0 <= i < req.len() && #[trigger] req[i].1@.len() > 0 ==> req[i].0.address.0 + req[i].1@.len() <= len
}

/// Whether every non-empty write of `ws` lies inside an address space of `len` bytes.
pub open spec fn writes_in_bounds(len: nat, ws: Seq<PhysicalWriteData>) -> bool {
    forall|i: int|
        0 <= i < ws.len() && #[trigger] ws[i].1@.len() > 0 ==> ws[i].0.address.0 + ws[i].1@.len() <= len
}

/// `mem` with `data` stored at `addr`, where it fits.
pub open spec fn write_bytes(mem: Seq<u8>, addr: int, data: Seq<u8>) -> Seq<u8> {
    Seq::new(mem.len(), |j: int| if addr <= j < addr + data.len() { data[j - addr] } else { mem[j] })
}

/// `mem` after the writes of `ws`, the earlier ones first.
pub open spec fn apply_writes(mem: Seq<u8>, ws: Seq<PhysicalWriteData>) -> Seq<u8>
    decreases ws.len(),
{
    if ws.len() == 0 {
        mem
    } else {
        let w = ws.last();
        write_bytes(apply_writes(mem, ws.drop_last()), w.0.address.0 as int, w.1@)
    }
}

/// A write leaves the written bytes at its place: a read of that range that
/// follows returns them.
pub proof fn lemma_read_after_write(mem: Seq<u8>, w: PhysicalWriteData)
    requires
        w.0.address.0 + w.1@.len() <= mem.len(),
    ensures
        apply_writes(mem, seq![w]).subrange(
            w.0.address.0 as int,
            w.0.address.0 + w.1@.len(),
        ) == w.1@,
{
    let ws = seq![w];
    assert(ws.drop_last() =~= Seq::<PhysicalWriteData>::empty());
    assert(apply_writes(mem, ws.drop_last()) == mem);
    assert(ws.last() == w);
    assert(apply_writes(mem, ws) == write_bytes(mem, w.0.address.0 as int, w.1@));
    assert(apply_writes(mem, ws).subrange(w.0.address.0 as int, w.0.address.0 + w.1@.len()) =~= w.1@);
}

/// Two successful reads of the same requests over the same contents return
/// the same bytes: however a read is served, from a cache or from the
/// backend, its result is fixed by the contents.
pub proof fn lemma_reads_agree(
    mem: Seq<u8>,
    req: Seq<PhysicalReadData>,
    out1: Seq<PhysicalReadData>,
    out2: Seq<PhysicalReadData>,
)
    requires
        reads_filled(mem, req, out1),
        reads_filled(mem, req, out2),
    ensures
        out1.len() == out2.len(),
        forall|i: int| 0 <= i < out1.len() ==> (#[trigger] out1[i]).1@ == out2[i].1@,
{
    assert forall|i: int| 0 <= i < out1.len() implies (#[trigger] out1[i]).1@ == out2[i].1@ by {
        assert(out1[i].0 == req[i].0);
        assert(out2[i].0 == req[i].0);
        if req[i].1@.len() == 0 {
            assert(out1[i].1@ =~= out2[i].1@);
        }
    }
}

/// The length of read `t` of a zero-terminated string: 32 bytes, doubled
/// with each read.
pub open spec fn doubled(t: int) -> nat
    decreases t,
{
    if t <= 0 {
        32
    } else {
        2 * doubled(t - 1)
    }
}

/// What the reads of a zero-terminated string at `addr` were and decided:
/// read `t` is one request of `doubled(t)` bytes at `addr`; every read but
/// the last succeeded and held no zero byte; a failed last read gives an
/// error, a last read that holds a zero gives success, and one that holds
/// none is the read of 4096 bytes and gives `OutOfBounds`.
pub open spec fn char_string_reads(
    log: Seq<Seq<PhysicalReadData>>,
    oks: Seq<bool>,
    base: nat,
    okbase: nat,
    view: Seq<u8>,
    addr: PhysicalAddress,
    k: int,
    r: Result<String, Error>,
) -> bool {
    let a = addr.address.0 as int;
    let last_len = doubled(k - 1);
    &&& forall|t: int|
        0 <= t < k ==> (#[trigger] log[base + t]).len() == 1 && log[base + t][0].0 == addr && log[base
            + t][0].1@.len() == doubled(t)
    &&& forall|t: int| 0 <= t < k - 1 ==> #[trigger] oks[okbase + t]
    &&& forall|t: int| 0 <= t < k - 1 ==> #[trigger] no_zero_within(view, addr, doubled(t))
    &&& !oks[okbase + k - 1] ==> r is Err
    &&& oks[okbase + k - 1] && a + last_len <= view.len() && nul_index(view.subrange(a, a + last_len))
        < last_len ==> r is Ok
    &&& oks[okbase + k - 1] && a + last_len <= view.len() && nul_index(view.subrange(a, a + last_len))
        == last_len ==> last_len == 4096 && r == Err::<String, Error>(Error::OutOfBounds)
}

/// Whether the `n` bytes at `addr` lie in `view` and none of them is zero.
pub open spec fn no_zero_within(view: Seq<u8>, addr: PhysicalAddress, n: nat) -> bool {
    addr.address.0 + n <= view.len() && nul_index(view.subrange(addr.address.0 as int, addr.address.0 + n)) == n
}

proof fn lemma_char_string_reads(
    log: Seq<Seq<PhysicalReadData>>,
    oks: Seq<bool>,
    base: nat,
    okbase: nat,
    view: Seq<u8>,
    addr: PhysicalAddress,
    k: int,
    r: Result<String, Error>,
)
    requires
        forall|t: int|
            0 <= t < k ==> (#[trigger] log[base + t]).len() == 1 && log[base + t][0].0 == addr && log[base
                + t][0].1@.len() == doubled(t),
        forall|t: int| 0 <= t < k - 1 ==> #[trigger] oks[okbase + t],
        forall|t: int| 0 <= t < k - 1 ==> #[trigger] no_zero_within(view, addr, doubled(t)),
        !oks[okbase + k - 1] ==> r is Err,
        oks[okbase + k - 1] ==> addr.address.0 + doubled(k - 1) <= view.len(),
        oks[okbase + k - 1] && nul_index(view.subrange(addr.address.0 as int, addr.address.0 + doubled(k - 1)))
            < doubled(k - 1) ==> r is Ok,
        oks[okbase + k - 1] && nul_index(view.subrange(addr.address.0 as int, addr.address.0 + doubled(k - 1)))
            == doubled(k - 1) ==> doubled(k - 1) == 4096 && r == Err::<String, Error>(Error::OutOfBounds),
    ensures
        char_string_reads(log, oks, base, okbase, view, addr, k, r),
{
}

/// The lowest `n` bytes of `v`, least significant first.
pub open spec fn le_bytes(v: u64, n: nat) -> Seq<u8> {
    Seq::new(n, |i: int| ((v >> ((8 * i) as u64)) & 0xffu64) as u8)
}

/// The lowest `n` bytes of `v`, least significant first.
pub fn le_bytes_exec(v: u64, n: u64) -> (r: Vec<u8>)
    requires
        n <= 8,
    ensures
        r@ == le_bytes(v, n as nat),
{
    let mut r: Vec<u8> = Vec::new();
    let mut i: u64 = 0;
    while i < n
        invariant
            i <= n <= 8,
            r@ =~= le_bytes(v, i as nat),
        decreases n - i,
    {
        r.push(((v >> (8 * i)) & 0xffu64) as u8);
        i = i + 1;
        assert(r@ =~= le_bytes(v, i as nat));
    }
    r
}

/// A backend that reads and writes the physical address space of a target.
///
/// Its contents are modelled by `phys_view`: a read returns the bytes held
/// there and a successful write stores its bytes there.
pub trait PhysicalMemory {
    /// The bytes of the physical address space, as the backend presents them.
    spec fn phys_view(&self) -> Seq<u8>;

    /// What the backend keeps true between calls.
    spec fn inv(&self) -> bool;

    /// The requests of every batched read made so far, oldest first.
    spec fn read_log(&self) -> Seq<Seq<PhysicalReadData>>;

    /// The requests of every batched write made so far, oldest first.
    spec fn write_log(&self) -> Seq<Seq<PhysicalWriteData>>;

    /// For every batched read made so far, oldest first, whether it succeeded.
    spec fn read_oks(&self) -> Seq<bool>;

    /// Fills every buffer of `data`, or fails the whole batch.
    fn phys_read_raw_list(&mut self, data: &mut Vec<PhysicalReadData>) -> (r: Result<(), Error>)
        requires
            old(self).inv(),
        ensures
            final(self).inv(),
            final(self).phys_view() == old(self).phys_view(),
            final(self).read_log() == old(self).read_log().push(old(data)@),
            final(self).read_oks() == old(self).read_oks().push(r is Ok),
            final(self).write_log() == old(self).write_log(),
            r is Ok ==> reads_filled(old(self).phys_view(), old(data)@, final(data)@),
    ;

    /// Stores every write of `data`, the earlier ones first; on failure the
    /// contents are not known.
    fn phys_write_raw_list(&mut self, data: &Vec<PhysicalWriteData>) -> (r: Result<(), Error>)
        requires
            old(self).inv(),
        ensures
            final(self).inv(),
            final(self).write_log() == old(self).write_log().push(data@),
            final(self).read_log() == old(self).read_log(),
            final(self).read_oks() == old(self).read_oks(),
            r is Ok ==> writes_in_bounds(old(self).phys_view().len(), data@),
            r is Ok ==> final(self).phys_view() == apply_writes(old(self).phys_view(), data@),
    ;

    /// The size of the address space, and whether writes can succeed.
    fn metadata(&self) -> (r: PhysicalMemoryMetadata)
        requires
            self.inv(),
        ensures
            r.size == self.phys_view().len(),
    ;

    /// Installs a memory map for all later calls; the contents as seen
    /// through it may differ from before.
    fn set_mem_map(&mut self, mem_map: Vec<MemoryMapping>)
        requires
            old(self).inv(),
        ensures
            final(self).inv(),
            final(self).read_log() == old(self).read_log(),
            final(self).read_oks() == old(self).read_oks(),
            final(self).write_log() == old(self).write_log(),
    ;

    /// Reads `out.len()` bytes at `addr` into `out`.
    fn phys_read_raw_into(&mut self, addr: PhysicalAddress, out: &mut Vec<u8>) -> (r: Result<(), Error>)
        requires
            old(self).inv(),
        ensures
            final(self).inv(),
            final(self).phys_view() == old(self).phys_view(),
            final(self).write_log() == old(self).write_log(),
            final(self).read_log().len() == old(self).read_log().len() + 1,
            final(self).read_log().drop_last() == old(self).read_log(),
            final(self).read_log().last().len() == 1,
            final(self).read_log().last()[0].0 == addr,
            final(self).read_log().last()[0].1@ == Seq::new(old(out)@.len(), |i: int| 0u8),
            final(self).read_oks() == old(self).read_oks().push(r is Ok),
            r is Ok ==> final(out)@.len() == old(out)@.len(),
            r is Ok && old(out)@.len() > 0 ==> addr.address.0 + old(out)@.len() <= old(self).phys_view().len()
                && final(out)@ == old(self).phys_view().subrange(
                addr.address.0 as int,
                addr.address.0 + old(out)@.len(),
            ),
    {
        let mut list: Vec<PhysicalReadData> = Vec::new();
        list.push(PhysicalReadData(addr, vec![0u8; out.len()]));
        let ghost req = list@;
        assert(req[0].1@ =~= Seq::new(out@.len(), |i: int| 0u8));
        match self.phys_read_raw_list(&mut list) {
            Err(e) => Err(e),
            Ok(_) => {
                assert(list@[0].0 == req[0].0);
                match list.pop() {
                    Some(PhysicalReadData(_, buf)) => {
                        *out = buf;
                        Ok(())
                    },
                    None => Err(Error::Io),
                }
            },
        }
    }

    /// Reads `len` bytes at `addr`.
    fn phys_read_raw(&mut self, addr: PhysicalAddress, len: usize) -> (r: Result<Vec<u8>, Error>)
        requires
            old(self).inv(),
        ensures
            final(self).inv(),
            final(self).phys_view() == old(self).phys_view(),
            final(self).write_log() == old(self).write_log(),
            final(self).read_log().len() == old(self).read_log().len() + 1,
            final(self).read_log().drop_last() == old(self).read_log(),
            final(self).read_log().last().len() == 1,
            final(self).read_log().last()[0].0 == addr,
            final(self).read_log().last()[0].1@ == Seq::new(len as nat, |i: int| 0u8),
            final(self).read_oks() == old(self).read_oks().push(r is Ok),
            r matches Ok(b) ==> b@.len() == len,
            r matches Ok(b) ==> len > 0 ==> addr.address.0 + len <= old(self).phys_view().len() && b@
                == old(self).phys_view().subrange(addr.address.0 as int, addr.address.0 + len),
    {
        let mut buf = vec![0u8; len];
        assert(buf@ =~= Seq::new(len as nat, |i: int| 0u8));
        match self.phys_read_raw_into(addr, &mut buf) {
            Err(e) => Err(e),
            Ok(_) => Ok(buf),
        }
    }

    /// Reads `len` bytes at `addr` as text, cut at the first zero byte;
    /// invalid UTF-8 becomes the replacement character.
    fn phys_read_char_array(&mut self, addr: PhysicalAddress, len: usize) -> (r: Result<String, Error>)
        requires
            old(self).inv(),
        ensures
            final(self).inv(),
            final(self).phys_view() == old(self).phys_view(),
            final(self).write_log() == old(self).write_log(),
            final(self).read_log().len() == old(self).read_log().len() + 1,
            final(self).read_log().drop_last() == old(self).read_log(),
            final(self).read_log().last().len() == 1,
            final(self).read_log().last()[0].0 == addr,
            final(self).read_log().last()[0].1@ == Seq::new(len as nat, |i: int| 0u8),
            final(self).read_oks() == old(self).read_oks().push(r is Ok),
            r matches Ok(s) ==> len == 0 ==> s@ == utf8_lossy(Seq::<u8>::empty()),
            r matches Ok(s) ==> len > 0 ==> addr.address.0 + len <= old(self).phys_view().len() && s@
                == utf8_lossy(until_nul(old(self).phys_view().subrange(addr.address.0 as int, addr.address.0 + len))),
    {
        let mut buf = vec![0u8; len];
        assert(buf@ =~= Seq::new(len as nat, |i: int| 0u8));
        match self.phys_read_raw_into(addr, &mut buf) {
            Err(e) => Err(e),
            Ok(_) => {
                let ghost b = buf@;
                truncate_at_nul(&mut buf);
                proof {
                    if len == 0 {
                        assert(buf@ =~= Seq::<u8>::empty());
                    }
                }
                Ok(lossy_text(&buf))
            },
        }
    }

    /// Reads a zero-terminated string of fewer than 4096 bytes at `addr`.
    ///
    /// It reads 32 bytes first, then 64, and so on up to 4096, each time from
    /// `addr`, and stops at the first read that holds a zero byte: the text
    /// before that byte is the result. Where 4096 bytes hold none, the result
    /// is `OutOfBounds`; a failed read ends the call with its error.
    fn phys_read_char_string(&mut self, addr: PhysicalAddress) -> (r: Result<String, Error>)
        requires
            old(self).inv(),
        ensures
            final(self).inv(),
            final(self).phys_view() == old(self).phys_view(),
            final(self).write_log() == old(self).write_log(),
            final(self).read_log().subrange(0, old(self).read_log().len() as int) == old(self).read_log(),
            final(self).read_oks().subrange(0, old(self).read_oks().len() as int) == old(self).read_oks(),
            final(self).read_oks().len() - old(self).read_oks().len() == final(self).read_log().len() - old(
                self,
            ).read_log().len(),
            old(self).read_log().len() < final(self).read_log().len() <= old(self).read_log().len() + 8,
            char_string_reads(
                final(self).read_log(),
                final(self).read_oks(),
                old(self).read_log().len(),
                old(self).read_oks().len(),
                old(self).phys_view(),
                addr,
                final(self).read_log().len() - old(self).read_log().len(),
                r,
            ),
            r matches Ok(s) ==> exists|k: int|
                0 <= k < 4096 && addr.address.0 + k < old(self).phys_view().len() && #[trigger] old(self).phys_view()[addr.address.0 + k] == 0 && (forall|j: int|
                    0 <= j < k ==> #[trigger] old(self).phys_view()[addr.address.0 + j] != 0) && s@ == utf8_lossy(
                    old(self).phys_view().subrange(addr.address.0 as int, addr.address.0 + k),
                ),
    {
        let ghost view = self.phys_view();
        let ghost rlog0 = self.read_log();
        let ghost oks0 = self.read_oks();
        let ghost a = addr.address.0 as int;
        let ghost mut done: int = 0;
        let mut len: usize = 32;
        loop
            invariant
                self.inv(),
                self.phys_view() == view,
                view == old(self).phys_view(),
                rlog0 == old(self).read_log(),
                oks0 == old(self).read_oks(),
                a == addr.address.0,
                self.write_log() == old(self).write_log(),
                self.read_log().len() == rlog0.len() + done,
                self.read_oks().len() == oks0.len() + done,
                self.read_log().subrange(0, rlog0.len() as int) == rlog0,
                self.read_oks().subrange(0, oks0.len() as int) == oks0,
                0 <= done <= 7,
                len == doubled(done),
                (len == 32 && done == 0) || (len == 64 && done == 1) || (len == 128 && done == 2) || (len == 256
                    && done == 3) || (len == 512 && done == 4) || (len == 1024 && done == 5) || (len == 2048 && done
                    == 6) || (len == 4096 && done == 7),
                forall|t: int|
                    0 <= t < done ==> (#[trigger] self.read_log()[rlog0.len() + t]).len() == 1
                        && self.read_log()[rlog0.len() + t][0].0 == addr
                        && self.read_log()[rlog0.len() + t][0].1@.len() == doubled(t),
                forall|t: int|
                    0 <= t < done ==> (#[trigger] self.read_oks()[oks0.len() + t]) && a + doubled(t) <= view.len()
                        && nul_index(view.subrange(a, a + doubled(t))) == doubled(t),
            decreases 4096 - len,
        {
            let mut buf = vec![0u8; len];
            let ghost log_before = self.read_log();
            let ghost oks_before = self.read_oks();
            let rr = self.phys_read_raw_into(addr, &mut buf);
            proof {
                assert(self.read_log().subrange(0, rlog0.len() as int) =~= rlog0);
                assert(self.read_oks().subrange(0, oks0.len() as int) =~= oks0);
                assert forall|t: int| 0 <= t < done implies (#[trigger] self.read_log()[rlog0.len() + t]).len() == 1
                    && self.read_log()[rlog0.len() + t][0].0 == addr
                    && self.read_log()[rlog0.len() + t][0].1@.len() == doubled(t) by {
                    assert(self.read_log()[rlog0.len() + t] == log_before[rlog0.len() + t]);
                }
                assert forall|t: int| 0 <= t < done implies #[trigger] self.read_oks()[oks0.len() + t] by {
                    assert(self.read_oks()[oks0.len() + t] == oks_before[oks0.len() + t]);
                }
                done = done + 1;
                assert(self.read_log()[rlog0.len() + done - 1] == self.read_log().last());
                assert(self.read_oks()[oks0.len() + done - 1] == (rr is Ok));
                assert forall|t: int| 0 <= t < done implies (#[trigger] self.read_log()[rlog0.len() + t]).len() == 1
                    && self.read_log()[rlog0.len() + t][0].0 == addr
                    && self.read_log()[rlog0.len() + t][0].1@.len() == doubled(t) by {
                    if t < done - 1 {
                        assert(self.read_log()[rlog0.len() + t] == log_before[rlog0.len() + t]);
                    }
                }
                assert forall|t: int|
                    0 <= t < done - 1 implies (#[trigger] self.read_oks()[oks0.len() + t]) && a + doubled(t) <= view.len()
                        && nul_index(view.subrange(a, a + doubled(t))) == doubled(t) by {
                    assert(self.read_oks()[oks0.len() + t] == oks_before[oks0.len() + t]);
                }
            }
            proof {
                assert(self.read_log().len() - old(self).read_log().len() == done);
                assert(self.read_oks().len() - old(self).read_oks().len() == done);
            }
            match rr {
                Err(e) => {
                    proof {
                        let k = self.read_log().len() - old(self).read_log().len();
                        let base = old(self).read_log().len();
                        let okbase = old(self).read_oks().len();
                        assert(forall|t: int|
                            0 <= t < k ==> (#[trigger] self.read_log()[base + t]).len() == 1
                                && self.read_log()[base + t][0].0 == addr
                                && self.read_log()[base + t][0].1@.len() == doubled(t));
                        assert forall|t: int|
                            0 <= t < k - 1 implies (#[trigger] self.read_oks()[okbase + t]) && a + doubled(t) <= view.len()
                                && nul_index(view.subrange(a, a + doubled(t))) == doubled(t) by {
                            assert(self.read_oks()[oks0.len() + t]);
                        }
                        assert(!self.read_oks()[okbase + k - 1]);
                        assert(k == done);
                        assert(doubled(done - 1) == len);
                        assert(doubled(k - 1) == len);
                        assert(!self.read_oks()[okbase as int + k - 1]);
                        assert forall|t: int| 0 <= t < k - 1 implies #[trigger] no_zero_within(view, addr, doubled(t)) by {
                            assert(self.read_oks()[oks0.len() + t]);
                        }
                        lemma_char_string_reads(self.read_log(), self.read_oks(), base, okbase, view, addr, k, Err::<String, Error>(e));
                    }
                    return Err(e);
                },
                Ok(_) => {},
            }
            let ghost b = buf@;
            proof {
                lemma_nul_index_facts(b);
                assert(b =~= view.subrange(a, a + len));
            }
            let found = scan_char_string(buf);
            proof {
                assert(self.read_oks()[oks0.len() + done - 1]);
                if found is None {
                    assert(nul_index(b) == len);
                }
            }
            match found {
                Some(s) => {
                    proof {
                        let k = nul_index(b) as int;
                        assert(b[k] == view[addr.address.0 + k]);
                        assert forall|j: int| 0 <= j < k implies #[trigger] view[addr.address.0 + j] != 0 by {
                            assert(b[j] == view[addr.address.0 + j]);
                        }
                        assert(until_nul(b) =~= view.subrange(addr.address.0 as int, addr.address.0 + k));
                        assert forall|t: int|
                            0 <= t < done - 1 implies (#[trigger] self.read_oks()[oks0.len() + t]) && a + doubled(t)
                                <= view.len() && nul_index(view.subrange(a, a + doubled(t))) == doubled(t) by {
                            assert(self.read_oks()[oks0.len() + t]);
                        }
                        let kk = self.read_log().len() - old(self).read_log().len();
                        assert(kk == done);
                        assert(doubled(kk - 1) == len);
                        assert(nul_index(view.subrange(a, a + doubled(kk - 1))) < doubled(kk - 1));
                        assert(self.read_oks()[old(self).read_oks().len() + kk - 1]);
                        let base = old(self).read_log().len();
                        let okbase = old(self).read_oks().len();
                        assert(forall|t: int|
                            0 <= t < kk ==> (#[trigger] self.read_log()[base + t]).len() == 1
                                && self.read_log()[base + t][0].0 == addr
                                && self.read_log()[base + t][0].1@.len() == doubled(t));
                        assert forall|t: int|
                            0 <= t < kk - 1 implies (#[trigger] self.read_oks()[okbase + t]) && a + doubled(t) <= view.len()
                                && nul_index(view.subrange(a, a + doubled(t))) == doubled(t) by {
                            assert(self.read_oks()[oks0.len() + t]);
                        }
                        assert forall|t: int| 0 <= t < kk - 1 implies #[trigger] no_zero_within(view, addr, doubled(t)) by {
                            assert(self.read_oks()[oks0.len() + t]);
                        }
                        lemma_char_string_reads(self.read_log(), self.read_oks(), base, okbase, view, addr, kk, Ok::<String, Error>(s));
                    }
                    return Ok(s);
                },
                None => {},
            }
            proof {
                assert forall|t: int|
                    0 <= t < done implies (#[trigger] self.read_oks()[oks0.len() + t]) && a + doubled(t) <= view.len()
                        && nul_index(view.subrange(a, a + doubled(t))) == doubled(t) by {
                    if t < done - 1 {
                        assert(self.read_oks()[oks0.len() + t]);
                    }
                }
            }
            if len * 2 > 4096 {
                proof {
                    let kk = self.read_log().len() - old(self).read_log().len();
                    assert(kk == done);
                    assert(doubled(kk - 1) == len);
                    assert forall|t: int| 0 <= t < kk - 1 implies #[trigger] no_zero_within(view, addr, doubled(t)) by {
                        assert(self.read_oks()[oks0.len() + t]);
                    }
                    assert forall|t: int| 0 <= t < kk - 1 implies #[trigger] self.read_oks()[old(self).read_oks().len() + t] by {
                        assert(self.read_oks()[oks0.len() + t]);
                    }
                    lemma_char_string_reads(self.read_log(), self.read_oks(), old(self).read_log().len(), old(self).read_oks().len(), view, addr, kk, Err::<String, Error>(Error::OutOfBounds));
                }
                return Err(Error::OutOfBounds);
            }
            len = len * 2;
        }
    }

    /// Reads the little-endian 64-bit value at `addr`.
    fn phys_read_u64(&mut self, addr: PhysicalAddress) -> (r: Result<u64, Error>)
        requires
            old(self).inv(),
        ensures
            final(self).inv(),
            final(self).phys_view() == old(self).phys_view(),
            final(self).write_log() == old(self).write_log(),
            final(self).read_log().len() == old(self).read_log().len() + 1,
            final(self).read_log().drop_last() == old(self).read_log(),
            final(self).read_oks() == old(self).read_oks().push(r is Ok),
            r matches Ok(v) ==> addr.address.0 + 8 <= old(self).phys_view().len() && v == le_u64(
                old(self).phys_view().subrange(addr.address.0 as int, addr.address.0 + 8),
            ),
    {
        match self.phys_read_raw(addr, 8) {
            Err(e) => Err(e),
            Ok(b) => Ok(le_u64_exec(&b)),
        }
    }

    /// Reads the little-endian 32-bit value at `addr`.
    fn phys_read_u32(&mut self, addr: PhysicalAddress) -> (r: Result<u32, Error>)
        requires
            old(self).inv(),
        ensures
            final(self).inv(),
            final(self).phys_view() == old(self).phys_view(),
            final(self).write_log() == old(self).write_log(),
            final(self).read_log().len() == old(self).read_log().len() + 1,
            final(self).read_log().drop_last() == old(self).read_log(),
            final(self).read_oks() == old(self).read_oks().push(r is Ok),
            r matches Ok(v) ==> addr.address.0 + 4 <= old(self).phys_view().len() && v == le_u64(
                old(self).phys_view().subrange(addr.address.0 as int, addr.address.0 + 4),
            ) as u32,
    {
        match self.phys_read_raw(addr, 4) {
            Err(e) => Err(e),
            Ok(b) => Ok(le_u64_exec(&b) as u32),
        }
    }

    /// Writes `v` at `addr` as eight little-endian bytes.
    fn phys_write_u64(&mut self, addr: PhysicalAddress, v: u64) -> (r: Result<(), Error>)
        requires
            old(self).inv(),
        ensures
            final(self).inv(),
            final(self).read_log() == old(self).read_log(),
            final(self).read_oks() == old(self).read_oks(),
            final(self).write_log().len() == old(self).write_log().len() + 1,
            final(self).write_log().drop_last() == old(self).write_log(),
            final(self).write_log().last().len() == 1,
            final(self).write_log().last()[0].0 == addr,
            final(self).write_log().last()[0].1@ == le_bytes(v, 8),
            r is Ok ==> addr.address.0 + 8 <= old(self).phys_view().len(),
            r is Ok ==> final(self).phys_view() == write_bytes(old(self).phys_view(), addr.address.0 as int, le_bytes(v, 8)),
    {
        let bytes = le_bytes_exec(v, 8);
        self.phys_write_raw(addr, &bytes)
    }

    /// Writes `v` at `addr` as four little-endian bytes.
    fn phys_write_u32(&mut self, addr: PhysicalAddress, v: u32) -> (r: Result<(), Error>)
        requires
            old(self).inv(),
        ensures
            final(self).inv(),
            final(self).read_log() == old(self).read_log(),
            final(self).read_oks() == old(self).read_oks(),
            final(self).write_log().len() == old(self).write_log().len() + 1,
            final(self).write_log().drop_last() == old(self).write_log(),
            final(self).write_log().last().len() == 1,
            final(self).write_log().last()[0].0 == addr,
            final(self).write_log().last()[0].1@ == le_bytes(v as u64, 4),
            r is Ok ==> addr.address.0 + 4 <= old(self).phys_view().len(),
            r is Ok ==> final(self).phys_view() == write_bytes(old(self).phys_view(), addr.address.0 as int, le_bytes(v as u64, 4)),
    {
        let bytes = le_bytes_exec(v as u64, 4);
        self.phys_write_raw(addr, &bytes)
    }

    /// Writes `data` at `addr`.
    fn phys_write_raw(&mut self, addr: PhysicalAddress, data: &Vec<u8>) -> (r: Result<(), Error>)
        requires
            old(self).inv(),
        ensures
            final(self).inv(),
            final(self).read_log() == old(self).read_log(),
            final(self).read_oks() == old(self).read_oks(),
            final(self).write_log().len() == old(self).write_log().len() + 1,
            final(self).write_log().drop_last() == old(self).write_log(),
            final(self).write_log().last().len() == 1,
            final(self).write_log().last()[0].0 == addr,
            final(self).write_log().last()[0].1@ == data@,
            r is Ok ==> data@.len() > 0 ==> addr.address.0 + data@.len() <= old(self).phys_view().len(),
            r is Ok ==> final(self).phys_view() == write_bytes(
                old(self).phys_view(),
                addr.address.0 as int,
                data@,
            ),
    {
        let mut list: Vec<PhysicalWriteData> = Vec::new();
        list.push(PhysicalWriteData(addr, data.clone()));
        let r = self.phys_write_raw_list(&list);
        proof {
            assert(self.write_log().drop_last() =~= old(self).write_log());
            assert(list@.drop_last() =~= Seq::<PhysicalWriteData>::empty());
            assert(apply_writes(old(self).phys_view(), list@.drop_last()) == old(self).phys_view());
            if r is Ok && data@.len() > 0 {
                assert(list@[0].1@.len() > 0);
            }
        }
        r
    }
}

} // verus!

verus! {

/// Writing never changes the size of the address space.
pub proof fn lemma_apply_writes_len(mem: Seq<u8>, ws: Seq<PhysicalWriteData>)
    ensures
        apply_writes(mem, ws).len() == mem.len(),
    decreases ws.len(),
{
    if ws.len() > 0 {
        lemma_apply_writes_len(mem, ws.drop_last());
    }
}

/// Whether every non-empty request of `data` fits in `len` bytes.
fn reads_fit(len: usize, data: &Vec<PhysicalReadData>) -> (r: bool)
    ensures
        r == reads_in_bounds(len as nat, data@),
{
    let n = data.len();
    let mut i: usize = 0;
    while i < n
        invariant
            n == data@.len(),
            i <= n,
            forall|k: int| 0 <= k < i ==> #[trigger] data@[k].1@.len() > 0 ==>
                data@[k].0.address.0 + data@[k].1@.len() <= len,
        decreases n - i,
    {
        let a = data[i].0.address.0;
        let l = data[i].1.len();
        if l > 0 && (a > len as u64 || l > len - a as usize) {
            assert(data@[i as int].1@.len() > 0);
            return false;
        }
        i = i + 1;
    }
    true
}

/// Whether every non-empty write of `data` fits in `len` bytes.
fn writes_fit(len: usize, data: &Vec<PhysicalWriteData>) -> (r: bool)
    ensures
        r == writes_in_bounds(len as nat, data@),
{
    let n = data.len();
    let mut i: usize = 0;
    while i < n
        invariant
            n == data@.len(),
            i <= n,
            forall|k: int| 0 <= k < i ==> #[trigger] data@[k].1@.len() > 0 ==>
                data@[k].0.address.0 + data@[k].1@.len() <= len,
        decreases n - i,
    {
        let a = data[i].0.address.0;
        let l = data[i].1.len();
        if l > 0 && (a > len as u64 || l > len - a as usize) {
            assert(data@[i as int].1@.len() > 0);
            return false;
        }
        i = i + 1;
    }
    true
}

/// A backend over a byte vector held in memory, which counts its batched reads.
pub struct MemoryBackend {
    mem: Vec<u8>,
    readonly: bool,
    read_calls: usize,
    reads: Ghost<Seq<Seq<PhysicalReadData>>>,
    oks: Ghost<Seq<bool>>,
    writes: Ghost<Seq<Seq<PhysicalWriteData>>>,
}

impl MemoryBackend {
    /// A writeable backend holding `mem`.
    pub fn new(mem: Vec<u8>) -> (r: MemoryBackend)
        ensures
            r.phys_view() == mem@,
            !r.readonly_spec(),
            r.read_calls_spec() == 0,
            r.read_log().len() == 0,
            r.write_log().len() == 0,
    {
        MemoryBackend { mem, readonly: false, read_calls: 0, reads: Ghost(Seq::empty()), oks: Ghost(Seq::empty()), writes: Ghost(Seq::empty()) }
    }

    /// A backend holding `mem` that refuses every write.
    pub fn new_readonly(mem: Vec<u8>) -> (r: MemoryBackend)
        ensures
            r.phys_view() == mem@,
            r.readonly_spec(),
            r.read_calls_spec() == 0,
            r.read_log().len() == 0,
            r.write_log().len() == 0,
    {
        MemoryBackend { mem, readonly: true, read_calls: 0, reads: Ghost(Seq::empty()), oks: Ghost(Seq::empty()), writes: Ghost(Seq::empty()) }
    }

    pub closed spec fn readonly_spec(&self) -> bool {
        self.readonly
    }

    pub closed spec fn read_calls_spec(&self) -> nat {
        self.read_calls as nat
    }

    /// How many batched reads have reached this backend.
    pub fn read_calls(&self) -> (r: usize)
        ensures
            r == self.read_calls_spec(),
    {
        self.read_calls
    }

    /// The bytes held.
    pub fn bytes(&self) -> (r: &Vec<u8>)
        ensures
            r@ == self.phys_view(),
    {
        &self.mem
    }
}

impl PhysicalMemory for MemoryBackend {
    closed spec fn phys_view(&self) -> Seq<u8> {
        self.mem@
    }

    open spec fn inv(&self) -> bool {
        true
    }

    closed spec fn read_log(&self) -> Seq<Seq<PhysicalReadData>> {
        self.reads@
    }

    closed spec fn write_log(&self) -> Seq<Seq<PhysicalWriteData>> {
        self.writes@
    }

    closed spec fn read_oks(&self) -> Seq<bool> {
        self.oks@
    }

    fn phys_read_raw_list(&mut self, data: &mut Vec<PhysicalReadData>) -> (r: Result<(), Error>)
        ensures
            r is Ok <==> reads_in_bounds(old(self).phys_view().len(), old(data)@),
            r is Err ==> r == Err::<(), Error>(Error::OutOfBounds),
            final(self).read_calls_spec() == if old(self).read_calls_spec() < usize::MAX {
                old(self).read_calls_spec() + 1
            } else {
                old(self).read_calls_spec()
            },
            final(self).readonly_spec() == old(self).readonly_spec(),
    {
        self.reads = Ghost(self.reads@.push(data@));
        if self.read_calls < usize::MAX {
            self.read_calls = self.read_calls + 1;
        }
        if !reads_fit(self.mem.len(), data) {
            self.oks = Ghost(self.oks@.push(false));
            return Err(Error::OutOfBounds);
        }
        let n = data.len();
        let mut out: Vec<PhysicalReadData> = Vec::new();
        let mut i: usize = 0;
        while i < n
            invariant
                n == data@.len(),
                i <= n,
                out@.len() == i,
                data@ == old(data)@,
                self.mem@ == old(self).mem@,
                self.reads@ == old(self).reads@.push(old(data)@),
                self.writes@ == old(self).writes@,
                self.oks@ == old(self).oks@,
                reads_in_bounds(self.mem@.len(), data@),
                forall|k: int| 0 <= k < i ==> {
                    let a = data@[k].0.address.0 as int;
                    let len = data@[k].1@.len();
                    &&& #[trigger] out@[k].0 == data@[k].0
                    &&& out@[k].1@.len() == len
                    &&& len > 0 ==> a + len <= self.mem@.len() && out@[k].1@ == self.mem@.subrange(a, a + len)
                },
            decreases n - i,
        {
            let pa = data[i].0;
            let len = data[i].1.len();
            let mut buf: Vec<u8> = Vec::new();
            let mem_len = self.mem.len();
            if len > 0 {
                assert(data@[i as int].1@.len() > 0);
            }
            let mut j: usize = 0;
            while j < len
                invariant
                    mem_len == self.mem@.len(),
                    self.mem@ == old(self).mem@,
                    self.reads@ == old(self).reads@.push(old(data)@),
                    self.writes@ == old(self).writes@,
                self.oks@ == old(self).oks@,
                self.reads@ == old(self).reads@.push(old(data)@),
                self.writes@ == old(self).writes@,
                self.oks@ == old(self).oks@,
                    len > 0 ==> pa.address.0 + len <= mem_len,
                    j <= len,
                    buf@.len() == j,
                    forall|t: int| 0 <= t < j ==> buf@[t] == self.mem@[pa.address.0 + t],
                decreases len - j,
            {
                buf.push(self.mem[pa.address.0 as usize + j]);
                j = j + 1;
            }
            if len > 0 {
                assert(buf@ =~= self.mem@.subrange(pa.address.0 as int, pa.address.0 + len));
            }
            let ghost bv = buf@;
            out.push(PhysicalReadData(pa, buf));
            assert(out@[i as int].0 == data@[i as int].0 && out@[i as int].1@ == bv);
            i = i + 1;
        }
        assert(self.mem@ == old(self).mem@);
        assert(data@ == old(data)@);
        let ghost outv = out@;
        *data = out;
        assert forall|k: int| 0 <= k < old(data)@.len() implies {
            let a = old(data)@[k].0.address.0 as int;
            let len = old(data)@[k].1@.len();
            &&& #[trigger] data@[k].0 == old(data)@[k].0
            &&& data@[k].1@.len() == len
            &&& len > 0 ==> a + len <= old(self).mem@.len() && data@[k].1@ == old(self).mem@.subrange(a, a + len)
        } by {
            assert(outv[k].0 == old(data)@[k].0);
        }
        assert(reads_filled(old(self).mem@, old(data)@, data@));
        self.oks = Ghost(self.oks@.push(true));
        Ok(())
    }

    fn phys_write_raw_list(&mut self, data: &Vec<PhysicalWriteData>) -> (r: Result<(), Error>)
        ensures
            r is Ok <==> !old(self).readonly_spec() && writes_in_bounds(old(self).phys_view().len(), data@),
            r == Err::<(), Error>(Error::ReadOnly) <==> old(self).readonly_spec(),
            r is Err ==> final(self).phys_view() == old(self).phys_view(),
            final(self).read_calls_spec() == old(self).read_calls_spec(),
            final(self).readonly_spec() == old(self).readonly_spec(),
    {
        self.writes = Ghost(self.writes@.push(data@));
        if self.readonly {
            return Err(Error::ReadOnly);
        }
        if !writes_fit(self.mem.len(), data) {
            return Err(Error::OutOfBounds);
        }
        let n = data.len();
        let ghost start = self.mem@;
        let mem_len = self.mem.len();
        let mut i: usize = 0;
        while i < n
            invariant
                n == data@.len(),
                i <= n,
                writes_in_bounds(start.len(), data@),
                start.len() == mem_len,
                self.mem@ == apply_writes(start, data@.take(i as int)),
                self.readonly == old(self).readonly,
                self.writes@ == old(self).writes@.push(data@),
                self.reads@ == old(self).reads@,
                self.oks@ == old(self).oks@,
                self.read_calls == old(self).read_calls,
            decreases n - i,
        {
            proof {
                lemma_apply_writes_len(start, data@.take(i as int));
            }
            let a = data[i].0.address.0;
            let len = data[i].1.len();
            let ghost before = self.mem@;
            assert(self.mem@ =~= write_bytes(before, a as int, data@[i as int].1@.take(0)));
            let mut j: usize = 0;
            while j < len
                invariant
                    i < n,
                    n == data@.len(),
                    a == data@[i as int].0.address.0,
                    len == data@[i as int].1@.len(),
                    writes_in_bounds(start.len(), data@),
                    before.len() == start.len(),
                    start.len() == mem_len,
                    self.readonly == old(self).readonly,
                    self.writes@ == old(self).writes@.push(data@),
                    self.reads@ == old(self).reads@,
                self.oks@ == old(self).oks@,
                self.writes@ == old(self).writes@.push(data@),
                self.reads@ == old(self).reads@,
                self.oks@ == old(self).oks@,
                    self.read_calls == old(self).read_calls,
                    j <= len,
                    self.mem@ == write_bytes(before, a as int, data@[i as int].1@.take(j as int)),
                decreases len - j,
            {
                assert(data@[i as int].1@.len() > 0);
                let b = data[i].1[j];
                self.mem.set(a as usize + j, b);
                assert(self.mem@ =~= write_bytes(before, a as int, data@[i as int].1@.take(j + 1)));
                j = j + 1;
            }
            assert(data@[i as int].1@.take(len as int) =~= data@[i as int].1@);
            assert(data@.take(i + 1).drop_last() =~= data@.take(i as int));
            assert(data@.take(i + 1).last() == data@[i as int]);
            i = i + 1;
        }
        assert(data@.take(n as int) =~= data@);
        Ok(())
    }

    fn metadata(&self) -> (r: PhysicalMemoryMetadata)
        ensures
            r.readonly == self.readonly_spec(),
    {
        PhysicalMemoryMetadata { size: self.mem.len(), readonly: self.readonly }
    }

    /// The map is not used: this backend's contents are addressed directly.
    fn set_mem_map(&mut self, mem_map: Vec<MemoryMapping>)
        ensures
            final(self).phys_view() == old(self).phys_view(),
            final(self).read_calls_spec() == old(self).read_calls_spec(),
            final(self).readonly_spec() == old(self).readonly_spec(),
    {
    }
}

} // verus!
