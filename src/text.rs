use vstd::prelude::*;

verus! {

/// What the UTF-8 decoding of `b` gives: `None` where the bytes are not
/// valid UTF-8.
pub uninterp spec fn utf8_decode(b: Seq<u8>) -> Option<Seq<char>>;

/// Whether every byte is below 128.
pub open spec fn all_ascii(b: Seq<u8>) -> bool {
    forall|i: int| 0 <= i < b.len() ==> #[trigger] b[i] < 128
}

/// The characters with the codes of the bytes of `b`.
pub open spec fn ascii_chars(b: Seq<u8>) -> Seq<char> {
    b.map_values(|c: u8| c as char)
}

/// Relies on std's `String::from_utf8`: it accepts exactly the valid UTF-8
/// byte strings, and ASCII bytes decode to the characters with the same codes.
#[verifier::external_body]
pub(crate) fn utf8_text(bytes: Vec<u8>) -> (r: Option<String>)
    ensures
        r is None <==> utf8_decode(bytes@) is None,
        r is Some ==> utf8_decode(bytes@) == Some(r->0@),
        all_ascii(bytes@) ==> r is Some && r->0@ == ascii_chars(bytes@),
{
    String::from_utf8(bytes).ok()
}

/// What lossy UTF-8 decoding of `b` gives: each invalid sequence becomes
/// the replacement character.
pub uninterp spec fn utf8_lossy(b: Seq<u8>) -> Seq<char>;

/// Relies on std's `String::from_utf8_lossy`: the result depends on the
/// bytes alone, and ASCII bytes decode to the characters with the same codes.
#[verifier::external_body]
pub(crate) fn lossy_text(bytes: &Vec<u8>) -> (r: String)
    ensures
        r@ == utf8_lossy(bytes@),
        all_ascii(bytes@) ==> r@ == ascii_chars(bytes@),
{
    String::from_utf8_lossy(bytes).into_owned()
}

/// Number of bytes of `b` before its first zero byte, or its length where
/// it has none.
pub open spec fn nul_index(b: Seq<u8>) -> nat
    decreases b.len(),
{
    if b.len() == 0 || b[0] == 0 {
        0
    } else {
        1 + nul_index(b.drop_first())
    }
}

/// `b` up to its first zero byte.
pub open spec fn until_nul(b: Seq<u8>) -> Seq<u8> {
    b.take(nul_index(b) as int)
}

proof fn lemma_nul_index(b: Seq<u8>, i: int)
    requires
        0 <= i <= b.len(),
        forall|j: int| 0 <= j < i ==> b[j] != 0,
        i == b.len() || b[i] == 0,
    ensures
        nul_index(b) == i,
    decreases i,
{
    if i > 0 {
        assert forall|j: int| 0 <= j < i - 1 implies b.drop_first()[j] != 0 by {
            assert(b.drop_first()[j] == b[j + 1]);
        }
        if i < b.len() {
            assert(b.drop_first()[i - 1] == b[i]);
        }
        lemma_nul_index(b.drop_first(), i - 1);
    }
}

/// The first zero byte of `b`, where it has one, stands at `nul_index(b)`,
/// and no byte before it is zero.
pub proof fn lemma_nul_index_facts(b: Seq<u8>)
    ensures
        nul_index(b) <= b.len(),
        nul_index(b) < b.len() ==> b[nul_index(b) as int] == 0,
        forall|j: int| 0 <= j < nul_index(b) ==> b[j] != 0,
    decreases b.len(),
{
    if b.len() > 0 && b[0] != 0 {
        lemma_nul_index_facts(b.drop_first());
        assert forall|j: int| 0 <= j < nul_index(b) implies b[j] != 0 by {
            if j > 0 {
                assert(b[j] == b.drop_first()[j - 1]);
            }
        }
    }
}

/// Cuts `buf` at its first zero byte, where it has one.
pub fn truncate_at_nul(buf: &mut Vec<u8>) -> (found: bool)
    ensures
        final(buf)@ == until_nul(old(buf)@),
        found <==> nul_index(old(buf)@) < old(buf)@.len(),
{
    let n = buf.len();
    let mut i: usize = 0;
    while i < n
        invariant
            n == buf@.len(),
            buf@ == old(buf)@,
            i <= n,
            forall|j: int| 0 <= j < i ==> buf@[j] != 0,
        decreases n - i,
    {
        if buf[i] == 0 {
            proof {
                lemma_nul_index(buf@, i as int);
            }
            buf.truncate(i);
            assert(buf@ =~= until_nul(old(buf)@));
            return true;
        }
        i = i + 1;
    }
    proof {
        lemma_nul_index(buf@, n as int);
    }
    assert(buf@ =~= until_nul(old(buf)@));
    false
}

/// The text before the first zero byte of `buf`, or `None` where `buf` has
/// no zero byte.
pub fn scan_char_string(buf: Vec<u8>) -> (r: Option<String>)
    ensures
        r is Some <==> nul_index(buf@) < buf@.len(),
        r matches Some(s) ==> s@ == utf8_lossy(until_nul(buf@)),
{
    let mut b = buf;
    if truncate_at_nul(&mut b) {
        Some(lossy_text(&b))
    } else {
        None
    }
}

} // verus!
