//! Little-endian integers inside byte sequences.
//!
//! Every multi-byte integer in the protocol is little-endian, so one set of
//! readings and writings serves all of it. Floating-point fields travel as
//! their 32-bit patterns and are never interpreted here.
use vstd::prelude::*;

verus! {

/// The 16-bit word that starts at `at`.
#[verifier::opaque]
pub open spec fn le16(s: Seq<u8>, at: int) -> u16 {
    (s[at] + 0x100 * s[at + 1]) as u16
}

/// The 32-bit word that starts at `at`.
#[verifier::opaque]
pub open spec fn le32(s: Seq<u8>, at: int) -> u32 {
    (s[at] + 0x100 * s[at + 1] + 0x1_0000 * s[at + 2] + 0x100_0000 * s[at + 3]) as u32
}

/// The 64-bit word that starts at `at`.
#[verifier::opaque]
pub open spec fn le64(s: Seq<u8>, at: int) -> u64 {
    (le32(s, at) + 0x1_0000_0000 * le32(s, at + 4)) as u64
}

/// A 32-bit word read as a two's-complement number.
pub open spec fn signed(word: u32) -> i32 {
    if word < 0x8000_0000 {
        word as i32
    } else {
        (word - 0x1_0000_0000) as i32
    }
}

/// The two bytes of a 16-bit word, low byte first.
#[verifier::opaque]
pub open spec fn bytes16(x: u16) -> Seq<u8> {
    seq![(x % 0x100) as u8, (x / 0x100) as u8]
}

/// The four bytes of a 32-bit word, low byte first.
#[verifier::opaque]
pub open spec fn bytes32(x: u32) -> Seq<u8> {
    seq![
        (x % 0x100) as u8,
        (x / 0x100 % 0x100) as u8,
        (x / 0x1_0000 % 0x100) as u8,
        (x / 0x100_0000) as u8,
    ]
}

/// The eight bytes of a 64-bit word, low byte first.
#[verifier::opaque]
pub open spec fn bytes64(x: u64) -> Seq<u8> {
    bytes32((x % 0x1_0000_0000) as u32) + bytes32((x / 0x1_0000_0000) as u32)
}

/// A 16-bit word takes two bytes.
pub broadcast proof fn lemma_bytes16_len(x: u16)
    ensures
        (#[trigger] bytes16(x)).len() == 2,
{
    reveal(bytes16);
}

/// A 32-bit word takes four bytes.
pub broadcast proof fn lemma_bytes32_len(x: u32)
    ensures
        (#[trigger] bytes32(x)).len() == 4,
{
    reveal(bytes32);
}

/// A 64-bit word takes eight bytes.
pub broadcast proof fn lemma_bytes64_len(x: u64)
    ensures
        (#[trigger] bytes64(x)).len() == 8,
{
    reveal(bytes32);
    reveal(bytes64);
}

pub broadcast group group_word_lengths {
    lemma_bytes16_len,
    lemma_bytes32_len,
    lemma_bytes64_len,
}

/// Whether `part` stands in `data` at `at`.
#[verifier::opaque]
pub open spec fn holds(data: Seq<u8>, at: int, part: Seq<u8>) -> bool {
    &&& 0 <= at
    &&& at + part.len() <= data.len()
    &&& data.subrange(at, at + part.len()) == part
}

/// A part made of two stands where its halves stand one behind the other.
pub proof fn lemma_holds_both(data: Seq<u8>, at: int, a: Seq<u8>, b: Seq<u8>)
    requires
        holds(data, at, a + b),
    ensures
        holds(data, at, a),
        holds(data, at + a.len(), b),
        0 <= at,
        at + a.len() + b.len() <= data.len(),
{
    reveal(holds);
    let whole = data.subrange(at, at + a.len() + b.len());
    assert(whole == a + b);
    assert(data.subrange(at, at + a.len()) =~= whole.subrange(0, a.len() as int));
    assert(data.subrange(at + a.len(), at + a.len() + b.len()) =~= whole.subrange(
        a.len() as int,
        whole.len() as int,
    ));
    assert(whole.subrange(0, a.len() as int) =~= a);
    assert(whole.subrange(a.len() as int, whole.len() as int) =~= b);
}

/// Reading back the byte that was written.
pub proof fn lemma_byte_of(s: Seq<u8>, at: int, x: u8)
    requires
        holds(s, at, seq![x]),
    ensures
        s[at] == x,
        at + 1 <= s.len(),
{
    reveal(holds);
    assert(s.subrange(at, at + 1)[0] == x);
}

/// A sequence holds itself.
pub proof fn lemma_holds_whole(s: Seq<u8>)
    ensures
        holds(s, 0, s),
{
    reveal(holds);
    assert(s.subrange(0, s.len() as int) =~= s);
}

/// Reading back the 16-bit word that was written.
pub proof fn lemma_le16_of_bytes(s: Seq<u8>, at: int, x: u16)
    requires
        holds(s, at, bytes16(x)),
    ensures
        le16(s, at) == x,
        at + 2 <= s.len(),
{
    reveal(holds);
    reveal(le16);
    reveal(bytes16);
    let part = s.subrange(at, at + 2);
    assert(part[0] == s[at] && part[1] == s[at + 1]);
}

/// A 32-bit word is the sum of its bytes, each at its weight.
proof fn lemma_four_bytes(x: u32)
    ensures
        x == x % 0x100 + 0x100 * (x / 0x100 % 0x100) + 0x1_0000 * (x / 0x1_0000 % 0x100)
            + 0x100_0000 * (x / 0x100_0000),
        x / 0x100_0000 < 0x100,
{
    let (a, b) = (x / 0x100, x / 0x1_0000);
    assert(a / 0x100 == b);
    assert(b / 0x100 == x / 0x100_0000);
    assert(x == x % 0x100 + 0x100 * a);
    assert(a == a % 0x100 + 0x100 * b);
    assert(b == b % 0x100 + 0x100 * (b / 0x100));
}

/// Reading back the 32-bit word that was written.
pub proof fn lemma_le32_of_bytes(s: Seq<u8>, at: int, x: u32)
    requires
        holds(s, at, bytes32(x)),
    ensures
        le32(s, at) == x,
        at + 4 <= s.len(),
{
    reveal(holds);
    reveal(le32);
    reveal(bytes32);
    lemma_four_bytes(x);
    let part = s.subrange(at, at + 4);
    assert(part[0] == s[at] && part[1] == s[at + 1] && part[2] == s[at + 2] && part[3] == s[at
        + 3]);
}

/// Reading back the 64-bit word that was written.
pub proof fn lemma_le64_of_bytes(s: Seq<u8>, at: int, x: u64)
    requires
        holds(s, at, bytes64(x)),
    ensures
        le64(s, at) == x,
        at + 8 <= s.len(),
{
    reveal(le64);
    reveal(bytes64);
    let low = (x % 0x1_0000_0000) as u32;
    let high = (x / 0x1_0000_0000) as u32;
    lemma_bytes32_len(low);
    lemma_bytes32_len(high);
    lemma_holds_both(s, at, bytes32(low), bytes32(high));
    lemma_le32_of_bytes(s, at, low);
    lemma_le32_of_bytes(s, at + 4, high);
}

/// A 32-bit word as a signed number.
pub fn to_signed(word: u32) -> (r: i32)
    ensures
        r == signed(word),
{
    if word < 0x8000_0000 {
        word as i32
    } else {
        (word as i64 - 0x1_0000_0000) as i32
    }
}

/// Reads the 16-bit word that starts at `at`.
pub fn read16(s: &[u8], at: usize) -> (r: u16)
    requires
        at + 2 <= s@.len(),
    ensures
        r == le16(s@, at as int),
{
    reveal(le16);
    s[at] as u16 + 0x100 * s[at + 1] as u16
}

/// Reads the 32-bit word that starts at `at`.
pub fn read32(s: &[u8], at: usize) -> (r: u32)
    requires
        at + 4 <= s@.len(),
    ensures
        r == le32(s@, at as int),
{
    reveal(le32);
    s[at] as u32 + 0x100 * s[at + 1] as u32 + 0x1_0000 * s[at + 2] as u32 + 0x100_0000 * s[at
        + 3] as u32
}

/// Reads the 64-bit word that starts at `at`.
pub fn read64(s: &[u8], at: usize) -> (r: u64)
    requires
        at + 8 <= s@.len(),
    ensures
        r == le64(s@, at as int),
{
    reveal(le64);
    assert(at + 8 <= s.len());
    let low: u32 = read32(s, at);
    let high: u32 = read32(s, at + 4);
    low as u64 + 0x1_0000_0000 * high as u64
}

/// Appends a run of bytes.
pub fn push_all(out: &mut Vec<u8>, bytes: &[u8])
    ensures
        final(out)@ == old(out)@ + bytes@,
{
    out.extend_from_slice(bytes);
    assert(out@ =~= old(out)@ + bytes@);
}

/// Appends a 16-bit word.
pub fn push16(out: &mut Vec<u8>, x: u16)
    ensures
        final(out)@ == old(out)@ + bytes16(x),
{
    out.push((x % 0x100) as u8);
    out.push((x / 0x100) as u8);
    reveal(bytes16);
    assert(out@ =~= old(out)@ + bytes16(x));
}

/// Appends a 32-bit word.
pub fn push32(out: &mut Vec<u8>, x: u32)
    ensures
        final(out)@ == old(out)@ + bytes32(x),
{
    out.push((x % 0x100) as u8);
    out.push((x / 0x100 % 0x100) as u8);
    out.push((x / 0x1_0000 % 0x100) as u8);
    out.push((x / 0x100_0000) as u8);
    reveal(bytes32);
    assert(out@ =~= old(out)@ + bytes32(x));
}

/// Appends a 64-bit word.
pub fn push64(out: &mut Vec<u8>, x: u64)
    ensures
        final(out)@ == old(out)@ + bytes64(x),
{
    push32(out, (x % 0x1_0000_0000) as u32);
    push32(out, (x / 0x1_0000_0000) as u32);
    reveal(bytes64);
    assert(out@ =~= old(out)@ + bytes64(x));
}

/// Whether two runs of bytes are the same.
pub fn same_bytes(a: &[u8], b: &[u8]) -> (r: bool)
    ensures
        r == (a@ == b@),
{
    if a.len() != b.len() {
        return false;
    }
    let mut i: usize = 0;
    while i < a.len()
        invariant
            a@.len() == b@.len(),
            i <= a@.len(),
            forall|k: int| 0 <= k < i ==> a@[k] == b@[k],
        decreases a@.len() - i,
    {
        if a[i] != b[i] {
            return false;
        }
        i += 1;
    }
    assert(a@ =~= b@);
    true
}

} // verus!
