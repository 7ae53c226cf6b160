//! Text: decoding what arrives as bytes, and spelling out numbers.
use vstd::prelude::*;
use vstd::string::*;
use vstd::utf8::*;

verus! {

/// What `String::from_utf8_lossy` makes of a run of bytes.
pub uninterp spec fn lossy_utf8(bytes: Seq<u8>) -> Seq<char>;

/// What `str::to_uppercase` makes of a text.
pub uninterp spec fn uppercased(text: Seq<char>) -> Seq<char>;

/// Decodes bytes with `String::from_utf8_lossy`.
///
/// The contract claims that the text is a function of the bytes alone, and
/// that bytes which are valid UTF-8 decode to the text they encode. How
/// invalid bytes are replaced is left to the name.
#[verifier::external_body]
pub(crate) fn decode_lossy(bytes: &[u8]) -> (r: String)
    ensures
        r@ == lossy_utf8(bytes@),
        valid_utf8(bytes@) ==> r@ == decode_utf8(bytes@),
{
    String::from_utf8_lossy(bytes).into_owned()
}

/// Upper-cases a text with `str::to_uppercase`.
///
/// The contract claims that the result is a function of the text alone; the
/// Unicode tables behind it are left to the name.
#[verifier::external_body]
pub(crate) fn to_upper(text: &str) -> (r: String)
    ensures
        r@ == uppercased(text@),
{
    text.to_uppercase()
}

/// The characters that seven-bit bytes stand for.
pub open spec fn ascii_chars(bytes: Seq<u8>) -> Seq<char> {
    Seq::new(bytes.len(), |i: int| bytes[i] as char)
}

/// A text out of seven-bit bytes.
pub fn ascii_text(bytes: &[u8]) -> (r: String)
    requires
        forall|i: int| 0 <= i < bytes@.len() ==> bytes@[i] < 0x80,
    ensures
        r@ == ascii_chars(bytes@),
{
    proof {
        let chars = ascii_chars(bytes@);
        is_ascii_chars_encode_utf8(chars);
        assert(encode_utf8(chars) =~= bytes@);
        encode_utf8_valid_utf8(chars);
        encode_utf8_decode_utf8(chars);
    }
    decode_lossy(bytes)
}

/// The ASCII byte of one digit below sixteen.
pub open spec fn digit(d: int) -> u8 {
    if d < 10 {
        (0x30 + d) as u8
    } else {
        (0x57 + d) as u8
    }
}

/// A number written out in a base of at most sixteen, as ASCII bytes.
pub open spec fn numeral(n: int, base: int) -> Seq<u8>
    decreases n,
{
    if n < base || base < 2 {
        seq![digit(n)]
    } else {
        proof {
            assert(0 <= n / base < n) by (nonlinear_arith)
                requires
                    n >= base,
                    base >= 2,
            ;
        }
        numeral(n / base, base).push(digit(n % base))
    }
}

/// A number written out with exactly `width` digits, as ASCII bytes.
pub open spec fn padded(n: int, base: int, width: nat) -> Seq<u8>
    decreases width,
{
    if width == 0 {
        seq![]
    } else {
        padded(n / base, base, (width - 1) as nat).push(digit(n % base))
    }
}

/// A number in decimal.
pub open spec fn decimal(n: int) -> Seq<char> {
    ascii_chars(numeral(n, 10))
}

/// A number in hexadecimal, without leading zeroes or prefix.
pub open spec fn hex(n: int) -> Seq<char> {
    ascii_chars(numeral(n, 16))
}

/// A number in hexadecimal with exactly `width` digits.
pub open spec fn hex_padded(n: int, width: nat) -> Seq<char> {
    ascii_chars(padded(n, 16, width))
}

fn digit_of(d: u64) -> (r: u8)
    requires
        d < 16,
    ensures
        r == digit(d as int),
        r < 0x80,
{
    if d < 10 {
        0x30 + d as u8
    } else {
        0x57 + d as u8
    }
}

fn push_numeral(out: &mut Vec<u8>, n: u64, base: u64)
    requires
        2 <= base <= 16,
        forall|i: int| 0 <= i < old(out)@.len() ==> old(out)@[i] < 0x80,
    ensures
        final(out)@ == old(out)@ + numeral(n as int, base as int),
        forall|i: int| 0 <= i < final(out)@.len() ==> final(out)@[i] < 0x80,
    decreases n,
{
    if n >= base {
        assert(n / base < n) by (nonlinear_arith)
            requires
                n >= base,
                base >= 2,
        ;
        push_numeral(out, n / base, base);
        assert(n % base < base) by (nonlinear_arith)
            requires
                base >= 2,
        ;
    }
    out.push(digit_of(n % base));
    assert(n < base ==> n % base == n) by (nonlinear_arith)
        requires
            base >= 2,
            n >= 0,
    ;
    assert(out@ =~= old(out)@ + numeral(n as int, base as int));
}

fn push_padded(out: &mut Vec<u8>, n: u64, width: usize)
    requires
        forall|i: int| 0 <= i < old(out)@.len() ==> old(out)@[i] < 0x80,
    ensures
        final(out)@ == old(out)@ + padded(n as int, 16, width as nat),
        forall|i: int| 0 <= i < final(out)@.len() ==> final(out)@[i] < 0x80,
    decreases width,
{
    if width > 0 {
        push_padded(out, n / 16, width - 1);
        out.push(digit_of(n % 16));
    }
    assert(out@ =~= old(out)@ + padded(n as int, 16, width as nat));
}

/// A number in decimal.
pub fn decimal_text(n: u64) -> (r: String)
    ensures
        r@ == decimal(n as int),
{
    let mut out: Vec<u8> = Vec::new();
    push_numeral(&mut out, n, 10);
    assert(out@ =~= numeral(n as int, 10));
    ascii_text(out.as_slice())
}

/// A number in hexadecimal, without leading zeroes or prefix.
pub fn hex_text(n: u64) -> (r: String)
    ensures
        r@ == hex(n as int),
{
    let mut out: Vec<u8> = Vec::new();
    push_numeral(&mut out, n, 16);
    assert(out@ =~= numeral(n as int, 16));
    ascii_text(out.as_slice())
}

/// A number in hexadecimal with exactly `width` digits.
pub fn hex_padded_text(n: u64, width: usize) -> (r: String)
    ensures
        r@ == hex_padded(n as int, width as nat),
{
    let mut out: Vec<u8> = Vec::new();
    push_padded(&mut out, n, width);
    assert(out@ =~= padded(n as int, 16, width as nat));
    ascii_text(out.as_slice())
}

/// Whether a character is an ASCII letter or digit.
pub open spec fn alphanumeric(c: char) -> bool {
    ('0' <= c && c <= '9') || ('A' <= c && c <= 'Z') || ('a' <= c && c <= 'z')
}

/// A name with everything but ASCII letters and digits turned into `_`.
pub open spec fn safe_name(name: Seq<char>) -> Seq<char> {
    Seq::new(
        name.len(),
        |i: int|
            if alphanumeric(name[i]) {
                name[i]
            } else {
                '_'
            },
    )
}

/// Reduces a name that came off the wire to characters that no path is made
/// of.
pub fn file_safe(name: &str) -> (r: String)
    ensures
        r@ == safe_name(name@),
{
    let mut bytes: Vec<u8> = Vec::new();
    let len: usize = name.unicode_len();
    for i in 0..len
        invariant
            len == name@.len(),
            bytes@.len() == i,
            forall|k: int| 0 <= k < i ==> #[trigger] bytes@[k] < 0x80,
            forall|k: int| 0 <= k < i ==> #[trigger] bytes@[k] as char == safe_name(name@)[k],
    {
        let c = name.get_char(i);
        if ('0' <= c && c <= '9') || ('A' <= c && c <= 'Z') || ('a' <= c && c <= 'z') {
            bytes.push(c as u8);
        } else {
            bytes.push(0x5F);
        }
    }
    assert(ascii_chars(bytes@) =~= safe_name(name@));
    ascii_text(&bytes)
}

} // verus!
