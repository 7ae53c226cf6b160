//! World server packet framing, and the bodies of the handshake and the
//! character screen.
//!
//! Framing is asymmetric. A client packet carries a 16-bit size and a 32-bit
//! opcode; a server packet carries a 16-bit size and a 16-bit opcode, and the
//! size grows a third byte past 0x7FFF. The size is the one big-endian field
//! of the protocol and counts the opcode as well as the body.
//!
//! Bodies are read through [`Reader`], whose mathematical counterpart is
//! [`Cursor`]. A cursor either stands at an offset or has failed, and once it
//! has failed it stays so; the outcome of a whole parse is then a chain of
//! cursor steps that spells the layout out.
use crate::codec::{deflate, deflated, inflated, sha1, sha1_of, ZlibFault};
use crate::cursor::{
    agrees, lemma_cstrings_sticky, lemma_many_step, lemma_many_sticky, lemma_views_push, many, ran,
    sticky, string_end,
    views, Cursor,
};
use crate::movement::{
    announced, info_bytes, lemma_info_round_trip, lemma_read_info_announced,
    lemma_read_info_sticky, read_info, MovementInfo,
};
use crate::opcode::{client_code, describe, description, ClientOpcode};
use crate::text::{
    decimal, decimal_text, decode_lossy, hex, hex_text, to_upper, uppercased,
};
use crate::update::{
    lemma_guid_round_trip, packed_guid, read_guid, read_packed_guid, write_packed_guid,
};
use crate::wire::{
    bytes32, bytes64, group_word_lengths, holds, le16, le32, le64, lemma_holds_both,
    lemma_holds_whole, lemma_le32_of_bytes, push32, push64, push_all, read16, read32, read64,
    signed, to_signed,
};
use vstd::prelude::*;
use vstd::string::*;
use vstd::utf8::*;

verus! {

broadcast use group_word_lengths;

/// The build this client claims.
pub const BUILD: u32 = 12340;

/// Bytes of header the server puts before a normal packet: size, then opcode.
pub const SERVER_HEADER_LEN: usize = 4;

/// The same, when the size needed a third byte.
pub const SERVER_HEADER_LEN_LARGE: usize = 5;

/// Upper bound on a single packet's payload.
///
/// A sanity limit rather than a protocol constant: it keeps a garbage length
/// from asking for a buffer of megabytes.
pub const MAX_PACKET: usize = 0x10_0000;

/// Bytes of header on a client packet: 16-bit size, 32-bit opcode.
pub const CLIENT_HEADER_LEN: usize = 6;

/// Bytes in the session key that the logon stage agrees on.
pub const SESSION_KEY_LEN: usize = 40;

/// Why a packet, or a file in the same style, was refused.
#[derive(Debug)]
#[allow(inconsistent_fields)]
pub enum Error {
    /// A field needed more bytes than were left.
    Truncated { what: &'static str, at: usize, need: usize, len: usize },
    /// The layout ended before the body did.
    Trailing { what: &'static str, got: usize },
    /// A length past [`MAX_PACKET`].
    Oversized { got: usize },
    /// A length too small to hold an opcode.
    Undersized { got: usize },
    /// Some other packet than the one that was due.
    UnexpectedOpcode { expected: &'static str, got: u16 },
    /// The server turned the session down.
    Refused(String),
    /// A string field without its terminator.
    UnterminatedString { what: &'static str },
    /// A zlib stream that could not be read or written.
    Compress(ZlibFault),
    /// A compressed payload that did not expand to the length it declared.
    CompressedLength { declared: usize, got: usize },
    /// An update block, or a creature's move, of a kind that is not known.
    UnknownUpdateType { got: u8 },
    /// A created object of a kind that is not known.
    UnknownObjectType { got: u8 },
    /// A spell target whose layout is not known.
    UnsupportedSpellTarget { what: &'static str, flags: u32 },
    /// A landed spell that lists misses, whose layout is not known.
    UnconfirmedSpellMisses { count: u8 },
    /// A melee swing with other than one damage block.
    UnconfirmedSwingDamageBlocks { count: u8 },
    /// A power index past the end of the power array.
    UnknownPowerType { got: u8 },
    /// A vendor's row count that disagrees with the body's length.
    VendorRowCount { count: u8, expected: usize, got: usize },
    /// A trainer's row count that the body cannot hold.
    TrainerRowCount { count: u32, expected: usize, got: usize },
    /// A trade slot record out of its turn.
    TradeSlotOutOfOrder { expected: u8, got: u8 },
}

/// What [`Error::message`] says.
pub open spec fn error_text(error: Error) -> Seq<char> {
    match error {
        Error::Truncated { what, at, need, len } => what@ + ": needed "@ + decimal(need as int)
            + " bytes at offset "@ + decimal(at as int) + ", packet holds "@ + decimal(len as int),
        Error::Trailing { what, got } => what@ + ": "@ + decimal(got as int)
            + " trailing bytes left unread"@,
        Error::Oversized { got } => "packet claims "@ + decimal(got as int)
            + " bytes, over the 1048576-byte limit; the header cipher is almost certainly keyed wrong"@,
        Error::Undersized { got } => "packet header claims "@ + decimal(got as int)
            + " bytes, too few to hold even an opcode"@,
        Error::UnexpectedOpcode { expected, got } => "expected "@ + expected@ + ", got "@
            + description(got),
        Error::Refused(reason) => "server refused the session: "@ + reason@,
        Error::UnterminatedString { what } => "string field "@ + what@ + " is not terminated"@,
        Error::Compress(ZlibFault::Incomplete) =>
            "compression failed: incomplete deflate stream"@,
        Error::Compress(ZlibFault::Corrupt) => "compression failed: corrupt deflate stream"@,
        Error::CompressedLength { declared, got } => "compressed payload declared "@ + decimal(
            declared as int,
        ) + " bytes but expanded to "@ + decimal(got as int),
        Error::UnknownUpdateType { got } => "unknown object update type "@ + decimal(got as int),
        Error::UnknownObjectType { got } => "unknown object type "@ + decimal(got as int),
        Error::UnsupportedSpellTarget { what, flags } => what@ + ": target flags 0x"@ + hex(
            flags as int,
        ) + " are not a shape this parser has seen live"@,
        Error::UnconfirmedSpellMisses { count } => "SMSG_SPELL_GO: "@ + decimal(count as int)
            + " miss entries, but no live capture has ever carried one -- their shape is unconfirmed"@,
        Error::UnconfirmedSwingDamageBlocks { count } => "SMSG_ATTACKERSTATEUPDATE: "@ + decimal(
            count as int,
        ) + " damage blocks. Every captured swing carried exactly one, and the per-block width cannot be separated from the packet's tail until one carries a different number -- see `combat::MeleeSwing`"@,
        Error::UnknownPowerType { got } => "SMSG_POWER_UPDATE: power type "@ + decimal(got as int)
            + " is past the end of the power array"@,
        Error::VendorRowCount { count, expected, got } => "SMSG_LIST_INVENTORY: "@ + decimal(
            count as int,
        ) + " rows need "@ + decimal(expected as int) + " bytes but the body has "@ + decimal(
            got as int,
        ) + " left -- the row count and the body disagree, so the header is not where this parser thinks"@,
        Error::TrainerRowCount { count, expected, got } => "SMSG_TRAINER_LIST: "@ + decimal(
            count as int,
        ) + " spells need at least "@ + decimal(expected as int) + " bytes but the body has "@
            + decimal(got as int)
            + " left -- the row count and the body disagree, so the header is not where this parser thinks"@,
        Error::TradeSlotOutOfOrder { expected, got } =>
            "SMSG_TRADE_STATUS_EXTENDED: slot record "@ + decimal(got as int) + " where "@
            + decimal(expected as int) + " was due"@,
    }
}

fn three(a: &str, b: String, c: &str) -> (r: String)
    ensures
        r@ == a@ + b@ + c@,
{
    String::from_str(a).concat(b.as_str()).concat(c)
}

impl Error {
    /// What went wrong, in words.
    pub fn message(&self) -> (r: String)
        ensures
            r@ == error_text(*self),
    {
        match self {
            Error::Truncated { what, at, need, len } => {
                let mut s = String::from_str(what);
                s.append(": needed ");
                s.append(decimal_text(*need as u64).as_str());
                s.append(" bytes at offset ");
                s.append(decimal_text(*at as u64).as_str());
                s.append(", packet holds ");
                s.append(decimal_text(*len as u64).as_str());
                s
            },
            Error::Trailing { what, got } => {
                let mut s = String::from_str(what);
                s.append(": ");
                s.append(decimal_text(*got as u64).as_str());
                s.append(" trailing bytes left unread");
                s
            },
            Error::Oversized { got } => three(
                "packet claims ",
                decimal_text(*got as u64),
                " bytes, over the 1048576-byte limit; the header cipher is almost certainly keyed wrong",
            ),
            Error::Undersized { got } => three(
                "packet header claims ",
                decimal_text(*got as u64),
                " bytes, too few to hold even an opcode",
            ),
            Error::UnexpectedOpcode { expected, got } => {
                let mut s = String::from_str("expected ");
                s.append(expected);
                s.append(", got ");
                s.append(describe(*got).as_str());
                s
            },
            Error::Refused(reason) => String::from_str("server refused the session: ").concat(
                reason.as_str(),
            ),
            Error::UnterminatedString { what } => three(
                "string field ",
                String::from_str(what),
                " is not terminated",
            ),
            Error::Compress(fault) => match fault {
                ZlibFault::Incomplete => String::from_str(
                    "compression failed: incomplete deflate stream",
                ),
                ZlibFault::Corrupt => String::from_str("compression failed: corrupt deflate stream"),
            },
            Error::CompressedLength { declared, got } => three(
                "compressed payload declared ",
                decimal_text(*declared as u64),
                " bytes but expanded to ",
            ).concat(decimal_text(*got as u64).as_str()),
            Error::UnknownUpdateType { got } => String::from_str(
                "unknown object update type ",
            ).concat(decimal_text(*got as u64).as_str()),
            Error::UnknownObjectType { got } => String::from_str("unknown object type ").concat(
                decimal_text(*got as u64).as_str(),
            ),
            Error::UnsupportedSpellTarget { what, flags } => {
                let mut s = String::from_str(what);
                s.append(": target flags 0x");
                s.append(hex_text(*flags as u64).as_str());
                s.append(" are not a shape this parser has seen live");
                s
            },
            Error::UnconfirmedSpellMisses { count } => three(
                "SMSG_SPELL_GO: ",
                decimal_text(*count as u64),
                " miss entries, but no live capture has ever carried one -- their shape is unconfirmed",
            ),
            Error::UnconfirmedSwingDamageBlocks { count } => three(
                "SMSG_ATTACKERSTATEUPDATE: ",
                decimal_text(*count as u64),
                " damage blocks. Every captured swing carried exactly one, and the per-block width cannot be separated from the packet's tail until one carries a different number -- see `combat::MeleeSwing`",
            ),
            Error::UnknownPowerType { got } => three(
                "SMSG_POWER_UPDATE: power type ",
                decimal_text(*got as u64),
                " is past the end of the power array",
            ),
            Error::VendorRowCount { count, expected, got } => {
                let mut s = three("SMSG_LIST_INVENTORY: ", decimal_text(*count as u64), " rows need ");
                s.append(decimal_text(*expected as u64).as_str());
                s.append(" bytes but the body has ");
                s.append(decimal_text(*got as u64).as_str());
                s.append(
                    " left -- the row count and the body disagree, so the header is not where this parser thinks",
                );
                s
            },
            Error::TrainerRowCount { count, expected, got } => {
                let mut s = three(
                    "SMSG_TRAINER_LIST: ",
                    decimal_text(*count as u64),
                    " spells need at least ",
                );
                s.append(decimal_text(*expected as u64).as_str());
                s.append(" bytes but the body has ");
                s.append(decimal_text(*got as u64).as_str());
                s.append(
                    " left -- the row count and the body disagree, so the header is not where this parser thinks",
                );
                s
            },
            Error::TradeSlotOutOfOrder { expected, got } => {
                let mut s = three(
                    "SMSG_TRADE_STATUS_EXTENDED: slot record ",
                    decimal_text(*got as u64),
                    " where ",
                );
                s.append(decimal_text(*expected as u64).as_str());
                s.append(" was due");
                s
            },
        }
    }
}

/// A bounds-checked cursor over a packet body.
///
/// Reading through it keeps the offsets consecutive, and [`Reader::finish`]
/// catches a layout that came out the wrong total length. [`Cursor`] is its
/// view: what a method does is one cursor step.
pub struct Reader<'a> {
    data: &'a [u8],
    at: usize,
    what: &'static str,
}

impl<'a> View for Reader<'a> {
    type V = Cursor;

    closed spec fn view(&self) -> Cursor {
        Cursor { data: self.data@, at: self.at as int, what: self.what, failed: None }
    }
}

impl<'a> Reader<'a> {
    #[verifier::type_invariant]
    closed spec fn within(self) -> bool {
        self.at <= self.data@.len()
    }

    /// Starts at the front of a body. `what` names it in errors.
    pub fn new(data: &'a [u8], what: &'static str) -> (r: Self)
        ensures
            r@ == Cursor::over(data@, what),
    {
        Self { data, at: 0, what }
    }

    /// Takes exactly `need` bytes, or fails.
    pub fn take(&mut self, need: usize) -> (r: Result<&'a [u8], Error>)
        ensures
            ran(r, final(self)@, old(self)@.take(need as int)),
            r matches Ok(s) ==> s@ == old(self)@.data.subrange(
                old(self)@.at,
                old(self)@.at + need,
            ),
            r is Err ==> final(self)@ == old(self)@,
            old(self)@.sound(),
            final(self)@.sound(),
    {
        proof {
            use_type_invariant(&*self);
        }
        if need > self.data.len() - self.at {
            return Err(
                Error::Truncated { what: self.what, at: self.at, need, len: self.data.len() },
            );
        }
        let from: usize = self.at;
        self.at = from + need;
        Ok(&self.data[from..from + need])
    }

    /// Reads one byte.
    pub fn u8(&mut self) -> (r: Result<u8, Error>)
        ensures
            ran(r, final(self)@, old(self)@.take(1)),
            r matches Ok(v) ==> v == old(self)@.byte(),
            r is Err ==> final(self)@ == old(self)@,
            old(self)@.sound(),
            final(self)@.sound(),
    {
        Ok(self.take(1)?[0])
    }

    /// Reads a fixed-width run of bytes that is never interpreted as a number.
    pub fn bytes<const N: usize>(&mut self) -> (r: Result<[u8; N], Error>)
        ensures
            ran(r, final(self)@, old(self)@.take(N as int)),
            r matches Ok(v) ==> v@ == old(self)@.data.subrange(old(self)@.at, old(self)@.at + N),
            r is Err ==> final(self)@ == old(self)@,
            old(self)@.sound(),
            final(self)@.sound(),
    {
        let run = self.take(N)?;
        let mut out = [0u8;N];
        for i in 0..N
            invariant
                run@.len() == N,
                forall|k: int| 0 <= k < i ==> out@[k] == run@[k],
        {
            out[i] = run[i];
        }
        assert(out@ =~= run@);
        Ok(out)
    }

    /// Reads `N` single bytes in a row.
    pub(crate) fn octets<const N: usize>(&mut self) -> (r: Result<[u8; N], Error>)
        ensures
            ran(r, final(self)@, old(self)@.octets(N as int)),
            r matches Ok(v) ==> forall|k: int|
                0 <= k < N ==> #[trigger] v@[k] == old(self)@.data[old(self)@.at + k],
            old(self)@.sound(),
            final(self)@.sound(),
    {
        proof {
            use_type_invariant(&*self);
        }
        let mut out = [0u8;N];
        for i in 0..N
            invariant
                self@ == (Cursor { at: old(self)@.at + i, ..old(self)@ }),
                self@.sound(),
                old(self)@.sound(),
                forall|k: int| 0 <= k < i ==> #[trigger] out@[k] == old(self)@.data[old(self)@.at + k],
        {
            out[i] = self.u8()?;
        }
        Ok(out)
    }

    /// Reads a 16-bit word.
    pub fn u16(&mut self) -> (r: Result<u16, Error>)
        ensures
            ran(r, final(self)@, old(self)@.take(2)),
            r matches Ok(v) ==> v == old(self)@.short(),
            r is Err ==> final(self)@ == old(self)@,
            old(self)@.sound(),
            final(self)@.sound(),
    {
        let b = self.take(2)?;
        reveal(le16);
        Ok(read16(b, 0))
    }

    /// Reads a 32-bit word.
    pub fn u32(&mut self) -> (r: Result<u32, Error>)
        ensures
            ran(r, final(self)@, old(self)@.take(4)),
            r matches Ok(v) ==> v == old(self)@.word(),
            r is Err ==> final(self)@ == old(self)@,
            old(self)@.sound(),
            final(self)@.sound(),
    {
        let b = self.take(4)?;
        reveal(le32);
        Ok(read32(b, 0))
    }

    /// Reads `N` 32-bit words in a row.
    pub(crate) fn words<const N: usize>(&mut self) -> (r: Result<[u32; N], Error>)
        ensures
            ran(r, final(self)@, old(self)@.words(N as int)),
            r matches Ok(w) ==> forall|k: int| 0 <= k < N ==> #[trigger] w@[k] == old(self)@.nth(k),
            old(self)@.sound(),
            final(self)@.sound(),
    {
        proof {
            use_type_invariant(&*self);
        }
        let mut out = [0u32;N];
        for i in 0..N
            invariant
                self@ == (Cursor { at: old(self)@.at + 4 * i, ..old(self)@ }),
                self@.sound(),
                old(self)@.sound(),
                forall|k: int| 0 <= k < i ==> #[trigger] out@[k] == old(self)@.nth(k),
        {
            out[i] = self.u32()?;
        }
        Ok(out)
    }

    /// Reads a 64-bit word.
    pub fn u64(&mut self) -> (r: Result<u64, Error>)
        ensures
            ran(r, final(self)@, old(self)@.take(8)),
            r matches Ok(v) ==> v == old(self)@.long(),
            r is Err ==> final(self)@ == old(self)@,
            old(self)@.sound(),
            final(self)@.sound(),
    {
        let b = self.take(8)?;
        reveal(le32);
        reveal(le64);
        Ok(read64(b, 0))
    }

    /// Reads a signed 32-bit word.
    pub fn i32(&mut self) -> (r: Result<i32, Error>)
        ensures
            ran(r, final(self)@, old(self)@.take(4)),
            r matches Ok(v) ==> v == signed(old(self)@.word()),
            r is Err ==> final(self)@ == old(self)@,
            old(self)@.sound(),
            final(self)@.sound(),
    {
        Ok(to_signed(self.u32()?))
    }

    /// Reads a floating-point field as its bit pattern.
    pub fn f32_bits(&mut self) -> (r: Result<u32, Error>)
        ensures
            ran(r, final(self)@, old(self)@.take(4)),
            r matches Ok(v) ==> v == old(self)@.word(),
            r is Err ==> final(self)@ == old(self)@,
            old(self)@.sound(),
            final(self)@.sound(),
    {
        self.u32()
    }

    /// Reads a NUL-terminated string, consuming the terminator.
    ///
    /// Names are Latin-1 on the wire for most locales, so decoding is lossy
    /// rather than fallible. Where no terminator follows, everything that was
    /// left has been consumed.
    pub fn cstring(&mut self) -> (r: Result<String, Error>)
        ensures
            ran(r, final(self)@, old(self)@.cstring()),
            r matches Ok(s) ==> s@ == old(self)@.text(),
            r is Err ==> final(self)@ == old(self)@.rest(),
            old(self)@.sound(),
            final(self)@.sound(),
    {
        proof {
            use_type_invariant(&*self);
        }
        let start: usize = self.at;
        let mut end: usize = start;
        while end < self.data.len() && self.data[end] != 0
            invariant
                start <= end <= self.data@.len(),
                string_end(self.data@, end as int) == string_end(self.data@, start as int),
                self.at == start,
                self@ == old(self)@,
            decreases self.data@.len() - end,
        {
            end += 1;
        }
        if end >= self.data.len() {
            self.at = end;
            return Err(Error::UnterminatedString { what: self.what });
        }
        let text = decode_lossy(&self.data[start..end]);
        self.at = end + 1;
        Ok(text)
    }

    /// Passes over `n` bytes.
    pub fn skip(&mut self, n: usize) -> (r: Result<(), Error>)
        ensures
            ran(r, final(self)@, old(self)@.take(n as int)),
            r is Err ==> final(self)@ == old(self)@,
            old(self)@.sound(),
            final(self)@.sound(),
    {
        let _ = self.take(n)?;
        Ok(())
    }

    /// Passes over `n` 32-bit words.
    pub(crate) fn skip_words(&mut self, n: usize) -> (r: Result<(), Error>)
        ensures
            ran(r, final(self)@, old(self)@.words(n as int)),
            old(self)@.sound(),
            final(self)@.sound(),
    {
        proof {
            use_type_invariant(&*self);
        }
        for i in 0..n
            invariant
                self@ == (Cursor { at: old(self)@.at + 4 * i, ..old(self)@ }),
                self@.sound(),
                old(self)@.sound(),
        {
            let _ = self.u32()?;
        }
        Ok(())
    }

    /// Reads past `n` strings.
    pub(crate) fn skip_strings(&mut self, n: usize) -> (r: Result<(), Error>)
        ensures
            ran(r, final(self)@, old(self)@.cstrings(n as nat)),
            old(self)@.sound(),
            final(self)@.sound(),
    {
        proof {
            use_type_invariant(&*self);
        }
        for i in 0..n
            invariant
                old(self)@.cstrings(n as nat) == self@.cstrings((n - i) as nat),
                self@.sound(),
                old(self)@.sound(),
        {
            proof {
                if self@.cstring().failed is Some {
                    lemma_cstrings_sticky(self@.cstring(), (n - i - 1) as nat);
                }
            }
            let _ = self.cstring()?;
        }
        Ok(())
    }

    /// How many bytes are left.
    pub fn remaining(&self) -> (r: usize)
        ensures
            r == self@.left(),
            self@.sound(),
    {
        proof {
            use_type_invariant(self);
        }
        self.data.len() - self.at
    }

    /// Takes everything that is left.
    pub fn rest(&mut self) -> (r: &'a [u8])
        ensures
            final(self)@ == old(self)@.rest(),
            r@ == old(self)@.data.subrange(old(self)@.at, old(self)@.data.len() as int),
            old(self)@.sound(),
            final(self)@.sound(),
    {
        proof {
            use_type_invariant(&*self);
        }
        let from: usize = self.at;
        self.at = self.data.len();
        &self.data[from..self.data.len()]
    }

    /// Asserts that the body was consumed exactly.
    pub fn finish(self) -> (r: Result<(), Error>)
        ensures
            r == self@.finish().outcome(()),
    {
        let left: usize = self.remaining();
        if left != 0 {
            return Err(Error::Trailing { what: self.what, got: left });
        }
        Ok(())
    }
}

/// A client packet: the header, then the body.
pub open spec fn client_packet_bytes(opcode: ClientOpcode, body: Seq<u8>) -> Seq<u8> {
    let size = (body.len() + 4) % 0x1_0000;
    seq![(size / 0x100) as u8, (size % 0x100) as u8] + bytes32(client_code(opcode)) + body
}

fn wrapped_size(len: usize) -> (r: usize)
    ensures
        r == (len + 4) % 0x1_0000,
{
    (len % 0x1_0000 + 4) % 0x1_0000
}

/// Builds a client packet: six bytes of header, then the body.
///
/// The size counts the opcode as well as the body, is big-endian, and has
/// sixteen bits: a body past what they can count wraps it. The header is not
/// encrypted here; the caller encrypts exactly the first
/// [`CLIENT_HEADER_LEN`] bytes.
pub fn client_packet(opcode: ClientOpcode, body: &[u8]) -> (r: Vec<u8>)
    ensures
        r@ == client_packet_bytes(opcode, body@),
{
    let mut packet: Vec<u8> = Vec::new();
    let size: usize = wrapped_size(body.len());
    packet.push((size / 0x100) as u8);
    packet.push((size % 0x100) as u8);
    assert(packet@ =~= seq![(size / 0x100) as u8, (size % 0x100) as u8]);
    let code: u32 = opcode.code();
    push32(&mut packet, code);
    push_all(&mut packet, body);
    packet
}

/// The size of a client packet covers everything behind itself, as long as
/// sixteen bits can count it.
pub proof fn lemma_client_size_covers_the_body(opcode: ClientOpcode, body: Seq<u8>)
    requires
        body.len() + 4 <= 0xFFFF,
    ensures
        ({
            let packet = client_packet_bytes(opcode, body);
            &&& packet.len() == CLIENT_HEADER_LEN + body.len()
            &&& 0x100 * packet[0] + packet[1] == packet.len() - 2
        }),
{
}

/// A decoded server header.
#[derive(Debug, Clone, Copy, PartialEq, Eq, Structural)]
pub struct ServerHeader {
    pub opcode: u16,
    /// Payload length, with the opcode already subtracted.
    pub body_len: usize,
}

/// How long a server header is, from its first byte.
pub open spec fn header_len(first: u8) -> usize {
    if first >= 0x80 {
        SERVER_HEADER_LEN_LARGE
    } else {
        SERVER_HEADER_LEN
    }
}

/// The size a server header states: two bytes, or three with the flag bit
/// masked out of the first.
pub open spec fn stated_size(header: Seq<u8>) -> int {
    if header[0] >= 0x80 {
        0x1_0000 * (header[0] - 0x80) + 0x100 * header[1] + header[2]
    } else {
        0x100 * header[0] + header[1]
    }
}

/// What [`parse_server_header`] makes of a header.
pub open spec fn server_header(header: Seq<u8>) -> Result<ServerHeader, Error> {
    let need = if header.len() == 0 {
        SERVER_HEADER_LEN
    } else {
        header_len(header[0])
    };
    let size = stated_size(header);
    if header.len() < need {
        Err(
            Error::Truncated {
                what: "server header",
                at: 0,
                need,
                len: header.len() as usize,
            },
        )
    } else if size < 2 {
        Err(Error::Undersized { got: size as usize })
    } else if size - 2 > MAX_PACKET {
        Err(Error::Oversized { got: (size - 2) as usize })
    } else {
        Ok(
            ServerHeader {
                opcode: le16(header, need - 2),
                body_len: (size - 2) as usize,
            },
        )
    }
}

/// Whether a server header carries a third size byte, from its first byte.
pub fn server_header_len(first: u8) -> (r: usize)
    ensures
        r == header_len(first),
{
    if first >= 0x80 {
        SERVER_HEADER_LEN_LARGE
    } else {
        SERVER_HEADER_LEN
    }
}

/// Decodes a decrypted server header.
pub fn parse_server_header(header: &[u8]) -> (r: Result<ServerHeader, Error>)
    ensures
        r == server_header(header@),
{
    let need: usize = if header.len() == 0 {
        SERVER_HEADER_LEN
    } else {
        server_header_len(header[0])
    };
    if header.len() < need {
        return Err(
            Error::Truncated { what: "server header", at: 0, need, len: header.len() },
        );
    }
    let size: usize = if header[0] >= 0x80 {
        0x1_0000 * (header[0] - 0x80) as usize + 0x100 * header[1] as usize + header[2] as usize
    } else {
        0x100 * header[0] as usize + header[1] as usize
    };
    if size < 2 {
        return Err(Error::Undersized { got: size });
    }
    let body_len: usize = size - 2;
    if body_len > MAX_PACKET {
        return Err(Error::Oversized { got: body_len });
    }
    let opcode: u16 = read16(header, need - 2);
    Ok(ServerHeader { opcode, body_len })
}

/// The payload limit refuses no header with a two-byte size.
pub proof fn lemma_limit_clears_short_headers(header: Seq<u8>)
    requires
        header.len() >= SERVER_HEADER_LEN,
        header[0] < 0x80,
    ensures
        server_header(header) is Ok <==> stated_size(header) >= 2,
{
}

/// What the authentication challenge carries.
#[derive(Debug, Clone)]
pub struct AuthChallenge {
    /// Opaque bytes: the seed is echoed into a hash and never read as a
    /// number.
    pub server_seed: [u8; 4],
}

impl View for AuthChallenge {
    type V = Seq<u8>;

    open spec fn view(&self) -> Seq<u8> {
        self.server_seed@
    }
}

/// What [`parse_auth_challenge`] makes of a body: the seed behind a leading
/// word, with two random numbers of sixteen bytes behind it.
pub open spec fn auth_challenge(body: Seq<u8>) -> Result<Seq<u8>, Error> {
    Cursor::over(body, "SMSG_AUTH_CHALLENGE").take(4).take(4).take(32).finish().outcome(
        body.subrange(4, 8),
    )
}

/// Parses `SMSG_AUTH_CHALLENGE`.
pub fn parse_auth_challenge(body: &[u8]) -> (r: Result<AuthChallenge, Error>)
    ensures
        agrees(r, auth_challenge(body@)),
{
    let mut reader = Reader::new(body, "SMSG_AUTH_CHALLENGE");
    let _one: u32 = reader.u32()?;
    let server_seed = reader.bytes::<4>()?;
    reader.skip(32)?;
    reader.finish()?;
    Ok(AuthChallenge { server_seed })
}

/// The message whose hash proves that the session key is held: the account
/// in upper case, a zero word, both seeds and the key, with no separators.
pub open spec fn auth_message(
    account: Seq<char>,
    client_seed: Seq<u8>,
    server_seed: Seq<u8>,
    session_key: Seq<u8>,
) -> Seq<u8> {
    encode_utf8(uppercased(account)) + bytes32(0) + client_seed + server_seed + session_key
}

/// The proof that the session key is held: the SHA-1 of
/// [`auth_message`].
pub fn auth_digest(
    account: &str,
    client_seed: &[u8; 4],
    server_seed: &[u8; 4],
    session_key: &[u8; SESSION_KEY_LEN],
) -> (r: [u8; 20])
    ensures
        r@ == sha1_of(auth_message(account@, client_seed@, server_seed@, session_key@)),
{
    let upper = to_upper(account);
    let mut message: Vec<u8> = Vec::new();
    push_all(&mut message, upper.as_str().as_bytes());
    assert(message@ =~= encode_utf8(uppercased(account@)));
    push32(&mut message, 0);
    push_all(&mut message, client_seed.as_slice());
    push_all(&mut message, server_seed.as_slice());
    push_all(&mut message, session_key.as_slice());
    sha1(message.as_slice())
}

/// Every input counts, and where it stands: a message settles the account in
/// capitals, both seeds in their order, and the key.
pub proof fn lemma_the_message_settles_its_parts(
    account: Seq<char>,
    client_seed: Seq<u8>,
    server_seed: Seq<u8>,
    session_key: Seq<u8>,
    other: Seq<char>,
    other_client: Seq<u8>,
    other_server: Seq<u8>,
    other_key: Seq<u8>,
)
    requires
        client_seed.len() == 4 && server_seed.len() == 4 && session_key.len() == SESSION_KEY_LEN,
        other_client.len() == 4 && other_server.len() == 4 && other_key.len() == SESSION_KEY_LEN,
        auth_message(account, client_seed, server_seed, session_key) == auth_message(
            other,
            other_client,
            other_server,
            other_key,
        ),
    ensures
        uppercased(account) == uppercased(other),
        client_seed == other_client,
        server_seed == other_server,
        session_key == other_key,
{
    let (a, b) = (encode_utf8(uppercased(account)), encode_utf8(uppercased(other)));
    let whole = auth_message(account, client_seed, server_seed, session_key);
    let same = auth_message(other, other_client, other_server, other_key);
    assert(whole.len() == a.len() + 52 && same.len() == b.len() + 52);
    let n = a.len() as int;
    assert(whole.subrange(0, n) =~= a && same.subrange(0, n) =~= b);
    assert(whole.subrange(n + 4, n + 8) =~= client_seed);
    assert(same.subrange(n + 4, n + 8) =~= other_client);
    assert(whole.subrange(n + 8, n + 12) =~= server_seed);
    assert(same.subrange(n + 8, n + 12) =~= other_server);
    assert(whole.subrange(n + 12, n + 52) =~= session_key);
    assert(same.subrange(n + 12, n + 52) =~= other_key);
    encode_utf8_decode_utf8(uppercased(account));
    encode_utf8_decode_utf8(uppercased(other));
}

/// The session request around its proof and its addon block.
pub open spec fn session_bytes(
    account: Seq<char>,
    realm_id: u32,
    client_seed: Seq<u8>,
    digest: Seq<u8>,
    addons: Seq<u8>,
) -> Seq<u8> {
    bytes32(BUILD) + bytes32(0) + encode_utf8(account) + seq![0u8] + bytes32(0) + client_seed
        + bytes32(0) + bytes32(0) + bytes32(realm_id) + bytes64(0) + digest + addons
}

/// Lays the session request out around its proof and its addon block.
pub fn session_body(
    account: &str,
    realm_id: u32,
    client_seed: &[u8; 4],
    digest: &[u8; 20],
    addons: &[u8],
) -> (r: Vec<u8>)
    ensures
        r@ == session_bytes(account@, realm_id, client_seed@, digest@, addons@),
{
    let mut body: Vec<u8> = Vec::new();
    push32(&mut body, BUILD);
    assert(body@ =~= bytes32(BUILD));
    push32(&mut body, 0);  // login server id
    push_all(&mut body, account.as_bytes());
    let ghost before = body@;
    body.push(0);
    assert(body@ =~= before + seq![0u8]);
    push32(&mut body, 0);  // login server type
    push_all(&mut body, client_seed.as_slice());
    push32(&mut body, 0);  // region id
    push32(&mut body, 0);  // battlegroup id
    push32(&mut body, realm_id);
    push64(&mut body, 0);  // unchecked response
    push_all(&mut body, digest.as_slice());
    push_all(&mut body, addons);
    body
}

/// The manifest of a client without addons: a count and a clock, both zero.
pub open spec fn addon_manifest() -> Seq<u8> {
    bytes32(0) + bytes32(0)
}

/// An addon block around its compressed manifest: the length before
/// compression, then the zlib stream.
pub open spec fn addon_bytes(manifest_len: u32, packed: Seq<u8>) -> Seq<u8> {
    bytes32(manifest_len) + packed
}

/// What [`addon_block`] yields.
pub open spec fn addons() -> Result<Seq<u8>, Error> {
    match deflated(addon_manifest()) {
        Ok(packed) => Ok(addon_bytes(8, packed)),
        Err(fault) => Err(Error::Compress(fault)),
    }
}

/// Lays an addon block out around its compressed manifest.
pub fn addon_frame(manifest_len: u32, packed: &[u8]) -> (r: Vec<u8>)
    ensures
        r@ == addon_bytes(manifest_len, packed@),
{
    let mut block: Vec<u8> = Vec::new();
    push32(&mut block, manifest_len);
    assert(block@ =~= bytes32(manifest_len));
    push_all(&mut block, packed);
    block
}

/// The addon manifest: an uncompressed length, then a zlib stream.
///
/// No addons are loaded, and a well-formed empty manifest says so. The length
/// it declares is that of the expanded stream.
pub fn addon_block() -> (r: Result<Vec<u8>, Error>)
    ensures
        agrees(r, addons()),
        r matches Ok(block) ==> {
            &&& inflated(block@.subrange(4, block@.len() as int)) == Ok::<Seq<u8>, ZlibFault>(
                addon_manifest(),
            )
            &&& le32(block@, 0) == addon_manifest().len()
        },
{
    let mut manifest: Vec<u8> = Vec::new();
    push32(&mut manifest, 0);  // addon count
    assert(manifest@ =~= bytes32(0));
    push32(&mut manifest, 0);  // current time
    match deflate(manifest.as_slice()) {
        Ok(packed) => {
            let block = addon_frame(8, packed.as_slice());
            assert(block@.subrange(4, block@.len() as int) =~= packed@);
            proof {
                reveal(holds);
                assert(block@.subrange(0, 4) =~= bytes32(8));
                lemma_le32_of_bytes(block@, 0, 8);
            }
            Ok(block)
        },
        Err(fault) => Err(Error::Compress(fault)),
    }
}

/// Builds the `CMSG_AUTH_SESSION` body.
///
/// It fails where the addon block cannot be compressed, and nowhere else.
pub fn auth_session(
    account: &str,
    realm_id: u32,
    client_seed: &[u8; 4],
    server_seed: &[u8; 4],
    session_key: &[u8; SESSION_KEY_LEN],
) -> (r: Result<Vec<u8>, Error>)
    ensures
        match addons() {
            Ok(block) => r matches Ok(body) && body@ == session_bytes(
                uppercased(account@),
                realm_id,
                client_seed@,
                sha1_of(
                    auth_message(uppercased(account@), client_seed@, server_seed@, session_key@),
                ),
                block,
            ),
            Err(error) => r == Err::<Vec<u8>, Error>(error),
        },
{
    let upper = to_upper(account);
    let digest = auth_digest(upper.as_str(), client_seed, server_seed, session_key);
    let addons = addon_block()?;
    Ok(session_body(upper.as_str(), realm_id, client_seed, &digest, addons.as_slice()))
}

/// The server's verdict on the session.
#[derive(Debug, Clone, Copy, PartialEq, Eq, Structural)]
pub enum AuthResponse {
    /// Let in. The expansion is 0 for classic, 1 for Burning Crusade, 2 for
    /// Wrath.
    Accepted { expansion: u8 },
    /// Placed in the login queue; another response comes later.
    Queued { position: u32 },
    /// Turned down, with the reason's code.
    Refused { code: u8 },
}

/// What [`describe_response`] says.
pub open spec fn response_name(code: u8) -> &'static str {
    match code {
        0x0C => "ok",
        0x0D => "authentication failed",
        0x0E => "rejected",
        0x0F => "bad server proof",
        0x10 => "server unavailable",
        0x11 => "internal server error",
        0x14 => "client build rejected",
        0x15 => "unknown account",
        0x16 => "incorrect password",
        0x17 => "session expired",
        0x18 => "server shutting down",
        0x19 => "already logging in",
        0x1A => "logon server not found",
        0x1C => "account banned",
        0x1D => "account already online",
        0x1E => "account out of time",
        0x1F => "database busy",
        0x20 => "account suspended",
        0x21 => "blocked by parental controls",
        _ => "refused for an unrecognised reason",
    }
}

/// Names the response codes that call for different sentences.
pub fn describe_response(code: u8) -> (r: &'static str)
    ensures
        r == response_name(code),
{
    match code {
        0x0C => "ok",
        0x0D => "authentication failed",
        0x0E => "rejected",
        0x0F => "bad server proof",
        0x10 => "server unavailable",
        0x11 => "internal server error",
        0x14 => "client build rejected",
        0x15 => "unknown account",
        0x16 => "incorrect password",
        0x17 => "session expired",
        0x18 => "server shutting down",
        0x19 => "already logging in",
        0x1A => "logon server not found",
        0x1C => "account banned",
        0x1D => "account already online",
        0x1E => "account out of time",
        0x1F => "database busy",
        0x20 => "account suspended",
        0x21 => "blocked by parental controls",
        _ => "refused for an unrecognised reason",
    }
}

/// What [`parse_auth_response`] makes of a body.
///
/// Only an acceptance and a queue place have a layout of their own. Any other
/// code is a refusal, whatever follows it.
pub open spec fn auth_response(body: Seq<u8>) -> Result<AuthResponse, Error> {
    let code = Cursor::over(body, "SMSG_AUTH_RESPONSE").take(1);
    if code.failed is Some {
        code.outcome(AuthResponse::Refused { code: 0 })
    } else if body[0] == 0x0C {
        code.take(4).take(1).take(4).take(1).finish().outcome(
            AuthResponse::Accepted { expansion: body[10] },
        )
    } else if body[0] == 0x1B {
        code.take(4).take(1).finish().outcome(AuthResponse::Queued { position: le32(body, 1) })
    } else {
        Ok(AuthResponse::Refused { code: body[0] })
    }
}

/// Parses `SMSG_AUTH_RESPONSE`.
pub fn parse_auth_response(body: &[u8]) -> (r: Result<AuthResponse, Error>)
    ensures
        r == auth_response(body@),
{
    let mut reader = Reader::new(body, "SMSG_AUTH_RESPONSE");
    let code: u8 = reader.u8()?;
    if code == 0x0C {
        reader.skip(4)?;  // billing time remaining
        reader.skip(1)?;  // billing flags
        reader.skip(4)?;  // billing time rested
        let expansion: u8 = reader.u8()?;
        reader.finish()?;
        Ok(AuthResponse::Accepted { expansion })
    } else if code == 0x1B {
        let position: u32 = reader.u32()?;
        reader.skip(1)?;  // free character migration
        reader.finish()?;
        Ok(AuthResponse::Queued { position })
    } else {
        Ok(AuthResponse::Refused { code })
    }
}

/// How a character should look at creation.
#[derive(Debug, Clone, Copy)]
pub struct Appearance {
    pub race: u8,
    pub class: u8,
    pub gender: u8,
    pub skin: u8,
    pub face: u8,
    pub hair_style: u8,
    pub hair_color: u8,
    pub facial_hair: u8,
}

impl Appearance {
    /// A combination valid on every realm, for a caller who only wants *a*
    /// character.
    pub fn human_warrior() -> (r: Self)
        ensures
            r == (Appearance {
                race: 1,
                class: 1,
                gender: 0,
                skin: 0,
                face: 0,
                hair_style: 0,
                hair_color: 0,
                facial_hair: 0,
            }),
    {
        Self {
            race: 1,
            class: 1,
            gender: 0,
            skin: 0,
            face: 0,
            hair_style: 0,
            hair_color: 0,
            facial_hair: 0,
        }
    }
}

/// A creation request: the name with its terminator, the eight choices, and
/// the outfit, which is always zero.
pub open spec fn creation_bytes(name: Seq<char>, look: Appearance) -> Seq<u8> {
    encode_utf8(name) + seq![
        0u8,
        look.race,
        look.class,
        look.gender,
        look.skin,
        look.face,
        look.hair_style,
        look.hair_color,
        look.facial_hair,
        0u8,
    ]
}

/// Builds a creation request.
pub fn char_create(name: &str, look: &Appearance) -> (r: Vec<u8>)
    ensures
        r@ == creation_bytes(name@, *look),
{
    let mut body: Vec<u8> = Vec::new();
    push_all(&mut body, name.as_bytes());
    body.push(0);
    body.push(look.race);
    body.push(look.class);
    body.push(look.gender);
    body.push(look.skin);
    body.push(look.face);
    body.push(look.hair_style);
    body.push(look.hair_color);
    body.push(look.facial_hair);
    body.push(0);
    assert(body@ =~= creation_bytes(name@, *look));
    body
}

fn bare_guid(guid: u64) -> (r: Vec<u8>)
    ensures
        r@ == bytes64(guid),
{
    let mut body: Vec<u8> = Vec::new();
    push64(&mut body, guid);
    assert(body@ =~= bytes64(guid));
    body
}

/// Builds a deletion request: the guid, unpacked.
pub fn char_delete(guid: u64) -> (r: Vec<u8>)
    ensures
        r@ == bytes64(guid),
{
    bare_guid(guid)
}

/// Reads a one-byte result code, as both character-management replies use.
pub fn parse_result_code(body: &[u8], what: &'static str) -> (r: Result<u8, Error>)
    ensures
        r == Cursor::over(body@, what).take(1).outcome(body@[0]),
{
    let mut reader = Reader::new(body, what);
    reader.u8()
}

/// Creation succeeded.
pub const CHAR_CREATE_SUCCESS: u8 = 0x2F;

/// Deletion succeeded.
pub const CHAR_DELETE_SUCCESS: u8 = 0x47;

/// What [`describe_char_result`] says.
pub open spec fn char_result_name(code: u8) -> &'static str {
    match code {
        0x2E => "creation in progress",
        0x2F => "created",
        0x30 => "server error",
        0x31 => "creation failed",
        0x32 => "that name is already taken",
        0x33 => "character creation is disabled",
        0x34 => "the realm does not allow both factions on one account",
        0x35 => "the realm is full",
        0x36 => "the account is at its character limit",
        0x39 => "the account lacks the required expansion",
        0x3A => "that class needs an expansion the account lacks",
        0x3B => "that class needs an existing level 55 character",
        0x46 => "deletion in progress",
        0x47 => "deleted",
        0x48 => "deletion failed",
        _ => "an unrecognised outcome",
    }
}

/// Names the character-management outcomes worth distinguishing.
pub fn describe_char_result(code: u8) -> (r: &'static str)
    ensures
        r == char_result_name(code),
{
    match code {
        0x2E => "creation in progress",
        0x2F => "created",
        0x30 => "server error",
        0x31 => "creation failed",
        0x32 => "that name is already taken",
        0x33 => "character creation is disabled",
        0x34 => "the realm does not allow both factions on one account",
        0x35 => "the realm is full",
        0x36 => "the account is at its character limit",
        0x39 => "the account lacks the required expansion",
        0x3A => "that class needs an expansion the account lacks",
        0x3B => "that class needs an existing level 55 character",
        0x46 => "deletion in progress",
        0x47 => "deleted",
        0x48 => "deletion failed",
        _ => "an unrecognised outcome",
    }
}

/// Asks to enter the world as one character: its guid, unpacked.
pub fn player_login(guid: u64) -> (r: Vec<u8>)
    ensures
        r@ == bytes64(guid),
{
    bare_guid(guid)
}

/// Where the server says the character actually is. All but the map are
/// floating-point bit patterns.
#[derive(Debug, Clone, Copy, PartialEq, Eq, Structural)]
pub struct WorldPosition {
    pub map: u32,
    pub x: u32,
    pub y: u32,
    pub z: u32,
    pub orientation: u32,
}

/// What [`parse_login_verify_world`] makes of a body.
pub open spec fn login_verify_world(body: Seq<u8>) -> Result<WorldPosition, Error> {
    Cursor::over(body, "SMSG_LOGIN_VERIFY_WORLD").words(5).finish().outcome(
        WorldPosition {
            map: le32(body, 0),
            x: le32(body, 4),
            y: le32(body, 8),
            z: le32(body, 12),
            orientation: le32(body, 16),
        },
    )
}

/// Parses `SMSG_LOGIN_VERIFY_WORLD`.
pub fn parse_login_verify_world(body: &[u8]) -> (r: Result<WorldPosition, Error>)
    ensures
        r == login_verify_world(body@),
{
    let mut reader = Reader::new(body, "SMSG_LOGIN_VERIFY_WORLD");
    let w = reader.words::<5>()?;
    reader.finish()?;
    Ok(WorldPosition { map: w[0], x: w[1], y: w[2], z: w[3], orientation: w[4] })
}

fn two_words(a: u32, b: u32) -> (r: Vec<u8>)
    ensures
        r@ == bytes32(a) + bytes32(b),
{
    let mut body: Vec<u8> = Vec::new();
    push32(&mut body, a);
    push32(&mut body, b);
    assert(body@ =~= bytes32(a) + bytes32(b));
    body
}

/// The keepalive. `latency` is the client's own estimate, in milliseconds.
pub fn ping(sequence: u32, latency: u32) -> (r: Vec<u8>)
    ensures
        r@ == bytes32(sequence) + bytes32(latency),
{
    two_words(sequence, latency)
}

/// A body that is one word and nothing else.
pub open spec fn one_word(body: Seq<u8>, what: &'static str) -> Result<u32, Error> {
    Cursor::over(body, what).take(4).finish().outcome(le32(body, 0))
}

/// Parses `SMSG_PONG`: the sequence number that was sent.
pub fn parse_pong(body: &[u8]) -> (r: Result<u32, Error>)
    ensures
        r == one_word(body@, "SMSG_PONG"),
{
    let mut reader = Reader::new(body, "SMSG_PONG");
    let sequence: u32 = reader.u32()?;
    reader.finish()?;
    Ok(sequence)
}

/// Parses the server's clock-sync poll: its counter.
pub fn parse_time_sync_req(body: &[u8]) -> (r: Result<u32, Error>)
    ensures
        r == one_word(body@, "SMSG_TIME_SYNC_REQ"),
{
    let mut reader = Reader::new(body, "SMSG_TIME_SYNC_REQ");
    let counter: u32 = reader.u32()?;
    reader.finish()?;
    Ok(counter)
}

/// Answers a clock-sync poll. `ticks` is the client's uptime in milliseconds.
pub fn time_sync_resp(counter: u32, ticks: u32) -> (r: Vec<u8>)
    ensures
        r@ == bytes32(counter) + bytes32(ticks),
{
    two_words(counter, ticks)
}

/// A movement packet: the mover's packed guid, then its state.
pub open spec fn movement_bytes(mover: u64, info: MovementInfo) -> Seq<u8> {
    packed_guid(mover) + info_bytes(info)
}

/// Builds a movement packet body: the mover's guid, then its state.
pub fn movement(mover: u64, info: &MovementInfo) -> (r: Vec<u8>)
    ensures
        r@ == movement_bytes(mover, *info),
{
    let mut body: Vec<u8> = Vec::new();
    write_packed_guid(mover, &mut body);
    assert(body@ =~= packed_guid(mover));
    info.write(&mut body);
    body
}

/// What [`parse_movement`] makes of a body.
pub open spec fn relayed(body: Seq<u8>) -> Result<(u64, MovementInfo), Error> {
    let (mover, state) = read_guid(Cursor::over(body, "MSG_MOVE_*"));
    let (info, end) = read_info(state);
    end.finish().outcome((mover, info))
}

/// Reads a movement packet relayed from another mover.
pub fn parse_movement(body: &[u8]) -> (r: Result<(u64, MovementInfo), Error>)
    ensures
        r == relayed(body@),
{
    broadcast use lemma_read_info_sticky;

    let mut reader = Reader::new(body, "MSG_MOVE_*");
    let mover: u64 = read_packed_guid(&mut reader)?;
    let info = MovementInfo::read(&mut reader)?;
    reader.finish()?;
    Ok((mover, info))
}

/// A movement that is sent reads back as itself: the same mover, the same
/// state. A state that holds a part which its flags do not announce has no
/// way onto the wire.
pub proof fn lemma_movement_round_trip(mover: u64, info: MovementInfo)
    requires
        announced(info),
    ensures
        relayed(movement_bytes(mover, info)) == Ok::<(u64, MovementInfo), Error>((mover, info)),
{
    let body = movement_bytes(mover, info);
    let c = Cursor::over(body, "MSG_MOVE_*");
    lemma_holds_whole(body);
    lemma_holds_both(body, 0, packed_guid(mover), info_bytes(info));
    lemma_guid_round_trip(c, mover);
    lemma_info_round_trip(read_guid(c).1, info);
}

/// What is read off the wire can be sent again: nothing is read that its
/// flags do not announce.
pub proof fn lemma_what_is_read_can_be_sent(body: Seq<u8>)
    requires
        relayed(body) is Ok,
    ensures
        announced(relayed(body)->Ok_0.1),
{
    lemma_read_info_announced(read_guid(Cursor::over(body, "MSG_MOVE_*")).1);
}

/// A teleport within the current map, which the client must acknowledge.
#[derive(Debug, Clone, Copy, PartialEq, Eq, Structural)]
pub struct Teleport {
    /// Who is being moved.
    pub mover: u64,
    /// The server's ordering counter, echoed straight back.
    pub counter: u32,
    /// Where the character now is.
    pub info: MovementInfo,
}

/// What [`parse_teleport`] makes of a body.
pub open spec fn teleport(body: Seq<u8>) -> Result<Teleport, Error> {
    let (mover, counter) = read_guid(Cursor::over(body, "MSG_MOVE_TELEPORT_ACK"));
    let (info, end) = read_info(counter.take(4));
    end.finish().outcome(Teleport { mover, counter: counter.word(), info })
}

/// Reads `MSG_MOVE_TELEPORT_ACK` as the server sends it: a packed guid, a
/// counter and a movement state.
pub fn parse_teleport(body: &[u8]) -> (r: Result<Teleport, Error>)
    ensures
        r == teleport(body@),
{
    broadcast use lemma_read_info_sticky;

    let mut reader = Reader::new(body, "MSG_MOVE_TELEPORT_ACK");
    let mover: u64 = read_packed_guid(&mut reader)?;
    let counter: u32 = reader.u32()?;
    let info = MovementInfo::read(&mut reader)?;
    reader.finish()?;
    Ok(Teleport { mover, counter, info })
}

/// Equipment slots reported per character: nineteen worn, four bags.
pub const EQUIPMENT_SLOTS: usize = 23;

/// One slot's appearance.
#[derive(Debug, Clone, Copy, PartialEq, Eq, Structural)]
pub struct Equipment {
    pub display_id: u32,
    pub inventory_type: u8,
    pub enchant_aura: u32,
}

impl Default for Equipment {
    fn default() -> (r: Self)
        ensures
            r == (Equipment { display_id: 0, inventory_type: 0, enchant_aura: 0 }),
    {
        Equipment { display_id: 0, inventory_type: 0, enchant_aura: 0 }
    }
}

/// One line of the character list.
#[derive(Debug, Clone)]
pub struct Character {
    pub guid: u64,
    pub name: String,
    pub race: u8,
    pub class: u8,
    pub gender: u8,
    pub skin: u8,
    pub face: u8,
    pub hair_style: u8,
    pub hair_color: u8,
    pub facial_hair: u8,
    pub level: u8,
    pub zone: u32,
    pub map: u32,
    /// Three floating-point bit patterns.
    pub position: [u32; 3],
    pub guild_id: u32,
    pub flags: u32,
    /// Pending appearance change, faction change and similar.
    pub customize_flags: u32,
    pub first_login: bool,
    pub pet_display_id: u32,
    pub pet_level: u32,
    pub pet_family: u32,
    pub equipment: [Equipment; EQUIPMENT_SLOTS],
}

/// A [`Character`] as a mathematical value.
pub struct CharacterView {
    pub guid: u64,
    pub name: Seq<char>,
    /// Race, class, gender, skin, face, hair style, hair colour, facial hair
    /// and level.
    pub traits: Seq<u8>,
    pub zone: u32,
    pub map: u32,
    pub position: Seq<u32>,
    pub guild_id: u32,
    pub flags: u32,
    pub customize_flags: u32,
    pub first_login: bool,
    pub pet_display_id: u32,
    pub pet_level: u32,
    pub pet_family: u32,
    pub equipment: Seq<Equipment>,
}

impl View for Character {
    type V = CharacterView;

    open spec fn view(&self) -> CharacterView {
        CharacterView {
            guid: self.guid,
            name: self.name@,
            traits: seq![
                self.race,
                self.class,
                self.gender,
                self.skin,
                self.face,
                self.hair_style,
                self.hair_color,
                self.facial_hair,
                self.level,
            ],
            zone: self.zone,
            map: self.map,
            position: self.position@,
            guild_id: self.guild_id,
            flags: self.flags,
            customize_flags: self.customize_flags,
            first_login: self.first_login,
            pet_display_id: self.pet_display_id,
            pet_level: self.pet_level,
            pet_family: self.pet_family,
            equipment: self.equipment@,
        }
    }
}

impl Character {
    /// Dead and not yet resurrected.
    pub fn is_ghost(&self) -> (r: bool)
        ensures
            r == (self.flags & 0x2000 != 0),
    {
        self.flags & 0x2000 != 0
    }

    /// The server will demand a rename before this character can be played.
    pub fn needs_rename(&self) -> (r: bool)
        ensures
            r == (self.flags & 0x4000 != 0),
    {
        self.flags & 0x4000 != 0
    }

    /// Whether a pet stands beside the character.
    pub fn has_pet(&self) -> (r: bool)
        ensures
            r == (self.pet_display_id != 0),
    {
        self.pet_display_id != 0
    }
}

/// One equipment slot: display, kind and enchantment.
pub open spec fn equipment_slot(c: Cursor) -> (Equipment, Cursor) {
    (
        Equipment {
            display_id: c.word(),
            inventory_type: c.take(4).byte(),
            enchant_aura: c.take(4).take(1).word(),
        },
        c.take(4).take(1).take(4),
    )
}

/// The equipment of one character.
pub open spec fn equipment(c: Cursor) -> (Seq<Equipment>, Cursor) {
    many(c, EQUIPMENT_SLOTS as nat, |c: Cursor| equipment_slot(c))
}

/// One character of the list.
pub open spec fn character(c: Cursor) -> (CharacterView, Cursor) {
    let traits = c.take(8).cstring();
    let place = traits.octets(9);
    let login = place.words(8);
    let pet = login.take(1);
    let (worn, end) = equipment(pet.words(3));
    (
        CharacterView {
            guid: c.long(),
            name: c.take(8).text(),
            traits: Seq::new(9, |k: int| traits.data[traits.at + k]),
            zone: place.nth(0),
            map: place.nth(1),
            position: seq![place.nth(2), place.nth(3), place.nth(4)],
            guild_id: place.nth(5),
            flags: place.nth(6),
            customize_flags: place.nth(7),
            first_login: login.byte() != 0,
            pet_display_id: pet.nth(0),
            pet_level: pet.nth(1),
            pet_family: pet.nth(2),
            equipment: worn,
        },
        end,
    )
}

/// What [`parse_char_enum`] makes of a body: a count and as many characters.
pub open spec fn char_enum(body: Seq<u8>) -> Result<Seq<CharacterView>, Error> {
    let c = Cursor::over(body, "SMSG_CHAR_ENUM");
    let (list, end) = many(c.take(1), c.byte() as nat, |c: Cursor| character(c));
    end.finish().outcome(list)
}

proof fn lemma_equipment_sticky(c: Cursor)
    requires
        c.failed is Some,
    ensures
        equipment(c).1 == c,
{
    lemma_many_sticky(c, EQUIPMENT_SLOTS as nat, |c: Cursor| equipment_slot(c));
}

proof fn lemma_character_sticky()
    ensures
        sticky(|c: Cursor| character(c)),
{
    assert forall|c: Cursor| c.failed is Some implies #[trigger] character(c).1 == c by {
        lemma_equipment_sticky(c);
    }
}

fn read_equipment(reader: &mut Reader<'_>) -> (r: Result<[Equipment; EQUIPMENT_SLOTS], Error>)
    ensures
        ran(r, final(reader)@, equipment(old(reader)@).1),
        r matches Ok(v) ==> v@ == equipment(old(reader)@).0,
{
    let mut out = [Equipment { display_id: 0, inventory_type: 0, enchant_aura: 0 };
        EQUIPMENT_SLOTS];
    let ghost record = |c: Cursor| equipment_slot(c);
    let ghost all = many(reader@, EQUIPMENT_SLOTS as nat, record);
    assert(out@.subrange(0, 0) + all.0 =~= all.0);
    for i in 0..EQUIPMENT_SLOTS
        invariant
            all.0 == out@.subrange(0, i as int) + many(
                reader@,
                (EQUIPMENT_SLOTS - i) as nat,
                record,
            ).0,
            all.1 == many(reader@, (EQUIPMENT_SLOTS - i) as nat, record).1,
            all == equipment(old(reader)@),
            record == (|c: Cursor| equipment_slot(c)),
    {
        let ghost left = (EQUIPMENT_SLOTS - i) as nat;
        let ghost done = out@.subrange(0, i as int);
        proof {
            lemma_many_step(done, reader@, left, record);
            if equipment_slot(reader@).1.failed is Some {
                lemma_many_sticky(equipment_slot(reader@).1, (left - 1) as nat, record);
            }
        }
        let display_id: u32 = reader.u32()?;
        let inventory_type: u8 = reader.u8()?;
        let enchant_aura: u32 = reader.u32()?;
        out[i] = Equipment { display_id, inventory_type, enchant_aura };
        assert(out@.subrange(0, i + 1) =~= done.push(out@[i as int]));
    }
    assert(out@.subrange(0, EQUIPMENT_SLOTS as int) + seq![] =~= out@);
    Ok(out)
}

fn read_character(reader: &mut Reader<'_>) -> (r: Result<Character, Error>)
    ensures
        ran(r, final(reader)@, character(old(reader)@).1),
        r matches Ok(v) ==> v@ == character(old(reader)@).0,
{
    proof {
        assert forall|c: Cursor| c.failed is Some implies #[trigger] equipment(c).1 == c by {
            lemma_equipment_sticky(c);
        }
    }
    let guid: u64 = reader.u64()?;
    let name = reader.cstring()?;
    let t = reader.octets::<9>()?;
    let p = reader.words::<8>()?;
    let first_login: bool = reader.u8()? != 0;
    let w = reader.words::<3>()?;
    let equipment = read_equipment(reader)?;
    let r = Character {
        guid,
        name,
        race: t[0],
        class: t[1],
        gender: t[2],
        skin: t[3],
        face: t[4],
        hair_style: t[5],
        hair_color: t[6],
        facial_hair: t[7],
        level: t[8],
        zone: p[0],
        map: p[1],
        position: [p[2], p[3], p[4]],
        guild_id: p[5],
        flags: p[6],
        customize_flags: p[7],
        first_login,
        pet_display_id: w[0],
        pet_level: w[1],
        pet_family: w[2],
        equipment,
    };
    proof {
        let expected = character(old(reader)@).0;
        assert(r@.traits =~= expected.traits);
        assert(r@.position =~= expected.position);
    }
    Ok(r)
}

/// Parses `SMSG_CHAR_ENUM`.
pub fn parse_char_enum(body: &[u8]) -> (r: Result<Vec<Character>, Error>)
    ensures
        match r {
            Ok(list) => char_enum(body@) == Ok::<Seq<CharacterView>, Error>(views(list@)),
            Err(error) => char_enum(body@) == Err::<Seq<CharacterView>, Error>(error),
        },
{
    let mut reader = Reader::new(body, "SMSG_CHAR_ENUM");
    let ghost c = reader@;
    let ghost record = |c: Cursor| character(c);
    let ghost all = many(c.take(1), c.byte() as nat, record);
    proof {
        lemma_character_sticky();
        if c.take(1).failed is Some {
            lemma_many_sticky(c.take(1), c.byte() as nat, record);
        }
    }
    let count: u8 = reader.u8()?;
    let mut list: Vec<Character> = Vec::new();
    assert(views(list@) + all.0 =~= all.0);
    for i in 0..count
        invariant
            all.0 == views(list@) + many(reader@, (count - i) as nat, record).0,
            all.1 == many(reader@, (count - i) as nat, record).1,
            char_enum(body@) == all.1.finish().outcome(all.0),
            record == (|c: Cursor| character(c)),
            sticky(record),
    {
        let ghost left = (count - i) as nat;
        proof {
            lemma_many_step(views(list@), reader@, left, record);
            if character(reader@).1.failed is Some {
                lemma_many_sticky(character(reader@).1, (left - 1) as nat, record);
            }
        }
        let one = read_character(&mut reader)?;
        proof {
            lemma_views_push(list@, one);
        }
        list.push(one);
    }
    assert(views(list@) + seq![] =~= views(list@));
    reader.finish()?;
    Ok(list)
}

} // verus!
