//! Bodies as they are written, one field behind the other.
//!
//! A layout is read by a chain of steps along a [`Cursor`]. Here it is written
//! down from the other side, as the list of the fields that a sender puts one
//! behind the other. What is written in an order reads back under the names
//! that stand in that order, and the laws of the modules below say so of every
//! layout.
use crate::cursor::{many, string_end, Cursor};
use crate::text::lossy_utf8;
use crate::update::{lemma_guid_round_trip, packed_guid, read_guid};
use crate::wire::{
    bytes16, bytes32, bytes64, group_word_lengths, holds, le32, lemma_byte_of, lemma_holds_both,
    lemma_holds_whole, lemma_le16_of_bytes, lemma_le32_of_bytes, lemma_le64_of_bytes,
};
use vstd::prelude::*;

pub mod blocks;
pub mod handshake;
pub mod memories;
pub mod moves;
pub mod parts;
pub mod queries;
pub mod quests;
pub mod refusals;
pub mod services;
pub mod spells;
pub mod tables;

verus! {

broadcast use group_word_lengths;

/// One field of a body, or a run of fields of one kind.
pub enum Piece {
    Byte(u8),
    Short(u16),
    Word(u32),
    Words(Seq<u32>),
    Long(u64),
    /// An object's number in its packed form.
    Guid(u64),
    /// A string, which a zero byte ends.
    Text(Seq<u8>),
    Bytes(Seq<u8>),
}

/// Words one behind the other, each with its low byte first.
pub open spec fn row_of_words(list: Seq<u32>) -> Seq<u8> {
    Seq::new(4 * list.len(), |i: int| bytes32(list[i / 4])[i % 4])
}

/// A field as it is written.
pub open spec fn piece_bytes(piece: Piece) -> Seq<u8> {
    match piece {
        Piece::Byte(x) => seq![x],
        Piece::Short(x) => bytes16(x),
        Piece::Word(x) => bytes32(x),
        Piece::Words(list) => row_of_words(list),
        Piece::Long(x) => bytes64(x),
        Piece::Guid(guid) => packed_guid(guid),
        Piece::Text(text) => text + seq![0u8],
        Piece::Bytes(bytes) => bytes,
    }
}

/// Fields as they are written, one behind the other.
pub open spec fn written(pieces: Seq<Piece>) -> Seq<u8>
    decreases pieces.len(),
{
    if pieces.len() == 0 {
        seq![]
    } else {
        piece_bytes(pieces[0]) + written(pieces.skip(1))
    }
}

/// A body with nothing written in it yet.
pub open spec fn blank() -> Seq<Piece> {
    Seq::empty()
}

/// Whether a text can stand in a body: the first zero byte would end it.
pub open spec fn zero_free(text: Seq<u8>) -> bool {
    forall|i: int| 0 <= i < text.len() ==> #[trigger] text[i] != 0
}

/// Whether a reading has the fields from the `i`-th on before it, and they end
/// at `end`.
#[verifier::opaque]
pub open spec fn stands(c: Cursor, pieces: Seq<Piece>, i: int, end: int) -> bool {
    &&& c.sound()
    &&& 0 <= i <= pieces.len()
    &&& holds(c.data, c.at, written(pieces.skip(i)))
    &&& end == c.at + written(pieces.skip(i)).len()
}

/// Where a reading gets to behind one field.
pub open spec fn behind(c: Cursor, piece: Piece) -> Cursor {
    Cursor { at: c.at + piece_bytes(piece).len(), ..c }
}

/// What a reading finds in a field, and that it gets past it.
pub open spec fn finds(c: Cursor, piece: Piece) -> bool {
    let next = behind(c, piece);
    match piece {
        Piece::Byte(x) => c.byte() == x && c.take(1) == next && c.octets(1) == next,
        Piece::Short(x) => c.short() == x && c.take(2) == next,
        Piece::Word(x) => c.word() == x && c.nth(0) == x && c.take(4) == next && c.words(1) == next,
        Piece::Words(list) => {
            &&& c.words(list.len() as int) == next
            &&& c.take(4 * (list.len() as int)) == next
            &&& next.at == c.at + 4 * list.len()
            &&& forall|k: int| 0 <= k < list.len() ==> #[trigger] c.nth(k) == list[k]
        },
        Piece::Long(x) => c.long() == x && c.take(8) == next,
        Piece::Guid(guid) => read_guid(c) == (guid, next),
        Piece::Text(text) => zero_free(text) ==> c.text() == lossy_utf8(text) && c.cstring()
            == next,
        Piece::Bytes(bytes) => {
            &&& c.take(bytes.len() as int) == next
            &&& c.octets(bytes.len() as int) == next
            &&& holds(c.data, c.at, bytes)
            &&& c.data.subrange(c.at, c.at + bytes.len()) == bytes
        },
    }
}

proof fn lemma_row_of_words(data: Seq<u8>, at: int, list: Seq<u32>)
    requires
        holds(data, at, row_of_words(list)),
    ensures
        forall|k: int| 0 <= k < list.len() ==> #[trigger] le32(data, at + 4 * k) == list[k],
{
    reveal(holds);
    assert forall|k: int| 0 <= k < list.len() implies #[trigger] le32(data, at + 4 * k)
        == list[k] by {
        let row = row_of_words(list);
        assert(data.subrange(at, at + row.len()) == row);
        assert forall|j: int| 0 <= j < 4 implies data[at + 4 * k + j] == #[trigger] bytes32(
            list[k],
        )[j] by {
            assert(row[4 * k + j] == data.subrange(at, at + row.len())[4 * k + j]);
            assert((4 * k + j) / 4 == k && (4 * k + j) % 4 == j);
        }
        assert(data.subrange(at + 4 * k, at + 4 * k + 4) =~= bytes32(list[k]));
        lemma_le32_of_bytes(data, at + 4 * k, list[k]);
    }
}

proof fn lemma_string_end_at(data: Seq<u8>, at: int, n: int)
    requires
        0 <= at,
        0 <= n,
        at + n < data.len(),
        data[at + n] == 0,
        forall|i: int| at <= i < at + n ==> #[trigger] data[i] != 0,
    ensures
        string_end(data, at) == at + n,
    decreases n,
{
    if n > 0 {
        assert(data[at] != 0);
        lemma_string_end_at(data, at + 1, n - 1);
    }
}

proof fn lemma_finds(c: Cursor, piece: Piece)
    requires
        c.sound(),
        holds(c.data, c.at, piece_bytes(piece)),
    ensures
        finds(c, piece),
        behind(c, piece).sound(),
{
    assert(0 <= c.at && c.at + piece_bytes(piece).len() <= c.data.len()) by {
        reveal(holds);
    }
    match piece {
        Piece::Byte(x) => {
            lemma_byte_of(c.data, c.at, x);
        },
        Piece::Short(x) => {
            lemma_le16_of_bytes(c.data, c.at, x);
        },
        Piece::Word(x) => {
            lemma_le32_of_bytes(c.data, c.at, x);
        },
        Piece::Words(list) => {
            lemma_row_of_words(c.data, c.at, list);
        },
        Piece::Long(x) => {
            lemma_le64_of_bytes(c.data, c.at, x);
        },
        Piece::Guid(guid) => {
            lemma_guid_round_trip(c, guid);
        },
        Piece::Text(text) => {
            if zero_free(text) {
                reveal(holds);
                let n = text.len() as int;
                let whole = c.data.subrange(c.at, c.at + n + 1);
                assert(whole == text + seq![0u8]);
                assert(c.data[c.at + n] == whole[n]);
                assert forall|i: int| c.at <= i < c.at + n implies #[trigger] c.data[i] != 0 by {
                    assert(whole[i - c.at] == text[i - c.at]);
                }
                lemma_string_end_at(c.data, c.at, n);
                assert(c.data.subrange(c.at, c.at + n) =~= whole.subrange(0, n));
                assert(whole.subrange(0, n) =~= text);
            }
        },
        Piece::Bytes(bytes) => {
            reveal(holds);
        },
    }
}

/// Past the next field, which is read as it was written.
pub proof fn lemma_next(c: Cursor, pieces: Seq<Piece>, i: int, end: int)
    requires
        stands(c, pieces, i, end),
        i < pieces.len(),
    ensures
        finds(c, pieces[i]),
        c.sound(),
        stands(behind(c, pieces[i]), pieces, i + 1, end),
        behind(c, pieces[i]).sound(),
{
    reveal(stands);
    let rest = pieces.skip(i);
    assert(rest[0] == pieces[i]);
    assert(rest.skip(1) =~= pieces.skip(i + 1));
    lemma_holds_both(c.data, c.at, piece_bytes(pieces[i]), written(rest.skip(1)));
    lemma_finds(c, pieces[i]);
}

/// Behind the last field the fields end.
pub proof fn lemma_last(c: Cursor, pieces: Seq<Piece>, end: int)
    requires
        stands(c, pieces, pieces.len() as int, end),
    ensures
        c.at == end,
        c.sound(),
{
    reveal(stands);
    assert(pieces.skip(pieces.len() as int) =~= seq![]);
}

/// A reading that has fields before it stands at the first of them.
pub proof fn lemma_stands(c: Cursor, pieces: Seq<Piece>)
    requires
        c.sound(),
        holds(c.data, c.at, written(pieces)),
    ensures
        stands(c, pieces, 0, c.at + written(pieces).len()),
{
    reveal(stands);
    assert(pieces.skip(0) =~= pieces);
}

/// A reading of a whole body stands at its first field, and the last ends
/// where the body does.
pub proof fn lemma_whole(pieces: Seq<Piece>, what: &'static str)
    ensures
        stands(
            Cursor::over(written(pieces), what),
            pieces,
            0,
            written(pieces).len() as int,
        ),
{
    lemma_holds_whole(written(pieces));
    lemma_stands(Cursor::over(written(pieces), what), pieces);
}

/// Two lists of fields, one behind the other.
pub proof fn lemma_written_both(first: Seq<Piece>, second: Seq<Piece>)
    ensures
        written(first + second) == written(first) + written(second),
    decreases first.len(),
{
    if first.len() == 0 {
        assert(first + second =~= second);
        assert(written(first) + written(second) =~= written(second));
    } else {
        assert((first + second).skip(1) =~= first.skip(1) + second);
        lemma_written_both(first.skip(1), second);
        assert(written(first + second) =~= written(first) + written(second));
    }
}

/// One field more.
pub broadcast proof fn lemma_written_push(pieces: Seq<Piece>, piece: Piece)
    ensures
        #[trigger] written(pieces.push(piece)) == written(pieces) + piece_bytes(piece),
{
    assert(pieces.push(piece) =~= pieces + seq![piece]);
    lemma_written_both(pieces, seq![piece]);
    let one = seq![piece];
    assert(one.skip(1) =~= Seq::empty());
    assert(written(one.skip(1)) == Seq::<u8>::empty());
    assert(written(one) =~= piece_bytes(piece));
}

/// One field alone.
pub broadcast proof fn lemma_written_one(piece: Piece)
    ensures
        #[trigger] written(Seq::empty().push(piece)) == piece_bytes(piece),
{
    lemma_written_push(Seq::empty(), piece);
    assert(written(Seq::empty().push(piece)) =~= piece_bytes(piece));
}

pub broadcast group group_written {
    lemma_written_push,
    lemma_written_one,
}

/// Records as they are written, one behind the other.
pub open spec fn in_a_row<S>(items: Seq<S>, bytes: spec_fn(S) -> Seq<u8>) -> Seq<u8>
    decreases items.len(),
{
    if items.len() == 0 {
        seq![]
    } else {
        bytes(items[0]) + in_a_row(items.skip(1), bytes)
    }
}

/// Whether a record reads back from what is written of an item.
pub open spec fn reads_back<S, T>(
    item: S,
    bytes: spec_fn(S) -> Seq<u8>,
    value: spec_fn(S) -> T,
    record: spec_fn(Cursor) -> (T, Cursor),
) -> bool {
    forall|c: Cursor|
        c.sound() && holds(c.data, c.at, bytes(item)) ==> #[trigger] record(c) == (
            value(item),
            (Cursor { at: c.at + bytes(item).len(), ..c }),
        )
}

/// A run of records reads back where each of them does.
pub proof fn lemma_row_reads_back<S, T>(
    c: Cursor,
    items: Seq<S>,
    bytes: spec_fn(S) -> Seq<u8>,
    value: spec_fn(S) -> T,
    record: spec_fn(Cursor) -> (T, Cursor),
)
    requires
        c.sound(),
        holds(c.data, c.at, in_a_row(items, bytes)),
        forall|i: int|
            0 <= i < items.len() ==> reads_back(#[trigger] items[i], bytes, value, record),
    ensures
        many(c, items.len(), record) == (
            items.map_values(value),
            (Cursor { at: c.at + in_a_row(items, bytes).len(), ..c }),
        ),
    decreases items.len(),
{
    if items.len() == 0 {
        assert(items.map_values(value) =~= seq![]);
    } else {
        let rest = items.skip(1);
        lemma_holds_both(c.data, c.at, bytes(items[0]), in_a_row(rest, bytes));
        assert(reads_back(items[0], bytes, value, record));
        let next = record(c).1;
        assert forall|i: int| 0 <= i < rest.len() implies reads_back(
            #[trigger] rest[i],
            bytes,
            value,
            record,
        ) by {
            assert(rest[i] == items[i + 1]);
        }
        lemma_row_reads_back(next, rest, bytes, value, record);
        assert(seq![value(items[0])] + rest.map_values(value) =~= items.map_values(value));
    }
}

/// Records of one size take that size times their number.
pub proof fn lemma_row_len<S>(items: Seq<S>, bytes: spec_fn(S) -> Seq<u8>, size: int)
    requires
        forall|i: int| 0 <= i < items.len() ==> (#[trigger] bytes(items[i])).len() == size,
    ensures
        in_a_row(items, bytes).len() == size * items.len(),
    decreases items.len(),
{
    if items.len() > 0 {
        let rest = items.skip(1);
        assert forall|i: int| 0 <= i < rest.len() implies (#[trigger] bytes(rest[i])).len()
            == size by {
            assert(bytes(items[i + 1]).len() == size);
        }
        lemma_row_len(rest, bytes, size);
        assert(bytes(items[0]).len() == size);
        assert(size * items.len() == size + size * (items.len() - 1)) by (nonlinear_arith);
    } else {
        assert(size * 0 == 0) by (nonlinear_arith);
    }
}

/// The place of one of many records of one size.
pub proof fn lemma_row_at<S>(
    data: Seq<u8>,
    at: int,
    items: Seq<S>,
    bytes: spec_fn(S) -> Seq<u8>,
    size: int,
    i: int,
)
    requires
        holds(data, at, in_a_row(items, bytes)),
        forall|k: int| 0 <= k < items.len() ==> (#[trigger] bytes(items[k])).len() == size,
        0 <= i < items.len(),
    ensures
        holds(data, at + size * i, bytes(items[i])),
    decreases i,
{
    let rest = items.skip(1);
    lemma_holds_both(data, at, bytes(items[0]), in_a_row(rest, bytes));
    assert(bytes(items[0]).len() == size);
    if i > 0 {
        assert forall|k: int| 0 <= k < rest.len() implies (#[trigger] bytes(rest[k])).len()
            == size by {
            assert(bytes(items[k + 1]).len() == size);
        }
        lemma_row_at(data, at + size, rest, bytes, size, i - 1);
        assert(rest[i - 1] == items[i]);
        assert(size * i == size + size * (i - 1)) by (nonlinear_arith);
    } else {
        assert(size * 0 == 0) by (nonlinear_arith);
    }
}

} // verus!
