//! Object updates read back as written: where things are, what their fields
//! hold, and which of them went out of view.
use crate::cursor::{many, Cursor};
use crate::movement::{info_bytes, lemma_info_round_trip, read_info};
use crate::protocol::Error;
use crate::update::{
    before_target, behind_target, block, field_values, guid_list, lemma_guid_round_trip,
    mask_fields, movement_section, object_type, packed_guid, placement, read_guid, spline,
    update_object, word_fields, Block, BlockView, Movement, MovementView, ObjectType, Position,
};
use crate::wire::{group_word_lengths, holds};
use crate::written::handshake::{
    info_pieces, lemma_info_is_written_in_order, lemma_what_can_be_sent, says_only,
};
use crate::written::{
    behind, in_a_row, lemma_last, lemma_next, lemma_row_reads_back, lemma_stands, lemma_whole,
    reads_back, written, Piece,
};
use vstd::prelude::*;

verus! {

broadcast use group_word_lengths;

/// Bytes that are there only where a flag announces them.
pub open spec fn if_set(set: bool, bytes: Seq<u8>) -> Seq<u8> {
    if set {
        bytes
    } else {
        seq![]
    }
}

/// A path that something is following when it comes into view. Nothing of it
/// is kept.
pub struct Following {
    pub flags: u32,
    pub facing: Seq<u8>,
    pub times: Seq<u8>,
    pub modifiers: Seq<u8>,
    pub effect: Seq<u8>,
    pub points: u32,
    pub route: Seq<u8>,
    pub mode: u8,
    pub goal: Seq<u8>,
}

impl Following {
    /// Whether every part has its size: an angle before another object before
    /// a point, of which there is one at most.
    pub open spec fn fits(self) -> bool {
        &&& self.facing.len() == if self.flags & 0x0002_0000 != 0 {
            4nat
        } else if self.flags & 0x0001_0000 != 0 {
            8
        } else if self.flags & 0x0000_8000 != 0 {
            12
        } else {
            0
        }
        &&& self.times.len() == 12
        &&& self.modifiers.len() == 12
        &&& self.effect.len() == 4
        &&& self.route.len() == 12 * self.points
        &&& 12 * self.points <= usize::MAX
        &&& self.goal.len() == 12
    }
}

/// A path as it is written.
pub open spec fn following_pieces(way: Following) -> Seq<Piece> {
    seq![
        Piece::Word(way.flags),
        Piece::Bytes(way.facing),
        Piece::Bytes(way.times),
        Piece::Bytes(way.modifiers),
        Piece::Bytes(way.effect),
        Piece::Word(way.points),
        Piece::Bytes(way.route),
        Piece::Byte(way.mode),
        Piece::Bytes(way.goal),
    ]
}

/// A path that is being followed is read over, to its end and no further.
pub proof fn lemma_following_is_read_over(c: Cursor, way: Following)
    requires
        c.sound(),
        way.fits(),
        holds(c.data, c.at, written(following_pieces(way))),
    ensures
        spline(c) == (Cursor { at: c.at + written(following_pieces(way)).len(), ..c }),
{
    reveal(spline);
    let pieces = following_pieces(way);
    let end = c.at + written(pieces).len();
    lemma_stands(c, pieces);
    lemma_next(c, pieces, 0, end);
    let c1 = c.take(4);
    lemma_next(c1, pieces, 1, end);
    let c2 = c1.take(way.facing.len() as int);
    lemma_next(c2, pieces, 2, end);
    let c3 = c2.take(12);
    lemma_next(c3, pieces, 3, end);
    let c4 = c3.take(12);
    lemma_next(c4, pieces, 4, end);
    let c5 = c4.take(4);
    lemma_next(c5, pieces, 5, end);
    let c6 = c5.take(4);
    lemma_next(c6, pieces, 6, end);
    let c7 = c6.take(12 * way.points);
    lemma_next(c7, pieces, 7, end);
    let c8 = c7.take(1);
    lemma_next(c8, pieces, 8, end);
    let c9 = c8.take(12);
    lemma_last(c9, pieces, end);
}

/// What a section about movement holds beside what is kept of it.
pub struct SectionRest {
    pub way: Following,
    pub transport: u64,
    /// The place as seen from the transport.
    pub relative: Seq<u8>,
    pub corpse: u32,
    pub unknown: Seq<u8>,
    pub low_guid: Seq<u8>,
    pub path_timer: Seq<u8>,
    pub vehicle: Seq<u8>,
    pub rotation: Seq<u8>,
}

impl SectionRest {
    /// Whether every part has its size.
    pub open spec fn fits(self) -> bool {
        &&& self.way.fits()
        &&& self.relative.len() == 12
        &&& self.unknown.len() == 4
        &&& self.low_guid.len() == 4
        &&& self.path_timer.len() == 4
        &&& self.vehicle.len() == 8
        &&& self.rotation.len() == 8
    }
}

/// Whether a section says what its flags announce, and nothing else: something
/// that lives has a movement state, what cannot move has a position at most.
pub open spec fn says_what_it_announces(what: Movement) -> bool {
    &&& if what.flags & 0x20 != 0 {
        &&& what.info matches Some(info) && says_only(info) && what.position == Some(
            info.position,
        ) && what.movement_flags == info.flags
        &&& what.speeds is Some
    } else {
        &&& what.info is None
        &&& what.speeds is None
        &&& what.movement_flags == 0
        &&& what.position is Some <==> what.flags & 0x100 != 0 || what.flags & 0x40 != 0
    }
    &&& what.target is Some <==> what.flags & 0x4 != 0
}

/// Where something is, as it is written: a movement state and nine speeds, a
/// place on a transport, or a place.
pub open spec fn place_bytes(what: Movement, rest: SectionRest) -> Seq<u8> {
    let at = what.position->0;
    if what.flags & 0x20 != 0 {
        written(
            seq![
                Piece::Bytes(written(info_pieces(what.info->0))),
                Piece::Words(what.speeds->0@),
                Piece::Bytes(
                    if_set(
                        what.info->0.flags & 0x0800_0000 != 0,
                        written(following_pieces(rest.way)),
                    ),
                ),
            ],
        )
    } else if what.flags & 0x100 != 0 {
        written(
            seq![
                Piece::Guid(rest.transport),
                Piece::Words(seq![at.x, at.y, at.z]),
                Piece::Bytes(rest.relative),
                Piece::Word(at.orientation),
                Piece::Word(rest.corpse),
            ],
        )
    } else if what.flags & 0x40 != 0 {
        written(seq![
            Piece::Words(seq![at.x, at.y, at.z, at.orientation]),
        ])
    } else {
        seq![]
    }
}

/// Where something is reads back: x, y, z and the direction, each under its
/// own name.
pub proof fn lemma_place_reads_back(c: Cursor, what: Movement, rest: SectionRest)
    requires
        c.sound(),
        says_what_it_announces(what),
        rest.fits(),
        holds(c.data, c.at, place_bytes(what, rest)),
    ensures
        placement(c, what.flags) == (
            MovementView { target: None, ..what@ },
            (Cursor { at: c.at + place_bytes(what, rest).len(), ..c }),
        ),
{
    reveal(placement);
    let at = what.position->0;
    if what.flags & 0x20 != 0 {
        let info = what.info->0;
        lemma_what_can_be_sent(info);
        lemma_info_is_written_in_order(info);
        let path = if_set(info.flags & 0x0800_0000 != 0, written(following_pieces(rest.way)));
        let pieces = seq![
            Piece::Bytes(info_bytes(info)),
            Piece::Words(what.speeds->0@),
            Piece::Bytes(path),
        ];
        let end = c.at + written(pieces).len();
        lemma_stands(c, pieces);
        lemma_next(c, pieces, 0, end);
        lemma_info_round_trip(c, info);
        let c1 = read_info(c).1;
        lemma_next(c1, pieces, 1, end);
        let c2 = c1.words(9);
        assert(Seq::new(9, |k: int| c1.nth(k)) =~= what.speeds->0@);
        lemma_next(c2, pieces, 2, end);
        if info.flags & 0x0800_0000 != 0 {
            lemma_following_is_read_over(c2, rest.way);
        }
        lemma_last(behind(c2, pieces[2]), pieces, end);
    } else if what.flags & 0x100 != 0 {
        let pieces = seq![
            Piece::Guid(rest.transport),
            Piece::Words(seq![at.x, at.y, at.z]),
            Piece::Bytes(rest.relative),
            Piece::Word(at.orientation),
            Piece::Word(rest.corpse),
        ];
        let end = c.at + written(pieces).len();
        lemma_stands(c, pieces);
    lemma_next(c, pieces, 0, end);
    let c1 = read_guid(c).1;
    lemma_next(c1, pieces, 1, end);
    let c2 = c1.words(3);
    assert(c1.nth(0) == at.x);
    assert(c1.nth(1) == at.y);
    assert(c1.nth(2) == at.z);
    lemma_next(c2, pieces, 2, end);
    let c3 = c2.take(12);
    lemma_next(c3, pieces, 3, end);
    let c4 = c3.take(4);
    lemma_next(c4, pieces, 4, end);
    let c5 = c4.take(4);
    lemma_last(c5, pieces, end);
    } else if what.flags & 0x40 != 0 {
        let pieces = seq![
            Piece::Words(seq![at.x, at.y, at.z, at.orientation]),
        ];
        let end = c.at + written(pieces).len();
        lemma_stands(c, pieces);
    lemma_next(c, pieces, 0, end);
    let c1 = c.words(4);
    assert(c.nth(0) == at.x);
    assert(c.nth(1) == at.y);
    assert(c.nth(2) == at.z);
    assert(c.nth(3) == at.orientation);
    lemma_last(c1, pieces, end);
    }
}

/// A section about movement, as it is written.
pub open spec fn section_pieces(what: Movement, rest: SectionRest) -> Seq<Piece> {
    seq![
        Piece::Short(what.flags),
        Piece::Bytes(place_bytes(what, rest)),
        Piece::Bytes(if_set(what.flags & 0x8 != 0, rest.unknown)),
        Piece::Bytes(if_set(what.flags & 0x10 != 0, rest.low_guid)),
        Piece::Bytes(if_set(what.flags & 0x4 != 0, packed_guid(what.target->0))),
        Piece::Bytes(if_set(what.flags & 0x2 != 0, rest.path_timer)),
        Piece::Bytes(if_set(what.flags & 0x80 != 0, rest.vehicle)),
        Piece::Bytes(if_set(what.flags & 0x200 != 0, rest.rotation)),
    ]
}

/// A section about movement reads back: its flags, where the thing is, how it
/// moves, and what it looks at.
pub proof fn lemma_section_reads_back(c: Cursor, what: Movement, rest: SectionRest)
    requires
        c.sound(),
        says_what_it_announces(what),
        rest.fits(),
        holds(c.data, c.at, written(section_pieces(what, rest))),
    ensures
        movement_section(c) == (
            what@,
            (Cursor { at: c.at + written(section_pieces(what, rest)).len(), ..c }),
        ),
{
    reveal(before_target);
    reveal(behind_target);
    let pieces = section_pieces(what, rest);
    let end = c.at + written(pieces).len();
    lemma_stands(c, pieces);
    lemma_next(c, pieces, 0, end);
    let c1 = c.take(2);
    lemma_next(c1, pieces, 1, end);
    lemma_place_reads_back(c1, what, rest);
    let c2 = behind(c1, pieces[1]);
    lemma_next(c2, pieces, 2, end);
    let c3 = behind(c2, pieces[2]);
    lemma_next(c3, pieces, 3, end);
    let c4 = behind(c3, pieces[3]);
    assert(before_target(c2, what.flags) == c4);
    lemma_next(c4, pieces, 4, end);
    let c5 = behind(c4, pieces[4]);
    if what.flags & 0x4 != 0 {
        lemma_guid_round_trip(c4, what.target->0);
    }
    lemma_next(c5, pieces, 5, end);
    let c6 = behind(c5, pieces[5]);
    lemma_next(c6, pieces, 6, end);
    let c7 = behind(c6, pieces[6]);
    lemma_next(c7, pieces, 7, end);
    let c8 = behind(c7, pieces[7]);
    assert(behind_target(c5, what.flags) == c8);
    lemma_last(c8, pieces, end);
}

/// Something that cannot move stands where it is written to stand, whatever
/// else is said of it.
pub proof fn lemma_a_thing_stands_where_it_is_written(
    c: Cursor,
    flags: u16,
    x: u32,
    y: u32,
    z: u32,
    orientation: u32,
)
    requires
        c.sound(),
        flags & 0x40 != 0,
        flags & 0x20 == 0,
        flags & 0x100 == 0,
        holds(
            c.data,
            c.at,
            written(seq![Piece::Short(flags), Piece::Words(seq![x, y, z, orientation])]),
        ),
    ensures
        movement_section(c).0.position == Some(Position { x, y, z, orientation }),
{
    reveal(placement);
    let pieces = seq![Piece::Short(flags), Piece::Words(seq![x, y, z, orientation])];
    let end = c.at + written(pieces).len();
    lemma_stands(c, pieces);
    lemma_next(c, pieces, 0, end);
    let c1 = c.take(2);
    lemma_next(c1, pieces, 1, end);
    assert(c1.nth(0) == x);
    assert(c1.nth(1) == y);
    assert(c1.nth(2) == z);
    assert(c1.nth(3) == orientation);
}

/// Whether the `j`-th bit of a number, from the lowest, is set.
pub open spec fn bit(bits: int, j: nat) -> bool
    decreases j,
{
    if j == 0 {
        bits % 2 == 1
    } else {
        bit(bits / 2, (j - 1) as nat)
    }
}

/// How many of the lowest `n` bits of a number are set.
pub open spec fn ones(bits: int, n: nat) -> nat
    decreases n,
{
    if n == 0 {
        0
    } else {
        ones(bits, (n - 1) as nat) + if bit(bits, (n - 1) as nat) {
            1nat
        } else {
            0
        }
    }
}

/// How many bits are set in the first `n` words.
pub open spec fn ones_before(masks: Seq<u32>, n: nat) -> nat
    decreases n,
{
    if n == 0 {
        0
    } else {
        ones_before(masks, (n - 1) as nat) + ones(masks[n - 1] as int, 32)
    }
}

/// Whether fields are those that masks announce: one for every bit that is
/// set, and the values belong to them in ascending order.
pub open spec fn announces(masks: Seq<u32>, values: Seq<u32>, fields: Map<u16, u32>) -> bool {
    forall|index: u16|
        if index < 32 * masks.len() && bit(masks[index as int / 32] as int, (index % 32) as nat) {
            &&& #[trigger] fields.contains_key(index)
            &&& fields[index] == values[(ones_before(masks, (index / 32) as nat) + ones(
                masks[index as int / 32] as int,
                (index % 32) as nat,
            )) as int]
        } else {
            !fields.contains_key(index)
        }
}

proof fn lemma_ones_front(bits: int, n: nat)
    requires
        n > 0,
    ensures
        ones(bits, n) == ones(bits / 2, (n - 1) as nat) + if bits % 2 == 1 {
            1nat
        } else {
            0
        },
    decreases n,
{
    if n > 1 {
        lemma_ones_front(bits, (n - 1) as nat);
        assert(ones(bits, n) == ones(bits, (n - 1) as nat) + if bit(bits, (n - 1) as nat) {
            1nat
        } else {
            0
        });
        assert(bit(bits, (n - 1) as nat) == bit(bits / 2, (n - 2) as nat));
    } else {
        assert(ones(bits, 1) == ones(bits, 0) + if bit(bits, 0) {
            1nat
        } else {
            0
        });
    }
}

proof fn lemma_ones_grow(bits: int, j: nat, n: nat)
    requires
        j <= n,
    ensures
        ones(bits, j) <= ones(bits, n),
        j < n && bit(bits, j) ==> ones(bits, j) < ones(bits, n),
    decreases n,
{
    if j < n {
        lemma_ones_grow(bits, j, (n - 1) as nat);
    }
}

/// What one mask word makes of one field: a value where its bit is set, and
/// what was there before where it is not.
proof fn lemma_word_field(
    found: Map<u16, u32>,
    c: Cursor,
    bits: int,
    index: int,
    n: nat,
    k: u16,
)
    requires
        c.sound(),
        0 <= index,
        index + n <= 0x1_0000,
        4 * ones(bits, n) <= c.left(),
    ensures
        word_fields(found, c, bits, index, n).1 == (Cursor { at: c.at + 4 * ones(bits, n), ..c }),
        word_fields(found, c, bits, index, n).0.get(k) == if index <= k < index + n && bit(
            bits,
            (k - index) as nat,
        ) {
            Some(c.nth(ones(bits, (k - index) as nat) as int))
        } else {
            found.get(k)
        },
    decreases n,
{
    if n > 0 {
        let set = bits % 2 == 1;
        let (with, next) = if set {
            (found.insert(index as u16, c.word()), c.take(4))
        } else {
            (found, c)
        };
        lemma_ones_front(bits, n);
        lemma_word_field(with, next, bits / 2, index + 1, (n - 1) as nat, k);
        assert(word_fields(found, c, bits, index, n) == word_fields(
            with,
            next,
            bits / 2,
            index + 1,
            (n - 1) as nat,
        ));
        let j = k - index;
        if 0 < j < n {
            lemma_ones_front(bits, j as nat);
            assert(bit(bits, j as nat) == bit(bits / 2, (j - 1) as nat));
            assert(k - (index + 1) == j - 1);
            let low = ones(bits / 2, (j - 1) as nat) as int;
            assert(set ==> next.nth(low) == c.nth(low + 1));
        } else if j == 0 {
            assert(bit(bits, 0) == set);
            assert(ones(bits, 0) == 0);
            assert(c.nth(0) == c.word());
        }
    }
}

proof fn lemma_ones_before_grow(masks: Seq<u32>, w: nat, n: nat)
    requires
        w <= n,
    ensures
        ones_before(masks, w) <= ones_before(masks, n),
        w < n ==> ones_before(masks, w) + ones(masks[w as int] as int, 32) <= ones_before(
            masks,
            n,
        ),
    decreases n,
{
    if w < n {
        lemma_ones_before_grow(masks, w, (n - 1) as nat);
    }
}

/// The value that the masks and the values behind a cursor give one field,
/// counting only the first `w` masks.
spec fn gathered(c: Cursor, masks: Seq<u32>, w: nat, index: u16) -> Option<u32> {
    if index < 32 * w && bit(masks[index as int / 32] as int, (index % 32) as nat) {
        Some(
            c.nth(
                (ones_before(masks, (index / 32) as nat) + ones(
                    masks[index as int / 32] as int,
                    (index % 32) as nat,
                )) as int,
            ),
        )
    } else {
        None
    }
}

proof fn lemma_mask_field(
    found: Map<u16, u32>,
    c: Cursor,
    masks: Seq<u32>,
    word: nat,
    index: u16,
)
    requires
        c.sound(),
        word <= masks.len() < 0x100,
        4 * ones_before(masks, masks.len()) <= c.left(),
        found.get(index) == gathered(c, masks, word, index),
    ensures
        ({
            let here = Cursor { at: c.at + 4 * ones_before(masks, word), ..c };
            let (fields, end) = mask_fields(found, here, masks, word as int);
            &&& end == (Cursor { at: c.at + 4 * ones_before(masks, masks.len()), ..c })
            &&& fields.get(index) == gathered(c, masks, masks.len(), index)
        }),
    decreases masks.len() - word,
{
    if word < masks.len() {
        let before = ones_before(masks, word);
        let here = Cursor { at: c.at + 4 * before, ..c };
        let bits = masks[word as int] as int;
        lemma_ones_before_grow(masks, word, masks.len());
        lemma_word_field(found, here, bits, 32 * (word as int), 32, index);
        let (more, next) = word_fields(found, here, bits, 32 * (word as int), 32);
        let (w, j) = (index as int / 32, index as int % 32);
        assert(more.get(index) == gathered(c, masks, word + 1, index)) by {
            if w == word {
                assert(index - 32 * word == j);
                assert(here.nth(ones(bits, j as nat) as int) == c.nth(
                    (before + ones(bits, j as nat)) as int,
                ));
            }
        }
        assert(ones_before(masks, word + 1) == before + ones(bits, 32));
        lemma_mask_field(more, c, masks, word + 1, index);
    }
}

/// The fields of an object, as they are written: how many mask words, the
/// words, and the values.
pub open spec fn values_pieces(masks: Seq<u32>, values: Seq<u32>) -> Seq<Piece> {
    seq![Piece::Byte(masks.len() as u8), Piece::Words(masks), Piece::Words(values)]
}

/// Fields read back: every bit of the masks is a field, and the values belong
/// to the fields in their order.
pub proof fn lemma_values_read_back(
    c: Cursor,
    masks: Seq<u32>,
    values: Seq<u32>,
    fields: Map<u16, u32>,
)
    requires
        c.sound(),
        masks.len() < 0x100,
        values.len() == ones_before(masks, masks.len()),
        announces(masks, values, fields),
        holds(c.data, c.at, written(values_pieces(masks, values))),
    ensures
        field_values(c) == (
            fields,
            (Cursor { at: c.at + written(values_pieces(masks, values)).len(), ..c }),
        ),
{
    let pieces = values_pieces(masks, values);
    let end = c.at + written(pieces).len();
    lemma_stands(c, pieces);
    lemma_next(c, pieces, 0, end);
    let c1 = c.take(1);
    lemma_next(c1, pieces, 1, end);
    assert(Seq::new(masks.len(), |k: int| c1.nth(k)) =~= masks);
    let c2 = c1.words(masks.len() as int);
    lemma_next(c2, pieces, 2, end);
    lemma_last(c2.words(values.len() as int), pieces, end);
    let read = field_values(c).0;
    assert forall|index: u16| #[trigger] read.get(index) == fields.get(index) by {
        lemma_mask_field(Map::empty(), c2, masks, 0, index);
        lemma_same_field(c2, masks, values, fields, index);
    }
    lemma_mask_field(Map::empty(), c2, masks, 0, 0);
    lemma_same_map(read, fields);
}

proof fn lemma_same_map(a: Map<u16, u32>, b: Map<u16, u32>)
    requires
        forall|index: u16| #[trigger] a.get(index) == b.get(index),
    ensures
        a == b,
{
    assert forall|index: u16| #[trigger] a.dom().contains(index) == b.dom().contains(index) by {
        assert(a.get(index) == b.get(index));
    }
    assert(a.dom() =~= b.dom());
    assert forall|index: u16| #[trigger] a.dom().contains(index) implies a[index] == b[index] by {
        assert(a.get(index) == b.get(index));
    }
    assert(a =~= b);
}

proof fn lemma_same_field(
    c: Cursor,
    masks: Seq<u32>,
    values: Seq<u32>,
    fields: Map<u16, u32>,
    index: u16,
)
    requires
        announces(masks, values, fields),
        values.len() == ones_before(masks, masks.len()),
        forall|k: int| 0 <= k < values.len() ==> #[trigger] c.nth(k) == values[k],
    ensures
        gathered(c, masks, masks.len(), index) == fields.get(index),
{
    let (w, j) = (index as int / 32, index as int % 32);
    assert(fields.contains_key(index) || !fields.contains_key(index));
    if index < 32 * masks.len() && bit(masks[w] as int, j as nat) {
        lemma_ones_before_grow(masks, w as nat, masks.len());
        lemma_ones_grow(masks[w] as int, j as nat, 32);
        let k = ones_before(masks, w as nat) + ones(masks[w] as int, j as nat);
        assert(c.nth(k as int) == values[k as int]);
    }
}

/// The byte that stands for a kind of object.
pub open spec fn object_code(kind: ObjectType) -> u8 {
    match kind {
        ObjectType::Object => 0,
        ObjectType::Item => 1,
        ObjectType::Container => 2,
        ObjectType::Unit => 3,
        ObjectType::Player => 4,
        ObjectType::GameObject => 5,
        ObjectType::DynamicObject => 6,
        ObjectType::Corpse => 7,
    }
}

/// A block as it is written, with what it is made of.
pub enum Entry {
    Values { guid: u64, masks: Seq<u32>, values: Seq<u32>, fields: Map<u16, u32> },
    Movement { guid: u64, movement: Movement, rest: SectionRest },
    Create {
        guid: u64,
        object_type: ObjectType,
        spawned: bool,
        movement: Movement,
        rest: SectionRest,
        masks: Seq<u32>,
        values: Seq<u32>,
        fields: Map<u16, u32>,
    },
    OutOfRange { guids: Seq<u64> },
    NearObjects { guids: Seq<u64> },
}

/// What a block says.
pub open spec fn entry_says(entry: Entry) -> BlockView {
    match entry {
        Entry::Values { guid, fields, .. } => BlockView::Values { guid, fields },
        Entry::Movement { guid, movement, .. } => BlockView::Movement { guid, movement: movement@ },
        Entry::Create { guid, object_type, spawned, movement, fields, .. } => BlockView::Create {
            guid,
            object_type,
            spawned,
            movement: movement@,
            fields,
        },
        Entry::OutOfRange { guids } => BlockView::OutOfRange { guids },
        Entry::NearObjects { guids } => BlockView::NearObjects { guids },
    }
}

/// Guids as they are written, packed and one behind the other.
pub open spec fn guids_in_a_row(guids: Seq<u64>) -> Seq<u8> {
    in_a_row(guids, |guid: u64| packed_guid(guid))
}

/// A block as it is written: its code, whom it is about, and what it says.
pub open spec fn entry_pieces(entry: Entry) -> Seq<Piece> {
    match entry {
        Entry::Values { guid, masks, values, .. } => seq![
            Piece::Byte(0),
            Piece::Guid(guid),
            Piece::Bytes(written(values_pieces(masks, values))),
        ],
        Entry::Movement { guid, movement, rest } => seq![
            Piece::Byte(1),
            Piece::Guid(guid),
            Piece::Bytes(written(section_pieces(movement, rest))),
        ],
        Entry::Create { guid, object_type, spawned, movement, rest, masks, values, .. } => seq![
            Piece::Byte(
                if spawned {
                    3
                } else {
                    2
                },
            ),
            Piece::Guid(guid),
            Piece::Byte(object_code(object_type)),
            Piece::Bytes(written(section_pieces(movement, rest))),
            Piece::Bytes(written(values_pieces(masks, values))),
        ],
        Entry::OutOfRange { guids } => seq![
            Piece::Byte(4),
            Piece::Word(guids.len() as u32),
            Piece::Bytes(guids_in_a_row(guids)),
        ],
        Entry::NearObjects { guids } => seq![
            Piece::Byte(5),
            Piece::Word(guids.len() as u32),
            Piece::Bytes(guids_in_a_row(guids)),
        ],
    }
}

/// Whether fields can be written with these masks and values.
pub open spec fn values_fit(masks: Seq<u32>, values: Seq<u32>, fields: Map<u16, u32>) -> bool {
    &&& masks.len() < 0x100
    &&& values.len() == ones_before(masks, masks.len())
    &&& announces(masks, values, fields)
}

/// Whether a block can be written.
pub open spec fn entry_fits(entry: Entry) -> bool {
    match entry {
        Entry::Values { masks, values, fields, .. } => values_fit(masks, values, fields),
        Entry::Movement { movement, rest, .. } => says_what_it_announces(movement)
            && rest.fits(),
        Entry::Create { movement, rest, masks, values, fields, .. } => says_what_it_announces(
            movement,
        ) && rest.fits() && values_fit(masks, values, fields),
        Entry::OutOfRange { guids } => guids.len() <= u32::MAX,
        Entry::NearObjects { guids } => guids.len() <= u32::MAX,
    }
}

proof fn lemma_guids_read_back(c: Cursor, guids: Seq<u64>)
    requires
        c.sound(),
        holds(c.data, c.at, guids_in_a_row(guids)),
    ensures
        many(c, guids.len(), |c: Cursor| read_guid(c)) == (
            guids,
            (Cursor { at: c.at + guids_in_a_row(guids).len(), ..c }),
        ),
{
    let bytes = |guid: u64| packed_guid(guid);
    let value = |guid: u64| guid;
    let record = |c: Cursor| read_guid(c);
    assert forall|i: int| 0 <= i < guids.len() implies reads_back(
        #[trigger] guids[i],
        bytes,
        value,
        record,
    ) by {
        assert forall|d: Cursor| d.sound() && holds(d.data, d.at, bytes(guids[i])) implies
            #[trigger] record(d) == (
            value(guids[i]),
            (Cursor { at: d.at + bytes(guids[i]).len(), ..d }),
        ) by {
            lemma_guid_round_trip(d, guids[i]);
        }
    }
    lemma_row_reads_back(c, guids, bytes, value, record);
    assert(guids.map_values(value) =~= guids);
}

/// A list of guids, of things that went out of view or are near.
spec fn list_of(guids: Seq<u64>, near: bool) -> Entry {
    if near {
        Entry::NearObjects { guids }
    } else {
        Entry::OutOfRange { guids }
    }
}

proof fn lemma_values_block(c: Cursor, guid: u64, masks: Seq<u32>, values: Seq<u32>, fields: Map<u16, u32>)
    requires
        c.sound(),
        entry_fits((Entry::Values { guid, masks, values, fields })),
        holds(c.data, c.at, written(entry_pieces((Entry::Values { guid, masks, values, fields })))),
    ensures
        block(c) == (
            entry_says((Entry::Values { guid, masks, values, fields })),
            (Cursor { at: c.at + written(entry_pieces((Entry::Values { guid, masks, values, fields }))).len(), ..c }),
        ),
{
    reveal(block);
    let entry = (Entry::Values { guid, masks, values, fields });
    let pieces = entry_pieces(entry);
    let end = c.at + written(pieces).len();
    lemma_stands(c, pieces);
    lemma_next(c, pieces, 0, end);
    let c1 = c.take(1);
    lemma_next(c1, pieces, 1, end);
    let c2 = behind(c1, pieces[1]);
    lemma_next(c2, pieces, 2, end);
    let c3 = behind(c2, pieces[2]);
    lemma_values_read_back(c2, masks, values, fields);
    lemma_last(c3, pieces, end);
}

proof fn lemma_movement_block(c: Cursor, guid: u64, movement: Movement, rest: SectionRest)
    requires
        c.sound(),
        entry_fits((Entry::Movement { guid, movement, rest })),
        holds(c.data, c.at, written(entry_pieces((Entry::Movement { guid, movement, rest })))),
    ensures
        block(c) == (
            entry_says((Entry::Movement { guid, movement, rest })),
            (Cursor { at: c.at + written(entry_pieces((Entry::Movement { guid, movement, rest }))).len(), ..c }),
        ),
{
    reveal(block);
    let entry = (Entry::Movement { guid, movement, rest });
    let pieces = entry_pieces(entry);
    let end = c.at + written(pieces).len();
    lemma_stands(c, pieces);
    lemma_next(c, pieces, 0, end);
    let c1 = c.take(1);
    lemma_next(c1, pieces, 1, end);
    let c2 = behind(c1, pieces[1]);
    lemma_next(c2, pieces, 2, end);
    let c3 = behind(c2, pieces[2]);
    lemma_section_reads_back(c2, movement, rest);
    lemma_last(c3, pieces, end);
}

#[verifier::rlimit(40)]
proof fn lemma_create_block(c: Cursor, entry: Entry)
    requires
        entry is Create,
        c.sound(),
        entry_fits(entry),
        holds(c.data, c.at, written(entry_pieces(entry))),
    ensures
        block(c) == (
            entry_says(entry),
            (Cursor { at: c.at + written(entry_pieces(entry)).len(), ..c }),
        ),
{
    reveal(block);
    let pieces = entry_pieces(entry);
    let end = c.at + written(pieces).len();
    lemma_stands(c, pieces);
    lemma_next(c, pieces, 0, end);
    let c1 = c.take(1);
    lemma_next(c1, pieces, 1, end);
    let c2 = behind(c1, pieces[1]);
    lemma_next(c2, pieces, 2, end);
    let c3 = behind(c2, pieces[2]);
    match entry {
        Entry::Create { guid, object_type, spawned, movement, rest, masks, values, fields } => {
            lemma_next(c3, pieces, 3, end);
            lemma_section_reads_back(c3, movement, rest);
            let c4 = behind(c3, pieces[3]);
            lemma_next(c4, pieces, 4, end);
            lemma_values_read_back(c4, masks, values, fields);
            lemma_last(behind(c4, pieces[4]), pieces, end);
        },
        _ => {},
    }
}

proof fn lemma_guids_block(c: Cursor, guids: Seq<u64>, near: bool)
    requires
        c.sound(),
        entry_fits(list_of(guids, near)),
        holds(c.data, c.at, written(entry_pieces(list_of(guids, near)))),
    ensures
        block(c) == (
            entry_says(list_of(guids, near)),
            (Cursor { at: c.at + written(entry_pieces(list_of(guids, near))).len(), ..c }),
        ),
{
    reveal(block);
    let entry = list_of(guids, near);
    let pieces = entry_pieces(entry);
    let end = c.at + written(pieces).len();
    lemma_stands(c, pieces);
    lemma_next(c, pieces, 0, end);
    let c1 = c.take(1);
    lemma_next(c1, pieces, 1, end);
    let c2 = behind(c1, pieces[1]);
    lemma_next(c2, pieces, 2, end);
    let c3 = behind(c2, pieces[2]);
    reveal(guid_list);
    lemma_guids_read_back(c2, guids);
    lemma_last(c3, pieces, end);
}

/// A block reads back: what it does, whom it is about, and what it says.
pub proof fn lemma_block_reads_back(c: Cursor, entry: Entry)
    requires
        c.sound(),
        entry_fits(entry),
        holds(c.data, c.at, written(entry_pieces(entry))),
    ensures
        block(c) == (
            entry_says(entry),
            (Cursor { at: c.at + written(entry_pieces(entry)).len(), ..c }),
        ),
{
    match entry {
        Entry::Values { guid, masks, values, fields } => {
            lemma_values_block(c, guid, masks, values, fields);
        },
        Entry::Movement { guid, movement, rest } => {
            lemma_movement_block(c, guid, movement, rest);
        },
        Entry::Create { .. } => {
            lemma_create_block(c, entry);
        },
        Entry::OutOfRange { guids } => {
            lemma_guids_block(c, guids, false);
        },
        Entry::NearObjects { guids } => {
            lemma_guids_block(c, guids, true);
        },
    }
}

/// An update reads back block by block, in the order of the packet.
pub proof fn lemma_update_reads_back(entries: Seq<Entry>)
    requires
        entries.len() <= u32::MAX,
        forall|i: int| 0 <= i < entries.len() ==> entry_fits(#[trigger] entries[i]),
    ensures
        update_object(
            written(
                seq![
                    Piece::Word(entries.len() as u32),
                    Piece::Bytes(in_a_row(entries, |entry: Entry| written(entry_pieces(entry)))),
                ],
            ),
        ) == Ok::<Seq<BlockView>, Error>(entries.map_values(|entry: Entry| entry_says(entry))),
{
    let bytes = |entry: Entry| written(entry_pieces(entry));
    let value = |entry: Entry| entry_says(entry);
    let record = |c: Cursor| block(c);
    let pieces = seq![Piece::Word(entries.len() as u32), Piece::Bytes(in_a_row(entries, bytes))];
    let body = written(pieces);
    let end = body.len() as int;
    let c = Cursor::over(body, "SMSG_UPDATE_OBJECT");
    lemma_whole(pieces, "SMSG_UPDATE_OBJECT");
    lemma_next(c, pieces, 0, end);
    let c1 = c.take(4);
    lemma_next(c1, pieces, 1, end);
    assert forall|i: int| 0 <= i < entries.len() implies reads_back(
        #[trigger] entries[i],
        bytes,
        value,
        record,
    ) by {
        let entry = entries[i];
        assert forall|d: Cursor| d.sound() && holds(d.data, d.at, bytes(entry)) implies
            #[trigger] record(d) == (
            value(entry),
            (Cursor { at: d.at + bytes(entry).len(), ..d }),
        ) by {
            lemma_block_reads_back(d, entry);
        }
    }
    lemma_row_reads_back(c1, entries, bytes, value, record);
    lemma_last(behind(c1, pieces[1]), pieces, end);
}

/// What a section says of movement is its parts.
pub proof fn lemma_a_movement_is_its_parts(movement: Movement)
    ensures
        movement@.flags == movement.flags,
        movement@.position == movement.position,
        movement@.movement_flags == movement.movement_flags,
        movement@.target == movement.target,
        movement@.info == movement.info,
        movement.speeds is None <==> movement@.speeds is None,
        movement.speeds matches Some(speeds) ==> movement@.speeds == Some(speeds@),
{
}

/// What a block says is its parts.
pub proof fn lemma_a_block_is_its_parts(block: Block)
    ensures
        match block {
            Block::Values { guid, fields } => block@ == (BlockView::Values {
                guid,
                fields: fields@,
            }),
            Block::Movement { guid, movement } => block@ == (BlockView::Movement {
                guid,
                movement: movement@,
            }),
            Block::Create { guid, object_type, spawned, movement, fields } => block@ == (
            BlockView::Create { guid, object_type, spawned, movement: movement@, fields: fields@ }),
            Block::OutOfRange { guids } => block@ == (BlockView::OutOfRange { guids: guids@ }),
            Block::NearObjects { guids } => block@ == (BlockView::NearObjects { guids: guids@ }),
        },
{
}

} // verus!
