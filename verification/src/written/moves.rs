//! What arrives about a creature's path reads back as written.
use crate::cursor::Cursor;
use crate::protocol::Error;
use crate::update::{
    journey, monster_move, move_facing, point_at, read_guid, route, MonsterMove, MonsterMoveView,
    MoveFacing,
};
use crate::wire::{group_word_lengths, holds};
use crate::written::{
    behind, lemma_last, lemma_next, lemma_stands, lemma_whole, row_of_words, stands, written, Piece,
};
use vstd::prelude::*;

verus! {

broadcast use group_word_lengths;

/// What a path carries beside where it leads and how long it takes.
pub struct Way {
    pub flags: u32,
    /// An animation and its start, where the flags announce them.
    pub animation: Seq<u8>,
    /// An acceleration and its start, where the flags announce them.
    pub arc: Seq<u8>,
    pub count: u32,
    /// The points between, each packed into one word, where they are packed.
    pub packed: Seq<u32>,
    /// What follows a path that repeats.
    pub rest: Seq<u8>,
}

impl Way {
    /// Whether every point is written out: on the wing, or along a curve.
    pub open spec fn in_full(self) -> bool {
        self.flags & (0x0004_0000u32 | 0x0000_2000u32) != 0
    }

    /// Whether everything that the flags announce is there, and nothing else.
    pub open spec fn fits(self) -> bool {
        &&& self.animation.len() == if self.flags & 0x0020_0000 != 0 {
            5nat
        } else {
            0
        }
        &&& self.arc.len() == if self.flags & 0x0000_0800 != 0 {
            8nat
        } else {
            0
        }
        &&& self.flags & 0x0008_0000 == 0 ==> self.rest.len() == 0
    }
}

/// The kind of a move, which says what it should look at in the end.
pub open spec fn kind_of(moved: MonsterMove) -> u8 {
    match moved.facing {
        None => 0,
        Some(MoveFacing::Spot { .. }) => 2,
        Some(MoveFacing::Target(_)) => 3,
        Some(MoveFacing::Angle(_)) => 4,
    }
}

/// What it should look at: a spot, another unit, or a direction.
pub open spec fn look_pieces(facing: Option<MoveFacing>) -> Seq<Piece> {
    match facing {
        None => seq![],
        Some(MoveFacing::Spot { x, y, z }) => seq![Piece::Words(seq![x, y, z])],
        Some(MoveFacing::Target(guid)) => seq![Piece::Long(guid)],
        Some(MoveFacing::Angle(bits)) => seq![Piece::Word(bits)],
    }
}

/// The words of a path: every point in full, or the destination in full and
/// then the points between.
pub open spec fn way_words(moved: MonsterMove, way: Way) -> Seq<u32> {
    if way.in_full() {
        Seq::new(
            3 * moved.path@.len(),
            |k: int|
                if k % 3 == 0 {
                    moved.path@[k / 3].x
                } else if k % 3 == 1 {
                    moved.path@[k / 3].y
                } else {
                    moved.path@[k / 3].z
                },
        )
    } else {
        seq![moved.to->0.x, moved.to->0.y, moved.to->0.z] + way.packed
    }
}

/// A path behind what it should look at: flags, duration, the number of its
/// points, and the points.
pub open spec fn journey_pieces(moved: MonsterMove, way: Way) -> Seq<Piece> {
    seq![
        Piece::Word(way.flags),
        Piece::Bytes(way.animation),
        Piece::Word(moved.duration),
        Piece::Bytes(way.arc),
        Piece::Word(way.count),
        Piece::Words(way_words(moved, way)),
        Piece::Bytes(way.rest),
    ]
}

/// Whether a move can be written: it leads where its path ends, or, where its
/// points are packed, to a place and one point for each word.
pub open spec fn leads(moved: MonsterMove, way: Way) -> bool {
    &&& way.fits()
    &&& !moved.stopped
    &&& moved.from.orientation == 0
    &&& if way.in_full() {
        &&& way.count == moved.path@.len()
        &&& forall|i: int|
            0 <= i < moved.path@.len() ==> (#[trigger] moved.path@[i]).orientation == 0
        &&& moved.to == if moved.path@.len() == 0 {
            None
        } else {
            Some(moved.path@.last())
        }
    } else {
        &&& way.count == way.packed.len() + 1
        &&& 4 * way.packed.len() <= usize::MAX
        &&& moved.path@.len() == 0
        &&& moved.to matches Some(to) && to.orientation == 0
    }
}

proof fn lemma_look_reads_back(c: Cursor, moved: MonsterMove)
    requires
        c.sound(),
        holds(c.data, c.at, written(look_pieces(moved.facing))),
    ensures
        move_facing(c, kind_of(moved)) == (
            moved.facing,
            (Cursor { at: c.at + written(look_pieces(moved.facing)).len(), ..c }),
        ),
{
    let pieces = look_pieces(moved.facing);
    let end = c.at + written(pieces).len();
    lemma_stands(c, pieces);
    match moved.facing {
        None => {
            lemma_last(c, pieces, end);
        },
        Some(MoveFacing::Spot { x, y, z }) => {
            lemma_next(c, pieces, 0, end);
            assert(c.nth(0) == x);
            assert(c.nth(1) == y);
            assert(c.nth(2) == z);
            lemma_last(c.words(3), pieces, end);
        },
        Some(MoveFacing::Target(guid)) => {
            lemma_next(c, pieces, 0, end);
            lemma_last(c.take(8), pieces, end);
        },
        Some(MoveFacing::Angle(bits)) => {
            lemma_next(c, pieces, 0, end);
            lemma_last(c.take(4), pieces, end);
        },
    }
}

proof fn lemma_route_reads_back(c: Cursor, moved: MonsterMove, way: Way)
    requires
        c.sound(),
        leads(moved, way),
        holds(c.data, c.at, row_of_words(way_words(moved, way))),
    ensures
        route(c, way.flags, way.count) == (
            moved.path@,
            moved.to,
            (Cursor { at: c.at + 4 * way_words(moved, way).len(), ..c }),
        ),
{
    let words = way_words(moved, way);
    let pieces = seq![Piece::Words(words)];
    assert(written(pieces) =~= row_of_words(words)) by {
        broadcast use crate::written::group_written;

    }
    lemma_stands(c, pieces);
    lemma_next(c, pieces, 0, c.at + written(pieces).len());
    if way.in_full() {
        let path = Seq::new(way.count as nat, |k: int| point_at(c, k));
        assert(path =~= moved.path@) by {
            assert forall|i: int| 0 <= i < moved.path@.len() implies path[i] == moved.path@[i] by {
                assert(c.nth(3 * i) == words[3 * i]);
                assert(c.nth(3 * i + 1) == words[3 * i + 1]);
                assert(c.nth(3 * i + 2) == words[3 * i + 2]);
                assert((3 * i) % 3 == 0 && (3 * i) / 3 == i);
                assert((3 * i + 1) % 3 == 1 && (3 * i + 1) / 3 == i);
                assert((3 * i + 2) % 3 == 2 && (3 * i + 2) / 3 == i);
            }
        }
    } else {
        assert(c.nth(0) == words[0]);
        assert(c.nth(1) == words[1]);
        assert(c.nth(2) == words[2]);
        assert(moved.path@ =~= seq![]);
    }
}

proof fn lemma_journey_reads_back(c: Cursor, moved: MonsterMove, way: Way)
    requires
        c.sound(),
        leads(moved, way),
        holds(c.data, c.at, written(journey_pieces(moved, way))),
        c.data.len() == c.at + written(journey_pieces(moved, way)).len(),
    ensures
        ({
            let (duration, path, to, end) = journey(c);
            &&& duration == moved.duration
            &&& path == moved.path@
            &&& to == moved.to
            &&& end.failed is None
        }),
{
    reveal(journey);
    let pieces = journey_pieces(moved, way);
    let end = c.at + written(pieces).len();
    lemma_stands(c, pieces);
    lemma_next(c, pieces, 0, end);
    let c1 = c.take(4);
    lemma_next(c1, pieces, 1, end);
    let c2 = c1.take(way.animation.len() as int);
    assert(c2 == if way.flags & 0x0020_0000 != 0 {
        c1.take(5)
    } else {
        c1
    });
    lemma_next(c2, pieces, 2, end);
    let c3 = c2.take(4);
    lemma_next(c3, pieces, 3, end);
    let c4 = c3.take(way.arc.len() as int);
    assert(c4 == if way.flags & 0x0000_0800 != 0 {
        c3.take(8)
    } else {
        c3
    });
    lemma_next(c4, pieces, 4, end);
    let c5 = c4.take(4);
    lemma_next(c5, pieces, 5, end);
    assert(holds(c5.data, c5.at, row_of_words(way_words(moved, way)))) by {
        reveal(stands);
        reveal(holds);
        let rest = pieces.skip(5);
        assert(rest[0] == pieces[5]);
        crate::wire::lemma_holds_both(
            c5.data,
            c5.at,
            row_of_words(way_words(moved, way)),
            written(rest.skip(1)),
        );
    }
    lemma_route_reads_back(c5, moved, way);
    let c6 = behind(c5, pieces[5]);
    lemma_next(c6, pieces, 6, end);
    lemma_last(behind(c6, pieces[6]), pieces, end);
}

/// A move as it is written: whom it moves, from where, what to look at, and
/// the path.
pub open spec fn move_pieces(moved: MonsterMove, toggle: u8, spline: u32, way: Way) -> Seq<Piece> {
    seq![
        Piece::Guid(moved.guid),
        Piece::Byte(toggle),
        Piece::Words(seq![moved.from.x, moved.from.y, moved.from.z]),
        Piece::Word(spline),
        Piece::Byte(kind_of(moved)),
        Piece::Bytes(written(look_pieces(moved.facing))),
        Piece::Bytes(written(journey_pieces(moved, way))),
    ]
}

/// A creature's path reads back: who moves, from where to where, through which
/// points, for how long, and what to look at in the end. Where only the
/// destination is written out it does not depend on the points between.
pub proof fn lemma_move_reads_back(moved: MonsterMove, toggle: u8, spline: u32, way: Way)
    requires
        leads(moved, way),
    ensures
        monster_move(written(move_pieces(moved, toggle, spline, way))) == Ok::<
            MonsterMoveView,
            Error,
        >(moved@),
{
    let pieces = move_pieces(moved, toggle, spline, way);
    let body = written(pieces);
    let c = Cursor::over(body, "SMSG_MONSTER_MOVE");
    let end = body.len() as int;
    lemma_whole(pieces, "SMSG_MONSTER_MOVE");
    lemma_next(c, pieces, 0, end);
    let c1 = read_guid(c).1;
    lemma_next(c1, pieces, 1, end);
    let c2 = c1.take(1);
    lemma_next(c2, pieces, 2, end);
    let c3 = c2.words(3);
    assert(c2.nth(0) == moved.from.x);
    assert(c2.nth(1) == moved.from.y);
    assert(c2.nth(2) == moved.from.z);
    lemma_next(c3, pieces, 3, end);
    let c4 = c3.take(4);
    lemma_next(c4, pieces, 4, end);
    let c5 = c4.take(1);
    lemma_next(c5, pieces, 5, end);
    lemma_look_reads_back(c5, moved);
    let c6 = behind(c5, pieces[5]);
    lemma_next(c6, pieces, 6, end);
    lemma_last(behind(c6, pieces[6]), pieces, end);
    lemma_journey_reads_back(c6, moved, way);
}

/// A stop reads back: who stops and where, with nowhere to go, no time to get
/// there and nothing to look at.
pub proof fn lemma_stop_reads_back(moved: MonsterMove, toggle: u8, spline: u32)
    requires
        moved.stopped,
        moved.from.orientation == 0,
        moved.to is None,
        moved.path@.len() == 0,
        moved.duration == 0,
        moved.facing is None,
    ensures
        monster_move(
            written(
                seq![
                    Piece::Guid(moved.guid),
                    Piece::Byte(toggle),
                    Piece::Words(seq![moved.from.x, moved.from.y, moved.from.z]),
                    Piece::Word(spline),
                    Piece::Byte(1),
                ],
            ),
        ) == Ok::<MonsterMoveView, Error>(moved@),
{
    let pieces = seq![
        Piece::Guid(moved.guid),
        Piece::Byte(toggle),
        Piece::Words(seq![moved.from.x, moved.from.y, moved.from.z]),
        Piece::Word(spline),
        Piece::Byte(1),
    ];
    let body = written(pieces);
    let c = Cursor::over(body, "SMSG_MONSTER_MOVE");
    let end = body.len() as int;
    lemma_whole(pieces, "SMSG_MONSTER_MOVE");
    lemma_next(c, pieces, 0, end);
    let c1 = read_guid(c).1;
    lemma_next(c1, pieces, 1, end);
    let c2 = c1.take(1);
    lemma_next(c2, pieces, 2, end);
    let c3 = c2.words(3);
    assert(c2.nth(0) == moved.from.x);
    assert(c2.nth(1) == moved.from.y);
    assert(c2.nth(2) == moved.from.z);
    lemma_next(c3, pieces, 3, end);
    let c4 = c3.take(4);
    lemma_next(c4, pieces, 4, end);
    let c5 = c4.take(1);
    lemma_last(c5, pieces, end);
    assert(moved.path@ =~= seq![]);
}

} // verus!
