//! Flight paths: where a flight master will send you.
//!
//! The offer says which nodes a character may fly from and to, as a bit array
//! of fourteen words with one bit per node. A bit that is not set means that
//! the node is not known, and never that nothing is known of it.
use crate::cursor::{agrees, Cursor};
use crate::protocol::{one_word, Error, Reader};
use crate::wire::{le32, le64};
use vstd::prelude::*;

verus! {

/// How many words of node mask travel in an offer.
pub const MASK_WORDS: usize = 14;

/// How many nodes the mask has room for.
pub const MASK_NODES: u32 = 448;

/// Total size of a well-formed offer.
pub const SHOW_NODES_BYTES: usize = 72;

/// The flight master's offer: where you are, and everywhere you may go.
#[derive(Debug, Clone, PartialEq, Eq)]
pub struct TaxiMenu {
    /// The flight master.
    pub npc: u64,
    /// The node the player is standing at, by the server's choice.
    pub current_node: u32,
    /// One bit per node; the low bit of the first word is node zero.
    pub known: [u32; MASK_WORDS],
    /// The leading word, kept and not interpreted.
    pub unknown: u32,
}

/// A [`TaxiMenu`] as a mathematical value.
pub struct TaxiMenuView {
    pub npc: u64,
    pub current_node: u32,
    pub known: Seq<u32>,
    pub unknown: u32,
}

impl View for TaxiMenu {
    type V = TaxiMenuView;

    open spec fn view(&self) -> TaxiMenuView {
        TaxiMenuView {
            npc: self.npc,
            current_node: self.current_node,
            known: self.known@,
            unknown: self.unknown,
        }
    }
}

/// Whether a mask has a node's bit set.
pub open spec fn node_known(known: Seq<u32>, node: int) -> bool {
    0 <= node < MASK_NODES && known[node / 32] & (1u32 << ((node % 32) as u32)) != 0
}

/// The nodes below `limit` that a mask knows, ascending.
pub open spec fn nodes_below(known: Seq<u32>, limit: nat) -> Seq<u32>
    decreases limit,
{
    if limit == 0 {
        seq![]
    } else if node_known(known, limit - 1) {
        nodes_below(known, (limit - 1) as nat).push((limit - 1) as u32)
    } else {
        nodes_below(known, (limit - 1) as nat)
    }
}

/// All nodes that a mask knows, ascending.
pub open spec fn all_known(known: Seq<u32>) -> Seq<u32> {
    nodes_below(known, MASK_NODES as nat)
}

impl TaxiMenu {
    /// Whether this character may fly from or to a node. A node past the
    /// mask is simply not known.
    pub fn knows(&self, node: u32) -> (r: bool)
        ensures
            r == node_known(self@.known, node as int),
    {
        node < MASK_NODES && self.known[(node / 32) as usize] & (1u32 << (node % 32)) != 0
    }

    /// Every node this character may use, ascending.
    pub fn known_nodes(&self) -> (r: Vec<u32>)
        ensures
            r@ == all_known(self@.known),
    {
        let mut nodes: Vec<u32> = Vec::new();
        for node in 0..MASK_NODES
            invariant
                nodes@ == nodes_below(self@.known, node as nat),
        {
            if self.knows(node) {
                nodes.push(node);
            }
        }
        nodes
    }

    /// How many nodes are known.
    pub fn count(&self) -> (r: u32)
        ensures
            r == all_known(self@.known).len(),
    {
        let mut count: u32 = 0;
        for node in 0..MASK_NODES
            invariant
                count == nodes_below(self@.known, node as nat).len(),
                count <= node,
        {
            if self.knows(node) {
                count += 1;
            }
        }
        count
    }
}

/// What [`parse_taxi_menu`] makes of a body, whose size is fixed.
pub open spec fn taxi_menu(body: Seq<u8>) -> Result<TaxiMenuView, Error> {
    Cursor::over(body, "SMSG_SHOWTAXINODES").take(4).take(8).take(4).words(
        MASK_WORDS as int,
    ).finish().outcome(
        TaxiMenuView {
            unknown: le32(body, 0),
            npc: le64(body, 4),
            current_node: le32(body, 12),
            known: Seq::new(MASK_WORDS as nat, |k: int| le32(body, 16 + 4 * k)),
        },
    )
}

/// Parses `SMSG_SHOWTAXINODES`.
pub fn parse_taxi_menu(body: &[u8]) -> (r: Result<TaxiMenu, Error>)
    ensures
        agrees(r, taxi_menu(body@)),
{
    let mut r = Reader::new(body, "SMSG_SHOWTAXINODES");
    let unknown: u32 = r.u32()?;
    let npc: u64 = r.u64()?;
    let current_node: u32 = r.u32()?;
    let known = r.words::<MASK_WORDS>()?;
    r.finish()?;
    assert(known@ =~= Seq::new(MASK_WORDS as nat, |k: int| le32(body@, 16 + 4 * k)));
    Ok(TaxiMenu { npc, current_node, known, unknown })
}

/// Why a flight was refused, or that it was accepted.
#[derive(Debug, Clone, Copy, PartialEq, Eq, Structural)]
pub enum TaxiReply {
    /// The flight was accepted and the ride is starting.
    Accepted,
    /// Anything else, with its number.
    Refused(u32),
}

/// The reply a code stands for.
pub open spec fn taxi_reply(code: u32) -> TaxiReply {
    if code == 0 {
        TaxiReply::Accepted
    } else {
        TaxiReply::Refused(code)
    }
}

impl TaxiReply {
    /// The reply a code stands for.
    pub fn from_code(code: u32) -> (r: Self)
        ensures
            r == taxi_reply(code),
    {
        if code == 0 {
            Self::Accepted
        } else {
            Self::Refused(code)
        }
    }

    /// Whether the ride is starting.
    pub fn accepted(self) -> (r: bool)
        ensures
            r == (self is Accepted),
    {
        match self {
            Self::Accepted => true,
            Self::Refused(_) => false,
        }
    }
}

/// What [`parse_activate_reply`] makes of a body.
pub open spec fn activate_reply(body: Seq<u8>) -> Result<TaxiReply, Error> {
    match one_word(body, "SMSG_ACTIVATETAXIREPLY") {
        Ok(code) => Ok(taxi_reply(code)),
        Err(error) => Err(error),
    }
}

/// Parses `SMSG_ACTIVATETAXIREPLY`.
pub fn parse_activate_reply(body: &[u8]) -> (r: Result<TaxiReply, Error>)
    ensures
        r == activate_reply(body@),
{
    let mut r = Reader::new(body, "SMSG_ACTIVATETAXIREPLY");
    let code: u32 = r.u32()?;
    r.finish()?;
    Ok(TaxiReply::from_code(code))
}

proof fn lemma_nodes_below(known: Seq<u32>, limit: nat, node: u32)
    requires
        limit <= MASK_NODES,
    ensures
        nodes_below(known, limit).contains(node) <==> node < limit && node_known(
            known,
            node as int,
        ),
        forall|i: int, j: int|
            0 <= i < j < nodes_below(known, limit).len() ==> nodes_below(known, limit)[i]
                < nodes_below(known, limit)[j],
        forall|i: int|
            0 <= i < nodes_below(known, limit).len() ==> #[trigger] nodes_below(known, limit)[i]
                < limit,
    decreases limit,
{
    if limit > 0 {
        let before = nodes_below(known, (limit - 1) as nat);
        lemma_nodes_below(known, (limit - 1) as nat, node);
        if node_known(known, limit - 1) {
            let after = before.push((limit - 1) as u32);
            if node == limit - 1 {
                assert(after[before.len() as int] == node);
            } else if before.contains(node) {
                let k = choose|k: int| 0 <= k < before.len() && before[k] == node;
                assert(after[k] == node);
            }
        }
    }
}

/// The listed nodes are exactly the known ones, in ascending order, each
/// once.
pub proof fn lemma_known_nodes(known: Seq<u32>, node: u32)
    ensures
        all_known(known).contains(node) <==> node_known(known, node as int),
        forall|i: int, j: int|
            0 <= i < j < all_known(known).len() ==> all_known(known)[i] < all_known(known)[j],
{
    lemma_nodes_below(known, MASK_NODES as nat, node);
}

/// An offer is accepted exactly where it has its one size.
pub proof fn lemma_taxi_menu_is_exact(body: Seq<u8>)
    ensures
        taxi_menu(body) is Ok <==> body.len() == SHOW_NODES_BYTES,
{
}

/// A flight in progress: how far each point of the route is along it, and how
/// long the whole of it takes.
///
/// Progress is by distance and not by point, or a route whose points bunch up
/// at one end would crawl there and race elsewhere.
#[derive(Debug, PartialEq, Eq)]
pub struct Flight {
    /// The distance to each point, as the bits of a float.
    lengths: Vec<u32>,
    duration_ms: u32,
}

/// A [`Flight`] as a mathematical value.
pub struct FlightView {
    pub lengths: Seq<u32>,
    pub duration_ms: u32,
}

impl View for Flight {
    type V = FlightView;

    closed spec fn view(&self) -> FlightView {
        FlightView { lengths: self.lengths@, duration_ms: self.duration_ms }
    }
}

/// Whether a distance, as the bits of a float, is zero or less.
pub open spec fn no_distance(bits: u32) -> bool {
    bits == 0 || 0x8000_0000 <= bits <= 0xFF80_0000
}

/// How many of the first distances are no further than a target. Bits of
/// floats that are not negative are ordered as the floats are.
pub open spec fn reached(lengths: Seq<u32>, target: u32) -> nat
    decreases lengths.len(),
{
    if lengths.len() == 0 || lengths[0] > target {
        0
    } else {
        1 + reached(lengths.skip(1), target)
    }
}

impl FlightView {
    /// Whether distances and a duration describe a route.
    pub open spec fn flyable(self) -> bool {
        &&& self.lengths.len() >= 2
        &&& self.duration_ms > 0
        &&& !no_distance(self.lengths.last())
    }

    /// The leg on which a distance lies: that from the last point reached, and
    /// from the last but one at the end.
    pub open spec fn leg(self, target: u32) -> int {
        let passed = reached(self.lengths, target);
        if passed == 0 {
            0
        } else if passed < self.lengths.len() {
            passed - 1
        } else {
            self.lengths.len() - 2
        }
    }
}

impl Flight {
    #[verifier::type_invariant]
    closed spec fn coherent(self) -> bool {
        self@.flyable()
    }

    /// A flight along a route, given how far each of its points is from the
    /// start. There is none along fewer than two points, in no time, or of no
    /// length.
    pub fn new(lengths: Vec<u32>, duration_ms: u32) -> (r: Option<Self>)
        ensures
            match r {
                Some(flight) => flight@ == (FlightView { lengths: lengths@, duration_ms })
                    && flight@.flyable(),
                None => !(FlightView { lengths: lengths@, duration_ms }).flyable(),
            },
    {
        if lengths.len() < 2 || duration_ms == 0 {
            return None;
        }
        let total: u32 = lengths[lengths.len() - 1];
        if total == 0 || (0x8000_0000 <= total && total <= 0xFF80_0000) {
            return None;
        }
        Some(Flight { lengths, duration_ms })
    }

    /// Milliseconds that the whole route takes.
    pub fn duration_ms(&self) -> (r: u32)
        ensures
            r == self@.duration_ms,
            self@.flyable(),
    {
        proof {
            use_type_invariant(self);
        }
        self.duration_ms
    }

    /// The length of the route, as the bits of a float.
    pub fn length(&self) -> (r: u32)
        ensures
            r == self@.lengths.last(),
            self@.flyable(),
    {
        proof {
            use_type_invariant(self);
        }
        self.lengths[self.lengths.len() - 1]
    }

    /// How many points the route has.
    pub fn points(&self) -> (r: usize)
        ensures
            r == self@.lengths.len(),
            self@.flyable(),
    {
        proof {
            use_type_invariant(self);
        }
        self.lengths.len()
    }

    /// How far a point is along the route, as the bits of a float.
    pub fn distance_to(&self, point: usize) -> (r: Option<u32>)
        ensures
            r == if point < self@.lengths.len() {
                Some(self@.lengths[point as int])
            } else {
                None
            },
    {
        if point < self.lengths.len() {
            Some(self.lengths[point])
        } else {
            None
        }
    }

    /// Whether the flight has run out.
    pub fn finished(&self, elapsed_ms: u32) -> (r: bool)
        ensures
            r == (elapsed_ms >= self@.duration_ms),
    {
        elapsed_ms >= self.duration_ms
    }

    /// How much of its time a flight has used. It holds at the end, whether
    /// or not anybody ends it.
    pub fn used_ms(&self, elapsed_ms: u32) -> (r: u32)
        ensures
            r == if elapsed_ms < self@.duration_ms {
                elapsed_ms
            } else {
                self@.duration_ms
            },
    {
        if elapsed_ms < self.duration_ms {
            elapsed_ms
        } else {
            self.duration_ms
        }
    }

    /// The leg on which a distance lies, by the number of its first point. It
    /// gives the heading too, which is that of the leg being flown.
    pub fn leg(&self, target: u32) -> (r: usize)
        ensures
            r == self@.leg(target),
            r + 1 < self@.lengths.len(),
    {
        proof {
            use_type_invariant(self);
        }
        let mut passed: usize = 0;
        assert(self.lengths@.skip(0) =~= self.lengths@);
        while passed < self.lengths.len() && self.lengths[passed] <= target
            invariant
                passed <= self.lengths@.len(),
                reached(self.lengths@, target) == passed + reached(
                    self.lengths@.skip(passed as int),
                    target,
                ),
            decreases self.lengths@.len() - passed,
        {
            assert(self.lengths@.skip(passed as int).skip(1) =~= self.lengths@.skip(passed + 1));
            passed += 1;
        }
        if passed == 0 {
            0
        } else if passed < self.lengths.len() {
            passed - 1
        } else {
            self.lengths.len() - 2
        }
    }
}

impl Clone for Flight {
    fn clone(&self) -> (r: Self)
        ensures
            r@ == self@,
    {
        proof {
            use_type_invariant(self);
        }
        let mut lengths: Vec<u32> = Vec::new();
        for i in 0..self.lengths.len()
            invariant
                lengths@ == self.lengths@.take(i as int),
        {
            lengths.push(self.lengths[i]);
            assert(lengths@ =~= self.lengths@.take(i + 1));
        }
        assert(self.lengths@.take(self.lengths@.len() as int) =~= self.lengths@);
        Flight { lengths, duration_ms: self.duration_ms }
    }
}

proof fn lemma_reached(lengths: Seq<u32>, target: u32)
    ensures
        reached(lengths, target) <= lengths.len(),
        forall|i: int| 0 <= i < reached(lengths, target) ==> #[trigger] lengths[i] <= target,
        reached(lengths, target) < lengths.len() ==> lengths[reached(lengths, target) as int]
            > target,
    decreases lengths.len(),
{
    if lengths.len() > 0 && lengths[0] <= target {
        lemma_reached(lengths.skip(1), target);
        assert forall|i: int| 0 <= i < reached(lengths, target) implies #[trigger] lengths[i]
            <= target by {
            if i > 0 {
                assert(lengths.skip(1)[i - 1] == lengths[i]);
            }
        }
    }
}

/// Along a route whose distances rise, a distance lies on the leg that is
/// named for it: past its first point, and short of its second or at the end.
pub proof fn lemma_the_leg_holds_the_distance(flight: FlightView, target: u32)
    requires
        flight.flyable(),
        flight.lengths[0] <= target,
        forall|i: int, j: int|
            0 <= i <= j < flight.lengths.len() ==> flight.lengths[i] <= flight.lengths[j],
    ensures
        ({
            let leg = flight.leg(target);
            &&& 0 <= leg < flight.lengths.len() - 1
            &&& flight.lengths[leg] <= target
            &&& target < flight.lengths[leg + 1] || flight.lengths.last() <= target
        }),
{
    lemma_reached(flight.lengths, target);
}

} // verus!
