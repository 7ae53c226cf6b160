//! Player-to-player trade.
//!
//! Both ends have to act here. The server tells the other person what you
//! offered and never tells you, so this client's own half of the window is
//! the one thing it has to remember for itself: [`TradeSession::ours`].
use crate::cursor::{agrees, ran, Cursor};
use crate::protocol::{Error, Reader};
use crate::wire::{le32, le64, signed, to_signed};
use vstd::prelude::*;

verus! {

/// Slots in one side's offer. Six that change hands, plus one that does not.
pub const TRADE_SLOTS: usize = 7;

/// The slot that does not change hands: it holds the item an enchant or a
/// socket is being applied to.
pub const NONTRADED_SLOT: u8 = 6;

/// Bytes in one slot record: its index, then eighteen words.
pub const SLOT_BYTES: usize = 73;

/// The whole of an offer, which is of a fixed size.
pub const EXTENDED_BYTES: usize = 532;

/// What the server has just said about the trade. A code without a name keeps
/// its number.
#[derive(Debug, Clone, Copy, PartialEq, Eq, Structural)]
pub enum TradeStatus {
    /// The other end is already trading.
    Busy,
    /// Somebody wants to trade with you, and this is who.
    Begin { partner: u64 },
    /// Both sides may now put things in.
    OpenWindow { token: u32 },
    /// The trade is off.
    Cancelled,
    /// The other side has pressed accept.
    Accepted,
    /// An accept has been withdrawn.
    BackToTrade,
    /// The exchange happened.
    Complete,
    /// Nobody there.
    NoTarget,
    /// Too far away.
    TooFar,
    /// Anything else, with its number.
    Other(u32),
}

impl TradeStatus {
    /// Whether this status ends the trade, so that the window should close.
    pub fn ends_trade(self) -> (r: bool)
        ensures
            r == (self is Cancelled || self is Complete || self is NoTarget),
    {
        match self {
            Self::Cancelled | Self::Complete | Self::NoTarget => true,
            _ => false,
        }
    }
}

/// What [`parse_trade_status`] makes of a body: a code, and a tail whose shape
/// the code decides. A missing target, and a code without a name, may carry
/// any tail.
pub open spec fn trade_status(body: Seq<u8>) -> Result<TradeStatus, Error> {
    let tail = Cursor::over(body, "SMSG_TRADE_STATUS").take(4);
    let code = le32(body, 0);
    if tail.failed is Some {
        tail.outcome(TradeStatus::Busy)
    } else if code == 0 {
        tail.finish().outcome(TradeStatus::Busy)
    } else if code == 1 {
        tail.take(8).finish().outcome(TradeStatus::Begin { partner: le64(body, 4) })
    } else if code == 2 {
        tail.take(4).finish().outcome(TradeStatus::OpenWindow { token: le32(body, 4) })
    } else if code == 3 {
        tail.finish().outcome(TradeStatus::Cancelled)
    } else if code == 4 {
        tail.finish().outcome(TradeStatus::Accepted)
    } else if code == 6 {
        Ok(TradeStatus::NoTarget)
    } else if code == 7 {
        tail.finish().outcome(TradeStatus::BackToTrade)
    } else if code == 8 {
        tail.finish().outcome(TradeStatus::Complete)
    } else if code == 10 {
        tail.finish().outcome(TradeStatus::TooFar)
    } else {
        Ok(TradeStatus::Other(code))
    }
}

/// Parses `SMSG_TRADE_STATUS`.
pub fn parse_trade_status(body: &[u8]) -> (r: Result<TradeStatus, Error>)
    ensures
        r == trade_status(body@),
{
    let mut r = Reader::new(body, "SMSG_TRADE_STATUS");
    let code: u32 = r.u32()?;
    let status = match code {
        0 => TradeStatus::Busy,
        1 => TradeStatus::Begin { partner: r.u64()? },
        2 => TradeStatus::OpenWindow { token: r.u32()? },
        3 => TradeStatus::Cancelled,
        4 => TradeStatus::Accepted,
        6 => {
            let left: usize = r.remaining();
            r.skip(left)?;
            TradeStatus::NoTarget
        },
        7 => TradeStatus::BackToTrade,
        8 => TradeStatus::Complete,
        10 => TradeStatus::TooFar,
        other => {
            let left: usize = r.remaining();
            r.skip(left)?;
            TradeStatus::Other(other)
        },
    };
    r.finish()?;
    Ok(status)
}

/// One item sitting in a trade slot.
#[derive(Debug, Clone, PartialEq, Eq)]
pub struct TradeItem {
    /// Which of the seven slots, by the server's own index.
    pub slot: u8,
    pub entry: u32,
    pub display_id: u32,
    /// Stack size.
    pub count: u32,
    /// A wrapped gift.
    pub wrapped: bool,
    /// Who wrapped it, or zero.
    pub gift_creator: u64,
    /// The permanent enchantment, if any.
    pub enchant: u32,
    /// Three socket slots, zero where empty.
    pub gems: [u32; 3],
    /// Who crafted it, or zero.
    pub creator: u64,
    pub charges: u32,
    pub suffix_factor: u32,
    /// The random property; the sign tells a suffix from a prefix.
    pub random_property: i32,
    pub lock_id: u32,
    pub max_durability: u32,
    pub durability: u32,
}

/// A [`TradeItem`] as a mathematical value.
pub struct TradeItemView {
    pub slot: u8,
    pub entry: u32,
    pub display_id: u32,
    pub count: u32,
    pub wrapped: bool,
    pub gift_creator: u64,
    pub enchant: u32,
    pub gems: Seq<u32>,
    pub creator: u64,
    pub charges: u32,
    pub suffix_factor: u32,
    pub random_property: i32,
    pub lock_id: u32,
    pub max_durability: u32,
    pub durability: u32,
}

impl View for TradeItem {
    type V = TradeItemView;

    open spec fn view(&self) -> TradeItemView {
        TradeItemView {
            slot: self.slot,
            entry: self.entry,
            display_id: self.display_id,
            count: self.count,
            wrapped: self.wrapped,
            gift_creator: self.gift_creator,
            enchant: self.enchant,
            gems: self.gems@,
            creator: self.creator,
            charges: self.charges,
            suffix_factor: self.suffix_factor,
            random_property: self.random_property,
            lock_id: self.lock_id,
            max_durability: self.max_durability,
            durability: self.durability,
        }
    }
}

/// One side's half of an open trade.
#[derive(Debug, Clone, PartialEq, Eq)]
pub struct TradeOffer {
    /// Whether this is the partner's offer rather than the reader's own.
    pub theirs: bool,
    pub token: u32,
    /// The two slot counts the server writes, kept as a pair.
    pub slot_count: u32,
    pub slot_count_again: u32,
    /// Copper on the table from this side.
    pub money: u32,
    /// A spell to be cast on what is in [`NONTRADED_SLOT`].
    pub spell: u32,
    /// The occupied slots only.
    pub items: Vec<TradeItem>,
}

/// A [`TradeOffer`] as a mathematical value.
pub struct TradeOfferView {
    pub theirs: bool,
    pub token: u32,
    pub slot_count: u32,
    pub slot_count_again: u32,
    pub money: u32,
    pub spell: u32,
    pub items: Seq<TradeItemView>,
}

impl View for TradeOffer {
    type V = TradeOfferView;

    open spec fn view(&self) -> TradeOfferView {
        TradeOfferView {
            theirs: self.theirs,
            token: self.token,
            slot_count: self.slot_count,
            slot_count_again: self.slot_count_again,
            money: self.money,
            spell: self.spell,
            items: crate::cursor::views(self.items@),
        }
    }
}

/// The first item of a slot, where there is one.
pub open spec fn item_in(items: Seq<TradeItemView>, slot: u8) -> Option<TradeItemView>
    decreases items.len(),
{
    if items.len() == 0 {
        None
    } else if items[0].slot == slot {
        Some(items[0])
    } else {
        item_in(items.drop_first(), slot)
    }
}

/// The items that change hands.
pub open spec fn changing_hands(items: Seq<TradeItemView>) -> Seq<TradeItemView> {
    items.filter(|item: TradeItemView| item.slot != NONTRADED_SLOT)
}

impl TradeOffer {
    /// Whether this side has put nothing at all on the table.
    pub fn is_empty(&self) -> (r: bool)
        ensures
            r == (self@.items.len() == 0 && self@.money == 0),
    {
        self.items.len() == 0 && self.money == 0
    }

    /// What is in one slot, if anything.
    pub fn item_at(&self, slot: u8) -> (r: Option<&TradeItem>)
        ensures
            match r {
                Some(item) => item_in(self@.items, slot) == Some(item@),
                None => item_in(self@.items, slot) is None,
            },
    {
        let ghost all = self@.items;
        let mut i: usize = 0;
        assert(all.skip(0) =~= all);
        while i < self.items.len()
            invariant
                i <= self.items@.len(),
                all == crate::cursor::views(self.items@),
                item_in(all, slot) == item_in(all.skip(i as int), slot),
            decreases self.items@.len() - i,
        {
            assert(all.skip(i as int).drop_first() =~= all.skip(i + 1));
            if self.items[i].slot == slot {
                return Some(&self.items[i]);
            }
            i += 1;
        }
        None
    }

    /// The slots that actually change hands.
    pub fn traded(&self) -> (r: Vec<&TradeItem>)
        ensures
            Seq::new(r@.len(), |i: int| r@[i]@) == changing_hands(self@.items),
    {
        let ghost all = self@.items;
        let ghost keep = |item: TradeItemView| item.slot != NONTRADED_SLOT;
        let mut out: Vec<&TradeItem> = Vec::new();
        assert(all.take(0).filter(keep) =~= seq![]) by {
            reveal(Seq::filter);
        }
        for i in 0..self.items.len()
            invariant
                all == crate::cursor::views(self.items@),
                keep == (|item: TradeItemView| item.slot != NONTRADED_SLOT),
                Seq::new(out@.len(), |k: int| out@[k]@) == all.take(i as int).filter(keep),
        {
            proof {
                reveal(Seq::filter);
                assert(all.take(i + 1).drop_last() =~= all.take(i as int));
                assert(all.take(i + 1).last() == self.items@[i as int]@);
            }
            let ghost before = out@;
            if self.items[i].slot != NONTRADED_SLOT {
                out.push(&self.items[i]);
            }
            assert(Seq::new(out@.len(), |k: int| out@[k]@) =~= all.take(i + 1).filter(keep));
        }
        assert(all.take(self.items@.len() as int) =~= all);
        out
    }
}

/// The slot record at a cursor, and where it ends. It must begin with its own
/// index.
pub open spec fn slot_record(c: Cursor, index: int) -> (TradeItemView, Cursor) {
    let head = c.take(1).check(
        c.byte() == index,
        Error::TradeSlotOutOfOrder { expected: index as u8, got: c.byte() },
    );
    let gift = head.words(4);
    let enchant = gift.take(8);
    let maker = enchant.words(4);
    let tail = maker.take(8);
    (
        TradeItemView {
            slot: c.byte(),
            entry: head.nth(0),
            display_id: head.nth(1),
            count: head.nth(2),
            wrapped: head.nth(3) != 0,
            gift_creator: gift.long(),
            enchant: enchant.nth(0),
            gems: seq![enchant.nth(1), enchant.nth(2), enchant.nth(3)],
            creator: maker.long(),
            charges: tail.nth(0),
            suffix_factor: tail.nth(1),
            random_property: signed(tail.nth(2)),
            lock_id: tail.nth(3),
            max_durability: tail.nth(4),
            durability: tail.nth(5),
        },
        tail.words(6),
    )
}

/// The occupied slots from `index` on, appended to those before them.
pub open spec fn slot_records(
    found: Seq<TradeItemView>,
    c: Cursor,
    index: int,
) -> (Seq<TradeItemView>, Cursor)
    decreases TRADE_SLOTS - index,
{
    if index >= TRADE_SLOTS {
        (found, c)
    } else {
        let (item, next) = slot_record(c, index);
        slot_records(
            if item.entry != 0 {
                found.push(item)
            } else {
                found
            },
            next,
            index + 1,
        )
    }
}

/// What [`parse_trade_offer`] makes of a body.
pub open spec fn trade_offer(body: Seq<u8>) -> Result<TradeOfferView, Error> {
    let head = Cursor::over(body, "SMSG_TRADE_STATUS_EXTENDED").take(1);
    let (items, end) = slot_records(seq![], head.words(5), 0);
    end.finish().outcome(
        TradeOfferView {
            theirs: body[0] != 0,
            token: head.nth(0),
            slot_count: head.nth(1),
            slot_count_again: head.nth(2),
            money: head.nth(3),
            spell: head.nth(4),
            items,
        },
    )
}

proof fn lemma_slot_records_sticky(found: Seq<TradeItemView>, c: Cursor, index: int)
    requires
        c.failed is Some,
    ensures
        slot_records(found, c, index).1 == c,
    decreases TRADE_SLOTS - index,
{
    if index < TRADE_SLOTS {
        let (item, next) = slot_record(c, index);
        lemma_slot_records_sticky(found.push(item), next, index + 1);
        lemma_slot_records_sticky(found, next, index + 1);
    }
}

fn read_slot(r: &mut Reader<'_>, index: u8) -> (res: Result<TradeItem, Error>)
    ensures
        ran(res, final(r)@, slot_record(old(r)@, index as int).1),
        res matches Ok(v) ==> v@ == slot_record(old(r)@, index as int).0,
{
    let slot: u8 = r.u8()?;
    if slot != index {
        return Err(Error::TradeSlotOutOfOrder { expected: index, got: slot });
    }
    let a = r.words::<4>()?;
    let gift_creator: u64 = r.u64()?;
    let b = r.words::<4>()?;
    let creator: u64 = r.u64()?;
    let c = r.words::<6>()?;
    let item = TradeItem {
        slot,
        entry: a[0],
        display_id: a[1],
        count: a[2],
        wrapped: a[3] != 0,
        gift_creator,
        enchant: b[0],
        gems: [b[1], b[2], b[3]],
        creator,
        charges: c[0],
        suffix_factor: c[1],
        random_property: to_signed(c[2]),
        lock_id: c[3],
        max_durability: c[4],
        durability: c[5],
    };
    assert(item@.gems =~= slot_record(old(r)@, index as int).0.gems);
    Ok(item)
}

/// Parses `SMSG_TRADE_STATUS_EXTENDED`.
///
/// Every record begins with its own index, which localises a wrong stride to
/// a record. A record whose entry is zero is an empty slot and is dropped.
pub fn parse_trade_offer(body: &[u8]) -> (r: Result<TradeOffer, Error>)
    ensures
        agrees(r, trade_offer(body@)),
{
    let mut r = Reader::new(body, "SMSG_TRADE_STATUS_EXTENDED");
    let ghost head = r@.take(1);
    let ghost all = slot_records(seq![], head.words(5), 0);
    proof {
        if head.words(5).failed is Some {
            lemma_slot_records_sticky(seq![], head.words(5), 0);
        }
    }
    let theirs: bool = r.u8()? != 0;
    let w = r.words::<5>()?;
    let mut items: Vec<TradeItem> = Vec::new();
    assert(crate::cursor::views(items@) =~= seq![]);
    for index in 0..7u8
        invariant
            all == slot_records(crate::cursor::views(items@), r@, index as int),
            all == slot_records(seq![], head.words(5), 0),
            head == Cursor::over(body@, "SMSG_TRADE_STATUS_EXTENDED").take(1),
    {
        proof {
            let (item, next) = slot_record(r@, index as int);
            let found = crate::cursor::views(items@);
            if next.failed is Some {
                lemma_slot_records_sticky(found.push(item), next, index + 1);
                lemma_slot_records_sticky(found, next, index + 1);
            }
        }
        let item = read_slot(&mut r, index)?;
        if item.entry != 0 {
            proof {
                crate::cursor::lemma_views_push(items@, item);
            }
            items.push(item);
        }
    }
    r.finish()?;
    Ok(
        TradeOffer {
            theirs,
            token: w[0],
            slot_count: w[1],
            slot_count_again: w[2],
            money: w[3],
            spell: w[4],
            items,
        },
    )
}

proof fn lemma_slot_records_advance(found: Seq<TradeItemView>, c: Cursor, index: int)
    requires
        0 <= index <= TRADE_SLOTS,
        c.failed is None,
    ensures
        ({
            let (items, end) = slot_records(found, c, index);
            end.failed is None ==> end == (Cursor {
                at: c.at + SLOT_BYTES * (TRADE_SLOTS - index),
                ..c
            }) && found.len() <= items.len() <= found.len() + TRADE_SLOTS - index
        }),
    decreases TRADE_SLOTS - index,
{
    if index < TRADE_SLOTS {
        let (item, next) = slot_record(c, index);
        if next.failed is Some {
            lemma_slot_records_sticky(found.push(item), next, index + 1);
            lemma_slot_records_sticky(found, next, index + 1);
        } else {
            lemma_slot_records_advance(found.push(item), next, index + 1);
            lemma_slot_records_advance(found, next, index + 1);
        }
    }
}

/// An offer that is accepted has its one size, so neither a byte more nor a
/// byte less passes, and it fills no more than its slots.
pub proof fn lemma_trade_offer_is_exact(body: Seq<u8>)
    requires
        trade_offer(body) is Ok,
    ensures
        body.len() == EXTENDED_BYTES,
        trade_offer(body)->Ok_0.items.len() <= TRADE_SLOTS,
{
    let start = Cursor::over(body, "SMSG_TRADE_STATUS_EXTENDED").take(1).words(5);
    if start.failed is Some {
        lemma_slot_records_sticky(seq![], start, 0);
    } else {
        lemma_slot_records_advance(seq![], start, 0);
    }
}

/// An open trade, or an offer of one waiting to be answered.
#[derive(Debug, Clone, PartialEq, Eq)]
pub struct TradeSession {
    /// Who is on the other side, where this client knows.
    pub partner: Option<u64>,
    /// Echoed back on accept.
    pub token: u32,
    /// Whether this client asked, rather than was asked.
    pub we_asked: bool,
    /// Whether the window is open, or this is still an unanswered offer.
    pub open: bool,
    /// What the partner is offering, as last restated by the server.
    pub theirs: Option<TradeOffer>,
    /// What this character has put on the table, by item guid, per slot.
    pub ours: [Option<u64>; TRADE_SLOTS],
    /// Copper this client has put on the table.
    pub our_money: u32,
    /// Whether the partner has pressed accept.
    pub partner_accepted: bool,
    /// Whether this client has sent an accept.
    pub accepted: bool,
}

/// A [`TradeSession`] as a mathematical value.
pub struct TradeSessionView {
    pub partner: Option<u64>,
    pub token: u32,
    pub we_asked: bool,
    pub open: bool,
    pub theirs: Option<TradeOfferView>,
    pub ours: Seq<Option<u64>>,
    pub our_money: u32,
    pub partner_accepted: bool,
    pub accepted: bool,
}

impl View for TradeSession {
    type V = TradeSessionView;

    open spec fn view(&self) -> TradeSessionView {
        TradeSessionView {
            partner: self.partner,
            token: self.token,
            we_asked: self.we_asked,
            open: self.open,
            theirs: match self.theirs {
                Some(offer) => Some(offer@),
                None => None,
            },
            ours: self.ours@,
            our_money: self.our_money,
            partner_accepted: self.partner_accepted,
            accepted: self.accepted,
        }
    }
}

/// A session in which nothing has happened yet.
pub open spec fn fresh_session(partner: Option<u64>, we_asked: bool) -> TradeSessionView {
    TradeSessionView {
        partner,
        token: 0,
        we_asked,
        open: false,
        theirs: None,
        ours: Seq::new(TRADE_SLOTS as nat, |i: int| None),
        our_money: 0,
        partner_accepted: false,
        accepted: false,
    }
}

/// The session after one of our slots has changed: both accepts are
/// withdrawn, and nothing else moves. A slot past the table changes nothing.
pub open spec fn with_slot(
    before: TradeSessionView,
    slot: u8,
    item: Option<u64>,
) -> TradeSessionView {
    if slot < TRADE_SLOTS {
        TradeSessionView {
            ours: before.ours.update(slot as int, item),
            accepted: false,
            partner_accepted: false,
            ..before
        }
    } else {
        before
    }
}

impl Default for TradeSession {
    fn default() -> (r: Self)
        ensures
            r@ == fresh_session(None, false),
    {
        let r = TradeSession {
            partner: None,
            token: 0,
            we_asked: false,
            open: false,
            theirs: None,
            ours: [None, None, None, None, None, None, None],
            our_money: 0,
            partner_accepted: false,
            accepted: false,
        };
        assert(r.ours@ =~= fresh_session(None, false).ours);
        r
    }
}

impl TradeSession {
    /// A trade this client has just asked for.
    pub fn requested(partner: u64) -> (r: Self)
        ensures
            r@ == fresh_session(Some(partner), true),
    {
        let mut r = TradeSession::default();
        r.partner = Some(partner);
        r.we_asked = true;
        r
    }

    /// A trade somebody else has just asked for.
    pub fn offered(partner: u64) -> (r: Self)
        ensures
            r@ == fresh_session(Some(partner), false),
    {
        let mut r = TradeSession::default();
        r.partner = Some(partner);
        r
    }

    /// Whether this client is being asked and has not answered yet.
    pub fn awaiting_our_answer(&self) -> (r: bool)
        ensures
            r == (!self@.open && !self@.we_asked),
    {
        !self.open && !self.we_asked
    }

    /// Whether both ends have accepted.
    pub fn both_accepted(&self) -> (r: bool)
        ensures
            r == (self@.accepted && self@.partner_accepted),
    {
        self.accepted && self.partner_accepted
    }

    /// Whether this side has put anything at all on the table.
    pub fn we_offer_anything(&self) -> (r: bool)
        ensures
            r == (self@.our_money != 0 || exists|i: int|
                0 <= i < TRADE_SLOTS && self@.ours[i] is Some),
    {
        if self.our_money != 0 {
            return true;
        }
        for i in 0..TRADE_SLOTS
            invariant
                self@.our_money == 0,
                forall|k: int| 0 <= k < i ==> self@.ours[k] is None,
        {
            if self.ours[i].is_some() {
                assert(self@.ours[i as int] is Some);
                return true;
            }
        }
        false
    }

    /// Records an item this client has just put in a slot. Changing an offer
    /// withdraws every agreement about it.
    pub fn put(&mut self, slot: u8, item: u64)
        ensures
            final(self)@ == with_slot(old(self)@, slot, Some(item)),
    {
        if (slot as usize) < TRADE_SLOTS {
            self.ours[slot as usize] = Some(item);
            self.accepted = false;
            self.partner_accepted = false;
        }
    }

    /// Records an item taken back out of a slot.
    pub fn take_back(&mut self, slot: u8)
        ensures
            final(self)@ == with_slot(old(self)@, slot, None),
    {
        if (slot as usize) < TRADE_SLOTS {
            self.ours[slot as usize] = None;
            self.accepted = false;
            self.partner_accepted = false;
        }
    }

    /// Records money put on the table.
    pub fn put_money(&mut self, copper: u32)
        ensures
            final(self)@ == (TradeSessionView {
                our_money: copper,
                accepted: false,
                partner_accepted: false,
                ..old(self)@
            }),
    {
        self.our_money = copper;
        self.accepted = false;
        self.partner_accepted = false;
    }

    /// The first slot with nothing in it among those that change hands, or
    /// `None` when they are full.
    pub fn first_free_slot(&self) -> (r: Option<u8>)
        ensures
            match r {
                Some(slot) => slot < NONTRADED_SLOT && self@.ours[slot as int] is None && forall|
                    k: int,
                |
                    0 <= k < slot ==> self@.ours[k] is Some,
                None => forall|k: int| 0 <= k < NONTRADED_SLOT ==> self@.ours[k] is Some,
            },
    {
        for slot in 0..NONTRADED_SLOT
            invariant
                forall|k: int| 0 <= k < slot ==> self@.ours[k] is Some,
        {
            if self.ours[slot as usize].is_none() {
                return Some(slot);
            }
        }
        None
    }

    /// Whether this item is already somewhere on our side of the table.
    pub fn already_offered(&self, item: u64) -> (r: bool)
        ensures
            r == exists|i: int| 0 <= i < TRADE_SLOTS && self@.ours[i] == Some(item),
    {
        for i in 0..TRADE_SLOTS
            invariant
                forall|k: int| 0 <= k < i ==> self@.ours[k] != Some(item),
        {
            if let Some(held) = self.ours[i] {
                if held == item {
                    assert(self@.ours[i as int] == Some(item));
                    return true;
                }
            }
        }
        false
    }
}

/// An item put on the table is found there, in its own slot and nowhere else
/// than before, and no accept survives it.
pub proof fn lemma_put_then_held(before: TradeSessionView, slot: u8, item: u64, other: int)
    requires
        before.ours.len() == TRADE_SLOTS,
        slot < TRADE_SLOTS,
        0 <= other < TRADE_SLOTS,
    ensures
        ({
            let after = with_slot(before, slot, Some(item));
            &&& after.ours[slot as int] == Some(item)
            &&& other != slot ==> after.ours[other] == before.ours[other]
            &&& !after.accepted && !after.partner_accepted
        }),
{
}

/// Taking back what was put into an empty slot leaves the table as it was,
/// with no accept left on it.
pub proof fn lemma_take_back_undoes_put(before: TradeSessionView, slot: u8, item: u64)
    requires
        before.ours.len() == TRADE_SLOTS,
        slot < TRADE_SLOTS,
        before.ours[slot as int] is None,
    ensures
        with_slot(with_slot(before, slot, Some(item)), slot, None) == (TradeSessionView {
            accepted: false,
            partner_accepted: false,
            ..before
        }),
{
    assert(before.ours.update(slot as int, Some(item)).update(slot as int, None) =~= before.ours);
}

} // verus!
