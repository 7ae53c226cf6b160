//! What a vendor is selling.
//!
//! The price on the wire is the one to show: the server has already applied
//! the buyer's reputation discount to it.
use crate::cursor::{agrees, Cursor};
use crate::protocol::{Error, Reader};
use crate::wire::{le32, le64, signed, to_signed};
use vstd::prelude::*;

verus! {

/// How many bytes one stock row occupies.
pub const ITEM_BYTES: usize = 32;

/// One thing a vendor will sell.
#[derive(Debug, Clone, Copy, PartialEq, Eq, Structural)]
pub struct VendorItem {
    /// The vendor's own slot number, and the handle a purchase has to use.
    pub slot: u32,
    pub entry: u32,
    pub display_id: u32,
    /// How many are left in stock, or `None` for an endless supply.
    pub remaining: Option<u32>,
    /// What it costs, in copper.
    pub price: u32,
    /// How many the buyer gets for one purchase at the price.
    pub buy_count: u32,
    /// What it costs other than money, or `None` for a plain purchase.
    pub extended_cost: Option<u32>,
    /// A field that nothing has explained.
    pub unknown: u32,
}

/// A vendor's whole stock list.
#[derive(Debug, Clone, PartialEq, Eq)]
pub struct VendorList {
    /// Who is selling.
    pub vendor: u64,
    pub items: Vec<VendorItem>,
}

/// A [`VendorList`] as a mathematical value.
pub struct VendorListView {
    pub vendor: u64,
    pub items: Seq<VendorItem>,
}

impl View for VendorList {
    type V = VendorListView;

    open spec fn view(&self) -> VendorListView {
        VendorListView { vendor: self.vendor, items: self.items@ }
    }
}

impl VendorList {
    /// Whether the vendor has nothing to offer.
    pub fn is_empty(&self) -> (r: bool)
        ensures
            r == (self@.items.len() == 0),
    {
        self.items.len() == 0
    }
}

/// A count that is absent where the word is negative.
pub open spec fn unless_negative(word: u32) -> Option<u32> {
    if signed(word) < 0 {
        None
    } else {
        Some(word)
    }
}

/// A word that is absent where it is zero.
pub open spec fn unless_zero(word: u32) -> Option<u32> {
    if word == 0 {
        None
    } else {
        Some(word)
    }
}

/// The row that starts at `at`.
pub open spec fn vendor_row(body: Seq<u8>, at: int) -> VendorItem {
    VendorItem {
        slot: le32(body, at),
        entry: le32(body, at + 4),
        display_id: le32(body, at + 8),
        remaining: unless_negative(le32(body, at + 12)),
        price: le32(body, at + 16),
        unknown: le32(body, at + 20),
        buy_count: le32(body, at + 24),
        extended_cost: unless_zero(le32(body, at + 28)),
    }
}

/// What [`parse_vendor_list`] makes of a body: a guid, a row count, and rows
/// that fill the rest exactly.
pub open spec fn vendor_list(body: Seq<u8>) -> Result<VendorListView, Error> {
    let head = Cursor::over(body, "SMSG_LIST_INVENTORY").take(8).take(1);
    let count = body[8];
    if head.failed is Some {
        head.outcome(VendorListView { vendor: 0, items: seq![] })
    } else if head.left() != count * ITEM_BYTES {
        Err(
            Error::VendorRowCount {
                count,
                expected: (count * ITEM_BYTES) as usize,
                got: head.left() as usize,
            },
        )
    } else {
        Ok(
            VendorListView {
                vendor: le64(body, 0),
                items: Seq::new(count as nat, |i: int| vendor_row(body, 9 + ITEM_BYTES * i)),
            },
        )
    }
}

/// Parses `SMSG_LIST_INVENTORY`.
///
/// The row count is held against the body's length before any row is read.
pub fn parse_vendor_list(body: &[u8]) -> (r: Result<VendorList, Error>)
    ensures
        agrees(r, vendor_list(body@)),
{
    let mut r = Reader::new(body, "SMSG_LIST_INVENTORY");
    let vendor: u64 = r.u64()?;
    let count: u8 = r.u8()?;
    let expected: usize = count as usize * ITEM_BYTES;
    if r.remaining() != expected {
        return Err(Error::VendorRowCount { count, expected, got: r.remaining() });
    }
    let mut items: Vec<VendorItem> = Vec::new();
    for i in 0..count
        invariant
            body@.len() == 9 + ITEM_BYTES * count,
            r@ == (Cursor {
                at: 9 + ITEM_BYTES * i,
                ..Cursor::over(body@, "SMSG_LIST_INVENTORY")
            }),
            r@.sound(),
            items@ == Seq::new(i as nat, |k: int| vendor_row(body@, 9 + ITEM_BYTES * k)),
    {
        let w = r.words::<8>()?;
        items.push(
            VendorItem {
                slot: w[0],
                entry: w[1],
                display_id: w[2],
                remaining: if to_signed(w[3]) < 0 {
                    None
                } else {
                    Some(w[3])
                },
                price: w[4],
                unknown: w[5],
                buy_count: w[6],
                extended_cost: if w[7] == 0 {
                    None
                } else {
                    Some(w[7])
                },
            },
        );
        assert(items@ =~= Seq::new(
            (i + 1) as nat,
            |k: int| vendor_row(body@, 9 + ITEM_BYTES * k),
        ));
    }
    r.finish()?;
    Ok(VendorList { vendor, items })
}

/// A stock list is accepted exactly where its length is that of the rows it
/// counts, so neither a byte more nor a byte less passes.
pub proof fn lemma_vendor_list_is_exact(body: Seq<u8>)
    ensures
        vendor_list(body) is Ok <==> body.len() >= 9 && body.len() == 9 + ITEM_BYTES * body[8],
{
}

} // verus!
