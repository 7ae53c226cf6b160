//! What the stats of an item may do to the rest of the answer about it:
//! nothing.
use crate::cursor::{lemma_cstrings_sticky, lemma_string_end, string_end, Cursor};
use crate::query::{item_query_response, spell_slots, ITEM_SPELLS, ITEM_SPELL_FIELDS, NOT_FOUND};
use crate::wire::{
    bytes32, group_word_lengths, holds, le32, lemma_bytes32_len, lemma_le32_of_bytes,
};
use vstd::prelude::*;

verus! {

broadcast use group_word_lengths;

/// Where the stat block of an answer about an item stands: behind the entry,
/// the item's kind, its names and its traits.
pub open spec fn stat_block(body: Seq<u8>) -> Cursor {
    Cursor::over(body, "SMSG_ITEM_QUERY_SINGLE_RESPONSE").take(4).words(3).cstrings(4).words(21)
}

/// An answer about an item, put together around its stats, which take two
/// words each.
pub open spec fn with_stats(head: Seq<u8>, stats: Seq<u8>, tail: Seq<u8>) -> Seq<u8> {
    head + bytes32((stats.len() / 8) as u32) + stats + tail
}

/// Whether two readings have the same `n` bytes before them.
spec fn alongside(c: Cursor, d: Cursor, n: int) -> bool {
    &&& c.sound()
    &&& d.sound()
    &&& c.what == d.what
    &&& 0 <= n <= c.left()
    &&& n <= d.left()
    &&& c.data.subrange(c.at, c.at + n) == d.data.subrange(d.at, d.at + n)
}

proof fn lemma_past_both(c: Cursor, d: Cursor, n: int, k: int)
    requires
        alongside(c, d, n),
        0 <= k <= n,
    ensures
        alongside(Cursor { at: c.at + k, ..c }, Cursor { at: d.at + k, ..d }, n - k),
{
    let same = c.data.subrange(c.at, c.at + n);
    assert(c.data.subrange(c.at + k, c.at + n) =~= same.subrange(k, n));
    assert(d.data.subrange(d.at + k, d.at + n) =~= same.subrange(k, n));
}

proof fn lemma_past_words(c: Cursor, d: Cursor, n: int, count: int)
    requires
        alongside(c, d, n),
        0 <= 4 * count <= n,
    ensures
        alongside(c.words(count), d.words(count), n - 4 * count),
        c.words(count) == (Cursor { at: c.at + 4 * count, ..c }),
        d.words(count) == (Cursor { at: d.at + 4 * count, ..d }),
{
    lemma_past_both(c, d, n, 4 * count);
}

proof fn lemma_same_nth(c: Cursor, d: Cursor, n: int, k: int)
    requires
        alongside(c, d, n),
        0 <= k,
        4 * k + 4 <= n,
    ensures
        c.nth(k) == d.nth(k),
{
    reveal(le32);
    let here = c.data.subrange(c.at, c.at + n);
    let there = d.data.subrange(d.at, d.at + n);
    assert(here[4 * k] == there[4 * k]);
    assert(here[4 * k + 1] == there[4 * k + 1]);
    assert(here[4 * k + 2] == there[4 * k + 2]);
    assert(here[4 * k + 3] == there[4 * k + 3]);
}

proof fn lemma_same_string_end(c: Cursor, d: Cursor, n: int)
    requires
        alongside(c, d, n),
        string_end(c.data, c.at) < c.at + n,
    ensures
        c.at <= string_end(c.data, c.at),
        string_end(d.data, d.at) - d.at == string_end(c.data, c.at) - c.at,
    decreases n,
{
    lemma_string_end(c.data, c.at);
    assert(c.data.subrange(c.at, c.at + n)[0] == c.data[c.at]);
    assert(d.data.subrange(d.at, d.at + n)[0] == d.data[d.at]);
    if c.data[c.at] != 0 {
        lemma_past_both(c, d, n, 1);
        lemma_same_string_end(
            Cursor { at: c.at + 1, ..c },
            Cursor { at: d.at + 1, ..d },
            n - 1,
        );
    }
}

/// Past a string that stands in what both readings have before them.
proof fn lemma_past_string(c: Cursor, d: Cursor, n: int)
    requires
        alongside(c, d, n),
        string_end(c.data, c.at) < c.at + n,
    ensures
        c.at < c.cstring().at <= c.at + n,
        c.cstring() == (Cursor { at: c.cstring().at, ..c }),
        d.cstring() == (Cursor { at: d.at + (c.cstring().at - c.at), ..d }),
        alongside(c.cstring(), d.cstring(), n - (c.cstring().at - c.at)),
        c.text() == d.text(),
{
    lemma_same_string_end(c, d, n);
    let length = string_end(c.data, c.at) - c.at;
    lemma_past_both(c, d, n, length + 1);
    let same = c.data.subrange(c.at, c.at + n);
    assert(c.data.subrange(c.at, c.at + length) =~= same.subrange(0, length));
    assert(d.data.subrange(d.at, d.at + length) =~= same.subrange(0, length));
}

/// What stands before the stat block is read alike in both answers.
proof fn lemma_head_is_shared(head: Seq<u8>, stats: Seq<u8>, others: Seq<u8>, tail: Seq<u8>)
    requires
        stat_block(with_stats(head, stats, tail)).failed is None,
        stat_block(with_stats(head, stats, tail)).at == head.len(),
    ensures
        ({
            let what = "SMSG_ITEM_QUERY_SINGLE_RESPONSE";
            let c = Cursor::over(with_stats(head, stats, tail), what);
            let d = Cursor::over(with_stats(head, others, tail), what);
            let (name, other) = (c.take(4).words(3), d.take(4).words(3));
            let (traits, same) = (name.cstrings(4), other.cstrings(4));
            &&& d.take(4).failed is None
            &&& c.word() == d.word()
            &&& c.take(4).nth(0) == d.take(4).nth(0)
            &&& c.take(4).nth(1) == d.take(4).nth(1)
            &&& name.text() == other.text()
            &&& forall|k: int| 0 <= k < 21 ==> #[trigger] traits.nth(k) == same.nth(k)
            &&& traits.words(21) == (Cursor { at: head.len() as int, ..c })
            &&& same.words(21) == (Cursor { at: head.len() as int, ..d })
        }),
{
    let what = "SMSG_ITEM_QUERY_SINGLE_RESPONSE";
    let (a, b) = (with_stats(head, stats, tail), with_stats(head, others, tail));
    let (c, d) = (Cursor::over(a, what), Cursor::over(b, what));
    let n = head.len() as int;
    assert(a.subrange(0, n) =~= head);
    assert(b.subrange(0, n) =~= head);
    broadcast use lemma_cstrings_sticky;

    reveal_with_fuel(Cursor::cstrings, 5);
    let c3 = c.take(4).words(3);
    let (s1, s2, s3) = (c3.cstring(), c3.cstring().cstring(), c3.cstring().cstring().cstring());
    let c4 = s3.cstring();
    assert(c3.cstrings(4) == c4);
    assert(c4.failed is None);
    lemma_string_end(c3.data, c3.at);
    lemma_string_end(s1.data, s1.at);
    lemma_string_end(s2.data, s2.at);
    lemma_string_end(s3.data, s3.at);
    assert(c4.at + 84 == n);
    lemma_same_nth(c, d, n, 0);
    lemma_past_both(c, d, n, 4);
    lemma_same_nth(c.take(4), d.take(4), n - 4, 0);
    lemma_same_nth(c.take(4), d.take(4), n - 4, 1);
    lemma_past_words(c.take(4), d.take(4), n - 4, 3);
    let d3 = d.take(4).words(3);
    lemma_past_string(c3, d3, n - c3.at);
    lemma_past_string(s1, d3.cstring(), n - s1.at);
    lemma_past_string(s2, d3.cstring().cstring(), n - s2.at);
    lemma_past_string(s3, d3.cstring().cstring().cstring(), n - s3.at);
    let d4 = d3.cstring().cstring().cstring().cstring();
    assert(d3.cstrings(4) == d4);
    assert forall|k: int| 0 <= k < 21 implies #[trigger] c4.nth(k) == d4.nth(k) by {
        lemma_same_nth(c4, d4, 84, k);
    }
    lemma_past_words(c4, d4, 84, 21);
}

/// An answer holds the number of its stats, the stats, and then its tail.
proof fn lemma_stats_then_tail(head: Seq<u8>, stats: Seq<u8>, tail: Seq<u8>)
    requires
        stats.len() / 8 <= u32::MAX,
    ensures
        ({
            let body = with_stats(head, stats, tail);
            let n = head.len() + 4 + stats.len();
            &&& le32(body, head.len() as int) == stats.len() / 8
            &&& body.len() == n + tail.len()
            &&& body.subrange(n as int, body.len() as int) == tail
        }),
{
    let count = (stats.len() / 8) as u32;
    let body = with_stats(head, stats, tail);
    let n = head.len() + 4 + stats.len();
    lemma_bytes32_len(count);
    assert(holds(body, head.len() as int, bytes32(count))) by {
        reveal(holds);
        assert(body.subrange(head.len() as int, head.len() as int + 4) =~= bytes32(count));
    }
    lemma_le32_of_bytes(body, head.len() as int, count);
    assert(body.subrange(n as int, body.len() as int) =~= tail);
}

/// The stats of an item, however many there are, move the fields behind them
/// and change none: an answer says the same of everything else whatever its
/// stat block holds.
pub proof fn lemma_stats_change_no_other_field(
    head: Seq<u8>,
    stats: Seq<u8>,
    others: Seq<u8>,
    tail: Seq<u8>,
)
    requires
        item_query_response(with_stats(head, stats, tail)) is Ok,
        stat_block(with_stats(head, stats, tail)).failed is None,
        stat_block(with_stats(head, stats, tail)).at == head.len(),
        le32(with_stats(head, stats, tail), 0) < NOT_FOUND,
        stats.len() % 8 == 0,
        others.len() % 8 == 0,
        stats.len() / 8 <= u32::MAX,
        others.len() / 8 <= u32::MAX,
    ensures
        item_query_response(with_stats(head, others, tail)) == item_query_response(
            with_stats(head, stats, tail),
        ),
{
    let (a, b) = (with_stats(head, stats, tail), with_stats(head, others, tail));
    let what = "SMSG_ITEM_QUERY_SINGLE_RESPONSE";
    lemma_head_is_shared(head, stats, others, tail);
    lemma_stats_then_tail(head, stats, tail);
    lemma_stats_then_tail(head, others, tail);
    let (c, d) = (Cursor::over(a, what), Cursor::over(b, what));
    let (ca, da) = (stat_block(a), stat_block(b));
    let (n, k) = ((stats.len() / 8) as u32, (others.len() / 8) as u32);
    assert(ca.take(4).words(2 * n) == (Cursor { at: head.len() as int + 4 + stats.len(), ..c }));
    assert(da.take(4).words(2 * k) == (Cursor { at: head.len() as int + 4 + others.len(), ..d }));
    let (cf, df) = (ca.take(4).words(2 * n), da.take(4).words(2 * k));
    let left = tail.len() as int;
    assert(alongside(cf, df, left));
    assert(cf.left() == left && df.left() == left);
    lemma_past_words(cf, df, left, 18);
    let (cs, ds) = (cf.words(18), df.words(18));
    let left = left - 72;
    assert(spell_slots(cs) =~= spell_slots(ds)) by {
        assert forall|i: int| 0 <= i < ITEM_SPELLS implies spell_slots(cs)[i] == spell_slots(
            ds,
        )[i] by {
            lemma_same_nth(cs, ds, left, ITEM_SPELL_FIELDS * i);
            lemma_same_nth(cs, ds, left, ITEM_SPELL_FIELDS * i + 1);
        }
    }
    lemma_past_words(cs, ds, left, 31);
    let (ce, de) = (cs.words(31), ds.words(31));
    let left = left - 124;
    lemma_past_string(ce, de, left);
    let (ct, dt) = (ce.cstring(), de.cstring());
    let left = left - (ct.at - ce.at);
    lemma_past_words(ct, dt, left, 29);
    lemma_same_nth(ct, dt, left, 11);
}

} // verus!
