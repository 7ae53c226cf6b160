//! Packet layouts as mathematics.
//!
//! A [`Cursor`] is what a [`Reader`](crate::protocol::Reader) is at one moment:
//! the body, the offset reached, and the error that stopped it, if one did. A
//! failed cursor takes no further step, so a layout is written as one chain of
//! steps and the chain's end says whether the body was accepted, and if not,
//! which field was the first to be wrong.
use crate::protocol::Error;
use crate::text::lossy_utf8;
use crate::wire::{le16, le32, le64};
use vstd::prelude::*;

verus! {

/// A place in a body, or the error that reading ran into.
#[verifier::ext_equal]
pub struct Cursor {
    pub data: Seq<u8>,
    pub at: int,
    pub what: &'static str,
    pub failed: Option<Error>,
}

/// Where the string that starts at `at` ends: at the first zero byte, or at
/// the end of the data where there is none.
pub open spec fn string_end(data: Seq<u8>, at: int) -> int
    decreases data.len() - at,
{
    if at >= data.len() || data[at] == 0 {
        at
    } else {
        string_end(data, at + 1)
    }
}

impl Cursor {
    /// The start of a body.
    pub open spec fn over(data: Seq<u8>, what: &'static str) -> Cursor {
        Cursor { data, at: 0, what, failed: None }
    }

    /// A cursor that can still be read from.
    pub open spec fn sound(self) -> bool {
        &&& self.failed is None
        &&& 0 <= self.at <= self.data.len()
    }

    /// How many bytes are left.
    pub open spec fn left(self) -> int {
        self.data.len() - self.at
    }

    /// Stops with an error, unless one came before.
    pub open spec fn fail(self, error: Error) -> Cursor {
        if self.failed is Some {
            self
        } else {
            Cursor { failed: Some(error), ..self }
        }
    }

    /// Stops with an error where the condition does not hold.
    pub open spec fn check(self, holds: bool, error: Error) -> Cursor {
        if holds {
            self
        } else {
            self.fail(error)
        }
    }

    /// Past one field of `need` bytes.
    pub open spec fn take(self, need: int) -> Cursor {
        if self.failed is Some {
            self
        } else if need > self.left() {
            self.fail(
                Error::Truncated {
                    what: self.what,
                    at: self.at as usize,
                    need: need as usize,
                    len: self.data.len() as usize,
                },
            )
        } else {
            Cursor { at: self.at + need, ..self }
        }
    }

    /// Past `n` fields of one byte each.
    pub open spec fn octets(self, n: int) -> Cursor {
        if self.failed is Some {
            self
        } else if n <= self.left() {
            Cursor { at: self.at + n, ..self }
        } else {
            Cursor { at: self.data.len() as int, ..self }.take(1)
        }
    }

    /// Past `n` fields of four bytes each.
    pub open spec fn words(self, n: int) -> Cursor {
        if self.failed is Some {
            self
        } else if n <= self.left() / 4 {
            Cursor { at: self.at + 4 * n, ..self }
        } else {
            Cursor { at: self.at + 4 * (self.left() / 4), ..self }.take(4)
        }
    }

    /// Past a string and its terminator.
    pub open spec fn cstring(self) -> Cursor {
        if self.failed is Some {
            self
        } else if string_end(self.data, self.at) >= self.data.len() {
            self.fail(Error::UnterminatedString { what: self.what })
        } else {
            Cursor { at: string_end(self.data, self.at) + 1, ..self }
        }
    }

    /// Past `n` strings.
    pub open spec fn cstrings(self, n: nat) -> Cursor
        decreases n,
    {
        if n == 0 {
            self
        } else {
            self.cstring().cstrings((n - 1) as nat)
        }
    }

    /// Past everything that is left.
    pub open spec fn rest(self) -> Cursor {
        if self.failed is Some {
            self
        } else {
            Cursor { at: self.data.len() as int, ..self }
        }
    }

    /// Stops with an error where bytes are left over.
    pub open spec fn finish(self) -> Cursor {
        self.check(
            self.left() == 0,
            Error::Trailing { what: self.what, got: self.left() as usize },
        )
    }

    /// The value read, or the error that reading ran into.
    pub open spec fn outcome<T>(self, value: T) -> Result<T, Error> {
        match self.failed {
            Some(error) => Err(error),
            None => Ok(value),
        }
    }

    /// The next byte.
    pub open spec fn byte(self) -> u8 {
        self.data[self.at]
    }

    /// The next 16-bit word.
    pub open spec fn short(self) -> u16 {
        le16(self.data, self.at)
    }

    /// The next 32-bit word.
    pub open spec fn word(self) -> u32 {
        le32(self.data, self.at)
    }

    /// The 32-bit word after `n` others.
    pub open spec fn nth(self, n: int) -> u32 {
        le32(self.data, self.at + 4 * n)
    }

    /// The next 64-bit word.
    pub open spec fn long(self) -> u64 {
        le64(self.data, self.at)
    }

    /// The next string.
    pub open spec fn text(self) -> Seq<char> {
        lossy_utf8(self.data.subrange(self.at, string_end(self.data, self.at)))
    }
}

/// Whether a reading did what a chain of cursor steps says: it stands where
/// the chain ends, or it reports the chain's error.
pub open spec fn ran<T>(r: Result<T, Error>, after: Cursor, expected: Cursor) -> bool {
    match r {
        Ok(_) => after == expected,
        Err(error) => expected.failed == Some(error),
    }
}

/// Whether a result is the one expected, the value taken by its view.
pub open spec fn agrees<T: View>(r: Result<T, Error>, expected: Result<T::V, Error>) -> bool {
    match (r, expected) {
        (Ok(value), Ok(model)) => value@ == model,
        (Err(error), Err(wanted)) => error == wanted,
        _ => false,
    }
}

/// The views of a sequence's elements.
pub open spec fn views<T: View>(s: Seq<T>) -> Seq<T::V> {
    Seq::new(s.len(), |i: int| s[i]@)
}

/// `n` records in a row: their values, and where they end.
pub open spec fn many<T>(
    c: Cursor,
    n: nat,
    record: spec_fn(Cursor) -> (T, Cursor),
) -> (Seq<T>, Cursor)
    decreases n,
{
    if n == 0 {
        (seq![], c)
    } else {
        let (value, next) = record(c);
        let (others, end) = many(next, (n - 1) as nat, record);
        (seq![value] + others, end)
    }
}

/// A record that a failed cursor does not get past.
pub open spec fn sticky<T>(record: spec_fn(Cursor) -> (T, Cursor)) -> bool {
    forall|c: Cursor| c.failed is Some ==> #[trigger] record(c).1 == c
}

pub proof fn lemma_many_sticky<T>(c: Cursor, n: nat, record: spec_fn(Cursor) -> (T, Cursor))
    requires
        c.failed is Some,
        sticky(record),
    ensures
        many(c, n, record).1 == c,
    decreases n,
{
    if n > 0 {
        assert(record(c).1 == c);
        lemma_many_sticky(c, (n - 1) as nat, record);
    }
}

/// One record more, in a run of which `done` have been read.
pub proof fn lemma_many_step<T>(
    done: Seq<T>,
    c: Cursor,
    n: nat,
    record: spec_fn(Cursor) -> (T, Cursor),
)
    requires
        n > 0,
    ensures
        done + many(c, n, record).0 == done.push(record(c).0) + many(
            record(c).1,
            (n - 1) as nat,
            record,
        ).0,
        many(c, n, record).1 == many(record(c).1, (n - 1) as nat, record).1,
{
    let (value, next) = record(c);
    let (others, end) = many(next, (n - 1) as nat, record);
    assert(done + (seq![value] + others) =~= done.push(value) + others);
}

/// A record that takes the same number of bytes wherever it stands.
pub open spec fn fixed_size<T>(record: spec_fn(Cursor) -> (T, Cursor), size: int) -> bool {
    forall|c: Cursor|
        (#[trigger] record(c)).1.failed is None ==> record(c).1 == (Cursor {
            at: c.at + size,
            ..c
        })
}

/// A run of records of one size takes that size times their number.
pub proof fn lemma_many_fixed<T>(
    c: Cursor,
    n: nat,
    record: spec_fn(Cursor) -> (T, Cursor),
    size: int,
)
    requires
        fixed_size(record, size),
        many(c, n, record).1.failed is None,
    ensures
        many(c, n, record).1 == (Cursor { at: c.at + size * n, ..c }),
        many(c, n, record).0.len() == n,
    decreases n,
{
    if n > 0 {
        lemma_many_fixed(record(c).1, (n - 1) as nat, record, size);
        assert(record(c).1.failed is None);
        assert(size * n == size + size * (n - 1)) by (nonlinear_arith);
    } else {
        assert(size * 0 == 0) by (nonlinear_arith);
    }
}

pub broadcast proof fn lemma_cstrings_sticky(c: Cursor, n: nat)
    requires
        c.failed is Some,
    ensures
        #[trigger] c.cstrings(n) == c,
    decreases n,
{
    if n > 0 {
        lemma_cstrings_sticky(c.cstring(), (n - 1) as nat);
    }
}

pub proof fn lemma_string_end(data: Seq<u8>, at: int)
    requires
        0 <= at <= data.len(),
    ensures
        at <= string_end(data, at) <= data.len(),
    decreases data.len() - at,
{
    if at < data.len() && data[at] != 0 {
        lemma_string_end(data, at + 1);
    }
}

pub proof fn lemma_views_push<T: View>(s: Seq<T>, t: T)
    ensures
        views(s.push(t)) == views(s).push(t@),
{
    assert(views(s.push(t)) =~= views(s).push(t@));
}

} // verus!
