//! What the protocol promises of a bounded increment and of a bounded
//! append, stated on the values themselves.
//!
//! The remote cache performs each of these as one step. A caller that keeps
//! a copy of a value, or stands in for the cache, applies the same rules.

use super::{lemma_views_of, views_of, Error, Incrementable, IncrementOpts, Value, ValueView};
use vstd::prelude::*;

verus! {

/// Whether `value` lies within the bounds that are given.
pub open spec fn within(value: int, lower_limit: Option<i32>, upper_limit: Option<i32>) -> bool {
    &&& lower_limit matches Some(lower) ==> value >= lower
    &&& upper_limit matches Some(upper) ==> value <= upper
}

/// The bound that holds for a step: the one that the step brings, and the
/// stored one where it brings none.
pub open spec fn bound_in_force(given: Option<i32>, stored: Option<i32>) -> Option<i32> {
    if given is Some {
        given
    } else {
        stored
    }
}

impl Incrementable {
    /// Whether adding `delta` keeps the number within its bounds and within
    /// the 32 bits that it is stored in.
    pub open spec fn admits(self, delta: int) -> bool {
        &&& within(self.value + delta, self.lower_limit, self.upper_limit)
        &&& i32::MIN <= self.value + delta <= i32::MAX
    }

    /// The number after `delta` has been offered: added where the sum stays
    /// within the bounds, and else unchanged.
    pub open spec fn offered(self, delta: int) -> Incrementable {
        if self.admits(delta) {
            Incrementable { value: (self.value + delta) as i32, ..self }
        } else {
            self
        }
    }

    /// The number after the steps of `deltas` have been offered in turn.
    pub open spec fn offered_all(self, deltas: Seq<int>) -> Incrementable
        decreases deltas.len(),
    {
        if deltas.len() == 0 {
            self
        } else {
            self.offered_all(deltas.drop_last()).offered(deltas.last())
        }
    }

    /// Whether each step of `deltas`, offered in turn, is admitted.
    pub open spec fn admits_all(self, deltas: Seq<int>) -> bool
        decreases deltas.len(),
    {
        if deltas.len() == 0 {
            true
        } else {
            self.admits_all(deltas.drop_last()) && self.offered_all(deltas.drop_last()).admits(
                deltas.last(),
            )
        }
    }

    /// Adds `delta` where the sum stays within the bounds. A sum that would
    /// cross a bound, or that 32 bits cannot hold, is refused with
    /// `LimitReached`, and the number stays as it was.
    pub fn add(&mut self, delta: i32) -> (r: Result<(), Error>)
        ensures
            r is Ok <==> old(self).admits(delta as int),
            r is Err ==> r == Err::<(), Error>(Error::LimitReached),
            *final(self) == old(self).offered(delta as int),
    {
        let sum: i64 = self.value as i64 + delta as i64;
        if let Some(lower) = self.lower_limit {
            if sum < lower as i64 {
                return Err(Error::LimitReached);
            }
        }
        if let Some(upper) = self.upper_limit {
            if sum > upper as i64 {
                return Err(Error::LimitReached);
            }
        }
        if sum < i32::MIN as i64 || sum > i32::MAX as i64 {
            return Err(Error::LimitReached);
        }
        self.value = sum as i32;
        Ok(())
    }
}

/// The sum of `deltas`.
pub open spec fn total(deltas: Seq<int>) -> int
    decreases deltas.len(),
{
    if deltas.len() == 0 {
        0
    } else {
        total(deltas.drop_last()) + deltas.last()
    }
}

/// The number that an increment starts from: the stored one, or zero with
/// the bounds of `opts` where nothing is stored and `opts` asks to create.
pub open spec fn starting_point(stored: Option<Incrementable>, opts: Option<IncrementOpts>) -> Option<
    Incrementable,
> {
    match stored {
        Some(inc) => Some(
            match opts {
                Some(o) => Incrementable {
                    value: inc.value,
                    lower_limit: bound_in_force(o.lower_limit, inc.lower_limit),
                    upper_limit: bound_in_force(o.upper_limit, inc.upper_limit),
                },
                None => inc,
            },
        ),
        None => match opts {
            Some(o) => if o.create == Some(true) {
                Some(
                    Incrementable {
                        value: 0,
                        lower_limit: o.lower_limit,
                        upper_limit: o.upper_limit,
                    },
                )
            } else {
                None
            },
            None => None,
        },
    }
}

/// What an increment answers and what is stored after it.
pub open spec fn incremented(
    stored: Option<Incrementable>,
    delta: int,
    opts: Option<IncrementOpts>,
) -> (Result<Incrementable, Error>, Option<Incrementable>) {
    match starting_point(stored, opts) {
        None => (Err(Error::NotFound), stored),
        Some(start) => if start.admits(delta) {
            (Ok(start.offered(delta)), Some(start.offered(delta)))
        } else {
            (Err(Error::LimitReached), stored)
        },
    }
}

/// One increment, as the protocol promises it: `NotFound` where nothing is
/// stored and `opts` does not ask to create; `LimitReached` where the sum
/// is not admitted; and else the new number, which is then stored.
/// A refused increment leaves what is stored as it was.
pub fn increment_stored(stored: &mut Option<Incrementable>, delta: i32, opts: Option<
    IncrementOpts,
>) -> (r: Result<Incrementable, Error>)
    ensures
        (r, *final(stored)) == incremented(*old(stored), delta as int, opts),
{
    let start: Option<Incrementable> = match *stored {
        Some(inc) => Some(
            match opts {
                Some(o) => Incrementable {
                    value: inc.value,
                    lower_limit: if o.lower_limit.is_some() {
                        o.lower_limit
                    } else {
                        inc.lower_limit
                    },
                    upper_limit: if o.upper_limit.is_some() {
                        o.upper_limit
                    } else {
                        inc.upper_limit
                    },
                },
                None => inc,
            },
        ),
        None => match opts {
            Some(o) => match o.create {
                Some(true) => Some(
                    Incrementable {
                        value: 0,
                        lower_limit: o.lower_limit,
                        upper_limit: o.upper_limit,
                    },
                ),
                _ => None,
            },
            None => None,
        },
    };
    match start {
        None => Err(Error::NotFound),
        Some(mut inc) => match inc.add(delta) {
            Ok(()) => {
                *stored = Some(inc);
                Ok(inc)
            },
            Err(error) => Err(error),
        },
    }
}

/// `items` with `value` behind them, and without the oldest of them where
/// that makes more than `max_size`.
pub open spec fn appended(items: Seq<ValueView>, value: ValueView, max_size: Option<usize>) -> Seq<
    ValueView,
> {
    let grown = items.push(value);
    match max_size {
        Some(max) => if grown.len() > max {
            grown.drop_first()
        } else {
            grown
        },
        None => grown,
    }
}

/// What is kept after the values of `values` have been appended in turn.
pub open spec fn appended_all(items: Seq<ValueView>, values: Seq<ValueView>, max_size: Option<
    usize,
>) -> Seq<ValueView>
    decreases values.len(),
{
    if values.len() == 0 {
        items
    } else {
        appended(appended_all(items, values.drop_last(), max_size), values.last(), max_size)
    }
}

/// Appends `value` to `items`. Where `max_size` is given and the list then
/// holds more than that, the oldest member leaves.
pub fn append_bounded(items: &mut Vec<Value>, value: Value, max_size: Option<usize>)
    ensures
        views_of(final(items)@) == appended(views_of(old(items)@), value@, max_size),
{
    let ghost before = items@;
    items.push(value);
    proof {
        assert(items@.drop_last() =~= before);
        lemma_views_of(items@);
    }
    if let Some(max) = max_size {
        if items.len() > max {
            let ghost grown = items@;
            let _ = items.remove(0);
            proof {
                lemma_views_of(grown);
                lemma_views_of(items@);
                assert(views_of(items@) =~= views_of(grown).drop_first());
            }
        }
    }
}

impl Value {
    /// Appends `value` where this value is a list, as `append_bounded` does;
    /// any other value answers `TypeError` and stays as it was.
    pub fn add_to_set(&mut self, value: Value, max_size: Option<usize>) -> (r: Result<(), Error>)
        ensures
            match old(self)@ {
                ValueView::List(items) => r is Ok && final(self)@ == ValueView::List(
                    appended(items, value@, max_size),
                ),
                _ => r == Err::<(), Error>(Error::TypeError) && *final(self) == *old(self),
            },
    {
        match self.as_set_mut() {
            Some(items) => {
                append_bounded(items, value, max_size);
                Ok(())
            },
            None => Err(Error::TypeError),
        }
    }

    /// Adds `delta` where this value is a bounded number, as
    /// `Incrementable::add` does; any other value answers `TypeError` and
    /// stays as it was.
    pub fn increment(&mut self, delta: i32) -> (r: Result<Incrementable, Error>)
        ensures
            match *old(self) {
                Value::Inc(inc) => {
                    &&& *final(self) == Value::Inc(inc.offered(delta as int))
                    &&& r == if inc.admits(delta as int) {
                        Ok::<Incrementable, Error>(inc.offered(delta as int))
                    } else {
                        Err::<Incrementable, Error>(Error::LimitReached)
                    }
                },
                _ => r == Err::<Incrementable, Error>(Error::TypeError) && *final(self) == *old(
                    self,
                ),
            },
    {
        match self.as_inc_mut() {
            Some(inc) => match inc.add(delta) {
                Ok(()) => Ok(*inc),
                Err(error) => Err(error),
            },
            None => Err(Error::TypeError),
        }
    }
}

/// Bounded increment, any history: the number is the first one plus the
/// admitted steps; where every step is admitted, that is the first one plus
/// the sum of all steps; and a number that started within its bounds stays
/// within them.
pub proof fn lemma_increments_add_up(inc: Incrementable, deltas: Seq<int>)
    ensures
        inc.offered_all(deltas).lower_limit == inc.lower_limit,
        inc.offered_all(deltas).upper_limit == inc.upper_limit,
        inc.admits_all(deltas) ==> inc.offered_all(deltas).value == inc.value + total(deltas),
        within(inc.value as int, inc.lower_limit, inc.upper_limit) ==> within(
            inc.offered_all(deltas).value as int,
            inc.lower_limit,
            inc.upper_limit,
        ),
    decreases deltas.len(),
{
    if deltas.len() > 0 {
        lemma_increments_add_up(inc, deltas.drop_last());
        let before = inc.offered_all(deltas.drop_last());
        lemma_offered_value(before, deltas.last());
    }
}

/// Taking one step out of `deltas` takes its delta out of their sum.
pub proof fn lemma_total_without(deltas: Seq<int>, i: int)
    requires
        0 <= i < deltas.len(),
    ensures
        total(deltas) == total(deltas.remove(i)) + deltas[i],
    decreases deltas.len(),
{
    if i == deltas.len() - 1 {
        assert(deltas.remove(i) =~= deltas.drop_last());
    } else {
        lemma_total_without(deltas.drop_last(), i);
        assert(deltas.remove(i).drop_last() =~= deltas.drop_last().remove(i));
        assert(deltas.remove(i).last() == deltas.last());
    }
}

/// The sum of the steps does not depend on their order.
pub proof fn lemma_total_of_rearranged(a: Seq<int>, b: Seq<int>)
    requires
        a.to_multiset() == b.to_multiset(),
    ensures
        total(a) == total(b),
    decreases a.len(),
{
    a.to_multiset_ensures();
    b.to_multiset_ensures();
    if a.len() > 0 {
        let x = a.last();
        let earlier = a.drop_last();
        earlier.to_multiset_ensures();
        assert(earlier.push(x) =~= a);
        assert(a.to_multiset().count(x) > 0);
        assert(b.contains(x));
        let i = choose|i: int| 0 <= i < b.len() && b[i] == x;
        let others = b.remove(i);
        assert(others.to_multiset() =~= earlier.to_multiset());
        lemma_total_of_rearranged(earlier, others);
        lemma_total_without(b, i);
    }
}

/// Bounded increment, any order: where the same steps are offered in two
/// orders and each order admits every step, both end in the same number.
pub proof fn lemma_order_does_not_matter(inc: Incrementable, a: Seq<int>, b: Seq<int>)
    requires
        a.to_multiset() == b.to_multiset(),
        inc.admits_all(a),
        inc.admits_all(b),
    ensures
        inc.offered_all(a) == inc.offered_all(b),
{
    lemma_increments_add_up(inc, a);
    lemma_increments_add_up(inc, b);
    lemma_total_of_rearranged(a, b);
}

/// Bounded increment, one step: an admitted step adds its delta, and a
/// refused one changes nothing.
pub proof fn lemma_offered_value(inc: Incrementable, delta: int)
    ensures
        inc.admits(delta) ==> inc.offered(delta).value == inc.value + delta,
        !inc.admits(delta) ==> inc.offered(delta) == inc,
{
}

/// Bounded append, any history: from an empty list, what is kept is the
/// appended values in their order, and only the last `max_size` of them
/// where more were appended.
pub proof fn lemma_appends_keep_latest(values: Seq<ValueView>, max_size: Option<usize>)
    ensures
        appended_all(Seq::empty(), values, max_size) == match max_size {
            Some(max) => if values.len() > max {
                values.skip(values.len() - max)
            } else {
                values
            },
            None => values,
        },
    decreases values.len(),
{
    let kept = appended_all(Seq::empty(), values, max_size);
    if values.len() == 0 {
        assert(kept =~= values);
    } else {
        let earlier = values.drop_last();
        lemma_appends_keep_latest(earlier, max_size);
        let kept_earlier = appended_all(Seq::empty(), earlier, max_size);
        let grown = kept_earlier.push(values.last());
        match max_size {
            Some(max) => {
                if values.len() > max {
                    if earlier.len() > max {
                        assert(grown.drop_first() =~= values.skip(values.len() - max));
                    } else {
                        assert(grown =~= values);
                        assert(grown.drop_first() =~= values.skip(values.len() - max));
                    }
                } else {
                    assert(grown =~= values);
                }
            },
            None => {
                assert(grown =~= values);
            },
        }
    }
}

} // verus!
