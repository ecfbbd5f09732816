//! Laws of the simulation engine and of month bucketing: properties that
//! hold of every run, stated over the run model and proved once for all
//! inputs.

use crate::invest::{
    is_trigger, lemma_run_bounds, positive_prices, run_to, spendable, strictly_dated, Policy,
};
use crate::ticker::monthly::{
    build_groups, firsts_of, group_lt, insert_tick, lemma_build_groups_wf,
    lemma_insert_tick_split, singleton_group, tick_after_group, tick_in_group, GroupModel,
};
use crate::ticker::Tick;
use vstd::prelude::*;

verus! {

/// Both output series of any run march in step: they have the same
/// length, the same date at every position, and the cash-baseline value
/// at position `j` is `initial × (j + 1)` — one nominal budget increment
/// per executed purchase.  In particular the total the cash series
/// reaches is always a whole multiple of the budget, with no drift from
/// leftovers.
pub proof fn lemma_outputs_parallel(
    policy: Policy,
    s: Seq<Tick>,
    from_year: int,
    initial: int,
    carry: bool,
    i: int,
)
    requires
        0 <= i <= s.len(),
    ensures
        ({
            let st = run_to(policy, s, from_year, initial, carry, i);
            &&& st.kept.len() == st.invested.len()
            &&& forall|j: int| 0 <= j < st.kept.len() ==> (#[trigger] st.kept[j]).0
                == st.invested[j].0
            &&& forall|j: int| 0 <= j < st.kept.len() ==> (#[trigger] st.kept[j]).1 == initial * (j
                + 1)
        }),
    decreases i,
{
    if i > 0 {
        lemma_outputs_parallel(policy, s, from_year, initial, carry, i - 1);
    }
}

/// The number of observations among the first `i` dated in `from_year`
/// or later.
pub open spec fn qualifying_count(s: Seq<Tick>, from_year: int, i: int) -> int
    decreases i,
{
    if i <= 0 {
        0
    } else {
        qualifying_count(s, from_year, i - 1) + if s[i - 1].date.year >= from_year {
            1int
        } else {
            0int
        }
    }
}

/// The lots held and leftover after unconditionally buying
/// `spendable / price` whole lots at every observation dated in
/// `from_year` or later, in series order: the pair (lots, leftover).
pub open spec fn sequential_purchases(
    s: Seq<Tick>,
    from_year: int,
    initial: int,
    carry: bool,
    i: int,
) -> (int, int)
    decreases i,
{
    if i <= 0 {
        (0int, 0int)
    } else {
        let prev = sequential_purchases(s, from_year, initial, carry, i - 1);
        if s[i - 1].date.year >= from_year {
            let sp = spendable(initial, prev.1, carry);
            let price = s[i - 1].price as int;
            (prev.0 + sp / price, sp - (sp / price) * price)
        } else {
            prev
        }
    }
}

/// An each-day run whose budget covers every price never declines: it
/// buys at every observation dated in `from_year` or later, so each
/// output series has exactly one entry per such observation, and the
/// lots held are exactly the sequential sum of `spendable / price` over
/// them.
pub proof fn lemma_each_day_unlimited(
    s: Seq<Tick>,
    from_year: int,
    initial: int,
    carry: bool,
    i: int,
)
    requires
        positive_prices(s),
        forall|p: int| 0 <= p < s.len() ==> (#[trigger] s[p].price) <= initial,
        0 <= initial,
        0 <= i <= s.len(),
    ensures
        ({
            let st = run_to(Policy::EachDay, s, from_year, initial, carry, i);
            &&& st.invested.len() == qualifying_count(s, from_year, i)
            &&& st.kept.len() == qualifying_count(s, from_year, i)
            &&& st.lots == sequential_purchases(s, from_year, initial, carry, i).0
            &&& st.left == sequential_purchases(s, from_year, initial, carry, i).1
        }),
    decreases i,
{
    if i > 0 {
        lemma_each_day_unlimited(s, from_year, initial, carry, i - 1);
        lemma_run_bounds(Policy::EachDay, s, from_year, initial, carry, i - 1);
        let st = run_to(Policy::EachDay, s, from_year, initial, carry, i - 1);
        if s[i - 1].date.year >= from_year {
            // affordable: the spendable amount is at least the budget,
            // which covers the day's price
            assert(spendable(initial, st.left, carry) >= initial);
            assert(s[i - 1].price <= initial);
        }
    }
}

/// A series of a single observation under the last-of-month policy makes
/// exactly one purchase — the forced first purchase — through the
/// affordability-uncapped path: it happens whatever the price, spends
/// the full spendable amount's worth of whole lots, and leaves the
/// leftover untouched.
pub proof fn lemma_single_observation_last_day(
    s: Seq<Tick>,
    from_year: int,
    initial: int,
    carry: bool,
)
    requires
        s.len() == 1,
        s[0].date.year >= from_year,
        s[0].price >= 1,
    ensures
        ({
            let st = run_to(Policy::LastDayOfMonth, s, from_year, initial, carry, 1);
            &&& st.invested.len() == 1
            &&& st.kept.len() == 1
            &&& st.lots == spendable(initial, 0, carry) / (s[0].price as int)
            &&& st.left == 0
            &&& st.invested[0].0 == s[0].date
            &&& st.kept[0].1 == initial
        }),
{
    reveal_with_fuel(run_to, 2);
    let st = run_to(Policy::LastDayOfMonth, s, from_year, initial, carry, 1);
    assert(st.kept[0].1 == initial * 1);
}

/// Observations `a` and `b` fall in the same month of the same year.
pub open spec fn same_month(a: Tick, b: Tick) -> bool {
    a.date.year == b.date.year && a.date.month == b.date.month
}

/// Position `i` opens a month: it is the series' start, or the previous
/// observation falls in a different month.
pub open spec fn opens_month(s: Seq<Tick>, i: int) -> bool {
    i == 0 || !same_month(s[i - 1], s[i])
}

/// Position `i` closes a month: it is the series' end, or the next
/// observation falls in a different month.
pub open spec fn closes_month(s: Seq<Tick>, i: int) -> bool {
    i == s.len() - 1 || !same_month(s[i], s[i + 1])
}

/// Neighbouring observations that share a month number share the year:
/// the series never jumps from one month straight to the same-numbered
/// month of a later year, so a month-number change is exactly a month
/// boundary.
pub open spec fn months_distinct(s: Seq<Tick>) -> bool {
    forall|i: int|
        #![trigger s[i]]
        0 < i < s.len() ==> (s[i - 1].date.month == s[i].date.month ==> s[i - 1].date.year
            == s[i].date.year)
}

/// The observations that open their month, among the first `i` of `s`,
/// in series order.
pub open spec fn month_openers(s: Seq<Tick>, i: int) -> Seq<Tick>
    decreases i,
{
    if i <= 0 {
        Seq::empty()
    } else if opens_month(s, i - 1) {
        month_openers(s, i - 1).push(s[i - 1])
    } else {
        month_openers(s, i - 1)
    }
}

proof fn lemma_openers_prefix(s: Seq<Tick>, i: int, i2: int)
    requires
        0 <= i <= i2,
    ensures
        month_openers(s, i).len() <= month_openers(s, i2).len(),
        forall|j: int| 0 <= j < month_openers(s, i).len() ==> month_openers(s, i2)[j]
            == month_openers(s, i)[j],
    decreases i2 - i,
{
    if i < i2 {
        lemma_openers_prefix(s, i, i2 - 1);
    }
}

/// For a date-sorted series, the first-of-month representatives of the
/// month grouping of its first `i` observations are exactly the
/// observations among them that open their month, in order.
proof fn lemma_firsts_are_openers(s: Seq<Tick>, i: int)
    requires
        strictly_dated(s),
        0 <= i <= s.len(),
    ensures
        firsts_of(build_groups(s.take(i))) == month_openers(s, i),
        i > 0 ==> build_groups(s.take(i)).len() > 0 && tick_in_group(
            build_groups(s.take(i)).last(),
            s[i - 1],
        ),
    decreases i,
{
    if i > 0 {
        lemma_firsts_are_openers(s, i - 1);
        lemma_build_groups_wf(s.take(i - 1));
        let gs = build_groups(s.take(i - 1));
        let t = s[i - 1];
        assert(s.take(i).drop_last() =~= s.take(i - 1));
        assert(s.take(i).last() == t);
        let r = build_groups(s.take(i));
        assert(r == insert_tick(gs, t));
        if i == 1 {
            assert(s.take(0).len() == 0);
            assert(gs =~= Seq::<GroupModel>::empty());
            assert(r == seq![singleton_group(t)]);
            assert(firsts_of(r) =~= month_openers(s, 1));
        } else {
            let prev = s[i - 2];
            assert(tick_in_group(gs.last(), prev));
            assert(prev.date.spec_lt(t.date));
            if same_month(prev, t) {
                // the new observation extends the last (current) month group
                assert forall|p: int| 0 <= p < gs.len() - 1 implies tick_after_group(
                    t,
                    #[trigger] gs[p],
                ) by {
                    assert(group_lt(gs[p], gs[gs.len() - 1]));
                }
                lemma_insert_tick_split(gs, t, gs.len() - 1);
                assert(gs.skip(gs.len() - 1) =~= seq![gs.last()]);
                let upd = GroupModel {
                    year: gs.last().year,
                    month: gs.last().month,
                    ticks: gs.last().ticks.push(t),
                };
                assert(insert_tick(seq![gs.last()], t) == seq![upd] + seq![gs.last()].skip(1));
                assert(r =~= gs.take(gs.len() - 1).push(upd));
                assert(upd.ticks[0] == gs.last().ticks[0]);
                assert(firsts_of(r) =~= firsts_of(gs));
                assert(month_openers(s, i) == month_openers(s, i - 1));
            } else {
                // the new observation starts a fresh month group at the end
                assert(tick_after_group(t, gs.last()));
                assert forall|p: int| 0 <= p < gs.len() implies tick_after_group(
                    t,
                    #[trigger] gs[p],
                ) by {
                    if p < gs.len() - 1 {
                        assert(group_lt(gs[p], gs[gs.len() - 1]));
                    }
                }
                lemma_insert_tick_split(gs, t, gs.len() as int);
                assert(gs.skip(gs.len() as int) =~= Seq::<GroupModel>::empty());
                assert(insert_tick(Seq::<GroupModel>::empty(), t) == seq![singleton_group(t)]);
                assert(r =~= gs.push(singleton_group(t)));
                assert(firsts_of(r) =~= firsts_of(gs).push(t));
                assert(opens_month(s, i - 1));
            }
        }
    } else {
        assert(s.take(0).len() == 0);
        assert(firsts_of(build_groups(s.take(0))) =~= month_openers(s, 0));
    }
}

/// After `i` observations, a first-of-month run over `s` is in the same
/// state as an each-day run over the month openers of `s` that has
/// consumed exactly the openers among those `i`.
proof fn lemma_first_day_matches_openers(
    s: Seq<Tick>,
    from_year: int,
    initial: int,
    carry: bool,
    i: int,
)
    requires
        strictly_dated(s),
        months_distinct(s),
        0 <= i <= s.len(),
    ensures
        ({
            let a = run_to(Policy::FirstDayOfMonth, s, from_year, initial, carry, i);
            let f = month_openers(s, s.len() as int);
            let b = run_to(
                Policy::EachDay,
                f,
                from_year,
                initial,
                carry,
                month_openers(s, i).len() as int,
            );
            a.left == b.left && a.lots == b.lots && a.kept == b.kept && a.invested == b.invested
        }),
    decreases i,
{
    if i > 0 {
        lemma_first_day_matches_openers(s, from_year, initial, carry, i - 1);
        lemma_openers_prefix(s, i, s.len() as int);
        let f = month_openers(s, s.len() as int);
        let j = month_openers(s, i - 1).len() as int;
        let t = s[i - 1];
        if opens_month(s, i - 1) {
            assert(month_openers(s, i) == month_openers(s, i - 1).push(t));
            assert(month_openers(s, i)[j] == t);
            assert(f[j] == t);
            if i - 1 > 0 {
                assert(!same_month(s[i - 2], t));
                assert(s[i - 2].date.month != t.date.month);
            }
            assert(is_trigger(Policy::FirstDayOfMonth, s, i - 1));
        } else {
            assert(same_month(s[i - 2], t));
            assert(s[i - 2].date.month == t.date.month);
            assert(!is_trigger(Policy::FirstDayOfMonth, s, i - 1));
            assert(month_openers(s, i) == month_openers(s, i - 1));
        }
    }
}

/// Pre-filtering a series to one observation per month — its
/// first-of-month representatives — and then buying each day is
/// behaviourally equivalent to running the first-of-month policy over
/// the unfiltered series: the same purchase dates and amounts, the same
/// final lots and leftover.  Holds for every date-sorted series in
/// which a month-number change is exactly a month boundary.
pub proof fn lemma_first_of_month_equivalence(
    s: Seq<Tick>,
    from_year: int,
    initial: int,
    carry: bool,
)
    requires
        strictly_dated(s),
        months_distinct(s),
    ensures
        ({
            let direct = run_to(
                Policy::FirstDayOfMonth,
                s,
                from_year,
                initial,
                carry,
                s.len() as int,
            );
            let f = firsts_of(build_groups(s));
            let filtered = run_to(Policy::EachDay, f, from_year, initial, carry, f.len() as int);
            &&& direct.invested == filtered.invested
            &&& direct.kept == filtered.kept
            &&& direct.lots == filtered.lots
            &&& direct.left == filtered.left
        }),
{
    let n = s.len() as int;
    lemma_firsts_are_openers(s, n);
    assert(s.take(n) =~= s);
    lemma_first_day_matches_openers(s, from_year, initial, carry, n);
}

/// The number of month openers among the first `i` observations of `s`
/// at position `a` or later.
pub open spec fn openers_from(s: Seq<Tick>, a: int, i: int) -> int
    decreases i - a,
{
    if i <= a {
        0
    } else {
        openers_from(s, a, i - 1) + if opens_month(s, i - 1) {
            1int
        } else {
            0int
        }
    }
}

/// The number of month closers among the first `i` observations of `s`
/// at position `a` or later.
pub open spec fn closers_from(s: Seq<Tick>, a: int, i: int) -> int
    decreases i - a,
{
    if i <= a {
        0
    } else {
        closers_from(s, a, i - 1) + if closes_month(s, i - 1) {
            1int
        } else {
            0int
        }
    }
}

/// The length of the leading run of observations dated before
/// `from_year`, among the first `i`: the position of the first
/// qualifying observation, or `i` when none qualifies.
pub open spec fn cutoff_position(s: Seq<Tick>, from_year: int, i: int) -> int
    decreases i,
{
    if i <= 0 {
        0
    } else {
        let c = cutoff_position(s, from_year, i - 1);
        if c == i - 1 && s[i - 1].date.year < from_year {
            i
        } else {
            c
        }
    }
}

proof fn lemma_cutoff_properties(s: Seq<Tick>, from_year: int, i: int)
    requires
        0 <= i <= s.len(),
    ensures
        ({
            let q = cutoff_position(s, from_year, i);
            &&& 0 <= q <= i
            &&& forall|p: int| 0 <= p < q ==> (#[trigger] s[p].date.year) < from_year
            &&& (q < i ==> s[q].date.year >= from_year)
        }),
    decreases i,
{
    if i > 0 {
        lemma_cutoff_properties(s, from_year, i - 1);
    }
}

proof fn lemma_year_monotone(s: Seq<Tick>, a: int, b: int)
    requires
        strictly_dated(s),
        0 <= a <= b < s.len(),
    ensures
        s[a].date.year <= s[b].date.year,
    decreases b - a,
{
    if a < b {
        lemma_year_monotone(s, a, b - 1);
        assert(s[b - 1].date.spec_lt(s[b].date));
    }
}

/// A first-of-month run with every price affordable buys exactly at the
/// month openers at or after the cutoff.
proof fn lemma_first_day_count(
    s: Seq<Tick>,
    from_year: int,
    initial: int,
    carry: bool,
    q: int,
    i: int,
)
    requires
        strictly_dated(s),
        months_distinct(s),
        positive_prices(s),
        forall|p: int| q <= p < s.len() ==> (#[trigger] s[p].price) <= initial,
        0 <= initial,
        q == cutoff_position(s, from_year, s.len() as int),
        0 <= i <= s.len(),
    ensures
        run_to(Policy::FirstDayOfMonth, s, from_year, initial, carry, i).invested.len()
            == openers_from(s, q, i),
    decreases i,
{
    lemma_cutoff_properties(s, from_year, s.len() as int);
    if i > 0 {
        lemma_first_day_count(s, from_year, initial, carry, q, i - 1);
        lemma_run_bounds(Policy::FirstDayOfMonth, s, from_year, initial, carry, i - 1);
        let st = run_to(Policy::FirstDayOfMonth, s, from_year, initial, carry, i - 1);
        let t = s[i - 1];
        if i - 1 < q {
            assert(t.date.year < from_year);
        } else {
            assert(q < s.len());
            lemma_year_monotone(s, q, i - 1);
            assert(t.date.year >= from_year);
            assert(spendable(initial, st.left, carry) >= initial);
            if i - 1 > 0 {
                if s[i - 2].date.month == t.date.month {
                    assert(same_month(s[i - 2], t));
                }
            }
            assert(is_trigger(Policy::FirstDayOfMonth, s, i - 1) == opens_month(s, i - 1));
        }
    }
}

/// A last-of-month run with every price affordable makes its forced
/// purchase at the cutoff and then buys exactly at the month closers
/// after it.
proof fn lemma_last_day_count(
    s: Seq<Tick>,
    from_year: int,
    initial: int,
    carry: bool,
    q: int,
    i: int,
)
    requires
        strictly_dated(s),
        months_distinct(s),
        positive_prices(s),
        forall|p: int| q <= p < s.len() ==> (#[trigger] s[p].price) <= initial,
        0 <= initial,
        q == cutoff_position(s, from_year, s.len() as int),
        0 <= i <= s.len(),
    ensures
        ({
            let st = run_to(Policy::LastDayOfMonth, s, from_year, initial, carry, i);
            &&& st.once == (i > q)
            &&& st.invested.len() == if i <= q {
                0int
            } else {
                1 + closers_from(s, q + 1, i)
            }
        }),
    decreases i,
{
    lemma_cutoff_properties(s, from_year, s.len() as int);
    if i > 0 {
        lemma_last_day_count(s, from_year, initial, carry, q, i - 1);
        lemma_run_bounds(Policy::LastDayOfMonth, s, from_year, initial, carry, i - 1);
        let st = run_to(Policy::LastDayOfMonth, s, from_year, initial, carry, i - 1);
        let t = s[i - 1];
        if i - 1 < q {
            assert(t.date.year < from_year);
        } else {
            assert(q < s.len());
            lemma_year_monotone(s, q, i - 1);
            assert(t.date.year >= from_year);
            assert(spendable(initial, st.left, carry) >= initial);
            if i - 1 > q {
                if i - 1 < s.len() - 1 {
                    if t.date.month == s[i as int].date.month {
                        assert(same_month(t, s[i as int]));
                    }
                }
                assert(is_trigger(Policy::LastDayOfMonth, s, i - 1) == closes_month(s, i - 1));
            }
        }
    }
}

/// Scanning from a month opener, openers and closers stay balanced:
/// they agree exactly at month boundaries and at the series' end.
proof fn lemma_open_close_balance(s: Seq<Tick>, q: int, i: int)
    requires
        0 <= q < i <= s.len(),
        opens_month(s, q),
    ensures
        openers_from(s, q, i) - closers_from(s, q, i) == if i == s.len() || !same_month(
            s[i - 1],
            s[i],
        ) {
            0int
        } else {
            1int
        },
    decreases i - q,
{
    reveal_with_fuel(openers_from, 2);
    reveal_with_fuel(closers_from, 2);
    if i > q + 1 {
        lemma_open_close_balance(s, q, i - 1);
    }
}

proof fn lemma_closers_shift(s: Seq<Tick>, q: int, i: int)
    requires
        0 <= q,
        q + 1 <= i,
    ensures
        closers_from(s, q, i) == closers_from(s, q + 1, i) + if closes_month(s, q) {
            1int
        } else {
            0int
        },
    decreases i - q,
{
    reveal_with_fuel(closers_from, 2);
    if i > q + 1 {
        lemma_closers_shift(s, q, i - 1);
    }
}

/// Over the same series and budget, with every price affordable, the
/// first-of-month and the last-of-month policies execute the same
/// number of purchases — one per month represented at or after the
/// starting year — provided some observation qualifies and the first
/// qualifying observation closes its month, so that the forced first
/// purchase stands in for that month's closing purchase.
pub proof fn lemma_policy_purchase_counts(
    s: Seq<Tick>,
    from_year: int,
    initial: int,
    carry: bool,
)
    requires
        strictly_dated(s),
        months_distinct(s),
        positive_prices(s),
        forall|p: int|
            cutoff_position(s, from_year, s.len() as int) <= p < s.len() ==> (
            #[trigger] s[p].price) <= initial,
        0 <= initial,
        cutoff_position(s, from_year, s.len() as int) < s.len(),
        closes_month(s, cutoff_position(s, from_year, s.len() as int)),
    ensures
        ({
            let n = s.len() as int;
            let q = cutoff_position(s, from_year, n);
            let first = run_to(Policy::FirstDayOfMonth, s, from_year, initial, carry, n);
            let last = run_to(Policy::LastDayOfMonth, s, from_year, initial, carry, n);
            &&& first.invested.len() == last.invested.len()
            &&& first.invested.len() == openers_from(s, q, n)
        }),
{
    let n = s.len() as int;
    let q = cutoff_position(s, from_year, n);
    lemma_cutoff_properties(s, from_year, n);
    lemma_first_day_count(s, from_year, initial, carry, q, n);
    lemma_last_day_count(s, from_year, initial, carry, q, n);
    if q > 0 {
        assert(s[q - 1].date.year < from_year);
        assert(s[q].date.year >= from_year);
        assert(!same_month(s[q - 1], s[q]));
    }
    assert(opens_month(s, q));
    lemma_open_close_balance(s, q, n);
    lemma_closers_shift(s, q, n);
}

} // verus!
