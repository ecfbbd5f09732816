use crate::ticker::{Date, Tick, Ticker};
use vstd::arithmetic::div_mod::{
    lemma_div_pos_is_pos, lemma_fundamental_div_mod, lemma_mod_division_less_than_divisor,
};
use vstd::arithmetic::mul::lemma_mul_inequality;
use vstd::prelude::*;

verus! {

/// Per-run purchase state: the nominal budget available at each buying
/// opportunity, the unspent leftover from earlier purchases, and the
/// lots held so far.  Money is in minor currency units.
#[derive(Clone, Copy, PartialEq, Eq, Structural, Debug)]
pub struct Amount {
    pub initial: u64,
    pub left: u64,
    pub lots: u64,
    pub carry_leftover: bool,
}

impl Amount {
    /// A fresh plan: `initial` available per opportunity, nothing yet
    /// spent or held, leftover carried into later purchases.
    pub fn new(initial: u64) -> (r: Self)
        ensures
            r == (Amount { initial, left: 0, lots: 0, carry_leftover: true }),
    {
        Amount { initial, left: 0, lots: 0, carry_leftover: true }
    }

    /// The cash available at one buying opportunity.
    pub open spec fn spec_amount(self) -> int {
        if self.carry_leftover {
            self.initial + self.left
        } else {
            self.initial as int
        }
    }

    fn amount(&self) -> (r: u64)
        requires
            self.initial + self.left <= u64::MAX,
        ensures
            r == self.spec_amount(),
    {
        if self.carry_leftover {
            self.initial + self.left
        } else {
            self.initial
        }
    }
}

/// The day-selection rule a simulation run follows.
#[derive(Clone, Copy, PartialEq, Eq, Structural, Debug)]
pub enum Policy {
    /// Buy at every observation.
    EachDay,
    /// Buy at the first observation of each calendar month.
    FirstDayOfMonth,
    /// Buy at the last observation of each calendar month, after a
    /// forced purchase at the first qualifying observation.
    LastDayOfMonth,
}

/// A structural fault in a run's input or configuration; a run aborts on
/// it rather than produce an output that could pass for "no purchases".
#[derive(Clone, Copy, PartialEq, Eq, Structural, Debug)]
pub enum InvestError {
    /// The per-opportunity budget is zero.
    ZeroBudget,
    /// The series has no observations.
    EmptySeries,
    /// The series' dates are not strictly increasing.
    UnsortedSeries,
    /// An observation's price is zero.
    ZeroPrice,
    /// A policy identifier that names no policy.
    UnknownPolicy,
}

/// The policy a textual identifier names.
pub open spec fn spec_policy_of(name: Seq<char>) -> Result<Policy, InvestError> {
    if name == "each-day"@ {
        Ok(Policy::EachDay)
    } else if name == "first-of-month"@ {
        Ok(Policy::FirstDayOfMonth)
    } else if name == "last-of-month"@ {
        Ok(Policy::LastDayOfMonth)
    } else {
        Err(InvestError::UnknownPolicy)
    }
}

impl Policy {
    /// The policy named `"each-day"`, `"first-of-month"` or
    /// `"last-of-month"`.
    pub fn from_name(name: &str) -> (r: Result<Policy, InvestError>)
        ensures
            r == spec_policy_of(name@),
    {
        let n = String::from_str(name);
        if n == String::from_str("each-day") {
            Ok(Policy::EachDay)
        } else if n == String::from_str("first-of-month") {
            Ok(Policy::FirstDayOfMonth)
        } else if n == String::from_str("last-of-month") {
            Ok(Policy::LastDayOfMonth)
        } else {
            Err(InvestError::UnknownPolicy)
        }
    }
}

/// The two parallel output series of one simulation run: the
/// mark-to-market value of the lots held, and the cash baseline.
#[derive(Debug)]
pub struct Invest {
    pub kept: Ticker,
    pub invested: Ticker,
}

/// The state of one simulation run after some prefix of the series:
/// leftover cash, lots held, whether the forced first purchase has
/// happened, and the two output series gathered so far (as date/value
/// pairs over unbounded integers).
pub ghost struct RunState {
    pub left: int,
    pub lots: int,
    pub once: bool,
    pub kept: Seq<(Date, int)>,
    pub invested: Seq<(Date, int)>,
}

/// The state before any observation is processed.
pub open spec fn start_state() -> RunState {
    RunState { left: 0, lots: 0, once: false, kept: Seq::empty(), invested: Seq::empty() }
}

/// Whether the policy treats position `i` as a buying opportunity
/// (before the forced-first rule and the affordability check).
pub open spec fn is_trigger(policy: Policy, s: Seq<Tick>, i: int) -> bool {
    match policy {
        Policy::EachDay => true,
        Policy::FirstDayOfMonth => i == 0 || s[i - 1].date.month != s[i].date.month,
        Policy::LastDayOfMonth => i == s.len() - 1 || s[i].date.month != s[i + 1].date.month,
    }
}

/// The cash available at one opportunity.
pub open spec fn spendable(initial: int, left: int, carry: bool) -> int {
    if carry {
        initial + left
    } else {
        initial
    }
}

/// One observation processed: the run state after deciding at position
/// `i` of the series.
pub open spec fn run_step(
    policy: Policy,
    s: Seq<Tick>,
    from_year: int,
    initial: int,
    carry: bool,
    st: RunState,
    i: int,
) -> RunState {
    let d = s[i].date;
    let price = s[i].price as int;
    if d.year < from_year {
        st
    } else if policy is LastDayOfMonth && !st.once {
        // the forced first purchase: no affordability cap, leftover untouched
        let lots2 = st.lots + spendable(initial, st.left, carry) / price;
        RunState {
            left: st.left,
            lots: lots2,
            once: true,
            kept: st.kept.push((d, initial * (st.invested.len() + 1))),
            invested: st.invested.push((d, lots2 * price)),
        }
    } else if is_trigger(policy, s, i) {
        let sp = spendable(initial, st.left, carry);
        if price > sp {
            st  // decline: too expensive today; not retried
        } else {
            let lots2 = st.lots + sp / price;
            RunState {
                left: sp - (sp / price) * price,
                lots: lots2,
                once: st.once,
                kept: st.kept.push((d, initial * (st.invested.len() + 1))),
                invested: st.invested.push((d, lots2 * price)),
            }
        }
    } else {
        st
    }
}

/// The run state after the first `i` observations of the series.
pub open spec fn run_to(
    policy: Policy,
    s: Seq<Tick>,
    from_year: int,
    initial: int,
    carry: bool,
    i: int,
) -> RunState
    decreases i,
{
    if i <= 0 {
        start_state()
    } else {
        run_step(
            policy,
            s,
            from_year,
            initial,
            carry,
            run_to(policy, s, from_year, initial, carry, i - 1),
            i - 1,
        )
    }
}

/// Dates strictly increasing along the series.
pub open spec fn strictly_dated(s: Seq<Tick>) -> bool {
    forall|i: int| 0 < i < s.len() ==> s[i - 1].date.spec_lt(#[trigger] s[i].date)
}

/// Every observation's price is positive.
pub open spec fn positive_prices(s: Seq<Tick>) -> bool {
    forall|i: int| 0 <= i < s.len() ==> (#[trigger] s[i].price) >= 1
}

/// The greatest price in the series (0 when empty).
pub open spec fn max_price(s: Seq<Tick>) -> int
    decreases s.len(),
{
    if s.len() == 0 {
        0
    } else {
        let m = max_price(s.drop_last());
        if s.last().price > m {
            s.last().price as int
        } else {
            m
        }
    }
}

/// The arithmetic of a whole run over `s` with budget `initial` stays
/// within `u64` — a machine-width bound, not a rule of the model.
pub open spec fn run_fits(s: Seq<Tick>, initial: int) -> bool {
    s.len() * (initial + max_price(s)) * max_price(s) <= u64::MAX
}

/// The structural fault a run reports before starting its pass, if any.
pub open spec fn run_fault(s: Seq<Tick>, initial: int) -> Option<InvestError> {
    if initial == 0 {
        Some(InvestError::ZeroBudget)
    } else if s.len() == 0 {
        Some(InvestError::EmptySeries)
    } else if !strictly_dated(s) {
        Some(InvestError::UnsortedSeries)
    } else if !positive_prices(s) {
        Some(InvestError::ZeroPrice)
    } else {
        None
    }
}

/// The date/value pairs a series of output ticks holds.
pub open spec fn tick_values(s: Seq<Tick>) -> Seq<(Date, int)> {
    s.map_values(|t: Tick| (t.date, t.price as int))
}

proof fn lemma_max_price_bounds(s: Seq<Tick>)
    ensures
        0 <= max_price(s),
        forall|i: int| 0 <= i < s.len() ==> (#[trigger] s[i].price) <= max_price(s),
    decreases s.len(),
{
    if s.len() > 0 {
        lemma_max_price_bounds(s.drop_last());
        assert forall|i: int| 0 <= i < s.len() implies (#[trigger] s[i].price) <= max_price(s) by {
            if i < s.len() - 1 {
                assert(s.drop_last()[i] == s[i]);
            }
        }
    }
}

/// Facts about one capped purchase at price `price` with `sp` spendable:
/// the lot count, its cost and the remainder all lie within `sp`, and
/// the remainder is below the price.
proof fn lemma_purchase(sp: int, price: int)
    requires
        0 <= sp,
        1 <= price,
    ensures
        0 <= sp / price,
        sp / price <= sp,
        (sp / price) * price <= sp,
        0 <= sp - (sp / price) * price < price,
{
    lemma_div_pos_is_pos(sp, price);
    lemma_fundamental_div_mod(sp, price);
    lemma_mod_division_less_than_divisor(sp, price);
    lemma_mul_inequality(1, price, sp / price);
}

/// The running bounds of a simulation after `i` observations: the
/// leftover stays below the top price, the lots stay bounded by the
/// money paid in, and the two outputs march in step.
pub open spec fn run_bounded(
    policy: Policy,
    s: Seq<Tick>,
    from_year: int,
    initial: int,
    carry: bool,
    i: int,
) -> bool {
    let st = run_to(policy, s, from_year, initial, carry, i);
    &&& 0 <= st.left <= max_price(s)
    &&& 0 <= st.lots <= st.invested.len() * (initial + max_price(s))
    &&& st.kept.len() == st.invested.len() <= i
}

pub proof fn lemma_run_bounds(
    policy: Policy,
    s: Seq<Tick>,
    from_year: int,
    initial: int,
    carry: bool,
    i: int,
)
    requires
        positive_prices(s),
        0 <= initial,
        0 <= i <= s.len(),
    ensures
        run_bounded(policy, s, from_year, initial, carry, i),
    decreases i,
{
    lemma_max_price_bounds(s);
    if i > 0 {
        lemma_run_bounds(policy, s, from_year, initial, carry, i - 1);
        let st = run_to(policy, s, from_year, initial, carry, i - 1);
        let mp = max_price(s);
        let bp = initial + mp;
        let t = s[i - 1];
        let price = t.price as int;
        assert(1 <= price && price <= mp);
        let k = st.invested.len() as int;
        if t.date.year >= from_year {
            let sp = spendable(initial, st.left, carry);
            if policy is LastDayOfMonth && !st.once {
                lemma_purchase(sp, price);
                assert(k * bp + bp == (k + 1) * bp) by (nonlinear_arith);
            } else if is_trigger(policy, s, i - 1) && price <= sp {
                lemma_purchase(sp, price);
                assert(k * bp + bp == (k + 1) * bp) by (nonlinear_arith);
            }
        }
    }
}

/// The full contract of one simulation run: `am0`/`am1` are the plan
/// before and after, `r` the outcome.  A faulty input or configuration
/// is reported exactly and leaves the plan untouched; otherwise the
/// outputs and the final plan are the ones the run model computes.
pub open spec fn run_post(
    policy: Policy,
    tk: Ticker,
    am0: Amount,
    am1: Amount,
    from_year: int,
    r: Result<Invest, InvestError>,
) -> bool {
    let s = tk.ticks@;
    let fault = run_fault(s, am0.initial as int);
    match r {
        Ok(inv) => {
            let m = run_to(policy, s, from_year, am0.initial as int, am0.carry_leftover, s.len() as int);
            &&& fault is None
            &&& am1.initial == am0.initial
            &&& am1.carry_leftover == am0.carry_leftover
            &&& am1.left == m.left
            &&& am1.lots == m.lots
            &&& inv.kept.symbol == tk.symbol
            &&& inv.invested.symbol == tk.symbol
            &&& tick_values(inv.kept.ticks@) == m.kept
            &&& tick_values(inv.invested.ticks@) == m.invested
        },
        Err(e) => {
            &&& fault == Some(e)
            &&& am1 == am0
        },
    }
}

impl Invest {
    /// The simulation driver: one pass over the series, deciding at each
    /// observation under the given policy.
    fn invest_on(ticker: &Ticker, am: &mut Amount, from_year: i32, policy: Policy) -> (r: Result<
        Invest,
        InvestError,
    >)
        requires
            old(am).left == 0,
            old(am).lots == 0,
            run_fits(ticker.ticks@, old(am).initial as int),
        ensures
            run_post(policy, *ticker, *old(am), *final(am), from_year as int, r),
    {
        let ghost s = ticker.ticks@;
        let ghost fy = from_year as int;
        let ghost b = old(am).initial as int;
        let ghost carry = old(am).carry_leftover;
        if am.initial == 0 {
            return Err(InvestError::ZeroBudget);
        }
        let n = ticker.ticks.len();
        if n == 0 {
            return Err(InvestError::EmptySeries);
        }
        let mut i: usize = 1;
        while i < n
            invariant
                n == s.len(),
                s == ticker.ticks@,
                am == old(am),
                am.initial >= 1,
                1 <= i <= n,
                forall|p: int| 0 < p < i ==> s[p - 1].date.spec_lt(#[trigger] s[p].date),
            decreases n - i,
        {
            let prev = ticker.ticks[i - 1];
            let cur = ticker.ticks[i];
            if !prev.date.is_before(&cur.date) {
                assert(!strictly_dated(s));
                return Err(InvestError::UnsortedSeries);
            }
            i = i + 1;
        }
        assert(strictly_dated(s));
        let mut i: usize = 0;
        while i < n
            invariant
                n == s.len(),
                s == ticker.ticks@,
                am == old(am),
                am.initial >= 1,
                1 <= n,
                strictly_dated(s),
                i <= n,
                forall|p: int| 0 <= p < i ==> (#[trigger] s[p].price) >= 1,
            decreases n - i,
        {
            if ticker.ticks[i].price == 0 {
                assert(!positive_prices(s));
                return Err(InvestError::ZeroPrice);
            }
            i = i + 1;
        }
        assert(positive_prices(s));
        proof {
            lemma_max_price_bounds(s);
        }
        let ghost mp = max_price(s);
        let ghost bp = b + mp;
        let mut kept_ticks: Vec<Tick> = Vec::new();
        let mut invested_ticks: Vec<Tick> = Vec::new();
        let mut once: bool = false;
        let mut i: usize = 0;
        proof {
            assert(tick_values(kept_ticks@) =~= start_state().kept);
            assert(tick_values(invested_ticks@) =~= start_state().invested);
        }
        while i < n
            invariant
                n == s.len(),
                s == ticker.ticks@,
                i <= n,
                1 <= b,
                fy == from_year as int,
                strictly_dated(s),
                positive_prices(s),
                run_fits(s, b),
                mp == max_price(s),
                bp == b + mp,
                1 <= mp,
                am.initial == b,
                am.carry_leftover == carry,
                ({
                    let st = run_to(policy, s, fy, b, carry, i as int);
                    &&& am.left == st.left
                    &&& am.lots == st.lots
                    &&& once == st.once
                    &&& tick_values(kept_ticks@) == st.kept
                    &&& tick_values(invested_ticks@) == st.invested
                }),
            decreases n - i,
        {
            proof {
                lemma_run_bounds(policy, s, fy, b, carry, i as int);
                lemma_max_price_bounds(s);
                assert(s[i as int].price >= 1);
                // one opportunity's spendable fits in u64
                assert(bp * 1 * 1 <= n * bp * mp) by (nonlinear_arith)
                    requires
                        1 <= n as int,
                        1 <= mp,
                        0 <= bp,
                ;
            }
            let ghost st = run_to(policy, s, fy, b, carry, i as int);
            let ghost k = st.invested.len() as int;
            proof {
                assert(k < n ==> (k + 1) * bp * 1 <= n * bp * mp) by (nonlinear_arith)
                    requires
                        1 <= mp,
                        0 <= bp,
                        k < n as int,
                        0 <= k,
                ;
            }
            let t = ticker.ticks[i];
            if t.date.year >= from_year {
                let forced = policy == Policy::LastDayOfMonth && !once;
                if forced {
                    let sp = am.amount();
                    let bought = sp / t.price;
                    proof {
                        lemma_purchase(sp as int, t.price as int);
                        assert((k + 1) * bp == k * bp + bp) by (nonlinear_arith);
                    }
                    am.lots = am.lots + bought;
                    proof {
                        assert(am.lots * t.price <= ((k + 1) * bp) * mp) by (nonlinear_arith)
                            requires
                                0 <= am.lots as int <= (k + 1) * bp,
                                1 <= t.price as int <= mp,
                        ;
                        assert(((k + 1) * bp) * mp <= n * bp * mp) by (nonlinear_arith)
                            requires
                                k + 1 <= n as int,
                                0 <= bp,
                                1 <= mp,
                        ;
                    }
                    let value = am.lots * t.price;
                    invested_ticks.push(Tick::new(t.date, value));
                    proof {
                        assert(b * (k + 1) <= n * bp * mp) by (nonlinear_arith)
                            requires
                                1 <= mp,
                                0 <= b,
                                b <= bp,
                                0 <= k,
                                k + 1 <= n as int,
                        ;
                    }
                    let kept_value = am.initial * (invested_ticks.len() as u64);
                    kept_ticks.push(Tick::new(t.date, kept_value));
                    once = true;
                    proof {
                        let st2 = run_to(policy, s, fy, b, carry, i + 1);
                        assert(tick_values(invested_ticks@) =~= st2.invested);
                        assert(tick_values(kept_ticks@) =~= st2.kept);
                    }
                } else {
                    let trigger = match policy {
                        Policy::EachDay => true,
                        Policy::FirstDayOfMonth => {
                            if i == 0 {
                                true
                            } else {
                                ticker.ticks[i - 1].date.month != t.date.month
                            }
                        },
                        Policy::LastDayOfMonth => {
                            if i == n - 1 {
                                true
                            } else {
                                t.date.month != ticker.ticks[i + 1].date.month
                            }
                        },
                    };
                    proof {
                        assert(trigger == is_trigger(policy, s, i as int));
                    }
                    if trigger {
                        let sp = am.amount();
                        if t.price > sp {
                            // decline: too expensive today; the run goes on
                            proof {
                                let st2 = run_to(policy, s, fy, b, carry, i + 1);
                                assert(st2 == st);
                            }
                        } else {
                            let bought = sp / t.price;
                            proof {
                                lemma_purchase(sp as int, t.price as int);
                                assert((k + 1) * bp == k * bp + bp) by (nonlinear_arith);
                            }
                            am.left = sp - bought * t.price;
                            am.lots = am.lots + bought;
                            proof {
                                assert(am.lots * t.price <= ((k + 1) * bp) * mp) by (nonlinear_arith)
                                    requires
                                        0 <= am.lots as int <= (k + 1) * bp,
                                        1 <= t.price as int <= mp,
                                ;
                                assert(((k + 1) * bp) * mp <= n * bp * mp) by (nonlinear_arith)
                                    requires
                                        k + 1 <= n as int,
                                        0 <= bp,
                                        1 <= mp,
                                ;
                            }
                            let value = am.lots * t.price;
                            invested_ticks.push(Tick::new(t.date, value));
                            proof {
                                assert(b * (k + 1) <= n * bp * mp) by (nonlinear_arith)
                                    requires
                                        1 <= mp,
                                        0 <= b,
                                        b <= bp,
                                        0 <= k,
                                        k + 1 <= n as int,
                                ;
                            }
                            let kept_value = am.initial * (invested_ticks.len() as u64);
                            kept_ticks.push(Tick::new(t.date, kept_value));
                            proof {
                                let st2 = run_to(policy, s, fy, b, carry, i + 1);
                                assert(tick_values(invested_ticks@) =~= st2.invested);
                                assert(tick_values(kept_ticks@) =~= st2.kept);
                            }
                        }
                    }
                }
            }
            i = i + 1;
        }
        Ok(
            Invest {
                kept: Ticker::new(ticker.symbol.clone(), kept_ticks),
                invested: Ticker::new(ticker.symbol.clone(), invested_ticks),
            },
        )
    }

    /// Buy at every observation from `from_year` on.
    pub fn each_day(am: &mut Amount, from_year: i32, ticker: &Ticker) -> (r: Result<
        Invest,
        InvestError,
    >)
        requires
            old(am).left == 0,
            old(am).lots == 0,
            run_fits(ticker.ticks@, old(am).initial as int),
        ensures
            run_post(Policy::EachDay, *ticker, *old(am), *final(am), from_year as int, r),
    {
        Self::invest_on(ticker, am, from_year, Policy::EachDay)
    }

    /// Buy at the first observation of each month from `from_year` on.
    pub fn first_day_of_month(am: &mut Amount, from_year: i32, ticker: &Ticker) -> (r: Result<
        Invest,
        InvestError,
    >)
        requires
            old(am).left == 0,
            old(am).lots == 0,
            run_fits(ticker.ticks@, old(am).initial as int),
        ensures
            run_post(Policy::FirstDayOfMonth, *ticker, *old(am), *final(am), from_year as int, r),
    {
        Self::invest_on(ticker, am, from_year, Policy::FirstDayOfMonth)
    }

    /// Buy at the last observation of each month from `from_year` on,
    /// with a forced, uncapped purchase at the first qualifying
    /// observation (so that the run starts level with the first-of-month
    /// strategy).
    pub fn last_day_of_month(am: &mut Amount, from_year: i32, ticker: &Ticker) -> (r: Result<
        Invest,
        InvestError,
    >)
        requires
            old(am).left == 0,
            old(am).lots == 0,
            run_fits(ticker.ticks@, old(am).initial as int),
        ensures
            run_post(Policy::LastDayOfMonth, *ticker, *old(am), *final(am), from_year as int, r),
    {
        Self::invest_on(ticker, am, from_year, Policy::LastDayOfMonth)
    }
}

} // verus!
