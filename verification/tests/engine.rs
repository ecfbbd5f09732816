use investmodel::invest::{Amount, Invest, InvestError, Policy};
use investmodel::ticker::{Date, Symbol, Tick, Ticker};

fn series(obs: &[(i32, u8, u8, u64)]) -> Ticker {
    let ticks: Vec<Tick> = obs
        .iter()
        .map(|&(y, m, d, p)| Tick::new(Date::new(y, m, d), p))
        .collect();
    Ticker::new(Symbol::new(String::from("TEST")), ticks)
}

fn values(t: &Ticker) -> Vec<(i32, u8, u8, u64)> {
    t.ticks
        .iter()
        .map(|tk| {
            let d = tk.date();
            (d.year, d.month, d.day, tk.price())
        })
        .collect()
}

#[test]
fn first_of_month_two_purchases() {
    // prices in cents: 10.00, 10.00, 11.00; budget 100.00
    let tk = series(&[(2020, 1, 2, 1000), (2020, 1, 31, 1000), (2020, 2, 3, 1100)]);
    let mut am = Amount::new(10000);
    let out = Invest::first_day_of_month(&mut am, 2020, &tk).unwrap();
    // 2020-01-02 buys 10 lots (leftover 0); 2020-02-03 buys 9 lots (leftover 100)
    assert_eq!(
        values(&out.invested),
        vec![(2020, 1, 2, 10 * 1000), (2020, 2, 3, 19 * 1100)]
    );
    assert_eq!(
        values(&out.kept),
        vec![(2020, 1, 2, 10000), (2020, 2, 3, 20000)]
    );
    assert_eq!(am.lots, 19);
    assert_eq!(am.left, 100);
}

#[test]
fn each_day_unlimited_buys_every_day() {
    let tk = series(&[(2020, 1, 2, 30), (2020, 1, 3, 40), (2020, 1, 6, 50)]);
    let mut am = Amount::new(100);
    let out = Invest::each_day(&mut am, 2020, &tk).unwrap();
    assert_eq!(out.invested.ticks.len(), 3);
    assert_eq!(out.kept.ticks.len(), 3);
    // day 1: 3 lots, left 10; day 2: 110/40 = 2 lots, left 30; day 3: 130/50 = 2 lots, left 30
    assert_eq!(am.lots, 3 + 2 + 2);
    assert_eq!(am.left, 30);
    assert_eq!(
        values(&out.invested),
        vec![(2020, 1, 2, 3 * 30), (2020, 1, 3, 5 * 40), (2020, 1, 6, 7 * 50)]
    );
}

#[test]
fn each_day_skips_years_before_cutoff() {
    let tk = series(&[(2019, 6, 1, 10), (2020, 1, 2, 10), (2020, 1, 3, 10)]);
    let mut am = Amount::new(100);
    let out = Invest::each_day(&mut am, 2020, &tk).unwrap();
    assert_eq!(out.invested.ticks.len(), 2);
    assert_eq!(out.invested.ticks[0].date(), Date::new(2020, 1, 2));
}

#[test]
fn each_day_decline_keeps_leftover_unchanged() {
    let tk = series(&[(2020, 1, 2, 200), (2020, 1, 3, 30)]);
    let mut am = Amount::new(100);
    let out = Invest::each_day(&mut am, 2020, &tk).unwrap();
    // first day too expensive: skipped, no entry; second buys 3 lots
    assert_eq!(out.invested.ticks.len(), 1);
    assert_eq!(values(&out.invested), vec![(2020, 1, 3, 3 * 30)]);
    assert_eq!(am.lots, 3);
    assert_eq!(am.left, 10);
}

#[test]
fn carry_leftover_off_spends_only_the_budget() {
    let tk = series(&[(2020, 1, 2, 30), (2020, 1, 3, 30)]);
    let mut carrying = Amount::new(100);
    let out1 = Invest::each_day(&mut carrying, 2020, &tk).unwrap();
    assert_eq!(out1.invested.ticks.len(), 2);
    assert_eq!(carrying.lots, 3 + 3);
    assert_eq!(carrying.left, 20);  // 110 - 90
    let mut plain = Amount::new(100);
    plain.carry_leftover = false;
    let out2 = Invest::each_day(&mut plain, 2020, &tk).unwrap();
    assert_eq!(out2.invested.ticks.len(), 2);
    assert_eq!(plain.lots, 3 + 3);
    assert_eq!(plain.left, 10);  // 100 - 90, leftover tracked but not reused
}

#[test]
fn last_of_month_single_observation_forced_buy() {
    // price above the budget: the forced first purchase still happens,
    // uncapped, buying zero whole lots
    let tk = series(&[(2020, 3, 31, 50000)]);
    let mut am = Amount::new(100);
    let out = Invest::last_day_of_month(&mut am, 2020, &tk).unwrap();
    assert_eq!(out.invested.ticks.len(), 1);
    assert_eq!(out.kept.ticks.len(), 1);
    assert_eq!(values(&out.invested), vec![(2020, 3, 31, 0)]);
    assert_eq!(values(&out.kept), vec![(2020, 3, 31, 100)]);
    assert_eq!(am.lots, 0);
    assert_eq!(am.left, 0);
}

#[test]
fn last_of_month_forced_buy_leaves_leftover_untouched() {
    let tk = series(&[(2020, 3, 31, 30)]);
    let mut am = Amount::new(100);
    let out = Invest::last_day_of_month(&mut am, 2020, &tk).unwrap();
    assert_eq!(out.invested.ticks.len(), 1);
    assert_eq!(am.lots, 3);
    // the uncapped path does not write the remainder back
    assert_eq!(am.left, 0);
}

#[test]
fn first_and_last_of_month_purchase_counts_agree() {
    // the first qualifying month holds exactly one observation, so the
    // forced first purchase stands in for that month's closing one
    let tk = series(&[
        (2020, 1, 31, 10),
        (2020, 2, 3, 10),
        (2020, 2, 14, 10),
        (2020, 2, 28, 10),
        (2020, 3, 2, 10),
    ]);
    let mut am_first = Amount::new(100);
    let first = Invest::first_day_of_month(&mut am_first, 2020, &tk).unwrap();
    let mut am_last = Amount::new(100);
    let last = Invest::last_day_of_month(&mut am_last, 2020, &tk).unwrap();
    assert_eq!(first.invested.ticks.len(), 3);
    assert_eq!(last.invested.ticks.len(), 3);
}

#[test]
fn kept_series_is_budget_multiples() {
    let tk = series(&[(2020, 1, 2, 7), (2020, 2, 3, 9), (2020, 3, 4, 11)]);
    let mut am = Amount::new(100);
    let out = Invest::first_day_of_month(&mut am, 2020, &tk).unwrap();
    assert_eq!(out.kept.ticks.len(), out.invested.ticks.len());
    for (j, tick) in out.kept.ticks.iter().enumerate() {
        assert_eq!(tick.price(), 100 * (j as u64 + 1));
        assert_eq!(tick.date(), out.invested.ticks[j].date());
    }
}

#[test]
fn prefiltered_each_day_matches_first_of_month() {
    let tk = series(&[
        (2019, 11, 29, 25),
        (2020, 1, 2, 10),
        (2020, 1, 31, 12),
        (2020, 2, 3, 11),
        (2020, 2, 27, 14),
    ]);
    let mut am_direct = Amount::new(100);
    let direct = Invest::first_day_of_month(&mut am_direct, 2020, &tk).unwrap();
    let mut am_filtered = Amount::new(100);
    let filtered = Invest::each_day(&mut am_filtered, 2020, &tk.ticks_first_of_month()).unwrap();
    assert_eq!(values(&direct.invested), values(&filtered.invested));
    assert_eq!(values(&direct.kept), values(&filtered.kept));
    assert_eq!(am_direct.lots, am_filtered.lots);
    assert_eq!(am_direct.left, am_filtered.left);
}

#[test]
fn empty_series_is_an_error() {
    let tk = series(&[]);
    let mut am = Amount::new(100);
    assert_eq!(
        Invest::each_day(&mut am, 2020, &tk).unwrap_err(),
        InvestError::EmptySeries
    );
    assert_eq!(am, Amount::new(100));
}

#[test]
fn unsorted_series_is_an_error() {
    let tk = series(&[(2020, 2, 3, 10), (2020, 1, 2, 10)]);
    let mut am = Amount::new(100);
    assert_eq!(
        Invest::first_day_of_month(&mut am, 2020, &tk).unwrap_err(),
        InvestError::UnsortedSeries
    );
}

#[test]
fn duplicate_date_is_an_error() {
    let tk = series(&[(2020, 1, 2, 10), (2020, 1, 2, 11)]);
    let mut am = Amount::new(100);
    assert_eq!(
        Invest::each_day(&mut am, 2020, &tk).unwrap_err(),
        InvestError::UnsortedSeries
    );
}

#[test]
fn zero_price_is_an_error() {
    let tk = series(&[(2020, 1, 2, 10), (2020, 1, 3, 0)]);
    let mut am = Amount::new(100);
    assert_eq!(
        Invest::last_day_of_month(&mut am, 2020, &tk).unwrap_err(),
        InvestError::ZeroPrice
    );
}

#[test]
fn zero_budget_is_an_error() {
    let tk = series(&[(2020, 1, 2, 10)]);
    let mut am = Amount::new(0);
    assert_eq!(
        Invest::each_day(&mut am, 2020, &tk).unwrap_err(),
        InvestError::ZeroBudget
    );
}

#[test]
fn policy_names() {
    assert_eq!(Policy::from_name("each-day").unwrap(), Policy::EachDay);
    assert_eq!(
        Policy::from_name("first-of-month").unwrap(),
        Policy::FirstDayOfMonth
    );
    assert_eq!(
        Policy::from_name("last-of-month").unwrap(),
        Policy::LastDayOfMonth
    );
    assert_eq!(
        Policy::from_name("every-other-day").unwrap_err(),
        InvestError::UnknownPolicy
    );
}

#[test]
fn no_purchase_yields_empty_outputs() {
    // every observation before the starting year: a valid run with
    // nothing bought
    let tk = series(&[(2018, 5, 2, 10), (2019, 5, 2, 10)]);
    let mut am = Amount::new(100);
    let out = Invest::each_day(&mut am, 2020, &tk).unwrap();
    assert!(out.invested.ticks.is_empty());
    assert!(out.kept.ticks.is_empty());
    assert_eq!(am.lots, 0);
    assert_eq!(am.left, 0);
}
