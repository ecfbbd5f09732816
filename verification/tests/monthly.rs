use investmodel::ticker::monthly::MonthlyTicker;
use investmodel::ticker::{Date, Symbol, Tick, Ticker};

fn ticks(obs: &[(i32, u8, u8, u64)]) -> Vec<Tick> {
    obs.iter()
        .map(|&(y, m, d, p)| Tick::new(Date::new(y, m, d), p))
        .collect()
}

fn dates(v: &[Tick]) -> Vec<(i32, u8, u8)> {
    v.iter()
        .map(|t| {
            let d = t.date();
            (d.year, d.month, d.day)
        })
        .collect()
}

#[test]
fn middle_of_month_picks_index_two_of_four() {
    // a four-observation month: the middle is index 4 / 2 = 2, the
    // element just after the true midpoint, not an average
    let v = ticks(&[
        (2020, 4, 1, 10),
        (2020, 4, 8, 11),
        (2020, 4, 15, 12),
        (2020, 4, 22, 13),
    ]);
    let out = MonthlyTicker::new(&v).middle_of_month();
    assert_eq!(dates(&out), vec![(2020, 4, 15)]);
    assert_eq!(out[0].price(), 12);
}

#[test]
fn middle_of_month_odd_sized_month() {
    let v = ticks(&[(2020, 4, 1, 10), (2020, 4, 8, 11), (2020, 4, 15, 12)]);
    let out = MonthlyTicker::new(&v).middle_of_month();
    assert_eq!(dates(&out), vec![(2020, 4, 8)]);
}

#[test]
fn first_day_of_month_takes_each_months_first() {
    let v = ticks(&[
        (2019, 12, 30, 1),
        (2020, 1, 2, 2),
        (2020, 1, 15, 3),
        (2020, 2, 3, 4),
    ]);
    let out = MonthlyTicker::new(&v).first_day_of_month();
    assert_eq!(dates(&out), vec![(2019, 12, 30), (2020, 1, 2), (2020, 2, 3)]);
}

#[test]
fn last_day_of_month_takes_each_months_last() {
    let v = ticks(&[
        (2019, 12, 30, 1),
        (2020, 1, 2, 2),
        (2020, 1, 15, 3),
        (2020, 2, 3, 4),
    ]);
    let out = MonthlyTicker::new(&v).last_day_of_month();
    assert_eq!(dates(&out), vec![(2019, 12, 30), (2020, 1, 15), (2020, 2, 3)]);
}

#[test]
fn groups_come_out_in_year_month_order() {
    // out-of-date-order input still groups by month, ordered by
    // (year, month), keeping encounter order within each month
    let v = ticks(&[
        (2020, 2, 10, 1),
        (2019, 6, 1, 2),
        (2020, 2, 3, 3),
        (2020, 1, 9, 4),
    ]);
    let out = MonthlyTicker::new(&v).first_day_of_month();
    assert_eq!(dates(&out), vec![(2019, 6, 1), (2020, 1, 9), (2020, 2, 10)]);
    let out2 = MonthlyTicker::new(&v).last_day_of_month();
    assert_eq!(dates(&out2), vec![(2019, 6, 1), (2020, 1, 9), (2020, 2, 3)]);
}

#[test]
fn empty_series_yields_empty_output() {
    let v: Vec<Tick> = Vec::new();
    assert!(MonthlyTicker::new(&v).first_day_of_month().is_empty());
    let v2: Vec<Tick> = Vec::new();
    assert!(MonthlyTicker::new(&v2).middle_of_month().is_empty());
}

#[test]
fn building_twice_yields_identical_output() {
    // no hidden mutation of the input: build and select twice, byte for
    // byte the same answer
    let v = ticks(&[
        (2020, 1, 2, 10),
        (2020, 1, 31, 11),
        (2020, 2, 3, 12),
        (2020, 3, 30, 13),
    ]);
    let once = MonthlyTicker::new(&v).last_day_of_month();
    let twice = MonthlyTicker::new(&v).last_day_of_month();
    assert_eq!(once, twice);
    let mid_once = MonthlyTicker::new(&v).middle_of_month();
    let mid_twice = MonthlyTicker::new(&v).middle_of_month();
    assert_eq!(mid_once, mid_twice);
}

#[test]
fn ticker_monthly_views_keep_the_symbol() {
    let tk = Ticker::new(
        Symbol::new(String::from("ACME")),
        ticks(&[(2020, 1, 2, 10), (2020, 1, 3, 11), (2020, 2, 4, 12)]),
    );
    let first = tk.ticks_first_of_month();
    assert_eq!(first.symbol.text(), "ACME");
    assert_eq!(dates(&first.ticks), vec![(2020, 1, 2), (2020, 2, 4)]);
    let middle = tk.ticks_middle_of_month();
    assert_eq!(dates(&middle.ticks), vec![(2020, 1, 3), (2020, 2, 4)]);
    let last = tk.ticks_last_of_month();
    assert_eq!(dates(&last.ticks), vec![(2020, 1, 3), (2020, 2, 4)]);
}
