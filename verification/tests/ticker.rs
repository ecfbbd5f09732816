use investmodel::ticker::{Date, Symbol, Tick, Ticker};

fn ticks(obs: &[(i32, u8, u8, u64)]) -> Vec<Tick> {
    obs.iter()
        .map(|&(y, m, d, p)| Tick::new(Date::new(y, m, d), p))
        .collect()
}

#[test]
fn tick_accessors() {
    let t = Tick::new(Date::new(2019, 6, 20), 120);
    assert_eq!(t.date(), Date::new(2019, 6, 20));
    assert_eq!(t.price(), 120);
    assert_eq!(t.tuple(), (Date::new(2019, 6, 20), 120));
}

#[test]
fn date_ordering() {
    let a = Date::new(2019, 12, 31);
    let b = Date::new(2020, 1, 1);
    let c = Date::new(2020, 1, 2);
    assert!(a.is_before(&b));
    assert!(b.is_before(&c));
    assert!(!c.is_before(&b));
    assert!(!b.is_before(&b));
}

#[test]
fn symbol_text_round_trip() {
    let s = Symbol::new(String::from("ACME"));
    assert_eq!(s.text(), "ACME");
    let s2 = s.clone();
    assert_eq!(s2.text(), "ACME");
}

#[test]
fn ticks_from_year_filters_and_keeps_order() {
    let tk = Ticker::new(
        Symbol::new(String::from("ACME")),
        ticks(&[
            (2018, 3, 1, 5),
            (2019, 7, 2, 6),
            (2020, 1, 2, 7),
            (2020, 5, 4, 8),
        ]),
    );
    let cut = tk.ticks_from_year(2019);
    assert_eq!(cut.symbol.text(), "ACME");
    let got: Vec<u64> = cut.ticks.iter().map(|t| t.price()).collect();
    assert_eq!(got, vec![6, 7, 8]);
}

#[test]
fn ticks_from_year_can_empty_the_series() {
    let tk = Ticker::new(Symbol::new(String::from("A")), ticks(&[(2018, 3, 1, 5)]));
    assert!(tk.ticks_from_year(2020).ticks.is_empty());
}

#[test]
fn boundary_prices_and_dates() {
    let tk = Ticker::new(
        Symbol::new(String::from("A")),
        ticks(&[(2020, 1, 2, 7), (2020, 2, 3, 9)]),
    );
    assert_eq!(tk.price_from(), 7);
    assert_eq!(tk.price_to(), 9);
    assert_eq!(tk.date_from(), Date::new(2020, 1, 2));
    assert_eq!(tk.date_to(), Date::new(2020, 2, 3));
}

#[test]
fn price_to_of_empty_series_is_zero() {
    let tk = Ticker::new(Symbol::new(String::from("A")), Vec::new());
    assert_eq!(tk.price_to(), 0);
}

#[test]
fn tick_from_naive_date() {
    let nd = chrono::NaiveDate::from_ymd_opt(2019, 6, 20).unwrap();
    let t = Tick::new_from_naive_date(nd, 120);
    assert_eq!(t.date(), Date::new(2019, 6, 20));
    assert_eq!(t.price(), 120);
}

#[test]
fn date_plus_days_crosses_a_month() {
    let t = Tick::new(Date::new(2020, 1, 15), 10);
    assert_eq!(t.date_plus_days(30), Some(Date::new(2020, 2, 14)));
}

#[test]
fn date_plus_days_knows_leap_years() {
    let t = Tick::new(Date::new(2020, 2, 28), 10);
    assert_eq!(t.date_plus_days(2), Some(Date::new(2020, 3, 1)));
    let t2 = Tick::new(Date::new(2021, 2, 28), 10);
    assert_eq!(t2.date_plus_days(2), Some(Date::new(2021, 3, 2)));
}

#[test]
fn date_plus_days_can_go_backwards() {
    let t = Tick::new(Date::new(2020, 3, 1), 10);
    assert_eq!(t.date_plus_days(-1), Some(Date::new(2020, 2, 29)));
}

#[test]
fn date_plus_days_rejects_a_date_the_calendar_lacks() {
    // February the 31st passes the field ranges but is no calendar date
    let t = Tick::new(Date { year: 2020, month: 2, day: 31 }, 10);
    assert_eq!(t.date_plus_days(1), None);
}
