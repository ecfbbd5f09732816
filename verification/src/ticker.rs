use vstd::prelude::*;

pub mod monthly;

verus! {

/// A calendar date held as plain year, month and day numbers.
///
/// Only the fields that the simulation logic reads are kept; converting
/// from a calendar library's date type happens at the crate boundary.
#[derive(Clone, Copy, PartialEq, Eq, Structural, Debug)]
pub struct Date {
    pub year: i32,
    pub month: u8,
    pub day: u8,
}

impl Date {
    /// Month and day lie in their calendar ranges.
    pub open spec fn wf(self) -> bool {
        1 <= self.month <= 12 && 1 <= self.day <= 31
    }

    /// Strict calendar order: by year, then month, then day.
    pub open spec fn spec_lt(self, other: Date) -> bool {
        self.year < other.year
            || (self.year == other.year && self.month < other.month)
            || (self.year == other.year && self.month == other.month && self.day < other.day)
    }

    pub fn new(year: i32, month: u8, day: u8) -> (r: Date)
        requires
            1 <= month <= 12,
            1 <= day <= 31,
        ensures
            r == (Date { year, month, day }),
            r.wf(),
    {
        Date { year, month, day }
    }

    pub fn is_before(&self, other: &Date) -> (r: bool)
        ensures
            r == self.spec_lt(*other),
    {
        self.year < other.year
            || (self.year == other.year && self.month < other.month)
            || (self.year == other.year && self.month == other.month && self.day < other.day)
    }
}

/// A stock symbol.
#[derive(Debug)]
pub struct Symbol(String);

impl View for Symbol {
    type V = Seq<char>;

    closed spec fn view(&self) -> Seq<char> {
        self.0@
    }
}

impl Clone for Symbol {
    fn clone(&self) -> (r: Self)
        ensures
            r == *self,
    {
        Symbol(self.0.clone())
    }
}

impl Symbol {
    pub fn new(s: String) -> (r: Self)
        ensures
            r@ == s@,
    {
        Symbol(s)
    }

    /// The symbol's text, for display by callers.
    pub fn text(&self) -> (r: &String)
        ensures
            r@ == self@,
    {
        &self.0
    }
}

/// One daily observation: a date and the closing price on that date,
/// in minor currency units.
#[derive(Clone, Copy, PartialEq, Eq, Structural, Debug)]
pub struct Tick {
    pub date: Date,
    pub price: u64,
}

impl Tick {
    pub fn new(date: Date, price: u64) -> (r: Self)
        ensures
            r == (Tick { date, price }),
    {
        Tick { date, price }
    }

    pub fn tuple(&self) -> (r: (Date, u64))
        ensures
            r == (self.date, self.price),
    {
        (self.date, self.price)
    }

    pub fn date(&self) -> (r: Date)
        ensures
            r == self.date,
    {
        self.date
    }

    pub fn price(&self) -> (r: u64)
        ensures
            r == self.price,
    {
        self.price
    }
}

/// An ordered daily price series for one symbol.
#[derive(Debug)]
pub struct Ticker {
    pub symbol: Symbol,
    pub ticks: Vec<Tick>,
}

/// The subsequence of `s` whose dates fall in year `year` or later,
/// in their original order.
pub open spec fn from_year_seq(s: Seq<Tick>, year: int) -> Seq<Tick>
    decreases s.len(),
{
    if s.len() == 0 {
        Seq::empty()
    } else {
        let rest = from_year_seq(s.drop_last(), year);
        if s.last().date.year >= year {
            rest.push(s.last())
        } else {
            rest
        }
    }
}

impl Ticker {
    pub fn new(symbol: Symbol, ticks: Vec<Tick>) -> (r: Self)
        ensures
            r.symbol == symbol,
            r.ticks == ticks,
    {
        Self { symbol, ticks }
    }

    /// Keeps only the observations dated in `year` or later.
    pub fn ticks_from_year(&self, year: i32) -> (r: Self)
        ensures
            r.symbol == self.symbol,
            r.ticks@ == from_year_seq(self.ticks@, year as int),
    {
        let mut kept: Vec<Tick> = Vec::new();
        let mut i: usize = 0;
        while i < self.ticks.len()
            invariant
                i <= self.ticks@.len(),
                kept@ == from_year_seq(self.ticks@.take(i as int), year as int),
            decreases self.ticks@.len() - i,
        {
            proof {
                assert(self.ticks@.take(i + 1).drop_last() =~= self.ticks@.take(i as int));
                assert(self.ticks@.take(i + 1).last() == self.ticks@[i as int]);
            }
            let t = self.ticks[i];
            if t.date.year >= year {
                kept.push(t);
            }
            i = i + 1;
        }
        proof {
            assert(self.ticks@.take(self.ticks@.len() as int) =~= self.ticks@);
        }
        Self { symbol: self.symbol.clone(), ticks: kept }
    }

    /// The price of the earliest observation.
    pub fn price_from(&self) -> (r: u64)
        requires
            self.ticks@.len() > 0,
        ensures
            r == self.ticks@[0].price,
    {
        self.ticks[0].price()
    }

    /// The price of the latest observation, or 0 for an empty series.
    pub fn price_to(&self) -> (r: u64)
        ensures
            self.ticks@.len() == 0 ==> r == 0,
            self.ticks@.len() > 0 ==> r == self.ticks@.last().price,
    {
        if self.ticks.is_empty() {
            0
        } else {
            self.ticks[self.ticks.len() - 1].price()
        }
    }

    /// The date of the earliest observation.
    pub fn date_from(&self) -> (r: Date)
        requires
            self.ticks@.len() > 0,
        ensures
            r == self.ticks@[0].date,
    {
        self.ticks[0].date()
    }

    /// The date of the latest observation.
    pub fn date_to(&self) -> (r: Date)
        requires
            self.ticks@.len() > 0,
        ensures
            r == self.ticks@.last().date,
    {
        self.ticks[self.ticks.len() - 1].date()
    }

    /// One observation per calendar month: the first trading day of each.
    pub fn ticks_first_of_month(&self) -> (r: Self)
        ensures
            r.symbol == self.symbol,
            r.ticks@ == monthly::firsts_of(monthly::build_groups(self.ticks@)),
    {
        Self {
            symbol: self.symbol.clone(),
            ticks: monthly::MonthlyTicker::new(&self.ticks).first_day_of_month(),
        }
    }

    /// One observation per calendar month: the middle trading day of each.
    pub fn ticks_middle_of_month(&self) -> (r: Self)
        ensures
            r.symbol == self.symbol,
            r.ticks@ == monthly::middles_of(monthly::build_groups(self.ticks@)),
    {
        Self {
            symbol: self.symbol.clone(),
            ticks: monthly::MonthlyTicker::new(&self.ticks).middle_of_month(),
        }
    }

    /// One observation per calendar month: the last trading day of each.
    pub fn ticks_last_of_month(&self) -> (r: Self)
        ensures
            r.symbol == self.symbol,
            r.ticks@ == monthly::lasts_of(monthly::build_groups(self.ticks@)),
    {
        Self {
            symbol: self.symbol.clone(),
            ticks: monthly::MonthlyTicker::new(&self.ticks).last_day_of_month(),
        }
    }
}

#[verifier::external_type_specification]
#[verifier::external_body]
pub struct ExNaiveDate(chrono::NaiveDate);

/// Relies on chrono's `Datelike::year` for `NaiveDate`: the calendar year
/// of the date.
#[verifier::external_body]
fn naive_date_year(d: &chrono::NaiveDate) -> i32 {
    chrono::Datelike::year(d)
}

/// Relies on chrono's `Datelike::month` for `NaiveDate`: documented to
/// return the month number, from 1 through 12.
#[verifier::external_body]
fn naive_date_month(d: &chrono::NaiveDate) -> (r: u8)
    ensures
        1 <= r <= 12,
{
    chrono::Datelike::month(d) as u8
}

/// Relies on chrono's `Datelike::day` for `NaiveDate`: documented to
/// return the day number, from 1 through 31.
#[verifier::external_body]
fn naive_date_day(d: &chrono::NaiveDate) -> (r: u8)
    ensures
        1 <= r <= 31,
{
    chrono::Datelike::day(d) as u8
}

/// The calendar date `days` days after `date`, as the calendar library
/// computes it; `None` when `date` or the shifted date is out of the
/// library's range.
pub uninterp spec fn date_after_days(date: Date, days: int) -> Option<Date>;

/// Relies on chrono's `NaiveDate::checked_add_signed` together with
/// `NaiveDate::from_ymd_opt` and `TimeDelta::try_days`: the shifted date
/// depends on the starting date and the day count alone, and every `None`
/// they return is passed through.
#[verifier::external_body]
fn shift_date(date: &Date, days: i64) -> (r: Option<Date>)
    ensures
        r == date_after_days(*date, days as int),
        r matches Some(d2) ==> d2.wf(),
{
    let nd = chrono::NaiveDate::from_ymd_opt(date.year, date.month as u32, date.day as u32)?;
    let delta = chrono::TimeDelta::try_days(days)?;
    let shifted = nd.checked_add_signed(delta)?;
    Some(Date {
        year: chrono::Datelike::year(&shifted),
        month: chrono::Datelike::month(&shifted) as u8,
        day: chrono::Datelike::day(&shifted) as u8,
    })
}

impl Tick {
    /// An observation taken from a calendar-library date.
    pub fn new_from_naive_date(date: chrono::NaiveDate, price: u64) -> (r: Self)
        ensures
            r.price == price,
            r.date.wf(),
    {
        let y = naive_date_year(&date);
        let m = naive_date_month(&date);
        let d = naive_date_day(&date);
        Tick { date: Date { year: y, month: m, day: d }, price }
    }

    /// The date `days` days after this observation's date, or `None`
    /// when the calendar library cannot represent it.
    pub fn date_plus_days(&self, days: i64) -> (r: Option<Date>)
        ensures
            r == date_after_days(self.date, days as int),
            r matches Some(d2) ==> d2.wf(),
    {
        shift_date(&self.date, days)
    }
}

} // verus!
