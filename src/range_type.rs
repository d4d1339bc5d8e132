//! Calendar periods: a year, a quarter, a month or a day of a year.
use vstd::prelude::*;

use vstd::string::{StrSliceExecFns, StringExecFns};

use crate::calendar::days_in_year;
use crate::error::PeriodError;
use crate::numeral::{
    decimal, lemma_decimal, lemma_padded4, padded4, parse_u32, push_decimal, push_padded4, u32_of,
};

verus! {

/// A period of the calendar, identified by its year and its index within
/// that year.
#[derive(Clone, Copy, Debug, PartialEq, Eq, Structural, PartialOrd, Ord, Hash)]
pub enum DatePeriod {
    /// A whole year.
    Year(u32),
    /// A quarter (1 to 4) of a year.
    Quarter(u32, u32),
    /// A month (1 to 12) of a year.
    Month(u32, u32),
    /// A day of a year, counted from 1 (up to 365, or 366 in a leap year).
    Daily(u32, u32),
}

impl DatePeriod {
    /// The index lies within the bounds of its granularity in its year.
    pub open spec fn wf(self) -> bool {
        match self {
            DatePeriod::Year(_) => true,
            DatePeriod::Quarter(_, q) => 1 <= q <= 4,
            DatePeriod::Month(_, m) => 1 <= m <= 12,
            DatePeriod::Daily(y, d) => 1 <= d <= days_in_year(y as int),
        }
    }

    /// The year the period belongs to.
    pub open spec fn year_of(self) -> u32 {
        match self {
            DatePeriod::Year(y) => y,
            DatePeriod::Quarter(y, _) => y,
            DatePeriod::Month(y, _) => y,
            DatePeriod::Daily(y, _) => y,
        }
    }

    /// The year for a `Year`, the index within the year otherwise.
    pub open spec fn value_of(self) -> u32 {
        match self {
            DatePeriod::Year(y) => y,
            DatePeriod::Quarter(_, q) => q,
            DatePeriod::Month(_, m) => m,
            DatePeriod::Daily(_, d) => d,
        }
    }

    /// The letter that marks the granularity in the text form.
    pub open spec fn tag(self) -> char {
        match self {
            DatePeriod::Year(_) => 'Y',
            DatePeriod::Quarter(_, _) => 'Q',
            DatePeriod::Month(_, _) => 'M',
            DatePeriod::Daily(_, _) => 'D',
        }
    }

    /// The next period of the same granularity lies in the following year.
    pub open spec fn rolls_over(self) -> bool {
        match self {
            DatePeriod::Year(_) => true,
            DatePeriod::Quarter(_, q) => q >= 4,
            DatePeriod::Month(_, m) => m >= 12,
            DatePeriod::Daily(y, d) => d >= days_in_year(y as int),
        }
    }

    /// The previous period of the same granularity lies in the preceding year.
    pub open spec fn rolls_back(self) -> bool {
        match self {
            DatePeriod::Year(_) => true,
            DatePeriod::Quarter(_, q) => q <= 1,
            DatePeriod::Month(_, m) => m <= 1,
            DatePeriod::Daily(_, d) => d <= 1,
        }
    }

    /// The next period can be held: its year fits in a `u32`.
    pub open spec fn has_successor(self) -> bool {
        !self.rolls_over() || self.year_of() < u32::MAX
    }

    /// The previous period exists: it does not lie before year 0.
    pub open spec fn has_predecessor(self) -> bool {
        !self.rolls_back() || self.year_of() > 0
    }

    /// The period that follows `self`, of the same granularity.
    pub open spec fn next(self) -> DatePeriod {
        match self {
            DatePeriod::Year(y) => DatePeriod::Year((y + 1) as u32),
            DatePeriod::Quarter(y, q) => if q < 4 {
                DatePeriod::Quarter(y, (q + 1) as u32)
            } else {
                DatePeriod::Quarter((y + 1) as u32, 1)
            },
            DatePeriod::Month(y, m) => if m < 12 {
                DatePeriod::Month(y, (m + 1) as u32)
            } else {
                DatePeriod::Month((y + 1) as u32, 1)
            },
            DatePeriod::Daily(y, d) => if d < days_in_year(y as int) {
                DatePeriod::Daily(y, (d + 1) as u32)
            } else {
                DatePeriod::Daily((y + 1) as u32, 1)
            },
        }
    }

    /// The period that precedes `self`, of the same granularity.
    pub open spec fn prev(self) -> DatePeriod {
        match self {
            DatePeriod::Year(y) => DatePeriod::Year((y - 1) as u32),
            DatePeriod::Quarter(y, q) => if q > 1 {
                DatePeriod::Quarter(y, (q - 1) as u32)
            } else {
                DatePeriod::Quarter((y - 1) as u32, 4)
            },
            DatePeriod::Month(y, m) => if m > 1 {
                DatePeriod::Month(y, (m - 1) as u32)
            } else {
                DatePeriod::Month((y - 1) as u32, 12)
            },
            DatePeriod::Daily(y, d) => if d > 1 {
                DatePeriod::Daily(y, (d - 1) as u32)
            } else {
                DatePeriod::Daily((y - 1) as u32, days_in_year(y - 1) as u32)
            },
        }
    }
}

impl DatePeriod {
    /// The canonical text: the year in decimal padded with zeros to four
    /// digits, the tag, and but for a year the index without leading zeros.
    pub open spec fn text(self) -> Seq<char> {
        let head = padded4(self.year_of() as nat) + seq![self.tag()];
        match self {
            DatePeriod::Year(_) => head,
            _ => head + decimal(self.value_of() as nat),
        }
    }
}

/// What `DatePeriod::parse` returns for the text `s`: a four-character year,
/// a tag, and for a quarter, month or day its index.
pub open spec fn parse_result(s: Seq<char>) -> Result<DatePeriod, PeriodError> {
    if s.len() < 5 {
        Err(PeriodError::InvalidFormat)
    } else {
        match u32_of(s.subrange(0, 4)) {
            None => Err(PeriodError::InvalidFormat),
            Some(year) => {
                let tag = s[4];
                let rest = s.subrange(5, s.len() as int);
                if tag == 'Y' {
                    if s.len() == 5 {
                        Ok(DatePeriod::Year(year))
                    } else {
                        Err(PeriodError::InvalidFormat)
                    }
                } else if tag == 'Q' || tag == 'M' || tag == 'D' {
                    if rest.len() == 0 {
                        Err(PeriodError::MissingIndex)
                    } else {
                        match u32_of(rest) {
                            None => Err(PeriodError::InvalidFormat),
                            Some(index) => if tag == 'Q' {
                                quarter_result(year, index)
                            } else if tag == 'M' {
                                month_result(year, index)
                            } else {
                                daily_result(year, index)
                            },
                        }
                    }
                } else {
                    Err(PeriodError::InvalidFormat)
                }
            },
        }
    }
}

/// What `DatePeriod::quarter` returns.
pub open spec fn quarter_result(year: u32, quarter: u32) -> Result<DatePeriod, PeriodError> {
    if 1 <= quarter <= 4 {
        Ok(DatePeriod::Quarter(year, quarter))
    } else {
        Err(PeriodError::OutOfRange)
    }
}

/// What `DatePeriod::month` returns.
pub open spec fn month_result(year: u32, month: u32) -> Result<DatePeriod, PeriodError> {
    if 1 <= month <= 12 {
        Ok(DatePeriod::Month(year, month))
    } else {
        Err(PeriodError::OutOfRange)
    }
}

/// What `DatePeriod::daily` returns.
pub open spec fn daily_result(year: u32, day: u32) -> Result<DatePeriod, PeriodError> {
    if 1 <= day <= days_in_year(year as int) {
        Ok(DatePeriod::Daily(year, day))
    } else {
        Err(PeriodError::OutOfRange)
    }
}

/// Number of days in `year`: 366 in a leap year, 365 otherwise.
fn max_days(year: u32) -> (r: u32)
    ensures
        r == days_in_year(year as int),
{
    if (year % 4 == 0 && year % 100 != 0) || year % 400 == 0 {
        366
    } else {
        365
    }
}

impl DatePeriod {
    /// The year `year`.
    pub fn year(year: u32) -> (r: DatePeriod)
        ensures
            r == DatePeriod::Year(year),
    {
        DatePeriod::Year(year)
    }

    /// Quarter `quarter` of `year`; fails with `OutOfRange` unless the
    /// quarter lies in 1 to 4.
    pub fn quarter(year: u32, quarter: u32) -> (r: Result<DatePeriod, PeriodError>)
        ensures
            r == quarter_result(year, quarter),
    {
        if quarter < 1 || quarter > 4 {
            return Err(PeriodError::OutOfRange);
        }
        Ok(DatePeriod::Quarter(year, quarter))
    }

    /// Month `month` of `year`; fails with `OutOfRange` unless the month lies
    /// in 1 to 12.
    pub fn month(year: u32, month: u32) -> (r: Result<DatePeriod, PeriodError>)
        ensures
            r == month_result(year, month),
    {
        if month < 1 || month > 12 {
            return Err(PeriodError::OutOfRange);
        }
        Ok(DatePeriod::Month(year, month))
    }

    /// Day `day` of `year`; fails with `OutOfRange` unless the day lies in 1
    /// to the number of days of the year.
    pub fn daily(year: u32, day: u32) -> (r: Result<DatePeriod, PeriodError>)
        ensures
            r == daily_result(year, day),
    {
        if day == 0 {
            return Err(PeriodError::OutOfRange);
        }
        let max = max_days(year);
        if day > max {
            return Err(PeriodError::OutOfRange);
        }
        Ok(DatePeriod::Daily(year, day))
    }

    /// Reads a period from its text form `YYYYT[n]`: a four-character year,
    /// then `Y`, or one of `Q`, `M` and `D` followed by the index, which may
    /// carry leading zeros.
    pub fn parse(s: &str) -> (r: Result<DatePeriod, PeriodError>)
        ensures
            r == parse_result(s@),
    {
        let len = s.unicode_len();
        if len < 5 {
            return Err(PeriodError::InvalidFormat);
        }
        let year = match parse_u32(s, 0, 4) {
            Some(year) => year,
            None => return Err(PeriodError::InvalidFormat),
        };
        let tag = s.get_char(4);
        if tag == 'Y' {
            if len != 5 {
                return Err(PeriodError::InvalidFormat);
            }
            return Ok(DatePeriod::year(year));
        }
        if tag != 'Q' && tag != 'M' && tag != 'D' {
            return Err(PeriodError::InvalidFormat);
        }
        if len == 5 {
            return Err(PeriodError::MissingIndex);
        }
        let index = match parse_u32(s, 5, len) {
            Some(index) => index,
            None => return Err(PeriodError::InvalidFormat),
        };
        if tag == 'Q' {
            DatePeriod::quarter(year, index)
        } else if tag == 'M' {
            DatePeriod::month(year, index)
        } else {
            DatePeriod::daily(year, index)
        }
    }

    /// The canonical text of the period, such as `2024Y`, `2024Q2`, `2024M5`
    /// or `2024D136`.
    pub fn to_string(&self) -> (r: String)
        ensures
            r@ == self.text(),
    {
        let mut out = String::new();
        push_padded4(&mut out, self.get_year());
        out.append(self.short_name());
        match self {
            DatePeriod::Year(_) => {},
            _ => push_decimal(&mut out, self.value()),
        }
        assert(out@ =~= self.text());
        out
    }

    /// The year the period belongs to.
    pub fn get_year(&self) -> (r: u32)
        ensures
            r == self.year_of(),
    {
        match self {
            DatePeriod::Year(year) => *year,
            DatePeriod::Quarter(year, _) => *year,
            DatePeriod::Month(year, _) => *year,
            DatePeriod::Daily(year, _) => *year,
        }
    }

    /// The quarter, month or day number; the year itself for a `Year`.
    pub fn value(&self) -> (r: u32)
        ensures
            r == self.value_of(),
    {
        match self {
            DatePeriod::Year(year) => *year,
            DatePeriod::Quarter(_, quarter) => *quarter,
            DatePeriod::Month(_, month) => *month,
            DatePeriod::Daily(_, day) => *day,
        }
    }

    /// The one-letter tag of the granularity: `Y`, `Q`, `M` or `D`.
    pub fn short_name(&self) -> (r: &'static str)
        ensures
            r@ == seq![self.tag()],
    {
        proof {
            reveal_strlit("Y");
            reveal_strlit("Q");
            reveal_strlit("M");
            reveal_strlit("D");
        }
        match self {
            DatePeriod::Year(_) => "Y",
            DatePeriod::Quarter(_, _) => "Q",
            DatePeriod::Month(_, _) => "M",
            DatePeriod::Daily(_, _) => "D",
        }
    }

    /// The name of the granularity: `YEAR`, `QUARTER`, `MONTH` or `DAILY`.
    pub fn period_name(&self) -> (r: &'static str)
        ensures
            r@ == match self {
                DatePeriod::Year(_) => "YEAR"@,
                DatePeriod::Quarter(_, _) => "QUARTER"@,
                DatePeriod::Month(_, _) => "MONTH"@,
                DatePeriod::Daily(_, _) => "DAILY"@,
            },
    {
        match self {
            DatePeriod::Year(_) => "YEAR",
            DatePeriod::Quarter(_, _) => "QUARTER",
            DatePeriod::Month(_, _) => "MONTH",
            DatePeriod::Daily(_, _) => "DAILY",
        }
    }

    /// The next period of the same granularity; fails with `NoSuccessor`
    /// only where its year would not fit in a `u32`.
    pub fn succ(&self) -> (r: Result<DatePeriod, PeriodError>)
        ensures
            self.has_successor() ==> r == Ok::<DatePeriod, PeriodError>(self.next()),
            !self.has_successor() ==> r == Err::<DatePeriod, PeriodError>(PeriodError::NoSuccessor),
    {
        match self {
            DatePeriod::Year(year) => {
                if *year == u32::MAX {
                    return Err(PeriodError::NoSuccessor);
                }
                Ok(DatePeriod::Year(year + 1))
            },
            DatePeriod::Quarter(year, quarter) => {
                if *quarter < 4 {
                    Ok(DatePeriod::Quarter(*year, quarter + 1))
                } else if *year == u32::MAX {
                    Err(PeriodError::NoSuccessor)
                } else {
                    Ok(DatePeriod::Quarter(year + 1, 1))
                }
            },
            DatePeriod::Month(year, month) => {
                if *month < 12 {
                    Ok(DatePeriod::Month(*year, month + 1))
                } else if *year == u32::MAX {
                    Err(PeriodError::NoSuccessor)
                } else {
                    Ok(DatePeriod::Month(year + 1, 1))
                }
            },
            DatePeriod::Daily(year, day) => {
                let max = max_days(*year);
                if *day < max {
                    Ok(DatePeriod::Daily(*year, day + 1))
                } else if *year == u32::MAX {
                    Err(PeriodError::NoSuccessor)
                } else {
                    Ok(DatePeriod::Daily(year + 1, 1))
                }
            },
        }
    }

    /// The previous period of the same granularity; fails with
    /// `NoPredecessor` where it would lie before year 0.
    pub fn pred(&self) -> (r: Result<DatePeriod, PeriodError>)
        ensures
            self.has_predecessor() ==> r == Ok::<DatePeriod, PeriodError>(self.prev()),
            !self.has_predecessor() ==> r == Err::<DatePeriod, PeriodError>(
                PeriodError::NoPredecessor,
            ),
    {
        match self {
            DatePeriod::Year(year) => {
                if *year > 0 {
                    Ok(DatePeriod::Year(year - 1))
                } else {
                    Err(PeriodError::NoPredecessor)
                }
            },
            DatePeriod::Quarter(year, quarter) => {
                if *quarter > 1 {
                    Ok(DatePeriod::Quarter(*year, quarter - 1))
                } else if *year > 0 {
                    Ok(DatePeriod::Quarter(year - 1, 4))
                } else {
                    Err(PeriodError::NoPredecessor)
                }
            },
            DatePeriod::Month(year, month) => {
                if *month > 1 {
                    Ok(DatePeriod::Month(*year, month - 1))
                } else if *year > 0 {
                    Ok(DatePeriod::Month(year - 1, 12))
                } else {
                    Err(PeriodError::NoPredecessor)
                }
            },
            DatePeriod::Daily(year, day) => {
                if *day > 1 {
                    Ok(DatePeriod::Daily(*year, day - 1))
                } else if *year > 0 {
                    let prev_year = year - 1;
                    Ok(DatePeriod::Daily(prev_year, max_days(prev_year)))
                } else {
                    Err(PeriodError::NoPredecessor)
                }
            },
        }
    }
}

/// Stepping forward and back are inverse: for a valid period, the period
/// after it (where it can be held) has it as predecessor, and the period
/// before it (where it exists) has it as successor. Both stay valid.
pub proof fn lemma_succ_pred_inverse(p: DatePeriod)
    requires
        p.wf(),
    ensures
        p.has_successor() ==> p.next().wf() && p.next().has_predecessor() && p.next().prev() == p,
        p.has_predecessor() ==> p.prev().wf() && p.prev().has_successor() && p.prev().next() == p,
{
}

impl std::str::FromStr for DatePeriod {
    type Err = PeriodError;

    fn from_str(s: &str) -> Result<DatePeriod, PeriodError> {
        DatePeriod::parse(s)
    }
}

/// Reading the canonical text of a valid period gives the period back, for
/// every year that the four-digit year field can hold.
pub proof fn lemma_parse_text_round_trip(p: DatePeriod)
    requires
        p.wf(),
        p.year_of() <= 9999,
    ensures
        parse_result(p.text()) == Ok::<DatePeriod, PeriodError>(p),
{
    let year = p.year_of();
    let s = p.text();
    lemma_padded4(year as nat);
    let head = padded4(year as nat);
    assert(s.subrange(0, 4) =~= head);
    assert(s[4] == p.tag());
    assert(head[0] != '+');
    assert(u32_of(head) == Some(year));
    match p {
        DatePeriod::Year(_) => {},
        _ => {
            let index = p.value_of();
            lemma_decimal(index as nat);
            let rest = s.subrange(5, s.len() as int);
            assert(rest =~= decimal(index as nat));
            assert(rest[0] != '+');
            assert(u32_of(rest) == Some(index));
        },
    }
}

} // verus!
