//! Where periods meet calendar dates: the period of a date, the first and
//! last day of a period, containment, the periods between two dates, and
//! the step to sub-periods and to the parent period.
use vstd::prelude::*;

use crate::calendar::{
    days_in_month, lemma_ordinal_determines_date, month_of_day, ymd_of_ordinal, CalendarDate, Ymd, MAX_DATE_YEAR,
};
use crate::error::PeriodError;
use crate::range_type::DatePeriod;

verus! {

/// The quarter (1 to 4) that month `month` (1 to 12) belongs to.
pub open spec fn quarter_of_month(month: int) -> int {
    (month - 1) / 3 + 1
}

/// The quarter that the day `d` falls in.
pub open spec fn quarter_of_date(d: Ymd) -> DatePeriod {
    DatePeriod::Quarter(d.year as u32, quarter_of_month(d.month) as u32)
}

/// The month that the day `d` falls in.
pub open spec fn month_of_date(d: Ymd) -> DatePeriod {
    DatePeriod::Month(d.year as u32, d.month as u32)
}

/// The day of the year that `d` is.
pub open spec fn daily_of_date(d: Ymd) -> DatePeriod {
    DatePeriod::Daily(d.year as u32, d.day_of_year() as u32)
}

impl DatePeriod {
    /// The first day of the period.
    pub open spec fn first_day(self) -> Ymd {
        match self {
            DatePeriod::Year(y) => Ymd { year: y as int, month: 1, day: 1 },
            DatePeriod::Quarter(y, q) => Ymd { year: y as int, month: 3 * (q - 1) + 1, day: 1 },
            DatePeriod::Month(y, m) => Ymd { year: y as int, month: m as int, day: 1 },
            DatePeriod::Daily(y, d) => ymd_of_ordinal(y as int, d as int),
        }
    }

    /// The last day of the period.
    pub open spec fn last_day(self) -> Ymd {
        match self {
            DatePeriod::Year(y) => Ymd { year: y as int, month: 12, day: 31 },
            DatePeriod::Quarter(y, q) => Ymd {
                year: y as int,
                month: 3 * q as int,
                day: days_in_month(y as int, 3 * q as int),
            },
            DatePeriod::Month(y, m) => Ymd {
                year: y as int,
                month: m as int,
                day: days_in_month(y as int, m as int),
            },
            DatePeriod::Daily(y, d) => ymd_of_ordinal(y as int, d as int),
        }
    }

    /// The period's year lies within the years that `CalendarDate` covers,
    /// so its first and last days are dates.
    pub open spec fn within_calendar(self) -> bool {
        self.year_of() <= MAX_DATE_YEAR
    }

    /// `d` lies between the first and the last day of the period, which is
    /// within the calendar.
    pub open spec fn spans(self, d: Ymd) -> bool {
        self.within_calendar() && !d.before(self.first_day()) && !self.last_day().before(d)
    }

    /// The direct sub-periods: the quarters of a year, the months of a
    /// quarter, and for a month the days numbered 1 to its length; a day has
    /// none.
    pub open spec fn children(self) -> Seq<DatePeriod> {
        match self {
            DatePeriod::Year(y) => Seq::new(4, |i: int| DatePeriod::Quarter(y, (i + 1) as u32)),
            DatePeriod::Quarter(y, q) => Seq::new(
                3,
                |i: int| DatePeriod::Month(y, (3 * (q - 1) + i + 1) as u32),
            ),
            DatePeriod::Month(y, m) => Seq::new(
                days_in_month(y as int, m as int) as nat,
                |i: int| DatePeriod::Daily(y, (i + 1) as u32),
            ),
            DatePeriod::Daily(_, _) => Seq::empty(),
        }
    }

    /// The direct parent period; a year is its own parent.
    pub open spec fn parent(self) -> DatePeriod {
        match self {
            DatePeriod::Year(_) => self,
            DatePeriod::Quarter(y, _) => DatePeriod::Year(y),
            DatePeriod::Month(y, m) => DatePeriod::Quarter(y, quarter_of_month(m as int) as u32),
            DatePeriod::Daily(y, d) => DatePeriod::Month(y, month_of_day(y as int, d as int) as u32),
        }
    }

    /// `self` comes no later than `other`, comparing the year and then the
    /// index.
    pub open spec fn not_after(self, other: DatePeriod) -> bool {
        self.year_of() < other.year_of() || (self.year_of() == other.year_of()
            && self.value_of() <= other.value_of())
    }
}

/// `s` runs from `first` to `last`, each period followed by the next one,
/// which exists.
pub open spec fn is_succession(s: Seq<DatePeriod>, first: DatePeriod, last: DatePeriod) -> bool {
    &&& s.len() > 0
    &&& s[0] == first
    &&& s.last() == last
    &&& forall|i: int|
        0 <= i < s.len() - 1 ==> s[i].has_successor() && s[i + 1] == #[trigger] s[i].next()
}

/// `a` comes strictly before `b`, comparing the year and then the index.
pub open spec fn strictly_before(a: DatePeriod, b: DatePeriod) -> bool {
    a.year_of() < b.year_of() || (a.year_of() == b.year_of() && a.value_of() < b.value_of())
}

/// Along a succession the periods strictly increase.
proof fn lemma_succession_increases(
    s: Seq<DatePeriod>,
    first: DatePeriod,
    last: DatePeriod,
    i: int,
    j: int,
)
    requires
        is_succession(s, first, last),
        0 <= i < j < s.len(),
    ensures
        strictly_before(s[i], s[j]),
    decreases j - i,
{
    assert(s[j - 1].has_successor() && s[j] == s[j - 1].next());
    if i < j - 1 {
        lemma_succession_increases(s, first, last, i, j - 1);
    }
}

/// Two successions from `first` to `last` agree at each position both have.
proof fn lemma_succession_prefix_agrees(
    s1: Seq<DatePeriod>,
    s2: Seq<DatePeriod>,
    first: DatePeriod,
    last: DatePeriod,
    k: int,
)
    requires
        is_succession(s1, first, last),
        is_succession(s2, first, last),
        0 <= k < s1.len(),
        k < s2.len(),
    ensures
        s1[k] == s2[k],
    decreases k,
{
    if k > 0 {
        lemma_succession_prefix_agrees(s1, s2, first, last, k - 1);
        assert(s1[k] == s1[k - 1].next());
        assert(s2[k] == s2[k - 1].next());
    }
}

/// A succession from `first` to `last` is unique, so the contracts that
/// speak of one determine the sequence.
pub proof fn lemma_succession_unique(
    s1: Seq<DatePeriod>,
    s2: Seq<DatePeriod>,
    first: DatePeriod,
    last: DatePeriod,
)
    requires
        is_succession(s1, first, last),
        is_succession(s2, first, last),
    ensures
        s1 == s2,
{
    let n = if s1.len() <= s2.len() {
        s1.len()
    } else {
        s2.len()
    };
    assert forall|k: int| 0 <= k < n implies s1[k] == s2[k] by {
        lemma_succession_prefix_agrees(s1, s2, first, last, k);
    }
    if s1.len() < s2.len() {
        assert(s2[s1.len() - 1] == last);
        lemma_succession_increases(s2, first, last, s1.len() - 1, s2.len() - 1);
    } else if s2.len() < s1.len() {
        assert(s1[s2.len() - 1] == last);
        lemma_succession_increases(s1, first, last, s2.len() - 1, s1.len() - 1);
    }
    assert(s1 =~= s2);
}

/// What `between_date_as_year` returns: the years from that of `start` to
/// that of `end`, none where `end` comes before `start`.
pub open spec fn years_between(start: Ymd, end: Ymd) -> Seq<DatePeriod> {
    if end.before(start) {
        Seq::empty()
    } else {
        Seq::new(
            (end.year - start.year + 1) as nat,
            |i: int| DatePeriod::Year((start.year + i) as u32),
        )
    }
}

/// Between two valid periods of one granularity, with the first no later
/// than the second, no period lies strictly between a period and the next.
proof fn lemma_next_is_adjacent(p: DatePeriod, q: DatePeriod)
    requires
        p.wf(),
        q.wf(),
        p.tag() == q.tag(),
        p.has_successor(),
        p.not_after(q),
    ensures
        p.next().wf(),
        p.next().tag() == p.tag(),
        p.next().year_of() <= p.year_of() + 1,
        !p.next().not_after(p),
        p != q ==> p.next().not_after(q),
{
}

impl DatePeriod {
    /// The year that `date` falls in.
    pub fn from_date_as_year(date: CalendarDate) -> (r: DatePeriod)
        ensures
            r == DatePeriod::Year(date@.year as u32),
            r.wf(),
    {
        DatePeriod::Year(date.year())
    }

    /// The quarter that `date` falls in.
    pub fn from_date_as_quarter(date: CalendarDate) -> (r: DatePeriod)
        ensures
            r == quarter_of_date(date@),
            r.wf(),
    {
        let year = date.year();
        let month = date.month();
        let quarter = if month <= 3 {
            1
        } else if month <= 6 {
            2
        } else if month <= 9 {
            3
        } else {
            4
        };
        DatePeriod::Quarter(year, quarter)
    }

    /// The month that `date` falls in.
    pub fn from_date_as_month(date: CalendarDate) -> (r: DatePeriod)
        ensures
            r == month_of_date(date@),
            r.wf(),
    {
        DatePeriod::Month(date.year(), date.month())
    }

    /// The day of the year that `date` is.
    pub fn from_date_as_daily(date: CalendarDate) -> (r: DatePeriod)
        ensures
            r == daily_of_date(date@),
            r.wf(),
    {
        let year = date.year();
        DatePeriod::Daily(year, date.ordinal())
    }

    /// The first day of the period; fails with `CalendarOverflow` where its
    /// year lies after `MAX_DATE_YEAR`.
    pub fn get_first_day(&self) -> (r: Result<CalendarDate, PeriodError>)
        requires
            self.wf(),
        ensures
            self.within_calendar() ==> (r matches Ok(d) && d@ == self.first_day()),
            !self.within_calendar() ==> r == Err::<CalendarDate, PeriodError>(
                PeriodError::CalendarOverflow,
            ),
    {
        let date = match self {
            DatePeriod::Year(year) => CalendarDate::from_ymd_opt(*year, 1, 1),
            DatePeriod::Quarter(year, quarter) => CalendarDate::from_ymd_opt(
                *year,
                (quarter - 1) * 3 + 1,
                1,
            ),
            DatePeriod::Month(year, month) => CalendarDate::from_ymd_opt(*year, *month, 1),
            DatePeriod::Daily(year, day) => CalendarDate::from_yo_opt(*year, *day),
        };
        match date {
            Some(date) => Ok(date),
            None => Err(PeriodError::CalendarOverflow),
        }
    }

    /// The last day of the period; fails with `CalendarOverflow` where its
    /// year lies after `MAX_DATE_YEAR`.
    pub fn get_last_day(&self) -> (r: Result<CalendarDate, PeriodError>)
        requires
            self.wf(),
        ensures
            self.within_calendar() ==> (r matches Ok(d) && d@ == self.last_day()),
            !self.within_calendar() ==> r == Err::<CalendarDate, PeriodError>(
                PeriodError::CalendarOverflow,
            ),
    {
        let (year, months, last_month): (u32, u32, u32) = match self {
            DatePeriod::Year(year) => (*year, 12, 12),
            DatePeriod::Quarter(year, quarter) => (*year, 3, quarter * 3),
            DatePeriod::Month(year, month) => (*year, 1, *month),
            DatePeriod::Daily(_, _) => {
                return self.get_first_day();
            },
        };
        if last_month == 12 {
            // The period ends with the year.
            return match CalendarDate::from_ymd_opt(year, 12, 31) {
                Some(date) => Ok(date),
                None => Err(PeriodError::CalendarOverflow),
            };
        }
        // The day before the first day of the next quarter or month, which
        // lies in the same year.
        let first = match self.get_first_day() {
            Ok(first) => first,
            Err(e) => return Err(e),
        };
        let next = first.checked_add_months(months).unwrap();
        Ok(next.pred_opt().unwrap())
    }

    /// Whether `date` lies between the first and the last day of the period;
    /// `false` for a period after `MAX_DATE_YEAR`, which holds no date.
    pub fn contains_date(&self, date: CalendarDate) -> (r: bool)
        requires
            self.wf(),
        ensures
            r == self.spans(date@),
    {
        match (self.get_first_day(), self.get_last_day()) {
            (Ok(first), Ok(last)) => !first.is_after(&date) && !date.is_after(&last),
            _ => false,
        }
    }
}

/// A later day falls in the same or a later quarter, month and day.
proof fn lemma_periods_of_dates_ordered(a: Ymd, b: Ymd)
    requires
        a.is_valid(),
        b.is_valid(),
        a.in_range(),
        b.in_range(),
        !b.before(a),
    ensures
        quarter_of_date(a).not_after(quarter_of_date(b)),
        month_of_date(a).not_after(month_of_date(b)),
        daily_of_date(a).not_after(daily_of_date(b)),
{
}

/// The periods from `first` to `last`, each followed by the next.
fn succession(first: DatePeriod, last: DatePeriod) -> (r: Vec<DatePeriod>)
    requires
        first.wf(),
        last.wf(),
        first.tag() == last.tag(),
        first.tag() != 'Y',
        first.not_after(last),
        last.year_of() <= MAX_DATE_YEAR,
    ensures
        is_succession(r@, first, last),
{
    let mut result: Vec<DatePeriod> = Vec::new();
    let mut current = first;
    while current.get_year() < last.get_year() || (current.get_year() == last.get_year()
        && current.value() <= last.value())
        invariant
            current.wf(),
            last.wf(),
            current.tag() == last.tag(),
            last.tag() != 'Y',
            last.year_of() <= MAX_DATE_YEAR,
            current.year_of() <= last.year_of() + 1,
            first.not_after(last),
            result@.len() == 0 ==> current == first,
            result@.len() > 0 ==> result@[0] == first && current == result@.last().next()
                && result@.last().not_after(last),
            forall|i: int|
                0 <= i < result@.len() - 1 ==> result@[i].has_successor() && result@[i + 1]
                    == #[trigger] result@[i].next(),
        decreases (last.year_of() + 1 - current.year_of()) * 400 + 400 - current.value_of(),
    {
        proof {
            lemma_next_is_adjacent(current, last);
        }
        let ghost before = result@;
        result.push(current);
        proof {
            assert forall|i: int| 0 <= i < result@.len() - 1 implies result@[i].has_successor()
                && result@[i + 1] == #[trigger] result@[i].next() by {
                if i < before.len() - 1 {
                    assert(result@[i] == before[i] && result@[i + 1] == before[i + 1]);
                } else {
                    assert(result@[i] == before.last());
                }
            }
        }
        current = current.succ().unwrap();
    }
    proof {
        lemma_next_is_adjacent(result@.last(), last);
    }
    result
}

impl DatePeriod {
    /// The direct sub-periods: the four quarters of a year, the three months
    /// of a quarter, for a month the days numbered 1 to its number of days,
    /// and none for a day.
    pub fn decompose(&self) -> (r: Vec<DatePeriod>)
        requires
            self.wf(),
            self is Month ==> self.within_calendar(),
        ensures
            r@ == self.children(),
    {
        let mut result: Vec<DatePeriod> = Vec::new();
        match self {
            DatePeriod::Year(year) => {
                let mut q: u32 = 1;
                while q <= 4
                    invariant
                        1 <= q <= 5,
                        result@ == Seq::new((q - 1) as nat, |i: int| DatePeriod::Quarter(*year, (i + 1) as u32)),
                    decreases 5 - q,
                {
                    result.push(DatePeriod::Quarter(*year, q));
                    q = q + 1;
                }
            },
            DatePeriod::Quarter(year, quarter) => {
                let start = (quarter - 1) * 3 + 1;
                let mut k: u32 = 0;
                while k < 3
                    invariant
                        start == 3 * (*quarter - 1) + 1,
                        k <= 3,
                        result@ == Seq::new(
                            k as nat,
                            |i: int| DatePeriod::Month(*year, (3 * (*quarter - 1) + i + 1) as u32),
                        ),
                    decreases 3 - k,
                {
                    result.push(DatePeriod::Month(*year, start + k));
                    k = k + 1;
                }
            },
            DatePeriod::Month(year, month) => {
                let days = self.get_last_day().unwrap().day();
                let mut d: u32 = 1;
                while d <= days
                    invariant
                        days == days_in_month(*year as int, *month as int),
                        1 <= d <= days + 1,
                        result@ == Seq::new((d - 1) as nat, |i: int| DatePeriod::Daily(*year, (i + 1) as u32)),
                    decreases days + 1 - d,
                {
                    result.push(DatePeriod::Daily(*year, d));
                    d = d + 1;
                }
            },
            DatePeriod::Daily(_, _) => {},
        }
        result
    }

    /// The direct parent period: the year of a quarter, the quarter of a
    /// month, the month of a day; a year is its own parent.
    pub fn aggregate(&self) -> (r: DatePeriod)
        requires
            self.wf(),
            self is Daily ==> self.within_calendar(),
        ensures
            r == self.parent(),
    {
        match self {
            DatePeriod::Year(_) => *self,
            DatePeriod::Quarter(year, _) => DatePeriod::Year(*year),
            DatePeriod::Month(year, month) => DatePeriod::Quarter(*year, (month - 1) / 3 + 1),
            DatePeriod::Daily(year, day) => {
                let date = CalendarDate::from_yo_opt(*year, *day).unwrap();
                DatePeriod::Month(date.year(), date.month())
            },
        }
    }

    /// The years from that of `start` to that of `end`; none where `end`
    /// comes before `start`.
    pub fn between_date_as_year(start: CalendarDate, end: CalendarDate) -> (r: Result<
        Vec<DatePeriod>,
        PeriodError,
    >)
        ensures
            r matches Ok(v) && v@ == years_between(start@, end@),
    {
        if start.is_after(&end) {
            return Ok(Vec::new());
        }
        let first = start.year();
        let last = end.year();
        let mut result: Vec<DatePeriod> = Vec::new();
        let mut y = first;
        while y <= last
            invariant
                first <= y <= last + 1,
                last <= MAX_DATE_YEAR,
                result@ == Seq::new((y - first) as nat, |i: int| DatePeriod::Year((first + i) as u32)),
            decreases last + 1 - y,
        {
            result.push(DatePeriod::Year(y));
            y = y + 1;
        }
        Ok(result)
    }

    /// The quarters from the one holding `start` to the one holding `end`;
    /// none where `end` comes before `start`.
    pub fn between_date_as_quarter(start: CalendarDate, end: CalendarDate) -> (r: Result<
        Vec<DatePeriod>,
        PeriodError,
    >)
        ensures
            end@.before(start@) ==> (r matches Ok(v) && v@.len() == 0),
            !end@.before(start@) ==> (r matches Ok(v) && is_succession(
                v@,
                quarter_of_date(start@),
                quarter_of_date(end@),
            )),
    {
        if start.is_after(&end) {
            return Ok(Vec::new());
        }
        let first = DatePeriod::from_date_as_quarter(start);
        let last = DatePeriod::from_date_as_quarter(end);
        proof {
            lemma_periods_of_dates_ordered(start@, end@);
        }
        Ok(succession(first, last))
    }

    /// The months from the one holding `start` to the one holding `end`;
    /// none where `end` comes before `start`.
    pub fn between_date_as_month(start: CalendarDate, end: CalendarDate) -> (r: Result<
        Vec<DatePeriod>,
        PeriodError,
    >)
        ensures
            end@.before(start@) ==> (r matches Ok(v) && v@.len() == 0),
            !end@.before(start@) ==> (r matches Ok(v) && is_succession(
                v@,
                month_of_date(start@),
                month_of_date(end@),
            )),
    {
        if start.is_after(&end) {
            return Ok(Vec::new());
        }
        let first = DatePeriod::from_date_as_month(start);
        let last = DatePeriod::from_date_as_month(end);
        proof {
            lemma_periods_of_dates_ordered(start@, end@);
        }
        Ok(succession(first, last))
    }

    /// The days from `start` to `end`, both included; none where `end` comes
    /// before `start`.
    pub fn between_date_as_daily(start: CalendarDate, end: CalendarDate) -> (r: Result<
        Vec<DatePeriod>,
        PeriodError,
    >)
        ensures
            end@.before(start@) ==> (r matches Ok(v) && v@.len() == 0),
            !end@.before(start@) ==> (r matches Ok(v) && is_succession(
                v@,
                daily_of_date(start@),
                daily_of_date(end@),
            )),
    {
        if start.is_after(&end) {
            return Ok(Vec::new());
        }
        let first = DatePeriod::from_date_as_daily(start);
        let last = DatePeriod::from_date_as_daily(end);
        proof {
            lemma_periods_of_dates_ordered(start@, end@);
        }
        Ok(succession(first, last))
    }
}

/// Decomposing and aggregating are inverse: every sub-period of a year or a
/// quarter has it as parent, and so does every day listed for a January; a
/// year is its own parent. (The days listed for a later month are numbered
/// from 1 and lie in January, so their parent is that January.)
pub proof fn lemma_children_aggregate(p: DatePeriod)
    requires
        p.wf(),
        !(p is Daily),
        p is Month ==> p->Month_1 == 1,
    ensures
        forall|i: int| 0 <= i < p.children().len() ==> (#[trigger] p.children()[i]).parent() == p,
        p is Year ==> p.parent() == p,
{
}

/// A date lies in the year, the quarter, the month and the day computed
/// from it, so each of them contains it.
pub proof fn lemma_date_in_its_periods(d: Ymd)
    requires
        d.is_valid(),
        d.in_range(),
    ensures
        DatePeriod::Year(d.year as u32).spans(d),
        quarter_of_date(d).wf() && quarter_of_date(d).spans(d),
        month_of_date(d).wf() && month_of_date(d).spans(d),
        daily_of_date(d).wf() && daily_of_date(d).spans(d),
{
    lemma_ordinal_determines_date(d);
}

} // verus!
