use vstd::prelude::*;

verus! {

pub open spec fn is_leap_year(y: int) -> bool {
    (y % 4 == 0 && y % 100 != 0) || y % 400 == 0
}

pub open spec fn days_in_month(y: int, m: int) -> int {
    if m == 2 {
        if is_leap_year(y) {
            29
        } else {
            28
        }
    } else if m == 4 || m == 6 || m == 9 || m == 11 {
        30
    } else {
        31
    }
}

/// A day of the proleptic Gregorian calendar whose year has at most four digits.
pub open spec fn is_valid_date(y: int, m: int, d: int) -> bool {
    &&& 0 <= y <= 9999
    &&& 1 <= m <= 12
    &&& 1 <= d <= days_in_month(y, m)
}

/// Whether the number `v`, read as `YYYYMMDD`, names a calendar day.
pub open spec fn is_valid_day_number(v: nat) -> bool {
    v < 100000000 && is_valid_date(v as int / 10000, (v as int / 100) % 100, v as int % 100)
}

/// A calendar date, without time of day or zone.
#[derive(Clone, Copy, Debug, PartialEq, Eq)]
pub struct Date {
    pub year: u32,
    pub month: u32,
    pub day: u32,
}

impl Date {
    pub open spec fn wf(&self) -> bool {
        is_valid_date(self.year as int, self.month as int, self.day as int)
    }

    /// The date as the number `YYYYMMDD`. On valid dates this number orders days as the
    /// calendar does.
    pub open spec fn key(&self) -> nat {
        (self.year * 10000 + self.month * 100 + self.day) as nat
    }

    /// The date of the given year, month and day, if that day exists.
    pub fn new(year: u32, month: u32, day: u32) -> (r: Option<Date>)
        ensures
            r is Some <==> is_valid_date(year as int, month as int, day as int),
            r is Some ==> r->0 == (Date { year, month, day }),
    {
        if year > 9999 || month < 1 || month > 12 || day < 1 {
            return None;
        }
        let leap = (year % 4 == 0 && year % 100 != 0) || year % 400 == 0;
        let last = if month == 2 {
            if leap {
                29
            } else {
                28
            }
        } else if month == 4 || month == 6 || month == 9 || month == 11 {
            30
        } else {
            31
        };
        if day > last {
            None
        } else {
            Some(Date { year, month, day })
        }
    }

    /// The date as the number `YYYYMMDD`.
    pub fn day_number(&self) -> (r: u32)
        requires
            self.wf(),
        ensures
            r == self.key(),
    {
        self.year * 10000 + self.month * 100 + self.day
    }
}

/// A valid date's number is a valid day number.
pub proof fn lemma_key_valid(d: Date)
    requires
        d.wf(),
    ensures
        is_valid_day_number(d.key()),
{
    let k = d.key() as int;
    let y = d.year as int;
    let m = d.month as int;
    let dd = d.day as int;
    assert(k == y * 10000 + m * 100 + dd);
    assert(k / 10000 == y && (k / 100) % 100 == m && k % 100 == dd) by (nonlinear_arith)
        requires
            k == y * 10000 + m * 100 + dd,
            0 <= y <= 9999,
            1 <= m <= 12,
            1 <= dd <= 31,
    ;
}

/// Whether `a` is an earlier day than `b`: by year, then month, then day.
pub open spec fn is_before(a: Date, b: Date) -> bool {
    a.year < b.year || (a.year == b.year && (a.month < b.month || (a.month == b.month && a.day
        < b.day)))
}

/// On valid dates, the `YYYYMMDD` numbers are ordered as the days are.
pub proof fn lemma_key_order(a: Date, b: Date)
    requires
        a.wf(),
        b.wf(),
    ensures
        a.key() < b.key() <==> is_before(a, b),
{
    let (ya, ma, da) = (a.year as int, a.month as int, a.day as int);
    let (yb, mb, db) = (b.year as int, b.month as int, b.day as int);
    let ka = ya * 10000 + ma * 100 + da;
    let kb = yb * 10000 + mb * 100 + db;
    assert(a.key() == ka && b.key() == kb);
    assert(ya < yb ==> ka < kb) by (nonlinear_arith)
        requires
            1 <= ma <= 12,
            1 <= da <= 31,
            1 <= mb <= 12,
            1 <= db <= 31,
            ka == ya * 10000 + ma * 100 + da,
            kb == yb * 10000 + mb * 100 + db,
    ;
    assert(yb < ya ==> kb < ka) by (nonlinear_arith)
        requires
            1 <= ma <= 12,
            1 <= da <= 31,
            1 <= mb <= 12,
            1 <= db <= 31,
            ka == ya * 10000 + ma * 100 + da,
            kb == yb * 10000 + mb * 100 + db,
    ;
}

} // verus!
