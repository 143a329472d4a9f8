//! Calendar dates as plain values: the `YYYYMMDD` export format parsed and
//! validated, with the day-level ordering the transaction store sorts by.

use vstd::prelude::*;

use crate::errors::ParseError;
use crate::strutil::{digits_accumulate, is_digit_char, is_digit_seq, digits_value, pow10};

verus! {

use vstd::string::StrSliceExecFns;

/// A calendar day. Valid values satisfy [`date_valid`].
#[derive(Debug, Clone, Copy, PartialEq, Eq, Hash, Structural)]
pub struct Date {
    pub year: u16,
    pub month: u8,
    pub day: u8,
}

/// Gregorian leap-year rule.
pub open spec fn is_leap_year(y: int) -> bool {
    y % 4 == 0 && (y % 100 != 0 || y % 400 == 0)
}

/// Number of days in month `m` of year `y`, for `m` in `1 ..= 12`.
pub open spec fn days_in_month(y: int, m: int) -> int {
    if m == 2 {
        if is_leap_year(y) {
            29
        } else {
            28
        }
    } else if m == 4 || m == 6 || m == 9 || m == 11 {
        30
    } else {
        31
    }
}

/// The date denotes a real calendar day with a four-digit year.
pub open spec fn date_valid(d: Date) -> bool {
    &&& d.year <= 9999
    &&& 1 <= d.month <= 12
    &&& 1 <= d.day <= days_in_month(d.year as int, d.month as int)
}

/// Day-level ordering: year, then month, then day.
pub open spec fn date_le(a: Date, b: Date) -> bool {
    ||| a.year < b.year
    ||| (a.year == b.year && a.month < b.month)
    ||| (a.year == b.year && a.month == b.month && a.day <= b.day)
}

/// What `YYYYMMDD` strings denote: eight digits whose month and day parts
/// form a real calendar day; everything else is rejected.
pub open spec fn spec_parse_date(s: Seq<char>) -> Option<Date> {
    if s.len() == 8 && is_digit_seq(s) {
        let y = digits_value(s.subrange(0, 4));
        let m = digits_value(s.subrange(4, 6));
        let d = digits_value(s.subrange(6, 8));
        if 1 <= m <= 12 && 1 <= d <= days_in_month(y, m) {
            Some(Date { year: y as u16, month: m as u8, day: d as u8 })
        } else {
            None
        }
    } else {
        None
    }
}

impl Date {
    /// Parse an eight-digit `YYYYMMDD` string into a calendar day, rejecting
    /// anything that is not a real date.
    pub fn parse(s: &str) -> (r: Result<Date, ParseError>)
        ensures
            r is Ok <==> spec_parse_date(s@) is Some,
            r is Ok ==> r->Ok_0 == spec_parse_date(s@)->0,
            r is Ok ==> date_valid(r->Ok_0),
            r is Err ==> r->Err_0 == ParseError::Date,
    {
        let n = s.unicode_len();
        if n != 8 {
            return Err(ParseError::Date);
        }
        let ghost e = Seq::<char>::empty();
        proof {
            assert(digits_value(e) == 0 && pow10(e.len()) == 1);
        }
        let y = match digits_accumulate(s, 0, 4, 0, Ghost(e)) {
            Some(v) => v,
            None => {
                proof {
                    assert(!is_digit_seq(s@)) by {
                        let sub = s@.subrange(0, 4);
                        assert(exists|i: int| 0 <= i < sub.len() && !is_digit_char(sub[i]));
                        let i = choose|i: int| 0 <= i < sub.len() && !is_digit_char(sub[i]);
                        assert(sub[i] == s@[i]);
                    }
                }
                return Err(ParseError::Date);
            },
        };
        let m = match digits_accumulate(s, 4, 6, 0, Ghost(e)) {
            Some(v) => v,
            None => {
                proof {
                    assert(!is_digit_seq(s@)) by {
                        let sub = s@.subrange(4, 6);
                        assert(exists|i: int| 0 <= i < sub.len() && !is_digit_char(sub[i]));
                        let i = choose|i: int| 0 <= i < sub.len() && !is_digit_char(sub[i]);
                        assert(sub[i] == s@[4 + i]);
                    }
                }
                return Err(ParseError::Date);
            },
        };
        let d = match digits_accumulate(s, 6, 8, 0, Ghost(e)) {
            Some(v) => v,
            None => {
                proof {
                    assert(!is_digit_seq(s@)) by {
                        let sub = s@.subrange(6, 8);
                        assert(exists|i: int| 0 <= i < sub.len() && !is_digit_char(sub[i]));
                        let i = choose|i: int| 0 <= i < sub.len() && !is_digit_char(sub[i]);
                        assert(sub[i] == s@[6 + i]);
                    }
                }
                return Err(ParseError::Date);
            },
        };
        proof {
            assert(e + s@.subrange(0, 4) =~= s@.subrange(0, 4));
            assert(e + s@.subrange(4, 6) =~= s@.subrange(4, 6));
            assert(e + s@.subrange(6, 8) =~= s@.subrange(6, 8));
            assert(is_digit_seq(s@)) by {
                assert forall|i: int| 0 <= i < s@.len() implies is_digit_char(#[trigger] s@[i]) by {
                    if i < 4 {
                        assert(s@.subrange(0, 4)[i] == s@[i]);
                    } else if i < 6 {
                        assert(s@.subrange(4, 6)[i - 4] == s@[i]);
                    } else {
                        assert(s@.subrange(6, 8)[i - 6] == s@[i]);
                    }
                }
            }
            assert(pow10(4) == 10000 && pow10(2) == 100) by {
                reveal_with_fuel(pow10, 5);
            }
        }
        let year = y as u16;
        let month = m as u8;
        let day = d as u8;
        if month < 1 || month > 12 {
            return Err(ParseError::Date);
        }
        let dim = Self::days_in(year, month);
        if day < 1 || day > dim {
            return Err(ParseError::Date);
        }
        Ok(Date { year, month, day })
    }

    /// Number of days in month `m` of year `y`.
    pub fn days_in(y: u16, m: u8) -> (r: u8)
        requires
            1 <= m <= 12,
        ensures
            r as int == days_in_month(y as int, m as int),
    {
        if m == 2 {
            if (y % 4 == 0 && y % 100 != 0) || y % 400 == 0 {
                29
            } else {
                28
            }
        } else if m == 4 || m == 6 || m == 9 || m == 11 {
            30
        } else {
            31
        }
    }

    /// Day-level comparison: `self` is on or before `other`.
    pub fn le(&self, other: &Date) -> (r: bool)
        ensures
            r == date_le(*self, *other),
    {
        if self.year != other.year {
            self.year < other.year
        } else if self.month != other.month {
            self.month < other.month
        } else {
            self.day <= other.day
        }
    }
}

} // verus!
