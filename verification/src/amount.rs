//! Monetary amounts as plain values: sign, integer mantissa and decimal
//! scale, parsed from the export format that writes a comma as the decimal
//! separator and a dot as the thousands separator.

use vstd::prelude::*;

use crate::errors::ParseError;
use crate::strutil::{
    digit_char, digits_accumulate, digits_value, is_digit_char, is_digit_seq, pow10, push_char,
};

verus! {

use vstd::string::StrSliceExecFns;

/// A decimal number `mantissa / 10^scale`, negated when `negative` is set.
/// A zero mantissa is never negative. At most 28 digits of precision.
#[derive(Debug, Clone, Copy, PartialEq, Eq, Hash, Structural)]
pub struct Amount {
    pub negative: bool,
    pub mantissa: u128,
    pub scale: u32,
}

/// `s` with every dot (thousands separator) removed.
pub open spec fn strip_dots(s: Seq<char>) -> Seq<char>
    decreases s.len(),
{
    if s.len() == 0 {
        Seq::empty()
    } else if s.last() == '.' {
        strip_dots(s.drop_last())
    } else {
        strip_dots(s.drop_last()).push(s.last())
    }
}

/// Index of the first occurrence of `c` in `s`, or `s.len()` if absent.
pub open spec fn index_of_char(s: Seq<char>, c: char) -> int
    decreases s.len(),
{
    if s.len() == 0 {
        0
    } else if s[0] == c {
        0
    } else {
        1 + index_of_char(s.drop_first(), c)
    }
}

pub proof fn lemma_index_of_char(s: Seq<char>, c: char)
    ensures
        0 <= index_of_char(s, c) <= s.len(),
        index_of_char(s, c) < s.len() ==> s[index_of_char(s, c)] == c,
        forall|k: int| 0 <= k < index_of_char(s, c) ==> s[k] != c,
    decreases s.len(),
{
    if s.len() > 0 && s[0] != c {
        lemma_index_of_char(s.drop_first(), c);
        assert forall|k: int| 0 <= k < index_of_char(s, c) implies s[k] != c by {
            if k > 0 {
                assert(s.drop_first()[k - 1] == s[k]);
            }
        }
    }
}

/// What amount strings denote. After dropping the dots the string must be an
/// optional minus sign, at least one integer digit, and optionally a comma
/// followed by at least one fraction digit, with at most 28 digits in all.
pub open spec fn spec_parse_amount(s: Seq<char>) -> Option<Amount> {
    let t = strip_dots(s);
    let neg = t.len() > 0 && t[0] == '-';
    let body = if neg {
        t.subrange(1, t.len() as int)
    } else {
        t
    };
    let ci = index_of_char(body, ',');
    if ci == body.len() {
        if 1 <= body.len() <= 28 && is_digit_seq(body) {
            let v = digits_value(body);
            Some(Amount { negative: neg && v != 0, mantissa: v as u128, scale: 0 })
        } else {
            None
        }
    } else {
        let ip = body.subrange(0, ci);
        let fp = body.subrange(ci + 1, body.len() as int);
        if ip.len() >= 1 && fp.len() >= 1 && ip.len() + fp.len() <= 28 && is_digit_seq(ip)
            && is_digit_seq(fp) {
            let v = digits_value(ip + fp);
            Some(
                Amount { negative: neg && v != 0, mantissa: v as u128, scale: fp.len() as u32 },
            )
        } else {
            None
        }
    }
}

impl Amount {
    /// Parse a decimal string of the export format (`"1.234,56"`, `"-12,50"`,
    /// `"7"`), normalizing the separators before reading the digits.
    #[verifier::rlimit(50)]
    pub fn parse(s: &str) -> (r: Result<Amount, ParseError>)
        ensures
            r is Ok <==> spec_parse_amount(s@) is Some,
            r is Ok ==> r->Ok_0 == spec_parse_amount(s@)->0,
            r is Err ==> r->Err_0 == ParseError::Amount,
    {
        // Drop the thousands separators.
        let n0 = s.unicode_len();
        let mut t = String::new();
        let mut i: usize = 0;
        while i < n0
            invariant
                i <= n0 == s@.len(),
                t@ == strip_dots(s@.subrange(0, i as int)),
                t@.len() <= i,
            decreases n0 - i,
        {
            let c = s.get_char(i);
            proof {
                assert(s@.subrange(0, (i + 1) as int).drop_last() =~= s@.subrange(0, i as int));
                assert(s@.subrange(0, (i + 1) as int).last() == s@[i as int]);
            }
            if c != '.' {
                push_char(&mut t, c);
            }
            i += 1;
        }
        proof {
            assert(s@.subrange(0, s@.len() as int) =~= s@);
        }
        let ghost tv = t@;
        let ts = t.as_str();
        let n = ts.unicode_len();
        let neg = n > 0 && ts.get_char(0) == '-';
        let start: usize = if neg {
            1
        } else {
            0
        };
        let ghost body = if neg {
            tv.subrange(1, tv.len() as int)
        } else {
            tv
        };
        proof {
            assert(body.len() == n - start);
            assert(forall|k: int| 0 <= k < body.len() ==> body[k] == tv[k + start]);
            lemma_index_of_char(body, ',');
        }
        // Find the decimal comma.
        let mut j: usize = start;
        while j < n && ts.get_char(j) != ','
            invariant
                start <= j <= n == tv.len(),
                ts@ == tv,
                forall|k: int| start <= k < j ==> tv[k] != ',',
            decreases n - j,
        {
            j += 1;
        }
        proof {
            assert(j - start == index_of_char(body, ',')) by {
                let ci = index_of_char(body, ',');
                if j < n {
                    assert(body[j - start] == ',');
                }
                if ci < j - start {
                    assert(body[ci] == ',');
                    assert(tv[ci + start] != ',');
                }
                if ci > j - start && j < n {
                    assert(body[j - start] != ',');
                }
            }
        }
        let int_len = j - start;
        let frac_len: usize = if j < n {
            n - j - 1
        } else {
            0
        };
        if int_len < 1 || (j < n && frac_len < 1) || int_len + frac_len > 28 {
            return Err(ParseError::Amount);
        }
        let ghost e = Seq::<char>::empty();
        let ghost ip = body.subrange(0, j - start);
        proof {
            assert(digits_value(e) == 0 && pow10(e.len()) == 1);
            assert(forall|k: int| 0 <= k < ip.len() ==> ip[k] == tv[k + start]);
        }
        let v1 = match digits_accumulate(ts, start, j, 0, Ghost(e)) {
            Some(v) => v,
            None => {
                proof {
                    let sub = ts@.subrange(start as int, j as int);
                    assert(exists|k: int| 0 <= k < sub.len() && !is_digit_char(sub[k]));
                    let k = choose|k: int| 0 <= k < sub.len() && !is_digit_char(sub[k]);
                    assert(sub[k] == tv[start + k]);
                    assert(ip[k] == tv[start + k]);
                    assert(!is_digit_seq(ip));
                }
                return Err(ParseError::Amount);
            },
        };
        proof {
            assert(e + ts@.subrange(start as int, j as int) =~= ip);
            let sub = ts@.subrange(start as int, j as int);
            assert forall|k: int| 0 <= k < ip.len() implies is_digit_char(#[trigger] ip[k]) by {
                assert(ip[k] == sub[k]);
                assert(is_digit_char(sub[k]));
            }
            assert(is_digit_seq(ip));
        }
        if j == n {
            // No fraction part.
            let v = v1;
            proof {
                assert(body =~= ip);
            }
            let negative = neg && v != 0;
            return Ok(Amount { negative, mantissa: v, scale: 0 });
        }
        let ghost fp = body.subrange(j - start + 1, body.len() as int);
        proof {
            assert(fp.len() == n - j - 1);
            assert(forall|k: int| 0 <= k < fp.len() ==> fp[k] == tv[k + j + 1]);
        }
        let v = match digits_accumulate(ts, j + 1, n, v1, Ghost(ip)) {
            Some(v) => v,
            None => {
                proof {
                    let sub = ts@.subrange((j + 1) as int, n as int);
                    assert(exists|k: int| 0 <= k < sub.len() && !is_digit_char(sub[k]));
                    let k = choose|k: int| 0 <= k < sub.len() && !is_digit_char(sub[k]);
                    assert(sub[k] == tv[j + 1 + k]);
                    assert(fp[k] == tv[j + 1 + k]);
                    assert(!is_digit_seq(fp));
                }
                return Err(ParseError::Amount);
            },
        };
        proof {
            assert(ip + ts@.subrange((j + 1) as int, n as int) =~= ip + fp);
            let sub = ts@.subrange((j + 1) as int, n as int);
            assert forall|k: int| 0 <= k < fp.len() implies is_digit_char(#[trigger] fp[k]) by {
                assert(fp[k] == sub[k]);
                assert(is_digit_char(sub[k]));
            }
            assert(is_digit_seq(fp));
        }
        let negative = neg && v != 0;
        let scale = frac_len as u32;
        Ok(Amount { negative, mantissa: v, scale })
    }
}

} // verus!
