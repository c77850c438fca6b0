//! Decimal integer parsing with the rules of `str::parse` for `u16` and
//! `i64`: an optional sign, then one or more ASCII digits, nothing else,
//! and a value that fits the type.

use vstd::prelude::*;

verus! {

pub open spec fn is_ascii_digit(c: char) -> bool {
    '0' <= c <= '9'
}

pub open spec fn all_digits(s: Seq<char>) -> bool {
    forall|i: int| 0 <= i < s.len() ==> is_ascii_digit(#[trigger] s[i])
}

/// The value of a sequence of decimal digits.
pub open spec fn digits_value(s: Seq<char>) -> nat
    decreases s.len(),
{
    if s.len() == 0 {
        0
    } else {
        digits_value(s.drop_last()) * 10 + (s.last() as nat - '0' as nat) as nat
    }
}

/// What `s.parse::<u16>()` yields.
pub open spec fn parsed_u16(s: Seq<char>) -> Option<u16> {
    let body = if s.len() > 0 && s[0] == '+' { s.drop_first() } else { s };
    if body.len() > 0 && all_digits(body) && digits_value(body) <= u16::MAX {
        Some(digits_value(body) as u16)
    } else {
        None
    }
}

/// What `s.parse::<i64>()` yields.
pub open spec fn parsed_i64(s: Seq<char>) -> Option<i64> {
    let neg = s.len() > 0 && s[0] == '-';
    let body = if s.len() > 0 && (s[0] == '+' || s[0] == '-') { s.drop_first() } else { s };
    if body.len() > 0 && all_digits(body) {
        let v = digits_value(body) as int;
        if neg && v <= 0x8000_0000_0000_0000 {
            Some((-v) as i64)
        } else if !neg && v <= i64::MAX {
            Some(v as i64)
        } else {
            None
        }
    } else {
        None
    }
}

proof fn lemma_digits_value_grows(s: Seq<char>, i: int)
    requires
        0 <= i <= s.len(),
        all_digits(s),
    ensures
        digits_value(s.take(i)) <= digits_value(s),
    decreases s.len() - i,
{
    if i < s.len() {
        lemma_digits_value_grows(s, i + 1);
        assert(s.take(i + 1).drop_last() =~= s.take(i));
        assert(is_ascii_digit(s[i]));
    } else {
        assert(s.take(i) =~= s);
    }
}

/// The value of the digits of `s` from `start` on, or `None` when one of
/// them is not a digit or the value exceeds `limit`.
fn digits_upto(s: &Vec<char>, start: usize, limit: u64) -> (res: Option<u64>)
    requires
        start <= s@.len(),
        limit >= 9,
    ensures
        match res {
            Some(v) => all_digits(s@.skip(start as int)) && v == digits_value(s@.skip(start as int)) && v
                <= limit,
            None => !all_digits(s@.skip(start as int)) || digits_value(s@.skip(start as int)) > limit,
        },
{
    let ghost body = s@.skip(start as int);
    let mut v: u64 = 0;
    let mut i: usize = start;
    while i < s.len()
        invariant
            start <= i <= s@.len(),
            body == s@.skip(start as int),
            all_digits(body.take(i - start)),
            v == digits_value(body.take(i - start)),
            v <= limit,
            limit >= 9,
        decreases s@.len() - i,
    {
        let c = s[i];
        assert(body.take(i - start + 1).drop_last() =~= body.take(i - start));
        assert(body[i - start] == c);
        if c < '0' || c > '9' {
            assert(!is_ascii_digit(body[i - start]));
            return None;
        }
        let d = (c as u32 - '0' as u32) as u64;
        if v > (limit - d) / 10 {
            proof {
                assert(all_digits(body.take(i - start + 1)));
                assert(digits_value(body.take(i - start + 1)) == v * 10 + d);
                if all_digits(body) {
                    lemma_digits_value_grows(body, i - start + 1);
                }
            }
            return None;
        }
        v = v * 10 + d;
        i += 1;
    }
    assert(body.take(i - start) =~= body);
    Some(v)
}

/// `s.parse::<u16>()`.
pub fn parse_u16(s: &str) -> (res: Option<u16>)
    ensures
        res == parsed_u16(s@),
{
    let cs = crate::text::chars_of(s);
    let start: usize = if cs.len() > 0 && cs[0] == '+' { 1 } else { 0 };
    assert(cs@.skip(start as int) == (if cs@.len() > 0 && cs@[0] == '+' { cs@.drop_first() } else { cs@ }));
    if start >= cs.len() {
        return None;
    }
    match digits_upto(&cs, start, 65535) {
        Some(v) => Some(v as u16),
        None => None,
    }
}

/// `s.parse::<i64>()`.
pub fn parse_i64(s: &str) -> (res: Option<i64>)
    ensures
        res == parsed_i64(s@),
{
    let cs = crate::text::chars_of(s);
    let neg = cs.len() > 0 && cs[0] == '-';
    let start: usize = if cs.len() > 0 && (cs[0] == '+' || cs[0] == '-') { 1 } else { 0 };
    assert(cs@.skip(start as int) == (if cs@.len() > 0 && (cs@[0] == '+' || cs@[0] == '-') {
        cs@.drop_first()
    } else {
        cs@
    }));
    if start >= cs.len() {
        return None;
    }
    let limit: u64 = if neg { 0x8000_0000_0000_0000 } else { 0x7fff_ffff_ffff_ffff };
    match digits_upto(&cs, start, limit) {
        Some(v) => if neg {
            if v == 0x8000_0000_0000_0000 {
                Some(i64::MIN)
            } else {
                Some(-(v as i64))
            }
        } else {
            Some(v as i64)
        },
        None => None,
    }
}

/// An optional integer form field: absent or empty is `None`; otherwise
/// it must read as an `i64` (`Err` when it does not).
pub fn optional_i64_field(s: Option<&str>) -> (res: Result<Option<i64>, ()>)
    ensures
        match s {
            None => res == Ok::<Option<i64>, ()>(None),
            Some(v) => if v@.len() == 0 {
                res == Ok::<Option<i64>, ()>(None)
            } else {
                match parsed_i64(v@) {
                    Some(n) => res == Ok::<Option<i64>, ()>(Some(n)),
                    None => res is Err,
                }
            },
        },
{
    match s {
        None => Ok(None),
        Some(v) => {
            if v.unicode_len() == 0 {
                Ok(None)
            } else {
                match parse_i64(v) {
                    Some(n) => Ok(Some(n)),
                    None => Err(()),
                }
            }
        },
    }
}


/// An integer form field with a fallback: the trimmed text read as an
/// `i64`, or `default` when the field is absent or does not read.
pub fn parse_int(s: Option<&str>, default: i64) -> (res: i64)
    ensures
        res == match s {
            Some(v) => match parsed_i64(crate::text::trim_ws(v@)) {
                Some(n) => n,
                None => default,
            },
            None => default,
        },
{
    match s {
        Some(v) => {
            let t = crate::text::trim_string(v);
            match parse_i64(t.as_str()) {
                Some(n) => n,
                None => default,
            }
        },
        None => default,
    }
}

} // verus!
