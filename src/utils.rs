use vstd::prelude::*;

verus! {

/// A required setting that the environment lacks.
#[derive(Debug)]
pub enum EnvError {
    /// The variable of this name is not set.
    Missing(String),
}

/// The value of a required environment variable, given what the lookup of
/// `name` found; an error naming the variable when it is not set.
pub fn env_var_or_panic(name: &str, value: Option<String>) -> (r: Result<String, EnvError>)
    ensures
        value matches Some(v) ==> r == Ok::<String, EnvError>(v),
        value is None ==> (r matches Err(EnvError::Missing(n)) && n@ == name@),
{
    match value {
        Some(v) => Ok(v),
        None => Err(EnvError::Missing(name.to_owned())),
    }
}

/// Whether a byte is an ASCII decimal digit.
pub open spec fn is_digit(b: u8) -> bool {
    48 <= b <= 57
}

/// The number that a string of decimal digits denotes.
pub open spec fn digits_value(s: Seq<u8>) -> int
    decreases s.len(),
{
    if s.len() == 0 {
        0
    } else {
        digits_value(s.drop_last()) * 10 + (s.last() - 48)
    }
}

/// The text after an optional leading `+`.
pub open spec fn unsigned_part(s: Seq<u8>) -> Seq<u8> {
    if s.len() > 0 && s[0] == 43 {
        s.drop_first()
    } else {
        s
    }
}

/// Whether every byte is a decimal digit.
pub open spec fn all_digits(d: Seq<u8>) -> bool {
    forall|i: int| 0 <= i < d.len() ==> is_digit(#[trigger] d[i])
}

/// What parsing a number of minutes gives: an optional `+` then one or more
/// decimal digits, whose value fits 64 bits.
pub open spec fn minutes_of(s: Seq<u8>) -> Option<u64> {
    let d = unsigned_part(s);
    if d.len() > 0 && all_digits(d) && digits_value(d) <= u64::MAX {
        Some(digits_value(d) as u64)
    } else {
        None
    }
}

proof fn lemma_digits_value_nonneg(s: Seq<u8>)
    requires
        forall|i: int| 0 <= i < s.len() ==> is_digit(#[trigger] s[i]),
    ensures
        digits_value(s) >= 0,
    decreases s.len(),
{
    if s.len() > 0 {
        lemma_digits_value_nonneg(s.drop_last());
    }
}

proof fn lemma_digits_value_grows(s: Seq<u8>, k: int)
    requires
        0 <= k <= s.len(),
        forall|i: int| 0 <= i < s.len() ==> is_digit(#[trigger] s[i]),
    ensures
        digits_value(s.subrange(0, k)) <= digits_value(s),
    decreases s.len() - k,
{
    if k < s.len() {
        lemma_digits_value_grows(s, k + 1);
        let t = s.subrange(0, k + 1);
        assert(t.drop_last() =~= s.subrange(0, k));
        lemma_digits_value_nonneg(s.subrange(0, k));
    } else {
        assert(s.subrange(0, k) =~= s);
    }
}

/// Parses the attribution period, in minutes, from the bytes of its text:
/// an optional `+` then decimal digits; `None` for anything else or a value
/// over 64 bits.
pub fn parse_minutes(text: &[u8]) -> (r: Option<u64>)
    ensures
        r == minutes_of(text@),
{
    let n = text.len();
    let mut start: usize = 0;
    if n > 0 && text[0] == 43u8 {
        start = 1;
    }
    let ghost d = text@.subrange(start as int, n as int);
    assert(d =~= unsigned_part(text@));
    if start == n {
        return None;
    }
    let mut value: u64 = 0;
    let mut i: usize = start;
    while i < n
        invariant
            start <= i <= n,
            n == text@.len(),
            d == text@.subrange(start as int, n as int),
            d == unsigned_part(text@),
            forall|j: int| start <= j < i ==> is_digit(#[trigger] text@[j]),
            value == digits_value(text@.subrange(start as int, i as int)),
        decreases n - i,
    {
        let b = text[i];
        let ghost p = text@.subrange(start as int, i + 1);
        assert(p.drop_last() =~= text@.subrange(start as int, i as int));
        if b < 48u8 || b > 57u8 {
            assert(d[i - start] == b);
            assert(!is_digit(d[i - start]));
            assert(!all_digits(d));
            return None;
        }
        let digit = (b - 48u8) as u64;
        if value > (u64::MAX - digit) / 10 {
            proof {
                assert(value * 10 + digit > u64::MAX) by (nonlinear_arith)
                    requires value > (u64::MAX - digit) / 10, digit <= 9;
                assert(p.last() == b);
                assert(digits_value(p) == value * 10 + digit);
                if all_digits(d) {
                    lemma_digits_value_grows(d, i + 1 - start);
                    assert(d.subrange(0, i + 1 - start) =~= p);
                }
            }
            return None;
        }
        value = value * 10 + digit;
        i = i + 1;
    }
    assert(text@.subrange(start as int, n as int) =~= d);
    Some(value)
}

} // verus!
