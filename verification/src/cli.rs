//! Command-line values that the library decides on: the number of jobs.
use vstd::prelude::*;
use crate::text::{decimal, digit, to_chars};

verus! {

/// The fewest and the most jobs that a run accepts.
pub const MIN_JOBS: usize = 1;
pub const MAX_JOBS: usize = 64;

/// An ASCII decimal digit.
pub open spec fn is_digit(c: char) -> bool {
    '0' <= c && c <= '9'
}

/// The number that a string of decimal digits writes.
pub open spec fn digits_value(s: Seq<char>) -> nat
    decreases s.len(),
{
    if s.len() == 0 {
        0
    } else {
        digits_value(s.drop_last()) * 10 + ((s.last() as int) - 48) as nat
    }
}

/// The digits of an unsigned number in text: all of it, after an optional leading `+`.
pub open spec fn unsigned_digits(s: Seq<char>) -> Seq<char> {
    if s.len() > 0 && s[0] == '+' {
        s.skip(1)
    } else {
        s
    }
}

/// `str::parse::<usize>`: an optional `+`, then at least one decimal digit, and a value
/// that fits in a `usize`.
pub open spec fn parsed_usize(s: Seq<char>) -> Option<nat> {
    let d = unsigned_digits(s);
    if d.len() > 0 && (forall|i: int| 0 <= i < d.len() ==> #[trigger] is_digit(d[i]))
        && digits_value(d) <= usize::MAX {
        Some(digits_value(d))
    } else {
        None
    }
}

/// A digit string whose prefix already exceeds `usize::MAX` only grows.
proof fn lemma_digits_grow(s: Seq<char>, k: int)
    requires
        0 <= k <= s.len(),
        forall|i: int| 0 <= i < s.len() ==> #[trigger] is_digit(s[i]),
    ensures
        digits_value(s.take(k)) <= digits_value(s),
    decreases s.len() - k,
{
    if k < s.len() {
        lemma_digits_grow(s, k + 1);
        assert(s.take(k + 1).drop_last() =~= s.take(k));
        assert(is_digit(s[k]));
    } else {
        assert(s.take(k) =~= s);
    }
}

/// The decimal notation of `n` is all digits and writes `n`.
proof fn lemma_decimal_digits(n: nat)
    ensures
        decimal(n).len() > 0,
        forall|i: int| 0 <= i < decimal(n).len() ==> #[trigger] is_digit(decimal(n)[i]),
        digits_value(decimal(n)) == n,
    decreases n,
{
    let d = digit(n % 10);
    assert((d as int) == (n % 10) + 48);
    if n >= 10 {
        lemma_decimal_digits(n / 10);
        let p = decimal(n / 10);
        assert(decimal(n) == p.push(d));
        assert(decimal(n).drop_last() =~= p);
        assert(decimal(n).last() == d);
        assert(digits_value(decimal(n)) == digits_value(p) * 10 + ((d as int) - 48) as nat);
        assert(n == (n / 10) * 10 + n % 10);
        assert forall|i: int| 0 <= i < decimal(n).len() implies #[trigger] is_digit(decimal(n)[i]) by {
            if i < p.len() {
                assert(decimal(n)[i] == p[i]);
            }
        }
    } else {
        assert(decimal(n) == seq![d]);
        assert(decimal(n).drop_last() =~= Seq::<char>::empty());
        assert(digits_value(decimal(n)) == digits_value(Seq::<char>::empty()) * 10 + ((d as int) - 48) as nat);
    }
}

/// Parsing the decimal notation of any number that fits in a `usize` gives that number
/// back; in particular `--jobs` accepts the notation of every number from 1 to 64.
pub proof fn law_parse_decimal_round_trip(n: nat)
    requires
        n <= usize::MAX,
    ensures
        parsed_usize(decimal(n)) == Some(n),
{
    lemma_decimal_digits(n);
    assert(decimal(n)[0] != '+') by {
        assert(is_digit(decimal(n)[0]));
    }
    assert(unsigned_digits(decimal(n)) == decimal(n));
}

/// Parses an unsigned number as `str::parse::<usize>` does.
pub fn parse_usize(value: &str) -> (res: Option<usize>)
    ensures
        match res {
            Some(n) => parsed_usize(value@) == Some(n as nat),
            None => parsed_usize(value@) is None,
        },
{
    let v = to_chars(value);
    let start: usize = if v.len() > 0 && v[0] == '+' {
        1
    } else {
        0
    };
    let ghost d = unsigned_digits(value@);
    assert(d =~= v@.skip(start as int));
    if start >= v.len() {
        return None;
    }
    let mut acc: usize = 0;
    let mut i: usize = start;
    while i < v.len()
        invariant
            start <= i <= v.len(),
            start < v.len(),
            v@ == value@,
            d == v@.skip(start as int),
            d == unsigned_digits(value@),
            forall|j: int| 0 <= j < i - start ==> #[trigger] is_digit(d[j]),
            acc as nat == digits_value(d.take(i - start)),
        decreases v.len() - i,
    {
        let c = v[i];
        assert(d[i - start] == c);
        if !('0' <= c && c <= '9') {
            assert(!is_digit(d[i - start]));
            return None;
        }
        assert(d.take(i - start + 1).drop_last() =~= d.take(i - start));
        assert(d.take(i - start + 1).last() == c);
        let digit = (c as u32 - 48) as usize;
        assert(digits_value(d.take(i - start + 1)) == acc * 10 + digit);
        match acc.checked_mul(10) {
            Some(m) => match m.checked_add(digit) {
                Some(n) => {
                    acc = n;
                },
                None => {
                    proof {
                        assert forall|j: int| 0 <= j < i - start + 1 implies #[trigger] is_digit(
                            d[j],
                        ) by {}
                        if forall|j: int| 0 <= j < d.len() ==> #[trigger] is_digit(d[j]) {
                            lemma_digits_grow(d, i - start + 1);
                        }
                    }
                    return None;
                },
            },
            None => {
                proof {
                    if forall|j: int| 0 <= j < d.len() ==> #[trigger] is_digit(d[j]) {
                        lemma_digits_grow(d, i - start + 1);
                    }
                }
                return None;
            },
        }
        i += 1;
    }
    assert(d.take(d.len() as int) =~= d);
    Some(acc)
}

/// Parse the `--jobs` value: an integer from 1 to 64.
pub fn parse_jobs(value: &str) -> (res: Result<usize, String>)
    ensures
        match res {
            Ok(n) => parsed_usize(value@) == Some(n as nat) && MIN_JOBS <= n <= MAX_JOBS,
            Err(e) => match parsed_usize(value@) {
                None => e@ == "jobs must be an integer from 1 to 64"@,
                Some(n) => !(MIN_JOBS <= n <= MAX_JOBS) && e@ == "jobs must be from 1 to 64"@,
            },
        },
{
    let jobs = match parse_usize(value) {
        Some(n) => n,
        None => {
            return Err(String::from_str("jobs must be an integer from 1 to 64"));
        },
    };
    if MIN_JOBS <= jobs && jobs <= MAX_JOBS {
        Ok(jobs)
    } else {
        Err(String::from_str("jobs must be from 1 to 64"))
    }
}

} // verus!
