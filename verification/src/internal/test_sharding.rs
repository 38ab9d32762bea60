//! Sharding of a test run: which tests this shard runs.

use vstd::prelude::*;
use crate::text::chars_of;

verus! {

/// This shard's index and the number of shards.
pub struct Sharding {
    pub this_shard: u64,
    pub total_shards: u64,
}

/// A sharding is valid when it has at least one shard and this shard is one
/// of them.
pub open spec fn valid_sharding(s: Sharding) -> bool {
    s.total_shards > 0 && s.this_shard < s.total_shards
}

/// Whether `c` is a decimal digit.
pub open spec fn is_digit(c: char) -> bool {
    '0' <= c && c <= '9'
}

/// The value of a string of decimal digits.
pub open spec fn digits_value(d: Seq<char>) -> nat
    decreases d.len(),
{
    if d.len() == 0 {
        0
    } else {
        digits_value(d.drop_last()) * 10 + ((d.last() as u32) - ('0' as u32)) as nat
    }
}

/// `s` without a leading `+`.
pub open spec fn digits_part(s: Seq<char>) -> Seq<char> {
    if s.len() > 0 && s[0] == '+' {
        s.drop_first()
    } else {
        s
    }
}

/// Every character of `d` is a decimal digit.
pub open spec fn all_digits(d: Seq<char>) -> bool {
    forall|i: int| 0 <= i < d.len() ==> is_digit(#[trigger] d[i])
}

/// What parsing `s` as a `u64` gives: an optional `+` followed by at least
/// one decimal digit and nothing else, with a value that fits.
pub open spec fn parsed_u64(s: Seq<char>) -> Option<u64> {
    let d = digits_part(s);
    if d.len() == 0 || !all_digits(d) {
        None
    } else if digits_value(d) > u64::MAX {
        None
    } else {
        Some(digits_value(d) as u64)
    }
}

proof fn lemma_digits_value_grows(d: Seq<char>, i: int)
    requires
        0 <= i <= d.len(),
        forall|k: int| 0 <= k < d.len() ==> is_digit(#[trigger] d[k]),
    ensures
        digits_value(d.take(i)) <= digits_value(d),
    decreases d.len() - i,
{
    if i < d.len() {
        lemma_digits_value_grows(d, i + 1);
        assert(d.take(i + 1).drop_last() =~= d.take(i));
    } else {
        assert(d.take(i) =~= d);
    }
}

/// Parses `s` as a `u64` (see [`parsed_u64`]).
pub fn parse_u64(s: &str) -> (r: Option<u64>)
    ensures
        r == parsed_u64(s@),
{
    let v = chars_of(s);
    let start: usize = if v.len() > 0 && v[0] == '+' {
        1
    } else {
        0
    };
    let ghost d = digits_part(s@);
    assert(d =~= v@.skip(start as int));
    if start == v.len() {
        assert(d.len() == 0);
        assert(parsed_u64(s@) == None::<u64>);
        return None;
    }
    let mut i: usize = start;
    while i < v.len()
        invariant
            v@ == s@,
            d == digits_part(s@),
            d == v@.skip(start as int),
            start <= i <= v@.len(),
            forall|k: int| start <= k < i ==> is_digit(#[trigger] v@[k]),
        decreases v@.len() - i,
    {
        if !('0' <= v[i] && v[i] <= '9') {
            assert(!is_digit(d[i - start]));
            assert(!all_digits(d));
            return None;
        }
        i = i + 1;
    }
    assert forall|k: int| 0 <= k < d.len() implies is_digit(#[trigger] d[k]) by {
        assert(d[k] == v@[k + start]);
    }
    let mut value: u64 = 0;
    let mut j: usize = start;
    while j < v.len()
        invariant
            v@ == s@,
            d == digits_part(s@),
            d == v@.skip(start as int),
            start <= j <= v@.len(),
            forall|k: int| 0 <= k < d.len() ==> is_digit(#[trigger] d[k]),
            forall|k: int| start <= k < v@.len() ==> is_digit(#[trigger] v@[k]),
            value == digits_value(d.take(j - start)),
        decreases v@.len() - j,
    {
        assert(is_digit(v@[j as int]));
        let digit = ((v[j] as u32) - ('0' as u32)) as u64;
        proof {
            assert(d[j - start] == v@[j as int]);
            assert(d.take(j - start + 1).drop_last() =~= d.take(j - start));
            assert(d.take(j - start + 1).last() == v@[j as int]);
        }
        match value.checked_mul(10) {
            Some(m) => match m.checked_add(digit) {
                Some(n) => {
                    value = n;
                },
                None => {
                    proof {
                        lemma_digits_value_grows(d, j - start + 1);
                    }
                    return None;
                },
            },
            None => {
                proof {
                    lemma_digits_value_grows(d, j - start + 1);
                }
                return None;
            },
        }
        j = j + 1;
    }
    assert(d.take(d.len() as int) =~= d);
    Some(value)
}

impl Sharding {
    /// One shard that runs everything.
    pub fn new() -> (s: Sharding)
        ensures
            s.this_shard == 0,
            s.total_shards == 1,
    {
        Sharding { this_shard: 0, total_shards: 1 }
    }

    /// The sharding that the shard index and shard count give, when they
    /// are both set, the count is positive and the index is below it;
    /// otherwise one shard that runs everything.
    pub fn from_values(this_shard: Option<u64>, total_shards: Option<u64>) -> (s: Sharding)
        ensures
            valid_sharding(s),
            (match (this_shard, total_shards) {
                (Some(i), Some(n)) => n > 0 && i < n,
                _ => false,
            }) ==> s.this_shard == this_shard.unwrap() && s.total_shards == total_shards.unwrap(),
            !(match (this_shard, total_shards) {
                (Some(i), Some(n)) => n > 0 && i < n,
                _ => false,
            }) ==> s.this_shard == 0 && s.total_shards == 1,
    {
        match (this_shard, total_shards) {
            (Some(i), Some(n)) => {
                if n > 0 && i < n {
                    Sharding { this_shard: i, total_shards: n }
                } else {
                    Sharding::new()
                }
            },
            _ => Sharding::new(),
        }
    }

    /// The shard that the texts of the shard index and shard count settings
    /// describe: when both are set, both parse as `u64`, the count is
    /// positive and the index is below it.
    pub fn parse_settings(this_shard: Option<&str>, total_shards: Option<&str>) -> (r: Option<Sharding>)
        ensures
            ({
                let i = match this_shard {
                    Some(t) => parsed_u64(t@),
                    None => None,
                };
                let n = match total_shards {
                    Some(t) => parsed_u64(t@),
                    None => None,
                };
                if i is Some && n is Some && n.unwrap() > 0 && i.unwrap() < n.unwrap() {
                    r == Some(Sharding { this_shard: i.unwrap(), total_shards: n.unwrap() })
                } else {
                    r is None
                }
            }),
    {
        let i = match this_shard {
            Some(t) => parse_u64(t),
            None => None,
        };
        let n = match total_shards {
            Some(t) => parse_u64(t),
            None => None,
        };
        match (i, n) {
            (Some(i), Some(n)) => {
                if n > 0 && i < n {
                    Some(Sharding { this_shard: i, total_shards: n })
                } else {
                    None
                }
            },
            _ => None,
        }
    }

    /// The sharding read from the texts of the shard index and shard count
    /// settings when they describe a shard (see [`Sharding::parse_settings`]);
    /// otherwise one shard that runs everything.
    pub fn from_settings(this_shard: Option<&str>, total_shards: Option<&str>) -> (s: Sharding)
        ensures
            valid_sharding(s),
            ({
                let i = match this_shard {
                    Some(t) => parsed_u64(t@),
                    None => None,
                };
                let n = match total_shards {
                    Some(t) => parsed_u64(t@),
                    None => None,
                };
                if i is Some && n is Some && n.unwrap() > 0 && i.unwrap() < n.unwrap() {
                    s.this_shard == i.unwrap() && s.total_shards == n.unwrap()
                } else {
                    s.this_shard == 0 && s.total_shards == 1
                }
            }),
    {
        match Sharding::parse_settings(this_shard, total_shards) {
            Some(s) => s,
            None => Sharding::new(),
        }
    }
}

/// Whether this shard runs the test with hash `test_case_hash`: the shards
/// take the hashes round robin.
pub fn test_should_run(sharding: &Sharding, test_case_hash: u64) -> (b: bool)
    requires
        valid_sharding(*sharding),
    ensures
        b == runs_on(*sharding, test_case_hash),
{
    test_case_hash % sharding.total_shards == sharding.this_shard
}

/// Whether the shard `s` runs the test with hash `h`.
pub open spec fn runs_on(s: Sharding, h: u64) -> bool {
    h % s.total_shards == s.this_shard
}

/// With `total_shards` shards, every test runs on exactly one of them: the
/// shard of index `h % total_shards`.
pub proof fn law_each_test_runs_on_exactly_one_shard(total_shards: u64, h: u64)
    requires
        total_shards > 0,
    ensures
        valid_sharding(Sharding { this_shard: h % total_shards, total_shards }),
        runs_on(Sharding { this_shard: h % total_shards, total_shards }, h),
        forall|i: u64|
            i < total_shards && #[trigger] runs_on(Sharding { this_shard: i, total_shards }, h)
                ==> i == h % total_shards,
{
}

} // verus!
