//! Parsing of an image scale factor.
//!
//! A scale is written as a plain decimal number: digits, optionally a single
//! dot and further digits, with at least one digit in all. The value is kept
//! in thousandths, so `"1.5"` is 1500; fraction digits beyond the third are
//! read but do not contribute. A number with more than fifteen integer
//! digits, or anything outside this grammar, does not parse.

use vstd::prelude::*;

verus! {

pub open spec fn is_digit(c: char) -> bool {
    '0' <= c && c <= '9'
}

pub open spec fn digit_val(c: char) -> int {
    c as u32 - '0' as u32
}

pub open spec fn all_digits(s: Seq<char>) -> bool {
    forall|i: int| 0 <= i < s.len() ==> is_digit(#[trigger] s[i])
}

/// The number written by a sequence of digits, most significant first.
pub open spec fn digits_val(s: Seq<char>) -> int
    decreases s.len(),
{
    if s.len() == 0 {
        0
    } else {
        digits_val(s.drop_last()) * 10 + digit_val(s.last())
    }
}

pub open spec fn pow10(n: nat) -> int
    decreases n,
{
    if n == 0 {
        1
    } else {
        10 * pow10((n - 1) as nat)
    }
}

proof fn lemma_pow10_pos(n: nat)
    ensures
        pow10(n) >= 1,
    decreases n,
{
    if n > 0 {
        lemma_pow10_pos((n - 1) as nat);
    }
}

proof fn lemma_pow10_increases(a: nat, b: nat)
    requires
        a <= b,
    ensures
        pow10(a) <= pow10(b),
    decreases b,
{
    lemma_pow10_pos(a);
    if a < b {
        lemma_pow10_increases(a, (b - 1) as nat);
        lemma_pow10_pos((b - 1) as nat);
    }
}

proof fn lemma_digits_val_bound(s: Seq<char>)
    requires
        all_digits(s),
    ensures
        0 <= digits_val(s) < pow10(s.len()),
    decreases s.len(),
{
    if s.len() > 0 {
        assert(all_digits(s.drop_last()));
        lemma_digits_val_bound(s.drop_last());
    }
}

/// The thousandths contributed by the fraction digits: the first three
/// digits, scaled up when fewer than three are written.
pub open spec fn frac_thousandths(s: Seq<char>) -> int {
    if s.len() >= 3 {
        digits_val(s.take(3))
    } else {
        digits_val(s) * pow10((3 - s.len()) as nat)
    }
}

/// The position of the first dot at or after `i`.
pub open spec fn first_dot_from(s: Seq<char>, i: int) -> Option<int>
    decreases s.len() - i,
{
    if i < 0 || i >= s.len() {
        None
    } else if s[i] == '.' {
        Some(i)
    } else {
        first_dot_from(s, i + 1)
    }
}

/// The scale a string denotes, in thousandths, or `None` when the string
/// is not a decimal number of the accepted shape.
pub open spec fn spec_parse_scale(s: Seq<char>) -> Option<u64> {
    match first_dot_from(s, 0) {
        None => if 1 <= s.len() <= 15 && all_digits(s) {
            Some((digits_val(s) * 1000) as u64)
        } else {
            None
        },
        Some(d) => {
            let ip = s.take(d);
            let fp = s.skip(d + 1);
            if all_digits(ip) && all_digits(fp) && ip.len() + fp.len() >= 1 && ip.len() <= 15 {
                Some((digits_val(ip) * 1000 + frac_thousandths(fp)) as u64)
            } else {
                None
            }
        },
    }
}

/// Reads a scale written as a decimal number, in thousandths.
pub fn parse_scale(s: &str) -> (r: Option<u64>)
    ensures
        r == spec_parse_scale(s@),
{
    let n = s.unicode_len();

    let mut dot: Option<usize> = None;
    let mut i: usize = 0;
    while i < n
        invariant
            n == s@.len(),
            i <= n,
            (match dot {
                Some(d) => first_dot_from(s@, 0) == Some(d as int) && d < i,
                None => first_dot_from(s@, 0) == first_dot_from(s@, i as int),
            }),
        decreases n - i,
    {
        if dot.is_none() && s.get_char(i) == '.' {
            dot = Some(i);
        }
        i = i + 1;
    }

    match dot {
        None => {
            if n < 1 || n > 15 {
                return None;
            }
            let acc = match accumulate_digits(s, 0, n) {
                Some(acc) => acc,
                None => {
                    return None;
                },
            };
            proof {
                assert(s@.subrange(0, n as int) =~= s@);
                lemma_digits_val_bound(s@);
                lemma_pow10_increases(s@.len(), 15);
                reveal_with_fuel(pow10, 16);
            }
            Some(acc * 1000)
        },
        Some(d) => {
            if n < 2 || d > 15 {
                return None;
            }
            let ip_acc = match accumulate_digits(s, 0, d) {
                Some(acc) => acc,
                None => {
                    return None;
                },
            };
            let ghost fp = s@.skip(d + 1);
            let flen = n - d - 1;
            let mut facc: u64 = 0;
            let mut k: usize = 0;
            while k < flen
                invariant
                    n == s@.len(),
                    d < n,
                    first_dot_from(s@, 0) == Some(d as int),
                    flen == n - d - 1,
                    fp == s@.skip(d + 1),
                    k <= flen,
                    all_digits(fp.take(k as int)),
                    facc == digits_val(fp.take(if k < 3 { k as int } else { 3 })),
                    facc <= 999,
                decreases flen - k,
            {
                let c = s.get_char(d + 1 + k);
                proof {
                    assert(fp[k as int] == s@[d + 1 + k as int]);
                }
                if !('0' <= c && c <= '9') {
                    proof {
                        assert(!all_digits(fp)) by {
                            assert(!is_digit(fp[k as int]));
                        }
                    }
                    return None;
                }
                if k < 3 {
                    facc = facc * 10 + ((c as u32 - 48) as u64);
                    proof {
                        let kk = k as int;
                        assert(fp.take(kk + 1).drop_last() =~= fp.take(kk));
                        assert(fp.take(kk + 1).last() == fp[kk]);
                        assert(all_digits(fp.take(kk)));
                        lemma_digits_val_bound(fp.take(kk + 1));
                        reveal_with_fuel(pow10, 4);
                    }
                }
                proof {
                    assert(fp.take(k + 1 as int).drop_last() =~= fp.take(k as int));
                    assert(all_digits(fp.take(k + 1 as int)));
                }
                k = k + 1;
            }
            let frac3: u64 = if flen >= 3 {
                facc
            } else if flen == 2 {
                facc * 10
            } else if flen == 1 {
                facc * 100
            } else {
                0
            };
            proof {
                assert(fp.take(fp.len() as int) =~= fp);
                lemma_digits_val_bound(fp.take(if flen < 3 { flen as int } else { 3 }));
                if flen >= 3 {
                    assert(frac3 == frac_thousandths(fp));
                } else {
                    reveal_with_fuel(pow10, 4);
                    assert(frac3 == frac_thousandths(fp));
                }
                assert(s@.subrange(0, d as int) =~= s@.take(d as int));
                lemma_digits_val_bound(s@.take(d as int));
                lemma_pow10_increases(d as nat, 15);
                reveal_with_fuel(pow10, 16);
            }
            Some(ip_acc * 1000 + frac3)
        },
    }
}

/// Reads the digits of `s` between `from` and `to`, or `None` at the first
/// non-digit. At most fifteen digits, so the value stays well inside `u64`.
fn accumulate_digits(s: &str, from: usize, to: usize) -> (r: Option<u64>)
    requires
        from <= to <= s@.len(),
        to - from <= 15,
    ensures
        (match r {
            Some(v) => all_digits(s@.subrange(from as int, to as int)) && v == digits_val(
                s@.subrange(from as int, to as int),
            ) && v < pow10((to - from) as nat),
            None => !all_digits(s@.subrange(from as int, to as int)),
        }),
{
    let ghost part = s@.subrange(from as int, to as int);
    let mut acc: u64 = 0;
    let mut j: usize = from;
    while j < to
        invariant
            from <= j <= to <= s@.len(),
            to - from <= 15,
            part == s@.subrange(from as int, to as int),
            all_digits(part.take(j - from)),
            acc == digits_val(part.take(j - from)),
            acc < pow10((j - from) as nat),
        decreases to - j,
    {
        let c = s.get_char(j);
        proof {
            assert(part[j - from] == s@[j as int]);
        }
        if !('0' <= c && c <= '9') {
            proof {
                assert(!all_digits(part)) by {
                    assert(!is_digit(part[j - from]));
                }
            }
            return None;
        }
        proof {
            lemma_pow10_increases((j - from) as nat, 14);
            reveal_with_fuel(pow10, 16);
            assert(part.take(j - from + 1).drop_last() =~= part.take(j - from));
            assert(part.take(j - from + 1).last() == part[j - from]);
            assert(all_digits(part.take(j - from + 1)));
        }
        acc = acc * 10 + ((c as u32 - 48) as u64);
        j = j + 1;
    }
    proof {
        assert(part.take(to - from) =~= part);
    }
    Some(acc)
}

} // verus!
