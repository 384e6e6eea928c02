//! The compact duration grammar of the command line: `<N>d<N>h`, either
//! component optional but not both absent, days worth eight hours each.
//! Characters after the recognized prefix are ignored, as they always
//! were.

use vstd::prelude::*;
use crate::date::is_digit;
use crate::date::digit_val;

verus! {

/// Saturation bound for digit accumulation: one past `i32::MAX`, so a
/// capped value is known to be too large for the result type.
pub const CAP: u64 = 0x8000_0000;

/// The length of the run of decimal digit characters that starts the
/// string.
pub open spec fn digits_prefix_len(s: Seq<char>) -> int
    decreases s.len(),
{
    if s.len() == 0 || !is_digit(s[0]) {
        0
    } else {
        1 + digits_prefix_len(s.skip(1))
    }
}

/// The number a run of decimal digit characters denotes.
pub open spec fn dec_val(s: Seq<char>) -> int
    decreases s.len(),
{
    if s.len() == 0 {
        0
    } else {
        10 * dec_val(s.drop_last()) + digit_val(s.last())
    }
}

/// A prefix of a digit run denotes a non-negative number.
pub proof fn lemma_dec_val_take_nonneg(s: Seq<char>, n: int)
    requires
        forall|i: int| 0 <= i < s.len() ==> is_digit(#[trigger] s[i]),
        0 <= n <= s.len(),
    ensures
        dec_val(s.take(n)) >= 0,
    decreases n,
{
    if n > 0 {
        assert(s.take(n).drop_last() =~= s.take(n - 1));
        lemma_dec_val_take_nonneg(s, n - 1);
    }
}

/// A prefix of a digit run denotes no more than the whole run.
pub proof fn lemma_dec_val_take_le(s: Seq<char>, n: int)
    requires
        forall|i: int| 0 <= i < s.len() ==> is_digit(#[trigger] s[i]),
        0 <= n <= s.len(),
    ensures
        dec_val(s.take(n)) <= dec_val(s),
    decreases s.len() - n,
{
    if n < s.len() {
        assert(s.take(n + 1).drop_last() =~= s.take(n));
        lemma_dec_val_take_nonneg(s, n);
        lemma_dec_val_take_le(s, n + 1);
    } else {
        assert(s.take(n) =~= s);
    }
}

/// What the duration grammar makes of a string: an optional run of digits
/// followed by `d` (days), then an optional run of digits followed by `h`
/// (hours), read from the start; `None` when neither component is present.
/// The value is in hours, a day counting as eight.
pub open spec fn spec_parse_duration(s: Seq<char>) -> Option<int> {
    let dl = digits_prefix_len(s);
    let has_days = dl >= 1 && dl < s.len() && s[dl] == 'd';
    let rest = if has_days {
        s.skip(dl + 1)
    } else {
        s
    };
    let hl = digits_prefix_len(rest);
    let has_hours = hl >= 1 && hl < rest.len() && rest[hl] == 'h';
    if !has_days && !has_hours {
        None
    } else {
        let days = if has_days {
            dec_val(s.take(dl))
        } else {
            0
        };
        let hours = if has_hours {
            dec_val(rest.take(hl))
        } else {
            0
        };
        Some(8 * days + hours)
    }
}

/// A digit run is determined by its characters: `n` digits followed by the
/// string's end or a non-digit make the prefix length exactly `n`.
proof fn lemma_digits_prefix_len_is(t: Seq<char>, n: int)
    requires
        0 <= n <= t.len(),
        forall|k: int| 0 <= k < n ==> is_digit(#[trigger] t[k]),
        n == t.len() || !is_digit(t[n]),
    ensures
        digits_prefix_len(t) == n,
    decreases t.len(),
{
    if t.len() == 0 {
    } else if !is_digit(t[0]) {
        assert(n == 0);
    } else {
        assert(is_digit(t[0]));
        assert(n >= 1);
        let u = t.skip(1);
        assert forall|k: int| 0 <= k < n - 1 implies is_digit(#[trigger] u[k]) by {
            assert(u[k] == t[k + 1]);
        }
        if n < t.len() {
            assert(u[n - 1] == t[n]);
        }
        lemma_digits_prefix_len_is(u, n - 1);
    }
}

/// The capped value the scanner keeps: the true value, or `CAP` once the
/// true value reaches it.
pub open spec fn min_cap(v: int) -> int {
    if v < CAP {
        v
    } else {
        CAP as int
    }
}

/// Scans the run of digits in `s` that starts at `from`, returning its
/// length and its value saturated at [`CAP`].
fn scan_digits(s: &str, from: usize) -> (r: (usize, u64))
    requires
        from <= s@.len(),
    ensures
        ({
            let t = s@.skip(from as int);
            &&& r.0 == digits_prefix_len(t)
            &&& from + r.0 <= s@.len()
            &&& r.1 == min_cap(dec_val(t.take(r.0 as int)))
        }),
{
    let n = s.unicode_len();
    let mut i: usize = from;
    let mut acc: u64 = 0;
    loop
        invariant
            from <= i <= n,
            n == s@.len(),
            forall|k: int| from <= k < i ==> is_digit(#[trigger] s@[k]),
            acc == min_cap(dec_val(s@.subrange(from as int, i as int))),
            acc <= CAP,
        ensures
            from <= i <= n,
            n == s@.len(),
            forall|k: int| from <= k < i ==> is_digit(#[trigger] s@[k]),
            acc == min_cap(dec_val(s@.subrange(from as int, i as int))),
            i == n || !is_digit(s@[i as int]),
        decreases n - i,
    {
        if i >= n {
            break ;
        }
        let c = s.get_char(i);
        let u = c as u32;
        if !(48 <= u && u <= 57) {
            break ;
        }
        let dv = (u - 48) as u64;
        proof {
            let old_run = s@.subrange(from as int, i as int);
            let new_run = s@.subrange(from as int, i + 1 as int);
            assert(new_run.drop_last() =~= old_run);
            assert(new_run.last() == s@[i as int]);
            assert(dec_val(new_run) == 10 * dec_val(old_run) + digit_val(s@[i as int]));
        }
        let next = 10 * acc + dv;
        acc = if next >= CAP {
            CAP
        } else {
            next
        };
        i = i + 1;
    }
    proof {
        let t = s@.skip(from as int);
        assert forall|k: int| 0 <= k < i - from implies is_digit(#[trigger] t[k]) by {
            assert(t[k] == s@[k + from]);
        }
        if i < n {
            assert(t[i - from] == s@[i as int]);
        }
        lemma_digits_prefix_len_is(t, i - from);
        assert(t.take(i - from) =~= s@.subrange(from as int, i as int));
    }
    (i - from, acc)
}

/// Reads a compact duration such as `8d4h`, `3d` or `2h` into a number of
/// hours, a day counting as eight. Returns `None` when neither component
/// is present, and also when the denoted value does not fit the result
/// type.
pub fn parse_time_duration(time: &str) -> (r: Option<i32>)
    ensures
        ({
            let p = spec_parse_duration(time@);
            match r {
                Some(v) => p == Some(v as int),
                None => p is None || (p matches Some(w) && w > i32::MAX),
            }
        }),
{
    let n = time.unicode_len();
    let (dl, dacc) = scan_digits(time, 0);
    proof {
        assert(time@.skip(0) =~= time@);
        assert(time@.skip(0).take(dl as int) =~= time@.take(dl as int));
    }
    let has_days = dl >= 1 && dl < n && time.get_char(dl) == 'd';
    let hstart = if has_days {
        dl + 1
    } else {
        0
    };
    let (hl, hacc) = scan_digits(time, hstart);
    proof {
        let rest = if has_days {
            time@.skip(dl + 1)
        } else {
            time@
        };
        assert(rest =~= time@.skip(hstart as int));
    }
    let has_hours = hl >= 1 && hstart + hl < n && time.get_char(hstart + hl) == 'h';
    if !has_days && !has_hours {
        return None;
    }
    let days: u64 = if has_days {
        dacc
    } else {
        0
    };
    let hours: u64 = if has_hours {
        hacc
    } else {
        0
    };
    let total = 8 * days + hours;
    if total > i32::MAX as u64 {
        proof {
            let p = spec_parse_duration(time@);
            let rest = if has_days {
                time@.skip(dl + 1)
            } else {
                time@
            };
            let true_days: int = if has_days {
                dec_val(time@.take(dl as int))
            } else {
                0
            };
            let true_hours: int = if has_hours {
                dec_val(rest.take(hl as int))
            } else {
                0
            };
            assert(days <= true_days && hours <= true_hours);
            assert(p == Some(8 * true_days + true_hours));
        }
        None
    } else {
        proof {
            assert(days < CAP && hours < CAP);
        }
        Some(total as i32)
    }
}

/// Splits a non-negative hour total into whole working days of eight
/// hours and hours left over.
pub fn days_and_hours(total: i32) -> (r: (i32, i32))
    requires
        total >= 0,
    ensures
        r.0 == total as int / 8,
        r.1 == total as int % 8,
        total == 8 * r.0 + r.1,
{
    (total / 8, total % 8)
}

} // verus!
