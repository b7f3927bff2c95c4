//! Run configuration helpers: recognizing a test-document path and building
//! the timestamped name of the report file.

use vstd::prelude::*;
use chrono::{Datelike, Timelike};
use crate::text::{contains_seq, contains_sub, matches_at, matches_here, push_all, subvec};

verus! {

/// The suffix that marks a test document's name: `t.md`.
pub open spec fn test_suffix() -> Seq<u8> {
    seq![116, 46, 109, 100]
}

/// The suffix given to the report document's name: `r.md`.
pub open spec fn report_suffix() -> Seq<u8> {
    seq![114, 46, 109, 100]
}

/// The last path component: everything after the final slash.
pub open spec fn spec_basename(p: Seq<u8>) -> Seq<u8>
    decreases p.len(),
{
    if p.len() == 0 {
        p
    } else if p.last() == 47 {
        Seq::empty()
    } else {
        spec_basename(p.drop_last()).push(p.last())
    }
}

/// A path names a test document when its last component carries the test
/// suffix.
pub open spec fn spec_is_test_file(path: Seq<u8>) -> bool {
    contains_seq(spec_basename(path), test_suffix())
}

/// Past the last slash, the basename is the remaining suffix of the path.
proof fn lemma_basename_suffix(p: Seq<u8>, i: int)
    requires
        0 <= i <= p.len(),
        forall|k: int| i <= k < p.len() ==> p[k] != 47,
        i == 0 || p[i - 1] == 47,
    ensures
        spec_basename(p) == p.subrange(i, p.len() as int),
    decreases p.len(),
{
    if p.len() == 0 {
        assert(p.subrange(0, 0) =~= p);
    } else if p.last() == 47 {
        assert(i == p.len());
        assert(p.subrange(i, p.len() as int) =~= Seq::<u8>::empty());
    } else {
        assert(i < p.len());
        assert(forall|k: int| i <= k < p.drop_last().len() ==> p.drop_last()[k] != 47);
        lemma_basename_suffix(p.drop_last(), i);
        assert(p.drop_last().subrange(i, p.len() - 1).push(p.last())
            =~= p.subrange(i, p.len() as int));
    }
}

/// The last path component, exactly as `spec_basename`.
pub fn basename(p: &Vec<u8>) -> (r: Vec<u8>)
    ensures
        r@ == spec_basename(p@),
{
    let mut i: usize = p.len();
    while i > 0 && p[i - 1] != 47
        invariant
            i <= p.len(),
            forall|k: int| i <= k < p@.len() ==> p@[k] != 47,
        decreases i,
    {
        i -= 1;
    }
    proof {
        lemma_basename_suffix(p@, i as int);
    }
    subvec(p, i, p.len())
}

pub(crate) fn test_suffix_vec() -> (r: Vec<u8>)
    ensures
        r@ == test_suffix(),
{
    let mut v: Vec<u8> = Vec::new();
    v.push(116);
    v.push(46);
    v.push(109);
    v.push(100);
    proof {
        assert(v@ =~= test_suffix());
    }
    v
}

pub(crate) fn report_suffix_vec() -> (r: Vec<u8>)
    ensures
        r@ == report_suffix(),
{
    let mut v: Vec<u8> = Vec::new();
    v.push(114);
    v.push(46);
    v.push(109);
    v.push(100);
    proof {
        assert(v@ =~= report_suffix());
    }
    v
}

/// Whether `path` names a test document. A run on any other path is
/// rejected before the document is even read.
pub fn is_test_file_path(path: &Vec<u8>) -> (r: bool)
    ensures
        r == spec_is_test_file(path@),
{
    let base = basename(path);
    let suffix = test_suffix_vec();
    contains_sub(&base, &suffix)
}

/// `s` with every occurrence of the test suffix rewritten to the report
/// suffix, scanned left to right without overlap.
pub open spec fn spec_replace_suffix(s: Seq<u8>) -> Seq<u8>
    decreases s.len(),
{
    if s.len() < 4 {
        s
    } else if matches_at(s, test_suffix(), 0) {
        report_suffix() + spec_replace_suffix(s.skip(4))
    } else {
        seq![s.first()] + spec_replace_suffix(s.drop_first())
    }
}

/// Rewrites every test suffix of `s` to the report suffix, exactly as
/// `spec_replace_suffix`.
pub fn replace_test_suffix(s: &Vec<u8>) -> (r: Vec<u8>)
    ensures
        r@ == spec_replace_suffix(s@),
    decreases s@.len(),
{
    if s.len() < 4 {
        let r = subvec(s, 0, s.len());
        proof {
            assert(s@.subrange(0, s@.len() as int) =~= s@);
        }
        return r;
    }
    let suffix = test_suffix_vec();
    if matches_here(s, &suffix, 0) {
        let mut out = report_suffix_vec();
        let rest = subvec(s, 4, s.len());
        proof {
            assert(rest@ =~= s@.skip(4));
        }
        let tail = replace_test_suffix(&rest);
        push_all(&mut out, &tail);
        out
    } else {
        let mut out: Vec<u8> = Vec::new();
        out.push(s[0]);
        let rest = subvec(s, 1, s.len());
        proof {
            assert(rest@ =~= s@.drop_first());
        }
        let tail = replace_test_suffix(&rest);
        push_all(&mut out, &tail);
        proof {
            assert(out@ =~= seq![s@.first()] + spec_replace_suffix(s@.drop_first()));
        }
        out
    }
}

/// The decimal digits of `n`, most significant first.
pub open spec fn dec_digits(n: nat) -> Seq<u8>
    decreases n,
{
    if n < 10 {
        seq![(48 + n) as u8]
    } else {
        dec_digits(n / 10).push((48 + n % 10) as u8)
    }
}

/// The decimal digits of `n` with a leading sign when `n` is negative.
pub open spec fn dec_signed(n: int) -> Seq<u8> {
    if n < 0 {
        seq![45u8] + dec_digits((-n) as nat)
    } else {
        dec_digits(n as nat)
    }
}

/// The decimal digits of `n`, padded with a leading zero to two places.
pub open spec fn dec_pad2(n: nat) -> Seq<u8> {
    if n < 10 {
        seq![48u8] + dec_digits(n)
    } else {
        dec_digits(n)
    }
}

/// Appends the decimal digits of `n` to `out`.
fn push_decimal(out: &mut Vec<u8>, n: u64)
    ensures
        final(out)@ == old(out)@ + dec_digits(n as nat),
    decreases n,
{
    if n < 10 {
        out.push(48 + n as u8);
        proof {
            assert(old(out)@ + dec_digits(n as nat) =~= old(out)@.push((48 + n) as u8));
        }
    } else {
        assert(n / 10 < n);
        push_decimal(out, n / 10);
        out.push(48 + (n % 10) as u8);
        proof {
            assert(old(out)@ + dec_digits(n as nat)
                =~= (old(out)@ + dec_digits((n / 10) as nat)).push((48 + n % 10) as u8));
        }
    }
}

/// The report file's name: the timestamp `year-month-day-hhminsec-`, then
/// the source name with its test suffix rewritten to the report suffix.
pub open spec fn spec_report_name(
    year: int,
    month: int,
    day: int,
    hour: int,
    minute: int,
    second: int,
    source: Seq<u8>,
) -> Seq<u8>
    recommends
        0 <= month,
        0 <= day,
        0 <= hour,
        0 <= minute,
        0 <= second,
{
    dec_signed(year) + seq![45u8] + dec_digits(month as nat) + seq![45u8]
        + dec_digits(day as nat) + seq![45u8] + dec_pad2(hour as nat)
        + dec_digits(minute as nat) + dec_digits(second as nat) + seq![45u8]
        + spec_replace_suffix(source)
}

/// Builds the report file name from the given timestamp and source name,
/// exactly as `spec_report_name`.
pub fn report_file_name(
    year: i32,
    month: u32,
    day: u32,
    hour: u32,
    minute: u32,
    second: u32,
    source: &Vec<u8>,
) -> (r: Vec<u8>)
    ensures
        r@ == spec_report_name(
            year as int,
            month as int,
            day as int,
            hour as int,
            minute as int,
            second as int,
            source@,
        ),
{
    let mut out: Vec<u8> = Vec::new();
    if year < 0 {
        out.push(45);
        let mag: u64 = (-(year as i64)) as u64;
        push_decimal(&mut out, mag);
    } else {
        push_decimal(&mut out, year as u64);
    }
    out.push(45);
    push_decimal(&mut out, month as u64);
    out.push(45);
    push_decimal(&mut out, day as u64);
    out.push(45);
    if hour < 10 {
        out.push(48);
    }
    push_decimal(&mut out, hour as u64);
    push_decimal(&mut out, minute as u64);
    push_decimal(&mut out, second as u64);
    out.push(45);
    let rewritten = replace_test_suffix(source);
    push_all(&mut out, &rewritten);
    proof {
        assert(out@ =~= spec_report_name(
            year as int,
            month as int,
            day as int,
            hour as int,
            minute as int,
            second as int,
            source@,
        ));
    }
    out
}

/// Relies on chrono's `Utc::now` and its `Datelike` and `Timelike`
/// accessors for the current UTC calendar date and clock time. Each field
/// lies in its documented range (month 1-12, day 1-31, hour 0-23, minute
/// and second 0-59); the values themselves depend on the clock, so nothing
/// more is promised of them. `Utc::now` itself panics on a system clock
/// set before the Unix epoch or beyond chrono's date range; chrono offers
/// no panic-free clock read, and no `requires` can exclude a clock state.
#[verifier::external_body]
fn current_utc_parts() -> (r: (i32, u32, u32, u32, u32, u32))
    ensures
        1 <= r.1 <= 12,
        1 <= r.2 <= 31,
        r.3 < 24,
        r.4 < 60,
        r.5 < 60,
{
    let now = chrono::Utc::now();
    (now.year(), now.month(), now.day(), now.hour(), now.minute(), now.second())
}

/// The report file name for a run started now: some in-range UTC timestamp
/// taken from the clock, then the rewritten source name.
pub fn default_report_name(source: &Vec<u8>) -> (r: Vec<u8>)
    ensures
        exists|y: int, mo: int, d: int, h: int, mi: int, s: int|
            1 <= mo <= 12 && 1 <= d <= 31 && 0 <= h < 24 && 0 <= mi < 60 && 0 <= s < 60
                && r@ == #[trigger] spec_report_name(y, mo, d, h, mi, s, source@),
{
    let (y, mo, d, h, mi, s) = current_utc_parts();
    let r = report_file_name(y, mo, d, h, mi, s, source);
    proof {
        assert(r@ == spec_report_name(
            y as int,
            mo as int,
            d as int,
            h as int,
            mi as int,
            s as int,
            source@,
        ));
    }
    r
}

} // verus!
