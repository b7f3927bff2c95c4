//! Item-line classification: an item passes when it carries the `=>`
//! separator; the annotated line keeps only the text before the separator
//! and appends a visible pass or fail marker.

use vstd::prelude::*;
use crate::text::{contains_seq, contains_sub, find_from, find_sub, lemma_find_from_some, push_all, subvec};

verus! {

/// Pass/fail classification of one item line.
#[derive(PartialEq, Eq, Structural, Clone, Copy, Debug)]
pub enum Outcome {
    Pass,
    Fail,
}

/// The separator token `=>`: its presence makes an item pass.
pub open spec fn sep_token() -> Seq<u8> {
    seq![61, 62]
}

/// The item-line marker: a bullet with an inline code opener.
pub open spec fn item_marker() -> Seq<u8> {
    seq![42, 32, 96]
}

/// The visible marker appended to a passing item line.
pub open spec fn pass_suffix() -> Seq<u8> {
    seq![
        32, 58, 104, 101, 97, 118, 121, 95, 99, 104, 101, 99, 107, 95,
        109, 97, 114, 107, 58, 10,
    ]
}

/// The visible marker appended to a failing item line.
pub open spec fn fail_suffix() -> Seq<u8> {
    seq![32, 58, 114, 101, 100, 95, 99, 105, 114, 99, 108, 101, 58, 10]
}

/// A line is an item line when it carries the item marker anywhere.
pub open spec fn spec_is_item_line(line: Seq<u8>) -> bool {
    contains_seq(line, item_marker())
}

/// The outcome of one item line: `Pass` exactly when the separator occurs.
pub open spec fn item_outcome(line: Seq<u8>) -> Outcome {
    if contains_seq(line, sep_token()) {
        Outcome::Pass
    } else {
        Outcome::Fail
    }
}

/// The annotated form of one item line: a passing line is cut at the first
/// separator and marked as passing; a failing line is kept whole and marked
/// as failing.
pub open spec fn annotated_line(line: Seq<u8>) -> Seq<u8> {
    match find_from(line, sep_token(), 0) {
        Some(i) => line.subrange(0, i) + pass_suffix(),
        None => line + fail_suffix(),
    }
}

pub(crate) fn sep_token_vec() -> (r: Vec<u8>)
    ensures
        r@ == sep_token(),
{
    let mut v: Vec<u8> = Vec::new();
    v.push(61);
    v.push(62);
    proof {
        assert(v@ =~= sep_token());
    }
    v
}

pub(crate) fn item_marker_vec() -> (r: Vec<u8>)
    ensures
        r@ == item_marker(),
{
    let mut v: Vec<u8> = Vec::new();
    v.push(42);
    v.push(32);
    v.push(96);
    proof {
        assert(v@ =~= item_marker());
    }
    v
}

pub(crate) fn pass_suffix_vec() -> (r: Vec<u8>)
    ensures
        r@ == pass_suffix(),
{
    let mut v: Vec<u8> = Vec::new();
    v.push(32);
    v.push(58);
    v.push(104);
    v.push(101);
    v.push(97);
    v.push(118);
    v.push(121);
    v.push(95);
    v.push(99);
    v.push(104);
    v.push(101);
    v.push(99);
    v.push(107);
    v.push(95);
    v.push(109);
    v.push(97);
    v.push(114);
    v.push(107);
    v.push(58);
    v.push(10);
    proof {
        assert(v@ =~= pass_suffix());
    }
    v
}

pub(crate) fn fail_suffix_vec() -> (r: Vec<u8>)
    ensures
        r@ == fail_suffix(),
{
    let mut v: Vec<u8> = Vec::new();
    v.push(32);
    v.push(58);
    v.push(114);
    v.push(101);
    v.push(100);
    v.push(95);
    v.push(99);
    v.push(105);
    v.push(114);
    v.push(99);
    v.push(108);
    v.push(101);
    v.push(58);
    v.push(10);
    proof {
        assert(v@ =~= fail_suffix());
    }
    v
}

/// Whether `line` is an item line (it carries the item marker).
pub fn is_item_line(line: &Vec<u8>) -> (r: bool)
    ensures
        r == spec_is_item_line(line@),
{
    let marker = item_marker_vec();
    contains_sub(line, &marker)
}

/// Classifies one item line and builds its annotated form.
pub fn classify_line(line: &Vec<u8>) -> (r: (Vec<u8>, Outcome))
    ensures
        r.0@ == annotated_line(line@),
        r.1 == item_outcome(line@),
{
    let sep = sep_token_vec();
    match find_sub(line, &sep) {
        Some(i) => {
            proof {
                lemma_find_from_some(line@, sep_token(), 0, i as int);
            }
            let mut out = subvec(line, 0, i);
            let suffix = pass_suffix_vec();
            push_all(&mut out, &suffix);
            (out, Outcome::Pass)
        },
        None => {
            let mut out = subvec(line, 0, line.len());
            proof {
                assert(line@.subrange(0, line@.len() as int) =~= line@);
            }
            let suffix = fail_suffix_vec();
            push_all(&mut out, &suffix);
            (out, Outcome::Fail)
        },
    }
}

/// Classification is deterministic: the outcome and the annotated line are
/// functions of the raw line alone, so re-running classification on the same
/// raw line always yields the same outcome.
pub proof fn lemma_classification_deterministic(a: Seq<u8>, b: Seq<u8>)
    requires
        a == b,
    ensures
        item_outcome(a) == item_outcome(b),
        annotated_line(a) == annotated_line(b),
{
}

} // verus!
