//! Section processing: extract the item lines of one section body, classify
//! each, decide the section verdict, and render the annotated section.

use vstd::prelude::*;
use crate::classify::{
    Outcome, annotated_line, classify_line, is_item_line, item_outcome, spec_is_item_line,
};
use crate::text::{push_all, spec_lines, split_lines, subvec, views_of};

verus! {

/// Aggregated pass/fail classification of one section.
#[derive(PartialEq, Eq, Structural, Clone, Copy, Debug)]
pub enum Verdict {
    Success,
    Failure,
}

/// The label opening a succeeding section's verdict line: `* [success] `.
pub open spec fn success_label() -> Seq<u8> {
    seq![42, 32, 91, 115, 117, 99, 99, 101, 115, 115, 93, 32]
}

/// The label opening a failing section's verdict line: `* [fail] `.
pub open spec fn failure_label() -> Seq<u8> {
    seq![42, 32, 91, 102, 97, 105, 108, 93, 32]
}

pub open spec fn verdict_label(v: Verdict) -> Seq<u8> {
    match v {
        Verdict::Success => success_label(),
        Verdict::Failure => failure_label(),
    }
}

/// The first line of a section body: its header.
pub open spec fn section_header(body: Seq<u8>) -> Seq<u8> {
    let ls = spec_lines(body);
    if ls.len() == 0 {
        Seq::empty()
    } else {
        ls[0]
    }
}

/// The item lines among `lines`, in order.
pub open spec fn items_of(lines: Seq<Seq<u8>>) -> Seq<Seq<u8>>
    decreases lines.len(),
{
    if lines.len() == 0 {
        Seq::empty()
    } else if spec_is_item_line(lines[0]) {
        seq![lines[0]] + items_of(lines.drop_first())
    } else {
        items_of(lines.drop_first())
    }
}

/// The item lines of a section body: the lines after the header that carry
/// the item marker.
pub open spec fn section_items(body: Seq<u8>) -> Seq<Seq<u8>> {
    let ls = spec_lines(body);
    if ls.len() == 0 {
        Seq::empty()
    } else {
        items_of(ls.drop_first())
    }
}

/// Every item among `items` passes.
pub open spec fn all_pass(items: Seq<Seq<u8>>) -> bool {
    forall|i: int| 0 <= i < items.len() ==> item_outcome(items[i]) == Outcome::Pass
}

/// The verdict of a section body: success exactly when it has at least one
/// item and every item passes.
pub open spec fn section_verdict(body: Seq<u8>) -> Verdict {
    if section_items(body).len() > 0 && all_pass(section_items(body)) {
        Verdict::Success
    } else {
        Verdict::Failure
    }
}

/// The header with the bare section marker characters removed.
pub open spec fn strip_markers(s: Seq<u8>) -> Seq<u8>
    decreases s.len(),
{
    if s.len() == 0 {
        Seq::empty()
    } else if s[0] == 42 {
        strip_markers(s.drop_first())
    } else {
        seq![s[0]] + strip_markers(s.drop_first())
    }
}

/// The annotated forms of `items`, concatenated.
pub open spec fn rendered_items(items: Seq<Seq<u8>>) -> Seq<u8>
    decreases items.len(),
{
    if items.len() == 0 {
        Seq::empty()
    } else {
        annotated_line(items[0]) + rendered_items(items.drop_first())
    }
}

/// The annotated form of each item of a section body, in order.
pub open spec fn annotated_items(body: Seq<u8>) -> Seq<Seq<u8>> {
    section_items(body).map_values(|l: Seq<u8>| annotated_line(l))
}

/// The annotated section: a verdict line built from the stripped header,
/// then the annotated item lines.
pub open spec fn section_output(body: Seq<u8>) -> Seq<u8> {
    verdict_label(section_verdict(body)) + strip_markers(section_header(body)) + seq![10u8]
        + rendered_items(section_items(body))
}

proof fn lemma_rendered_items_push(items: Seq<Seq<u8>>, x: Seq<u8>)
    ensures
        rendered_items(items.push(x)) == rendered_items(items) + annotated_line(x),
    decreases items.len(),
{
    if items.len() == 0 {
        assert(items.push(x)[0] == x);
        assert(items.push(x).drop_first() =~= Seq::<Seq<u8>>::empty());
        assert(rendered_items(items.push(x))
            == annotated_line(x) + rendered_items(Seq::<Seq<u8>>::empty()));
        assert(annotated_line(x) + Seq::<u8>::empty() =~= annotated_line(x));
        assert(Seq::<u8>::empty() + annotated_line(x) =~= annotated_line(x));
    } else {
        assert(items.push(x)[0] == items[0]);
        assert(items.push(x).drop_first() =~= items.drop_first().push(x));
        lemma_rendered_items_push(items.drop_first(), x);
        assert(annotated_line(items[0])
            + (rendered_items(items.drop_first()) + annotated_line(x))
            =~= (annotated_line(items[0]) + rendered_items(items.drop_first()))
                + annotated_line(x));
    }
}

pub(crate) fn success_label_vec() -> (r: Vec<u8>)
    ensures
        r@ == success_label(),
{
    let mut v: Vec<u8> = Vec::new();
    v.push(42);
    v.push(32);
    v.push(91);
    v.push(115);
    v.push(117);
    v.push(99);
    v.push(99);
    v.push(101);
    v.push(115);
    v.push(115);
    v.push(93);
    v.push(32);
    proof {
        assert(v@ =~= success_label());
    }
    v
}

pub(crate) fn failure_label_vec() -> (r: Vec<u8>)
    ensures
        r@ == failure_label(),
{
    let mut v: Vec<u8> = Vec::new();
    v.push(42);
    v.push(32);
    v.push(91);
    v.push(102);
    v.push(97);
    v.push(105);
    v.push(108);
    v.push(93);
    v.push(32);
    proof {
        assert(v@ =~= failure_label());
    }
    v
}

/// Removes every section marker byte of the header.
fn strip_markers_vec(h: &Vec<u8>) -> (r: Vec<u8>)
    ensures
        r@ == strip_markers(h@),
{
    let mut r: Vec<u8> = Vec::new();
    let mut j: usize = 0;
    proof {
        assert(h@.subrange(0, h@.len() as int) =~= h@);
        assert(r@ + strip_markers(h@) =~= strip_markers(h@));
    }
    while j < h.len()
        invariant
            j <= h.len(),
            r@ + strip_markers(h@.subrange(j as int, h@.len() as int)) == strip_markers(h@),
        decreases h.len() - j,
    {
        let ghost rest = h@.subrange(j as int, h@.len() as int);
        proof {
            assert(rest[0] == h@[j as int]);
            assert(rest.drop_first() =~= h@.subrange(j as int + 1, h@.len() as int));
        }
        let b = h[j];
        if b != 42 {
            proof {
                assert(r@.push(b) + strip_markers(rest.drop_first())
                    =~= r@ + (seq![b] + strip_markers(rest.drop_first())));
            }
            r.push(b);
        }
        j += 1;
    }
    proof {
        assert(h@.subrange(h@.len() as int, h@.len() as int) =~= Seq::<u8>::empty());
        assert(r@ + Seq::<u8>::empty() =~= r@);
    }
    r
}

/// One section, classified and rendered.
pub struct SectionReport {
    /// The section's header line, as it stood in the document.
    pub header: Vec<u8>,
    /// The annotated item lines, in order.
    pub item_lines: Vec<Vec<u8>>,
    /// The section verdict.
    pub verdict: Verdict,
    /// The annotated section text.
    pub rendered: Vec<u8>,
}

/// Classifies the items of one section body and renders the annotated
/// section.
pub fn process_section(body: &Vec<u8>) -> (r: SectionReport)
    ensures
        r.header@ == section_header(body@),
        views_of(r.item_lines@) == annotated_items(body@),
        r.verdict == section_verdict(body@),
        r.rendered@ == section_output(body@),
{
    let lines = split_lines(body);
    let ghost ls = views_of(lines@);

    if lines.len() == 0 {
        let mut rendered = failure_label_vec();
        rendered.push(10);
        proof {
            assert(views_of(Seq::<Vec<u8>>::empty()) =~= Seq::<Seq<u8>>::empty());
            assert(annotated_items(body@) =~= Seq::<Seq<u8>>::empty());
            assert(strip_markers(Seq::<u8>::empty()) =~= Seq::<u8>::empty());
            assert(rendered@ =~= section_output(body@));
        }
        return SectionReport {
            header: Vec::new(),
            item_lines: Vec::new(),
            verdict: Verdict::Failure,
            rendered,
        };
    }

    let header = subvec(&lines[0], 0, lines[0].len());
    proof {
        assert(header@ =~= ls[0]);
    }

    let mut item_lines: Vec<Vec<u8>> = Vec::new();
    let mut items_text: Vec<u8> = Vec::new();
    let ghost mut items_seq: Seq<Seq<u8>> = Seq::empty();
    let mut any_item: bool = false;
    let mut all_ok: bool = true;

    proof {
        assert(ls.skip(1) =~= ls.drop_first());
        assert(items_seq + items_of(ls.skip(1)) =~= items_of(ls.skip(1)));
        assert(views_of(item_lines@) =~= items_seq.map_values(|l: Seq<u8>| annotated_line(l)));
    }

    let mut k: usize = 1;
    while k < lines.len()
        invariant
            1 <= k <= lines.len(),
            ls == views_of(lines@),
            ls.len() == lines.len(),
            items_of(ls.drop_first()) == items_seq + items_of(ls.skip(k as int)),
            views_of(item_lines@) == items_seq.map_values(|l: Seq<u8>| annotated_line(l)),
            items_text@ == rendered_items(items_seq),
            any_item == (items_seq.len() > 0),
            all_ok == all_pass(items_seq),
        decreases lines.len() - k,
    {
        let ghost rest = ls.skip(k as int);
        proof {
            assert(rest[0] == ls[k as int]);
            assert(rest.drop_first() =~= ls.skip(k as int + 1));
        }
        let line = &lines[k];
        if is_item_line(line) {
            let (ann, oc) = classify_line(line);
            push_all(&mut items_text, &ann);
            proof {
                lemma_rendered_items_push(items_seq, line@);
                crate::text::lemma_views_push(item_lines@, ann);
                assert(items_seq.push(line@).map_values(|l: Seq<u8>| annotated_line(l))
                    =~= items_seq.map_values(|l: Seq<u8>| annotated_line(l)).push(ann@));
                assert(items_seq.push(line@) + items_of(ls.skip(k as int + 1))
                    =~= items_seq + (seq![line@] + items_of(ls.skip(k as int + 1))));
            }
            item_lines.push(ann);
            if oc == Outcome::Fail {
                all_ok = false;
            }
            proof {
                let prev = items_seq;
                items_seq = prev.push(line@);
                if all_ok {
                    assert(item_outcome(line@) == Outcome::Pass);
                    assert forall|i: int| 0 <= i < items_seq.len()
                        implies item_outcome(#[trigger] items_seq[i]) == Outcome::Pass by {
                        if i < prev.len() {
                            assert(items_seq[i] == prev[i]);
                        } else {
                            assert(items_seq[i] == line@);
                        }
                    }
                    assert(all_pass(items_seq));
                } else {
                    if all_pass(prev) {
                        assert(item_outcome(line@) == Outcome::Fail);
                        assert(items_seq[items_seq.len() - 1] == line@);
                        assert(!all_pass(items_seq));
                    } else {
                        let j = choose|j: int|
                            !(0 <= j < prev.len() ==> item_outcome(prev[j]) == Outcome::Pass);
                        assert(items_seq[j] == prev[j]);
                        assert(!all_pass(items_seq));
                    }
                }
            }
            any_item = true;
        } else {
            proof {
                assert(items_of(rest) == items_of(ls.skip(k as int + 1)));
            }
        }
        k += 1;
    }

    proof {
        assert(ls.skip(ls.len() as int) =~= Seq::<Seq<u8>>::empty());
        assert(items_seq + Seq::<Seq<u8>>::empty() =~= items_seq);
        assert(items_seq == items_of(ls.drop_first()));
        assert(section_items(body@) == items_seq);
    }

    let verdict = if any_item && all_ok {
        Verdict::Success
    } else {
        Verdict::Failure
    };

    let mut rendered = if any_item && all_ok {
        success_label_vec()
    } else {
        failure_label_vec()
    };
    let stripped = strip_markers_vec(&header);
    push_all(&mut rendered, &stripped);
    rendered.push(10);
    push_all(&mut rendered, &items_text);
    proof {
        assert(rendered@ =~= section_output(body@));
    }

    SectionReport { header, item_lines, verdict, rendered }
}

/// The verdict rule: a section's verdict is success exactly when the section
/// has at least one item and no item's outcome is a failure; in particular a
/// section with zero items always fails.
pub proof fn lemma_verdict_rule(body: Seq<u8>)
    ensures
        section_verdict(body) == Verdict::Success <==> (section_items(body).len() >= 1
            && forall|i: int| 0 <= i < section_items(body).len()
                ==> item_outcome(#[trigger] section_items(body)[i]) != Outcome::Fail),
        section_items(body).len() == 0 ==> section_verdict(body) == Verdict::Failure,
{
    let items = section_items(body);
    assert forall|i: int| 0 <= i < items.len()
        implies (item_outcome(#[trigger] items[i]) != Outcome::Fail
            <==> item_outcome(items[i]) == Outcome::Pass) by {
        let oc = item_outcome(items[i]);
        assert(oc == Outcome::Pass || oc == Outcome::Fail);
    }
}

} // verus!
