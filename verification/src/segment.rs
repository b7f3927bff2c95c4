//! Segmenter: scan a document for section boundaries and split it into a
//! preamble and the ordered section bodies, losing no byte.

use vstd::prelude::*;
use crate::RunError;
use crate::text::{subvec, views_of};

verus! {

/// A section boundary: a newline immediately followed by the section
/// marker at the start of the next line.
pub open spec fn is_boundary(doc: Seq<u8>, i: int) -> bool {
    0 <= i && i + 1 < doc.len() && doc[i] == 10 && doc[i + 1] == 42
}

/// All boundary positions at or after `from`, in increasing order.
pub open spec fn boundaries_from(doc: Seq<u8>, from: int) -> Seq<int>
    decreases doc.len() - from,
{
    if from >= doc.len() {
        Seq::empty()
    } else if is_boundary(doc, from) {
        seq![from] + boundaries_from(doc, from + 1)
    } else {
        boundaries_from(doc, from + 1)
    }
}

/// All boundary positions of the document, in document order.
pub open spec fn spec_boundaries(doc: Seq<u8>) -> Seq<int> {
    boundaries_from(doc, 0)
}

/// Every listed position at or after `from` is a boundary, and the list is
/// strictly increasing.
pub proof fn lemma_boundaries_props(doc: Seq<u8>, from: int)
    ensures
        forall|k: int| 0 <= k < boundaries_from(doc, from).len()
            ==> from <= #[trigger] boundaries_from(doc, from)[k]
                && is_boundary(doc, boundaries_from(doc, from)[k]),
        forall|k: int| 0 <= k < boundaries_from(doc, from).len() - 1
            ==> #[trigger] boundaries_from(doc, from)[k] < boundaries_from(doc, from)[k + 1],
    decreases doc.len() - from,
{
    if from >= doc.len() {
    } else {
        lemma_boundaries_props(doc, from + 1);
        let bs = boundaries_from(doc, from);
        let rest = boundaries_from(doc, from + 1);
        if is_boundary(doc, from) {
            assert(bs[0] == from);
            assert forall|k: int| 0 <= k < bs.len()
                implies from <= #[trigger] bs[k] && is_boundary(doc, bs[k]) by {
                if k > 0 {
                    assert(bs[k] == rest[k - 1]);
                }
            }
            assert forall|k: int| 0 <= k < bs.len() - 1 implies #[trigger] bs[k] < bs[k + 1] by {
                if k == 0 {
                    if rest.len() > 0 {
                        assert(bs[1] == rest[0]);
                    }
                } else {
                    assert(bs[k] == rest[k - 1]);
                    assert(bs[k + 1] == rest[k]);
                }
            }
        }
    }
}

/// If the boundary list starting at `from` is empty, no position at or
/// after `from` is a boundary.
proof fn lemma_no_boundary_after(doc: Seq<u8>, from: int, j: int)
    requires
        boundaries_from(doc, from).len() == 0,
        from <= j,
    ensures
        !is_boundary(doc, j),
    decreases j - from,
{
    if from >= doc.len() {
    } else if is_boundary(doc, from) {
        assert(boundaries_from(doc, from).len() > 0);
    } else {
        if from < j {
            lemma_no_boundary_after(doc, from + 1, j);
        }
    }
}

/// A document with no boundary in its list has no boundary at all.
pub proof fn lemma_no_boundaries(doc: Seq<u8>)
    requires
        spec_boundaries(doc).len() == 0,
    ensures
        forall|j: int| !is_boundary(doc, j),
{
    assert forall|j: int| !is_boundary(doc, j) by {
        if j >= 0 {
            lemma_no_boundary_after(doc, 0, j);
        }
    }
}

/// The preamble: everything up to and including the newline of the first
/// boundary.
pub open spec fn spec_preamble(doc: Seq<u8>) -> Seq<u8>
    recommends
        spec_boundaries(doc).len() > 0,
{
    doc.subrange(0, spec_boundaries(doc)[0] + 1)
}

/// Where the body of section `k` ends: at the next boundary's newline, or
/// at the end of the document for the last section.
pub open spec fn body_end(doc: Seq<u8>, k: int) -> int {
    if k + 1 < spec_boundaries(doc).len() {
        spec_boundaries(doc)[k + 1]
    } else {
        doc.len() as int
    }
}

/// The body of section `k`: from just after its boundary's newline to the
/// next boundary's newline (or the end of the document).
pub open spec fn spec_body(doc: Seq<u8>, k: int) -> Seq<u8> {
    doc.subrange(spec_boundaries(doc)[k] + 1, body_end(doc, k))
}

/// The ordered section bodies of the document.
pub open spec fn spec_bodies(doc: Seq<u8>) -> Seq<Seq<u8>> {
    Seq::new(spec_boundaries(doc).len(), |k: int| spec_body(doc, k))
}

/// A document split into its preamble and its ordered section bodies.
pub struct SegmentedDoc {
    /// Everything before the first section's marker line.
    pub preamble: Vec<u8>,
    /// The section bodies, in document order; each starts with its marker
    /// line.
    pub sections: Vec<Vec<u8>>,
}

/// A sequence of positions as mathematical integers.
pub open spec fn ints_of(s: Seq<usize>) -> Seq<int> {
    Seq::new(s.len(), |t: int| s[t] as int)
}

/// All boundary positions of `doc`, exactly as `spec_boundaries`.
pub fn find_boundaries(doc: &Vec<u8>) -> (r: Vec<usize>)
    ensures
        ints_of(r@) == spec_boundaries(doc@),
{
    let mut r: Vec<usize> = Vec::new();
    let mut i: usize = 0;
    proof {
        assert(ints_of(r@) + boundaries_from(doc@, 0) =~= boundaries_from(doc@, 0));
    }
    while i < doc.len()
        invariant
            i <= doc.len(),
            spec_boundaries(doc@) == ints_of(r@) + boundaries_from(doc@, i as int),
        decreases doc.len() - i,
    {
        if i + 1 < doc.len() && doc[i] == 10 && doc[i + 1] == 42 {
            proof {
                assert(is_boundary(doc@, i as int));
                assert(ints_of(r@.push(i)) =~= ints_of(r@).push(i as int));
                assert(ints_of(r@).push(i as int) + boundaries_from(doc@, i as int + 1)
                    =~= ints_of(r@) + (seq![i as int] + boundaries_from(doc@, i as int + 1)));
            }
            r.push(i);
        } else {
            proof {
                assert(!is_boundary(doc@, i as int));
            }
        }
        i += 1;
    }
    proof {
        assert(ints_of(r@) + Seq::<int>::empty() =~= ints_of(r@));
    }
    r
}

/// Splits the document at its boundaries. Succeeds exactly when the
/// document holds at least one boundary; otherwise there is nothing to test
/// and the run reports that no sections were found.
pub fn segment(doc: &Vec<u8>) -> (r: Result<SegmentedDoc, RunError>)
    ensures
        match r {
            Ok(seg) => spec_boundaries(doc@).len() > 0 && seg.preamble@ == spec_preamble(doc@)
                && views_of(seg.sections@) == spec_bodies(doc@)
                && (exists|j: int| is_boundary(doc@, j)),
            Err(e) => spec_boundaries(doc@).len() == 0 && e == RunError::NoSections
                && (forall|j: int| !is_boundary(doc@, j)),
        },
{
    let bs = find_boundaries(doc);
    if bs.len() == 0 {
        proof {
            assert(ints_of(bs@).len() == 0);
            lemma_no_boundaries(doc@);
        }
        return Err(RunError::NoSections);
    }
    proof {
        lemma_boundaries_props(doc@, 0);
        assert(spec_boundaries(doc@)[0] == bs@[0] as int);
        assert(is_boundary(doc@, bs@[0] as int));
        assert(bs@[0] as int + 1 < doc@.len());
        assert(doc@.len() == doc.len());
    }
    let b0 = bs[0];
    let preamble = subvec(doc, 0, b0 + 1);

    let mut sections: Vec<Vec<u8>> = Vec::new();
    let mut k: usize = 0;
    while k < bs.len()
        invariant
            k <= bs.len(),
            ints_of(bs@) == spec_boundaries(doc@),
            bs@.len() == spec_boundaries(doc@).len(),
            views_of(sections@).len() == k,
            forall|t: int| 0 <= t < k ==> views_of(sections@)[t] == spec_body(doc@, t),
        decreases bs.len() - k,
    {
        proof {
            lemma_boundaries_props(doc@, 0);
            assert(spec_boundaries(doc@)[k as int] == bs@[k as int] as int);
            assert(is_boundary(doc@, bs@[k as int] as int));
            assert(bs@[k as int] as int + 1 < doc@.len());
            assert(doc@.len() == doc.len());
        }
        let start = bs[k] + 1;
        let end = if k + 1 < bs.len() {
            proof {
                assert(spec_boundaries(doc@)[k as int + 1] == bs@[k as int + 1] as int);
                assert(is_boundary(doc@, bs@[k as int + 1] as int));
                assert(bs@[k as int] < bs@[k as int + 1]);
            }
            bs[k + 1]
        } else {
            doc.len()
        };
        let body = subvec(doc, start, end);
        proof {
            assert(body@ == spec_body(doc@, k as int));
            crate::text::lemma_views_push(sections@, body);
        }
        sections.push(body);
        k += 1;
    }
    proof {
        assert(views_of(sections@) =~= spec_bodies(doc@));
    }
    Ok(SegmentedDoc { preamble, sections })
}

/// The bodies glued back together, one newline between consecutive bodies:
/// exactly the region of the document covered by the section spans.
pub open spec fn join_bodies(ss: Seq<Seq<u8>>) -> Seq<u8>
    decreases ss.len(),
{
    if ss.len() == 0 {
        Seq::empty()
    } else if ss.len() == 1 {
        ss[0]
    } else {
        ss[0] + seq![10u8] + join_bodies(ss.drop_first())
    }
}

proof fn lemma_join_suffix(doc: Seq<u8>, k: int)
    requires
        0 <= k < spec_boundaries(doc).len(),
    ensures
        doc.subrange(spec_boundaries(doc)[k] + 1, doc.len() as int)
            == join_bodies(spec_bodies(doc).skip(k)),
    decreases spec_boundaries(doc).len() - k,
{
    lemma_boundaries_props(doc, 0);
    let bs = spec_boundaries(doc);
    let bodies = spec_bodies(doc);
    let n = bs.len() as int;
    assert(bodies.skip(k)[0] == bodies[k]);
    if k == n - 1 {
        assert(bodies.skip(k).len() == 1);
        assert(join_bodies(bodies.skip(k)) == bodies[k]);
        assert(bodies[k] == doc.subrange(bs[k] + 1, doc.len() as int));
    } else {
        lemma_join_suffix(doc, k + 1);
        assert(bodies.skip(k).drop_first() =~= bodies.skip(k + 1));
        assert(join_bodies(bodies.skip(k))
            == bodies[k] + seq![10u8] + join_bodies(bodies.skip(k + 1)));
        assert(is_boundary(doc, bs[k + 1]));
        assert(doc.subrange(bs[k + 1], bs[k + 1] + 1) =~= seq![10u8]);
        assert(bodies[k] == doc.subrange(bs[k] + 1, bs[k + 1]));
        assert(doc.subrange(bs[k] + 1, doc.len() as int)
            =~= doc.subrange(bs[k] + 1, bs[k + 1]) + doc.subrange(bs[k + 1], bs[k + 1] + 1)
                + doc.subrange(bs[k + 1] + 1, doc.len() as int));
    }
}

/// No byte loss or duplication: for a document with at least one boundary,
/// the preamble followed by the glued section spans reconstructs the
/// document exactly, so their lengths sum to the document's length.
pub proof fn lemma_no_byte_loss(doc: Seq<u8>)
    requires
        spec_boundaries(doc).len() > 0,
    ensures
        spec_preamble(doc) + join_bodies(spec_bodies(doc)) == doc,
        spec_preamble(doc).len() + join_bodies(spec_bodies(doc)).len() == doc.len(),
{
    lemma_boundaries_props(doc, 0);
    lemma_join_suffix(doc, 0);
    assert(spec_bodies(doc).skip(0) =~= spec_bodies(doc));
    assert(spec_preamble(doc) + doc.subrange(spec_boundaries(doc)[0] + 1, doc.len() as int)
        =~= doc);
}

} // verus!
