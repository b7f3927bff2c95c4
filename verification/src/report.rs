//! Report rendering: the preamble verbatim, then every section rewritten as
//! its annotated form, in document order.

use vstd::prelude::*;
use crate::RunError;
use crate::section::{process_section, section_output};
use crate::segment::{segment, spec_bodies, spec_boundaries, spec_preamble};
use crate::text::{push_all, views_of};

verus! {

/// The annotated outputs of the given section bodies, concatenated in
/// order.
pub open spec fn rendered_sections(bodies: Seq<Seq<u8>>) -> Seq<u8>
    decreases bodies.len(),
{
    if bodies.len() == 0 {
        Seq::empty()
    } else {
        section_output(bodies[0]) + rendered_sections(bodies.drop_first())
    }
}

/// The full report of a document with at least one section boundary: the
/// preamble verbatim, then the annotated sections in document order.
pub open spec fn report_of(doc: Seq<u8>) -> Seq<u8>
    recommends
        spec_boundaries(doc).len() > 0,
{
    spec_preamble(doc) + rendered_sections(spec_bodies(doc))
}

/// The report's sections: one rendered section per section the segmenter
/// discovers, in the same order.
pub open spec fn report_sections(doc: Seq<u8>) -> Seq<Seq<u8>> {
    Seq::new(spec_bodies(doc).len(), |k: int| section_output(spec_bodies(doc)[k]))
}

proof fn lemma_flatten_rendered(ss: Seq<Seq<u8>>, bodies: Seq<Seq<u8>>)
    requires
        ss.len() == bodies.len(),
        forall|k: int| 0 <= k < ss.len() ==> #[trigger] ss[k] == section_output(bodies[k]),
    ensures
        ss.flatten() == rendered_sections(bodies),
    decreases ss.len(),
{
    if ss.len() == 0 {
    } else {
        assert forall|k: int| 0 <= k < ss.drop_first().len()
            implies #[trigger] ss.drop_first()[k]
                == section_output(bodies.drop_first()[k]) by {
            assert(ss.drop_first()[k] == ss[k + 1]);
            assert(bodies.drop_first()[k] == bodies[k + 1]);
        }
        lemma_flatten_rendered(ss.drop_first(), bodies.drop_first());
        assert(ss[0] == section_output(bodies[0]));
        assert(ss.first() == ss[0]);
    }
}

/// The report's structure mirrors the segmentation: it holds exactly one
/// rendered section per section the segmenter discovers, in document order,
/// appended to the verbatim preamble.
pub proof fn lemma_report_structure(doc: Seq<u8>)
    requires
        spec_boundaries(doc).len() > 0,
    ensures
        report_sections(doc).len() == spec_boundaries(doc).len(),
        forall|k: int| 0 <= k < report_sections(doc).len()
            ==> #[trigger] report_sections(doc)[k] == section_output(spec_bodies(doc)[k]),
        report_of(doc) == spec_preamble(doc) + report_sections(doc).flatten(),
{
    lemma_flatten_rendered(report_sections(doc), spec_bodies(doc));
}

/// Renders the full report of `doc`. Succeeds exactly when the document
/// holds at least one section boundary; a document without one yields the
/// no-sections error and no report.
pub fn render_report(doc: &Vec<u8>) -> (r: Result<Vec<u8>, RunError>)
    ensures
        match r {
            Ok(out) => spec_boundaries(doc@).len() > 0 && out@ == report_of(doc@),
            Err(e) => spec_boundaries(doc@).len() == 0 && e == RunError::NoSections
                && (forall|j: int| !crate::segment::is_boundary(doc@, j)),
        },
{
    let seg = match segment(doc) {
        Ok(seg) => seg,
        Err(e) => {
            return Err(e);
        },
    };
    let ghost bodies = spec_bodies(doc@);
    let sections = seg.sections;
    let mut out = seg.preamble;
    proof {
        assert(bodies.skip(0) =~= bodies);
    }
    let mut k: usize = 0;
    while k < sections.len()
        invariant
            k <= sections.len(),
            views_of(sections@) == bodies,
            bodies == spec_bodies(doc@),
            spec_boundaries(doc@).len() > 0,
            sections@.len() == bodies.len(),
            out@ + rendered_sections(bodies.skip(k as int)) == report_of(doc@),
        decreases sections.len() - k,
    {
        let ghost rest = bodies.skip(k as int);
        let ghost prev = out@;
        proof {
            assert(rest[0] == bodies[k as int]);
            assert(views_of(sections@)[k as int] == sections@[k as int]@);
            assert(rest.drop_first() =~= bodies.skip(k as int + 1));
        }
        let sr = process_section(&sections[k]);
        push_all(&mut out, &sr.rendered);
        proof {
            assert(sr.rendered@ == section_output(bodies[k as int]));
            assert(prev + (section_output(bodies[k as int])
                + rendered_sections(bodies.skip(k as int + 1)))
                =~= (prev + section_output(bodies[k as int]))
                    + rendered_sections(bodies.skip(k as int + 1)));
        }
        k += 1;
    }
    proof {
        assert(bodies.skip(bodies.len() as int) =~= Seq::<Seq<u8>>::empty());
        assert(out@ + Seq::<u8>::empty() =~= out@);
    }
    Ok(out)
}

} // verus!
