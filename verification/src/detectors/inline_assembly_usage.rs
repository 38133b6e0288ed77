//! Reports every inline assembly block.
use vstd::prelude::*;
use crate::detectors::{gather, ctx_location, context_location, finding, findings_view, FindingView, lemma_gather_step, Finding};
use crate::report::Severity;
use crate::text::push_str;
use crate::walk::Event;

verus! {

/// What the detector reports at one event: each `asm` block, as medium severity.
pub open spec fn inline_assembly_at<'a>(i: int, ev: Event<'a>) -> Seq<FindingView> {
    match ev {
        Event::AsmBlock(c, a) => finding(i, a.span.start as int, Severity::Medium,
            ctx_location(c) + " contains inline assembly usage."@),
        _ => Seq::empty(),
    }
}

/// The detector of this module; `detect` runs it over the events of a module.
pub struct InlineAssemblyUsageVisitor;

impl InlineAssemblyUsageVisitor {
    /// Reports the inline assembly blocks among the events of a module.
    pub fn detect<'a>(&self, events: &Vec<Event<'a>>) -> (r: Vec<Finding>)
        ensures
            findings_view(r@) == gather(events@, |i: int, ev: Event<'a>| inline_assembly_at(i, ev)),
    {
        let ghost f = |i: int, ev: Event<'a>| inline_assembly_at(i, ev);
        let mut r: Vec<Finding> = Vec::new();
        let mut i: usize = 0;
        while i < events.len()
            invariant
                i <= events@.len(),
                f == (|i: int, ev: Event<'a>| inline_assembly_at(i, ev)),
                findings_view(r@) == gather(events@.take(i as int), f),
            decreases events@.len() - i,
        {
            proof {
                lemma_gather_step(events@, f, i as int);
                assert(f(i as int, events@[i as int]) == inline_assembly_at(i as int, events@[i as int]));
            }
            let ghost before = findings_view(r@);
            match &events[i] {
                Event::AsmBlock(c, a) => {
                    let mut text = context_location(c);
                    push_str(&mut text, " contains inline assembly usage.");
                    r.push(Finding { event: i, start: a.span.start, severity: Severity::Medium, text, reference: None });
                    proof {
                        assert(findings_view(r@) =~= before + f(i as int, events@[i as int]));
                    }
                },
                _ => {
                    proof {
                        assert(findings_view(r@) =~= before + f(i as int, events@[i as int]));
                    }
                },
            }
            i = i + 1;
        }
        proof {
            assert(events@.take(i as int) =~= events@);
        }
        r
    }
}

} // verus!
