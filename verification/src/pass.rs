//! One pass of the search over a text, with an oracle that answers the same
//! way whenever it is asked about the same text.
//!
//! The functions here say what comes out when the verdicts handed to the
//! machine of [`crate::search`] are those of such an oracle, and the lemmas
//! state what then holds of every pass.

use vstd::prelude::*;
use vstd::utf8::*;
use crate::lattice::PubKind;
use crate::scanner::{next_occurrence, Occurrence};
use crate::search::{judged, rewritten, scanned, JudgedView, ScannedView, SearchView, TrialView};
use crate::text::{
    lemma_same_prefix_same_range, lemma_same_suffix_later, lemma_splice_keeps_rest,
    lemma_splice_len,
};

verus! {

/// The visibility that an annotation ends with when the trials go on from
/// `t` with the verdicts of `oracle`: the lowest one accepted, or `None`
/// where none was.
pub open spec fn chosen(oracle: spec_fn(Seq<u8>) -> bool, t: TrialView) -> Option<PubKind>
    decreases t.target.rank(),
{
    let verdict = oracle(t.candidate());
    match judged(t, verdict) {
        JudgedView::Next(next) => chosen(oracle, next),
        JudgedView::Settled(_) => if verdict {
            Some(t.target)
        } else {
            t.accepted
        },
    }
}

/// The state in which the search rests after the trials that go on from
/// `t` with the verdicts of `oracle`.
pub open spec fn descend(oracle: spec_fn(Seq<u8>) -> bool, t: TrialView) -> SearchView
    decreases t.target.rank(),
{
    match judged(t, oracle(t.candidate())) {
        JudgedView::Next(next) => descend(oracle, next),
        JudgedView::Settled(s) => s,
    }
}

/// The state in which a search that goes on from `s` finishes, with the
/// verdicts of `oracle`.
pub open spec fn run(oracle: spec_fn(Seq<u8>) -> bool, s: SearchView) -> SearchView
    decreases s.remaining(),
    when s.wf()
{
    match scanned(s) {
        ScannedView::Finished(done) => done,
        ScannedView::Skipped(next) => run(oracle, next),
        ScannedView::Probe(t) => {
            proof {
                lemma_scan_is_well_formed(s);
                lemma_descend_settles(oracle, t);
            }
            run(oracle, descend(oracle, t))
        },
    }
}

/// A scan of a well-formed state leads to a well-formed state, nearer to
/// the end of the text where the search is not over; a trial begins with
/// nothing accepted, in the text and with the count of the state scanned.
pub proof fn lemma_scan_is_well_formed(s: SearchView)
    requires
        s.wf(),
    ensures
        match scanned(s) {
            ScannedView::Finished(done) => done == s,
            ScannedView::Skipped(next) => {
                &&& next.wf()
                &&& next.text == s.text
                &&& next.changed == s.changed
                &&& s.cursor < next.cursor
            },
            ScannedView::Probe(t) => {
                &&& t.wf()
                &&& t.base == s.text
                &&& t.changed == s.changed
                &&& t.accepted is None
                &&& next_occurrence(s.text, s.cursor) == Some(t.occurrence)
                &&& s.cursor <= t.occurrence.start
            },
        },
{
}

/// The trials of one annotation end in the state that the trial settles in
/// with the visibility chosen. That state is well formed, and what is left
/// to scan in it is what lay behind the annotation.
pub proof fn lemma_descend_settles(oracle: spec_fn(Seq<u8>) -> bool, t: TrialView)
    requires
        t.wf(),
    ensures
        descend(oracle, t) == (TrialView { accepted: chosen(oracle, t), ..t }).settled(),
        descend(oracle, t).wf(),
        descend(oracle, t).remaining() == t.base.len() - t.occurrence.end,
        descend(oracle, t).cursor >= t.occurrence.start,
        t.changed <= descend(oracle, t).changed <= t.changed + 1,
    decreases t.target.rank(),
{
    let verdict = oracle(t.candidate());
    match judged(t, verdict) {
        JudgedView::Next(next) => {
            lemma_descend_settles(oracle, next);
        },
        JudgedView::Settled(s) => {
            let last = TrialView { accepted: chosen(oracle, t), ..t };
            if last.accepted is Some {
                lemma_splice_len(
                    t.base,
                    t.occurrence.start as int,
                    t.occurrence.end as int,
                    encode_utf8(last.accepted.unwrap().rendering()),
                );
            }
        },
    }
}

/// Monotonic demotion, for one annotation. Whatever the oracle answers, the
/// visibility that an annotation ends with is strictly below the one it
/// spelled and not above anything accepted before, and the text that the
/// search then rests in is the base text with the annotation rewritten to
/// it. Where nothing was accepted the text is the base text.
pub proof fn lemma_demotion_is_monotonic(oracle: spec_fn(Seq<u8>) -> bool, t: TrialView)
    requires
        t.wf(),
    ensures
        match chosen(oracle, t) {
            Some(kind) => {
                &&& kind.rank() < t.occurrence.kind.unwrap().rank()
                &&& t.accepted is Some ==> kind.rank() <= t.accepted.unwrap().rank()
                &&& descend(oracle, t).text == rewritten(t.base, t.occurrence, kind)
                &&& descend(oracle, t).changed == t.changed + 1
            },
            None => {
                &&& t.accepted is None
                &&& descend(oracle, t).text == t.base
                &&& descend(oracle, t).changed == t.changed
                &&& descend(oracle, t).cursor == t.occurrence.end
            },
        },
    decreases t.target.rank(),
{
    lemma_descend_settles(oracle, t);
    match judged(t, oracle(t.candidate())) {
        JudgedView::Next(next) => {
            lemma_demotion_is_monotonic(oracle, next);
        },
        JudgedView::Settled(_) => {},
    }
}

/// Oracle preservation, for one annotation. The text in which the search
/// rests after the trials is one that the oracle accepts, if the text
/// committed before them was one.
pub proof fn lemma_descend_preserves_oracle(oracle: spec_fn(Seq<u8>) -> bool, t: TrialView)
    requires
        t.wf(),
        oracle(t.committed()),
    ensures
        oracle(descend(oracle, t).text),
    decreases t.target.rank(),
{
    match judged(t, oracle(t.candidate())) {
        JudgedView::Next(next) => {
            lemma_descend_preserves_oracle(oracle, next);
        },
        JudgedView::Settled(_) => {},
    }
}

/// Tolerance of a rejected `pub(super)`. Where the oracle rejects the
/// candidate with `pub(super)` and accepts the one with no annotation, the
/// annotation ends up private: the descent does not stop at the rejection.
pub proof fn lemma_super_rejection_is_tolerated(oracle: spec_fn(Seq<u8>) -> bool, t: TrialView)
    requires
        t.wf(),
        t.target == PubKind::Super,
        !oracle(rewritten(t.base, t.occurrence, PubKind::Super)),
        oracle(rewritten(t.base, t.occurrence, PubKind::Private)),
    ensures
        chosen(oracle, t) == Some(PubKind::Private),
        descend(oracle, t).text == rewritten(t.base, t.occurrence, PubKind::Private),
{
    let next = TrialView { target: PubKind::Private, ..t };
    assert(judged(t, false) == JudgedView::Next(next));
    assert(judged(next, true) is Settled);
    reveal_with_fuel(chosen, 3);
    reveal_with_fuel(descend, 3);
}

/// A pass ends in a well-formed state. It never takes a change back, and it
/// leaves what lies before the cursor as it is.
pub proof fn lemma_run_keeps_scanned(oracle: spec_fn(Seq<u8>) -> bool, s: SearchView)
    requires
        s.wf(),
    ensures
        run(oracle, s).wf(),
        run(oracle, s).changed >= s.changed,
        run(oracle, s).text.len() >= s.cursor,
        run(oracle, s).text.subrange(0, s.cursor) == s.text.subrange(0, s.cursor),
    decreases s.remaining(),
{
    lemma_scan_is_well_formed(s);
    let out = run(oracle, s).text;
    match scanned(s) {
        ScannedView::Finished(_) => {},
        ScannedView::Skipped(next) => {
            lemma_run_keeps_scanned(oracle, next);
            lemma_same_prefix_same_range(out, s.text, next.cursor, 0, s.cursor);
        },
        ScannedView::Probe(t) => {
            let rest = descend(oracle, t);
            lemma_descend_settles(oracle, t);
            lemma_demotion_is_monotonic(oracle, t);
            lemma_run_keeps_scanned(oracle, rest);
            lemma_same_prefix_same_range(out, rest.text, rest.cursor, 0, s.cursor);
            if chosen(oracle, t) is Some {
                lemma_splice_keeps_rest(
                    t.base,
                    t.occurrence.start as int,
                    t.occurrence.end as int,
                    encode_utf8(chosen(oracle, t).unwrap().rendering()),
                );
                lemma_same_prefix_same_range(
                    rest.text,
                    s.text,
                    t.occurrence.start as int,
                    0,
                    s.cursor,
                );
            }
        },
    }
}

/// Oracle preservation. A pass that begins with a text that the oracle
/// accepts ends with one that it accepts; and whatever it began with, a
/// pass that changed anything ends with a text that the oracle accepts.
pub proof fn lemma_run_preserves_oracle(oracle: spec_fn(Seq<u8>) -> bool, s: SearchView)
    requires
        s.wf(),
    ensures
        oracle(s.text) ==> oracle(run(oracle, s).text),
        run(oracle, s).changed > s.changed ==> oracle(run(oracle, s).text),
        run(oracle, s).changed == s.changed ==> run(oracle, s).text == s.text,
    decreases s.remaining(),
{
    lemma_scan_is_well_formed(s);
    match scanned(s) {
        ScannedView::Finished(_) => {},
        ScannedView::Skipped(next) => {
            lemma_run_preserves_oracle(oracle, next);
        },
        ScannedView::Probe(t) => {
            let rest = descend(oracle, t);
            lemma_descend_settles(oracle, t);
            lemma_demotion_is_monotonic(oracle, t);
            lemma_run_preserves_oracle(oracle, rest);
            lemma_run_keeps_scanned(oracle, rest);
            if oracle(s.text) {
                lemma_descend_preserves_oracle(oracle, t);
            }
            if chosen(oracle, t) is Some {
                lemma_chosen_is_accepted(oracle, t);
            }
        },
    }
}

/// A visibility chosen in the trials, if none had been accepted before
/// them, is one whose candidate the oracle accepts.
pub proof fn lemma_chosen_is_accepted(oracle: spec_fn(Seq<u8>) -> bool, t: TrialView)
    requires
        t.wf(),
        chosen(oracle, t) is Some,
        t.accepted is Some ==> oracle(t.committed()),
    ensures
        oracle(rewritten(t.base, t.occurrence, chosen(oracle, t).unwrap())),
    decreases t.target.rank(),
{
    match judged(t, oracle(t.candidate())) {
        JudgedView::Next(next) => {
            lemma_chosen_is_accepted(oracle, next);
        },
        JudgedView::Settled(_) => {},
    }
}

/// Idempotence. A pass that demotes nothing hands back the text it was
/// given, so a second pass over what it handed back demotes nothing either
/// and hands the same text back again.
pub proof fn lemma_idle_pass_is_fixpoint(oracle: spec_fn(Seq<u8>) -> bool, text: Seq<u8>)
    requires
        run(oracle, SearchView::start(text)).changed == 0,
    ensures
        run(oracle, SearchView::start(text)).text == text,
        run(oracle, SearchView::start(run(oracle, SearchView::start(text)).text)).changed == 0,
{
    lemma_run_preserves_oracle(oracle, SearchView::start(text));
}

/// One annotation that a pass came by.
pub struct Visit {
    /// The text as it stood when the annotation was found.
    pub text: Seq<u8>,
    /// The annotation, as found in that text.
    pub occurrence: Occurrence,
    /// The visibility that the pass gave the annotation; `None` where it
    /// left the annotation as it was.
    pub outcome: Option<PubKind>,
}

/// The annotations that a pass comes by when it goes on from `s` with the
/// verdicts of `oracle`, in the order in which it finds them.
pub open spec fn visits(oracle: spec_fn(Seq<u8>) -> bool, s: SearchView) -> Seq<Visit>
    decreases s.remaining(),
    when s.wf()
{
    match scanned(s) {
        ScannedView::Finished(_) => Seq::empty(),
        ScannedView::Skipped(next) => seq![
            Visit {
                text: s.text,
                occurrence: next_occurrence(s.text, s.cursor).unwrap(),
                outcome: None,
            },
        ] + visits(oracle, next),
        ScannedView::Probe(t) => {
            proof {
                lemma_scan_is_well_formed(s);
                lemma_descend_settles(oracle, t);
            }
            seq![Visit { text: s.text, occurrence: t.occurrence, outcome: chosen(oracle, t) }]
                + visits(oracle, descend(oracle, t))
        },
    }
}

/// What holds of every annotation that a pass comes by.
///
/// The annotation lies in the text as it stood then, at or behind the
/// place that the cursor of `s` has moved to under the changes made before.
/// From the annotation on, that text is still the text of `s`. An
/// annotation with an unsupported qualifier is left as it was. One that was
/// left as it was stands in the final text byte for byte, at the same
/// place. One that was demoted has been given a visibility strictly below
/// the one it spelled, and the final text holds the rendering of that
/// visibility where the annotation began.
pub proof fn lemma_visit(oracle: spec_fn(Seq<u8>) -> bool, s: SearchView, i: int)
    requires
        s.wf(),
        0 <= i < visits(oracle, s).len(),
    ensures
        ({
            let v = visits(oracle, s)[i];
            let out = run(oracle, s).text;
            let shift = v.text.len() - s.text.len();
            let start = v.occurrence.start as int;
            let end = v.occurrence.end as int;
            &&& v.occurrence.lies_in(v.text, s.cursor + shift)
            &&& v.text.skip(start) == s.text.skip(start - shift)
            &&& !v.occurrence.is_supported() ==> v.outcome is None
            &&& match v.outcome {
                None => end <= out.len() && out.subrange(start, end) == v.text.subrange(
                    start,
                    end,
                ),
                Some(kind) => {
                    let rendering = encode_utf8(kind.rendering());
                    &&& v.occurrence.kind is Some
                    &&& kind.rank() < v.occurrence.kind.unwrap().rank()
                    &&& start + rendering.len() <= out.len()
                    &&& out.subrange(start, start + rendering.len()) == rendering
                },
            }
        }),
    decreases s.remaining(),
{
    lemma_scan_is_well_formed(s);
    let v = visits(oracle, s)[i];
    let out = run(oracle, s).text;
    let start = v.occurrence.start as int;
    let end = v.occurrence.end as int;
    match scanned(s) {
        ScannedView::Finished(_) => {},
        ScannedView::Skipped(next) => {
            lemma_run_keeps_scanned(oracle, next);
            if i == 0 {
                lemma_same_prefix_same_range(out, s.text, next.cursor, start, end);
            } else {
                assert(v == visits(oracle, next)[i - 1]);
                lemma_visit(oracle, next, i - 1);
            }
        },
        ScannedView::Probe(t) => {
            let rest = descend(oracle, t);
            lemma_descend_settles(oracle, t);
            lemma_demotion_is_monotonic(oracle, t);
            lemma_run_keeps_scanned(oracle, rest);
            let from = t.occurrence.start as int;
            let to = t.occurrence.end as int;
            if i == 0 {
                match chosen(oracle, t) {
                    None => {
                        lemma_same_prefix_same_range(out, s.text, rest.cursor, start, end);
                    },
                    Some(kind) => {
                        let rendering = encode_utf8(kind.rendering());
                        lemma_splice_keeps_rest(t.base, from, to, rendering);
                        lemma_splice_len(t.base, from, to, rendering);
                        lemma_same_prefix_same_range(
                            out,
                            rest.text,
                            rest.cursor,
                            start,
                            start + rendering.len(),
                        );
                    },
                }
            } else {
                assert(v == visits(oracle, rest)[i - 1]);
                lemma_visit(oracle, rest, i - 1);
                let inner = v.text.len() - rest.text.len();
                assert(rest.text.skip(rest.cursor) == s.text.skip(to)) by {
                    match chosen(oracle, t) {
                        None => {},
                        Some(kind) => {
                            let rendering = encode_utf8(kind.rendering());
                            lemma_splice_keeps_rest(t.base, from, to, rendering);
                            lemma_splice_len(t.base, from, to, rendering);
                        },
                    }
                }
                lemma_same_suffix_later(
                    rest.text,
                    s.text,
                    rest.cursor,
                    to,
                    start - inner - rest.cursor,
                );
            }
        },
    }
}

/// Monotonic demotion. Every annotation that a pass over `text` comes by
/// either stays as it was or ends with a visibility strictly below the one
/// it spelled, whose rendering the final text holds in its place.
pub proof fn lemma_pass_demotes_monotonically(
    oracle: spec_fn(Seq<u8>) -> bool,
    text: Seq<u8>,
    i: int,
)
    requires
        0 <= i < visits(oracle, SearchView::start(text)).len(),
    ensures
        ({
            let v = visits(oracle, SearchView::start(text))[i];
            let out = run(oracle, SearchView::start(text)).text;
            let start = v.occurrence.start as int;
            match v.outcome {
                None => out.subrange(start, v.occurrence.end as int) == v.text.subrange(
                    start,
                    v.occurrence.end as int,
                ),
                Some(kind) => {
                    &&& v.occurrence.kind is Some
                    &&& kind.rank() < v.occurrence.kind.unwrap().rank()
                    &&& out.subrange(start, start + encode_utf8(kind.rendering()).len())
                        == encode_utf8(kind.rendering())
                },
            }
        }),
{
    lemma_visit(oracle, SearchView::start(text), i);
}

/// Preservation of what is not supported. An annotation with an
/// unsupported qualifier that a pass over `text` comes by is, byte for
/// byte, in the final text what it was in `text`: the final text holds it
/// where the pass found it, and `text` held it that far from its end.
pub proof fn lemma_pass_keeps_unsupported(oracle: spec_fn(Seq<u8>) -> bool, text: Seq<u8>, i: int)
    requires
        0 <= i < visits(oracle, SearchView::start(text)).len(),
        !visits(oracle, SearchView::start(text))[i].occurrence.is_supported(),
    ensures
        ({
            let v = visits(oracle, SearchView::start(text))[i];
            let out = run(oracle, SearchView::start(text)).text;
            let shift = v.text.len() - text.len();
            let start = v.occurrence.start as int;
            let end = v.occurrence.end as int;
            &&& 0 <= start - shift < end - shift <= text.len()
            &&& end <= out.len()
            &&& out.subrange(start, end) == text.subrange(start - shift, end - shift)
        }),
{
    let s = SearchView::start(text);
    lemma_visit(oracle, s, i);
    let v = visits(oracle, s)[i];
    let shift = v.text.len() - text.len();
    let start = v.occurrence.start as int;
    let end = v.occurrence.end as int;
    assert(v.text.subrange(start, end) =~= v.text.skip(start).subrange(0, end - start));
    assert(text.subrange(start - shift, end - shift) =~= text.skip(start - shift).subrange(
        0,
        end - start,
    ));
}

} // verus!
