//! The greedy search for the lowest visibility of each annotation.
//!
//! The search is a state machine with two kinds of state. A [`Search`] is
//! at rest between two annotations: its text is the last one that the
//! oracle accepted. A [`Trial`] waits for the oracle's verdict on one
//! candidate. The caller persists the candidate, asks the oracle and hands
//! the verdict to [`Trial::judge`]; the machine decides what is tried next.

use vstd::prelude::*;
use vstd::string::*;
use vstd::utf8::*;
use crate::lattice::PubKind;
use crate::scanner::{admissible, next_occurrence, Occurrence, Scanner};
use crate::text::{byte_len, lemma_splice_len, replace_range, splice};

verus! {

/// `text` with one annotation rewritten to the rendering of `target`.
pub open spec fn rewritten(text: Seq<u8>, occurrence: Occurrence, target: PubKind) -> Seq<u8> {
    splice(
        text,
        occurrence.start as int,
        occurrence.end as int,
        encode_utf8(target.rendering()),
    )
}

/// Builds a candidate: `text` with `occurrence` rewritten to `target`. The
/// text given is left as it is.
pub fn rewrite(text: &str, occurrence: &Occurrence, target: PubKind) -> (r: String)
    requires
        admissible(text.spec_bytes(), 0, (occurrence.start, occurrence.end)),
    ensures
        encode_utf8(r@) == rewritten(text.spec_bytes(), *occurrence, target),
{
    replace_range(text, occurrence.start, occurrence.end, target.render())
}

/// The search at rest, as mathematics: the accepted text, the byte offset
/// at which the scan goes on, and the number of annotations demoted so far.
pub struct SearchView {
    pub text: Seq<u8>,
    pub cursor: int,
    pub changed: nat,
}

impl SearchView {
    /// The first state of a search of `text`.
    pub open spec fn start(text: Seq<u8>) -> SearchView {
        SearchView { text, cursor: 0, changed: 0 }
    }

    /// The cursor lies in the text.
    pub open spec fn wf(self) -> bool {
        0 <= self.cursor <= self.text.len()
    }

    /// The number of bytes that are still to be scanned.
    pub open spec fn remaining(self) -> int {
        self.text.len() - self.cursor
    }
}

/// A trial, as mathematics: the text in which the annotation was found, the
/// annotation, the visibility under trial, the lowest one accepted so far
/// and the number of annotations demoted before this one.
pub struct TrialView {
    pub base: Seq<u8>,
    pub occurrence: Occurrence,
    pub target: PubKind,
    pub accepted: Option<PubKind>,
    pub changed: nat,
}

impl TrialView {
    /// The annotation lies in the base text, the target is below the
    /// visibility that the annotation spells, and what was accepted lies
    /// between the two.
    pub open spec fn wf(self) -> bool {
        &&& admissible(self.base, 0, (self.occurrence.start, self.occurrence.end))
        &&& self.occurrence.kind is Some
        &&& self.target.rank() < self.occurrence.kind.unwrap().rank()
        &&& self.accepted is Some ==> self.target.rank() < self.accepted.unwrap().rank()
            < self.occurrence.kind.unwrap().rank()
    }

    /// The text that the oracle is asked about.
    pub open spec fn candidate(self) -> Seq<u8> {
        rewritten(self.base, self.occurrence, self.target)
    }

    /// The last text that the oracle accepted.
    pub open spec fn committed(self) -> Seq<u8> {
        match self.accepted {
            Some(kind) => rewritten(self.base, self.occurrence, kind),
            None => self.base,
        }
    }

    /// The state in which the search rests once the trials of this
    /// annotation are over: the committed text, the cursor behind the
    /// annotation as it now stands, and one more change if anything was
    /// accepted.
    pub open spec fn settled(self) -> SearchView {
        SearchView {
            text: self.committed(),
            cursor: self.occurrence.end + (self.committed().len() - self.base.len()),
            changed: if self.accepted is Some {
                self.changed + 1
            } else {
                self.changed
            },
        }
    }
}

/// What a scan leads to, as mathematics.
pub enum ScannedView {
    /// No annotation is left: the search is over.
    Finished(SearchView),
    /// An annotation that cannot be demoted was stepped over.
    Skipped(SearchView),
    /// An annotation was found and its first candidate awaits a verdict.
    Probe(TrialView),
}

/// What a verdict leads to, as mathematics.
pub enum JudgedView {
    /// The next candidate for the same annotation awaits a verdict.
    Next(TrialView),
    /// The annotation is done with.
    Settled(SearchView),
}

/// What follows a scan. The search looks for the next annotation at or after the
/// cursor. Without one it is finished. One with an unsupported qualifier is
/// stepped over, with no trial and the text untouched. For any other the
/// first trial is the visibility just below the one it spells.
pub open spec fn scanned(s: SearchView) -> ScannedView {
    match next_occurrence(s.text, s.cursor) {
        None => ScannedView::Finished(s),
        Some(occurrence) => {
            let skipped = ScannedView::Skipped(
                SearchView { cursor: occurrence.end as int, ..s },
            );
            match occurrence.kind {
                None => skipped,
                Some(kind) => match kind.demoted() {
                    None => skipped,
                    Some(target) => ScannedView::Probe(
                        TrialView {
                            base: s.text,
                            occurrence,
                            target,
                            accepted: None,
                            changed: s.changed,
                        },
                    ),
                },
            }
        },
    }
}

/// What follows a verdict. An accepted candidate is committed. The descent goes on to
/// the next lower visibility after an acceptance, and also after a
/// rejection of `pub(super)`, which may only mean that the annotation sits
/// in a root module; any other rejection, and the bottom of the lattice,
/// end it.
pub open spec fn judged(t: TrialView, verdict: bool) -> JudgedView {
    let accepted = if verdict {
        Some(t.target)
    } else {
        t.accepted
    };
    if (verdict || t.target == PubKind::Super) && t.target.demoted() is Some {
        JudgedView::Next(TrialView { target: t.target.demoted().unwrap(), accepted, ..t })
    } else {
        JudgedView::Settled(TrialView { accepted, ..t }.settled())
    }
}

/// The search at rest between two annotations.
pub struct Search {
    text: String,
    cursor: usize,
    changed: u64,
}

impl View for Search {
    type V = SearchView;

    closed spec fn view(&self) -> SearchView {
        SearchView {
            text: encode_utf8(self.text@),
            cursor: self.cursor as int,
            changed: self.changed as nat,
        }
    }
}

/// A candidate that was accepted, with the visibility it holds.
struct Accepted {
    kind: PubKind,
    text: String,
}

/// One candidate that awaits the oracle's verdict.
pub struct Trial {
    base: String,
    occurrence: Occurrence,
    target: PubKind,
    candidate: String,
    accepted: Option<Accepted>,
    changed: u64,
}

impl View for Trial {
    type V = TrialView;

    closed spec fn view(&self) -> TrialView {
        TrialView {
            base: encode_utf8(self.base@),
            occurrence: self.occurrence,
            target: self.target,
            accepted: match self.accepted {
                Some(accepted) => Some(accepted.kind),
                None => None,
            },
            changed: self.changed as nat,
        }
    }
}

/// What [`Search::scan`] leads to.
pub enum Scanned {
    /// No annotation is left: the search is over, and its text is final.
    Finished(Search),
    /// An annotation that cannot be demoted was stepped over.
    Skipped(Search),
    /// An annotation was found and its first candidate awaits a verdict.
    Probe(Trial),
}

impl View for Scanned {
    type V = ScannedView;

    open spec fn view(&self) -> ScannedView {
        match self {
            Scanned::Finished(search) => ScannedView::Finished(search@),
            Scanned::Skipped(search) => ScannedView::Skipped(search@),
            Scanned::Probe(trial) => ScannedView::Probe(trial@),
        }
    }
}

impl Scanned {
    /// The state held is well formed.
    pub open spec fn wf(&self) -> bool {
        match self {
            Scanned::Finished(search) => search.wf(),
            Scanned::Skipped(search) => search.wf(),
            Scanned::Probe(trial) => trial.wf(),
        }
    }
}

/// What [`Trial::judge`] leads to.
pub enum Judged {
    /// The next candidate for the same annotation awaits a verdict.
    Next(Trial),
    /// The annotation is done with, and the search is at rest again.
    Settled(Search),
}

impl View for Judged {
    type V = JudgedView;

    open spec fn view(&self) -> JudgedView {
        match self {
            Judged::Next(trial) => JudgedView::Next(trial@),
            Judged::Settled(search) => JudgedView::Settled(search@),
        }
    }
}

impl Judged {
    /// The state held is well formed.
    pub open spec fn wf(&self) -> bool {
        match self {
            Judged::Next(trial) => trial.wf(),
            Judged::Settled(search) => search.wf(),
        }
    }
}

impl Search {
    /// The cursor lies in the text, and the count of changes has room for
    /// every annotation that may still be found.
    pub closed spec fn wf(&self) -> bool {
        &&& self@.wf()
        &&& self.changed + self@.remaining() <= u64::MAX
    }

    /// A well-formed search has a well-formed view.
    pub proof fn lemma_view_is_well_formed(&self)
        requires
            self.wf(),
        ensures
            self@.wf(),
    {
    }

    /// Begins a search of `text`: nothing scanned, nothing changed.
    pub fn new(text: String) -> (r: Search)
        ensures
            r.wf(),
            r@ == SearchView::start(encode_utf8(text@)),
    {
        // Measuring the text shows that its length fits the count of changes.
        let _len: usize = byte_len(text.as_str());
        Search { text, cursor: 0, changed: 0 }
    }

    /// The text as it stands: the last that the oracle accepted.
    pub fn text(&self) -> (r: &str)
        ensures
            r.spec_bytes() == self@.text,
    {
        self.text.as_str()
    }

    /// Gives the text up.
    pub fn into_text(self) -> (r: String)
        ensures
            encode_utf8(r@) == self@.text,
    {
        self.text
    }

    /// The byte offset at which the scan goes on.
    pub fn cursor(&self) -> (r: usize)
        ensures
            r == self@.cursor,
    {
        self.cursor
    }

    /// The number of annotations demoted so far.
    pub fn changed(&self) -> (r: u64)
        ensures
            r == self@.changed,
    {
        self.changed
    }

    /// Looks for the next annotation and, where it can be demoted, builds
    /// its first candidate.
    pub fn scan(self, scanner: &Scanner) -> (r: Scanned)
        requires
            self.wf(),
            scanner.wf(),
        ensures
            r.wf(),
            r@ == scanned(self@),
    {
        let found = scanner.next_occurrence(self.text.as_str(), self.cursor);
        match found {
            None => Scanned::Finished(self),
            Some(occurrence) => {
                match Search::first_target(&occurrence) {
                    None => Scanned::Skipped(
                        Search { text: self.text, cursor: occurrence.end, changed: self.changed },
                    ),
                    Some(target) => {
                        let candidate = rewrite(self.text.as_str(), &occurrence, target);
                        Scanned::Probe(
                            Trial {
                                base: self.text,
                                occurrence,
                                target,
                                candidate,
                                accepted: None,
                                changed: self.changed,
                            },
                        )
                    },
                }
            },
        }
    }

    /// The first visibility to try for an annotation: the one just below
    /// what it spells, if its qualifier is supported.
    fn first_target(occurrence: &Occurrence) -> (r: Option<PubKind>)
        ensures
            r == match occurrence.kind {
                None => None,
                Some(kind) => kind.demoted(),
            },
            r matches Some(target) ==> occurrence.kind is Some && target.rank()
                < occurrence.kind.unwrap().rank(),
    {
        match occurrence.kind {
            None => None,
            Some(kind) => kind.demote(),
        }
    }
}

impl Trial {
    /// The view is well formed, the candidate and the accepted text are
    /// what the view says, and the count of changes has room for one more.
    pub closed spec fn wf(&self) -> bool {
        &&& self@.wf()
        &&& encode_utf8(self.candidate@) == self@.candidate()
        &&& self.accepted matches Some(accepted) ==> encode_utf8(accepted.text@)
            == self@.committed()
        &&& self.changed + (self@.base.len() - self.occurrence.end) < u64::MAX
    }

    /// A well-formed trial has a well-formed view.
    pub proof fn lemma_view_is_well_formed(&self)
        requires
            self.wf(),
        ensures
            self@.wf(),
    {
    }

    /// The candidate to persist and to ask the oracle about.
    pub fn candidate(&self) -> (r: &str)
        requires
            self.wf(),
        ensures
            r.spec_bytes() == self@.candidate(),
    {
        self.candidate.as_str()
    }

    /// The last text that the oracle accepted: what storage must hold again
    /// after a rejection.
    pub fn committed(&self) -> (r: &str)
        requires
            self.wf(),
        ensures
            r.spec_bytes() == self@.committed(),
    {
        match &self.accepted {
            Some(accepted) => accepted.text.as_str(),
            None => self.base.as_str(),
        }
    }

    /// The annotation under trial, as found in the base text.
    pub fn occurrence(&self) -> (r: Occurrence)
        ensures
            r == self@.occurrence,
    {
        self.occurrence
    }

    /// The visibility that the candidate gives the annotation.
    pub fn target(&self) -> (r: PubKind)
        ensures
            r == self@.target,
    {
        self.target
    }

    /// Takes the oracle's verdict on the candidate and decides how the
    /// search goes on.
    pub fn judge(self, verdict: bool) -> (r: Judged)
        requires
            self.wf(),
        ensures
            r.wf(),
            r@ == judged(self@, verdict),
    {
        let ghost before = self@;
        let Trial { base, occurrence, target, candidate, accepted, changed } = self;
        let accepted = if verdict {
            Some(Accepted { kind: target, text: candidate })
        } else {
            accepted
        };
        let goes_on = verdict || matches!(target, PubKind::Super);
        let next = if goes_on {
            target.demote()
        } else {
            None
        };
        match next {
            Some(next) => {
                let candidate = rewrite(base.as_str(), &occurrence, next);
                Judged::Next(Trial { base, occurrence, target: next, candidate, accepted, changed })
            },
            None => {
                match accepted {
                    None => Judged::Settled(
                        Search { text: base, cursor: occurrence.end, changed },
                    ),
                    Some(accepted) => {
                        let old_len: usize = byte_len(base.as_str());
                        let new_len: usize = byte_len(accepted.text.as_str());
                        proof {
                            lemma_splice_len(
                                before.base,
                                occurrence.start as int,
                                occurrence.end as int,
                                encode_utf8(accepted.kind.rendering()),
                            );
                        }
                        let cursor: usize = if new_len >= old_len {
                            occurrence.end + (new_len - old_len)
                        } else {
                            occurrence.end - (old_len - new_len)
                        };
                        Judged::Settled(
                            Search { text: accepted.text, cursor, changed: changed + 1 },
                        )
                    },
                }
            },
        }
    }
}

} // verus!
