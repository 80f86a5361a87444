//! Rounds: one pass over each file, repeated until a round demotes nothing.
//!
//! The caller runs the rounds and keeps a [`RoundReport`] of each; the
//! report says when the fixpoint is reached. The functions on sequences of
//! texts say what rounds come to under an oracle that judges the files
//! together, and the lemmas state what holds once the rounds have stopped.

use vstd::prelude::*;
use crate::pass::{lemma_run_preserves_oracle, run};
use crate::search::SearchView;

verus! {

/// Whether no count of a round is above zero: nothing was demoted.
pub open spec fn idle(counts: Seq<nat>) -> bool {
    forall|i: int| 0 <= i < counts.len() ==> counts[i] == 0
}

/// For each file of a round, in the order of the passes, the number of
/// annotations that its pass demoted.
pub struct RoundReport {
    counts: Vec<u64>,
}

impl View for RoundReport {
    type V = Seq<nat>;

    closed spec fn view(&self) -> Seq<nat> {
        Seq::new(self.counts@.len(), |i: int| self.counts@[i] as nat)
    }
}

impl RoundReport {
    /// The report of a round in which no pass has been made yet.
    pub fn new() -> (r: RoundReport)
        ensures
            r@ == Seq::<nat>::empty(),
    {
        let r = RoundReport { counts: Vec::new() };
        assert(r@ =~= Seq::<nat>::empty());
        r
    }

    /// Notes the count of the pass over the next file.
    pub fn record(&mut self, changed: u64)
        ensures
            final(self)@ == old(self)@.push(changed as nat),
    {
        self.counts.push(changed);
        assert(self@ =~= old(self)@.push(changed as nat));
    }

    /// The number of files noted.
    pub fn files(&self) -> (r: usize)
        ensures
            r == self@.len(),
    {
        self.counts.len()
    }

    /// The count of the pass over file `i`, or `None` where no such pass
    /// was noted.
    pub fn count(&self, i: usize) -> (r: Option<u64>)
        ensures
            r == if i < self@.len() {
                Some(self@[i as int] as u64)
            } else {
                None
            },
            r matches Some(count) ==> count == self@[i as int],
    {
        if i < self.counts.len() {
            Some(self.counts[i])
        } else {
            None
        }
    }

    /// Whether any pass of the round demoted anything. Where none did, the
    /// fixpoint is reached and no further round is due.
    pub fn any_changed(&self) -> (r: bool)
        ensures
            r == !idle(self@),
    {
        let mut i: usize = 0;
        while i < self.counts.len()
            invariant
                i <= self.counts@.len(),
                forall|j: int| 0 <= j < i ==> self@[j] == 0,
            decreases self.counts@.len() - i,
        {
            if self.counts[i] > 0 {
                assert(self@[i as int] > 0);
                return true;
            }
            i += 1;
        }
        false
    }
}

/// The oracle as the pass over file `k` meets it: it judges a candidate for
/// that file together with the other files as they stand.
pub open spec fn file_oracle(
    oracle: spec_fn(Seq<Seq<u8>>) -> bool,
    files: Seq<Seq<u8>>,
    k: int,
) -> spec_fn(Seq<u8>) -> bool {
    |candidate: Seq<u8>| oracle(files.update(k, candidate))
}

/// The rest of a round, from file `k` on: the files as the passes leave
/// them, and the count of each pass.
pub open spec fn round_from(oracle: spec_fn(Seq<Seq<u8>>) -> bool, files: Seq<Seq<u8>>, k: int) -> (
    Seq<Seq<u8>>,
    Seq<nat>,
)
    decreases files.len() - k,
{
    if 0 <= k < files.len() {
        let done = run(file_oracle(oracle, files, k), SearchView::start(files[k]));
        let rest = round_from(oracle, files.update(k, done.text), k + 1);
        (rest.0, seq![done.changed] + rest.1)
    } else {
        (files, Seq::empty())
    }
}

/// The files as one round leaves them.
pub open spec fn round_files(oracle: spec_fn(Seq<Seq<u8>>) -> bool, files: Seq<Seq<u8>>) -> Seq<
    Seq<u8>,
> {
    round_from(oracle, files, 0).0
}

/// The counts of one round, file by file.
pub open spec fn round_counts(oracle: spec_fn(Seq<Seq<u8>>) -> bool, files: Seq<Seq<u8>>) -> Seq<
    nat,
> {
    round_from(oracle, files, 0).1
}

/// The files after `n` rounds.
pub open spec fn after_rounds(
    oracle: spec_fn(Seq<Seq<u8>>) -> bool,
    files: Seq<Seq<u8>>,
    n: nat,
) -> Seq<Seq<u8>>
    decreases n,
{
    if n == 0 {
        files
    } else {
        round_files(oracle, after_rounds(oracle, files, (n - 1) as nat))
    }
}

/// Whether the rounds stop with round `n`: it is the first that demotes
/// nothing.
pub open spec fn stops_with(oracle: spec_fn(Seq<Seq<u8>>) -> bool, files: Seq<Seq<u8>>, n: nat) -> bool {
    &&& n >= 1
    &&& idle(round_counts(oracle, after_rounds(oracle, files, (n - 1) as nat)))
    &&& forall|m: nat|
        1 <= m < n ==> !idle(
            #[trigger] round_counts(oracle, after_rounds(oracle, files, (m - 1) as nat)),
        )
}

/// What holds of the rest of a round. There is one count for each file
/// passed over. A rest that demotes nothing leaves every file as it was.
/// One that begins with files that the oracle accepts ends with files that
/// it accepts, and so does one that demotes anything.
pub proof fn lemma_round_from(oracle: spec_fn(Seq<Seq<u8>>) -> bool, files: Seq<Seq<u8>>, k: int)
    requires
        0 <= k <= files.len(),
    ensures
        round_from(oracle, files, k).0.len() == files.len(),
        round_from(oracle, files, k).1.len() == files.len() - k,
        idle(round_from(oracle, files, k).1) ==> round_from(oracle, files, k).0 == files,
        oracle(files) ==> oracle(round_from(oracle, files, k).0),
        !idle(round_from(oracle, files, k).1) ==> oracle(round_from(oracle, files, k).0),
    decreases files.len() - k,
{
    if k < files.len() {
        let judge = file_oracle(oracle, files, k);
        let done = run(judge, SearchView::start(files[k]));
        let next = files.update(k, done.text);
        let rest = round_from(oracle, next, k + 1);
        let counts = seq![done.changed] + rest.1;
        lemma_run_preserves_oracle(judge, SearchView::start(files[k]));
        lemma_round_from(oracle, next, k + 1);
        assert(files.update(k, files[k]) =~= files);
        assert(counts[0] == done.changed);
        assert(forall|i: int| 0 <= i < rest.1.len() ==> counts[i + 1] == rest.1[i]);
        if idle(counts) {
            assert(done.changed == 0);
            assert(idle(rest.1)) by {
                assert forall|i: int| 0 <= i < rest.1.len() implies rest.1[i] == 0 by {
                    assert(counts[i + 1] == 0);
                }
            }
        } else {
            if done.changed == 0 {
                assert(!idle(rest.1));
            }
        }
    }
}

/// Idempotence. Once the rounds have stopped, the files are a fixpoint: one
/// more round over them demotes nothing and leaves every file as it is, so
/// the rounds begun again from there stop with their first.
pub proof fn lemma_fixpoint_is_stable(
    oracle: spec_fn(Seq<Seq<u8>>) -> bool,
    files: Seq<Seq<u8>>,
    n: nat,
)
    requires
        stops_with(oracle, files, n),
    ensures
        idle(round_counts(oracle, after_rounds(oracle, files, n))),
        round_files(oracle, after_rounds(oracle, files, n)) == after_rounds(oracle, files, n),
        stops_with(oracle, after_rounds(oracle, files, n), 1),
{
    let before = after_rounds(oracle, files, (n - 1) as nat);
    lemma_round_from(oracle, before, 0);
    assert(after_rounds(oracle, files, n) == before);
}

/// Oracle preservation. Where the rounds stop, the files are those that
/// the rounds began with, nothing having been demoted, or the oracle
/// accepts them.
pub proof fn lemma_rounds_preserve_oracle(
    oracle: spec_fn(Seq<Seq<u8>>) -> bool,
    files: Seq<Seq<u8>>,
    n: nat,
)
    requires
        stops_with(oracle, files, n),
    ensures
        n == 1 ==> after_rounds(oracle, files, n) == files,
        n > 1 ==> oracle(after_rounds(oracle, files, n)),
        oracle(files) ==> oracle(after_rounds(oracle, files, n)),
{
    lemma_fixpoint_is_stable(oracle, files, n);
    if oracle(files) {
        lemma_rounds_keep_oracle(oracle, files, n);
    }
    if n == 1 {
        reveal_with_fuel(after_rounds, 2);
        lemma_round_from(oracle, files, 0);
    }
    if n > 1 {
        let m = (n - 1) as nat;
        let before = after_rounds(oracle, files, (m - 1) as nat);
        assert(!idle(round_counts(oracle, before)));
        lemma_round_from(oracle, before, 0);
        assert(after_rounds(oracle, files, m) == round_files(oracle, before));
        lemma_round_from(oracle, after_rounds(oracle, files, m), 0);
    }
}

/// Any number of rounds over files that the oracle accepts ends with files
/// that it accepts.
pub proof fn lemma_rounds_keep_oracle(
    oracle: spec_fn(Seq<Seq<u8>>) -> bool,
    files: Seq<Seq<u8>>,
    n: nat,
)
    requires
        oracle(files),
    ensures
        oracle(after_rounds(oracle, files, n)),
    decreases n,
{
    if n > 0 {
        lemma_rounds_keep_oracle(oracle, files, (n - 1) as nat);
        lemma_round_from(oracle, after_rounds(oracle, files, (n - 1) as nat), 0);
    }
}

} // verus!
