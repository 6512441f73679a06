//! Failure bookkeeping for batch runs: the fixed skip-list, the classes of
//! per-item failure, and the collector that aggregates every tagged
//! failure of a run into one batch-level outcome.

use vstd::prelude::*;
use vstd::string::StringExecFns;

verus! {

/// The classes of failure one item of a batch can report.
#[derive(Clone, Copy, PartialEq, Eq, Structural, Debug)]
pub enum ItemErrorKind {
    /// The source document for the identifier was missing or unparseable.
    InputMalformed,
    /// The count check never matched, even after the dictionary fallback:
    /// no output could be produced for the identifier.
    Inconclusive,
    /// The external crop tool failed to run or exited unsuccessfully.
    CollaboratorFailure,
    /// Writing or cleaning up an output artifact failed.
    OutputIo,
}

impl ItemErrorKind {
    /// A short name of the failure class, for reporting.
    pub fn describe(&self) -> (r: String)
        ensures
            *self == ItemErrorKind::InputMalformed ==> r@ == "input malformed"@,
            *self == ItemErrorKind::Inconclusive ==> r@ == "reconstruction inconclusive"@,
            *self == ItemErrorKind::CollaboratorFailure ==> r@ == "collaborator failure"@,
            *self == ItemErrorKind::OutputIo ==> r@ == "output failure"@,
    {
        match self {
            ItemErrorKind::InputMalformed => String::from_str("input malformed"),
            ItemErrorKind::Inconclusive => String::from_str("reconstruction inconclusive"),
            ItemErrorKind::CollaboratorFailure => String::from_str("collaborator failure"),
            ItemErrorKind::OutputIo => String::from_str("output failure"),
        }
    }
}

/// One failure, tagged with the identifier it arose from.
pub struct ItemFailure {
    pub identifier: String,
    pub kind: ItemErrorKind,
    pub detail: String,
}

/// Model of a tagged failure.
#[verifier::ext_equal]
pub struct FailureModel {
    pub identifier: Seq<char>,
    pub kind: ItemErrorKind,
    pub detail: Seq<char>,
}

impl View for ItemFailure {
    type V = FailureModel;

    open spec fn view(&self) -> FailureModel {
        FailureModel {
            identifier: self.identifier@,
            kind: self.kind,
            detail: self.detail@,
        }
    }
}

pub open spec fn failure_models(s: Seq<ItemFailure>) -> Seq<FailureModel> {
    s.map_values(|f: ItemFailure| f@)
}

/// The fixed skip-list: identifiers excluded from batch runs.
pub open spec fn spec_skipped(id: Seq<char>) -> bool {
    id == "0230_038"@ || id == "0230_042"@ || id == "0230_048"@
}

/// Whether batch mode must skip this identifier.
pub fn is_skipped(id: &str) -> (r: bool)
    ensures
        r == spec_skipped(id@),
{
    let owned = id.to_owned();
    owned == String::from_str("0230_038") || owned == String::from_str("0230_042") || owned
        == String::from_str("0230_048")
}

/// Append-only failure collection for one batch run. The driver guards it
/// with a mutual-exclusion lock and appends one entry per failed item;
/// aggregation succeeds iff nothing was collected.
pub struct BatchCollector {
    pub failures: Vec<ItemFailure>,
}

impl BatchCollector {
    pub fn new() -> (r: BatchCollector)
        ensures
            r.failures@.len() == 0,
    {
        BatchCollector { failures: Vec::new() }
    }

    /// Appends one tagged failure; everything already collected is kept.
    pub fn record(&mut self, failure: ItemFailure)
        ensures
            final(self).failures@ == old(self).failures@.push(failure),
    {
        self.failures.push(failure);
    }

    /// The batch outcome: success iff no failure was collected, otherwise
    /// every collected failure, tagged and in collection order.
    pub fn into_result(self) -> (r: Result<(), Vec<ItemFailure>>)
        ensures
            match r {
                Ok(_) => self.failures@.len() == 0,
                Err(v) => v@ == self.failures@ && v@.len() > 0,
            },
    {
        if self.failures.len() == 0 {
            Ok(())
        } else {
            Err(self.failures)
        }
    }
}

/// The failures a batch run collects, given each item's outcome in
/// processing order: exactly the failed items' tagged failures, in order.
pub open spec fn collected(outcomes: Seq<Option<FailureModel>>) -> Seq<FailureModel>
    decreases outcomes.len(),
{
    if outcomes.len() == 0 {
        Seq::empty()
    } else {
        let rest = collected(outcomes.drop_last());
        match outcomes.last() {
            Some(f) => rest.push(f),
            None => rest,
        }
    }
}

proof fn lemma_collected_all_ok(outcomes: Seq<Option<FailureModel>>)
    requires
        forall|j: int| 0 <= j < outcomes.len() ==> outcomes[j] is None,
    ensures
        collected(outcomes).len() == 0,
    decreases outcomes.len(),
{
    if outcomes.len() > 0 {
        lemma_collected_all_ok(outcomes.drop_last());
    }
}

/// Failure-isolation law: when exactly one item of a batch fails, the
/// batch collects exactly that one tagged failure — the other items'
/// outcomes are unaffected by it.
pub proof fn lemma_failure_isolation(outcomes: Seq<Option<FailureModel>>, k: int)
    requires
        0 <= k < outcomes.len(),
        forall|j: int| 0 <= j < outcomes.len() && j != k ==> outcomes[j] is None,
    ensures
        outcomes[k] matches Some(f) ==> collected(outcomes) == seq![f],
    decreases outcomes.len(),
{
    if outcomes[k] is Some {
        if k == outcomes.len() - 1 {
            lemma_collected_all_ok(outcomes.drop_last());
            assert(collected(outcomes.drop_last()) =~= Seq::<FailureModel>::empty());
            assert(collected(outcomes) =~= seq![outcomes.last()->0]);
        } else {
            lemma_failure_isolation(outcomes.drop_last(), k);
        }
    }
}

} // verus!
