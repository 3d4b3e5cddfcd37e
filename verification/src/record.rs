//! Findings, tags and the envelopes in which findings travel downstream.

use vstd::prelude::*;
use vstd::std_specs::convert::FromSpecImpl;

verus! {

/// The tags of one interaction record. The pipeline never looks inside a tag:
/// it hands each on as it came.
pub type Tags = Vec<String>;

/// One discrepancy, as the comparison engine reported it.
#[derive(Clone, Debug, PartialEq, Eq)]
pub struct Finding {
    /// The discrepancy as the engine describes it.
    pub detail: String,
    /// The engine's key for the discrepancy: equal for equal discrepancies,
    /// whichever interaction showed them.
    pub fingerprint: String,
}

/// The mathematical value of a `Finding`.
pub struct FindingView {
    /// The text of the description.
    pub detail: Seq<char>,
    /// The text of the fingerprint.
    pub fingerprint: Seq<char>,
}

impl View for Finding {
    type V = FindingView;

    open spec fn view(&self) -> FindingView {
        FindingView { detail: self.detail@, fingerprint: self.fingerprint@ }
    }
}

impl DeepView for Finding {
    type V = FindingView;

    open spec fn deep_view(&self) -> FindingView {
        self@
    }
}

/// What is written downstream for one finding: the finding, the tags of the
/// record that it came from, and the finding's fingerprint.
#[derive(Clone, Debug, PartialEq, Eq)]
pub struct ResultContainer<T>(pub T, pub Tags, pub String);

/// The mathematical value of a `ResultContainer`.
pub struct Envelope<V> {
    /// The finding.
    pub finding: V,
    /// The text of each tag of the record, in order.
    pub tags: Seq<Seq<char>>,
    /// The text of the fingerprint.
    pub fingerprint: Seq<char>,
}

impl<T: View> View for ResultContainer<T> {
    type V = Envelope<T::V>;

    open spec fn view(&self) -> Envelope<T::V> {
        Envelope { finding: self.0@, tags: tag_texts(self.1@), fingerprint: self.2@ }
    }
}

impl<T: View> DeepView for ResultContainer<T> {
    type V = Envelope<T::V>;

    open spec fn deep_view(&self) -> Envelope<T::V> {
        self@
    }
}

/// The text of each tag, in order.
pub open spec fn tag_texts(tags: Seq<String>) -> Seq<Seq<char>> {
    tags.map_values(|tag: String| tag@)
}

/// The envelope of one finding of a record with the given tags.
pub open spec fn envelope_of(finding: FindingView, tags: Seq<Seq<char>>) -> Envelope<FindingView> {
    Envelope { finding, tags, fingerprint: finding.fingerprint }
}

/// The envelopes of a record: one for each finding, in the order of the
/// findings, each with the record's tags.
pub open spec fn envelopes_of(findings: Seq<FindingView>, tags: Seq<Seq<char>>) -> Seq<
    Envelope<FindingView>,
> {
    findings.map_values(|finding: FindingView| envelope_of(finding, tags))
}

impl<'a> From<(Finding, &'a Tags)> for ResultContainer<Finding> {
    /// Puts a finding into its envelope: the tags are copied unchanged and the
    /// fingerprint is the finding's own.
    fn from(pair: (Finding, &'a Tags)) -> (envelope: Self)
        ensures
            envelope@ == envelope_of(pair.0@, tag_texts(pair.1@)),
            envelope.1@ == pair.1@,
    {
        let (result, tags) = pair;
        let fingerprint = result.fingerprint.clone();
        let copied = tags.clone();
        assert(copied@ =~= tags@);
        ResultContainer(result, copied, fingerprint)
    }
}

/// `from` copies the tags into a vector of its own, so what it returns is
/// stated by its view, in the contract of `from`, and not as a value here.
impl<'a> FromSpecImpl<(Finding, &'a Tags)> for ResultContainer<Finding> {
    open spec fn obeys_from_spec() -> bool {
        false
    }

    open spec fn from_spec(pair: (Finding, &'a Tags)) -> Self {
        ResultContainer(pair.0, *pair.1, pair.0.fingerprint)
    }
}

/// Puts each finding of a record into its envelope, in the order in which the
/// comparison engine returned them.
pub fn envelopes(findings: Vec<Finding>, tags: &Tags) -> (sealed: Vec<ResultContainer<Finding>>)
    ensures
        sealed.deep_view() == envelopes_of(findings.deep_view(), tag_texts(tags@)),
        sealed.len() == findings.len(),
        forall|i: int|
            0 <= i < sealed.len() ==> (#[trigger] sealed[i])@ == envelope_of(
                findings[i]@,
                tag_texts(tags@),
            ),
{
    let mut sealed: Vec<ResultContainer<Finding>> = Vec::new();
    for finding in iter: findings
        invariant
            sealed.len() == iter.index(),
            forall|i: int|
                0 <= i < sealed.len() ==> (#[trigger] sealed[i])@ == envelope_of(
                    iter.seq()[i]@,
                    tag_texts(tags@),
                ),
    {
        sealed.push(ResultContainer::from((finding, tags)));
    }
    sealed
}

} // verus!
