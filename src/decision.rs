use vstd::prelude::*;
use crate::diff::{Discrepancy, Severity};

verus! {

/// How an operator, or the unattended policy, resolved one discrepancy.
#[derive(Debug, Clone)]
pub enum DecisionType {
    AcceptRisk,
    SkipItem,
    /// A per-issue override (such as a column type cast) for this run's plan.
    ModifyConfig(String),
    Abort,
}

pub enum DecisionKindModel {
    AcceptRisk,
    SkipItem,
    ModifyConfig(Seq<char>),
    Abort,
}

impl View for DecisionType {
    type V = DecisionKindModel;

    open spec fn view(&self) -> DecisionKindModel {
        match self {
            DecisionType::AcceptRisk => DecisionKindModel::AcceptRisk,
            DecisionType::SkipItem => DecisionKindModel::SkipItem,
            DecisionType::ModifyConfig(p) => DecisionKindModel::ModifyConfig(p@),
            DecisionType::Abort => DecisionKindModel::Abort,
        }
    }
}

impl DecisionType {
    /// Copies the decision.
    pub fn duplicate(&self) -> (r: DecisionType)
        ensures
            r@ == self@,
    {
        match self {
            DecisionType::AcceptRisk => DecisionType::AcceptRisk,
            DecisionType::SkipItem => DecisionType::SkipItem,
            DecisionType::ModifyConfig(p) => DecisionType::ModifyConfig(p.clone()),
            DecisionType::Abort => DecisionType::Abort,
        }
    }

    /// Whether the resolved item goes on to the plan generator.
    pub fn proceeds(&self) -> (r: bool)
        ensures
            r == !(self@ is SkipItem || self@ is Abort),
    {
        match self {
            DecisionType::SkipItem | DecisionType::Abort => false,
            _ => true,
        }
    }
}

/// A recorded resolution. `timestamp` is in seconds since the Unix epoch, UTC.
#[derive(Debug, Clone)]
pub struct Decision {
    pub issue_id: String,
    pub decision: DecisionType,
    pub timestamp: i64,
    pub operator: String,
    pub comment: Option<String>,
}

/// The decision that the unattended policy takes: abort on a Fatal
/// discrepancy, accept the risk of any other.
pub open spec fn policy_decision(severity: Severity) -> DecisionKindModel {
    if severity == Severity::Fatal { DecisionKindModel::Abort } else { DecisionKindModel::AcceptRisk }
}

/// The unattended resolver.
pub fn default_decision(issue: &Discrepancy) -> (r: DecisionType)
    ensures
        r@ == policy_decision(issue.severity),
{
    match issue.severity {
        Severity::Fatal => DecisionType::Abort,
        _ => DecisionType::AcceptRisk,
    }
}

/// Whether `s[i]` is the decision recorded for `id`.
pub open spec fn recorded_at(s: Seq<Decision>, id: Seq<char>, i: int) -> bool {
    0 <= i < s.len() && s[i].issue_id@ == id
}

/// The decision kind recorded for `id` in a store whose ids are unique.
pub open spec fn recorded(s: Seq<Decision>, id: Seq<char>) -> Option<DecisionKindModel> {
    if exists|i: int| recorded_at(s, id, i) {
        Some(s[choose|i: int| recorded_at(s, id, i)].decision@)
    } else {
        None
    }
}

/// The decisions after recording `kind` for `id`: an issue that already has
/// a decision keeps it.
pub open spec fn after_record(m: Map<Seq<char>, DecisionKindModel>, id: Seq<char>, kind: DecisionKindModel) -> Map<Seq<char>, DecisionKindModel> {
    if m.contains_key(id) { m } else { m.insert(id, kind) }
}

/// Resolving an issue twice gives the same decision and asks the resolver at
/// most once: once a decision is recorded for an id, the resolver step finds
/// it, and a later recording for that id changes nothing and returns the
/// decision already on record.
pub proof fn lemma_decision_memoized(m: Map<Seq<char>, DecisionKindModel>, id: Seq<char>, first: DecisionKindModel, second: DecisionKindModel)
    ensures
        after_record(m, id, first).contains_key(id),
        after_record(after_record(m, id, first), id, second) == after_record(m, id, first),
        after_record(after_record(m, id, first), id, second)[id] == after_record(m, id, first)[id],
        !m.contains_key(id) ==> after_record(m, id, first)[id] == first,
{
}

/// What the resolver step needs to do for one issue.
pub enum Resolution {
    /// A decision is on record and binds this run.
    Memoized(DecisionType),
    /// No decision is on record: the resolver must be asked.
    Ask,
}

/// The persisted mapping from issue id to decision, one entry per id.
pub struct DecisionStore {
    entries: Vec<Decision>,
}

impl DecisionStore {
    /// Issue ids are unique.
    pub closed spec fn wf(&self) -> bool {
        forall|i: int, j: int|
            0 <= i < self.entries@.len() && 0 <= j < self.entries@.len()
                && #[trigger] self.entries@[i].issue_id@ == #[trigger] self.entries@[j].issue_id@ ==> i == j
    }

    /// The recorded decision kind of `id`.
    pub closed spec fn decided(&self, id: Seq<char>) -> Option<DecisionKindModel> {
        recorded(self.entries@, id)
    }

    /// The decisions on record, keyed by issue id.
    pub closed spec fn decisions(&self) -> Map<Seq<char>, DecisionKindModel> {
        Map::new(|id: Seq<char>| self.decided(id) is Some, |id: Seq<char>| self.decided(id).unwrap())
    }

    pub closed spec fn len_spec(&self) -> nat {
        self.entries@.len()
    }

    /// An empty store.
    pub fn new() -> (r: DecisionStore)
        ensures
            r.wf(),
            r.decisions() == Map::<Seq<char>, DecisionKindModel>::empty(),
    {
        let r = DecisionStore { entries: Vec::new() };
        assert(r.decisions() =~= Map::<Seq<char>, DecisionKindModel>::empty());
        r
    }

    /// The number of decisions on record.
    pub fn len(&self) -> (r: usize)
        ensures
            r == self.len_spec(),
    {
        self.entries.len()
    }

    /// The decision on record at position `i`, in the order of recording.
    pub fn get(&self, i: usize) -> (r: &Decision)
        requires
            i < self.len_spec(),
    {
        &self.entries[i]
    }

    fn position(&self, issue_id: &str) -> (r: Option<usize>)
        requires
            self.wf(),
        ensures
            match r {
                Some(i) => i < self.entries@.len() && self.entries@[i as int].issue_id@ == issue_id@
                    && self.decided(issue_id@) == Some(self.entries@[i as int].decision@),
                None => self.decided(issue_id@) is None,
            },
    {
        let key = String::from_str(issue_id);
        let mut i: usize = 0;
        while i < self.entries.len()
            invariant
                key@ == issue_id@,
                self.wf(),
                i <= self.entries@.len(),
                forall|j: int| 0 <= j < i ==> #[trigger] self.entries@[j].issue_id@ != issue_id@,
            decreases self.entries@.len() - i,
        {
            if self.entries[i].issue_id == key {
                proof {
                    let k = choose|k: int| recorded_at(self.entries@, issue_id@, k);
                    assert(recorded_at(self.entries@, issue_id@, i as int));
                    assert(k == i);
                }
                return Some(i);
            }
            i = i + 1;
        }
        None
    }

    /// The decision on record for `issue_id`, if any.
    pub fn lookup(&self, issue_id: &str) -> (r: Option<DecisionType>)
        requires
            self.wf(),
        ensures
            r is Some <==> self.decisions().contains_key(issue_id@),
            r matches Some(d) ==> d@ == self.decisions()[issue_id@],
    {
        match self.position(issue_id) {
            Some(i) => Some(self.entries[i].decision.duplicate()),
            None => None,
        }
    }

    /// The first step of resolving an issue: a decision on record is returned
    /// as it stands; only where none is the resolver asked.
    pub fn resolve(&self, issue_id: &str) -> (r: Resolution)
        requires
            self.wf(),
        ensures
            r is Ask <==> !self.decisions().contains_key(issue_id@),
            r matches Resolution::Memoized(d) ==> d@ == self.decisions()[issue_id@],
    {
        match self.lookup(issue_id) {
            Some(d) => Resolution::Memoized(d),
            None => Resolution::Ask,
        }
    }

    /// Records `d` unless its issue already has a decision, and returns the
    /// decision that binds the issue: the earlier one where there is one.
    pub fn record(&mut self, d: Decision) -> (r: DecisionType)
        requires
            old(self).wf(),
        ensures
            final(self).wf(),
            final(self).decisions() == after_record(old(self).decisions(), d.issue_id@, d.decision@),
            r@ == final(self).decisions()[d.issue_id@],
            final(self).len_spec() == old(self).len_spec() + if old(self).decisions().contains_key(d.issue_id@) { 0int } else { 1int },
    {
        match self.position(d.issue_id.as_str()) {
            Some(i) => {
                let r = self.entries[i].decision.duplicate();
                assert(self.decisions() =~= after_record(old(self).decisions(), d.issue_id@, d.decision@));
                r
            },
            None => {
                let r = d.decision.duplicate();
                let ghost before = self.entries@;
                let ghost id = d.issue_id@;
                self.entries.push(d);
                proof {
                    let s = self.entries@;
                    assert(recorded_at(s, id, before.len() as int));
                    assert forall|k: int| recorded_at(s, id, k) implies k == before.len() by {
                        if k < before.len() {
                            assert(before[k] == s[k]);
                            assert(!recorded_at(before, id, k));
                        }
                    }
                    assert forall|x: Seq<char>| x != id implies #[trigger] recorded(s, x) == recorded(before, x) by {
                        if exists|k: int| recorded_at(before, x, k) {
                            let k = choose|k: int| recorded_at(before, x, k);
                            assert(recorded_at(s, x, k));
                            let k2 = choose|k2: int| recorded_at(s, x, k2);
                            assert(recorded_at(before, x, k2));
                        } else {
                            assert forall|k: int| !recorded_at(s, x, k) by {
                                if recorded_at(s, x, k) {
                                    assert(recorded_at(before, x, k));
                                }
                            }
                        }
                    }
                    assert forall|i: int, j: int|
                        0 <= i < s.len() && 0 <= j < s.len() && #[trigger] s[i].issue_id@ == #[trigger] s[j].issue_id@
                        implies i == j by {
                        if i < before.len() && j == before.len() {
                            assert(recorded_at(before, id, i));
                        } else if j < before.len() && i == before.len() {
                            assert(recorded_at(before, id, j));
                        }
                    }
                    assert(self.decided(id) == Some(d.decision@));
                    assert(self.decisions() =~= after_record(old(self).decisions(), id, d.decision@));
                }
                r
            },
        }
    }
}

} // verus!
