//! Toggle relations between names: who favorites which article and who
//! follows whom. The existence of an edge is its whole state.

use vstd::prelude::*;
use crate::error::FeedError;
use crate::text::same_text;

verus! {

broadcast use vstd::seq_lib::group_seq_properties;

/// An edge between two names, as values.
pub type EdgeModel = (Seq<char>, Seq<char>);

/// The relation after one toggle of `e`: removed if present, added if not.
pub open spec fn toggled(s: Set<EdgeModel>, e: EdgeModel) -> Set<EdgeModel> {
    if s.contains(e) {
        s.remove(e)
    } else {
        s.insert(e)
    }
}

/// The relation after `n` toggles of `e`, one after the other.
pub open spec fn toggled_times(s: Set<EdgeModel>, e: EdgeModel, n: nat) -> Set<EdgeModel>
    decreases n,
{
    if n == 0 {
        s
    } else {
        toggled(toggled_times(s, e, (n - 1) as nat), e)
    }
}

/// Toggles compose like parity flips: after `n` toggles of one edge, it
/// exists exactly when it existed before and `n` is even, or it did not
/// and `n` is odd. Every other edge is untouched.
pub proof fn lemma_toggle_parity(s: Set<EdgeModel>, e: EdgeModel, n: nat)
    ensures
        toggled_times(s, e, n).contains(e) == (s.contains(e) != (n % 2 == 1)),
        forall|x: EdgeModel| x != e ==> toggled_times(s, e, n).contains(x) == s.contains(x),
    decreases n,
{
    if n > 0 {
        lemma_toggle_parity(s, e, (n - 1) as nat);
    }
}

/// The edges of `s` that end at `to`.
pub open spec fn edges_to(s: Set<EdgeModel>, to: Seq<char>) -> Set<EdgeModel> {
    s.filter(|x: EdgeModel| x.1 == to)
}

pub open spec fn edge_of(e: (String, String)) -> EdgeModel {
    (e.0@, e.1@)
}

/// A set of edges between names.
pub struct EdgeSet {
    edges: Vec<(String, String)>,
}

impl EdgeSet {
    pub closed spec fn list(&self) -> Seq<EdgeModel> {
        self.edges@.map_values(|e: (String, String)| edge_of(e))
    }

    /// No edge is held twice.
    pub closed spec fn wf(&self) -> bool {
        self.list().no_duplicates()
    }

    pub closed spec fn view(&self) -> Set<EdgeModel> {
        self.list().to_set()
    }

    pub fn new() -> (r: EdgeSet)
        ensures
            r.wf(),
            r.view() == Set::<EdgeModel>::empty(),
    {
        let r = EdgeSet { edges: Vec::new() };
        assert(r.list() =~= Seq::<EdgeModel>::empty());
        assert(r.view() =~= Set::<EdgeModel>::empty());
        r
    }

    fn position(&self, from: &str, to: &str) -> (r: Option<usize>)
        ensures
            r is Some ==> r->0 < self.list().len() && self.list()[r->0 as int] == (from@, to@),
            r is None ==> !self.view().contains((from@, to@)),
    {
        let mut i: usize = 0;
        while i < self.edges.len()
            invariant
                i <= self.edges@.len(),
                forall|j: int| 0 <= j < i ==> self.list()[j] != (from@, to@),
            decreases self.edges@.len() - i,
        {
            let e = &self.edges[i];
            if same_text(e.0.as_str(), from) && same_text(e.1.as_str(), to) {
                return Some(i);
            }
            i = i + 1;
        }
        None
    }

    /// Whether the edge `from -> to` exists.
    pub fn contains(&self, from: &str, to: &str) -> (r: bool)
        ensures
            r == self.view().contains((from@, to@)),
    {
        match self.position(from, to) {
            Some(_) => true,
            None => false,
        }
    }

    /// Adds the edge `from -> to`; returns whether it was absent. Adding an
    /// edge that exists leaves the relation as it is, as a uniqueness
    /// constraint would.
    pub fn insert(&mut self, from: &str, to: &str) -> (r: bool)
        requires
            old(self).wf(),
        ensures
            final(self).wf(),
            r == !old(self).view().contains((from@, to@)),
            final(self).view() == old(self).view().insert((from@, to@)),
    {
        if self.contains(from, to) {
            assert(self.view() =~= self.view().insert((from@, to@)));
            return false;
        }
        let ghost before = self.list();
        self.edges.push((from.to_string(), to.to_string()));
        assert(self.list() =~= before.push((from@, to@)));
        assert(self.view() =~= before.to_set().insert((from@, to@)));
        true
    }

    /// Removes the edge `from -> to`; returns whether it existed.
    pub fn remove(&mut self, from: &str, to: &str) -> (r: bool)
        requires
            old(self).wf(),
        ensures
            final(self).wf(),
            r == old(self).view().contains((from@, to@)),
            final(self).view() == old(self).view().remove((from@, to@)),
    {
        match self.position(from, to) {
            None => {
                assert(self.view() =~= self.view().remove((from@, to@)));
                false
            },
            Some(i) => {
                let ghost before = self.list();
                let ghost e = (from@, to@);
                self.edges.remove(i);
                assert(self.list() =~= before.remove(i as int));
                assert(self.view() =~= before.to_set().remove(e)) by {
                    assert forall|x: EdgeModel| #[trigger]
                        self.view().contains(x) == before.to_set().remove(e).contains(x) by {
                        if before.to_set().remove(e).contains(x) {
                            let k = choose|k: int| 0 <= k < before.len() && before[k] == x;
                            assert(k != i);
                            if k < i {
                                assert(self.list()[k] == x);
                            } else {
                                assert(self.list()[k - 1] == x);
                            }
                        }
                        if self.view().contains(x) {
                            let k = choose|k: int|
                                0 <= k < self.list().len() && self.list()[k] == x;
                            if k < i {
                                assert(before[k] == x);
                            } else {
                                assert(before[k + 1] == x);
                            }
                        }
                    }
                }
                true
            },
        }
    }

    /// Toggles the edge `from -> to` in one step: removes it if it exists,
    /// adds it if not. Returns whether it exists afterwards.
    pub fn toggle(&mut self, from: &str, to: &str) -> (r: bool)
        requires
            old(self).wf(),
        ensures
            final(self).wf(),
            r == !old(self).view().contains((from@, to@)),
            final(self).view() == toggled(old(self).view(), (from@, to@)),
    {
        if self.contains(from, to) {
            self.remove(from, to);
            false
        } else {
            self.insert(from, to);
            true
        }
    }

    /// The number of edges.
    pub fn len(&self) -> (r: usize)
        requires
            self.wf(),
        ensures
            r == self.view().len(),
    {
        proof {
            self.list().unique_seq_to_set();
        }
        self.edges.len()
    }

    /// The number of edges that end at `to`.
    pub fn count_to(&self, to: &str) -> (r: usize)
        requires
            self.wf(),
        ensures
            r == edges_to(self.view(), to@).len(),
    {
        let mut n: usize = 0;
        let mut i: usize = 0;
        assert(edges_to(self.list().take(0).to_set(), to@) =~= Set::<EdgeModel>::empty());
        while i < self.edges.len()
            invariant
                self.wf(),
                i <= self.edges@.len(),
                n <= i,
                n == edges_to(self.list().take(i as int).to_set(), to@).len(),
            decreases self.edges@.len() - i,
        {
            let ghost t = self.list().take(i as int);
            let ghost x = self.list()[i as int];
            proof {
                assert(self.list().take(i + 1) =~= t.push(x));
                t.lemma_push_to_set_commute(x);
                assert(!t.to_set().contains(x)) by {
                    if t.to_set().contains(x) {
                        let k = choose|k: int| 0 <= k < t.len() && t[k] == x;
                        assert(self.list()[k] == self.list()[i as int]);
                    }
                }
                let old_set = edges_to(t.to_set(), to@);
                assert(!old_set.contains(x));
                if x.1 == to@ {
                    assert(edges_to(t.push(x).to_set(), to@) =~= old_set.insert(x));
                } else {
                    assert(edges_to(t.push(x).to_set(), to@) =~= old_set);
                }
            }
            if same_text(self.edges[i].1.as_str(), to) {
                n = n + 1;
            }
            i = i + 1;
        }
        assert(self.list().take(i as int) =~= self.list());
        n
    }
}

/// The write that a toggle makes once it has looked the edge up.
#[derive(Clone, Copy, Debug, PartialEq, Eq, Structural)]
pub enum ToggleStep {
    Insert,
    Delete,
}

/// The write of a toggle: delete an edge that exists, insert one that
/// does not.
pub open spec fn step_for(exists: bool) -> ToggleStep {
    if exists {
        ToggleStep::Delete
    } else {
        ToggleStep::Insert
    }
}

/// Chooses the write of a toggle: delete an edge that exists, insert one
/// that does not.
pub fn toggle_step(exists: bool) -> (r: ToggleStep)
    ensures
        r == step_for(exists),
{
    if exists {
        ToggleStep::Delete
    } else {
        ToggleStep::Insert
    }
}

/// How a store answered the write of a toggle.
#[derive(Clone, Copy, Debug, PartialEq, Eq, Structural)]
pub enum WriteOutcome {
    /// The row was inserted or deleted.
    Applied,
    /// A concurrent request got there first: the insert hit the uniqueness
    /// constraint, or the delete found no row.
    AlreadyDone,
    /// The store failed.
    Failed,
}

/// What a toggle did, as the store answered it.
#[derive(Clone, Copy, Debug, PartialEq, Eq, Structural)]
pub enum ToggleResult {
    /// This call added the edge.
    Inserted,
    /// This call removed the edge.
    Deleted,
    /// The edge was to be added, but a concurrent call had added it.
    AlreadyPresent,
    /// The edge was to be removed, but a concurrent call had removed it.
    AlreadyAbsent,
}

/// Whether the edge exists after a toggle with this result.
pub open spec fn exists_after(r: ToggleResult) -> bool {
    r == ToggleResult::Inserted || r == ToggleResult::AlreadyPresent
}

impl ToggleResult {
    /// Whether the edge exists after the call.
    pub fn edge_exists(&self) -> (r: bool)
        ensures
            r == exists_after(*self),
    {
        match self {
            ToggleResult::Inserted | ToggleResult::AlreadyPresent => true,
            _ => false,
        }
    }

    /// The transition that this call made, if it made one: `Some(true)`
    /// when it added the edge, `Some(false)` when it removed it, `None`
    /// when a concurrent call had already made the change.
    pub fn transition(&self) -> (r: Option<bool>)
        ensures
            *self == ToggleResult::Inserted ==> r == Some(true),
            *self == ToggleResult::Deleted ==> r == Some(false),
            (*self == ToggleResult::AlreadyPresent || *self == ToggleResult::AlreadyAbsent) ==> r
                is None,
    {
        match self {
            ToggleResult::Inserted => Some(true),
            ToggleResult::Deleted => Some(false),
            _ => None,
        }
    }
}

/// The result of a toggle from its write and the store's answer. A write
/// that a concurrent call already made is no failure: the state it aimed
/// at holds. But it is reported apart, so that of two racing inserts only
/// the one that added the row reports the transition.
pub fn toggle_outcome(step: ToggleStep, outcome: WriteOutcome) -> (r: Result<
    ToggleResult,
    FeedError,
>)
    ensures
        outcome == WriteOutcome::Failed ==> r == Err::<ToggleResult, FeedError>(
            FeedError::PersistenceFailure,
        ),
        outcome != WriteOutcome::Failed ==> r == Ok::<ToggleResult, FeedError>(
            outcome_of(step, outcome),
        ),
{
    match (outcome, step) {
        (WriteOutcome::Failed, _) => Err(FeedError::PersistenceFailure),
        (WriteOutcome::Applied, ToggleStep::Insert) => Ok(ToggleResult::Inserted),
        (WriteOutcome::Applied, ToggleStep::Delete) => Ok(ToggleResult::Deleted),
        (WriteOutcome::AlreadyDone, ToggleStep::Insert) => Ok(ToggleResult::AlreadyPresent),
        (WriteOutcome::AlreadyDone, ToggleStep::Delete) => Ok(ToggleResult::AlreadyAbsent),
    }
}

/// Two toggles that race from an absent edge both choose to insert; the
/// store applies one insert and refuses the other as a duplicate. Then
/// exactly one of the two calls reports the inserting transition, and
/// both report that the edge exists.
pub proof fn lemma_racing_inserts(first: WriteOutcome, second: WriteOutcome)
    requires
        (first == WriteOutcome::Applied && second == WriteOutcome::AlreadyDone) || (first
            == WriteOutcome::AlreadyDone && second == WriteOutcome::Applied),
    ensures
        (outcome_of(step_for(false), first) == ToggleResult::Inserted) != (outcome_of(
            step_for(false),
            second,
        ) == ToggleResult::Inserted),
        exists_after(outcome_of(step_for(false), first)),
        exists_after(outcome_of(step_for(false), second)),
{
}

/// The toggle result of a write that the store did not fail.
pub open spec fn outcome_of(step: ToggleStep, outcome: WriteOutcome) -> ToggleResult {
    if step == ToggleStep::Insert {
        if outcome == WriteOutcome::Applied {
            ToggleResult::Inserted
        } else {
            ToggleResult::AlreadyPresent
        }
    } else {
        if outcome == WriteOutcome::Applied {
            ToggleResult::Deleted
        } else {
            ToggleResult::AlreadyAbsent
        }
    }
}

} // verus!
