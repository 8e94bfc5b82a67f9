//! The trained model: one index per grouping key, and the decision between
//! loading a persisted model and training a new one.
use vstd::prelude::*;
use crate::content::Source;
use crate::index_name::IndexName;

verus! {

/// What to do about the model of an invocation.
#[derive(Debug, Clone, Copy, PartialEq, Eq)]
pub enum ModelPlan {
    /// Load the persisted model.
    Load,
    /// A persisted model and explicit baselines were both given: fail.
    Ambiguous,
    /// Train from the explicit baselines.
    TrainFromGiven,
    /// Train from the baselines discovered next to the target.
    TrainFromDiscovered,
}

/// Decides between loading and training, from whether a persisted model
/// exists at the given path and whether explicit baselines were given. A
/// persisted model together with explicit baselines is ambiguous, and nothing
/// is loaded or trained then.
pub fn resolve_model(model_exists: bool, baselines_given: bool) -> (r: ModelPlan)
    ensures
        model_exists && !baselines_given ==> r is Load,
        model_exists && baselines_given ==> r is Ambiguous,
        !model_exists && baselines_given ==> r is TrainFromGiven,
        !model_exists && !baselines_given ==> r is TrainFromDiscovered,
{
    if model_exists {
        if baselines_given {
            ModelPlan::Ambiguous
        } else {
            ModelPlan::Load
        }
    } else if baselines_given {
        ModelPlan::TrainFromGiven
    } else {
        ModelPlan::TrainFromDiscovered
    }
}

/// Whether the model is saved after it was made: only to a path that was
/// given and held nothing when the invocation started, so that an existing
/// model is never overwritten.
pub fn should_save(model_path_given: bool, existed_at_start: bool) -> (r: bool)
    ensures
        r == (model_path_given && !existed_at_start),
{
    model_path_given && !existed_at_start
}

/// The mapping that a list of entries stands for: a later entry of a key
/// replaces an earlier one.
pub open spec fn entries_map<I>(s: Seq<(IndexName, I)>) -> Map<Seq<char>, I>
    decreases s.len(),
{
    if s.len() == 0 {
        Map::empty()
    } else {
        entries_map(s.drop_last()).insert(s.last().0@, s.last().1)
    }
}

/// One index per grouping key.
pub struct Model<I> {
    indexes: Vec<(IndexName, I)>,
}

impl<I> View for Model<I> {
    type V = Map<Seq<char>, I>;

    closed spec fn view(&self) -> Map<Seq<char>, I> {
        entries_map(self.indexes@)
    }
}

proof fn lemma_entries_map_prefix<I>(s: Seq<(IndexName, I)>, j: int, k: Seq<char>)
    requires
        0 <= j <= s.len(),
        forall|a: int| j <= a < s.len() ==> (#[trigger] s[a]).0@ != k,
    ensures
        entries_map(s).contains_key(k) == entries_map(s.subrange(0, j)).contains_key(k),
        entries_map(s).contains_key(k) ==> entries_map(s)[k] == entries_map(s.subrange(0, j))[k],
    decreases s.len() - j,
{
    if j < s.len() {
        let t = s.subrange(0, j + 1);
        assert(t.drop_last() =~= s.subrange(0, j));
        assert(t.last() == s[j]);
        lemma_entries_map_prefix(s, j + 1, k);
        if j + 1 < s.len() {
            assert(s.subrange(0, j + 1) == t);
        } else {
            assert(s =~= t);
        }
    } else {
        assert(s =~= s.subrange(0, j));
    }
}

impl<I> Model<I> {
    /// A model with no index.
    pub fn new() -> (r: Model<I>)
        ensures
            r@ == Map::<Seq<char>, I>::empty(),
    {
        Model { indexes: Vec::new() }
    }

    /// Records the index trained for a group, replacing any earlier one.
    pub fn add_index(&mut self, name: IndexName, index: I)
        ensures
            final(self)@ == old(self)@.insert(name@, index),
    {
        let ghost before = self.indexes@;
        self.indexes.push((name, index));
        assert(self.indexes@.drop_last() =~= before);
    }

    /// The index of a source's group, or `None` where that group has no
    /// trained baseline.
    pub fn get_index(&self, source: &Source) -> (r: Option<&I>)
        ensures
            r is None <==> !self@.contains_key(source.key()),
            r matches Some(x) ==> self@[source.key()] == *x,
    {
        let name = source.index_name();
        let mut j: usize = self.indexes.len();
        while j > 0
            invariant
                j <= self.indexes@.len(),
                name@ == source.key(),
                forall|a: int| j <= a < self.indexes@.len() ==> (#[trigger] self.indexes@[a]).0@
                    != name@,
            decreases j,
        {
            if self.indexes[j - 1].0.0 == name.0 {
                proof {
                    lemma_entries_map_prefix(self.indexes@, j as int, name@);
                    let t = self.indexes@.subrange(0, j as int);
                    assert(t.last() == self.indexes@[j - 1]);
                }
                return Some(&self.indexes[j - 1].1);
            }
            j = j - 1;
        }
        proof {
            lemma_entries_map_prefix(self.indexes@, 0, name@);
        }
        None
    }

    /// The model's entries, for the persistence layer to write.
    pub fn entries(&self) -> (r: &Vec<(IndexName, I)>)
        ensures
            entries_map(r@) == self@,
    {
        &self.indexes
    }

    /// The model that a list of entries read back by the persistence layer
    /// stands for.
    pub fn from_entries(entries: Vec<(IndexName, I)>) -> (r: Model<I>)
        ensures
            r@ == entries_map(entries@),
    {
        Model { indexes: entries }
    }
}

/// A model written out as its entries and read back from the same entries
/// answers every lookup as before: it has an index for exactly the same
/// grouping keys, and the same index for each.
pub proof fn reload_keeps_lookups<I>(saved: Model<I>, entries: Seq<(IndexName, I)>, reloaded: Model<I>)
    requires
        entries_map(entries) == saved@,
        reloaded@ == entries_map(entries),
    ensures
        forall|k: Seq<char>| reloaded@.contains_key(k) == saved@.contains_key(k),
        forall|k: Seq<char>| #[trigger] saved@.contains_key(k) ==> reloaded@[k] == saved@[k],
{
}

} // verus!
