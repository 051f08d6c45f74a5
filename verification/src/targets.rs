//! Collections of recording targets.
//!
//! Both are kept under the numbers of the targets; their views are a set and a map of the
//! targets themselves.

use crate::recorder::RecordingTarget;
use std::collections::{HashMap, HashSet};
use vstd::prelude::*;

verus! {

broadcast use vstd::std_specs::hash::group_hash_axioms;

/// Whether the targets are those of the keys, in the same order.
spec fn are_targets_of(targets: Seq<RecordingTarget>, keys: Seq<&u128>) -> bool {
    &&& targets.len() == keys.len()
    &&& forall|j: int| 0 <= j < targets.len() ==> (#[trigger] targets[j]).key() == *keys[j]
}

/// Targets of different keys are different, and all of them are found under their keys.
proof fn lemma_targets_of_keys(targets: Seq<RecordingTarget>, keys: Seq<&u128>, t: RecordingTarget)
    requires
        are_targets_of(targets, keys),
        keys.no_duplicates(),
    ensures
        targets.no_duplicates(),
        targets.contains(t) <==> keys.unref().to_set().contains(t.key()),
{
    if targets.contains(t) {
        let j = choose|j: int| 0 <= j < targets.len() && targets[j] == t;
        assert(keys.unref()[j] == t.key());
    }
    if keys.unref().to_set().contains(t.key()) {
        let j = choose|j: int| 0 <= j < keys.unref().len() && keys.unref()[j] == t.key();
        crate::recorder::law_key_is_injective(targets[j], t);
        assert(targets[j] == t);
    }
}

/// A set of targets.
pub struct TargetSet {
    keys: HashSet<u128>,
}

impl View for TargetSet {
    type V = Set<RecordingTarget>;

    closed spec fn view(&self) -> Set<RecordingTarget> {
        Set::new(|t: RecordingTarget| self.keys@.contains(t.key()))
    }
}

impl TargetSet {
    /// Every number that is kept stands for a target.
    pub closed spec fn wf(&self) -> bool {
        forall|k: u128| #[trigger] self.keys@.contains(k) ==> k <= usize::MAX + 2
    }

    /// Makes an empty set.
    pub fn new() -> (s: Self)
        ensures
            s.wf(),
            s@ == Set::<RecordingTarget>::empty(),
    {
        let s = TargetSet { keys: HashSet::new() };
        assert(s@ =~= Set::<RecordingTarget>::empty());
        s
    }

    /// Whether the set is empty.
    pub fn is_empty(&self) -> (b: bool)
        requires
            self.wf(),
        ensures
            b == self@.is_empty(),
    {
        let b: bool = self.keys.is_empty();
        proof {
            if b {
                assert(self@ =~= Set::<RecordingTarget>::empty());
            } else {
                let k = choose|k: u128| self.keys@.contains(k);
                assert(self@.contains(RecordingTarget::of_key(k)));
            }
        }
        b
    }

    /// Whether a target is in the set.
    pub fn contains(&self, target: &RecordingTarget) -> (b: bool)
        ensures
            b == self@.contains(*target),
    {
        self.keys.contains(&target.to_key())
    }

    /// Puts a target into the set.
    pub(crate) fn insert(&mut self, target: RecordingTarget)
        requires
            old(self).wf(),
        ensures
            final(self).wf(),
            final(self)@ == old(self)@.insert(target),
    {
        self.keys.insert(target.to_key());
        proof {
            assert forall|t: RecordingTarget| #[trigger]
                self@.contains(t) <==> old(self)@.insert(target).contains(t) by {
                crate::recorder::law_key_is_injective(t, target);
            }
            assert(self@ =~= old(self)@.insert(target));
        }
    }

    /// Empties the set and returns what was in it, in no particular order.
    pub(crate) fn take_all(&mut self) -> (targets: Vec<RecordingTarget>)
        requires
            old(self).wf(),
        ensures
            final(self).wf(),
            final(self)@ == Set::<RecordingTarget>::empty(),
            targets@.no_duplicates(),
            forall|t: RecordingTarget| #[trigger] targets@.contains(t) <==> old(self)@.contains(t),
    {
        let mut targets: Vec<RecordingTarget> = Vec::new();
        let ghost keys = vstd::std_specs::iter::IteratorSpec::remaining(
            &vstd::std_specs::hash::spec_hash_keys_iter(&self.keys),
        );
        for key in iter: self.keys.iter()
            invariant
                iter.seq() == keys,
                keys.no_duplicates(),
                keys.unref().to_set() == self.keys@,
                self.wf(),
                targets@.len() == iter.index(),
                forall|j: int|
                    0 <= j < targets@.len() ==> (#[trigger] targets@[j]).key() == *keys[j],
        {
            assert(keys.unref()[iter.index()] == *key);
            assert(self.keys@.contains(*key));
            targets.push(RecordingTarget::from_key(*key));
        }
        self.keys.clear();
        proof {
            lemma_targets_of_keys(targets@, keys, RecordingTarget::Preview);
            assert forall|t: RecordingTarget| #[trigger] targets@.contains(t) <==> old(
                self,
            )@.contains(t) by {
                lemma_targets_of_keys(targets@, keys, t);
            }
            assert(self@ =~= Set::<RecordingTarget>::empty());
        }
        targets
    }
}

/// Whether a target is to be recorded, for each target for which this was set.
pub struct RecordConfigs {
    flags: HashMap<u128, bool>,
}

impl View for RecordConfigs {
    type V = Map<RecordingTarget, bool>;

    closed spec fn view(&self) -> Map<RecordingTarget, bool> {
        Map::new(
            |t: RecordingTarget| self.flags@.contains_key(t.key()),
            |t: RecordingTarget| self.flags@[t.key()],
        )
    }
}

impl RecordConfigs {
    /// Every number that is kept stands for a target.
    pub closed spec fn wf(&self) -> bool {
        forall|k: u128| #[trigger] self.flags@.contains_key(k) ==> k <= usize::MAX + 2
    }

    /// Settings in which nothing was set.
    pub fn new() -> (c: Self)
        ensures
            c.wf(),
            c@ == Map::<RecordingTarget, bool>::empty(),
    {
        let c = RecordConfigs { flags: HashMap::new() };
        assert(c@ =~= Map::<RecordingTarget, bool>::empty());
        c
    }

    /// Sets whether a target is to be recorded, and returns what was set before.
    pub fn insert(&mut self, target: RecordingTarget, enabled: bool) -> (before: Option<bool>)
        requires
            old(self).wf(),
        ensures
            final(self).wf(),
            final(self)@ == old(self)@.insert(target, enabled),
            before == if old(self)@.contains_key(target) {
                Some(old(self)@[target])
            } else {
                None
            },
    {
        let before = self.flags.insert(target.to_key(), enabled);
        assert(self@ =~= old(self)@.insert(target, enabled));
        before
    }

    /// Whether a target is to be recorded, if this was set.
    pub fn get(&self, target: &RecordingTarget) -> (enabled: Option<&bool>)
        ensures
            enabled == if self@.contains_key(*target) {
                Some(&self@[*target])
            } else {
                None
            },
    {
        self.flags.get(&target.to_key())
    }

    /// Forgets what was set for a target, and returns it.
    pub fn remove(&mut self, target: &RecordingTarget) -> (before: Option<bool>)
        requires
            old(self).wf(),
        ensures
            final(self).wf(),
            final(self)@ == old(self)@.remove(*target),
            before == if old(self)@.contains_key(*target) {
                Some(old(self)@[*target])
            } else {
                None
            },
    {
        let before = self.flags.remove(&target.to_key());
        assert(self@ =~= old(self)@.remove(*target));
        before
    }

    /// The targets for which something was set, in no particular order.
    pub fn targets(&self) -> (targets: Vec<RecordingTarget>)
        requires
            self.wf(),
        ensures
            targets@.no_duplicates(),
            forall|t: RecordingTarget| #[trigger]
                targets@.contains(t) <==> self@.contains_key(t),
    {
        let mut targets: Vec<RecordingTarget> = Vec::new();
        let ghost keys = vstd::std_specs::iter::IteratorSpec::remaining(
            &vstd::std_specs::hash::spec_keys_iter(&self.flags),
        );
        for key in iter: self.flags.keys()
            invariant
                iter.seq() == keys,
                keys.no_duplicates(),
                keys.unref().to_set() == self.flags@.dom(),
                self.wf(),
                targets@.len() == iter.index(),
                forall|j: int|
                    0 <= j < targets@.len() ==> (#[trigger] targets@[j]).key() == *keys[j],
        {
            assert(keys.unref()[iter.index()] == *key);
            assert(self.flags@.contains_key(*key));
            targets.push(RecordingTarget::from_key(*key));
        }
        proof {
            lemma_targets_of_keys(targets@, keys, RecordingTarget::Preview);
            assert forall|t: RecordingTarget| #[trigger]
                targets@.contains(t) <==> self@.contains_key(t) by {
                lemma_targets_of_keys(targets@, keys, t);
            }
        }
        targets
    }
}

/// What was set for a target last is what is found, other targets keep what was set for
/// them, and removing undoes setting.
pub proof fn law_settings_are_independent(
    configs: Map<RecordingTarget, bool>,
    target: RecordingTarget,
    enabled: bool,
    other: RecordingTarget,
)
    ensures
        configs.insert(target, enabled).contains_key(target),
        configs.insert(target, enabled)[target] == enabled,
        other != target ==> configs.insert(target, enabled).contains_key(other)
            == configs.contains_key(other),
        other != target && configs.contains_key(other) ==> configs.insert(target, enabled)[other]
            == configs[other],
        !configs.contains_key(target) ==> configs.insert(target, enabled).remove(target) == configs,
{
    assert(!configs.contains_key(target) ==> configs.insert(target, enabled).remove(target)
        =~= configs);
}

} // verus!
