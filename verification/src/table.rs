//! The path-keyed node table of the in-memory filesystem: an `FxHashMap` from
//! `rustc_hash`, behind a few trusted operations.
use rustc_hash::FxHashMap;
use vstd::prelude::*;

use crate::locks::LockState;
use crate::memory::Node;

verus! {

/// An `FxHashMap<String, Node>` keyed by normalised path.
#[verifier::external_body]
#[derive(Debug)]
pub struct NodeTable {
    map: FxHashMap<String, Node>,
}

/// What the table holds: each key, by its characters, to its node.
pub uninterp spec fn node_table_entries(table: NodeTable) -> Map<Seq<char>, Node>;

impl NodeTable {
    /// `FxHashMap::default()`: an empty map.
    #[verifier::external_body]
    pub(crate) fn new() -> (fresh: NodeTable)
        ensures
            node_table_entries(fresh).dom() == Set::<Seq<char>>::empty(),
    {
        NodeTable { map: FxHashMap::default() }
    }

    /// `HashMap::get`: the node stored under `key`, if any (`String` hashes and compares by
    /// its characters).
    #[verifier::external_body]
    pub(crate) fn get<'a>(&'a self, key: &str) -> (r: Option<&'a Node>)
        ensures
            r is Some == node_table_entries(*self).contains_key(key@),
            r matches Some(n) ==> *n == node_table_entries(*self)[key@],
    {
        self.map.get(key)
    }

    /// `HashMap::insert`: stores `node` under `key`, replacing what was there.
    #[verifier::external_body]
    pub(crate) fn insert(&mut self, key: String, node: Node)
        ensures
            node_table_entries(*final(self)) == node_table_entries(*old(self)).insert(key@, node),
    {
        self.map.insert(key, node);
    }

    /// `HashMap::remove`: drops the entry under `key`, if any.
    #[verifier::external_body]
    pub(crate) fn remove(&mut self, key: &str)
        ensures
            node_table_entries(*final(self)) == node_table_entries(*old(self)).remove(key@),
    {
        self.map.remove(key);
    }

    /// `HashMap::len`: how many entries the table holds.
    #[verifier::external_body]
    pub(crate) fn len(&self) -> (n: usize)
        ensures
            n == node_table_entries(*self).dom().len(),
    {
        self.map.len()
    }

    /// `HashMap::keys`, copied out: every key once, in the map's (unstated) order.
    #[verifier::external_body]
    pub(crate) fn keys(&self) -> (ks: Vec<String>)
        ensures
            forall|i: int|
                0 <= i < ks.len() ==> node_table_entries(*self).contains_key(#[trigger] ks[i]@),
            forall|k: Seq<char>|
                node_table_entries(*self).contains_key(k) ==> exists|i: int|
                    0 <= i < ks.len() && #[trigger] ks[i]@ == k,
            forall|i: int, j: int| 0 <= i < j < ks.len() ==> ks[i]@ != ks[j]@,
    {
        self.map.keys().cloned().collect()
    }
}

} // verus!

verus! {

/// The advisory-lock table of one thread: an `FxHashMap<String, LockState>` keyed by
/// normalised path.
#[verifier::external_body]
#[derive(Debug)]
pub struct LockTable {
    map: FxHashMap<String, LockState>,
}

/// What the lock table holds: each path, by its characters, to its state.
pub uninterp spec fn lock_table_entries(table: LockTable) -> Map<Seq<char>, LockState>;

impl LockTable {
    /// `FxHashMap::default()`: an empty map.
    #[verifier::external_body]
    pub(crate) fn new() -> (fresh: LockTable)
        ensures
            lock_table_entries(fresh) == crate::locks::no_locks(),
    {
        LockTable { map: FxHashMap::default() }
    }

    /// `HashMap::get`, copied out: the state stored under `key`, if any.
    #[verifier::external_body]
    pub(crate) fn get(&self, key: &str) -> (r: Option<LockState>)
        ensures
            r is Some == lock_table_entries(*self).contains_key(key@),
            r matches Some(s) ==> s == lock_table_entries(*self)[key@],
    {
        self.map.get(key).copied()
    }

    /// `HashMap::insert`: stores `state` under `key`, replacing what was there.
    #[verifier::external_body]
    pub(crate) fn insert(&mut self, key: String, state: LockState)
        ensures
            lock_table_entries(*final(self)) == lock_table_entries(*old(self)).insert(key@, state),
    {
        self.map.insert(key, state);
    }

    /// `HashMap::remove`: drops the entry under `key`, if any.
    #[verifier::external_body]
    pub(crate) fn remove(&mut self, key: &str)
        ensures
            lock_table_entries(*final(self)) == lock_table_entries(*old(self)).remove(key@),
    {
        self.map.remove(key);
    }
}

} // verus!

verus! {

/// Scripted answers to prompts: an `FxHashMap<String, String>` from question to answer.
#[verifier::external_body]
#[derive(Debug)]
pub struct AnswerTable {
    map: FxHashMap<String, String>,
}

/// What the answer table holds: each question, by its characters, to its answer.
pub uninterp spec fn answer_entries(table: AnswerTable) -> Map<Seq<char>, Seq<char>>;

impl AnswerTable {
    /// `FxHashMap::default()`: no answers.
    #[verifier::external_body]
    pub(crate) fn new() -> (fresh: AnswerTable)
        ensures
            answer_entries(fresh).dom().len() == 0 && answer_entries(fresh).dom().finite(),
    {
        AnswerTable { map: FxHashMap::default() }
    }

    /// `HashMap::insert`: records `answer` for `question`, replacing any earlier one.
    #[verifier::external_body]
    pub(crate) fn insert(&mut self, question: &str, answer: &str)
        ensures
            answer_entries(*final(self)) == answer_entries(*old(self)).insert(question@, answer@),
    {
        self.map.insert(question.to_owned(), answer.to_owned());
    }

    /// `HashMap::get`, cloned: the answer recorded for `question`, if any.
    #[verifier::external_body]
    pub(crate) fn get(&self, question: &str) -> (r: Option<String>)
        ensures
            r is Some == answer_entries(*self).contains_key(question@),
            r matches Some(a) ==> a@ == answer_entries(*self)[question@],
    {
        self.map.get(question).cloned()
    }
}

impl AnswerTable {
    /// A table holding each question with its answer; a later pair for the same question
    /// replaces an earlier one.
    pub fn from_pairs(pairs: &Vec<(String, String)>) -> (t: AnswerTable)
        ensures
            answer_entries(t).dom().finite(),
            forall|q: Seq<char>| #[trigger] answer_entries(t).contains_key(q) <==> exists|i: int|
                0 <= i < pairs.len() && pairs[i].0@ == q,
            forall|i: int|
                0 <= i < pairs.len() && (forall|j: int| i < j < pairs.len() ==> pairs[j].0@ != pairs[i].0@)
                    ==> answer_entries(t)[#[trigger] pairs[i].0@] == pairs[i].1@,
    {
        let mut t = AnswerTable::new();
        let mut k: usize = 0;
        while k < pairs.len()
            invariant
                k <= pairs.len(),
                answer_entries(t).dom().finite(),
                forall|q: Seq<char>| #[trigger] answer_entries(t).contains_key(q) <==> exists|i: int|
                    0 <= i < k && pairs[i].0@ == q,
                forall|i: int|
                    0 <= i < k && (forall|j: int| i < j < k ==> pairs[j].0@ != pairs[i].0@)
                        ==> answer_entries(t)[#[trigger] pairs[i].0@] == pairs[i].1@,
            decreases pairs.len() - k,
        {
            t.insert(pairs[k].0.as_str(), pairs[k].1.as_str());
            proof {
                assert forall|q: Seq<char>| #[trigger] answer_entries(t).contains_key(q) implies exists|i: int|
                    0 <= i < k + 1 && pairs[i].0@ == q by {
                    if q == pairs[k as int].0@ {
                        assert(pairs[k as int].0@ == q);
                    }
                }
            }
            k = k + 1;
        }
        t
    }
}

} // verus!
