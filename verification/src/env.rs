//! The process environment of the virtual host: variables kept in key order, so that a
//! snapshot handed to the host is stable.
use vstd::prelude::*;

use crate::text::{chars_less, chars_lt, chars_of, lemma_chars_lt_irreflexive, lemma_chars_lt_total, lemma_chars_lt_transitive};

verus! {

/// Variables as key/value pairs, by their characters.
pub open spec fn env_pairs(v: Seq<(String, String)>) -> Seq<(Seq<char>, Seq<char>)> {
    v.map_values(|p: (String, String)| (p.0@, p.1@))
}

/// Keys in strictly ascending order (so each key occurs once).
pub open spec fn keys_ascending(ps: Seq<(Seq<char>, Seq<char>)>) -> bool {
    forall|i: int, j: int| 0 <= i < j < ps.len() ==> chars_lt(#[trigger] ps[i].0, #[trigger] ps[j].0)
}

/// Some pair has the key.
pub open spec fn has_key(ps: Seq<(Seq<char>, Seq<char>)>, k: Seq<char>) -> bool {
    exists|i: int| 0 <= i < ps.len() && #[trigger] ps[i].0 == k
}

/// The value of the first pair with the key.
pub open spec fn value_of(ps: Seq<(Seq<char>, Seq<char>)>, k: Seq<char>) -> Seq<char>
    decreases ps.len(),
{
    if ps.len() == 0 {
        Seq::empty()
    } else if ps[0].0 == k {
        ps[0].1
    } else {
        value_of(ps.drop_first(), k)
    }
}

/// The variables the pairs define.
pub open spec fn env_map(ps: Seq<(Seq<char>, Seq<char>)>) -> Map<Seq<char>, Seq<char>> {
    Map::new(|k: Seq<char>| has_key(ps, k), |k: Seq<char>| value_of(ps, k))
}

/// The variables after setting each pair in turn (a later pair wins).
pub open spec fn set_all(m: Map<Seq<char>, Seq<char>>, ps: Seq<(Seq<char>, Seq<char>)>) -> Map<
    Seq<char>,
    Seq<char>,
>
    decreases ps.len(),
{
    if ps.len() == 0 {
        m
    } else {
        set_all(m, ps.drop_last()).insert(ps.last().0, ps.last().1)
    }
}

/// In pairs with ascending keys, the pair at `i` gives its key's value.
pub proof fn lemma_value_at(ps: Seq<(Seq<char>, Seq<char>)>, at: int)
    requires
        keys_ascending(ps),
        0 <= at < ps.len(),
    ensures
        env_map(ps).contains_key(ps[at].0),
        env_map(ps)[ps[at].0] == ps[at].1,
    decreases at,
{
    let k = ps[at].0;
    assert(has_key(ps, k));
    if at > 0 {
        assert(chars_lt(ps[0].0, ps[at].0));
        lemma_chars_lt_irreflexive(k);
        let rest = ps.drop_first();
        assert(keys_ascending(rest)) by {
            assert forall|i: int, j: int| 0 <= i < j < rest.len() implies chars_lt(
                #[trigger] rest[i].0,
                #[trigger] rest[j].0,
            ) by {
                assert(rest[i] == ps[i + 1] && rest[j] == ps[j + 1]);
            }
        }
        assert(rest[at - 1] == ps[at]);
        lemma_value_at(rest, at - 1);
    }
    assert(env_map(ps)[k] == value_of(ps, k));
}

/// The variables of a virtual host.
#[derive(Debug)]
pub struct Environment {
    entries: Vec<(String, String)>,
}

impl View for Environment {
    type V = Map<Seq<char>, Seq<char>>;

    closed spec fn view(&self) -> Map<Seq<char>, Seq<char>> {
        env_map(env_pairs(self.entries@))
    }
}

/// Why `var` gives no value: the variable is not set (a value is always text here).
#[derive(Debug, Clone, Copy, PartialEq, Eq, Structural)]
pub enum VarError {
    NotPresent,
}

fn key_less(a: &str, b: &str) -> (r: bool)
    ensures
        r == chars_lt(a@, b@),
{
    chars_less(&chars_of(a), &chars_of(b))
}

impl Environment {
    #[verifier::type_invariant]
    spec fn sorted(self) -> bool {
        keys_ascending(env_pairs(self.entries@))
    }

    /// The pairs in key order.
    pub closed spec fn ordered(&self) -> Seq<(Seq<char>, Seq<char>)> {
        env_pairs(self.entries@)
    }

    /// An environment with no variables.
    pub fn new() -> (env: Environment)
        ensures
            env@ == Map::<Seq<char>, Seq<char>>::empty(),
    {
        let env = Environment { entries: Vec::new() };
        assert(env@ =~= Map::<Seq<char>, Seq<char>>::empty());
        env
    }

    /// Where `key` is, or would go, in key order, and whether it is there.
    fn position(&self, key: &str) -> (r: (usize, bool))
        ensures
            r.0 <= self.ordered().len(),
            forall|j: int| 0 <= j < r.0 ==> chars_lt(#[trigger] self.ordered()[j].0, key@),
            r.1 ==> r.0 < self.ordered().len() && self.ordered()[r.0 as int].0 == key@,
            !r.1 ==> (r.0 < self.ordered().len() ==> chars_lt(key@, self.ordered()[r.0 as int].0)),
    {
        let ghost ps = self.ordered();
        let mut i: usize = 0;
        while i < self.entries.len() && key_less(self.entries[i].0.as_str(), key)
            invariant
                i <= self.entries.len(),
                ps == env_pairs(self.entries@),
                forall|j: int| 0 <= j < i ==> chars_lt(#[trigger] ps[j].0, key@),
            decreases self.entries.len() - i,
        {
            i = i + 1;
        }
        if i < self.entries.len() {
            if key_less(key, self.entries[i].0.as_str()) {
                (i, false)
            } else {
                proof {
                    if ps[i as int].0 != key@ {
                        lemma_chars_lt_total(ps[i as int].0, key@);
                    }
                }
                (i, true)
            }
        } else {
            (i, false)
        }
    }

    /// The value of `key`, if set.
    pub fn var_os(&self, key: &str) -> (r: Option<String>)
        ensures
            match r {
                Some(v) => self@.contains_key(key@) && self@[key@] == v@,
                None => !self@.contains_key(key@),
            },
    {
        proof {
            use_type_invariant(self);
        }
        let ghost ps = self.ordered();
        let (i, found) = self.position(key);
        if found {
            proof {
                lemma_value_at(ps, i as int);
            }
            Some(self.entries[i].1.clone())
        } else {
            proof {
                assert(!has_key(ps, key@)) by {
                    if has_key(ps, key@) {
                        let j = choose|j: int| 0 <= j < ps.len() && #[trigger] ps[j].0 == key@;
                        if j < i {
                            lemma_chars_lt_irreflexive(key@);
                        } else if j == i {
                            lemma_chars_lt_irreflexive(key@);
                        } else {
                            lemma_chars_lt_transitive(key@, ps[i as int].0, ps[j].0);
                            lemma_chars_lt_irreflexive(key@);
                        }
                    }
                }
            }
            None
        }
    }

    /// The value of `key` as text, or why there is none.
    pub fn var(&self, key: &str) -> (r: Result<String, VarError>)
        ensures
            match r {
                Ok(v) => self@.contains_key(key@) && self@[key@] == v@,
                Err(e) => !self@.contains_key(key@) && e == VarError::NotPresent,
            },
    {
        match self.var_os(key) {
            Some(v) => Ok(v),
            None => Err(VarError::NotPresent),
        }
    }

    /// Sets `key` to `value`.
    pub fn set(&mut self, key: &str, value: &str)
        ensures
            final(self)@ == old(self)@.insert(key@, value@),
    {
        proof {
            use_type_invariant(&*self);
        }
        let ghost ps = self.ordered();
        let ghost old_map = self@;
        let (i, found) = self.position(key);
        let pair = (String::from_str(key), String::from_str(value));
        let ghost kv = (key@, value@);
        let mut entries: Vec<(String, String)> = Vec::new();
        std::mem::swap(&mut entries, &mut self.entries);
        assert(env_pairs(entries@) == ps);
        if found {
            entries.set(i, pair);
        } else {
            entries.insert(i, pair);
        }
        let ghost qs = env_pairs(entries@);
        proof {
            if found {
                assert(qs =~= ps.update(i as int, kv));
            } else {
                assert(qs =~= ps.take(i as int).push(kv) + ps.skip(i as int));
            }
            assert forall|a: int, b: int| 0 <= a < b < qs.len() implies chars_lt(
                #[trigger] qs[a].0,
                #[trigger] qs[b].0,
            ) by {
                if a == i && b > i {
                    let pb = if found { b } else { b - 1 };
                    assert(qs[b] == ps[pb]);
                    if pb > i {
                        if found {
                            assert(ps[i as int].0 == key@);
                        } else {
                            lemma_chars_lt_transitive(key@, ps[i as int].0, ps[pb].0);
                        }
                    } else {
                        assert(!found && pb == i);
                    }
                } else if b == i {
                    assert(qs[a] == ps[a]);
                } else {
                    let pa = if !found && a > i { a - 1 } else { a };
                    let pb = if !found && b > i { b - 1 } else { b };
                    assert(qs[a] == ps[pa]);
                    assert(qs[b] == ps[pb]);
                    if a < i && b > i && !found {
                        if pb == i {
                            lemma_chars_lt_transitive(ps[pa].0, key@, ps[pb].0);
                        }
                    }
                }
            }
            let nm = env_map(qs);
            let want = old_map.insert(key@, value@);
            assert forall|x: Seq<char>| #[trigger] nm.contains_key(x) == want.contains_key(x) && (nm.contains_key(x) ==> nm[x] == want[x]) by {
                if x == key@ {
                    assert(qs[i as int] == kv);
                    lemma_value_at(qs, i as int);
                } else {
                    if nm.contains_key(x) {
                        let j = choose|j: int| 0 <= j < qs.len() && #[trigger] qs[j].0 == x;
                        assert(j != i);
                        let pj = if !found && j > i { j - 1 } else { j };
                        assert(qs[j] == ps[pj]);
                        lemma_value_at(qs, j);
                        lemma_value_at(ps, pj);
                    }
                    if old_map.contains_key(x) {
                        let pj = choose|j: int| 0 <= j < ps.len() && #[trigger] ps[j].0 == x;
                        assert(pj != i || !found);
                        let j = if !found && pj >= i { pj + 1 } else { pj };
                        assert(qs[j] == ps[pj]);
                        assert(has_key(qs, x));
                    }
                }
            }
            assert(nm =~= want);
        }
        self.entries = entries;
    }

    /// Removes `key`.
    pub fn unset(&mut self, key: &str)
        ensures
            final(self)@ == old(self)@.remove(key@),
    {
        proof {
            use_type_invariant(&*self);
        }
        let ghost ps = self.ordered();
        let ghost old_map = self@;
        let (i, found) = self.position(key);
        if !found {
            proof {
                assert(!has_key(ps, key@)) by {
                    if has_key(ps, key@) {
                        let j = choose|j: int| 0 <= j < ps.len() && #[trigger] ps[j].0 == key@;
                        if j <= i {
                            lemma_chars_lt_irreflexive(key@);
                        } else {
                            lemma_chars_lt_transitive(key@, ps[i as int].0, ps[j].0);
                            lemma_chars_lt_irreflexive(key@);
                        }
                    }
                }
                assert(old_map.remove(key@) =~= old_map);
            }
            return;
        }
        let mut entries: Vec<(String, String)> = Vec::new();
        std::mem::swap(&mut entries, &mut self.entries);
        assert(env_pairs(entries@) == ps);
        entries.remove(i);
        let ghost qs = env_pairs(entries@);
        proof {
            assert(qs =~= ps.take(i as int) + ps.skip(i + 1));
            assert forall|a: int, b: int| 0 <= a < b < qs.len() implies chars_lt(
                #[trigger] qs[a].0,
                #[trigger] qs[b].0,
            ) by {
                let pa = if a >= i { a + 1 } else { a };
                let pb = if b >= i { b + 1 } else { b };
                assert(qs[a] == ps[pa]);
                assert(qs[b] == ps[pb]);
            }
            let nm = env_map(qs);
            let want = old_map.remove(key@);
            assert forall|x: Seq<char>| #[trigger] nm.contains_key(x) == want.contains_key(x) && (nm.contains_key(x) ==> nm[x] == want[x]) by {
                if nm.contains_key(x) {
                    let j = choose|j: int| 0 <= j < qs.len() && #[trigger] qs[j].0 == x;
                    let pj = if j >= i { j + 1 } else { j };
                    assert(qs[j] == ps[pj]);
                    assert(pj != i);
                    assert(x != key@) by {
                        if x == key@ {
                            if pj < i {
                                lemma_chars_lt_irreflexive(x);
                            } else {
                                lemma_chars_lt_irreflexive(x);
                            }
                        }
                    }
                    lemma_value_at(qs, j);
                    lemma_value_at(ps, pj);
                }
                if want.contains_key(x) {
                    let pj = choose|j: int| 0 <= j < ps.len() && #[trigger] ps[j].0 == x;
                    assert(pj != i);
                    let j = if pj > i { pj - 1 } else { pj };
                    assert(qs[j] == ps[pj]);
                    assert(has_key(qs, x));
                }
            }
            assert(nm =~= want);
        }
        self.entries = entries;
    }

    /// Replaces every variable with `entries`, set in order (a later pair for a key wins).
    pub fn replace(&mut self, entries: Vec<(String, String)>)
        ensures
            final(self)@ == set_all(Map::empty(), env_pairs(entries@)),
    {
        *self = Environment::new();
        let ghost ps = env_pairs(entries@);
        let mut i: usize = 0;
        assert(ps.take(0) =~= Seq::<(Seq<char>, Seq<char>)>::empty());
        while i < entries.len()
            invariant
                i <= entries.len(),
                ps == env_pairs(entries@),
                self@ == set_all(Map::empty(), ps.take(i as int)),
            decreases entries.len() - i,
        {
            self.set(entries[i].0.as_str(), entries[i].1.as_str());
            assert(ps.take(i + 1).drop_last() =~= ps.take(i as int));
            i = i + 1;
        }
        assert(ps.take(entries.len() as int) =~= ps);
    }

    /// Every variable with its value, in key order.
    pub fn snapshot(&self) -> (r: Vec<(String, String)>)
        ensures
            keys_ascending(env_pairs(r@)),
            env_map(env_pairs(r@)) == self@,
    {
        proof {
            use_type_invariant(self);
        }
        let mut out: Vec<(String, String)> = Vec::new();
        let mut i: usize = 0;
        while i < self.entries.len()
            invariant
                i <= self.entries.len(),
                keys_ascending(env_pairs(self.entries@)),
                env_pairs(out@) == env_pairs(self.entries@).take(i as int),
            decreases self.entries.len() - i,
        {
            let key = self.entries[i].0.clone();
            let value = self.entries[i].1.clone();
            let ghost before = out@;
            out.push((key, value));
            proof {
                assert(out@ == before.push((key, value)));
                assert(env_pairs(out@) =~= env_pairs(before).push((key@, value@)));
                assert(env_pairs(self.entries@)[i as int] == (key@, value@));
                assert(env_pairs(out@) =~= env_pairs(self.entries@).take(i + 1));
            }
            i = i + 1;
        }
        assert(env_pairs(self.entries@).take(self.entries.len() as int) =~= env_pairs(self.entries@));
        out
    }

    /// The user's home directory: the value of `HOME`.
    pub fn home_dir(&self) -> (r: Option<String>)
        ensures
            match r {
                Some(v) => self@.contains_key(seq!['H', 'O', 'M', 'E']) && self@[seq!['H', 'O', 'M', 'E']] == v@,
                None => !self@.contains_key(seq!['H', 'O', 'M', 'E']),
            },
    {
        proof {
            reveal_strlit("HOME");
            assert("HOME"@ =~= seq!['H', 'O', 'M', 'E']);
        }
        self.var_os("HOME")
    }
}

/// What `set` writes, `var` reads back.
pub proof fn law_set_then_var(m: Map<Seq<char>, Seq<char>>, key: Seq<char>, value: Seq<char>)
    ensures
        m.insert(key, value).contains_key(key),
        m.insert(key, value)[key] == value,
{
}

/// Setting one variable leaves every other as it was.
pub proof fn law_set_keeps_others(
    m: Map<Seq<char>, Seq<char>>,
    key: Seq<char>,
    value: Seq<char>,
    other: Seq<char>,
)
    requires
        other != key,
    ensures
        m.insert(key, value).contains_key(other) == m.contains_key(other),
        m.contains_key(other) ==> m.insert(key, value)[other] == m[other],
{
}

/// After `unset`, the variable is absent and every other is as it was.
pub proof fn law_unset_removes(m: Map<Seq<char>, Seq<char>>, key: Seq<char>, other: Seq<char>)
    requires
        other != key,
    ensures
        !m.remove(key).contains_key(key),
        m.remove(key).contains_key(other) == m.contains_key(other),
        m.contains_key(other) ==> m.remove(key)[other] == m[other],
{
}

/// `replace` keeps nothing of what came before: a key that none of the new pairs names is
/// absent afterwards.
pub proof fn law_replace_drops_what_came_before(ps: Seq<(Seq<char>, Seq<char>)>, key: Seq<char>)
    requires
        forall|i: int| 0 <= i < ps.len() ==> #[trigger] ps[i].0 != key,
    ensures
        !set_all(Map::empty(), ps).contains_key(key),
    decreases ps.len(),
{
    if ps.len() > 0 {
        let rest = ps.drop_last();
        assert forall|i: int| 0 <= i < rest.len() implies #[trigger] rest[i].0 != key by {
            assert(rest[i] == ps[i]);
        }
        law_replace_drops_what_came_before(rest, key);
        assert(ps.last().0 != key) by {
            assert(ps[ps.len() - 1].0 != key);
        }
    }
}

/// After `replace`, a key that the new pairs name holds the value of its last pair.
pub proof fn law_replace_last_pair_wins(ps: Seq<(Seq<char>, Seq<char>)>, at: int)
    requires
        0 <= at < ps.len(),
        forall|j: int| at < j < ps.len() ==> #[trigger] ps[j].0 != ps[at].0,
    ensures
        set_all(Map::empty(), ps).contains_key(ps[at].0),
        set_all(Map::empty(), ps)[ps[at].0] == ps[at].1,
    decreases ps.len(),
{
    if at < ps.len() - 1 {
        let rest = ps.drop_last();
        assert forall|j: int| at < j < rest.len() implies #[trigger] rest[j].0 != rest[at].0 by {
            assert(rest[j] == ps[j]);
        }
        law_replace_last_pair_wins(rest, at);
        assert(ps.last().0 != ps[at].0) by {
            assert(ps[ps.len() - 1].0 != ps[at].0);
        }
    }
}

} // verus!
