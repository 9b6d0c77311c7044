//! The memory of a running agent: short- and long-term key/value stores,
//! links, the registered agent and its last output.

use vstd::prelude::*;
use vstd::string::StringExecFns;

use crate::text::same_str;
use crate::types::{has_input_handler, Statement};

verus! {

/// The key/value map of an association list; a later entry overrides an
/// earlier one with the same key.
pub open spec fn assoc_map(v: Seq<(String, String)>) -> Map<Seq<char>, Seq<char>>
    decreases v.len(),
{
    if v.len() == 0 {
        Map::empty()
    } else {
        assoc_map(v.drop_last()).insert(v.last().0@, v.last().1@)
    }
}

pub open spec fn keys_unique(v: Seq<(String, String)>) -> bool {
    forall|i: int, j: int| 0 <= i < j < v.len() ==> (#[trigger] v[i]).0@ != (#[trigger] v[j]).0@
}

/// The value under `key`, or the empty string.
pub open spec fn value_or_empty(m: Map<Seq<char>, Seq<char>>, key: Seq<char>) -> Seq<char> {
    if m.dom().contains(key) {
        m[key]
    } else {
        Seq::empty()
    }
}

proof fn lemma_assoc_index(v: Seq<(String, String)>, i: int)
    requires
        keys_unique(v),
        0 <= i < v.len(),
    ensures
        assoc_map(v).dom().contains(v[i].0@),
        assoc_map(v)[v[i].0@] == v[i].1@,
    decreases v.len(),
{
    if i < v.len() - 1 {
        lemma_assoc_index(v.drop_last(), i);
    }
}

proof fn lemma_assoc_absent(v: Seq<(String, String)>, key: Seq<char>)
    requires
        forall|i: int| 0 <= i < v.len() ==> (#[trigger] v[i]).0@ != key,
    ensures
        !assoc_map(v).dom().contains(key),
    decreases v.len(),
{
    if v.len() > 0 {
        lemma_assoc_absent(v.drop_last(), key);
    }
}

proof fn lemma_assoc_update(v: Seq<(String, String)>, i: int, e: (String, String))
    requires
        keys_unique(v),
        0 <= i < v.len(),
        e.0@ == v[i].0@,
    ensures
        assoc_map(v.update(i, e)) == assoc_map(v).insert(e.0@, e.1@),
        keys_unique(v.update(i, e)),
    decreases v.len(),
{
    let w = v.update(i, e);
    if i == v.len() - 1 {
        assert(w.drop_last() =~= v.drop_last());
        assert(assoc_map(w) =~= assoc_map(v).insert(e.0@, e.1@));
    } else {
        assert(w.drop_last() =~= v.drop_last().update(i, e));
        lemma_assoc_update(v.drop_last(), i, e);
        assert(assoc_map(w) =~= assoc_map(v).insert(e.0@, e.1@));
    }
}

/// Sets `key` to `value` in an association list with unique keys.
fn assoc_set(v: &mut Vec<(String, String)>, key: &str, value: &str)
    requires
        keys_unique(old(v)@),
    ensures
        keys_unique(final(v)@),
        assoc_map(final(v)@) == assoc_map(old(v)@).insert(key@, value@),
{
    let mut i: usize = 0;
    while i < v.len()
        invariant
            i <= v@.len(),
            v@ == old(v)@,
            keys_unique(v@),
            forall|j: int| 0 <= j < i ==> (#[trigger] v@[j]).0@ != key@,
        decreases v@.len() - i,
    {
        if same_str(v[i].0.as_str(), key) {
            let e = (String::from_str(key), String::from_str(value));
            proof {
                lemma_assoc_update(v@, i as int, e);
            }
            v.set(i, e);
            return;
        }
        i = i + 1;
    }
    v.push((String::from_str(key), String::from_str(value)));
    proof {
        assert(v@.drop_last() =~= old(v)@);
    }
}

/// The value under `key` in an association list with unique keys, or "".
fn assoc_get(v: &Vec<(String, String)>, key: &str) -> (r: String)
    requires
        keys_unique(v@),
    ensures
        r@ == value_or_empty(assoc_map(v@), key@),
{
    let mut i: usize = 0;
    while i < v.len()
        invariant
            i <= v@.len(),
            keys_unique(v@),
            forall|j: int| 0 <= j < i ==> (#[trigger] v@[j]).0@ != key@,
        decreases v@.len() - i,
    {
        if same_str(v[i].0.as_str(), key) {
            proof {
                lemma_assoc_index(v@, i as int);
            }
            return v[i].1.clone();
        }
        i = i + 1;
    }
    proof {
        lemma_assoc_absent(v@, key@);
    }
    String::new()
}

fn assoc_copy(v: &Vec<(String, String)>) -> (r: Vec<(String, String)>)
    requires
        keys_unique(v@),
    ensures
        keys_unique(r@),
        r@.len() == v@.len(),
        forall|i: int| 0 <= i < v@.len() ==> (#[trigger] r@[i]).0@ == v@[i].0@ && r@[i].1@ == v@[i].1@,
{
    let mut r: Vec<(String, String)> = Vec::new();
    let mut i: usize = 0;
    while i < v.len()
        invariant
            i <= v@.len(),
            r@.len() == i,
            forall|j: int| 0 <= j < i ==> (#[trigger] r@[j]).0@ == v@[j].0@ && r@[j].1@ == v@[j].1@,
        decreases v@.len() - i,
    {
        r.push((v[i].0.clone(), v[i].1.clone()));
        i = i + 1;
    }
    r
}

/// An agent's memory.
pub struct AgentContext {
    mem_short: Vec<(String, String)>,
    mem_long: Vec<(String, String)>,
    links: Vec<(String, String)>,
    current_agent: Option<Statement>,
    output: Option<String>,
}

impl AgentContext {
    #[verifier::type_invariant]
    spec fn unique_keys(&self) -> bool {
        &&& keys_unique(self.mem_short@)
        &&& keys_unique(self.mem_long@)
        &&& keys_unique(self.links@)
    }

    /// The short-term memory.
    pub closed spec fn short(&self) -> Map<Seq<char>, Seq<char>> {
        assoc_map(self.mem_short@)
    }

    /// The long-term memory.
    pub closed spec fn long(&self) -> Map<Seq<char>, Seq<char>> {
        assoc_map(self.mem_long@)
    }

    /// The links between names.
    pub closed spec fn link_map(&self) -> Map<Seq<char>, Seq<char>> {
        assoc_map(self.links@)
    }

    /// Whether an agent has been registered.
    pub closed spec fn has_agent(&self) -> bool {
        self.current_agent is Some
    }

    /// The registered agent, if any.
    pub closed spec fn agent(&self) -> Option<Statement> {
        self.current_agent
    }

    /// The last output, if any.
    pub closed spec fn last_output(&self) -> Option<Seq<char>> {
        match self.output {
            Some(s) => Some(s@),
            None => None,
        }
    }

    /// The registered agent, if any.
    pub fn current_agent(&self) -> (r: Option<Statement>)
        ensures
            r is Some <==> self.has_agent(),
            r matches Some(a) ==> has_input_handler(a) == has_input_handler(self.agent()->0),
    {
        match &self.current_agent {
            Some(s) => Some(s.clone()),
            None => None,
        }
    }

    /// Registers an agent.
    pub fn set_current_agent(&mut self, agent: Statement)
        ensures
            final(self).agent() == Some(agent),
            final(self).has_agent(),
            final(self).short() == old(self).short(),
            final(self).long() == old(self).long(),
            final(self).link_map() == old(self).link_map(),
            final(self).last_output() == old(self).last_output(),
    {
        proof {
            use_type_invariant(&*self);
        }
        self.current_agent = Some(agent);
    }

    /// The last output, if any.
    pub fn output(&self) -> (r: Option<String>)
        ensures
            r matches Some(s) ==> self.last_output() == Some(s@),
            r is None ==> self.last_output() is None,
    {
        match &self.output {
            Some(s) => Some(s.clone()),
            None => None,
        }
    }

    /// Records an output.
    pub fn set_output(&mut self, value: String)
        ensures
            final(self).last_output() == Some(value@),
            final(self).agent() == old(self).agent(),
            final(self).short() == old(self).short(),
            final(self).long() == old(self).long(),
            final(self).link_map() == old(self).link_map(),
    {
        proof {
            use_type_invariant(&*self);
        }
        self.output = Some(value);
    }

    pub fn new() -> (r: Self)
        ensures
            r.short() == Map::<Seq<char>, Seq<char>>::empty(),
            r.long() == Map::<Seq<char>, Seq<char>>::empty(),
            r.link_map() == Map::<Seq<char>, Seq<char>>::empty(),
            !r.has_agent(),
            r.last_output() is None,
    {
        AgentContext {
            mem_short: Vec::new(),
            mem_long: Vec::new(),
            links: Vec::new(),
            current_agent: None,
            output: None,
        }
    }

    /// Stores `value` under `key` in the memory named `target` (`short` or
    /// `long`); any other target is ignored.
    pub fn set_mem(&mut self, target: &str, key: &str, value: &str)
        ensures
            target@ == "short"@ ==> final(self).short() == old(self).short().insert(key@, value@),
            target@ != "short"@ ==> final(self).short() == old(self).short(),
            target@ == "long"@ ==> final(self).long() == old(self).long().insert(key@, value@),
            target@ != "long"@ ==> final(self).long() == old(self).long(),
            final(self).link_map() == old(self).link_map(),
            final(self).agent() == old(self).agent(),
            final(self).last_output() == old(self).last_output(),
    {
        proof {
            use_type_invariant(&*self);
            reveal_strlit("short");
            reveal_strlit("long");
            assert("short"@.len() != "long"@.len());
        }
        if same_str(target, "short") {
            let mut v = assoc_copy(&self.mem_short);
            proof {
                lemma_assoc_same(v@, self.mem_short@);
            }
            assoc_set(&mut v, key, value);
            self.mem_short = v;
        } else if same_str(target, "long") {
            let mut v = assoc_copy(&self.mem_long);
            proof {
                lemma_assoc_same(v@, self.mem_long@);
            }
            assoc_set(&mut v, key, value);
            self.mem_long = v;
        }
    }

    /// The value under `key` in the memory named `target`, or "" if there is
    /// none (or the target is neither `short` nor `long`).
    pub fn get_mem(&self, target: &str, key: &str) -> (r: String)
        ensures
            r@ == if target@ == "short"@ {
                value_or_empty(self.short(), key@)
            } else if target@ == "long"@ {
                value_or_empty(self.long(), key@)
            } else {
                Seq::empty()
            },
    {
        proof {
            use_type_invariant(self);
            reveal_strlit("short");
            reveal_strlit("long");
            assert("short"@.len() != "long"@.len());
        }
        if same_str(target, "short") {
            assoc_get(&self.mem_short, key)
        } else if same_str(target, "long") {
            assoc_get(&self.mem_long, key)
        } else {
            String::new()
        }
    }

    /// Links `from` to `to`.
    pub fn set_link(&mut self, from: &str, to: &str)
        ensures
            final(self).link_map() == old(self).link_map().insert(from@, to@),
            final(self).short() == old(self).short(),
            final(self).long() == old(self).long(),
            final(self).agent() == old(self).agent(),
            final(self).last_output() == old(self).last_output(),
    {
        proof {
            use_type_invariant(&*self);
        }
        let mut v = assoc_copy(&self.links);
        proof {
            lemma_assoc_same(v@, self.links@);
        }
        assoc_set(&mut v, from, to);
        self.links = v;
    }

    /// The links, as entries.
    pub fn link_entries(&self) -> (r: Vec<(String, String)>)
        ensures
            assoc_map(r@) == self.link_map(),
            keys_unique(r@),
    {
        proof {
            use_type_invariant(self);
        }
        let r = assoc_copy(&self.links);
        proof {
            lemma_assoc_same(r@, self.links@);
        }
        r
    }

    /// The entries of the memory named `target` (`short` or `long`; none
    /// for any other name).
    pub fn entries(&self, target: &str) -> (r: Vec<(String, String)>)
        ensures
            target@ == "short"@ ==> assoc_map(r@) == self.short(),
            target@ == "long"@ ==> assoc_map(r@) == self.long(),
            keys_unique(r@),
    {
        proof {
            use_type_invariant(self);
            reveal_strlit("short");
            reveal_strlit("long");
            assert("short"@.len() != "long"@.len());
        }
        let r = if same_str(target, "short") {
            assoc_copy(&self.mem_short)
        } else if same_str(target, "long") {
            assoc_copy(&self.mem_long)
        } else {
            Vec::new()
        };
        proof {
            assert(forall|v: Seq<(String, String)>, w: Seq<(String, String)>|
                v.len() == w.len() && (forall|i: int| 0 <= i < v.len() ==> (#[trigger] v[i]).0@ == w[i].0@ && v[i].1@ == w[i].1@)
                ==> #[trigger] assoc_map(v) == #[trigger] assoc_map(w)) by {
                assert forall|v: Seq<(String, String)>, w: Seq<(String, String)>|
                    v.len() == w.len() && (forall|i: int| 0 <= i < v.len() ==> (#[trigger] v[i]).0@ == w[i].0@ && v[i].1@ == w[i].1@)
                    implies #[trigger] assoc_map(v) == #[trigger] assoc_map(w) by {
                    lemma_assoc_same(v, w);
                }
            }
        }
        r
    }
}

proof fn lemma_assoc_same(v: Seq<(String, String)>, w: Seq<(String, String)>)
    requires
        v.len() == w.len(),
        forall|i: int| 0 <= i < v.len() ==> (#[trigger] v[i]).0@ == w[i].0@ && v[i].1@ == w[i].1@,
    ensures
        assoc_map(v) == assoc_map(w),
    decreases v.len(),
{
    if v.len() > 0 {
        lemma_assoc_same(v.drop_last(), w.drop_last());
    }
}

} // verus!
