use vstd::prelude::*;

use crate::text::{parse_tenant_id, push_signed_decimal, signed_decimal};

verus! {

/// A map from tenant to text (a file name, a directory), kept as a list of pairs with
/// distinct keys in the order the tenants were first bound.
pub struct TenantMap {
    entries: Vec<(i64, String)>,
}

pub open spec fn keys_distinct(s: Seq<(i64, String)>) -> bool {
    forall|i: int, j: int| 0 <= i < j < s.len() ==> s[i].0 != s[j].0
}

/// The map that a list of pairs with distinct keys stands for.
pub open spec fn map_of(s: Seq<(i64, String)>) -> Map<i64, Seq<char>>
    decreases s.len(),
{
    if s.len() == 0 {
        Map::empty()
    } else {
        map_of(s.drop_last()).insert(s.last().0, s.last().1@)
    }
}

proof fn lemma_map_of_keys(s: Seq<(i64, String)>, k: i64)
    ensures
        map_of(s).contains_key(k) <==> exists|i: int| 0 <= i < s.len() && s[i].0 == k,
    decreases s.len(),
{
    if s.len() > 0 {
        lemma_map_of_keys(s.drop_last(), k);
        if map_of(s).contains_key(k) && s.last().0 != k {
            let i = choose|i: int| 0 <= i < s.len() - 1 && s.drop_last()[i].0 == k;
            assert(s[i].0 == k);
        }
        if exists|i: int| 0 <= i < s.len() && s[i].0 == k {
            let i = choose|i: int| 0 <= i < s.len() && s[i].0 == k;
            if i < s.len() - 1 {
                assert(s.drop_last()[i].0 == k);
            }
        }
    }
}

proof fn lemma_map_of_index(s: Seq<(i64, String)>, i: int)
    requires
        keys_distinct(s),
        0 <= i < s.len(),
    ensures
        map_of(s).contains_key(s[i].0),
        map_of(s)[s[i].0] == s[i].1@,
    decreases s.len(),
{
    if i < s.len() - 1 {
        lemma_map_of_index(s.drop_last(), i);
    }
}

proof fn lemma_map_of_push(s: Seq<(i64, String)>, k: i64, v: String)
    ensures
        map_of(s.push((k, v))) == map_of(s).insert(k, v@),
{
    assert(s.push((k, v)).drop_last() == s);
}

proof fn lemma_map_of_update(s: Seq<(i64, String)>, i: int, v: String)
    requires
        keys_distinct(s),
        0 <= i < s.len(),
    ensures
        map_of(s.update(i, (s[i].0, v))) == map_of(s).insert(s[i].0, v@),
    decreases s.len(),
{
    let t = s.update(i, (s[i].0, v));
    if i == s.len() - 1 {
        assert(t.drop_last() == s.drop_last());
        lemma_map_of_keys(s.drop_last(), s[i].0);
        assert(map_of(s).insert(s[i].0, v@) =~= map_of(s.drop_last()).insert(s[i].0, v@));
    } else {
        assert(t.drop_last() == s.drop_last().update(i, (s[i].0, v)));
        lemma_map_of_update(s.drop_last(), i, v);
        assert(map_of(t) =~= map_of(s).insert(s[i].0, v@));
    }
}

proof fn lemma_map_of_remove(s: Seq<(i64, String)>, i: int)
    requires
        keys_distinct(s),
        0 <= i < s.len(),
    ensures
        map_of(s.remove(i)) == map_of(s).remove(s[i].0),
    decreases s.len(),
{
    let t = s.remove(i);
    if i == s.len() - 1 {
        assert(t == s.drop_last());
        lemma_map_of_keys(s.drop_last(), s[i].0);
        assert(map_of(t) =~= map_of(s).remove(s[i].0));
    } else {
        assert(t.drop_last() == s.drop_last().remove(i));
        lemma_map_of_remove(s.drop_last(), i);
        assert(t.last() == s.last());
        assert(map_of(t) =~= map_of(s).remove(s[i].0));
    }
}

impl View for TenantMap {
    type V = Map<i64, Seq<char>>;

    closed spec fn view(&self) -> Map<i64, Seq<char>> {
        map_of(self.entries@)
    }
}

impl TenantMap {
    /// The list's keys are distinct.
    pub closed spec fn wf(&self) -> bool {
        keys_distinct(self.entries@)
    }

    pub fn new() -> (r: Self)
        ensures
            r.wf(),
            r@ == Map::<i64, Seq<char>>::empty(),
    {
        TenantMap { entries: Vec::new() }
    }

    fn find(&self, key: i64) -> (r: Option<usize>)
        requires
            self.wf(),
        ensures
            match r {
                Some(i) => i < self.entries@.len() && self.entries@[i as int].0 == key,
                None => !self@.contains_key(key),
            },
    {
        let mut i: usize = 0;
        while i < self.entries.len()
            invariant
                i <= self.entries@.len(),
                forall|j: int| 0 <= j < i ==> self.entries@[j].0 != key,
            decreases self.entries@.len() - i,
        {
            if self.entries[i].0 == key {
                return Some(i);
            }
            i += 1;
        }
        proof {
            lemma_map_of_keys(self.entries@, key);
        }
        None
    }

    /// The text bound to `key`.
    pub fn get(&self, key: i64) -> (r: Option<String>)
        requires
            self.wf(),
        ensures
            match r {
                Some(v) => self@.contains_key(key) && self@[key] == v@,
                None => !self@.contains_key(key),
            },
    {
        match self.find(key) {
            Some(i) => {
                proof {
                    lemma_map_of_index(self.entries@, i as int);
                }
                Some(self.entries[i].1.clone())
            },
            None => None,
        }
    }

    /// Binds `key` to `value`, replacing an earlier binding.
    pub fn insert(&mut self, key: i64, value: String)
        requires
            old(self).wf(),
        ensures
            final(self).wf(),
            final(self)@ == old(self)@.insert(key, value@),
    {
        match self.find(key) {
            Some(i) => {
                proof {
                    lemma_map_of_update(self.entries@, i as int, value);
                }
                self.entries.set(i, (key, value));
            },
            None => {
                proof {
                    lemma_map_of_push(self.entries@, key, value);
                    lemma_map_of_keys(self.entries@, key);
                }
                self.entries.push((key, value));
            },
        }
    }

    /// Removes the binding of `key`, if any.
    pub fn remove(&mut self, key: i64)
        requires
            old(self).wf(),
        ensures
            final(self).wf(),
            final(self)@ == old(self)@.remove(key),
    {
        match self.find(key) {
            Some(i) => {
                proof {
                    lemma_map_of_remove(self.entries@, i as int);
                }
                self.entries.remove(i);
            },
            None => {
                assert(self@.remove(key) =~= self@);
            },
        }
    }

    /// The bindings, in the order the tenants were first bound.
    pub fn pairs(&self) -> (r: &Vec<(i64, String)>)
        requires
            self.wf(),
        ensures
            keys_distinct(r@),
            map_of(r@) == self@,
    {
        &self.entries
    }
}

/// The pairs of a JSON object whose values are all strings, keys sorted, where `text` is one.
pub uninterp spec fn json_string_pairs(text: Seq<char>) -> Option<Seq<(Seq<char>, Seq<char>)>>;

/// The pretty-printed JSON object with these string pairs.
pub uninterp spec fn json_pretty_pairs(pairs: Seq<(Seq<char>, Seq<char>)>) -> Seq<char>;

pub open spec fn pair_views(v: Seq<(String, String)>) -> Seq<(Seq<char>, Seq<char>)> {
    v.map_values(|p: (String, String)| (p.0@, p.1@))
}

/// Relies on `serde_json::from_str` into a `BTreeMap<String, String>`: the object's pairs,
/// in key order.
#[verifier::external_body]
fn string_pairs_from_json(text: &str) -> (r: Option<Vec<(String, String)>>)
    ensures
        match r {
            Some(v) => json_string_pairs(text@) == Some(pair_views(v@)),
            None => json_string_pairs(text@) is None,
        },
{
    match serde_json::from_str::<std::collections::BTreeMap<String, String>>(text) {
        Ok(m) => Some(m.into_iter().collect()),
        Err(_) => None,
    }
}

/// Relies on `serde_json::to_string_pretty` of a `BTreeMap<&str, &str>`: the object's text.
/// Writing into memory does not fail.
#[verifier::external_body]
fn string_pairs_to_json(pairs: &Vec<(String, String)>) -> (r: String)
    ensures
        r@ == json_pretty_pairs(pair_views(pairs@)),
{
    let m: std::collections::BTreeMap<&str, &str> = pairs.iter().map(
        |p| (p.0.as_str(), p.1.as_str()),
    ).collect();
    match serde_json::to_string_pretty(&m) {
        Ok(t) => t,
        Err(_) => String::new(),
    }
}

/// The tenant whose decimal id `k` is, if it is one.
pub open spec fn tenant_of_key(k: Seq<char>) -> Option<i64> {
    if exists|i: i64| k == signed_decimal(i as int) {
        Some(choose|i: i64| k == signed_decimal(i as int))
    } else {
        None
    }
}

/// The map that persisted pairs stand for: later pairs win, keys that are no tenant id are
/// left out.
pub open spec fn map_of_pairs(p: Seq<(Seq<char>, Seq<char>)>) -> Map<i64, Seq<char>>
    decreases p.len(),
{
    if p.len() == 0 {
        Map::empty()
    } else {
        let m = map_of_pairs(p.drop_last());
        match tenant_of_key(p.last().0) {
            Some(i) => m.insert(i, p.last().1),
            None => m,
        }
    }
}

/// The persisted form of a list of bindings: tenant ids in decimal.
pub open spec fn rendered(s: Seq<(i64, String)>) -> Seq<(Seq<char>, Seq<char>)> {
    s.map_values(|p: (i64, String)| (signed_decimal(p.0 as int), p.1@))
}

impl TenantMap {
    /// The bindings that a persisted JSON object holds; none where `text` is no such object.
    pub fn from_json(text: &str) -> (r: Self)
        ensures
            r.wf(),
            r@ == match json_string_pairs(text@) {
                Some(p) => map_of_pairs(p),
                None => Map::empty(),
            },
    {
        let mut m = TenantMap::new();
        match string_pairs_from_json(text) {
            None => m,
            Some(pairs) => {
                let ghost pv = pair_views(pairs@);
                let mut i: usize = 0;
                while i < pairs.len()
                    invariant
                        pv == pair_views(pairs@),
                        i <= pairs@.len(),
                        m.wf(),
                        m@ == map_of_pairs(pv.take(i as int)),
                    decreases pairs@.len() - i,
                {
                    assert(pv.take(i + 1).drop_last() == pv.take(i as int));
                    let key = parse_tenant_id(pairs[i].0.as_str());
                    let ghost k = pv[i as int].0;
                    assert(k == pairs@[i as int].0@);
                    assert(pv[i as int].1 == pairs@[i as int].1@);
                    match key {
                        Some(id) => {
                            proof {
                                assert(k == signed_decimal(id as int));
                                let j = choose|j: i64| k == signed_decimal(j as int);
                                assert(key == Some(j));
                                assert(tenant_of_key(k) == Some(id));
                            }
                            m.insert(id, pairs[i].1.clone());
                        },
                        None => {
                            assert(tenant_of_key(k) is None);
                        },
                    }
                    i += 1;
                }
                assert(pv.take(pairs@.len() as int) == pv);
                m
            },
        }
    }

    /// The persisted JSON text of the bindings.
    pub fn to_json(&self) -> (r: String)
        requires
            self.wf(),
        ensures
            exists|s: Seq<(i64, String)>|
                keys_distinct(s) && map_of(s) == self@ && r@ == json_pretty_pairs(
                    #[trigger] rendered(s),
                ),
    {
        let mut out: Vec<(String, String)> = Vec::new();
        let mut i: usize = 0;
        while i < self.entries.len()
            invariant
                i <= self.entries@.len(),
                pair_views(out@) == rendered(self.entries@.take(i as int)),
            decreases self.entries@.len() - i,
        {
            let mut k = String::new();
            push_signed_decimal(&mut k, self.entries[i].0);
            assert(Seq::<char>::empty() + signed_decimal(self.entries@[i as int].0 as int)
                == signed_decimal(self.entries@[i as int].0 as int));
            let v = self.entries[i].1.clone();
            let ghost before = out@;
            out.push((k, v));
            assert(pair_views(out@) =~= pair_views(before).push((k@, v@)));
            assert(self.entries@.take(i + 1) == self.entries@.take(i as int).push(
                self.entries@[i as int],
            ));
            assert(pair_views(out@) =~= rendered(self.entries@.take(i + 1)));
            i += 1;
        }
        assert(self.entries@.take(self.entries@.len() as int) == self.entries@);
        let r = string_pairs_to_json(&out);
        assert(keys_distinct(self.entries@) && map_of(self.entries@) == self@ && r@
            == json_pretty_pairs(rendered(self.entries@)));
        r
    }
}

} // verus!
