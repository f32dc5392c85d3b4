//! The secret fields of an entry: a map from field name to secret value whose
//! names are kept in ascending code-point order (the order of `String`), so
//! that listing the names needs no sorting and names are never duplicated.

use vstd::prelude::*;

use crate::model::SecretString;
use crate::text::{
    chars_of, lemma_lex_asymmetric, lemma_lex_irreflexive, lemma_lex_total, lemma_lex_transitive,
    lex_compare, lex_lt,
};

verus! {

/// Every name comes strictly before every later one.
pub open spec fn strictly_sorted(s: Seq<Seq<char>>) -> bool {
    forall|i: int, j: int| 0 <= i < j < s.len() ==> lex_lt(#[trigger] s[i], #[trigger] s[j])
}

/// The names of a finite set of names, in ascending order.
pub open spec fn sorted_names(d: Set<Seq<char>>) -> Seq<Seq<char>> {
    choose|s: Seq<Seq<char>>| strictly_sorted(s) && s.to_set() == d
}

/// Two strictly sorted sequences with the same elements are the same
/// sequence: ascending order leaves no choice.
pub proof fn lemma_sorted_unique(a: Seq<Seq<char>>, b: Seq<Seq<char>>)
    requires
        strictly_sorted(a),
        strictly_sorted(b),
        a.to_set() == b.to_set(),
    ensures
        a == b,
    decreases a.len(),
{
    if a.len() == 0 {
        if b.len() > 0 {
            assert(b.to_set().contains(b[0]));
        }
        assert(a =~= b);
    } else {
        assert(a.to_set().contains(a[0]));
        assert(b.to_set().contains(a[0]));
        let j = choose|j: int| 0 <= j < b.len() && b[j] == a[0];
        assert(b.to_set().contains(b[0]));
        assert(a.to_set().contains(b[0]));
        let i = choose|i: int| 0 <= i < a.len() && a[i] == b[0];
        if i > 0 && j > 0 {
            assert(lex_lt(a[0], a[i]));
            assert(lex_lt(b[0], b[j]));
            lemma_lex_asymmetric(a[0], b[0]);
        }
        assert(a[0] == b[0]);
        let ra = a.drop_first();
        let rb = b.drop_first();
        assert forall|x: Seq<char>| ra.to_set().contains(x) implies rb.to_set().contains(x) by {
            let k = choose|k: int| 0 <= k < ra.len() && ra[k] == x;
            assert(a[k + 1] == x);
            assert(lex_lt(a[0], x));
            assert(b.to_set().contains(x));
            let m = choose|m: int| 0 <= m < b.len() && b[m] == x;
            if m == 0 {
                lemma_lex_irreflexive(x);
            }
            assert(rb[m - 1] == x);
        }
        assert forall|x: Seq<char>| rb.to_set().contains(x) implies ra.to_set().contains(x) by {
            let k = choose|k: int| 0 <= k < rb.len() && rb[k] == x;
            assert(b[k + 1] == x);
            assert(lex_lt(b[0], x));
            assert(a.to_set().contains(x));
            let m = choose|m: int| 0 <= m < a.len() && a[m] == x;
            if m == 0 {
                lemma_lex_irreflexive(x);
            }
            assert(ra[m - 1] == x);
        }
        assert(ra.to_set() =~= rb.to_set());
        lemma_sorted_unique(ra, rb);
        assert(a =~= seq![a[0]] + ra);
        assert(b =~= seq![b[0]] + rb);
    }
}

/// A strictly sorted sequence is the sorted listing of its own elements.
pub proof fn lemma_sorted_names_of(s: Seq<Seq<char>>)
    requires
        strictly_sorted(s),
    ensures
        sorted_names(s.to_set()) == s,
{
    let t = sorted_names(s.to_set());
    assert(strictly_sorted(t) && t.to_set() == s.to_set());
    lemma_sorted_unique(t, s);
}

/// A name not among the strictly sorted `t` can be put among them so that
/// they stay strictly sorted.
proof fn lemma_sorted_insert(t: Seq<Seq<char>>, x: Seq<char>)
    requires
        strictly_sorted(t),
        !t.contains(x),
    ensures
        exists|u: Seq<Seq<char>>| strictly_sorted(u) && u.to_set() == t.to_set().insert(x),
    decreases t.len(),
{
    if t.len() == 0 {
        let u = seq![x];
        assert(u.to_set() =~= t.to_set().insert(x)) by {
            assert forall|y: Seq<char>| u.to_set().contains(y) implies t.to_set().insert(x).contains(y) by {
                assert(u.contains(y));
            }
            assert(u[0] == x);
        }
        assert(strictly_sorted(u));
    } else {
        let l = t.last();
        let p = t.drop_last();
        assert(l == t[t.len() - 1]);
        if l == x {
            assert(t.contains(x));
        }
        lemma_lex_total(l, x);
        if lex_lt(l, x) {
            let u = t.push(x);
            assert forall|i: int, j: int| 0 <= i < j < u.len() implies lex_lt(#[trigger] u[i], #[trigger] u[j]) by {
                if j == t.len() {
                    if i < t.len() - 1 {
                        lemma_lex_transitive(t[i], l, x);
                    }
                } else {
                    assert(u[i] == t[i] && u[j] == t[j]);
                }
            }
            assert(u.to_set() =~= t.to_set().insert(x)) by {
                assert forall|y: Seq<char>| u.to_set().contains(y) implies t.to_set().insert(x).contains(y) by {
                    let k = choose|k: int| 0 <= k < u.len() && u[k] == y;
                    if k < t.len() {
                        assert(t[k] == y);
                    }
                }
                assert forall|y: Seq<char>| t.to_set().insert(x).contains(y) implies u.to_set().contains(y) by {
                    if y == x {
                        assert(u[t.len() as int] == x);
                    } else {
                        let k = choose|k: int| 0 <= k < t.len() && t[k] == y;
                        assert(u[k] == y);
                    }
                }
            }
        } else {
            assert(lex_lt(x, l));
            assert forall|i: int, j: int| 0 <= i < j < p.len() implies lex_lt(#[trigger] p[i], #[trigger] p[j]) by {
                assert(p[i] == t[i] && p[j] == t[j]);
            }
            if p.contains(x) {
                let k = choose|k: int| 0 <= k < p.len() && p[k] == x;
                assert(t[k] == x);
            }
            lemma_sorted_insert(p, x);
            let v = choose|v: Seq<Seq<char>>| strictly_sorted(v) && v.to_set() == p.to_set().insert(x);
            let u = v.push(l);
            assert forall|i: int, j: int| 0 <= i < j < u.len() implies lex_lt(#[trigger] u[i], #[trigger] u[j]) by {
                if j == v.len() {
                    assert(u[i] == v[i]);
                    assert(v.to_set().contains(v[i]));
                    if v[i] != x {
                        let k = choose|k: int| 0 <= k < p.len() && p[k] == v[i];
                        assert(t[k] == v[i]);
                    }
                } else {
                    assert(u[i] == v[i] && u[j] == v[j]);
                }
            }
            assert(u.to_set() =~= t.to_set().insert(x)) by {
                assert forall|y: Seq<char>| u.to_set().contains(y) implies t.to_set().insert(x).contains(y) by {
                    let k = choose|k: int| 0 <= k < u.len() && u[k] == y;
                    if k < v.len() {
                        assert(v[k] == y);
                        assert(v.to_set().contains(y));
                        if y != x {
                            let m = choose|m: int| 0 <= m < p.len() && p[m] == y;
                            assert(t[m] == y);
                        }
                    } else {
                        assert(t[t.len() - 1] == y);
                    }
                }
                assert forall|y: Seq<char>| t.to_set().insert(x).contains(y) implies u.to_set().contains(y) by {
                    if y == l {
                        assert(u[v.len() as int] == l);
                    } else {
                        if y != x {
                            let k = choose|k: int| 0 <= k < t.len() && t[k] == y;
                            assert(k < p.len());
                            assert(p[k] == y);
                            assert(p.to_set().contains(y));
                        }
                        assert(v.to_set().contains(y));
                        let k = choose|k: int| 0 <= k < v.len() && v[k] == y;
                        assert(u[k] == y);
                    }
                }
            }
        }
    }
}

proof fn lemma_sorted_exists(d: Set<Seq<char>>)
    requires
        d.finite(),
    ensures
        exists|s: Seq<Seq<char>>| strictly_sorted(s) && s.to_set() == d,
    decreases d.len(),
{
    if d.len() == 0 {
        let s = Seq::<Seq<char>>::empty();
        assert(s.to_set() =~= d);
        assert(strictly_sorted(s));
    } else {
        let x = d.choose();
        let r = d.remove(x);
        lemma_sorted_exists(r);
        let t = choose|t: Seq<Seq<char>>| strictly_sorted(t) && t.to_set() == r;
        if t.contains(x) {
            assert(t.to_set().contains(x));
        }
        lemma_sorted_insert(t, x);
        assert(r.insert(x) =~= d);
    }
}

/// The sorted listing of a finite set of names is strictly ascending and
/// holds exactly the set's names.
pub proof fn lemma_sorted_names(d: Set<Seq<char>>)
    requires
        d.finite(),
    ensures
        strictly_sorted(sorted_names(d)),
        sorted_names(d).to_set() == d,
{
    lemma_sorted_exists(d);
}

struct SecretItem {
    name: String,
    value: SecretString,
}

/// A map from secret field name to secret value.
pub struct SecretMap {
    items: Vec<SecretItem>,
}

/// Where name `k` sits among the pairs (meaningful when it is present).
pub open spec fn pair_index(ps: Seq<(Seq<char>, Seq<char>)>, k: Seq<char>) -> int {
    choose|i: int| 0 <= i < ps.len() && (#[trigger] ps[i]).0 == k
}

pub open spec fn pairs_map(ps: Seq<(Seq<char>, Seq<char>)>) -> Map<Seq<char>, Seq<char>> {
    Map::new(
        |k: Seq<char>| exists|i: int| 0 <= i < ps.len() && (#[trigger] ps[i]).0 == k,
        |k: Seq<char>| ps[pair_index(ps, k)].1,
    )
}

pub open spec fn pair_names(ps: Seq<(Seq<char>, Seq<char>)>) -> Seq<Seq<char>> {
    ps.map_values(|p: (Seq<char>, Seq<char>)| p.0)
}

proof fn lemma_pairs_map_at(ps: Seq<(Seq<char>, Seq<char>)>, i: int)
    requires
        strictly_sorted(pair_names(ps)),
        0 <= i < ps.len(),
    ensures
        pairs_map(ps).dom().contains(ps[i].0),
        pairs_map(ps)[ps[i].0] == ps[i].1,
{
    let k = ps[i].0;
    assert(ps[i].0 == k);
    assert(pairs_map(ps).dom().contains(k));
    let j = pair_index(ps, k);
    assert(pairs_map(ps)[k] == ps[j].1);
    if j != i {
        let names = pair_names(ps);
        assert(names[i] == k && names[j] == k);
        if i < j {
            assert(lex_lt(names[i], names[j]));
        } else {
            assert(lex_lt(names[j], names[i]));
        }
        lemma_lex_irreflexive(k);
    }
}

proof fn lemma_pairs_map_absent(ps: Seq<(Seq<char>, Seq<char>)>, k: Seq<char>)
    requires
        forall|i: int| 0 <= i < ps.len() ==> (#[trigger] ps[i]).0 != k,
    ensures
        !pairs_map(ps).dom().contains(k),
{
}

impl SecretItem {
    spec fn pair(&self) -> (Seq<char>, Seq<char>) {
        (self.name@, self.value@)
    }
}

impl SecretMap {
    /// The (name, value) pairs in ascending name order.
    pub closed spec fn pairs(&self) -> Seq<(Seq<char>, Seq<char>)> {
        self.items@.map_values(|it: SecretItem| it.pair())
    }

    /// The field names in ascending order.
    pub closed spec fn names(&self) -> Seq<Seq<char>> {
        pair_names(self.pairs())
    }

    #[verifier::type_invariant]
    spec fn names_ascending(&self) -> bool {
        strictly_sorted(self.names())
    }

    /// An empty map.
    pub fn new() -> (m: SecretMap)
        ensures
            m@ == Map::<Seq<char>, Seq<char>>::empty(),
    {
        let m = SecretMap { items: Vec::new() };
        assert(m@ =~= Map::<Seq<char>, Seq<char>>::empty());
        m
    }

    /// The number of fields.
    pub fn len(&self) -> (n: usize)
        ensures
            n == self@.dom().len(),
    {
        proof {
            use_type_invariant(self);
            self.lemma_dom_is_names();
            self.lemma_names_distinct();
        }
        self.items.len()
    }

    proof fn lemma_dom_is_names(&self)
        ensures
            self@.dom() == self.names().to_set(),
            self@.dom().finite(),
    {
        assert(self@.dom() =~= self.names().to_set()) by {
            assert forall|k: Seq<char>| self@.dom().contains(k) implies self.names().to_set().contains(k) by {
                let i = choose|i: int| 0 <= i < self.pairs().len() && (#[trigger] self.pairs()[i]).0 == k;
                assert(self.names()[i] == k);
            }
            assert forall|k: Seq<char>| self.names().to_set().contains(k) implies self@.dom().contains(k) by {
                let i = choose|i: int| 0 <= i < self.names().len() && self.names()[i] == k;
                assert(self.pairs()[i].0 == k);
            }
        }
    }

    proof fn lemma_names_distinct(&self)
        requires
            strictly_sorted(self.names()),
        ensures
            self.names().to_set().len() == self.items@.len(),
    {
        assert(self.names().no_duplicates()) by {
            assert forall|i: int, j: int| 0 <= i < self.names().len() && 0 <= j < self.names().len() && i != j
                implies self.names()[i] != self.names()[j] by {
                if i < j {
                    assert(lex_lt(self.names()[i], self.names()[j]));
                    lemma_lex_irreflexive(self.names()[i]);
                } else {
                    assert(lex_lt(self.names()[j], self.names()[i]));
                    lemma_lex_irreflexive(self.names()[j]);
                }
            }
        }
        self.names().unique_seq_to_set();
    }

    /// Index of the first item whose name is not before `key`.
    fn lower_bound(&self, key: &Vec<char>) -> (r: (usize, bool))
        ensures
            r.0 <= self.items@.len(),
            forall|i: int| 0 <= i < r.0 ==> lex_lt(#[trigger] self.names()[i], key@),
            r.0 < self.items@.len() ==> !lex_lt(self.names()[r.0 as int], key@),
            r.1 == (r.0 < self.items@.len() && self.names()[r.0 as int] == key@),
    {
        let mut i: usize = 0;
        while i < self.items.len()
            invariant
                i <= self.items@.len(),
                forall|j: int| 0 <= j < i ==> lex_lt(#[trigger] self.names()[j], key@),
            decreases self.items.len() - i,
        {
            let name = chars_of(self.items[i].name.as_str());
            let c = lex_compare(&name, key);
            assert(self.names()[i as int] == self.items@[i as int].name@);
            if c != -1 {
                return (i, c == 0);
            }
            i = i + 1;
        }
        (i, false)
    }

    /// The value of field `key`, if present.
    pub fn get(&self, key: &str) -> (r: Option<&SecretString>)
        ensures
            r is Some == self@.dom().contains(key@),
            r matches Some(v) ==> v@ == self@[key@],
    {
        proof {
            use_type_invariant(self);
        }
        let k = chars_of(key);
        let (i, found) = self.lower_bound(&k);
        if found {
            proof {
                lemma_pairs_map_at(self.pairs(), i as int);
                assert(self.pairs()[i as int].0 == key@);
            }
            Some(&self.items[i].value)
        } else {
            proof {
                self.lemma_absent(key@, i as int);
            }
            None
        }
    }

    proof fn lemma_absent(&self, key: Seq<char>, i: int)
        requires
            strictly_sorted(self.names()),
            0 <= i <= self.items@.len(),
            forall|j: int| 0 <= j < i ==> lex_lt(#[trigger] self.names()[j], key),
            i < self.items@.len() ==> !lex_lt(self.names()[i], key),
            !(i < self.items@.len() && self.names()[i] == key),
        ensures
            !self@.dom().contains(key),
    {
        assert forall|j: int| 0 <= j < self.pairs().len() implies (#[trigger] self.pairs()[j]).0 != key by {
            assert(self.names()[j] == self.pairs()[j].0);
            if j < i {
                lemma_lex_irreflexive(key);
            } else if j > i {
                lemma_lex_total(self.names()[i], key);
                assert(lex_lt(self.names()[i], self.names()[j]));
                if self.names()[j] == key {
                    lemma_lex_asymmetric(self.names()[i], key);
                }
            }
        }
        lemma_pairs_map_absent(self.pairs(), key);
    }

    /// Whether field `key` is present.
    pub fn contains_key(&self, key: &str) -> (r: bool)
        ensures
            r == self@.dom().contains(key@),
    {
        self.get(key).is_some()
    }

    /// The field names, in ascending order.
    pub fn keys(&self) -> (r: Vec<String>)
        ensures
            r@.map_values(|s: String| s@) == sorted_names(self@.dom()),
            r@.map_values(|s: String| s@) == self.names(),
    {
        proof {
            use_type_invariant(self);
            self.lemma_dom_is_names();
            lemma_sorted_names_of(self.names());
        }
        let mut r: Vec<String> = Vec::new();
        let mut i: usize = 0;
        while i < self.items.len()
            invariant
                i <= self.items@.len(),
                r@.map_values(|s: String| s@) == self.names().take(i as int),
            decreases self.items.len() - i,
        {
            let c = self.items[i].name.clone();
            assert(c@ == self.names()[i as int]);
            let ghost before = r@.map_values(|s: String| s@);
            r.push(c);
            proof {
                assert(r@.map_values(|s: String| s@) =~= before.push(c@));
                assert(self.names().take(i + 1) =~= self.names().take(i as int).push(c@));
            }
            i = i + 1;
        }
        proof {
            assert(self.names().take(i as int) =~= self.names());
        }
        r
    }

    /// Set field `key` to `value`, returning the value it replaced.
    pub fn insert(&mut self, key: String, value: SecretString) -> (r: Option<SecretString>)
        ensures
            final(self)@ == old(self)@.insert(key@, value@),
            r is Some == old(self)@.dom().contains(key@),
            r matches Some(v) ==> v@ == old(self)@[key@],
    {
        proof {
            use_type_invariant(&*self);
        }
        let k = chars_of(key.as_str());
        let (i, found) = self.lower_bound(&k);
        let ghost old_pairs = self.pairs();
        let ghost old_map = self@;
        let mut items: Vec<SecretItem> = Vec::new();
        std::mem::swap(&mut items, &mut self.items);
        assert(items@.map_values(|it: SecretItem| it.pair()) == old_pairs);
        if found {
            let old_item = items.remove(i);
            items.insert(i, SecretItem { name: key, value });
            let ghost new_pairs = items@.map_values(|it: SecretItem| it.pair());
            proof {
                assert(new_pairs =~= old_pairs.update(i as int, (key@, value@)));
                assert(pair_names(new_pairs) =~= pair_names(old_pairs));
                lemma_pairs_map_at(old_pairs, i as int);
                Self::lemma_update_map(old_pairs, i as int, value@);
            }
            self.items = items;
            Some(old_item.value)
        } else {
            items.insert(i, SecretItem { name: key, value });
            let ghost new_pairs = items@.map_values(|it: SecretItem| it.pair());
            proof {
                assert(new_pairs =~= old_pairs.insert(i as int, (key@, value@)));
                self.lemma_absent_ghost(old_pairs, key@, i as int);
                Self::lemma_insert_map(old_pairs, i as int, key@, value@);
            }
            self.items = items;
            None
        }
    }

    proof fn lemma_absent_ghost(&self, ps: Seq<(Seq<char>, Seq<char>)>, key: Seq<char>, i: int)
        requires
            strictly_sorted(pair_names(ps)),
            0 <= i <= ps.len(),
            forall|j: int| 0 <= j < i ==> lex_lt(#[trigger] pair_names(ps)[j], key),
            i < ps.len() ==> !lex_lt(pair_names(ps)[i], key),
            !(i < ps.len() && pair_names(ps)[i] == key),
        ensures
            !pairs_map(ps).dom().contains(key),
            i < ps.len() ==> lex_lt(key, pair_names(ps)[i]),
            forall|j: int| i <= j < ps.len() ==> lex_lt(key, #[trigger] pair_names(ps)[j]),
    {
        let names = pair_names(ps);
        assert forall|j: int| i <= j < ps.len() implies lex_lt(key, #[trigger] names[j]) by {
            lemma_lex_total(names[i], key);
            if j > i {
                assert(lex_lt(names[i], names[j]));
                lemma_lex_transitive(key, names[i], names[j]);
            }
        }
        assert forall|j: int| 0 <= j < ps.len() implies (#[trigger] ps[j]).0 != key by {
            assert(names[j] == ps[j].0);
            if j < i {
                lemma_lex_irreflexive(key);
            } else {
                lemma_lex_irreflexive(key);
            }
        }
        lemma_pairs_map_absent(ps, key);
    }

    proof fn lemma_update_map(ps: Seq<(Seq<char>, Seq<char>)>, i: int, v: Seq<char>)
        requires
            strictly_sorted(pair_names(ps)),
            0 <= i < ps.len(),
        ensures
            pairs_map(ps.update(i, (ps[i].0, v))) == pairs_map(ps).insert(ps[i].0, v),
    {
        let qs = ps.update(i, (ps[i].0, v));
        assert(pair_names(qs) =~= pair_names(ps));
        let m = pairs_map(ps).insert(ps[i].0, v);
        assert forall|k: Seq<char>| #[trigger] pairs_map(qs).dom().contains(k) == m.dom().contains(k) by {
            if pairs_map(qs).dom().contains(k) {
                let j = choose|j: int| 0 <= j < qs.len() && (#[trigger] qs[j]).0 == k;
                if j != i {
                    assert(ps[j].0 == k);
                }
            }
            if m.dom().contains(k) && k != ps[i].0 {
                let j = choose|j: int| 0 <= j < ps.len() && (#[trigger] ps[j]).0 == k;
                assert(qs[j].0 == k);
            }
            if k == ps[i].0 {
                assert(qs[i].0 == k);
            }
        }
        assert forall|k: Seq<char>| #[trigger] pairs_map(qs).dom().contains(k) implies pairs_map(qs)[k] == m[k] by {
            let j = choose|j: int| 0 <= j < qs.len() && (#[trigger] qs[j]).0 == k;
            lemma_pairs_map_at(qs, j);
            if j != i {
                assert(ps[j] == qs[j]);
                lemma_pairs_map_at(ps, j);
                if k == ps[i].0 {
                    assert(pair_names(ps)[i] == pair_names(ps)[j]);
                    if i < j {
                        assert(lex_lt(pair_names(ps)[i], pair_names(ps)[j]));
                    } else {
                        assert(lex_lt(pair_names(ps)[j], pair_names(ps)[i]));
                    }
                    lemma_lex_irreflexive(k);
                }
            }
        }
        assert(pairs_map(qs) =~= m);
    }

    proof fn lemma_insert_map(ps: Seq<(Seq<char>, Seq<char>)>, i: int, key: Seq<char>, v: Seq<char>)
        requires
            strictly_sorted(pair_names(ps)),
            0 <= i <= ps.len(),
            forall|j: int| 0 <= j < i ==> lex_lt(#[trigger] pair_names(ps)[j], key),
            forall|j: int| i <= j < ps.len() ==> lex_lt(key, #[trigger] pair_names(ps)[j]),
        ensures
            strictly_sorted(pair_names(ps.insert(i, (key, v)))),
            pairs_map(ps.insert(i, (key, v))) == pairs_map(ps).insert(key, v),
    {
        let qs = ps.insert(i, (key, v));
        let names = pair_names(ps);
        let qn = pair_names(qs);
        assert(qn =~= names.insert(i, key));
        assert forall|a: int, b: int| 0 <= a < b < qn.len() implies lex_lt(#[trigger] qn[a], #[trigger] qn[b]) by {
            if b < i {
                assert(qn[a] == names[a] && qn[b] == names[b]);
            } else if b == i {
                assert(qn[a] == names[a]);
            } else if a < i {
                assert(qn[a] == names[a] && qn[b] == names[b - 1]);
                lemma_lex_transitive(names[a], key, names[b - 1]);
            } else if a == i {
                assert(qn[b] == names[b - 1]);
            } else {
                assert(qn[a] == names[a - 1] && qn[b] == names[b - 1]);
            }
        }
        let m = pairs_map(ps).insert(key, v);
        assert forall|k: Seq<char>| #[trigger] pairs_map(qs).dom().contains(k) == m.dom().contains(k) by {
            if pairs_map(qs).dom().contains(k) && k != key {
                let j = choose|j: int| 0 <= j < qs.len() && (#[trigger] qs[j]).0 == k;
                if j < i {
                    assert(ps[j].0 == k);
                } else if j > i {
                    assert(ps[j - 1].0 == k);
                }
            }
            if m.dom().contains(k) && k != key {
                let j = choose|j: int| 0 <= j < ps.len() && (#[trigger] ps[j]).0 == k;
                if j < i {
                    assert(qs[j].0 == k);
                } else {
                    assert(qs[j + 1].0 == k);
                }
            }
            if k == key {
                assert(qs[i].0 == k);
            }
        }
        assert forall|k: Seq<char>| #[trigger] pairs_map(qs).dom().contains(k) implies pairs_map(qs)[k] == m[k] by {
            let j = choose|j: int| 0 <= j < qs.len() && (#[trigger] qs[j]).0 == k;
            lemma_pairs_map_at(qs, j);
            if j < i {
                assert(qs[j] == ps[j]);
                lemma_pairs_map_at(ps, j);
                assert(names[j] == k);
                if k == key {
                    lemma_lex_irreflexive(key);
                }
            } else if j > i {
                assert(qs[j] == ps[j - 1]);
                lemma_pairs_map_at(ps, j - 1);
                assert(names[j - 1] == k);
                if k == key {
                    lemma_lex_irreflexive(key);
                }
            }
        }
        assert(pairs_map(qs) =~= m);
    }

    /// Delete field `key`, returning its value if it was present.
    pub fn remove(&mut self, key: &str) -> (r: Option<SecretString>)
        ensures
            final(self)@ == old(self)@.remove(key@),
            r is Some == old(self)@.dom().contains(key@),
            r matches Some(v) ==> v@ == old(self)@[key@],
    {
        proof {
            use_type_invariant(&*self);
        }
        let k = chars_of(key);
        let (i, found) = self.lower_bound(&k);
        if !found {
            proof {
                self.lemma_absent(key@, i as int);
                assert(self@.remove(key@) =~= self@);
            }
            return None;
        }
        let ghost old_pairs = self.pairs();
        proof {
            lemma_pairs_map_at(old_pairs, i as int);
        }
        let mut items: Vec<SecretItem> = Vec::new();
        std::mem::swap(&mut items, &mut self.items);
        assert(items@.map_values(|it: SecretItem| it.pair()) == old_pairs);
        let old_item = items.remove(i);
        proof {
            let new_pairs = items@.map_values(|it: SecretItem| it.pair());
            assert(new_pairs =~= old_pairs.remove(i as int));
            Self::lemma_remove_map(old_pairs, i as int);
        }
        self.items = items;
        Some(old_item.value)
    }

    proof fn lemma_remove_map(ps: Seq<(Seq<char>, Seq<char>)>, i: int)
        requires
            strictly_sorted(pair_names(ps)),
            0 <= i < ps.len(),
        ensures
            strictly_sorted(pair_names(ps.remove(i))),
            pairs_map(ps.remove(i)) == pairs_map(ps).remove(ps[i].0),
    {
        let qs = ps.remove(i);
        let names = pair_names(ps);
        let qn = pair_names(qs);
        assert(qn =~= names.remove(i));
        assert forall|a: int, b: int| 0 <= a < b < qn.len() implies lex_lt(#[trigger] qn[a], #[trigger] qn[b]) by {
            if b < i {
                assert(qn[a] == names[a] && qn[b] == names[b]);
            } else if a < i {
                assert(qn[a] == names[a] && qn[b] == names[b + 1]);
            } else {
                assert(qn[a] == names[a + 1] && qn[b] == names[b + 1]);
            }
        }
        let key = ps[i].0;
        let m = pairs_map(ps).remove(key);
        assert forall|k: Seq<char>| #[trigger] pairs_map(qs).dom().contains(k) == m.dom().contains(k) by {
            if pairs_map(qs).dom().contains(k) {
                let j = choose|j: int| 0 <= j < qs.len() && (#[trigger] qs[j]).0 == k;
                if j < i {
                    assert(ps[j].0 == k);
                    assert(lex_lt(names[j], names[i]));
                    if k == key {
                        lemma_lex_irreflexive(k);
                    }
                } else {
                    assert(ps[j + 1].0 == k);
                    assert(lex_lt(names[i], names[j + 1]));
                    if k == key {
                        lemma_lex_irreflexive(k);
                    }
                }
            }
            if m.dom().contains(k) {
                let j = choose|j: int| 0 <= j < ps.len() && (#[trigger] ps[j]).0 == k;
                if j < i {
                    assert(qs[j].0 == k);
                } else if j > i {
                    assert(qs[j - 1].0 == k);
                }
            }
        }
        assert forall|k: Seq<char>| #[trigger] pairs_map(qs).dom().contains(k) implies pairs_map(qs)[k] == m[k] by {
            let j = choose|j: int| 0 <= j < qs.len() && (#[trigger] qs[j]).0 == k;
            lemma_pairs_map_at(qs, j);
            if j < i {
                assert(qs[j] == ps[j]);
                lemma_pairs_map_at(ps, j);
            } else {
                assert(qs[j] == ps[j + 1]);
                lemma_pairs_map_at(ps, j + 1);
            }
        }
        assert(pairs_map(qs) =~= m);
    }
}

impl View for SecretMap {
    type V = Map<Seq<char>, Seq<char>>;

    closed spec fn view(&self) -> Map<Seq<char>, Seq<char>> {
        pairs_map(self.pairs())
    }
}

} // verus!
