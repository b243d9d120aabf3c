use vstd::prelude::*;

use crate::text::{chars_of, string_of};

verus! {

/// The map that the first `n` name/value pairs stand for.
pub open spec fn pairs_map(ks: Seq<Seq<char>>, vs: Seq<Seq<char>>, n: int) -> Map<Seq<char>, Seq<char>>
    decreases n,
{
    if n <= 0 {
        Map::empty()
    } else {
        pairs_map(ks, vs, n - 1).insert(ks[n - 1], vs[n - 1])
    }
}

/// No name occurs twice among the first `n`.
pub open spec fn unique(ks: Seq<Seq<char>>, n: int) -> bool {
    forall|a: int, b: int| 0 <= a < n && 0 <= b < n && ks[a] == ks[b] ==> a == b
}

proof fn lemma_pairs_map(ks: Seq<Seq<char>>, vs: Seq<Seq<char>>, n: int)
    requires
        0 <= n <= ks.len(),
        n <= vs.len(),
        unique(ks, n),
    ensures
        forall|j: int| 0 <= j < n ==> #[trigger] pairs_map(ks, vs, n).contains_key(ks[j])
            && pairs_map(ks, vs, n)[ks[j]] == vs[j],
        forall|k: Seq<char>| #[trigger] pairs_map(ks, vs, n).contains_key(k)
            ==> exists|j: int| 0 <= j < n && ks[j] == k,
    decreases n,
{
    if n > 0 {
        lemma_pairs_map(ks, vs, n - 1);
        assert forall|j: int| 0 <= j < n implies #[trigger] pairs_map(ks, vs, n).contains_key(ks[j])
            && pairs_map(ks, vs, n)[ks[j]] == vs[j] by {
            if j < n - 1 {
                assert(ks[j] != ks[n - 1]);
                assert(pairs_map(ks, vs, n - 1).contains_key(ks[j]));
            }
        }
        assert forall|k: Seq<char>| #[trigger] pairs_map(ks, vs, n).contains_key(k)
            implies exists|j: int| 0 <= j < n && ks[j] == k by {
            if k != ks[n - 1] {
                assert(pairs_map(ks, vs, n - 1).contains_key(k));
            }
        }
    }
}

/// The variables in scope: each name bound to one string value.
pub struct VarStore {
    names: Vec<Vec<char>>,
    values: Vec<Vec<char>>,
}

impl VarStore {
    pub closed spec fn wf(&self) -> bool {
        &&& self.names.len() == self.values.len()
        &&& unique(self.names.deep_view(), self.names.len() as int)
    }

    /// The bindings of the store.
    pub closed spec fn view(&self) -> Map<Seq<char>, Seq<char>> {
        pairs_map(self.names.deep_view(), self.values.deep_view(), self.names.len() as int)
    }

    proof fn lemma_view(&self)
        requires
            self.wf(),
        ensures
            forall|j: int| 0 <= j < self.names.len() ==> #[trigger] self@.contains_key(self.names@[j]@)
                && self@[self.names@[j]@] == self.values@[j]@,
            forall|k: Seq<char>| #[trigger] self@.contains_key(k)
                ==> exists|j: int| 0 <= j < self.names.len() && self.names@[j]@ == k,
    {
        let ks = self.names.deep_view();
        let vs = self.values.deep_view();
        lemma_pairs_map(ks, vs, self.names.len() as int);
        assert forall|j: int| 0 <= j < self.names.len() implies #[trigger] self@.contains_key(self.names@[j]@)
            && self@[self.names@[j]@] == self.values@[j]@ by {
            assert(ks[j] == self.names@[j]@);
            assert(vs[j] == self.values@[j]@);
        }
        assert forall|k: Seq<char>| #[trigger] self@.contains_key(k)
            implies exists|j: int| 0 <= j < self.names.len() && self.names@[j]@ == k by {
            let j = choose|j: int| 0 <= j < self.names.len() && ks[j] == k;
            assert(ks[j] == self.names@[j]@);
        }
    }

    /// An empty store.
    pub fn new() -> (r: VarStore)
        ensures
            r.wf(),
            r@ == Map::<Seq<char>, Seq<char>>::empty(),
    {
        VarStore { names: Vec::new(), values: Vec::new() }
    }

    /// A copy of the store, with the same bindings.
    pub fn fork(&self) -> (r: VarStore)
        requires
            self.wf(),
        ensures
            r.wf(),
            r@ == self@,
    {
        let mut names: Vec<Vec<char>> = Vec::new();
        let mut values: Vec<Vec<char>> = Vec::new();
        let mut i: usize = 0;
        while i < self.names.len()
            invariant
                self.wf(),
                i <= self.names.len(),
                names.len() == i,
                values.len() == i,
                forall|j: int| 0 <= j < i ==> names@[j]@ == self.names@[j]@,
                forall|j: int| 0 <= j < i ==> values@[j]@ == self.values@[j]@,
            decreases self.names.len() - i,
        {
            names.push(self.names[i].clone());
            values.push(self.values[i].clone());
            i = i + 1;
        }
        let r = VarStore { names, values };
        assert(r.names.deep_view() =~= self.names.deep_view());
        assert(r.values.deep_view() =~= self.values.deep_view());
        r
    }

    /// Index of the binding of `k`, if there is one.
    fn find(&self, k: &[char]) -> (r: Option<usize>)
        requires
            self.wf(),
        ensures
            r matches Some(j) ==> j < self.names.len() && self.names@[j as int]@ == k@,
            r is None ==> !self@.contains_key(k@),
    {
        proof { self.lemma_view(); }
        let mut i: usize = 0;
        while i < self.names.len()
            invariant
                self.wf(),
                i <= self.names.len(),
                forall|j: int| 0 <= j < i ==> self.names@[j]@ != k@,
            decreases self.names.len() - i,
        {
            if eq_chars(&self.names[i], k) {
                return Some(i);
            }
            i = i + 1;
        }
        None
    }

    /// Binds `name` to `value`, replacing an earlier binding of `name`.
    pub fn set(&mut self, name: Vec<char>, value: Vec<char>)
        requires
            old(self).wf(),
        ensures
            final(self).wf(),
            final(self)@ == old(self)@.insert(name@, value@),
    {
        proof { self.lemma_view(); }
        match self.find(&name) {
            Some(i) => {
                let ghost before = *self;
                let ghost k = name@;
                let ghost v = value@;
                self.values.set(i, value);
                proof {
                    assert(self.names.deep_view() =~= before.names.deep_view());
                    self.lemma_view();
                    assert forall|q: Seq<char>| #[trigger] self@.contains_key(q) == before@.insert(k, v).contains_key(q) by {
                        if self@.contains_key(q) {
                            let j = choose|j: int| 0 <= j < self.names.len() && self.names@[j]@ == q;
                        }
                        if before@.contains_key(q) {
                            let j = choose|j: int| 0 <= j < before.names.len() && before.names@[j]@ == q;
                            assert(self.names@[j]@ == q);
                        }
                    }
                    assert forall|q: Seq<char>| self@.contains_key(q) implies #[trigger] self@[q] == before@.insert(k, v)[q] by {
                        let j = choose|j: int| 0 <= j < self.names.len() && self.names@[j]@ == q;
                        if q != k {
                            assert(j != i);
                        }
                    }
                    assert(self@ =~= before@.insert(k, v));
                }
            },
            None => {
                let ghost before = *self;
                let ghost k = name@;
                let ghost v = value@;
                self.names.push(name);
                self.values.push(value);
                proof {
                    let n = before.names.len() as int;
                    assert(self.names.deep_view().subrange(0, n) =~= before.names.deep_view());
                    assert(self.values.deep_view().subrange(0, n) =~= before.values.deep_view());
                    lemma_pairs_map_prefix(self.names.deep_view(), self.values.deep_view(), before.names.deep_view(), before.values.deep_view(), n);
                    before.lemma_view();
                    assert(self.names.deep_view()[n] == k);
                    assert(self.values.deep_view()[n] == v);
                    assert(self@ == pairs_map(self.names.deep_view(), self.values.deep_view(), n).insert(k, v));
                    assert forall|a: int, b: int| 0 <= a < n + 1 && 0 <= b < n + 1 && self.names.deep_view()[a] == self.names.deep_view()[b] implies a == b by {
                        assert(self.names.deep_view()[a] == self.names@[a]@);
                        assert(self.names.deep_view()[b] == self.names@[b]@);
                        assert(self.names@[n]@ == k);
                        if a == n && b < n {
                            assert(self.names@[b] == before.names@[b]);
                            assert(before@.contains_key(before.names@[b]@));
                        }
                        if b == n && a < n {
                            assert(self.names@[a] == before.names@[a]);
                            assert(before@.contains_key(before.names@[a]@));
                        }
                        if a < n && b < n {
                            assert(self.names@[a] == before.names@[a]);
                            assert(self.names@[b] == before.names@[b]);
                            assert(before.names.deep_view()[a] == before.names@[a]@);
                            assert(before.names.deep_view()[b] == before.names@[b]@);
                        }
                    }
                }
            },
        }
    }

    /// Binds `name` to `value`, replacing an earlier binding of `name`.
    pub fn insert(&mut self, name: &str, value: &str)
        requires
            old(self).wf(),
        ensures
            final(self).wf(),
            final(self)@ == old(self)@.insert(name@, value@),
    {
        let n = chars_of(name);
        let v = chars_of(value);
        self.set(n, v);
    }

    /// The value bound to the name `k`, if any.
    pub fn lookup(&self, k: &[char]) -> (r: Option<Vec<char>>)
        requires
            self.wf(),
        ensures
            r matches Some(v) ==> self@.contains_key(k@) && v@ == self@[k@],
            r is None ==> !self@.contains_key(k@),
    {
        match self.find(k) {
            Some(j) => {
                proof {
                    self.lemma_view();
                    assert(self@.contains_key(self.names@[j as int]@));
                }
                Some(self.values[j].clone())
            },
            None => None,
        }
    }

    /// The value bound to `name`, if any.
    pub fn get(&self, name: &str) -> (r: Option<String>)
        requires
            self.wf(),
        ensures
            r matches Some(v) ==> self@.contains_key(name@) && v@ == self@[name@],
            r is None ==> !self@.contains_key(name@),
    {
        let n = chars_of(name);
        match self.find(&n) {
            Some(j) => {
                proof {
                    self.lemma_view();
                    assert(self@.contains_key(self.names@[j as int]@));
                }
                Some(string_of(&self.values[j]))
            },
            None => None,
        }
    }
}

proof fn lemma_pairs_map_prefix(ks: Seq<Seq<char>>, vs: Seq<Seq<char>>, ks2: Seq<Seq<char>>, vs2: Seq<Seq<char>>, n: int)
    requires
        0 <= n <= ks.len(),
        n <= vs.len(),
        ks.subrange(0, n) == ks2,
        vs.subrange(0, n) == vs2,
    ensures
        pairs_map(ks, vs, n) == pairs_map(ks2, vs2, n),
    decreases n,
{
    if n > 0 {
        assert(ks.subrange(0, n - 1) == ks2.subrange(0, n - 1));
        assert(vs.subrange(0, n - 1) == vs2.subrange(0, n - 1));
        lemma_pairs_map_prefix(ks, vs, ks2.subrange(0, n - 1), vs2.subrange(0, n - 1), n - 1);
        lemma_pairs_map_prefix(ks2, vs2, ks2.subrange(0, n - 1), vs2.subrange(0, n - 1), n - 1);
        assert(ks[n - 1] == ks2[n - 1]);
        assert(vs[n - 1] == vs2[n - 1]);
    }
}

/// Whether two character sequences are equal.
pub fn eq_chars(a: &[char], b: &[char]) -> (r: bool)
    ensures
        r == (a@ == b@),
{
    if a.len() != b.len() {
        return false;
    }
    let mut i: usize = 0;
    while i < a.len()
        invariant
            a.len() == b.len(),
            i <= a.len(),
            forall|j: int| 0 <= j < i ==> a@[j] == b@[j],
        decreases a.len() - i,
    {
        if a[i] != b[i] {
            return false;
        }
        i = i + 1;
    }
    assert(a@ =~= b@);
    true
}

} // verus!
