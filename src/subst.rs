use vstd::prelude::*;

use crate::text::{chars_of, slice, string_of};
use crate::vars::VarStore;

verus! {

/// The longest name bound in `m` that stands in `s` at `i`, trying the
/// lengths from `len` down.
pub open spec fn longest(m: Map<Seq<char>, Seq<char>>, s: Seq<char>, i: int, len: nat) -> Option<Seq<char>>
    decreases len,
{
    if i + len <= s.len() && m.contains_key(s.subrange(i, i + len)) {
        Some(s.subrange(i, i + len))
    } else if len == 0 {
        None
    } else {
        longest(m, s, i, (len - 1) as nat)
    }
}

/// The longest name bound in `m` that stands in `s` at `i`.
pub open spec fn name_at(m: Map<Seq<char>, Seq<char>>, s: Seq<char>, i: int) -> Option<Seq<char>> {
    if i <= s.len() {
        longest(m, s, i, (s.len() - i) as nat)
    } else {
        None
    }
}

/// `s` from `i` on with each `$name` replaced by its value and each
/// `$$name` by the literal `$name`; a name is always the longest bound one.
pub open spec fn subst_from(m: Map<Seq<char>, Seq<char>>, s: Seq<char>, i: int) -> Seq<char>
    decreases if i < s.len() { s.len() - i } else { 0 },
{
    if i < 0 || i >= s.len() {
        Seq::empty()
    } else if s[i] != '$' {
        seq![s[i]] + subst_from(m, s, i + 1)
    } else if i + 1 < s.len() && s[i + 1] == '$' && name_at(m, s, i + 2) is Some {
        let k = name_at(m, s, i + 2)->0;
        seq!['$'] + k + subst_from(m, s, i + 2 + k.len())
    } else if name_at(m, s, i + 1) is Some {
        let k = name_at(m, s, i + 1)->0;
        m[k] + subst_from(m, s, i + 1 + k.len())
    } else {
        seq!['$'] + subst_from(m, s, i + 1)
    }
}

/// `s` with the variables of `m` substituted.
pub open spec fn subst(m: Map<Seq<char>, Seq<char>>, s: Seq<char>) -> Seq<char> {
    subst_from(m, s, 0)
}

proof fn lemma_longest(m: Map<Seq<char>, Seq<char>>, s: Seq<char>, i: int, len: nat)
    requires
        0 <= i,
        i + len <= s.len(),
    ensures
        longest(m, s, i, len) matches Some(k) ==> k.len() <= len && k == s.subrange(i, i + k.len())
            && m.contains_key(k),
        longest(m, s, i, len) is None ==> forall|l: int| 0 <= l <= len ==> !m.contains_key(#[trigger] s.subrange(i, i + l)),
        longest(m, s, i, len) matches Some(k) ==> forall|l: int| k.len() < l <= len ==> !m.contains_key(#[trigger] s.subrange(i, i + l)),
    decreases len,
{
    if len > 0 {
        lemma_longest(m, s, i, (len - 1) as nat);
    }
}

/// The longest name bound in `vars` that stands in `s` at `i`, with its value.
fn name_at_exec(vars: &VarStore, s: &[char], i: usize) -> (r: Option<(Vec<char>, Vec<char>)>)
    requires
        vars.wf(),
        i <= s.len(),
    ensures
        r is None ==> name_at(vars@, s@, i as int) is None,
        r matches Some(p) ==> name_at(vars@, s@, i as int) == Some(p.0@) && vars@[p.0@] == p.1@,
{
    let mut len: usize = s.len() - i;
    loop
        invariant
            vars.wf(),
            i + len <= s.len(),
            name_at(vars@, s@, i as int) == longest(vars@, s@, i as int, len as nat),
        decreases len,
    {
        let k = slice(s, i, i + len);
        match vars.lookup(&k) {
            Some(v) => {
                return Some((k, v));
            },
            None => {},
        }
        if len == 0 {
            return None;
        }
        len = len - 1;
    }
}

/// The characters of `s` with the variables of `vars` substituted.
pub fn substitute(s: &[char], vars: &VarStore) -> (r: Vec<char>)
    requires
        vars.wf(),
    ensures
        r@ == subst(vars@, s@),
{
    let mut r: Vec<char> = Vec::new();
    let mut i: usize = 0;
    while i < s.len()
        invariant
            vars.wf(),
            i <= s.len(),
            r@ + subst_from(vars@, s@, i as int) == subst(vars@, s@),
        decreases s.len() - i,
    {
        let ghost r0 = r@;
        let ghost i0 = i as int;
        if s[i] != '$' {
            r.push(s[i]);
            i = i + 1;
            assert(r0 + subst_from(vars@, s@, i0) == r@ + subst_from(vars@, s@, i as int));
            continue;
        }
        if i + 1 < s.len() && s[i + 1] == '$' {
            match name_at_exec(vars, s, i + 2) {
                Some((k, _v)) => {
                    proof { lemma_longest(vars@, s@, i + 2, (s.len() - (i + 2)) as nat); }
                    r.push('$');
                    let mut j: usize = 0;
                    while j < k.len()
                        invariant
                            j <= k.len(),
                            r@ == r0 + seq!['$'] + k@.subrange(0, j as int),
                        decreases k.len() - j,
                    {
                        r.push(k[j]);
                        j = j + 1;
                        assert(r@ =~= r0 + seq!['$'] + k@.subrange(0, j as int));
                    }
                    assert(k@.subrange(0, k.len() as int) =~= k@);
                    i = i + 2 + k.len();
                    assert(r0 + subst_from(vars@, s@, i0) =~= r@ + subst_from(vars@, s@, i as int));
                    continue;
                },
                None => {},
            }
        }
        match name_at_exec(vars, s, i + 1) {
            Some((k, v)) => {
                proof { lemma_longest(vars@, s@, i + 1, (s.len() - (i + 1)) as nat); }
                let mut j: usize = 0;
                while j < v.len()
                    invariant
                        j <= v.len(),
                        r@ == r0 + v@.subrange(0, j as int),
                    decreases v.len() - j,
                {
                    r.push(v[j]);
                    j = j + 1;
                    assert(r@ =~= r0 + v@.subrange(0, j as int));
                }
                assert(v@.subrange(0, v.len() as int) =~= v@);
                i = i + 1 + k.len();
                assert(r0 + subst_from(vars@, s@, i0) =~= r@ + subst_from(vars@, s@, i as int));
            },
            None => {
                r.push('$');
                i = i + 1;
                assert(r0 + subst_from(vars@, s@, i0) =~= r@ + subst_from(vars@, s@, i as int));
            },
        }
    }
    assert(r@ + subst_from(vars@, s@, i as int) =~= r@);
    r
}

/// `text` with every `$name` bound in `variables` replaced by its value and
/// every `$$name` by the literal `$name`; other text is kept as it is.
pub fn replace_variables(text: &str, variables: &VarStore) -> (r: String)
    requires
        variables.wf(),
    ensures
        r@ == subst(variables@, text@),
{
    let s = chars_of(text);
    let r = substitute(&s, variables);
    string_of(&r)
}

proof fn lemma_no_dollar(m: Map<Seq<char>, Seq<char>>, s: Seq<char>, i: int)
    requires
        0 <= i <= s.len(),
        forall|j: int| 0 <= j < s.len() ==> s[j] != '$',
    ensures
        subst_from(m, s, i) == s.subrange(i, s.len() as int),
    decreases s.len() - i,
{
    if i < s.len() {
        lemma_no_dollar(m, s, i + 1);
        assert(seq![s[i]] + s.subrange(i + 1, s.len() as int) =~= s.subrange(i, s.len() as int));
    } else {
        assert(s.subrange(i, s.len() as int) =~= Seq::<char>::empty());
    }
}

/// Text without a `$` comes out of substitution unchanged, whatever the
/// variables.
pub proof fn lemma_subst_identity(m: Map<Seq<char>, Seq<char>>, s: Seq<char>)
    requires
        forall|j: int| 0 <= j < s.len() ==> s[j] != '$',
    ensures
        subst(m, s) == s,
{
    lemma_no_dollar(m, s, 0);
    assert(s.subrange(0, s.len() as int) =~= s);
}

proof fn lemma_name_at_whole(m: Map<Seq<char>, Seq<char>>, s: Seq<char>, i: int, k: Seq<char>)
    requires
        0 <= i,
        m.contains_key(k),
        s.len() == i + k.len(),
        s.subrange(i, s.len() as int) == k,
    ensures
        name_at(m, s, i) == Some(k),
{
    let len = (s.len() - i) as nat;
    lemma_longest(m, s, i, len);
    assert(s.subrange(i, i + len) == k);
    if let Some(k2) = longest(m, s, i, len) {
        if k2.len() < len {
            assert(!m.contains_key(s.subrange(i, i + len)));
        }
    } else {
        assert(!m.contains_key(s.subrange(i, i + len)));
    }
}

/// `$k` gives the value of a bound name `k`, and `$$k` the literal `$k`,
/// whatever other names are bound, among them prefixes or suffixes of `k`.
/// (A name that itself begins with `$` is left out: after `$` it reads as
/// the escape.)
pub proof fn lemma_subst_name(m: Map<Seq<char>, Seq<char>>, k: Seq<char>)
    requires
        m.contains_key(k),
        k.len() == 0 || k[0] != '$',
    ensures
        subst(m, seq!['$'] + k) == m[k],
        subst(m, seq!['$', '$'] + k) == seq!['$'] + k,
{
    let s1 = seq!['$'] + k;
    assert(s1.subrange(1, s1.len() as int) =~= k);
    lemma_name_at_whole(m, s1, 1, k);
    assert(subst_from(m, s1, 1 + k.len() as int) == Seq::<char>::empty());
    assert(m[k] + Seq::<char>::empty() =~= m[k]);
    let s2 = seq!['$', '$'] + k;
    assert(s2.subrange(2, s2.len() as int) =~= k);
    lemma_name_at_whole(m, s2, 2, k);
    assert(s2[1] == '$');
    assert(subst_from(m, s2, 2 + k.len() as int) == Seq::<char>::empty());
    assert(seq!['$'] + k + Seq::<char>::empty() =~= seq!['$'] + k);
}

} // verus!
