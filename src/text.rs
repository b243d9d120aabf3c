use vstd::prelude::*;
use vstd::std_specs::iter::IteratorSpec;

verus! {

/// Whether `c` has the Unicode White_Space property.
pub uninterp spec fn whitespace(c: char) -> bool;

/// Relies on `char::is_whitespace`: the answer depends on the character
/// alone; the ASCII blank characters are whitespace, the printable ASCII
/// characters are not.
#[verifier::external_body]
pub fn is_whitespace(c: char) -> (r: bool)
    ensures
        r == whitespace(c),
        c == ' ' || c == '\t' || c == '\n' || c == '\r' ==> r,
        '!' <= c <= '~' ==> !r,
{
    c.is_whitespace()
}

/// The characters of `s`, in order.
pub fn chars_of(s: &str) -> (r: Vec<char>)
    ensures
        r@ == s@,
{
    broadcast use vstd::string::axiom_spec_iter, vstd::string::next_postcondition;
    let mut it = s.chars();
    let mut r: Vec<char> = Vec::new();
    loop
        invariant
            r@ + it.remaining() == s@,
        decreases s@.len() - r.len(),
    {
        let ghost before = it.remaining();
        match it.next() {
            Some(c) => {
                r.push(c);
                assert(r@ + it.remaining() =~= s@) by {
                    assert(before =~= seq![c] + it.remaining());
                }
            },
            None => {
                assert(r@ + Seq::<char>::empty() =~= r@);
                return r;
            },
        }
    }
}

/// Relies on collecting characters into a `String`: the string holds them.
#[verifier::external_body]
pub fn string_of(v: &Vec<char>) -> (r: String)
    ensures
        r@ == v@,
{
    v.iter().collect()
}

/// The character sequences held in `v`.
pub open spec fn views(v: Seq<Vec<char>>) -> Seq<Seq<char>> {
    v.map_values(|x: Vec<char>| x@)
}

/// Index of the first character at or after `i` that is not whitespace.
pub open spec fn lead(s: Seq<char>, i: int) -> int
    decreases s.len() - i,
{
    if 0 <= i < s.len() && whitespace(s[i]) {
        lead(s, i + 1)
    } else {
        i
    }
}

/// End of `s[lo..j]` once trailing whitespace is dropped.
pub open spec fn trail(s: Seq<char>, lo: int, j: int) -> int
    decreases j - lo,
{
    if lo < j && j <= s.len() && whitespace(s[j - 1]) {
        trail(s, lo, j - 1)
    } else {
        j
    }
}

/// `s` without leading and trailing whitespace.
pub open spec fn trim(s: Seq<char>) -> Seq<char> {
    let a = lead(s, 0);
    s.subrange(a, trail(s, a, s.len() as int))
}

/// The characters of `s` without leading and trailing whitespace.
pub fn trim_chars(s: &[char]) -> (r: Vec<char>)
    ensures
        r@ == trim(s@),
{
    let mut a: usize = 0;
    while a < s.len() && is_whitespace(s[a])
        invariant
            a <= s.len(),
            lead(s@, a as int) == lead(s@, 0),
        decreases s.len() - a,
    {
        a = a + 1;
    }
    let mut b: usize = s.len();
    while b > a && is_whitespace(s[b - 1])
        invariant
            a <= b <= s.len(),
            trail(s@, a as int, b as int) == trail(s@, a as int, s@.len() as int),
        decreases b - a,
    {
        b = b - 1;
    }
    let mut r: Vec<char> = Vec::new();
    let mut k: usize = a;
    while k < b
        invariant
            a <= k <= b <= s.len(),
            r@ == s@.subrange(a as int, k as int),
        decreases b - k,
    {
        r.push(s[k]);
        k = k + 1;
        assert(r@ =~= s@.subrange(a as int, k as int));
    }
    r
}

/// Whether `s` begins with `p`.
pub open spec fn starts(s: Seq<char>, p: Seq<char>) -> bool {
    p.len() <= s.len() && s.subrange(0, p.len() as int) == p
}

/// Whether `s` begins with the characters of `p`.
pub fn starts_with(s: &[char], p: &str) -> (r: bool)
    ensures
        r == starts(s@, p@),
{
    let pc = chars_of(p);
    if pc.len() > s.len() {
        return false;
    }
    let mut i: usize = 0;
    while i < pc.len()
        invariant
            pc@ == p@,
            pc.len() <= s.len(),
            i <= pc.len(),
            forall|j: int| 0 <= j < i ==> s@[j] == pc@[j],
        decreases pc.len() - i,
    {
        if s[i] != pc[i] {
            assert(s@.subrange(0, pc@.len() as int)[i as int] != pc@[i as int]);
            return false;
        }
        i = i + 1;
    }
    assert(s@.subrange(0, pc@.len() as int) =~= pc@);
    true
}

/// Whether `s` is exactly the characters of `p`.
pub fn equals(s: &[char], p: &str) -> (r: bool)
    ensures
        r == (s@ == p@),
{
    let pc = chars_of(p);
    if pc.len() != s.len() {
        return false;
    }
    let mut i: usize = 0;
    while i < pc.len()
        invariant
            pc@ == p@,
            pc.len() == s.len(),
            i <= pc.len(),
            forall|j: int| 0 <= j < i ==> s@[j] == pc@[j],
        decreases pc.len() - i,
    {
        if s[i] != pc[i] {
            return false;
        }
        i = i + 1;
    }
    assert(s@ =~= pc@);
    true
}

/// The characters of `s` from `lo` up to `hi`.
pub fn slice(s: &[char], lo: usize, hi: usize) -> (r: Vec<char>)
    requires
        lo <= hi <= s.len(),
    ensures
        r@ == s@.subrange(lo as int, hi as int),
{
    let mut r: Vec<char> = Vec::new();
    let mut k: usize = lo;
    while k < hi
        invariant
            lo <= k <= hi <= s.len(),
            r@ == s@.subrange(lo as int, k as int),
        decreases hi - k,
    {
        r.push(s[k]);
        k = k + 1;
        assert(r@ =~= s@.subrange(lo as int, k as int));
    }
    r
}

/// Index of the first `c` in `s` at or after `i`, or -1.
pub open spec fn first_from(s: Seq<char>, c: char, i: int) -> int
    decreases s.len() - i,
{
    if i < 0 || i >= s.len() {
        -1
    } else if s[i] == c {
        i
    } else {
        first_from(s, c, i + 1)
    }
}

/// Index of the last `c` in `s` before `j`, or -1.
pub open spec fn last_before(s: Seq<char>, c: char, j: int) -> int
    decreases j,
{
    if j <= 0 || j > s.len() {
        -1
    } else if s[j - 1] == c {
        j - 1
    } else {
        last_before(s, c, j - 1)
    }
}

/// Index of the first `c` in `s` from `i` on.
pub fn find_from(s: &[char], c: char, i: usize) -> (r: Option<usize>)
    requires
        i <= s.len(),
    ensures
        r matches Some(k) ==> first_from(s@, c, i as int) == k && i <= k < s.len(),
        r is None ==> first_from(s@, c, i as int) == -1,
{
    let mut k: usize = i;
    while k < s.len()
        invariant
            i <= k <= s.len(),
            first_from(s@, c, k as int) == first_from(s@, c, i as int),
        decreases s.len() - k,
    {
        if s[k] == c {
            return Some(k);
        }
        k = k + 1;
    }
    None
}

/// Index of the last `c` in `s` before `j`.
pub fn find_last(s: &[char], c: char, j: usize) -> (r: Option<usize>)
    requires
        j <= s.len(),
    ensures
        r matches Some(k) ==> last_before(s@, c, j as int) == k && k < j,
        r is None ==> last_before(s@, c, j as int) == -1,
{
    let mut k: usize = j;
    while k > 0
        invariant
            k <= j <= s.len(),
            last_before(s@, c, k as int) == last_before(s@, c, j as int),
        decreases k,
    {
        if s[k - 1] == c {
            return Some(k - 1);
        }
        k = k - 1;
    }
    None
}

/// The pieces of `s[..n]` between the `c`s, scanning back from `j`.
pub open spec fn cut_rec(s: Seq<char>, c: char, j: int, n: int) -> Seq<Seq<char>>
    decreases j,
{
    if j <= 0 {
        seq![s.subrange(0, n)]
    } else if s[j - 1] == c {
        cut_rec(s, c, j - 1, j - 1).push(s.subrange(j, n))
    } else {
        cut_rec(s, c, j - 1, n)
    }
}

/// The pieces of `s` between the `c`s, in order (at least one).
pub open spec fn cut(s: Seq<char>, c: char) -> Seq<Seq<char>> {
    cut_rec(s, c, s.len() as int, s.len() as int)
}

fn cut_exec(s: &[char], c: char, j: usize, n: usize) -> (r: Vec<Vec<char>>)
    requires
        j <= n <= s.len(),
    ensures
        views(r@) == cut_rec(s@, c, j as int, n as int),
    decreases j,
{
    if j == 0 {
        let mut r: Vec<Vec<char>> = Vec::new();
        r.push(slice(s, 0, n));
        assert(views(r@) =~= seq![s@.subrange(0, n as int)]);
        r
    } else if s[j - 1] == c {
        let mut r = cut_exec(s, c, j - 1, j - 1);
        let ghost r0 = views(r@);
        r.push(slice(s, j, n));
        assert(views(r@) =~= r0.push(s@.subrange(j as int, n as int)));
        r
    } else {
        cut_exec(s, c, j - 1, n)
    }
}

/// The pieces of `s` between the `c`s, in order.
pub fn split_on(s: &[char], c: char) -> (r: Vec<Vec<char>>)
    ensures
        views(r@) == cut(s@, c),
{
    cut_exec(s, c, s.len(), s.len())
}

/// `s` without its trailing `{` characters.
pub open spec fn strip_open(s: Seq<char>) -> Seq<char>
    decreases s.len(),
{
    if s.len() > 0 && s.last() == '{' {
        strip_open(s.drop_last())
    } else {
        s
    }
}

/// The characters of `s` without its trailing `{` characters.
pub fn strip_open_exec(s: &[char]) -> (r: Vec<char>)
    ensures
        r@ == strip_open(s@),
{
    let mut j: usize = s.len();
    assert(s@.subrange(0, s.len() as int) =~= s@);
    while j > 0 && s[j - 1] == '{'
        invariant
            j <= s.len(),
            strip_open(s@.subrange(0, j as int)) == strip_open(s@),
        decreases j,
    {
        assert(s@.subrange(0, j as int).drop_last() =~= s@.subrange(0, j - 1));
        j = j - 1;
    }
    assert(s@.subrange(0, s.len() as int) =~= s@);
    slice(s, 0, j)
}

/// Whether `c` is alphabetic in Unicode's sense.
pub uninterp spec fn alphabetic(c: char) -> bool;

/// Whether `c` is alphabetic or numeric in Unicode's sense.
pub uninterp spec fn alphanumeric(c: char) -> bool;

/// Relies on `char::is_alphabetic`: the answer depends on the character
/// alone; ASCII letters are alphabetic, other printable ASCII characters
/// are not.
#[verifier::external_body]
pub fn is_alphabetic(c: char) -> (r: bool)
    ensures
        r == alphabetic(c),
        ('a' <= c <= 'z') || ('A' <= c <= 'Z') ==> r,
        '!' <= c <= '~' && !(('a' <= c <= 'z') || ('A' <= c <= 'Z')) ==> !r,
{
    c.is_alphabetic()
}

/// Relies on `char::is_alphanumeric`: the answer depends on the character
/// alone; ASCII letters and digits are alphanumeric, other printable ASCII
/// characters are not.
#[verifier::external_body]
pub fn is_alphanumeric(c: char) -> (r: bool)
    ensures
        r == alphanumeric(c),
        ('a' <= c <= 'z') || ('A' <= c <= 'Z') || ('0' <= c <= '9') ==> r,
        '!' <= c <= '~' && !(('a' <= c <= 'z') || ('A' <= c <= 'Z') || ('0' <= c <= '9')) ==> !r,
{
    c.is_alphanumeric()
}

/// The `k`-th line among the pieces `p` of a text cut at `\n`: a piece
/// that a `\n` ended loses one `\r` at its end.
pub open spec fn line_piece(p: Seq<Seq<char>>, k: int) -> Seq<char> {
    if k < p.len() - 1 && p[k].len() > 0 && p[k].last() == '\r' {
        p[k].drop_last()
    } else {
        p[k]
    }
}

/// How many lines the pieces `p` give: an empty last piece (the text
/// ended with `\n`, or is empty) is no line.
pub open spec fn line_count(p: Seq<Seq<char>>) -> int {
    if p.len() > 0 && p.last().len() == 0 {
        p.len() - 1
    } else {
        p.len() as int
    }
}

/// The lines of a text: cut at each `\n`, each ended by an optional `\r`
/// before it, with no line after a final `\n`.
pub open spec fn lines_of(s: Seq<char>) -> Seq<Seq<char>> {
    let p = cut(s, '\n');
    Seq::new(line_count(p) as nat, |k: int| line_piece(p, k))
}

/// The lines of `s`, as `lines_of` says.
pub fn split_lines(s: &str) -> (r: Vec<Vec<char>>)
    ensures
        views(r@) == lines_of(s@),
{
    let c = chars_of(s);
    let pieces = split_on(&c, '\n');
    let ghost p = views(pieces@);
    let n: usize = if pieces.len() > 0 && pieces[pieces.len() - 1].len() == 0 {
        pieces.len() - 1
    } else {
        pieces.len()
    };
    assert(n as int == line_count(p));
    let mut r: Vec<Vec<char>> = Vec::new();
    let mut k: usize = 0;
    while k < n
        invariant
            p == views(pieces@),
            p == cut(c@, '\n'),
            n <= pieces.len(),
            k <= n,
            r.len() == k,
            forall|j: int| 0 <= j < k ==> #[trigger] r@[j]@ == line_piece(p, j),
        decreases n - k,
    {
        let q = &pieces[k];
        assert(p[k as int] == q@);
        if k + 1 < pieces.len() && q.len() > 0 && q[q.len() - 1] == '\r' {
            r.push(slice(q, 0, q.len() - 1));
            assert(q@.subrange(0, q.len() - 1) =~= q@.drop_last());
        } else {
            r.push(slice(q, 0, q.len()));
            assert(q@.subrange(0, q.len() as int) =~= q@);
        }
        k = k + 1;
    }
    assert(views(r@) =~= lines_of(s@));
    r
}

} // verus!
