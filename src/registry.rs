use vstd::prelude::*;

use crate::vars::eq_chars;
use crate::text::{
    alphabetic, alphanumeric, chars_of, cut, is_alphabetic, is_alphanumeric, equals, find_from, find_last, first_from, last_before, slice, split_on, starts,
    starts_with, string_of, strip_open, strip_open_exec, trim, trim_chars, views,
};

verus! {

/// The line `l` reads `{` once trimmed.
pub open spec fn is_open(l: Seq<char>) -> bool {
    trim(l) == seq!['{']
}

/// The line `l` reads `}` once trimmed.
pub open spec fn is_close(l: Seq<char>) -> bool {
    trim(l) == seq!['}']
}

/// Scanning from line `j` at brace depth `depth`: the index of the line that
/// closes the block, or the number of lines where none does.  Only lines
/// that are a bare `{` or `}` count.
pub open spec fn block_end(lines: Seq<Seq<char>>, j: int, depth: int) -> int
    decreases lines.len() - j,
{
    if j < 0 || j >= lines.len() {
        lines.len() as int
    } else if is_open(lines[j]) {
        block_end(lines, j + 1, depth + 1)
    } else if is_close(lines[j]) {
        if depth <= 1 {
            j
        } else {
            block_end(lines, j + 1, depth - 1)
        }
    } else {
        block_end(lines, j + 1, depth)
    }
}

/// Whether the line `l`, trimmed, is exactly `{`.
pub fn line_is_open(l: &[char]) -> (r: bool)
    ensures
        r == is_open(l@),
{
    let t = trim_chars(l);
    proof {
        reveal_strlit("{");
        assert("{"@ =~= seq!['{']);
    }
    equals(&t, "{")
}

/// Whether the line `l`, trimmed, is exactly `}`.
pub fn line_is_close(l: &[char]) -> (r: bool)
    ensures
        r == is_close(l@),
{
    let t = trim_chars(l);
    proof {
        reveal_strlit("}");
        assert("}"@ =~= seq!['}']);
    }
    equals(&t, "}")
}

/// The index of the line that closes a block whose body begins at line
/// `from` (the lines' count where none does).
pub fn find_block_end(lines: &Vec<Vec<char>>, from: usize) -> (r: usize)
    requires
        from <= lines.len() < usize::MAX,
    ensures
        r as int == block_end(views(lines@), from as int, 1),
        from <= r <= lines.len(),
{
    let ghost ls = views(lines@);
    let mut j: usize = from;
    let mut depth: usize = 1;
    while j < lines.len()
        invariant
            ls == views(lines@),
            lines.len() < usize::MAX,
            from <= j <= lines.len(),
            1 <= depth <= j - from + 1,
            block_end(ls, j as int, depth as int) == block_end(ls, from as int, 1),
        decreases lines.len() - j,
    {
        assert(ls[j as int] == lines@[j as int]@);
        if line_is_open(&lines[j]) {
            depth = depth + 1;
        } else if line_is_close(&lines[j]) {
            if depth <= 1 {
                return j;
            }
            depth = depth - 1;
        }
        j = j + 1;
    }
    j
}

/// The brace depth after the first `n` lines of `body`.
pub open spec fn depth_after(body: Seq<Seq<char>>, n: int) -> int
    decreases n,
{
    if n <= 0 || n > body.len() {
        0
    } else if is_open(body[n - 1]) {
        depth_after(body, n - 1) + 1
    } else if is_close(body[n - 1]) {
        depth_after(body, n - 1) - 1
    } else {
        depth_after(body, n - 1)
    }
}

/// Every `{` line of `body` is closed by a later `}` line, and no `}`
/// line closes more than was opened.
pub open spec fn balanced(body: Seq<Seq<char>>) -> bool {
    &&& forall|n: int| 0 <= n <= body.len() ==> depth_after(body, n) >= 0
    &&& depth_after(body, body.len() as int) == 0
}

proof fn lemma_block_end_rec(lines: Seq<Seq<char>>, base: int, body: Seq<Seq<char>>, n: int)
    requires
        0 <= base,
        0 <= n <= body.len(),
        base + body.len() < lines.len(),
        lines.subrange(base, base + body.len()) == body,
        is_close(lines[base + body.len()]),
        balanced(body),
    ensures
        block_end(lines, base + n, 1 + depth_after(body, n)) == base + body.len(),
    decreases body.len() - n,
{
    assert(seq!['{'] != seq!['}']) by {
        assert(seq!['{'][0] != seq!['}'][0]);
    }
    if n < body.len() {
        assert(lines[base + n] == body[n]);
        assert(depth_after(body, n + 1) >= 0);
        lemma_block_end_rec(lines, base, body, n + 1);
    }
}

/// A block opened by a `{` line, whose inner lines are balanced and closed
/// by a `}` line, ends exactly at that `}` line: execution resumes on the
/// line after it.
pub proof fn lemma_block_skip(lines: Seq<Seq<char>>, open: int, body: Seq<Seq<char>>)
    requires
        0 <= open,
        open + body.len() + 1 < lines.len(),
        is_open(lines[open]),
        lines.subrange(open + 1, open + 1 + body.len()) == body,
        is_close(lines[open + 1 + body.len()]),
        balanced(body),
    ensures
        block_end(lines, open + 1, 1) == open + 1 + body.len(),
{
    lemma_block_end_rec(lines, open + 1, body, 0);
}

/// A function declared in a template: its parameters and the half-open
/// range of lines that form its body.
pub struct FunctionDefinition {
    pub start_line: usize,
    pub end_line: usize,
    pub params: Vec<String>,
}

impl FunctionDefinition {
    /// The parameter names.
    pub open spec fn param_names(&self) -> Seq<Seq<char>> {
        self.params@.map_values(|p: String| p@)
    }
}

/// What a declaration line reads after `function:`, trimmed.
pub open spec fn decl_text(line: Seq<char>) -> Seq<char> {
    let t = trim(line);
    trim(t.subrange(9, t.len() as int))
}

/// The declaration with its trailing `{` characters dropped, trimmed.
pub open spec fn signature(line: Seq<char>) -> Seq<char> {
    trim(strip_open(decl_text(line)))
}

/// The function name that a signature declares.
pub open spec fn sig_name(d: Seq<char>) -> Seq<char> {
    let p = first_from(d, '(', 0);
    if p >= 0 {
        trim(d.subrange(0, p))
    } else {
        d
    }
}

/// The trimmed, non-empty pieces among `parts`.
pub open spec fn kept(parts: Seq<Seq<char>>) -> Seq<Seq<char>>
    decreases parts.len(),
{
    if parts.len() == 0 {
        Seq::empty()
    } else {
        let r = kept(parts.drop_last());
        if trim(parts.last()).len() > 0 {
            r.push(trim(parts.last()))
        } else {
            r
        }
    }
}

/// The parameter names that a signature declares: the comma-separated,
/// trimmed, non-empty names between the first `(` and the last `)`.
pub open spec fn sig_params(d: Seq<char>) -> Seq<Seq<char>> {
    let p = first_from(d, '(', 0);
    if p >= 0 {
        let e = last_before(d, ')', d.len() as int);
        let e2 = if e > p { e } else { d.len() as int };
        kept(cut(trim(d.subrange(p + 1, e2)), ','))
    } else {
        Seq::empty()
    }
}

/// The line that opens the body of the function declared on line `start`:
/// the declaration line itself when it ends with `{`, else the first later
/// line that reads `{`, passing blank lines and `#` or `//` comments; -1 where
/// another line comes first, -2 where none comes.
pub open spec fn brace_from(lines: Seq<Seq<char>>, j: int) -> int
    decreases lines.len() - j,
{
    if j < 0 || j >= lines.len() {
        -2
    } else if is_open(lines[j]) {
        j
    } else if trim(lines[j]).len() > 0 && !starts(trim(lines[j]), seq!['/', '/'])
        && !starts(trim(lines[j]), seq!['#']) {
        -1
    } else {
        brace_from(lines, j + 1)
    }
}

/// The line that opens the body of the function declared on line `start`,
/// or -1 / -2 as `brace_from` says.
pub open spec fn brace_line(lines: Seq<Seq<char>>, start: int) -> int {
    let decl = decl_text(lines[start]);
    if decl.len() > 0 && decl.last() == '{' {
        start
    } else {
        brace_from(lines, start + 1)
    }
}

/// Whether line `l` declares a function.
pub open spec fn is_decl(l: Seq<char>) -> bool {
    starts(trim(l), seq!['f', 'u', 'n', 'c', 't', 'i', 'o', 'n', ':'])
}

/// The body range `(start, end)` of the function declared on line `start`
/// and the line at which the declaration ends.
pub open spec fn decl_extent(lines: Seq<Seq<char>>, start: int) -> (int, int, int) {
    let b = brace_line(lines, start);
    if b < 0 {
        (start + 1, start + 1, start)
    } else {
        let e = block_end(lines, b + 1, 1);
        (b + 1, e, e)
    }
}

/// Why a declaration is faulty.
#[derive(Debug, PartialEq, Eq)]
pub enum DeclError {
    /// A line other than `{` follows the declaration.
    ExpectedBrace,
    /// No `{` follows the declaration.
    MissingOpen,
    /// The body is not closed before the last line.
    MissingClose,
}

/// The fault of the declaration on line `start`, if any.
pub open spec fn decl_error(lines: Seq<Seq<char>>, start: int) -> Option<DeclError> {
    let b = brace_line(lines, start);
    if b == -1 {
        Some(DeclError::ExpectedBrace)
    } else if b < 0 {
        Some(DeclError::MissingOpen)
    } else if block_end(lines, b + 1, 1) >= lines.len() {
        Some(DeclError::MissingClose)
    } else {
        None
    }
}

fn kept_exec(parts: &Vec<Vec<char>>) -> (r: Vec<String>)
    ensures
        r@.map_values(|p: String| p@) == kept(views(parts@)),
{
    let ghost ps = views(parts@);
    let mut r: Vec<String> = Vec::new();
    let mut i: usize = 0;
    while i < parts.len()
        invariant
            ps == views(parts@),
            i <= parts.len(),
            r@.map_values(|p: String| p@) == kept(ps.subrange(0, i as int)),
        decreases parts.len() - i,
    {
        let t = trim_chars(&parts[i]);
        let ghost before = r@;
        assert(ps.subrange(0, i + 1).drop_last() =~= ps.subrange(0, i as int));
        assert(ps.subrange(0, i + 1).last() == parts@[i as int]@);
        if t.len() > 0 {
            r.push(string_of(&t));
            assert(r@.map_values(|p: String| p@) =~= before.map_values(|p: String| p@).push(t@));
        }
        i = i + 1;
    }
    assert(ps.subrange(0, parts.len() as int) =~= ps);
    r
}

fn brace_from_exec(lines: &Vec<Vec<char>>, from: usize) -> (r: Result<usize, bool>)
    requires
        from <= lines.len(),
    ensures
        r matches Ok(b) ==> b as int == brace_from(views(lines@), from as int) && from <= b < lines.len(),
        r matches Err(other) ==> brace_from(views(lines@), from as int) == if other { -1int } else { -2int },
{
    let ghost ls = views(lines@);
    let mut j: usize = from;
    while j < lines.len()
        invariant
            ls == views(lines@),
            from <= j <= lines.len(),
            brace_from(ls, j as int) == brace_from(ls, from as int),
        decreases lines.len() - j,
    {
        assert(ls[j as int] == lines@[j as int]@);
        if line_is_open(&lines[j]) {
            return Ok(j);
        }
        let t = trim_chars(&lines[j]);
        proof {
            reveal_strlit("//");
            assert("//"@ =~= seq!['/', '/']);
            reveal_strlit("#");
            assert("#"@ =~= seq!['#']);
        }
        if t.len() > 0 && !starts_with(&t, "//") && !starts_with(&t, "#") {
            return Err(true);
        }
        j = j + 1;
    }
    Err(false)
}

/// Reads the declaration of a function on line `start`: its name, its
/// definition, the line at which the declaration ends, and its fault if
/// it has one.
pub fn parse_function_definition(lines: &Vec<Vec<char>>, start: usize) -> (r: (
    String,
    FunctionDefinition,
    usize,
    Option<DeclError>,
))
    requires
        start < lines.len() < usize::MAX,
        is_decl(lines@[start as int]@),
    ensures
        r.0@ == sig_name(signature(lines@[start as int]@)),
        r.1.param_names() == sig_params(signature(lines@[start as int]@)),
        r.1.start_line == decl_extent(views(lines@), start as int).0,
        r.1.end_line == decl_extent(views(lines@), start as int).1,
        r.2 == decl_extent(views(lines@), start as int).2,
        r.3 == decl_error(views(lines@), start as int),
        r.1.start_line <= r.1.end_line <= lines.len(),
        start <= r.2 <= lines.len(),
{
    let ghost ls = views(lines@);
    assert(ls[start as int] == lines@[start as int]@);
    let t = trim_chars(&lines[start]);
    let decl = trim_chars(&slice(&t, 9, t.len()));
    let has_brace = decl.len() > 0 && decl[decl.len() - 1] == '{';
    let d = trim_chars(&strip_open_exec(&decl));
    let (name, params) = match find_from(&d, '(', 0) {
        Some(p) => {
            let name = string_of(&trim_chars(&slice(&d, 0, p)));
            let e2 = match find_last(&d, ')', d.len()) {
                Some(e) => if e > p { e } else { d.len() },
                None => d.len(),
            };
            let inner = trim_chars(&slice(&d, p + 1, e2));
            let pieces = split_on(&inner, ',');
            (name, kept_exec(&pieces))
        },
        None => {
            let params: Vec<String> = Vec::new();
            assert(params@.map_values(|p: String| p@) =~= Seq::<Seq<char>>::empty());
            (string_of(&d), params)
        },
    };
    let brace = if has_brace {
        Ok(start)
    } else {
        brace_from_exec(lines, start + 1)
    };
    match brace {
        Ok(b) => {
            let e = find_block_end(lines, b + 1);
            let err = if e >= lines.len() { Some(DeclError::MissingClose) } else { None };
            (name, FunctionDefinition { start_line: b + 1, end_line: e, params }, e, err)
        },
        Err(other) => {
            let err = if other { DeclError::ExpectedBrace } else { DeclError::MissingOpen };
            (name, FunctionDefinition { start_line: start + 1, end_line: start + 1, params }, start, Some(err))
        },
    }
}

/// The declarations met when scanning from line `i`: name, body start,
/// body end, parameters and fault of each, in order.  A declaration's body
/// is not scanned for further declarations.
pub open spec fn decls(lines: Seq<Seq<char>>, i: int) -> Seq<(Seq<char>, int, int, Seq<Seq<char>>, Option<DeclError>)>
    decreases if i < lines.len() { lines.len() - i } else { 0 },
{
    if i < 0 || i >= lines.len() {
        Seq::empty()
    } else if is_decl(lines[i]) {
        let x = decl_extent(lines, i);
        let sig = signature(lines[i]);
        let e = seq![(sig_name(sig), x.0, x.1, sig_params(sig), decl_error(lines, i))];
        if x.2 + 1 > i {
            e + decls(lines, x.2 + 1)
        } else {
            e
        }
    } else {
        decls(lines, i + 1)
    }
}

/// Index of the last of the first `j` names that equals `name`, or -1.
pub open spec fn last_named(names: Seq<Seq<char>>, name: Seq<char>, j: int) -> int
    decreases j,
{
    if j <= 0 || j > names.len() {
        -1
    } else if names[j - 1] == name {
        j - 1
    } else {
        last_named(names, name, j - 1)
    }
}

/// The faulty declarations among the first `n`: name and fault of each.
pub open spec fn faults_of(es: Seq<(Seq<char>, int, int, Seq<Seq<char>>, Option<DeclError>)>, n: int) -> Seq<(Seq<char>, DeclError)>
    decreases n,
{
    if n <= 0 || n > es.len() {
        Seq::empty()
    } else {
        match es[n - 1].4 {
            Some(e) => faults_of(es, n - 1).push((es[n - 1].0, e)),
            None => faults_of(es, n - 1),
        }
    }
}

/// The names and faults held in `r`.
pub open spec fn fault_views(r: Seq<(String, DeclError)>) -> Seq<(Seq<char>, DeclError)> {
    r.map_values(|p: (String, DeclError)| (p.0@, p.1))
}

/// The functions declared in a template, in order of declaration; a name
/// declared again stands for its last declaration.
pub struct Registry {
    names: Vec<Vec<char>>,
    defs: Vec<FunctionDefinition>,
    faults: Vec<Option<DeclError>>,
}

impl Registry {
    pub closed spec fn wf(&self) -> bool {
        &&& self.names.len() == self.defs.len()
        &&& self.names.len() == self.faults.len()
    }

    /// The declared names, in order.
    pub closed spec fn names(&self) -> Seq<Seq<char>> {
        views(self.names@)
    }

    /// The `k`-th declaration: name, body start, body end, parameters, fault.
    pub closed spec fn entry(&self, k: int) -> (Seq<char>, int, int, Seq<Seq<char>>, Option<DeclError>) {
        (
            self.names@[k]@,
            self.defs@[k].start_line as int,
            self.defs@[k].end_line as int,
            self.defs@[k].param_names(),
            self.faults@[k],
        )
    }

    pub closed spec fn len(&self) -> nat {
        self.names@.len()
    }

    /// The declarations, in order.
    pub open spec fn entries(&self) -> Seq<(Seq<char>, int, int, Seq<Seq<char>>, Option<DeclError>)> {
        Seq::new(self.len(), |k: int| self.entry(k))
    }

    /// The index of the declaration that `name` stands for, or -1.
    pub open spec fn index_of(&self, name: Seq<char>) -> int {
        last_named(self.entries().map_values(|e: (Seq<char>, int, int, Seq<Seq<char>>, Option<DeclError>)| e.0), name, self.len() as int)
    }

    /// Scans `lines` for function declarations, as the first pass over a
    /// template does.
    pub fn build(lines: &Vec<Vec<char>>) -> (r: Registry)
        requires
            lines.len() < usize::MAX,
        ensures
            r.wf(),
            r.entries() == decls(views(lines@), 0),
            forall|k: int| 0 <= k < r.len() ==> #[trigger] r.entries()[k].1 <= r.entries()[k].2 <= lines.len(),
    {
        let ghost ls = views(lines@);
        let mut r = Registry { names: Vec::new(), defs: Vec::new(), faults: Vec::new() };
        let mut i: usize = 0;
        proof {
            assert(r.entries() =~= Seq::<(Seq<char>, int, int, Seq<Seq<char>>, Option<DeclError>)>::empty());
        }
        while i < lines.len()
            invariant
                ls == views(lines@),
                lines.len() < usize::MAX,
                i <= lines.len() + 1,
                r.wf(),
                r.entries() + decls(ls, i as int) == decls(ls, 0),
                forall|k: int| 0 <= k < r.len() ==> #[trigger] r.entries()[k].1 <= r.entries()[k].2 <= lines.len(),
            decreases lines.len() + 1 - i,
        {
            assert(ls[i as int] == lines@[i as int]@);
            let t = trim_chars(&lines[i]);
            proof {
                reveal_strlit("function:");
                assert("function:"@ =~= seq!['f', 'u', 'n', 'c', 't', 'i', 'o', 'n', ':']);
            }
            if starts_with(&t, "function:") {
                let (name, def, end, fault) = parse_function_definition(lines, i);
                let ghost before = r.entries();
                let ghost e = (name@, def.start_line as int, def.end_line as int, def.param_names(), fault);
                r.names.push(chars_of(name.as_str()));
                r.defs.push(def);
                r.faults.push(fault);
                assert(r.entries() =~= before.push(e));
                assert(before.push(e) + decls(ls, end + 1) =~= before + (seq![e] + decls(ls, end + 1)));
                i = end + 1;
            } else {
                i = i + 1;
            }
        }
        assert(r.entries() + decls(ls, i as int) =~= r.entries());
        r
    }

    /// The definition that `name` stands for, if any.
    pub fn get(&self, name: &[char]) -> (r: Option<&FunctionDefinition>)
        requires
            self.wf(),
        ensures
            r is None ==> self.index_of(name@) == -1,
            r matches Some(d) ==> 0 <= self.index_of(name@) < self.len() && ({
                let e = self.entries()[self.index_of(name@)];
                &&& d.start_line == e.1
                &&& d.end_line == e.2
                &&& d.param_names() == e.3
            }),
    {
        let ghost ns = self.entries().map_values(|e: (Seq<char>, int, int, Seq<Seq<char>>, Option<DeclError>)| e.0);
        let mut j: usize = self.names.len();
        while j > 0
            invariant
                self.wf(),
                j <= self.names.len(),
                ns == self.entries().map_values(|e: (Seq<char>, int, int, Seq<Seq<char>>, Option<DeclError>)| e.0),
                last_named(ns, name@, j as int) == last_named(ns, name@, self.len() as int),
            decreases j,
        {
            assert(ns[j - 1] == self.names@[j - 1]@);
            if eq_chars(&self.names[j - 1], name) {
                return Some(&self.defs[j - 1]);
            }
            j = j - 1;
        }
        None
    }

    /// Each declaration with a fault: its name and the fault, in order.
    pub fn faults(&self) -> (r: Vec<(String, DeclError)>)
        requires
            self.wf(),
        ensures
            fault_views(r@) == faults_of(self.entries(), self.len() as int),
    {
        let mut r: Vec<(String, DeclError)> = Vec::new();
        let mut q: usize = 0;
        while q < self.names.len()
            invariant
                self.wf(),
                q <= self.names.len(),
                fault_views(r@) == faults_of(self.entries(), q as int),
            decreases self.names.len() - q,
        {
            let ghost r0 = r@;
            assert(self.entries()[q as int].4 == self.faults@[q as int]);
            assert(self.entries()[q as int].0 == self.names@[q as int]@);
            match &self.faults[q] {
                Some(e) => {
                    let e2 = match e {
                        DeclError::ExpectedBrace => DeclError::ExpectedBrace,
                        DeclError::MissingOpen => DeclError::MissingOpen,
                        DeclError::MissingClose => DeclError::MissingClose,
                    };
                    r.push((string_of(&self.names[q]), e2));
                    assert(fault_views(r@) =~= fault_views(r0).push((self.names@[q as int]@, e2)));
                },
                None => {},
            }
            q = q + 1;
        }
        r
    }

    /// Whether a function named `name` is declared.
    pub fn contains(&self, name: &[char]) -> (r: bool)
        requires
            self.wf(),
        ensures
            r == (self.index_of(name@) >= 0),
    {
        self.get(name).is_some()
    }
}

/// `n` is a name as the call syntax allows: a letter or `_` first, then
/// letters, digits and `_`.
pub open spec fn is_ident(n: Seq<char>) -> bool {
    &&& n.len() > 0
    &&& (alphabetic(n[0]) || n[0] == '_')
    &&& forall|k: int| 0 <= k < n.len() ==> alphanumeric(#[trigger] n[k]) || n[k] == '_'
}

/// The text before the first `(` of a call line.
pub open spec fn call_name(l: Seq<char>) -> Seq<char> {
    l.subrange(0, first_from(l, '(', 0))
}

/// Whether `l` reads as a call of a declared function: `name(...)`.
pub open spec fn is_call(l: Seq<char>, functions: &Registry) -> bool {
    &&& first_from(l, '(', 0) >= 0
    &&& l.len() > 0 && l.last() == ')'
    &&& is_ident(call_name(l))
    &&& functions.index_of(call_name(l)) >= 0
}

fn is_ident_exec(n: &[char]) -> (r: bool)
    ensures
        r == is_ident(n@),
{
    if n.len() == 0 {
        return false;
    }
    if !(is_alphabetic(n[0]) || n[0] == '_') {
        return false;
    }
    let mut k: usize = 0;
    while k < n.len()
        invariant
            k <= n.len(),
            forall|q: int| 0 <= q < k ==> alphanumeric(#[trigger] n@[q]) || n@[q] == '_',
        decreases n.len() - k,
    {
        if !(is_alphanumeric(n[k]) || n[k] == '_') {
            return false;
        }
        k = k + 1;
    }
    true
}

/// Whether the characters `l` read as a call of a declared function.
pub fn is_call_exec(l: &[char], functions: &Registry) -> (r: bool)
    requires
        functions.wf(),
    ensures
        r == is_call(l@, functions),
{
    match find_from(l, '(', 0) {
        None => false,
        Some(p) => {
            if l.len() == 0 || l[l.len() - 1] != ')' {
                return false;
            }
            let n = slice(l, 0, p);
            is_ident_exec(&n) && functions.contains(&n)
        },
    }
}

/// Whether `line` reads as a call of a function declared in `functions`.
pub fn is_function_call(line: &str, functions: &Registry) -> (r: bool)
    requires
        functions.wf(),
    ensures
        r == is_call(line@, functions),
{
    let l = chars_of(line);
    is_call_exec(&l, functions)
}

} // verus!
