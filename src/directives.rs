use vstd::prelude::*;

use crate::registry::{balanced, block_end, is_close, is_open, lemma_block_skip, line_is_open};
use crate::subst::{subst, substitute};
use crate::text::{
    chars_of, equals, find_from, first_from, slice, starts, starts_with, string_of, trim, trim_chars,
    views, whitespace, is_whitespace,
};
use crate::vars::VarStore;

verus! {

/// `s` from `i` on.
pub open spec fn rest(s: Seq<char>, i: int) -> Seq<char> {
    if i <= s.len() {
        s.subrange(i, s.len() as int)
    } else {
        Seq::empty()
    }
}

fn rest_exec(s: &[char], i: usize) -> (r: Vec<char>)
    ensures
        r@ == rest(s@, i as int),
{
    if i <= s.len() {
        slice(s, i, s.len())
    } else {
        Vec::new()
    }
}

/// The name that a `var:` line binds.
pub open spec fn var_name(line: Seq<char>) -> Seq<char> {
    let nv = rest(line, 4);
    let eq = first_from(nv, '=', 0);
    if eq >= 0 {
        trim(nv.subrange(0, eq))
    } else {
        trim(nv)
    }
}

/// The text after the first `=` of a `var:` line, trimmed; `None` where
/// the line has no `=`.
pub open spec fn var_raw(line: Seq<char>) -> Option<Seq<char>> {
    let nv = rest(line, 4);
    let eq = first_from(nv, '=', 0);
    if eq >= 0 {
        Some(trim(rest(nv, eq + 1)))
    } else {
        None
    }
}

/// The text between `input(` and the last character of `raw`.
pub open spec fn input_args(raw: Seq<char>) -> Seq<char> {
    if raw.len() > 6 {
        raw.subrange(6, raw.len() - 1)
    } else {
        Seq::empty()
    }
}

/// The question of an `input(question, default)` value.
pub open spec fn question_of(raw: Seq<char>) -> Seq<char> {
    let a = input_args(raw);
    let c = first_from(a, ',', 0);
    if c >= 0 {
        trim(a.subrange(0, c))
    } else {
        trim(a)
    }
}

/// The default answer of an `input(question, default)` value.
pub open spec fn default_of(raw: Seq<char>) -> Seq<char> {
    let a = input_args(raw);
    let c = first_from(a, ',', 0);
    if c >= 0 {
        trim(rest(a, c + 1))
    } else {
        Seq::empty()
    }
}

/// Whether the value of a `var:` line asks the user.
pub open spec fn asks(line: Seq<char>) -> bool {
    var_raw(line) matches Some(raw) && starts(raw, seq!['i', 'n', 'p', 'u', 't', '('])
}

/// The value that a `var:` line binds, where it does not ask the user.
pub open spec fn var_value(line: Seq<char>, m: Map<Seq<char>, Seq<char>>) -> Seq<char> {
    match var_raw(line) {
        Some(raw) => subst(m, raw),
        None => Seq::empty(),
    }
}

/// A question to put to the user; the answer is bound to `name`.
#[derive(Debug, PartialEq, Eq)]
pub struct Prompt {
    pub name: String,
    pub question: String,
    pub default: String,
}

/// Carries out a `var: name = value` line: binds `name` to the value with
/// the variables substituted, or, for `input(question, default)`, binds
/// nothing and returns the question to put.
pub fn handle_var(line: &str, variables: &mut VarStore) -> (r: Option<Prompt>)
    requires
        old(variables).wf(),
    ensures
        final(variables).wf(),
        asks(line@) ==> final(variables)@ == old(variables)@ && (r matches Some(p) && p.name@ == var_name(line@)
            && p.question@ == question_of(var_raw(line@)->0) && p.default@ == default_of(var_raw(line@)->0)),
        !asks(line@) ==> r is None && final(variables)@ == old(variables)@.insert(var_name(line@), var_value(line@, old(variables)@)),
{
    let l = chars_of(line);
    var_line(&l, variables)
}

/// Carries out the `var:` line `l`, as `handle_var` does.
pub fn var_line(l: &[char], variables: &mut VarStore) -> (r: Option<Prompt>)
    requires
        old(variables).wf(),
    ensures
        final(variables).wf(),
        asks(l@) ==> final(variables)@ == old(variables)@ && (r matches Some(p) && p.name@ == var_name(l@)
            && p.question@ == question_of(var_raw(l@)->0) && p.default@ == default_of(var_raw(l@)->0)),
        !asks(l@) ==> r is None && final(variables)@ == old(variables)@.insert(var_name(l@), var_value(l@, old(variables)@)),
{
    let nv = rest_exec(l, 4);
    match find_from(&nv, '=', 0) {
        None => {
            let name = trim_chars(&nv);
            variables.set(name, Vec::new());
            None
        },
        Some(eq) => {
            let name = trim_chars(&slice(&nv, 0, eq));
            let raw = trim_chars(&rest_exec(&nv, eq + 1));
            proof {
                reveal_strlit("input(");
                assert("input("@ =~= seq!['i', 'n', 'p', 'u', 't', '(']);
            }
            if starts_with(&raw, "input(") {
                let a = if raw.len() > 6 { slice(&raw, 6, raw.len() - 1) } else { Vec::new() };
                let (q, d) = match find_from(&a, ',', 0) {
                    Some(c) => (trim_chars(&slice(&a, 0, c)), trim_chars(&rest_exec(&a, c + 1))),
                    None => (trim_chars(&a), Vec::new()),
                };
                Some(Prompt { name: string_of(&name), question: string_of(&q), default: string_of(&d) })
            } else {
                let v = substitute(&raw, variables);
                variables.set(name, v);
                None
            }
        },
    }
}

/// Index of the first `==` in `s`, or -1.
pub open spec fn first_eqeq(s: Seq<char>, i: int) -> int
    decreases s.len() - i,
{
    if i < 0 || i + 1 >= s.len() {
        -1
    } else if s[i] == '=' && s[i + 1] == '=' {
        i
    } else {
        first_eqeq(s, i + 1)
    }
}

/// The condition of an `if:` line with the variables substituted.
pub open spec fn condition(line: Seq<char>, m: Map<Seq<char>, Seq<char>>) -> Seq<char> {
    subst(m, trim(rest(trim(line), 3)))
}

/// Whether the condition holds: the two sides of its first `==`, trimmed,
/// are equal.
pub open spec fn holds(c: Seq<char>) -> bool {
    let k = first_eqeq(c, 0);
    trim(c.subrange(0, k)) == trim(rest(c, k + 2))
}

/// How many lines after the `if:` line at `cur` a false condition skips:
/// the guarded `{ ... }` block up to its closing line, or else the one
/// guarded line.
pub open spec fn false_skip(lines: Seq<Seq<char>>, cur: int) -> int {
    if cur + 1 < lines.len() {
        if is_open(lines[cur + 1]) {
            let e = block_end(lines, cur + 2, 1);
            if e < lines.len() {
                e - cur
            } else {
                1
            }
        } else {
            1
        }
    } else {
        0
    }
}

/// The number of lines after line `cur` that an `if:` line skips; `None`
/// where the condition has no `==`.
pub open spec fn if_skip(lines: Seq<Seq<char>>, cur: int, m: Map<Seq<char>, Seq<char>>) -> Option<int> {
    let c = condition(lines[cur], m);
    if first_eqeq(c, 0) < 0 {
        None
    } else if holds(c) {
        Some(0)
    } else {
        Some(false_skip(lines, cur))
    }
}

/// Evaluates the `if:` line at `current_index`: how many of the following
/// lines to skip, or `None` where the condition is malformed.
pub fn handle_if(lines: &Vec<Vec<char>>, current_index: usize, variables: &VarStore) -> (r: Option<usize>)
    requires
        variables.wf(),
        current_index < lines.len() < usize::MAX,
    ensures
        r matches Some(k) ==> if_skip(views(lines@), current_index as int, variables@) == Some(k as int),
        r is None ==> if_skip(views(lines@), current_index as int, variables@) is None,
        r matches Some(k) ==> current_index + k < lines.len(),
{
    let ghost ls = views(lines@);
    assert(ls[current_index as int] == lines@[current_index as int]@);
    let c = substitute(&trim_chars(&rest_exec(&trim_chars(&lines[current_index]), 3)), variables);
    let mut k: usize = 0;
    while k < c.len() && k + 1 < c.len() && !(c[k] == '=' && c[k + 1] == '=')
        invariant
            k <= c.len(),
            first_eqeq(c@, k as int) == first_eqeq(c@, 0),
        decreases c.len() - k,
    {
        k = k + 1;
    }
    if k >= c.len() || k + 1 >= c.len() {
        return None;
    }
    let left = trim_chars(&slice(&c, 0, k));
    let right = trim_chars(&rest_exec(&c, k + 2));
    if crate::vars::eq_chars(&left, &right) {
        return Some(0);
    }
    if current_index + 1 < lines.len() {
        assert(ls[current_index + 1] == lines@[current_index + 1]@);
        if line_is_open(&lines[current_index + 1]) {
            let e = crate::registry::find_block_end(lines, current_index + 2);
            if e < lines.len() {
                Some(e - current_index)
            } else {
                Some(1)
            }
        } else {
            Some(1)
        }
    } else {
        Some(0)
    }
}

/// Index of the first `a` directly followed by `b` in `s`, from `i` on, or -1.
pub open spec fn first_pair(s: Seq<char>, a: char, b: char, i: int) -> int
    decreases s.len() - i,
{
    if i < 0 || i + 1 >= s.len() {
        -1
    } else if s[i] == a && s[i + 1] == b {
        i
    } else {
        first_pair(s, a, b, i + 1)
    }
}

fn find_pair(s: &[char], a: char, b: char) -> (r: Option<usize>)
    ensures
        r matches Some(k) ==> first_pair(s@, a, b, 0) == k && k + 1 < s.len(),
        r is None ==> first_pair(s@, a, b, 0) == -1,
{
    let mut k: usize = 0;
    while k < s.len() && k + 1 < s.len()
        invariant
            k <= s.len(),
            first_pair(s@, a, b, k as int) == first_pair(s@, a, b, 0),
        decreases s.len() - k,
    {
        if s[k] == a && s[k + 1] == b {
            return Some(k);
        }
        k = k + 1;
    }
    None
}

/// `s` with every leading `write_file(` removed.
pub open spec fn strip_head(s: Seq<char>) -> Seq<char>
    decreases s.len(),
{
    if s.len() >= 11 && starts(s, seq!['w', 'r', 'i', 't', 'e', '_', 'f', 'i', 'l', 'e', '(']) {
        strip_head(s.subrange(11, s.len() as int))
    } else {
        s
    }
}

fn strip_head_exec(s: &[char]) -> (r: Vec<char>)
    ensures
        r@ == strip_head(s@),
{
    let mut cur = slice(s, 0, s.len());
    assert(s@.subrange(0, s.len() as int) =~= s@);
    proof {
        reveal_strlit("write_file(");
        assert("write_file("@ =~= seq!['w', 'r', 'i', 't', 'e', '_', 'f', 'i', 'l', 'e', '(']);
    }
    while cur.len() >= 11 && starts_with(&cur, "write_file(")
        invariant
            strip_head(cur@) == strip_head(s@),
            "write_file("@ == seq!['w', 'r', 'i', 't', 'e', '_', 'f', 'i', 'l', 'e', '('],
        decreases cur.len(),
    {
        cur = slice(&cur, 11, cur.len());
    }
    cur
}

/// `s` with each `\n`, `\t` and `\r` escape turned into its control
/// character.
pub open spec fn unescape(s: Seq<char>) -> Seq<char>
    decreases s.len(),
{
    if s.len() >= 2 && s[0] == '\\' && (s[1] == 'n' || s[1] == 't' || s[1] == 'r') {
        seq![if s[1] == 'n' { '\n' } else if s[1] == 't' { '\t' } else { '\r' }] + unescape(s.subrange(2, s.len() as int))
    } else if s.len() >= 1 {
        seq![s[0]] + unescape(s.subrange(1, s.len() as int))
    } else {
        Seq::empty()
    }
}

fn unescape_exec(s: &[char]) -> (r: Vec<char>)
    ensures
        r@ == unescape(s@),
{
    let mut r: Vec<char> = Vec::new();
    let mut i: usize = 0;
    assert(s@.subrange(0, s.len() as int) =~= s@);
    assert(r@ + unescape(s@) =~= unescape(s@));
    while i < s.len()
        invariant
            i <= s.len(),
            r@ + unescape(s@.subrange(i as int, s.len() as int)) == unescape(s@),
        decreases s.len() - i,
    {
        let ghost t = s@.subrange(i as int, s.len() as int);
        let ghost r0 = r@;
        if i + 1 < s.len() && s[i] == '\\' && (s[i + 1] == 'n' || s[i + 1] == 't' || s[i + 1] == 'r') {
            let c = if s[i + 1] == 'n' { '\n' } else if s[i + 1] == 't' { '\t' } else { '\r' };
            r.push(c);
            assert(t.subrange(2, t.len() as int) =~= s@.subrange(i + 2, s.len() as int));
            i = i + 2;
        } else {
            r.push(s[i]);
            assert(t.subrange(1, t.len() as int) =~= s@.subrange(i + 1, s.len() as int));
            i = i + 1;
        }
        assert(r0 + unescape(t) =~= r@ + unescape(s@.subrange(i as int, s.len() as int)));
    }
    assert(s@.subrange(i as int, s.len() as int) =~= Seq::<char>::empty());
    assert(r@ + Seq::<char>::empty() =~= r@);
    r
}

/// Whether `l`, trimmed, is the heredoc terminator `EOF>>`.
pub open spec fn is_eof(l: Seq<char>) -> bool {
    trim(l) == seq!['E', 'O', 'F', '>', '>']
}

/// The raw lines from `j` up to the terminator, each ended by a newline.
pub open spec fn heredoc(lines: Seq<Seq<char>>, j: int) -> Seq<char>
    decreases lines.len() - j,
{
    if j < 0 || j >= lines.len() || is_eof(lines[j]) {
        Seq::empty()
    } else {
        lines[j] + seq!['\n'] + heredoc(lines, j + 1)
    }
}

/// The index of the terminator line from `j` on, or the lines' count.
pub open spec fn heredoc_end(lines: Seq<Seq<char>>, j: int) -> int
    decreases lines.len() - j,
{
    if j < 0 || j >= lines.len() {
        lines.len() as int
    } else if is_eof(lines[j]) {
        j
    } else {
        heredoc_end(lines, j + 1)
    }
}

/// The path that a `write_file(path): content` line names.
pub open spec fn write_path(l: Seq<char>, m: Map<Seq<char>, Seq<char>>) -> Seq<char> {
    let k = first_pair(l, ')', ':', 0);
    subst(m, trim(strip_head(l.subrange(0, k))))
}

/// The inline content of a `write_file(path): content` line.
pub open spec fn inline_content(l: Seq<char>, m: Map<Seq<char>, Seq<char>>) -> Seq<char> {
    let k = first_pair(l, ')', ':', 0);
    unescape(subst(m, trim(rest(l, k + 2))))
}

/// What the `write_file` line at `cur` writes, and how many lines after it
/// belong to it; `None` where the line has no `):`.
pub open spec fn write_spec(lines: Seq<Seq<char>>, cur: int, m: Map<Seq<char>, Seq<char>>) -> Option<(Seq<char>, Seq<char>, int)> {
    let l = trim(lines[cur]);
    if first_pair(l, ')', ':', 0) < 0 {
        None
    } else if starts(inline_content(l, m), seq!['<', '<', 'E', 'O', 'F']) {
        Some((write_path(l, m), heredoc(lines, cur + 1), heredoc_end(lines, cur + 1) - cur))
    } else {
        Some((write_path(l, m), inline_content(l, m), 0))
    }
}

/// A file to write: its path, its content, and how many lines after the
/// directive belong to it.
pub struct FileWrite {
    pub path: String,
    pub content: String,
    pub skip: usize,
}

/// Reads the `write_file(path): content` line at `current_index`: the path
/// and content with the variables substituted and escapes turned into
/// control characters, or, for `<<EOF`, the raw lines up to `EOF>>`.
pub fn handle_write_file(lines: &Vec<Vec<char>>, current_index: usize, variables: &VarStore) -> (r: Option<FileWrite>)
    requires
        variables.wf(),
        current_index < lines.len(),
    ensures
        r is None ==> write_spec(views(lines@), current_index as int, variables@) is None,
        r matches Some(w) ==> write_spec(views(lines@), current_index as int, variables@) == Some((w.path@, w.content@, w.skip as int)),
        r matches Some(w) ==> current_index + w.skip <= lines.len(),
{
    let ghost ls = views(lines@);
    assert(ls[current_index as int] == lines@[current_index as int]@);
    let l = trim_chars(&lines[current_index]);
    let k = match find_pair(&l, ')', ':') {
        Some(k) => k,
        None => {
            return None;
        },
    };
    let path = substitute(&trim_chars(&strip_head_exec(&slice(&l, 0, k))), variables);
    let content = unescape_exec(&substitute(&trim_chars(&rest_exec(&l, k + 2)), variables));
    proof {
        reveal_strlit("<<EOF");
        assert("<<EOF"@ =~= seq!['<', '<', 'E', 'O', 'F']);
        reveal_strlit("EOF>>");
        assert("EOF>>"@ =~= seq!['E', 'O', 'F', '>', '>']);
    }
    if starts_with(&content, "<<EOF") {
        assert(write_spec(ls, current_index as int, variables@) == Some((path@, heredoc(ls, current_index + 1), heredoc_end(ls, current_index + 1) - current_index)));
        let mut collected: Vec<char> = Vec::new();
        let mut j: usize = current_index + 1;
        while j < lines.len()
            invariant
                ls == views(lines@),
                current_index < j <= lines.len(),
                collected@ + heredoc(ls, j as int) == heredoc(ls, current_index + 1),
                heredoc_end(ls, j as int) == heredoc_end(ls, current_index + 1),
                write_spec(ls, current_index as int, variables@) == Some((path@, heredoc(ls, current_index + 1), heredoc_end(ls, current_index + 1) - current_index)),
                "EOF>>"@ == seq!['E', 'O', 'F', '>', '>'],
            decreases lines.len() - j,
        {
            assert(ls[j as int] == lines@[j as int]@);
            let tj = trim_chars(&lines[j]);
            if equals(&tj, "EOF>>") {
                assert(is_eof(ls[j as int]));
                assert(heredoc_end(ls, j as int) == j);
                assert(collected@ + heredoc(ls, j as int) =~= collected@);
                return Some(FileWrite { path: string_of(&path), content: string_of(&collected), skip: j - current_index });
            }
            let ghost c0 = collected@;
            let mut q: usize = 0;
            while q < lines[j].len()
                invariant
                    ls == views(lines@),
                    j < lines.len(),
                    q <= lines@[j as int].len(),
                    collected@ == c0 + lines@[j as int]@.subrange(0, q as int),
                decreases lines@[j as int].len() - q,
            {
                collected.push(lines[j][q]);
                q = q + 1;
                assert(collected@ =~= c0 + lines@[j as int]@.subrange(0, q as int));
            }
            collected.push('\n');
            assert(lines@[j as int]@.subrange(0, q as int) =~= ls[j as int]);
            assert(c0 + heredoc(ls, j as int) =~= collected@ + heredoc(ls, j + 1));
            j = j + 1;
        }
        assert(collected@ + heredoc(ls, j as int) =~= collected@);
        Some(FileWrite { path: string_of(&path), content: string_of(&collected), skip: j - current_index })
    } else {
        Some(FileWrite { path: string_of(&path), content: string_of(&content), skip: 0 })
    }
}

/// The non-empty pieces of `s[..n]` between whitespace, scanning back from `j`.
pub open spec fn words_rec(s: Seq<char>, j: int, n: int) -> Seq<Seq<char>>
    decreases j,
{
    if j <= 0 {
        if n > 0 {
            seq![s.subrange(0, n)]
        } else {
            Seq::empty()
        }
    } else if whitespace(s[j - 1]) {
        let r = words_rec(s, j - 1, j - 1);
        if n > j {
            r.push(s.subrange(j, n))
        } else {
            r
        }
    } else {
        words_rec(s, j - 1, n)
    }
}

/// The words of `s`: its non-empty runs of non-whitespace, in order.
pub open spec fn words(s: Seq<char>) -> Seq<Seq<char>> {
    words_rec(s, s.len() as int, s.len() as int)
}

fn words_exec(s: &[char], j: usize, n: usize) -> (r: Vec<String>)
    requires
        j <= n <= s.len(),
    ensures
        r@.map_values(|w: String| w@) == words_rec(s@, j as int, n as int),
    decreases j,
{
    if j == 0 {
        let mut r: Vec<String> = Vec::new();
        if n > 0 {
            r.push(string_of(&slice(s, 0, n)));
        }
        assert(r@.map_values(|w: String| w@) =~= words_rec(s@, j as int, n as int));
        r
    } else if is_whitespace(s[j - 1]) {
        let mut r = words_exec(s, j - 1, j - 1);
        let ghost r0 = r@.map_values(|w: String| w@);
        if n > j {
            r.push(string_of(&slice(s, j, n)));
        }
        assert(r@.map_values(|w: String| w@) =~= words_rec(s@, j as int, n as int));
        r
    } else {
        words_exec(s, j - 1, n)
    }
}

/// The argument vector of a command entry line `- command`: the words of
/// the command with the variables substituted (empty for an empty command).
pub open spec fn command_words(l: Seq<char>, m: Map<Seq<char>, Seq<char>>) -> Seq<Seq<char>> {
    words(subst(m, trim(rest(l, 2))))
}

/// The argument vector of the command entry line `l`.
pub fn command_args(l: &[char], variables: &VarStore) -> (r: Vec<String>)
    requires
        variables.wf(),
    ensures
        r@.map_values(|w: String| w@) == command_words(l@, variables@),
{
    let c = substitute(&trim_chars(&rest_exec(l, 2)), variables);
    words_exec(&c, c.len(), c.len())
}

/// The path argument of a line whose keyword takes `n` characters, with
/// the variables substituted, then trimmed.
pub open spec fn path_of(l: Seq<char>, n: int, m: Map<Seq<char>, Seq<char>>) -> Seq<char> {
    trim(subst(m, rest(l, n)))
}

/// The path argument of `l` after its first `n` characters.
pub fn path_arg(l: &[char], n: usize, variables: &VarStore) -> (r: String)
    requires
        variables.wf(),
    ensures
        r@ == path_of(l@, n as int, variables@),
{
    string_of(&trim_chars(&substitute(&rest_exec(l, n), variables)))
}

/// A true `if:` condition skips nothing, so the guarded line runs next; a
/// false one skips the single guarded line, or, where a `{` line follows,
/// the whole balanced block, so that execution resumes after its `}` line.
pub proof fn lemma_conditional(lines: Seq<Seq<char>>, cur: int, m: Map<Seq<char>, Seq<char>>, body: Seq<Seq<char>>)
    requires
        0 <= cur < lines.len(),
        first_eqeq(condition(lines[cur], m), 0) >= 0,
    ensures
        holds(condition(lines[cur], m)) ==> if_skip(lines, cur, m) == Some(0int),
        !holds(condition(lines[cur], m)) && cur + 1 < lines.len() && !is_open(lines[cur + 1])
            ==> if_skip(lines, cur, m) == Some(1int),
        !holds(condition(lines[cur], m)) && cur + body.len() + 2 < lines.len()
            && is_open(lines[cur + 1])
            && lines.subrange(cur + 2, cur + 2 + body.len()) == body
            && is_close(lines[cur + 2 + body.len()])
            && balanced(body)
            ==> cur + 1 + if_skip(lines, cur, m)->0 == cur + body.len() + 3,
{
    if !holds(condition(lines[cur], m)) && cur + body.len() + 2 < lines.len()
        && is_open(lines[cur + 1])
        && lines.subrange(cur + 2, cur + 2 + body.len()) == body
        && is_close(lines[cur + 2 + body.len()])
        && balanced(body) {
        lemma_block_skip(lines, cur + 1, body);
    }
}

} // verus!
