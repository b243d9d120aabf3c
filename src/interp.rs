use vstd::prelude::*;

use crate::directives::{
    command_args, command_words, handle_write_file, path_of, path_arg, var_line, write_spec,
    asks, var_name, var_value, if_skip, handle_if, Prompt,
};
use crate::registry::{
    block_end, call_name, find_block_end, is_call, is_call_exec, is_decl, is_open,
    line_is_open, DeclError, Registry,
};
use crate::subst::{subst, substitute};
use crate::text::{
    chars_of, cut, find_from, first_from, slice, split_on, starts, starts_with, string_of,
    trim, trim_chars, views, split_lines, lines_of,
};
use crate::vars::VarStore;

verus! {

/// `s` without its trailing `)` characters.
pub open spec fn strip_close(s: Seq<char>) -> Seq<char>
    decreases s.len(),
{
    if s.len() > 0 && s.last() == ')' {
        strip_close(s.drop_last())
    } else {
        s
    }
}

fn strip_close_exec(s: &[char]) -> (r: Vec<char>)
    ensures
        r@ == strip_close(s@),
{
    let mut j: usize = s.len();
    assert(s@.subrange(0, s.len() as int) =~= s@);
    while j > 0 && s[j - 1] == ')'
        invariant
            j <= s.len(),
            strip_close(s@.subrange(0, j as int)) == strip_close(s@),
        decreases j,
    {
        assert(s@.subrange(0, j as int).drop_last() =~= s@.subrange(0, j - 1));
        j = j - 1;
    }
    slice(s, 0, j)
}

/// The argument text of a call line: between the first `(` and the next
/// `(` (or the end), without trailing `)`, trimmed.
pub open spec fn call_args_text(t: Seq<char>) -> Seq<char> {
    let p = first_from(t, '(', 0);
    let q = first_from(t, '(', p + 1);
    let e = if q >= 0 { q } else { t.len() as int };
    trim(strip_close(t.subrange(p + 1, e)))
}

/// The arguments of a call line: its comma-separated pieces, each trimmed
/// and with the caller's variables substituted; none where the text is empty.
pub open spec fn call_args(t: Seq<char>, m: Map<Seq<char>, Seq<char>>) -> Seq<Seq<char>> {
    let a = call_args_text(t);
    if a.len() == 0 {
        Seq::empty()
    } else {
        subst_all(m, cut(a, ','))
    }
}

/// Each piece trimmed, with the variables of `m` substituted.
pub open spec fn subst_all(m: Map<Seq<char>, Seq<char>>, ps: Seq<Seq<char>>) -> Seq<Seq<char>> {
    ps.map_values(|x: Seq<char>| subst(m, trim(x)))
}

/// The store `m` with the first `n` parameters bound to the arguments.
pub open spec fn bind(m: Map<Seq<char>, Seq<char>>, params: Seq<Seq<char>>, args: Seq<Seq<char>>, n: int) -> Map<Seq<char>, Seq<char>>
    decreases n,
{
    if n <= 0 {
        m
    } else {
        bind(m, params, args, n - 1).insert(params[n - 1], args[n - 1])
    }
}

/// The directive that a trimmed line holds, in order of precedence.
pub enum Kind {
    Var,
    MakeDir,
    CreateFile,
    WriteFile,
    CommandStart,
    CommandEnd,
    CommandEntry,
    ChangeDir,
    If,
    Blank,
    Call,
    Unknown,
}

/// The directive of the trimmed line `t`: the first keyword that `t`
/// begins with, else a blank line or comment, else a call of a declared
/// function.
pub open spec fn kind(t: Seq<char>, functions: &Registry) -> Kind {
    if starts(t, seq!['v', 'a', 'r', ':']) {
        Kind::Var
    } else if starts(t, seq!['m', 'k', 'd', 'i', 'r', ':']) {
        Kind::MakeDir
    } else if starts(t, seq!['c', 'r', 'e', 'a', 't', 'e', '_', 'f', 'i', 'l', 'e', ':']) {
        Kind::CreateFile
    } else if starts(t, seq!['w', 'r', 'i', 't', 'e', '_', 'f', 'i', 'l', 'e', '(']) {
        Kind::WriteFile
    } else if starts(t, seq!['c', 'o', 'm', 'm', 'a', 'n', 'd']) {
        Kind::CommandStart
    } else if starts(t, seq!['e', 'n', 'd', '_', 'c', 'o', 'm', 'm', 'a', 'n', 'd']) {
        Kind::CommandEnd
    } else if starts(t, seq!['-']) {
        Kind::CommandEntry
    } else if starts(t, seq!['c', 'd', ':']) {
        Kind::ChangeDir
    } else if starts(t, seq!['i', 'f', ':']) {
        Kind::If
    } else if starts(t, seq!['#']) || t == seq!['{'] || t == seq!['}'] || t.len() == 0 {
        Kind::Blank
    } else if is_call(t, functions) {
        Kind::Call
    } else {
        Kind::Unknown
    }
}

/// The line at which the top-level walk resumes after a declaration on
/// line `i`: past the closing line of its body.
pub open spec fn skip_decl(lines: Seq<Seq<char>>, i: int) -> int {
    let t = trim(lines[i]);
    let b = if t.len() > 0 && t.last() == '{' { i } else { first_open(lines, i + 1) };
    let e = block_end(lines, b + 1, 1);
    if e < lines.len() { e + 1 } else { lines.len() as int }
}

/// The first line from `j` on that reads `{`, or the lines' count.
pub open spec fn first_open(lines: Seq<Seq<char>>, j: int) -> int
    decreases lines.len() - j,
{
    if j < 0 || j >= lines.len() {
        lines.len() as int
    } else if is_open(lines[j]) {
        j
    } else {
        first_open(lines, j + 1)
    }
}

/// What the caller is asked to do, or to report, for one step.
#[derive(Debug, PartialEq, Eq)]
pub enum Action {
    /// Every line has been carried out.
    Finished,
    /// Nothing to do for this step.
    Nothing,
    /// Create the directory, with its parents.
    MakeDir(String),
    /// Create the file empty, truncating it where it exists.
    CreateFile(String),
    /// Write the content to the file.
    WriteFile(String, String),
    /// Run the argument vector as a child process.
    Run(Vec<String>),
    /// Make the path the working directory.
    ChangeDir(String),
    /// Ask the user; hand the answer to `answer`.
    Ask(Prompt),
    /// The line is no directive.
    Unknown(String),
    /// A command entry line outside a command block.
    OutsideCommandBlock(String),
    /// A command entry line with no command.
    EmptyCommand,
    /// An `if:` line without `==`.
    InvalidIf(String),
    /// A `write_file` line without `):`.
    InvalidWrite(String),
    /// A call with the wrong number of arguments: name, parameters, arguments.
    ArityMismatch(String, usize, usize),
}

struct Frame {
    vars: VarStore,
    is_command: bool,
    pos: usize,
    end: usize,
}

/// A template being carried out: its lines, its functions, and a stack of
/// frames, the first for the top level and one for each call in progress.
pub struct Interpreter {
    lines: Vec<Vec<char>>,
    functions: Registry,
    frames: Vec<Frame>,
    pending: Option<Vec<char>>,
}

impl Interpreter {
    pub closed spec fn wf(&self) -> bool {
        &&& self.lines.len() < usize::MAX
        &&& self.functions.wf()
        &&& forall|k: int| 0 <= k < self.functions.len() ==> #[trigger] self.functions.entries()[k].1
            <= self.functions.entries()[k].2 <= self.lines.len()
        &&& forall|j: int| 0 <= j < self.frames.len() ==> (#[trigger] self.frames@[j]).vars.wf()
            && self.frames@[j].end <= self.lines.len()
        &&& self.frames.len() > 0 ==> self.frames@[0].end == self.lines.len()
        &&& self.pending is Some ==> self.frames.len() > 0
    }

    pub closed spec fn lines(&self) -> Seq<Seq<char>> {
        views(self.lines@)
    }

    pub closed spec fn functions(&self) -> &Registry {
        &self.functions
    }

    /// How many frames are open: 1 at the top level, plus one per call.
    pub closed spec fn depth(&self) -> nat {
        self.frames@.len()
    }

    /// The variables of frame `j`.
    pub closed spec fn vars_at(&self, j: int) -> Map<Seq<char>, Seq<char>> {
        self.frames@[j].vars@
    }

    /// The next line of frame `j`.
    pub closed spec fn pos_at(&self, j: int) -> int {
        self.frames@[j].pos as int
    }

    /// The end of the line range of frame `j`.
    pub closed spec fn end_at(&self, j: int) -> int {
        self.frames@[j].end as int
    }

    /// Whether frame `j` is inside a command block.
    pub closed spec fn command_at(&self, j: int) -> bool {
        self.frames@[j].is_command
    }

    /// Whether an answer is awaited, and for which name.
    pub closed spec fn awaiting(&self) -> Option<Seq<char>> {
        match self.pending {
            Some(n) => Some(n@),
            None => None,
        }
    }

    /// Prepares the lines of a template: declarations are collected, and
    /// the walk starts at the first line with no variables.
    pub fn from_lines(lines: Vec<Vec<char>>) -> (r: Interpreter)
        requires
            lines.len() < usize::MAX,
        ensures
            r.wf(),
            r.lines() == views(lines@),
            r.functions().entries() == crate::registry::decls(views(lines@), 0),
            r.depth() == 1,
            r.pos_at(0) == 0,
            r.end_at(0) == lines.len(),
            r.vars_at(0) == Map::<Seq<char>, Seq<char>>::empty(),
            !r.command_at(0),
            r.awaiting() is None,
    {
        let functions = Registry::build(&lines);
        let n = lines.len();
        let mut frames: Vec<Frame> = Vec::new();
        frames.push(Frame { vars: VarStore::new(), is_command: false, pos: 0, end: n });
        Interpreter { lines, functions, frames, pending: None }
    }
}

fn classify(t: &[char], functions: &Registry) -> (r: Kind)
    requires
        functions.wf(),
    ensures
        r == kind(t@, functions),
{
    proof {
        reveal_strlit("var:");
        assert("var:"@ =~= seq!['v', 'a', 'r', ':']);
        reveal_strlit("mkdir:");
        assert("mkdir:"@ =~= seq!['m', 'k', 'd', 'i', 'r', ':']);
        reveal_strlit("create_file:");
        assert("create_file:"@ =~= seq!['c', 'r', 'e', 'a', 't', 'e', '_', 'f', 'i', 'l', 'e', ':']);
        reveal_strlit("write_file(");
        assert("write_file("@ =~= seq!['w', 'r', 'i', 't', 'e', '_', 'f', 'i', 'l', 'e', '(']);
        reveal_strlit("command");
        assert("command"@ =~= seq!['c', 'o', 'm', 'm', 'a', 'n', 'd']);
        reveal_strlit("end_command");
        assert("end_command"@ =~= seq!['e', 'n', 'd', '_', 'c', 'o', 'm', 'm', 'a', 'n', 'd']);
        reveal_strlit("-");
        assert("-"@ =~= seq!['-']);
        reveal_strlit("cd:");
        assert("cd:"@ =~= seq!['c', 'd', ':']);
        reveal_strlit("if:");
        assert("if:"@ =~= seq!['i', 'f', ':']);
        reveal_strlit("#");
        assert("#"@ =~= seq!['#']);
        reveal_strlit("{");
        assert("{"@ =~= seq!['{']);
        reveal_strlit("}");
        assert("}"@ =~= seq!['}']);
    }
    if starts_with(t, "var:") {
        Kind::Var
    } else if starts_with(t, "mkdir:") {
        Kind::MakeDir
    } else if starts_with(t, "create_file:") {
        Kind::CreateFile
    } else if starts_with(t, "write_file(") {
        Kind::WriteFile
    } else if starts_with(t, "command") {
        Kind::CommandStart
    } else if starts_with(t, "end_command") {
        Kind::CommandEnd
    } else if starts_with(t, "-") {
        Kind::CommandEntry
    } else if starts_with(t, "cd:") {
        Kind::ChangeDir
    } else if starts_with(t, "if:") {
        Kind::If
    } else if starts_with(t, "#") || crate::text::equals(t, "{") || crate::text::equals(t, "}") || t.len() == 0 {
        Kind::Blank
    } else if is_call_exec(t, functions) {
        Kind::Call
    } else {
        Kind::Unknown
    }
}

fn first_open_exec(lines: &Vec<Vec<char>>, from: usize) -> (r: usize)
    requires
        from <= lines.len(),
    ensures
        r as int == first_open(views(lines@), from as int),
        r <= lines.len(),
{
    let ghost ls = views(lines@);
    let mut j: usize = from;
    while j < lines.len()
        invariant
            ls == views(lines@),
            from <= j <= lines.len(),
            first_open(ls, j as int) == first_open(ls, from as int),
        decreases lines.len() - j,
    {
        assert(ls[j as int] == lines@[j as int]@);
        if line_is_open(&lines[j]) {
            return j;
        }
        j = j + 1;
    }
    j
}

fn call_arguments(t: &[char], vars: &VarStore) -> (r: Vec<Vec<char>>)
    requires
        vars.wf(),
        first_from(t@, '(', 0) >= 0,
    ensures
        views(r@) == call_args(t@, vars@),
{
    let p = match find_from(t, '(', 0) {
        Some(p) => p,
        None => 0,
    };
    let e = match find_from(t, '(', p + 1) {
        Some(q) => q,
        None => t.len(),
    };
    let a = trim_chars(&strip_close_exec(&slice(t, p + 1, e)));
    let mut r: Vec<Vec<char>> = Vec::new();
    if a.len() == 0 {
        assert(views(r@) =~= call_args(t@, vars@));
        return r;
    }
    let pieces = split_on(&a, ',');
    let ghost ps = views(pieces@);
    let mut i: usize = 0;
    while i < pieces.len()
        invariant
            vars.wf(),
            ps == views(pieces@),
            ps == cut(a@, ','),
            i <= pieces.len(),
            r.len() == i,
            views(r@) == subst_all(vars@, ps.subrange(0, i as int)),
        decreases pieces.len() - i,
    {
        let v = substitute(&trim_chars(&pieces[i]), vars);
        let ghost r0 = r@;
        r.push(v);
        assert(ps[i as int] == pieces@[i as int]@);
        assert(views(r@)[i as int] == subst(vars@, trim(ps[i as int])));
        assert forall|q: int| 0 <= q < i implies views(r@)[q] == views(r0)[q] by {
            assert(r@[q] == r0[q]);
        }
        assert forall|q: int| 0 <= q < i + 1 implies views(r@)[q] == subst_all(vars@, ps.subrange(0, i + 1))[q] by {
            assert(ps.subrange(0, i + 1)[q] == ps[q]);
            if q < i {
                assert(views(r0)[q] == subst_all(vars@, ps.subrange(0, i as int))[q]);
                assert(ps.subrange(0, i as int)[q] == ps[q]);
            }
        }
        assert(views(r@) =~= subst_all(vars@, ps.subrange(0, i + 1)));
        i = i + 1;
    }
    assert(ps.subrange(0, pieces.len() as int) =~= ps);
    r
}

impl Interpreter {
    /// The frame that runs, where one is open.
    pub open spec fn top(&self) -> int {
        self.depth() - 1
    }

    /// The trimmed line that the running frame is at.
    pub open spec fn current(&self) -> Seq<char> {
        trim(self.lines()[self.pos_at(self.top())])
    }

    /// The line that the running frame is at, as it stands.
    pub open spec fn line(&self) -> Seq<char> {
        self.lines()[self.pos_at(self.top())]
    }

    /// Whether the running frame still has a line to carry out.
    pub open spec fn running(&self) -> bool {
        self.depth() > 0 && self.pos_at(self.top()) < self.end_at(self.top())
    }

    /// Carries out one step: the next line of the innermost call (or of the
    /// top level), the end of a call, or nothing once all is done.  Only
    /// the innermost frame's variables change; a call opens a frame whose
    /// variables are a copy of the caller's with the parameters bound.
    pub fn step(&mut self) -> (r: Action)
        requires
            old(self).wf(),
            old(self).awaiting() is None,
        ensures
            final(self).wf(),
            final(self).lines() == old(self).lines(),
            final(self).functions() == old(self).functions(),
            final(self).depth() <= old(self).depth() + 1,
            forall|j: int| 0 <= j < old(self).top() && j < final(self).depth()
                ==> #[trigger] final(self).vars_at(j) == old(self).vars_at(j),
            final(self).depth() > old(self).depth() ==> final(self).vars_at(old(self).top()) == old(self).vars_at(old(self).top()),
            keeps_callers(old(self), final(self)),
            old(self).depth() == 0 ==> r is Finished && final(self).depth() == 0,
            old(self).depth() > 0 && !old(self).running() ==> r is Nothing && final(self).depth() == old(self).depth() - 1,
            old(self).running() && old(self).top() == 0 && is_decl(old(self).line()) ==> ({
                &&& r is Nothing
                &&& final(self).depth() == 1
                &&& final(self).vars_at(0) == old(self).vars_at(0)
                &&& final(self).pos_at(0) == skip_decl(old(self).lines(), old(self).pos_at(0))
                &&& final(self).command_at(0) == old(self).command_at(0)
            }),
            old(self).running() && !(old(self).top() == 0 && is_decl(old(self).line()))
                && !(kind(old(self).current(), old(self).functions()) is CommandStart)
                && !(kind(old(self).current(), old(self).functions()) is CommandEnd)
                ==> final(self).command_at(old(self).top()) == old(self).command_at(old(self).top()),
            old(self).running() && !(old(self).top() == 0 && is_decl(old(self).line())) ==> ({
                let top = old(self).top();
                let t = old(self).current();
                let m = old(self).vars_at(top);
                let pos = old(self).pos_at(top);
                let ls = old(self).lines();
                match kind(t, old(self).functions()) {
                    Kind::Var => final(self).depth() == old(self).depth() && final(self).pos_at(top) == pos + 1
                        && if asks(t) {
                            &&& final(self).vars_at(top) == m
                            &&& final(self).awaiting() == Some(var_name(t))
                            &&& r matches Action::Ask(p) && p.name@ == var_name(t)
                                && p.question@ == crate::directives::question_of(crate::directives::var_raw(t)->0)
                                && p.default@ == crate::directives::default_of(crate::directives::var_raw(t)->0)
                        } else {
                            &&& final(self).vars_at(top) == m.insert(var_name(t), var_value(t, m))
                            &&& final(self).awaiting() is None
                            &&& r is Nothing
                        },
                    Kind::MakeDir => final(self).depth() == old(self).depth() && final(self).pos_at(top) == pos + 1
                        && final(self).vars_at(top) == m && (r matches Action::MakeDir(p) && p@ == path_of(t, 6, m)),
                    Kind::CreateFile => final(self).depth() == old(self).depth() && final(self).pos_at(top) == pos + 1
                        && final(self).vars_at(top) == m && (r matches Action::CreateFile(p) && p@ == path_of(t, 12, m)),
                    Kind::ChangeDir => final(self).depth() == old(self).depth() && final(self).pos_at(top) == pos + 1
                        && final(self).vars_at(top) == m && (r matches Action::ChangeDir(p) && p@ == path_of(t, 3, m)),
                    Kind::WriteFile => final(self).depth() == old(self).depth() && final(self).vars_at(top) == m
                        && match write_spec(ls, pos, m) {
                            Some(w) => final(self).pos_at(top) == pos + 1 + w.2
                                && (r matches Action::WriteFile(p, c) && p@ == w.0 && c@ == w.1),
                            None => final(self).pos_at(top) == pos + 1 && r is InvalidWrite,
                        },
                    Kind::CommandStart => final(self).depth() == old(self).depth() && final(self).pos_at(top) == pos + 1
                        && final(self).vars_at(top) == m && final(self).command_at(top) && r is Nothing,
                    Kind::CommandEnd => final(self).depth() == old(self).depth() && final(self).pos_at(top) == pos + 1
                        && final(self).vars_at(top) == m && !final(self).command_at(top) && r is Nothing,
                    Kind::CommandEntry => final(self).depth() == old(self).depth() && final(self).pos_at(top) == pos + 1
                        && final(self).vars_at(top) == m
                        && if !old(self).command_at(top) {
                            r is OutsideCommandBlock
                        } else if command_words(t, m).len() == 0 {
                            r is EmptyCommand
                        } else {
                            r matches Action::Run(a) && a@.map_values(|w: String| w@) == command_words(t, m)
                        },
                    Kind::If => final(self).depth() == old(self).depth() && final(self).vars_at(top) == m
                        && match if_skip(ls, pos, m) {
                            Some(k) => final(self).pos_at(top) == pos + 1 + k && r is Nothing,
                            None => final(self).pos_at(top) == pos + 1 && r is InvalidIf,
                        },
                    Kind::Blank => final(self).depth() == old(self).depth() && final(self).pos_at(top) == pos + 1
                        && final(self).vars_at(top) == m && r is Nothing,
                    Kind::Unknown => final(self).depth() == old(self).depth() && final(self).pos_at(top) == pos + 1
                        && final(self).vars_at(top) == m && (r matches Action::Unknown(l) && l@ == t),
                    Kind::Call => {
                        let f = old(self).functions();
                        let d = f.entries()[f.index_of(call_name(t))];
                        let args = call_args(t, m);
                        &&& final(self).pos_at(top) == pos + 1
                        &&& final(self).vars_at(top) == m
                        &&& if args.len() != d.3.len() {
                            &&& final(self).depth() == old(self).depth()
                            &&& r matches Action::ArityMismatch(n, np, na) && n@ == call_name(t) && np == d.3.len() && na == args.len()
                        } else {
                            &&& final(self).depth() == old(self).depth() + 1
                            &&& final(self).vars_at(top + 1) == bind(m, d.3, args, args.len() as int)
                            &&& final(self).pos_at(top + 1) == d.1
                            &&& final(self).end_at(top + 1) == d.2
                            &&& !final(self).command_at(top + 1)
                            &&& r is Nothing
                        }
                    },
                }
            }),
    {
        if self.frames.len() == 0 {
            return Action::Finished;
        }
        let mut f = self.frames.pop().unwrap();
        let ghost before = *old(self);
        assert(f == before.frames@[before.frames.len() - 1]);
        if f.pos >= f.end {
            return Action::Nothing;
        }
        let ghost ls = views(self.lines@);
        assert(ls[f.pos as int] == self.lines@[f.pos as int]@);
        let t = trim_chars(&self.lines[f.pos]);
        assert(before.top() == self.frames.len());
        assert(before.pos_at(before.top()) == f.pos);
        assert(before.current() == t@);
        proof {
            reveal_strlit("function:");
            assert("function:"@ =~= seq!['f', 'u', 'n', 'c', 't', 'i', 'o', 'n', ':']);
        }
        if self.frames.len() == 0 && starts_with(&t, "function:") {
            let i = f.pos;
            let b = if t.len() > 0 && t[t.len() - 1] == '{' {
                i
            } else {
                first_open_exec(&self.lines, i + 1)
            };
            if b < self.lines.len() {
                let e = find_block_end(&self.lines, b + 1);
                f.pos = if e < self.lines.len() { e + 1 } else { self.lines.len() };
            } else {
                f.pos = self.lines.len();
            }
            self.frames.push(f);
            assert(self.frames@ =~= before.frames@.update(0, f));
            return Action::Nothing;
        }
        let pos = f.pos;
        let k = classify(&t, &self.functions);
        let mut skip: usize = 0;
        let mut next_command = f.is_command;
        let mut callee: Option<Frame> = None;
        let action = match k {
            Kind::Var => {
                match var_line(&t, &mut f.vars) {
                    Some(p) => {
                        self.pending = Some(chars_of(p.name.as_str()));
                        Action::Ask(p)
                    },
                    None => Action::Nothing,
                }
            },
            Kind::MakeDir => Action::MakeDir(path_arg(&t, 6, &f.vars)),
            Kind::CreateFile => Action::CreateFile(path_arg(&t, 12, &f.vars)),
            Kind::ChangeDir => Action::ChangeDir(path_arg(&t, 3, &f.vars)),
            Kind::WriteFile => {
                match handle_write_file(&self.lines, pos, &f.vars) {
                    Some(w) => {
                        skip = w.skip;
                        Action::WriteFile(w.path, w.content)
                    },
                    None => Action::InvalidWrite(string_of(&t)),
                }
            },
            Kind::CommandStart => {
                next_command = true;
                Action::Nothing
            },
            Kind::CommandEnd => {
                next_command = false;
                Action::Nothing
            },
            Kind::CommandEntry => {
                if !f.is_command {
                    Action::OutsideCommandBlock(string_of(&t))
                } else {
                    let a = command_args(&t, &f.vars);
                    if a.len() == 0 {
                        Action::EmptyCommand
                    } else {
                        Action::Run(a)
                    }
                }
            },
            Kind::If => {
                match handle_if(&self.lines, pos, &f.vars) {
                    Some(n) => {
                        skip = n;
                        Action::Nothing
                    },
                    None => Action::InvalidIf(string_of(&t)),
                }
            },
            Kind::Blank => Action::Nothing,
            Kind::Unknown => Action::Unknown(string_of(&t)),
            Kind::Call => {
                let name = slice(&t, 0, find_from(&t, '(', 0).unwrap());
                let args = call_arguments(&t, &f.vars);
                match self.functions.get(&name) {
                    Some(d) => {
                        proof {
                            let ix = self.functions.index_of(name@);
                            assert(self.functions.entries()[ix].1 <= self.functions.entries()[ix].2 <= self.lines.len());
                        }
                        if args.len() != d.params.len() {
                            Action::ArityMismatch(string_of(&name), d.params.len(), args.len())
                        } else {
                            let mut local = f.vars.fork();
                            let ghost m = f.vars@;
                            let mut q: usize = 0;
                            while q < args.len()
                                invariant
                                    local.wf(),
                                    q <= args.len() == d.params.len(),
                                    local@ == bind(m, d.param_names(), views(args@), q as int),
                                decreases args.len() - q,
                            {
                                let pn = chars_of(d.params[q].as_str());
                                assert(d.param_names()[q as int] == d.params@[q as int]@);
                                assert(views(args@)[q as int] == args@[q as int]@);
                                local.set(pn, args[q].clone());
                                q = q + 1;
                            }
                            callee = Some(Frame { vars: local, is_command: false, pos: d.start_line, end: d.end_line });
                            Action::Nothing
                        }
                    },
                    None => Action::Unknown(string_of(&t)),
                }
            },
        };
        f.is_command = next_command;
        f.pos = pos + 1 + skip;
        self.frames.push(f);
        match callee {
            Some(c) => {
                self.frames.push(c);
            },
            None => {},
        }
        action
    }
}

impl Interpreter {
    /// Binds the answer to the question of the last `Ask` to its name, in
    /// the frame that asked.
    pub fn answer(&mut self, value: String)
        requires
            old(self).wf(),
            old(self).awaiting() is Some,
        ensures
            final(self).wf(),
            final(self).awaiting() is None,
            final(self).lines() == old(self).lines(),
            final(self).functions() == old(self).functions(),
            final(self).depth() == old(self).depth(),
            final(self).vars_at(old(self).top()) == old(self).vars_at(old(self).top()).insert(old(self).awaiting()->0, value@),
            forall|j: int| 0 <= j < old(self).top() ==> #[trigger] final(self).vars_at(j) == old(self).vars_at(j),
            keeps_callers(old(self), final(self)),
            forall|j: int| 0 <= j < old(self).depth() ==> final(self).pos_at(j) == old(self).pos_at(j)
                && final(self).end_at(j) == old(self).end_at(j) && final(self).command_at(j) == old(self).command_at(j),
    {
        let name = match self.pending.take() {
            Some(n) => n,
            None => Vec::new(),
        };
        let mut f = self.frames.pop().unwrap();
        let v = chars_of(value.as_str());
        f.vars.set(name, v);
        self.frames.push(f);
    }

    /// Whether every line has been carried out.
    pub fn is_finished(&self) -> (r: bool)
        ensures
            r == (self.depth() == 0),
    {
        self.frames.len() == 0
    }

    /// The declaration faults found when the functions were collected, with
    /// the name of the function at fault.
    pub fn faults(&self) -> (r: Vec<(String, DeclError)>)
        requires
            self.wf(),
        ensures
            crate::registry::fault_views(r@) == crate::registry::faults_of(self.functions().entries(), self.functions().len() as int),
    {
        self.functions.faults()
    }
}

/// Prepares a template's text to be carried out; `None` where it has more
/// lines than an index can count.
pub fn use_tmpl(template: &str) -> (r: Option<Interpreter>)
    ensures
        r is None <==> lines_of(template@).len() >= usize::MAX,
        r matches Some(it) ==> ({
            &&& it.wf()
            &&& it.lines() == lines_of(template@)
            &&& it.functions().entries() == crate::registry::decls(lines_of(template@), 0)
            &&& it.depth() == 1
            &&& it.pos_at(0) == 0
            &&& it.end_at(0) == lines_of(template@).len()
            &&& it.vars_at(0) == Map::<Seq<char>, Seq<char>>::empty()
            &&& it.awaiting() is None
        }),
{
    let lines = split_lines(template);
    if lines.len() == usize::MAX {
        return None;
    }
    Some(Interpreter::from_lines(lines))
}

/// From `a` to `b`, no frame below the running one had its variables
/// changed, and a frame opened on top of `a` left `a`'s running frame as
/// it was; `step` and `answer` both keep this.
pub open spec fn keeps_callers(a: &Interpreter, b: &Interpreter) -> bool {
    &&& forall|j: int| 0 <= j < a.top() && j < b.depth() ==> #[trigger] b.vars_at(j) == a.vars_at(j)
    &&& b.depth() > a.depth() ==> b.vars_at(a.top()) == a.vars_at(a.top())
}

/// Step `i` of `run` keeps the callers' variables.
pub open spec fn linked(run: Seq<Interpreter>, i: int) -> bool {
    keeps_callers(&run[i], &run[i + 1])
}

/// A call made from frame `d` cannot change that frame's variables: over a
/// run of steps that opens the call's frame and goes on while it (or a
/// deeper one) is open, frame `d`'s variables after the run are those
/// before it, even where the function reassigns a variable of the caller.
pub proof fn lemma_call_isolation(run: Seq<Interpreter>, d: int)
    requires
        run.len() >= 2,
        0 <= d,
        run[0].depth() == d + 1,
        run[1].depth() == d + 2,
        forall|i: int| 1 <= i < run.len() - 1 ==> #[trigger] run[i].depth() >= d + 2,
        run.last().depth() >= d + 1,
        forall|i: int| 0 <= i < run.len() - 1 ==> #[trigger] linked(run, i),
    ensures
        run.last().vars_at(d) == run[0].vars_at(d),
{
    lemma_call_isolation_upto(run, d, run.len() - 1);
}

proof fn lemma_call_isolation_upto(run: Seq<Interpreter>, d: int, k: int)
    requires
        1 <= k <= run.len() - 1,
        0 <= d,
        run[0].depth() == d + 1,
        run[1].depth() == d + 2,
        forall|i: int| 1 <= i < run.len() - 1 ==> #[trigger] run[i].depth() >= d + 2,
        run.last().depth() >= d + 1,
        forall|i: int| 0 <= i < run.len() - 1 ==> #[trigger] linked(run, i),
    ensures
        run[k].vars_at(d) == run[0].vars_at(d),
    decreases k,
{
    if k == 1 {
        assert(linked(run, 0));
    } else {
        lemma_call_isolation_upto(run, d, k - 1);
        assert(run[k - 1].depth() >= d + 2);
        assert(linked(run, k - 1));
        if k < run.len() - 1 {
            assert(run[k].depth() >= d + 2);
        } else {
            assert(run[k] == run.last());
        }
    }
}

} // verus!
