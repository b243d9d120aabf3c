use tmpl::{use_tmpl, Action, Prompt};

fn run_with(text: &str, answers: &[&str]) -> Vec<Action> {
    let mut it = use_tmpl(text).expect("template too long");
    let mut out = Vec::new();
    let mut next_answer = 0;
    for _ in 0..10_000 {
        let a = it.step();
        match a {
            Action::Finished => return out,
            Action::Nothing => {}
            Action::Ask(p) => {
                let answer = answers[next_answer];
                next_answer += 1;
                let value = if answer.is_empty() { p.default.clone() } else { answer.to_string() };
                out.push(Action::Ask(p));
                it.answer(value);
            }
            other => out.push(other),
        }
    }
    panic!("template did not finish");
}

fn run(text: &str) -> Vec<Action> {
    run_with(text, &[])
}

fn s(x: &str) -> String {
    x.to_string()
}

#[test]
fn function_call_creates_file() {
    let t = "function: greet(name) {\n    create_file: hello_$name.txt\n}\nvar: n = world\ngreet($n)\n";
    assert_eq!(run(t), vec![Action::CreateFile(s("hello_world.txt"))]);
}

#[test]
fn function_body_not_run_without_call() {
    let t = "function: f {\nmkdir: inside\n}\nmkdir: outside\n";
    assert_eq!(run(t), vec![Action::MakeDir(s("outside"))]);
}

#[test]
fn brace_on_next_line() {
    let t = "function: f(a)\n\n{\nmkdir: $a\n}\nf(x)\n";
    assert_eq!(run(t), vec![Action::MakeDir(s("x"))]);
}

#[test]
fn write_file_unescapes_newline() {
    let t = "write_file(out.txt): line1\\nline2\n";
    assert_eq!(run(t), vec![Action::WriteFile(s("out.txt"), s("line1\nline2"))]);
}

#[test]
fn write_file_unescapes_tab_and_return() {
    let t = "write_file(a.txt): x\\ty\\rz\n";
    assert_eq!(run(t), vec![Action::WriteFile(s("a.txt"), s("x\ty\rz"))]);
}

#[test]
fn heredoc_writes_raw_lines() {
    let t = "var: x = 1\nwrite_file(out.txt): <<EOF\n$x raw\n  second\nEOF>>\nmkdir: after\n";
    assert_eq!(
        run(t),
        vec![
            Action::WriteFile(s("out.txt"), s("$x raw\n  second\n")),
            Action::MakeDir(s("after")),
        ]
    );
}

#[test]
fn write_file_path_is_substituted() {
    let t = "var: d = src\nwrite_file($d/main.rs): fn main() {}\n";
    assert_eq!(run(t), vec![Action::WriteFile(s("src/main.rs"), s("fn main() {}"))]);
}

#[test]
fn invalid_write_file_is_reported() {
    let t = "write_file(out.txt) hello\n";
    assert_eq!(run(t), vec![Action::InvalidWrite(s("write_file(out.txt) hello"))]);
}

#[test]
fn arity_mismatch_is_rejected() {
    let t = "function: f {\ncreate_file: x.txt\n}\nf(1)\n";
    assert_eq!(run(t), vec![Action::ArityMismatch(s("f"), 0, 1)]);
}

#[test]
fn arity_mismatch_too_few() {
    let t = "function: g(a, b) {\ncreate_file: $a$b\n}\ng(1)\n";
    assert_eq!(run(t), vec![Action::ArityMismatch(s("g"), 2, 1)]);
}

#[test]
fn forked_scope_isolation() {
    let t = "var: x = outer\nfunction: f {\nvar: x = inner\ncreate_file: $x.txt\n}\nf()\ncreate_file: $x.txt\n";
    assert_eq!(
        run(t),
        vec![Action::CreateFile(s("inner.txt")), Action::CreateFile(s("outer.txt"))]
    );
}

#[test]
fn parameter_overrides_inherited_variable() {
    let t = "var: a = top\nfunction: f(a) {\nmkdir: $a\n}\nf(arg)\nmkdir: $a\n";
    assert_eq!(run(t), vec![Action::MakeDir(s("arg")), Action::MakeDir(s("top"))]);
}

#[test]
fn if_true_runs_guarded_line() {
    let t = "if: a == a\nmkdir: yes\nmkdir: after\n";
    assert_eq!(run(t), vec![Action::MakeDir(s("yes")), Action::MakeDir(s("after"))]);
}

#[test]
fn if_false_skips_guarded_line() {
    let t = "if: a == b\nmkdir: no\nmkdir: after\n";
    assert_eq!(run(t), vec![Action::MakeDir(s("after"))]);
}

#[test]
fn if_false_skips_balanced_block() {
    let t = "if: a == b\n{\nmkdir: no\n{\nmkdir: deeper\n}\n}\nmkdir: after\n";
    assert_eq!(run(t), vec![Action::MakeDir(s("after"))]);
}

#[test]
fn if_compares_after_substitution() {
    let t = "var: lang = rust\nif: $lang == rust\n{\nmkdir: cargo\n}\nif: $lang == go\nmkdir: gomod\n";
    assert_eq!(run(t), vec![Action::MakeDir(s("cargo"))]);
}

#[test]
fn brace_inside_line_does_not_nest() {
    let t = "if: a == b\n{\nwrite_file(x): {\n}\nmkdir: after\n";
    assert_eq!(run(t), vec![Action::MakeDir(s("after"))]);
}

#[test]
fn invalid_if_is_reported() {
    let t = "if: a = b\nmkdir: next\n";
    assert_eq!(
        run(t),
        vec![Action::InvalidIf(s("if: a = b")), Action::MakeDir(s("next"))]
    );
}

#[test]
fn command_block_runs_commands() {
    let t = "var: name = demo\ncommand\n- cargo new $name  --bin\nend_command\n";
    assert_eq!(
        run(t),
        vec![Action::Run(vec![s("cargo"), s("new"), s("demo"), s("--bin")])]
    );
}

#[test]
fn command_outside_block_is_reported() {
    let t = "- ls -la\n";
    assert_eq!(run(t), vec![Action::OutsideCommandBlock(s("- ls -la"))]);
}

#[test]
fn empty_command_is_reported() {
    let t = "command\n-\nend_command\n";
    assert_eq!(run(t), vec![Action::EmptyCommand]);
}

#[test]
fn change_dir_and_paths_are_trimmed() {
    let t = "var: p = app\nmkdir:   $p/src  \ncd: $p\ncreate_file: a.txt\n";
    assert_eq!(
        run(t),
        vec![
            Action::MakeDir(s("app/src")),
            Action::ChangeDir(s("app")),
            Action::CreateFile(s("a.txt")),
        ]
    );
}

#[test]
fn comments_and_blank_lines_do_nothing() {
    let t = "# a comment\n\n   \n{\n}\nmkdir: x\n";
    assert_eq!(run(t), vec![Action::MakeDir(s("x"))]);
}

#[test]
fn unknown_directive_is_reported() {
    let t = "frobnicate now\nnope(1)\n";
    assert_eq!(
        run(t),
        vec![Action::Unknown(s("frobnicate now")), Action::Unknown(s("nope(1)"))]
    );
}

#[test]
fn input_asks_and_binds_answer() {
    let t = "var: name = input(Project name?, demo)\nmkdir: $name\n";
    assert_eq!(
        run_with(t, &["mine"]),
        vec![
            Action::Ask(Prompt { name: s("name"), question: s("Project name?"), default: s("demo") }),
            Action::MakeDir(s("mine")),
        ]
    );
}

#[test]
fn input_default_is_used_for_empty_answer() {
    let t = "var: name = input(Project name?, demo)\nmkdir: $name\n";
    let out = run_with(t, &[""]);
    assert_eq!(out[1], Action::MakeDir(s("demo")));
}

#[test]
fn nested_calls_and_recursion_of_scopes() {
    let t = "function: inner(x) {\nmkdir: $x/$y\n}\nfunction: outer(y) {\ninner(in)\n}\nouter(out)\n";
    assert_eq!(run(t), vec![Action::MakeDir(s("in/out"))]);
}

#[test]
fn redeclared_function_uses_last() {
    let t = "function: f {\nmkdir: first\n}\nfunction: f {\nmkdir: second\n}\nf()\n";
    assert_eq!(run(t), vec![Action::MakeDir(s("second"))]);
}

#[test]
fn declaration_faults_are_listed() {
    let it = use_tmpl("function: f\nmkdir: x\nfunction: g {\nmkdir: y\n").unwrap();
    let faults = it.faults();
    assert_eq!(faults.len(), 2);
    assert_eq!(faults[0].0, "f");
    assert_eq!(faults[0].1, tmpl::DeclError::ExpectedBrace);
    assert_eq!(faults[1].0, "g");
    assert_eq!(faults[1].1, tmpl::DeclError::MissingClose);
}

#[test]
fn missing_open_brace_fault() {
    let it = use_tmpl("function: h\n\n// note\n").unwrap();
    let faults = it.faults();
    assert_eq!(faults.len(), 1);
    assert_eq!(faults[0].1, tmpl::DeclError::MissingOpen);
}

#[test]
fn empty_template_finishes() {
    assert_eq!(run(""), vec![]);
}

#[test]
fn blank_and_comment_lines_keep_command_block() {
    let t = "command\n\n# build it\nvar: x = 1\n- make $x\nend_command\n- ls\n";
    assert_eq!(
        run(t),
        vec![
            Action::Run(vec![s("make"), s("1")]),
            Action::OutsideCommandBlock(s("- ls")),
        ]
    );
}

#[test]
fn command_line_outside_block_leaves_flag_off() {
    let t = "- ls\n- pwd\n";
    assert_eq!(
        run(t),
        vec![
            Action::OutsideCommandBlock(s("- ls")),
            Action::OutsideCommandBlock(s("- pwd")),
        ]
    );
}

#[test]
fn indented_if_in_function_body() {
    let t = "function: f(a) {\n    if: $a == yes\n    mkdir: chosen\n    if: $a == no\n    {\n        mkdir: never\n    }\n    mkdir: end\n}\nf(yes)\n";
    assert_eq!(run(t), vec![Action::MakeDir(s("chosen")), Action::MakeDir(s("end"))]);
}

#[test]
fn hash_comment_before_function_brace() {
    let t = "function: f\n# the body\n{\nmkdir: inside\n}\nf()\n";
    assert_eq!(run(t), vec![Action::MakeDir(s("inside"))]);
    assert!(use_tmpl(t).unwrap().faults().is_empty());
}
