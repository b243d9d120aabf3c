use tmpl::{handle_var, is_function_call, replace_variables, use_tmpl, Prompt, VarStore};

fn store(pairs: &[(&str, &str)]) -> VarStore {
    let mut v = VarStore::new();
    for (k, val) in pairs {
        v.insert(k, val);
    }
    v
}

#[test]
fn text_without_dollar_is_unchanged() {
    let v = store(&[("a", "1"), ("name", "x")]);
    assert_eq!(replace_variables("plain text, no vars", &v), "plain text, no vars");
    assert_eq!(replace_variables("", &v), "");
}

#[test]
fn dollar_name_is_replaced() {
    let v = store(&[("name", "world")]);
    assert_eq!(replace_variables("hello $name!", &v), "hello world!");
}

#[test]
fn escape_gives_literal_name() {
    let v = store(&[("name", "world")]);
    assert_eq!(replace_variables("$$name", &v), "$name");
}

#[test]
fn prefix_keys_do_not_collide() {
    let v = store(&[("a", "1"), ("ab", "2")]);
    assert_eq!(replace_variables("$ab", &v), "2");
    assert_eq!(replace_variables("$a", &v), "1");
    assert_eq!(replace_variables("$$ab", &v), "$ab");
    assert_eq!(replace_variables("$$a", &v), "$a");
}

#[test]
fn suffix_keys_do_not_collide() {
    let v = store(&[("b", "1"), ("ab", "2")]);
    assert_eq!(replace_variables("$ab", &v), "2");
    assert_eq!(replace_variables("$$ab", &v), "$ab");
}

#[test]
fn unknown_name_is_left_verbatim() {
    let v = store(&[("a", "1")]);
    assert_eq!(replace_variables("$zzz and $", &v), "$zzz and $");
}

#[test]
fn value_is_not_expanded_again() {
    let v = store(&[("a", "$b"), ("b", "2")]);
    assert_eq!(replace_variables("$a", &v), "$b");
}

#[test]
fn insert_overwrites_and_get_reads() {
    let mut v = VarStore::new();
    assert_eq!(v.get("k"), None);
    v.insert("k", "1");
    v.insert("k", "2");
    assert_eq!(v.get("k"), Some("2".to_string()));
}

#[test]
fn handle_var_binds_substituted_value() {
    let mut v = store(&[("a", "1")]);
    let r = handle_var("var:  x =  v$a  ", &mut v);
    assert_eq!(r, None);
    assert_eq!(v.get("x"), Some("v1".to_string()));
}

#[test]
fn handle_var_without_value_binds_empty() {
    let mut v = VarStore::new();
    assert_eq!(handle_var("var: y", &mut v), None);
    assert_eq!(v.get("y"), Some(String::new()));
}

#[test]
fn handle_var_input_asks() {
    let mut v = VarStore::new();
    let r = handle_var("var: n = input(Name?)", &mut v);
    assert_eq!(
        r,
        Some(Prompt { name: "n".to_string(), question: "Name?".to_string(), default: String::new() })
    );
    assert_eq!(v.get("n"), None);
}

#[test]
fn function_call_recognition() {
    let it = use_tmpl("function: greet(name) {\n}\n").unwrap();
    let _ = it;
    let reg = tmpl::Registry::build(&vec!["function: greet(name) {".chars().collect::<Vec<char>>(), "}".chars().collect()]);
    assert!(is_function_call("greet(x)", &reg));
    assert!(!is_function_call("greet(x", &reg));
    assert!(!is_function_call("other(x)", &reg));
    assert!(!is_function_call("1greet(x)", &reg));
    assert!(!is_function_call("gr:eet(x)", &reg));
}

#[test]
fn split_lines_matches_str_lines() {
    for text in ["", "a", "a\n", "a\nb", "a\r\nb\r\n", "\n\nx", "x\n\n", "  if: a\r\n{\n}"] {
        let got: Vec<String> = tmpl::text::split_lines(text)
            .into_iter()
            .map(|l| l.into_iter().collect())
            .collect();
        let want: Vec<String> = text.lines().map(|l| l.to_string()).collect();
        assert_eq!(got, want, "text {:?}", text);
    }
}
