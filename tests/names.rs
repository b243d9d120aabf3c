use tmpl::{check_template_name, InstallTarget, NameError};

#[test]
fn empty_name_is_refused() {
    assert_eq!(check_template_name("   "), Err(NameError::Empty));
}

#[test]
fn name_with_space_is_refused() {
    assert_eq!(check_template_name(" my tmpl "), Err(NameError::HasSpace));
}

#[test]
fn dot_means_current_dir() {
    assert_eq!(check_template_name(" . "), Ok(InstallTarget::CurrentDir));
}

#[test]
fn plain_name_is_trimmed() {
    assert_eq!(check_template_name("  rust-cli\t"), Ok(InstallTarget::Named("rust-cli".to_string())));
}

use tmpl::{select_template, SelectionError};

#[test]
fn selection_is_one_based() {
    assert_eq!(select_template(" 2 ", 3), Ok(1));
    assert_eq!(select_template("1", 3), Ok(0));
    assert_eq!(select_template("+3", 3), Ok(2));
}

#[test]
fn selection_zero_picks_first() {
    assert_eq!(select_template("0", 2), Ok(0));
}

#[test]
fn selection_out_of_range() {
    assert_eq!(select_template("4", 3), Err(SelectionError::OutOfRange));
}

#[test]
fn selection_not_a_number() {
    assert_eq!(select_template("two", 3), Err(SelectionError::NotANumber));
    assert_eq!(select_template("", 3), Err(SelectionError::NotANumber));
    assert_eq!(select_template("-1", 3), Err(SelectionError::NotANumber));
    assert_eq!(select_template("+", 3), Err(SelectionError::NotANumber));
    assert_eq!(select_template("99999999999999999999999", 3), Err(SelectionError::NotANumber));
}
