use calculator::session::{help_string, is_valid_var, HELP_PAGE};

#[test]
fn names_of_letters_digits_and_underscores_are_valid() {
    assert_eq!(is_valid_var("hallo"), Ok(()));
    assert_eq!(is_valid_var("x1"), Ok(()));
    assert_eq!(is_valid_var("_"), Ok(()));
    assert_eq!(is_valid_var("snake_case_2"), Ok(()));
    assert_eq!(is_valid_var("größe"), Ok(()));
    assert_eq!(is_valid_var("a１"), Ok(()));
}

#[test]
fn a_name_cannot_start_with_a_number() {
    let reason = Err("Variables cannot start with number".to_string());
    assert_eq!(is_valid_var("1abc"), reason);
    assert_eq!(is_valid_var("9"), reason);
    assert_eq!(is_valid_var("½x"), reason);
    assert_eq!(is_valid_var("٣"), reason);
    assert_eq!(is_valid_var("1-"), reason);
}

#[test]
fn a_name_holds_no_other_character() {
    assert_eq!(
        is_valid_var("ab-c"),
        Err("Variables must be alphanumeric! '-' is not allowed".to_string())
    );
    assert_eq!(
        is_valid_var("a b!"),
        Err("Variables must be alphanumeric! ' ' is not allowed".to_string())
    );
    assert_eq!(
        is_valid_var("+"),
        Err("Variables must be alphanumeric! '+' is not allowed".to_string())
    );
    assert_eq!(
        is_valid_var("a.b"),
        Err("Variables must be alphanumeric! '.' is not allowed".to_string())
    );
}

#[test]
fn the_help_page_lists_the_commands() {
    let page = help_string();
    assert_eq!(page, HELP_PAGE);
    assert_eq!(
        page,
        "help page:\n    Define a variable with the let keyword eg. let hallo = 2\n    Evaluate a term, space separated eg. ( 1 + hallo ) * 2\n    Quit the program with command q || quit\n    Print out all variables with command vars\n    Print this help page"
    );
}
