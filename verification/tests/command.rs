use divechain::command::split_command;

#[test]
fn a_command_line_splits_into_program_and_arguments() {
    assert_eq!(
        split_command(vec!["env", "-i", "FOO=1"]),
        Some(("env", vec!["-i", "FOO=1"]))
    );
    assert_eq!(split_command(vec!["true"]), Some(("true", vec![])));
}

#[test]
fn an_empty_command_line_names_no_program() {
    assert_eq!(split_command(Vec::<String>::new()), None);
}
