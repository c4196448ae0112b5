use river_shell::parser::is_valid_command;
use river_shell::parser::is_valid_command2;
use river_shell::parser::parse_command;
use river_shell::parser::validate_and_split;
use river_shell::parser::ParseError;

#[test]
fn command_validation_works() {
    let command = "sudo cd | cat |\u{c2}\u{a0}grep word";
    assert_eq!(true, is_valid_command(command));

    let command = "ls | cat";
    assert_eq!(true, is_valid_command(command)); // returns true

    let command = " | cat";
    assert_eq!(false, is_valid_command(command)); // returns false because no input was piped into cat

    let command = "ls | cat | | grep word";
    assert_eq!(false, is_valid_command(command)); // returns false as there is a pipe that is not valid

    let command = "ls |";
    assert_eq!(false, is_valid_command(command)); // returns false as there should not be a pipe there
}

#[test]
fn no_pipe_yields_single_trimmed_stage() {
    assert_eq!(Ok("hello world"), parse_command("  hello world \t"));
    let stages = validate_and_split("  hello world \t").unwrap();
    assert_eq!(stages, vec!["hello world".to_string()]);
}

#[test]
fn piped_line_yields_stage_per_segment() {
    let stages = validate_and_split("ls -l | grep foo|wc").unwrap();
    assert_eq!(
        stages,
        vec!["ls -l".to_string(), "grep foo".to_string(), "wc".to_string()]
    );
}

#[test]
fn malformed_pipes_are_rejected() {
    assert_eq!(Err(ParseError::InvalidCommandStructure), parse_command("| cat"));
    assert_eq!(Err(ParseError::InvalidCommandStructure), parse_command("ls |"));
    assert_eq!(
        Err(ParseError::InvalidCommandStructure),
        parse_command("ls | cat | | grep x")
    );
}

#[test]
fn leading_pipe_is_invalid_structure() {
    assert_eq!(
        Err(ParseError::InvalidCommandStructure),
        validate_and_split(" | cat")
    );
    assert_eq!(
        Err(ParseError::InvalidCommandStructure),
        validate_and_split("ls |")
    );
    assert_eq!(
        Err(ParseError::InvalidCommandStructure),
        validate_and_split("ls | cat | | grep x")
    );
}

#[test]
fn empty_line_is_single_empty_stage() {
    assert_eq!(Ok(""), parse_command(""));
    assert_eq!(validate_and_split("").unwrap(), vec![String::new()]);
    assert_eq!(validate_and_split("   ").unwrap(), vec![String::new()]);
}

#[test]
fn draft_validator_recognises_redirection() {
    assert!(is_valid_command2("ls"));
    assert!(is_valid_command2("ls | cat"));
    assert!(!is_valid_command2("ls | >"));
    assert!(!is_valid_command2("> | cat"));
    assert!(is_valid_command2(" | cat"));
}
