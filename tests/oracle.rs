use xprompt::oracle::{completion_request, parse_completion};

#[test]
fn empty_prompt_needs_no_request() {
    assert_eq!(completion_request(""), None);
}

#[test]
fn request_line_guards_the_command() {
    assert_eq!(completion_request("gi"), Some("false && gi\t\t\n".to_string()));
    assert_eq!(completion_request("ls -"), Some("false && ls -\t\t\n".to_string()));
}

#[test]
fn parses_text_after_marker_up_to_newline() {
    // The field runs from the marker to the newline, then is trimmed.
    let out = "...false && gi\t\tgit  grep\n$ ";
    assert_eq!(parse_completion(out), Some("gi\t\tgit  grep".to_string()));
}

#[test]
fn parse_trims_surrounding_whitespace() {
    assert_eq!(parse_completion("$ false &&   git  \nmore"), Some("git".to_string()));
}

#[test]
fn parse_uses_first_marker_and_first_newline() {
    let out = "a false && one\nfalse && two\n";
    assert_eq!(parse_completion(out), Some("one".to_string()));
}

#[test]
fn parse_without_marker_is_none() {
    assert_eq!(parse_completion("bash: no job control\n$ "), None);
    assert_eq!(parse_completion(""), None);
    assert_eq!(parse_completion("false &\n"), None);
}

#[test]
fn parse_without_newline_after_marker_is_none() {
    assert_eq!(parse_completion("x\nfalse && gi"), None);
}

#[test]
fn parse_empty_field() {
    assert_eq!(parse_completion("false &&\n"), Some(String::new()));
}
