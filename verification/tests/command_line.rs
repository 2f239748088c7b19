use squid::command_line::{parse_arguments, Arguments, ParseError};

#[test]
fn unparsed_arguments_hold_the_defaults() {
    let arguments = Arguments::unparsed();
    assert_eq!(arguments.target_url, "");
    assert!(arguments.program_options.be_verbose);
    assert_eq!(arguments.download_options, squid::download::Options::default());
}

#[test]
fn parsed_arguments_are_kept() {
    let mut arguments = Arguments::unparsed();
    arguments.target_url = "https://example.com/".to_string();
    arguments.download_options.thread_count = 8;
    assert_eq!(parse_arguments(arguments.clone(), Ok(())), Ok(arguments));
}

#[test]
fn exit_codes_become_parse_errors() {
    assert_eq!(parse_arguments(Arguments::unparsed(), Err(0)), Err(ParseError::OnlyHelpRequested));
    assert_eq!(parse_arguments(Arguments::unparsed(), Err(2)), Err(ParseError::InvalidArguments));
    assert_eq!(parse_arguments(Arguments::unparsed(), Err(1)), Err(ParseError::Unknown));
    assert_eq!(parse_arguments(Arguments::unparsed(), Err(-1)), Err(ParseError::Unknown));
}
