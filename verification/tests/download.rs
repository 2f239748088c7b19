use squid::download::{
    choose_strategy, Error, IoErrorKind, Message, Options, RunAction, RunEvent, Strategy, Task,
};

const GOOGLE_LOGO_URL: &str =
    "https://www.google.nl/images/branding/googlelogo/2x/googlelogo_color_272x92dp.png";

/// Runs the initialization of a task on recorded answers of a server.
fn initialize(
    target_url: &str,
    options: &Options,
    content_length: Option<&[u8]>,
    content_disposition: Option<&[u8]>,
    status: u16,
    directory_found: bool,
) -> Result<Task, Error> {
    let mut task = Task::new(target_url, options)?;
    task.accept_head_response(
        content_length.map(|line| vec![line.to_vec()]),
        content_disposition.map(|line| vec![line.to_vec()]),
    )?;
    task.accept_probe_response(status);
    task.accept_output_directory(directory_found, directory_found)?;
    Ok(task)
}

#[test]
fn new_with_invalid_output_directory() {
    let options = Options { output_directory: "!@#$".into(), ..Default::default() };
    let result = initialize(GOOGLE_LOGO_URL, &options, Some(b"13504"), None, 206, false);

    if let Err(Error::Io { .. }) = result {
    } else {
        panic!("Expected an output-related error, got '{:?}' instead.", result)
    }
}

#[test]
fn new() {
    let options = Options {
        output_directory: "./Downloads".into(),
        output_file_name: "output.png".into(),
        ..Default::default()
    };
    let task = initialize(GOOGLE_LOGO_URL, &options, Some(b"13504"), None, 206, true).unwrap();

    assert_eq!(&options, task.options());

    assert_eq!(GOOGLE_LOGO_URL, task.target_url());
    assert!(task.target_content_length() > 0);
    assert_eq!("output.png", task.output_file_name());
    assert_eq!("./Downloads/output.png", task.output_file_path());
}

#[test]
fn default_download_options() {
    let options = Options::default();
    assert_eq!(options.thread_count, 4);
    assert_eq!(options.chunk_size, 5000);
    assert_eq!(options.output_directory, "./");
    assert_eq!(options.output_file_name, "");
}

#[test]
fn default_program_options_are_verbose() {
    assert!(squid::program::Options::default().be_verbose);
}

#[test]
fn new_rejects_zero_threads_before_zero_chunk_size() {
    let options = Options { thread_count: 0, chunk_size: 0, ..Default::default() };
    assert_eq!(
        Task::new(GOOGLE_LOGO_URL, &options).unwrap_err(),
        Error::InvalidOption("Thread must be at least one.".to_string())
    );
}

#[test]
fn new_rejects_zero_chunk_size() {
    let options = Options { chunk_size: 0, ..Default::default() };
    assert_eq!(
        Task::new(GOOGLE_LOGO_URL, &options).unwrap_err(),
        Error::InvalidOption("Chunk size must be at least one.".to_string())
    );
}

#[test]
fn new_task_is_not_initialized() {
    let task = Task::new("http://example.com/a", &Options::default()).unwrap();
    assert!(!task.is_initialized());
    assert_eq!(task.output_file_name(), "untitled");
    assert_eq!(task.target_file_name(), None);
}

#[test]
fn missing_content_length_is_reported() {
    let mut task = Task::new("http://example.com/a", &Options::default()).unwrap();
    assert_eq!(
        task.accept_head_response(None, None).unwrap_err(),
        Error::MissingResponseHeader("Content-Length".to_string())
    );
}

#[test]
fn unreadable_content_length_is_reported_missing() {
    let mut task = Task::new("http://example.com/a", &Options::default()).unwrap();
    assert_eq!(
        task.accept_head_response(Some(vec![b"34v95".to_vec()]), None).unwrap_err(),
        Error::MissingResponseHeader("Content-Length".to_string())
    );
}

#[test]
fn empty_target_is_reported_with_its_url() {
    let mut task = Task::new("http://example.com/a", &Options::default()).unwrap();
    assert_eq!(
        task.accept_head_response(Some(vec![b"0".to_vec()]), None).unwrap_err(),
        Error::EmptyTarget("http://example.com/a".to_string())
    );
    assert_eq!(task.target_content_length(), 0);
}

#[test]
fn content_length_lines_must_agree() {
    let mut task = Task::new("http://example.com/a", &Options::default()).unwrap();
    task.accept_head_response(Some(vec![b"5".to_vec(), b"5".to_vec()]), None).unwrap();
    assert_eq!(task.target_content_length(), 5);

    let mut task = Task::new("http://example.com/a", &Options::default()).unwrap();
    assert_eq!(
        task.accept_head_response(Some(vec![b"5".to_vec(), b"6".to_vec(), b"5".to_vec()]), None)
            .unwrap_err(),
        Error::MissingResponseHeader("Content-Length".to_string())
    );
}

#[test]
fn content_length_reads_like_u64_from_str() {
    let mut task = Task::new("http://example.com/a", &Options::default()).unwrap();
    task.accept_head_response(Some(vec![b"+42".to_vec()]), None).unwrap();
    assert_eq!(task.target_content_length(), 42);

    for line in [&b"18446744073709551616"[..], b"-1", b" 42", b"+", b""] {
        let mut task = Task::new("http://example.com/a", &Options::default()).unwrap();
        assert_eq!(
            task.accept_head_response(Some(vec![line.to_vec()]), None).unwrap_err(),
            Error::MissingResponseHeader("Content-Length".to_string())
        );
    }

    let mut task = Task::new("http://example.com/a", &Options::default()).unwrap();
    task.accept_head_response(Some(vec![b"18446744073709551615".to_vec()]), None).unwrap();
    assert_eq!(task.target_content_length(), u64::MAX);
}

#[test]
fn content_length_is_read_from_the_header() {
    let mut task = Task::new("http://example.com/a", &Options::default()).unwrap();
    task.accept_head_response(Some(vec![b"3495".to_vec()]), None).unwrap();
    assert_eq!(task.target_content_length(), 3495);
}

#[test]
fn server_file_name_is_used_when_options_name_none() {
    let task = initialize(
        "http://example.com/a",
        &Options::default(),
        Some(b"100"),
        Some(b"attachment; filename=\"report.pdf\""),
        200,
        true,
    )
    .unwrap();
    assert_eq!(task.target_file_name(), Some("report.pdf"));
    assert_eq!(task.output_file_name(), "report.pdf");
    assert_eq!(task.output_file_path(), "./report.pdf");
    assert!(!task.target_supports_partial_content());
}

#[test]
fn first_file_name_parameter_wins() {
    let task = initialize(
        "http://example.com/a",
        &Options::default(),
        Some(b"100"),
        Some(b"attachment; size=3; filename=first.txt; filename=second.txt"),
        206,
        true,
    )
    .unwrap();
    assert_eq!(task.target_file_name(), Some("first.txt"));
    assert!(task.target_supports_partial_content());
}

#[test]
fn options_file_name_wins_over_server_name() {
    let options = Options { output_file_name: "mine.bin".into(), ..Default::default() };
    let task = initialize(
        "http://example.com/a",
        &options,
        Some(b"100"),
        Some(b"attachment; filename=theirs.bin"),
        206,
        true,
    )
    .unwrap();
    assert_eq!(task.target_file_name(), Some("theirs.bin"));
    assert_eq!(task.output_file_name(), "mine.bin");
}

#[test]
fn file_name_in_invalid_utf8_is_dropped() {
    let task = initialize(
        "http://example.com/a",
        &Options::default(),
        Some(b"100"),
        Some(b"attachment; filename*=iso-8859-1''%A9%20Copyright.txt"),
        206,
        true,
    )
    .unwrap();
    assert_eq!(task.target_file_name(), None);
    assert_eq!(task.output_file_name(), "untitled");
}

#[test]
fn empty_server_file_name_falls_back_to_untitled() {
    let task = initialize(
        "http://example.com/a",
        &Options::default(),
        Some(b"100"),
        Some(b"attachment; filename=\"\""),
        206,
        true,
    )
    .unwrap();
    assert_eq!(task.target_file_name(), Some(""));
    assert_eq!(task.output_file_name(), "untitled");
}

#[test]
fn output_path_keeps_a_trailing_slash() {
    let options = Options { output_directory: "/tmp/".into(), ..Default::default() };
    let task = initialize("http://example.com/a", &options, Some(b"5"), None, 206, true).unwrap();
    assert_eq!(task.output_file_path(), "/tmp/untitled");
}

#[test]
fn missing_output_directory_message() {
    let result = initialize("http://example.com/a", &Options::default(), Some(b"5"), None, 206, false);
    assert_eq!(
        result.unwrap_err(),
        Error::Io {
            kind: IoErrorKind::NotFound,
            description: "The specified path is either not a directory or does not exist."
                .to_string(),
        }
    );
}

#[test]
fn probe_asks_for_the_first_ten_bytes() {
    assert_eq!(Task::partial_content_probe_range(), (0, 9));
}

#[test]
fn strategy_choice() {
    assert_eq!(choose_strategy(100, 100, true, 4), Strategy::SingleChunk);
    assert_eq!(choose_strategy(101, 100, false, 4), Strategy::SingleChunk);
    assert_eq!(choose_strategy(101, 100, true, 1), Strategy::SequentialMultiChunk);
    assert_eq!(choose_strategy(101, 100, true, 0), Strategy::SequentialMultiChunk);
    assert_eq!(choose_strategy(101, 100, true, 2), Strategy::ConcurrentMultiChunk);
}

#[test]
fn download_plan_of_a_small_target_is_one_chunk() {
    let options = Options { chunk_size: 1, ..Default::default() };
    let task = initialize("http://example.com/a", &options, Some(b"1000"), None, 206, true).unwrap();
    assert_eq!(task.chunk_byte_count(), 1000);
    let (strategy, plan) = task.download_plan();
    assert_eq!(strategy, Strategy::SingleChunk);
    assert_eq!(plan.chunk_count(), 1);
    assert_eq!(plan.chunk_byte_count(), 1000);
}

#[test]
fn download_plan_without_partial_content_is_one_chunk() {
    let options = Options { chunk_size: 1, ..Default::default() };
    let task = initialize("http://example.com/a", &options, Some(b"2500"), None, 200, true).unwrap();
    let (strategy, plan) = task.download_plan();
    assert_eq!(strategy, Strategy::SingleChunk);
    assert_eq!(plan.chunk_byte_count(), 2500);
    assert_eq!(plan.chunk_count(), 1);
}

#[test]
fn download_plan_in_chunks() {
    let options = Options { chunk_size: 1, thread_count: 1, ..Default::default() };
    let task = initialize("http://example.com/a", &options, Some(b"2500"), None, 206, true).unwrap();
    let (strategy, plan) = task.download_plan();
    assert_eq!(strategy, Strategy::SequentialMultiChunk);
    assert_eq!(plan.chunk_byte_count(), 1000);
    assert_eq!(plan.content_byte_count(), 2500);
    assert_eq!(plan.chunk_count(), 3);

    let options = Options { chunk_size: 1, thread_count: 3, ..Default::default() };
    let task = initialize("http://example.com/a", &options, Some(b"2500"), None, 206, true).unwrap();
    assert_eq!(task.download_plan().0, Strategy::ConcurrentMultiChunk);
}

#[test]
fn run_steps_report_in_order() {
    let options = Options { chunk_size: 1, thread_count: 1, ..Default::default() };
    let task = initialize("http://example.com/a", &options, Some(b"2500"), None, 206, true).unwrap();

    let actions = task.run_step(RunEvent::Start);
    assert_eq!(actions.len(), 2);
    assert!(matches!(&actions[0], RunAction::Report(Message::TaskStarted)));
    assert!(matches!(&actions[1], RunAction::CreateOutputFile));

    let actions = task.run_step(RunEvent::OutputFileCreated(Ok(())));
    assert_eq!(actions.len(), 2);
    assert!(matches!(
        &actions[0],
        RunAction::Report(Message::ChosenStrategy(Strategy::SequentialMultiChunk))
    ));
    match &actions[1] {
        RunAction::Download(strategy, plan) => {
            assert_eq!(*strategy, Strategy::SequentialMultiChunk);
            assert_eq!(plan.chunk_count(), 3);
        }
        _ => panic!("expected a download"),
    }

    let actions = task.run_step(RunEvent::Downloaded(Ok(())));
    assert_eq!(actions.len(), 2);
    assert!(matches!(&actions[0], RunAction::Report(Message::TaskEnded)));
    assert!(matches!(&actions[1], RunAction::Finish(Ok(()))));
}

#[test]
fn run_steps_stop_on_failure() {
    let task = initialize("http://example.com/a", &Options::default(), Some(b"10"), None, 206, true)
        .unwrap();
    let failure = Error::Io { kind: IoErrorKind::PermissionDenied, description: "denied".to_string() };
    let actions = task.run_step(RunEvent::OutputFileCreated(Err(failure.clone())));
    assert_eq!(actions.len(), 1);
    assert!(matches!(&actions[0], RunAction::Finish(Err(e)) if *e == failure));

    let actions = task.run_step(RunEvent::Downloaded(Err(Error::Internal)));
    assert_eq!(actions.len(), 1);
    assert!(matches!(&actions[0], RunAction::Finish(Err(Error::Internal))));
}

#[test]
fn run_start_and_file_failure_need_no_chunk_in_bytes() {
    let options = Options { chunk_size: u64::MAX, ..Default::default() };
    let task = initialize("http://example.com/a", &options, Some(b"10"), None, 206, true).unwrap();
    let actions = task.run_step(RunEvent::Start);
    assert!(matches!(&actions[0], RunAction::Report(Message::TaskStarted)));
    let failure = Error::Io { kind: IoErrorKind::NotFound, description: "gone".to_string() };
    let actions = task.run_step(RunEvent::OutputFileCreated(Err(failure.clone())));
    assert_eq!(actions.len(), 1);
    assert!(matches!(&actions[0], RunAction::Finish(Err(e)) if *e == failure));
}

#[test]
fn initialized_task_reports_its_guarantees() {
    let task = initialize("http://example.com/a", &Options::default(), Some(b"10"), None, 206, true)
        .unwrap();
    assert!(task.is_initialized());
    assert!(task.target_content_length() > 0);
    assert!(task.options().thread_count > 0 && task.options().chunk_size > 0);
}
