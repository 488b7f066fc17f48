use std::cell::RefCell;
use std::rc::Rc;

use uv_wasm::error::ErrorKind;
use uv_wasm::io::{
    clear_sink, color_choice, is_captured, set_sink, stderr, stdout, Capture, ColorChoice, Sink,
    Stream,
};
use uv_wasm::pep517::{clear_runner, is_attached, set_runner, HookError, HookOutput, RunnerSlot};
use uv_wasm::process::ExitStatus;
use uv_wasm::prompt::{answer, confirm, reset, PromptError, PromptPolicy};
use uv_wasm::stdin::{is_set, stdin, StdinState};
use uv_wasm::table::AnswerTable;
use uv_wasm::term::{columns, current, is_tty, resize, rows, TermConfig, FALLBACK_HEIGHT, FALLBACK_WIDTH};
use uv_wasm::time::Elapsed;

#[test]
fn defaults_to_a_non_terminal_of_conventional_size() {
    let mut term = TermConfig::tty(120, 40);
    uv_wasm::term::reset(&mut term);
    assert!(!is_tty(&term));
    assert_eq!(columns(&term), FALLBACK_WIDTH);
    assert_eq!(rows(&term), FALLBACK_HEIGHT);
}

#[test]
fn a_terminal_reports_its_size() {
    let mut term = TermConfig::default();
    uv_wasm::term::set(&mut term, TermConfig::tty(120, 40));
    assert!(is_tty(&term));
    assert_eq!(columns(&term), 120);
    assert_eq!(rows(&term), 40);
}

#[test]
fn a_terminal_cannot_be_zero_sized() {
    let mut term = TermConfig::default();
    uv_wasm::term::set(&mut term, TermConfig::tty(0, 0));
    assert_eq!(columns(&term), 1);
    assert_eq!(rows(&term), 1);
}

#[test]
fn resizing_keeps_the_terminal_flag() {
    let mut term = TermConfig::default();
    uv_wasm::term::set(&mut term, TermConfig::tty(80, 24));
    resize(&mut term, 200, 50);
    assert_eq!(current(&term), TermConfig { is_tty: true, columns: 200, rows: 50 });
}

#[test]
fn resizing_clamps_to_a_usable_minimum() {
    let mut term = TermConfig::default();
    uv_wasm::term::set(&mut term, TermConfig::tty(80, 24));
    resize(&mut term, 0, 0);
    assert_eq!(columns(&term), 1);
}

fn read_all(state: &mut StdinState) -> String {
    let mut text = String::new();
    stdin().read_to_string(state, &mut text).unwrap();
    text
}

#[test]
fn an_installed_buffer_is_read_verbatim() {
    let mut state = StdinState::new();
    uv_wasm::stdin::set(&mut state, b"anyio\nidna\n".to_vec());
    assert_eq!(read_all(&mut state), "anyio\nidna\n");
}

#[test]
fn a_second_read_sees_end_of_input() {
    let mut state = StdinState::new();
    uv_wasm::stdin::set(&mut state, b"anyio\n".to_vec());
    assert_eq!(read_all(&mut state), "anyio\n");
    assert_eq!(read_all(&mut state), "");
}

#[test]
fn read_line_stops_at_the_newline() {
    let mut state = StdinState::new();
    uv_wasm::stdin::set(&mut state, b"first\nsecond\n".to_vec());
    let mut line = String::new();
    stdin().read_line(&mut state, &mut line).unwrap();
    assert_eq!(line, "first\n");
    assert_eq!(read_all(&mut state), "second\n");
}

#[test]
fn read_to_end_yields_the_raw_bytes() {
    let mut state = StdinState::new();
    uv_wasm::stdin::set(&mut state, vec![0x00, 0xff, 0x10]);
    let mut bytes = Vec::new();
    stdin().read_to_end(&mut state, &mut bytes).unwrap();
    assert_eq!(bytes, vec![0x00, 0xff, 0x10]);
}

#[test]
fn invalid_utf8_is_rejected_as_a_string() {
    let mut state = StdinState::new();
    uv_wasm::stdin::set(&mut state, vec![0xff, 0xfe]);
    let mut text = String::new();
    let error = stdin().read_to_string(&mut state, &mut text).unwrap_err();
    assert_eq!(error.kind(), ErrorKind::InvalidData);
}

#[test]
fn an_empty_buffer_is_not_the_absence_of_one() {
    let mut state = StdinState::new();
    uv_wasm::stdin::reset(&mut state);
    assert!(!is_set(&state));
    uv_wasm::stdin::set(&mut state, Vec::new());
    assert!(is_set(&state));
    assert_eq!(read_all(&mut state), "");
    uv_wasm::stdin::reset(&mut state);
    assert!(!is_set(&state));
}

#[test]
fn reading_without_installed_input_fails() {
    let mut state = StdinState::new();
    let mut text = String::new();
    let error = stdin().read_to_string(&mut state, &mut text).unwrap_err();
    assert!(error.message().contains("standard input"));
}

fn scripted(pairs: &[(&str, &str)]) -> PromptPolicy {
    let owned: Vec<(String, String)> =
        pairs.iter().map(|(q, a)| ((*q).to_owned(), (*a).to_owned())).collect();
    PromptPolicy::Scripted(AnswerTable::from_pairs(&owned))
}

#[test]
fn refuses_by_default() {
    let mut policy = PromptPolicy::AlwaysConfirm;
    reset(&mut policy);
    assert!(matches!(confirm(&policy, "Proceed?"), Err(PromptError::Unavailable(_))));
}

#[test]
fn the_refusal_explains_the_remedy() {
    let policy = PromptPolicy::default();
    let Err(error) = confirm(&policy, "Proceed?") else {
        panic!("expected a refusal");
    };
    let text = error.message();
    assert!(text.contains("Proceed?"));
    assert!(text.contains("--yes"));
}

#[test]
fn always_confirm_accepts() {
    assert!(matches!(confirm(&PromptPolicy::AlwaysConfirm, "Proceed?"), Ok(true)));
}

#[test]
fn always_deny_declines() {
    assert!(matches!(confirm(&PromptPolicy::AlwaysDeny, "Proceed?"), Ok(false)));
}

#[test]
fn a_scripted_yes_confirms() {
    assert!(matches!(confirm(&scripted(&[("Proceed?", "y")]), "Proceed?"), Ok(true)));
}

#[test]
fn a_scripted_no_declines() {
    assert!(matches!(confirm(&scripted(&[("Proceed?", "n")]), "Proceed?"), Ok(false)));
}

#[test]
fn scripted_answers_ignore_case_and_padding() {
    assert!(matches!(confirm(&scripted(&[("Proceed?", "  YES ")]), "Proceed?"), Ok(true)));
}

#[test]
fn an_unscripted_question_is_refused() {
    assert!(matches!(
        confirm(&scripted(&[("Proceed?", "y")]), "Something else?"),
        Err(PromptError::Unavailable(_))
    ));
}

#[test]
fn scripted_free_text_is_returned_verbatim() {
    assert_eq!(answer(&scripted(&[("Name?", "rich")]), "Name?").ok(), Some("rich".to_owned()));
}

#[test]
fn free_text_needs_a_script() {
    assert!(matches!(answer(&PromptPolicy::AlwaysConfirm, "Name?"), Err(PromptError::Unavailable(_))));
}

#[test]
fn a_later_script_line_replaces_an_earlier_one() {
    let policy = scripted(&[("Proceed?", "y"), ("Proceed?", "no")]);
    assert!(matches!(confirm(&policy, "Proceed?"), Ok(false)));
}

#[test]
fn a_cleared_runner_is_not_attached() {
    let mut slot: RunnerSlot<&str> = RunnerSlot::new();
    set_runner(&mut slot, "echo");
    assert!(is_attached(&slot));
    clear_runner(&mut slot);
    assert!(!is_attached(&slot));
}

#[test]
fn refusing_to_build_explains_the_remedy() {
    let slot: RunnerSlot<&str> = RunnerSlot::new();
    let request = uv_wasm::pep517::HookRequest {
        venv: "/build/.venv".to_owned(),
        script: "print('hello')".to_owned(),
        source_tree: "/src".to_owned(),
        env: vec![("PYTHONHASHSEED".to_owned(), "0".to_owned())],
        path: "/build/.venv/bin".to_owned(),
    };
    let Err(error) = uv_wasm::pep517::dispatch(&slot, request) else {
        panic!("expected a refusal");
    };
    assert!(matches!(error, HookError::NoRuntimeAttached));
    assert!(error.message().contains("requires a Python runtime"));
    assert!(HookError::Failed("the build backend crashed".to_owned())
        .message()
        .contains("the build backend crashed"));
}

#[test]
fn a_zero_exit_code_is_success() {
    let output = HookOutput { stdout: Vec::new(), stderr: Vec::new(), code: 0 };
    assert!(output.success());
    assert!(ExitStatus::from_code(0).success());
    assert!(!ExitStatus::from_code(2).success());
    assert_eq!(ExitStatus::from_code(-3).code(), Some(-3));
    assert_eq!(ExitStatus::from_code(-3).message(), "exit status: -3");
    assert_eq!(ExitStatus::from_code(17).message(), "exit status: 17");
}

#[test]
fn elapsed_describes_itself() {
    assert_eq!(Elapsed.message(), "the operation timed out");
}

const STYLED: &str = "\u{1b}[1m\u{1b}[33mwarning\u{1b}[39m\u{1b}[0m: disk is full\n";
const PLAIN: &str = "warning: disk is full\n";

#[derive(Debug, Default)]
struct Recorded {
    stdout: Vec<u8>,
    stderr: Vec<u8>,
}

#[derive(Debug, Clone, Default)]
struct Recorder(Rc<RefCell<Recorded>>);

impl Recorder {
    fn stdout(&self) -> String {
        String::from_utf8(self.0.borrow().stdout.clone()).unwrap()
    }

    fn stderr(&self) -> String {
        String::from_utf8(self.0.borrow().stderr.clone()).unwrap()
    }
}

impl Sink for Recorder {
    fn write(&mut self, stream: Stream, bytes: &[u8]) {
        let mut recorded = self.0.borrow_mut();
        match stream {
            Stream::Stdout => recorded.stdout.extend_from_slice(bytes),
            Stream::Stderr => recorded.stderr.extend_from_slice(bytes),
        }
    }
}

fn record(capture: &mut Capture<Recorder>) -> Recorder {
    let recorder = Recorder::default();
    set_sink(capture, recorder.clone());
    recorder
}

#[test]
fn output_is_not_captured_until_a_sink_is_installed() {
    let mut capture: Capture<Recorder> = Capture::new();
    assert!(!is_captured(&capture));
    set_sink(&mut capture, Recorder::default());
    assert!(is_captured(&capture));
    clear_sink(&mut capture);
    assert!(!is_captured(&capture));
}

#[test]
fn a_non_terminal_strips_the_escape_sequences() {
    let mut capture = Capture::new();
    let recorder = record(&mut capture);
    let choice = color_choice(ColorChoice::Auto, &TermConfig::default());
    stderr(&mut capture, STYLED, choice);
    clear_sink(&mut capture);
    assert_eq!(recorder.stderr(), PLAIN);
}

#[test]
fn a_terminal_keeps_the_escape_sequences() {
    let mut capture = Capture::new();
    let recorder = record(&mut capture);
    let choice = color_choice(ColorChoice::Auto, &TermConfig::tty(80, 24));
    stderr(&mut capture, STYLED, choice);
    clear_sink(&mut capture);
    assert_eq!(recorder.stderr(), STYLED);
}

#[test]
fn an_explicit_choice_overrides_the_terminal() {
    let mut capture = Capture::new();
    let recorder = record(&mut capture);
    let choice = color_choice(ColorChoice::Never, &TermConfig::tty(80, 24));
    stderr(&mut capture, STYLED, choice);
    clear_sink(&mut capture);
    assert_eq!(recorder.stderr(), PLAIN);
}

#[test]
fn an_explicit_choice_colors_a_non_terminal() {
    let mut capture = Capture::new();
    let recorder = record(&mut capture);
    let choice = color_choice(ColorChoice::Always, &TermConfig::default());
    stdout(&mut capture, STYLED, choice);
    clear_sink(&mut capture);
    assert_eq!(recorder.stdout(), STYLED);
}

#[test]
fn the_streams_stay_apart() {
    let mut capture = Capture::new();
    let recorder = record(&mut capture);
    stdout(&mut capture, "out", ColorChoice::Never);
    stderr(&mut capture, "err", ColorChoice::Never);
    clear_sink(&mut capture);
    assert_eq!(recorder.stdout(), "out");
    assert_eq!(recorder.stderr(), "err");
}

#[test]
fn writes_accumulate_in_order() {
    let mut capture = Capture::new();
    let recorder = record(&mut capture);
    stdout(&mut capture, "Resolved ", ColorChoice::Never);
    stdout(&mut capture, "3 packages\n", ColorChoice::Never);
    clear_sink(&mut capture);
    assert_eq!(recorder.stdout(), "Resolved 3 packages\n");
}

#[test]
fn clearing_the_sink_stops_capture() {
    let mut capture = Capture::new();
    let recorder = record(&mut capture);
    assert!(!stdout(&mut capture, "before", ColorChoice::Never));
    clear_sink(&mut capture);
    assert!(stdout(&mut capture, "after", ColorChoice::Never));
    assert_eq!(recorder.stdout(), "before");
}

#[test]
fn the_stdout_writer_sends_text_to_the_sink() {
    let mut capture: Capture<Recorder> = Capture::new();
    let recorder = record(&mut capture);
    let mut writer = uv_wasm::io::StdoutWriter;
    let (n, to_host) = writer.write(&mut capture, b"hello\n", ColorChoice::Always);
    assert_eq!(n, 6);
    assert_eq!(to_host, None);
    assert_eq!(recorder.stdout(), "hello\n");
}

#[test]
fn the_stdout_writer_hands_the_host_what_nothing_captures() {
    let mut capture: Capture<Recorder> = Capture::new();
    let mut writer = uv_wasm::io::StdoutWriter;
    let (n, to_host) = writer.write(&mut capture, b"ab\xffc", ColorChoice::Always);
    assert_eq!(n, 4);
    assert_eq!(to_host, Some("ab\u{fffd}c".to_string()));
}

#[test]
fn the_log_writer_strips_escapes_before_standard_error() {
    let mut capture: Capture<Recorder> = Capture::new();
    let recorder = record(&mut capture);
    let mut writer = uv_wasm::io::LogWriter;
    let styled = "\u{1b}[1mwarning\u{1b}[0m: disk is full\n";
    let (n, to_host) = writer.write(&mut capture, styled.as_bytes(), ColorChoice::Always);
    assert_eq!(n, styled.len());
    assert_eq!(to_host, None);
    assert_eq!(recorder.stderr(), "warning: disk is full\n");
    assert_eq!(recorder.stdout(), "");

    clear_sink(&mut capture);
    let (_, to_host) = writer.write(&mut capture, styled.as_bytes(), ColorChoice::Always);
    assert_eq!(to_host, Some("warning: disk is full\n".to_string()));
}

#[test]
fn adapting_keeps_or_strips_escapes_by_choice() {
    let styled = "\u{1b}[1mwarning\u{1b}[0m: disk is full\n";
    assert_eq!(uv_wasm::io::adapt(styled, ColorChoice::Always), styled.as_bytes().to_vec());
    assert_eq!(uv_wasm::io::adapt(styled, ColorChoice::AlwaysAnsi), styled.as_bytes().to_vec());
    assert_eq!(uv_wasm::io::adapt(styled, ColorChoice::Never), b"warning: disk is full\n".to_vec());
}

struct Reentrant {
    recorder: Recorder,
    capture: Rc<RefCell<Capture<Reentrant>>>,
}

impl Sink for Reentrant {
    fn write(&mut self, stream: Stream, bytes: &[u8]) {
        self.recorder.write(stream, bytes);
        let to_host = uv_wasm::io::write_str(
            &mut self.capture.borrow_mut(),
            Stream::Stdout,
            "nested",
            ColorChoice::Always,
        );
        assert!(!to_host);
    }
}

#[test]
fn a_sink_that_writes_while_writing_does_not_recurse() {
    let capture: Rc<RefCell<Capture<Reentrant>>> = Rc::new(RefCell::new(Capture::new()));
    let recorder = Recorder::default();
    let sink = Reentrant { recorder: recorder.clone(), capture: Rc::clone(&capture) };
    set_sink(&mut capture.borrow_mut(), sink);

    let started = uv_wasm::io::start_write(&mut capture.borrow_mut());
    assert!(!started.to_host);
    let mut sink = started.sink.expect("installed");
    let bytes = uv_wasm::io::adapt("outer", ColorChoice::Always);
    sink.write(Stream::Stdout, &bytes);
    uv_wasm::io::finish_write(&mut capture.borrow_mut(), sink, started.was_busy);

    clear_sink(&mut capture.borrow_mut());
    assert_eq!(recorder.stdout(), "outer");
    assert!(!is_captured(&capture.borrow()));
}
