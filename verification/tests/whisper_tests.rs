use subforge::whisper::parse_progress_line;

#[test]
fn parse_progress_basic() {
    assert_eq!(parse_progress_line("whisper_print_progress_callback: progress = 50%"), Some(50));
}

#[test]
fn parse_progress_with_spaces() {
    assert_eq!(parse_progress_line("foo bar: progress =   7%"), Some(7));
}

#[test]
fn parse_progress_ignores_non_progress_lines() {
    assert_eq!(parse_progress_line("whisper: loading model"), None);
}

#[test]
fn parse_progress_clamps_to_100() {
    assert_eq!(parse_progress_line("progress = 123%"), Some(100));
}
