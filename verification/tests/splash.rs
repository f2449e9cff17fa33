use dsh_desktop::splash::{failure_log_line, failure_script, progress_script};

#[test]
fn progress_lines_travel_as_json_strings() {
    assert_eq!(
        progress_script("npm http fetch GET 200 \"x\"").as_deref(),
        Some(r#"window.dshProgress && window.dshProgress("npm http fetch GET 200 \"x\"")"#)
    );
}

#[test]
fn failures_cannot_break_out_of_the_script() {
    assert_eq!(
        failure_script("line one\nline \"two\"\\"),
        r#"window.dshShowError && window.dshShowError("line one\nline \"two\"\\")"#
    );
    assert_eq!(failure_log_line("boom"), "dsh-desktop: boom");
}

#[test]
fn control_characters_are_escaped_as_hex() {
    assert_eq!(
        failure_script("a\u{1}\u{1f}\t\r"),
        r#"window.dshShowError && window.dshShowError("a\u0001\u001f\t\r")"#
    );
}
