use fairyquery::shell::{shell_step, ShellAction};

#[test]
fn empty_line_is_skipped() {
    assert_eq!(shell_step(""), ShellAction::Skip);
}

#[test]
fn quit_command_exits() {
    assert_eq!(shell_step("\\q"), ShellAction::Exit);
}

#[test]
fn anything_else_is_reported() {
    assert_eq!(shell_step("\\q "), ShellAction::Report);
    assert_eq!(shell_step(" "), ShellAction::Report);
    assert_eq!(shell_step("SELECT 1"), ShellAction::Report);
}
