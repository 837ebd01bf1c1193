use fairyquery::command::Command;
use fairyquery::history::InputHistory;
use fairyquery::text::trim;

#[test]
fn lines_are_kept_trimmed() {
    let mut history = InputHistory::new();
    let line = history.push();
    assert_eq!(line.as_str(), "");
    line.push_str("  SELECT 1;\n");
    assert_eq!(history.get(), "SELECT 1;");
    let line = history.push();
    assert!(line.is_empty());
    line.push_str("\\q\r\n");
    assert_eq!(history.get(), "\\q");
}

#[test]
fn trimming() {
    assert_eq!(trim("  a b \t\n"), "a b");
    assert_eq!(trim("\u{3000}x\u{2029}"), "x");
    assert_eq!(trim("   "), "");
    assert_eq!(trim(""), "");
    assert_eq!(trim(&trim(" y ")), "y");
}

#[test]
fn commands() {
    assert_eq!(Command::from("  \\q \n"), Command::Exit);
    assert_eq!(Command::from("\\dt"), Command::ShowTables);
    assert_eq!(Command::from("\\dd"), Command::ShowDatabases);
    assert_eq!(Command::from(" \\x "), Command::Unknown("\\x".to_string()));
}
