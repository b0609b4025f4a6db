use rust_calculator::repl::{read_command, ReplCommand};

#[test]
fn blank_lines_are_skipped() {
    assert!(matches!(read_command(""), ReplCommand::Skip));
    assert!(matches!(read_command("  \t\n"), ReplCommand::Skip));
}

#[test]
fn quit_and_exit_stop_the_loop() {
    assert!(matches!(read_command("quit\n"), ReplCommand::Quit));
    assert!(matches!(read_command("  exit  "), ReplCommand::Quit));
    assert!(matches!(read_command("quit now"), ReplCommand::Evaluate("quit now")));
}

#[test]
fn other_lines_are_evaluated_trimmed() {
    assert!(matches!(read_command("  2 + 3\n"), ReplCommand::Evaluate("2 + 3")));
    assert!(matches!(read_command("QUIT"), ReplCommand::Evaluate("QUIT")));
}
