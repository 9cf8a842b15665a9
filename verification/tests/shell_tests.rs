//! End-to-end tests of the shell: tokenizing, path resolution, the
//! filesystem operations, and every builtin through the dispatcher.
use termweb::dispatch::{execute_command, CommandResponse, TerminalState};
use termweb::fs::{split_parent, FileSystem};
use termweb::model::FsError;
use termweb::paths::resolve_path;
use termweb::tokenizer::{tokenize, TokenizeError};

fn run(state: &mut TerminalState, line: &str) -> CommandResponse {
    execute_command(state, line)
}

fn segs(parts: &[&str]) -> Vec<String> {
    parts.iter().map(|s| s.to_string()).collect()
}

#[test]
fn tokenize_quoted_spans() {
    let toks = tokenize("echo \"a b\" c").unwrap();
    assert_eq!(toks, vec!["echo".to_string(), "a b".to_string(), "c".to_string()]);
}

#[test]
fn tokenize_unclosed_quote_fails() {
    assert_eq!(tokenize("echo \"a"), Err(TokenizeError::UnclosedQuote));
}

#[test]
fn tokenize_single_quotes_and_empty_token() {
    let toks = tokenize("a 'b c' \"\"").unwrap();
    assert_eq!(toks, vec!["a".to_string(), "b c".to_string()]);
    let toks = tokenize("x ''y").unwrap();
    assert_eq!(toks, vec!["x".to_string(), "y".to_string()]);
}

#[test]
fn tokenize_empty_and_whitespace() {
    assert_eq!(tokenize("").unwrap(), Vec::<String>::new());
    assert_eq!(tokenize("   \t ").unwrap(), Vec::<String>::new());
}

#[test]
fn resolve_parent_of_root_is_root() {
    assert_eq!(resolve_path(&segs(&[]), ".."), segs(&[]));
}

#[test]
fn resolve_relative_with_parent() {
    assert_eq!(resolve_path(&segs(&["a", "b"]), "../c"), segs(&["a", "c"]));
}

#[test]
fn resolve_absolute_dots_and_slashes() {
    assert_eq!(resolve_path(&segs(&["a"]), "/x//./y/../z"), segs(&["x", "z"]));
    assert_eq!(resolve_path(&segs(&["a"]), "."), segs(&["a"]));
    assert_eq!(resolve_path(&segs(&["a"]), "/"), segs(&[]));
}

#[test]
fn mkdir_twice_fails_already_exists() {
    let mut st = TerminalState::new();
    let r1 = run(&mut st, "mkdir x");
    assert_eq!(r1.status, "ok");
    let r2 = run(&mut st, "mkdir x");
    assert_eq!(r2.status, "error");
    assert_eq!(r2.output, "mkdir: already exists");
    let ls = run(&mut st, "ls");
    assert_eq!(ls.output, "x/");
}

#[test]
fn touch_twice_is_noop() {
    let mut st = TerminalState::new();
    run(&mut st, "echo keep > x");
    let r2 = run(&mut st, "touch x");
    assert_eq!(r2.status, "ok");
    assert_eq!(r2.output, "");
    let cat = run(&mut st, "cat x");
    assert_eq!(cat.output, "keep");
}

#[test]
fn echo_write_and_append_round_trip() {
    let mut st = TerminalState::new();
    let w1 = run(&mut st, "echo \"hi\" > f");
    assert_eq!(w1.status, "ok");
    assert_eq!(run(&mut st, "cat f").output, "hi");
    let w2 = run(&mut st, "echo \"bye\" >> f");
    assert_eq!(w2.status, "ok");
    assert_eq!(run(&mut st, "cat f").output, "hi\nbye");
}

#[test]
fn echo_truncate_replaces_content() {
    let mut st = TerminalState::new();
    run(&mut st, "echo one > f");
    run(&mut st, "echo two > f");
    assert_eq!(run(&mut st, "cat f").output, "two");
}

#[test]
fn echo_append_to_empty_file_adds_no_newline() {
    let mut st = TerminalState::new();
    run(&mut st, "touch f");
    run(&mut st, "echo hi >> f");
    assert_eq!(run(&mut st, "cat f").output, "hi");
}

#[test]
fn ls_empty_and_mixed_directory() {
    let mut st = TerminalState::new();
    assert_eq!(run(&mut st, "ls").output, "");
    run(&mut st, "mkdir a");
    run(&mut st, "touch b");
    let ls = run(&mut st, "ls");
    assert_eq!(ls.status, "ok");
    assert_eq!(ls.output, "a/  b");
}

#[test]
fn ls_sorts_entries_lexicographically() {
    let mut st = TerminalState::new();
    run(&mut st, "touch c a b");
    assert_eq!(run(&mut st, "ls").output, "a  b  c");
}

#[test]
fn ls_on_file_prints_its_name() {
    let mut st = TerminalState::new();
    run(&mut st, "touch f");
    assert_eq!(run(&mut st, "ls f").output, "f");
}

#[test]
fn cd_to_file_fails_and_keeps_cwd() {
    let mut st = TerminalState::new();
    run(&mut st, "mkdir d");
    run(&mut st, "cd d");
    run(&mut st, "touch f");
    let r = run(&mut st, "cd f");
    assert_eq!(r.status, "error");
    assert_eq!(r.output, "Not a directory");
    assert_eq!(r.cwd, "/d");
    assert_eq!(run(&mut st, "pwd").output, "/d");
}

#[test]
fn cd_navigation_and_display() {
    let mut st = TerminalState::new();
    run(&mut st, "mkdir a");
    run(&mut st, "cd a");
    run(&mut st, "mkdir b");
    let r = run(&mut st, "cd b");
    assert_eq!(r.cwd, "/a/b");
    let up = run(&mut st, "cd ..");
    assert_eq!(up.cwd, "/a");
    let root = run(&mut st, "cd");
    assert_eq!(root.cwd, "/");
}

#[test]
fn cd_missing_path_reports_not_found() {
    let mut st = TerminalState::new();
    let r = run(&mut st, "cd nope");
    assert_eq!(r.status, "error");
    assert_eq!(r.output, "Path not found");
}

#[test]
fn cat_stops_at_first_failure_and_discards_output() {
    let mut st = TerminalState::new();
    run(&mut st, "echo content > a");
    let r = run(&mut st, "cat a b");
    assert_eq!(r.status, "error");
    assert_eq!(r.output, "cat: file not found");
}

#[test]
fn cat_joins_multiple_files_with_newlines() {
    let mut st = TerminalState::new();
    run(&mut st, "echo one > a");
    run(&mut st, "echo two > b");
    assert_eq!(run(&mut st, "cat a b").output, "one\ntwo");
}

#[test]
fn cat_on_directory_fails() {
    let mut st = TerminalState::new();
    run(&mut st, "mkdir d");
    let r = run(&mut st, "cat d");
    assert_eq!(r.status, "error");
    assert_eq!(r.output, "cat: is a directory");
}

#[test]
fn mkdir_without_parent_fails() {
    let mut st = TerminalState::new();
    let r = run(&mut st, "mkdir a/b");
    assert_eq!(r.status, "error");
    assert_eq!(r.output, "mkdir: parent not found");
    assert_eq!(run(&mut st, "ls").output, "");
}

#[test]
fn mkdir_under_file_parent_fails() {
    let mut st = TerminalState::new();
    run(&mut st, "touch f");
    let r = run(&mut st, "mkdir f/x");
    assert_eq!(r.status, "error");
    assert_eq!(r.output, "mkdir: parent is not a directory");
}

#[test]
fn mkdir_applies_arguments_until_first_failure() {
    let mut st = TerminalState::new();
    let r = run(&mut st, "mkdir a a b");
    assert_eq!(r.status, "error");
    assert_eq!(r.output, "mkdir: already exists");
    // `a` was created by the first argument and kept; `b` was never reached.
    assert_eq!(run(&mut st, "ls").output, "a/");
}

#[test]
fn mkdir_empty_path_is_invalid() {
    let mut st = TerminalState::new();
    // `.` at the root resolves to the empty segment sequence.
    let r = run(&mut st, "mkdir .");
    assert_eq!(r.status, "error");
    assert_eq!(r.output, "mkdir: invalid path");
    // a quoted empty string yields no token at all, so the operand is missing
    let r2 = run(&mut st, "mkdir \"\"");
    assert_eq!(r2.status, "error");
    assert_eq!(r2.output, "mkdir: missing operand");
}

#[test]
fn touch_on_directory_fails() {
    let mut st = TerminalState::new();
    run(&mut st, "mkdir d");
    let r = run(&mut st, "touch d");
    assert_eq!(r.status, "error");
    assert_eq!(r.output, "touch: is a directory");
}

#[test]
fn missing_operands_are_reported() {
    let mut st = TerminalState::new();
    assert_eq!(run(&mut st, "mkdir").output, "mkdir: missing operand");
    assert_eq!(run(&mut st, "touch").output, "touch: missing operand");
    assert_eq!(run(&mut st, "cat").output, "cat: missing operand");
    assert_eq!(run(&mut st, "echo >").output, "echo: missing file operand");
}

#[test]
fn echo_without_redirect_joins_arguments() {
    let mut st = TerminalState::new();
    let r = run(&mut st, "echo a \"b  c\" d");
    assert_eq!(r.status, "ok");
    assert_eq!(r.output, "a b  c d");
}

#[test]
fn echo_redirect_to_directory_fails() {
    let mut st = TerminalState::new();
    run(&mut st, "mkdir d");
    let r = run(&mut st, "echo x > d");
    assert_eq!(r.status, "error");
    assert_eq!(r.output, "echo: target is a directory");
}

#[test]
fn unknown_command_and_empty_input() {
    let mut st = TerminalState::new();
    let r = run(&mut st, "frobnicate now");
    assert_eq!(r.status, "error");
    assert_eq!(r.output, "Unknown command: frobnicate");
    let e = run(&mut st, "");
    assert_eq!(e.status, "ok");
    assert_eq!(e.output, "");
    let w = run(&mut st, "   ");
    assert_eq!(w.status, "ok");
    assert_eq!(w.output, "");
}

#[test]
fn unclosed_quote_is_a_command_error() {
    let mut st = TerminalState::new();
    let r = run(&mut st, "echo \"oops");
    assert_eq!(r.status, "error");
    assert_eq!(r.output, "Unclosed quote");
}

#[test]
fn clear_sets_flag_without_output() {
    let mut st = TerminalState::new();
    let r = run(&mut st, "clear");
    assert_eq!(r.status, "ok");
    assert_eq!(r.output, "");
    assert!(r.clear);
    assert!(!run(&mut st, "pwd").clear);
}

#[test]
fn help_lists_all_builtins() {
    let mut st = TerminalState::new();
    let r = run(&mut st, "help");
    assert_eq!(r.status, "ok");
    assert_eq!(
        r.output,
        "Available commands:\n  pwd\n  ls [path]\n  cd [path]\n  mkdir <name>...\n  touch <name>...\n  cat <file>...\n  echo <text> [> file | >> file]\n  clear\n  help"
    );
}

#[test]
fn filesystem_operations_directly() {
    let mut fs = FileSystem::new();
    assert_eq!(fs.mkdir(&segs(&["a"])), Ok(()));
    assert_eq!(fs.mkdir(&segs(&["a", "b"])), Ok(()));
    assert_eq!(fs.mkdir(&segs(&["a", "b"])), Err(FsError::AlreadyExists));
    assert_eq!(fs.mkdir(&segs(&[])), Err(FsError::InvalidPath));
    assert_eq!(fs.touch(&segs(&["a", "b", "f"])), Ok(()));
    assert_eq!(fs.touch(&segs(&["a", "b", "f"])), Ok(()));
    assert_eq!(fs.is_dir(&segs(&["a", "b"])), Ok(true));
    assert_eq!(fs.is_dir(&segs(&["a", "b", "f"])), Ok(false));
    assert_eq!(fs.is_dir(&segs(&["nope"])), Err(FsError::NotFound));
    assert_eq!(fs.write_file(&segs(&["a", "b", "f"]), "x".to_string(), false), Ok(()));
    assert_eq!(fs.read_file(&segs(&["a", "b", "f"])), Ok("x".to_string()));
    assert_eq!(fs.write_file(&segs(&["a", "b", "f"]), "y".to_string(), true), Ok(()));
    assert_eq!(fs.read_file(&segs(&["a", "b", "f"])), Ok("x\ny".to_string()));
    assert_eq!(fs.read_file(&segs(&["a"])), Err(FsError::IsADirectory));
    assert_eq!(fs.list(&segs(&["a"])), Ok("b/".to_string()));
    assert!(fs.get_node(&segs(&["a", "b"])).is_some());
    assert!(fs.get_node(&segs(&["a", "z"])).is_none());
}

#[test]
fn split_parent_divides_path() {
    let (parent, name) = split_parent(&segs(&["a", "b", "c"]));
    assert_eq!(parent, segs(&["a", "b"]));
    assert_eq!(name, "c".to_string());
    let (parent, name) = split_parent(&segs(&["solo"]));
    assert_eq!(parent, segs(&[]));
    assert_eq!(name, "solo".to_string());
}

#[test]
fn response_reports_cwd_after_mutation() {
    let mut st = TerminalState::new();
    run(&mut st, "mkdir d");
    let r = run(&mut st, "cd d");
    assert_eq!(r.cwd, "/d");
    let m = run(&mut st, "mkdir inner");
    assert_eq!(m.cwd, "/d");
    assert_eq!(run(&mut st, "ls").output, "inner/");
}
