use minishell::parser::parse;
use minishell::parser::Scanner;

#[test]
fn empty_line_gives_empty_name_and_no_args() {
    let (cmd, args) = parse("");
    assert_eq!(cmd, "");
    assert!(args.is_empty());
}

#[test]
fn whitespace_collapses_between_words() {
    let (cmd, args) = parse("echo  foo   bar");
    assert_eq!(cmd, "echo");
    assert_eq!(args, vec!["foo".to_string(), "bar".to_string()]);
}

#[test]
fn trailing_newline_ends_the_last_word() {
    let (cmd, args) = parse("echo hello\n");
    assert_eq!(cmd, "echo");
    assert_eq!(args, vec!["hello".to_string()]);
}

#[test]
fn trailing_separators_emit_no_empty_word() {
    let (cmd, args) = parse("echo foo \n");
    assert_eq!(cmd, "echo");
    assert_eq!(args, vec!["foo".to_string()]);
    let (cmd, args) = parse("a  ");
    assert_eq!(cmd, "a");
    assert!(args.is_empty());
}

#[test]
fn leading_separators_are_skipped_before_the_name() {
    let (cmd, args) = parse("  x y");
    assert_eq!(cmd, "x");
    assert_eq!(args, vec!["y".to_string()]);
}

#[test]
fn blank_line_has_empty_name_and_no_args() {
    let (cmd, args) = parse("   ");
    assert_eq!(cmd, "");
    assert!(args.is_empty());
    let (cmd, args) = parse("\n");
    assert_eq!(cmd, "");
    assert!(args.is_empty());
}

#[test]
fn quoted_empty_words_are_kept_unlike_separator_runs() {
    let (cmd, args) = parse("echo '' x");
    assert_eq!(cmd, "echo");
    assert_eq!(args, vec!["".to_string(), "x".to_string()]);
}

#[test]
fn single_quotes_keep_content_verbatim() {
    let (cmd, args) = parse("'a  b'");
    assert_eq!(cmd, "a  b");
    assert!(args.is_empty());
}

#[test]
fn single_quotes_keep_backslashes() {
    let (cmd, _) = parse("'a\\b'");
    assert_eq!(cmd, "a\\b");
}

#[test]
fn double_quotes_unescape_the_four_special_characters() {
    let (cmd, _) = parse("\"a\\\"b\"");
    assert_eq!(cmd, "a\"b");
    let (cmd, _) = parse("\"a\\$b\"");
    assert_eq!(cmd, "a$b");
    let (cmd, _) = parse("\"a\\\\b\"");
    assert_eq!(cmd, "a\\b");
}

#[test]
fn double_quotes_keep_other_escapes_whole() {
    // backslash-n stays backslash-n: `n` is not in the escape set
    let (cmd, _) = parse("\"a\\nb\"");
    assert_eq!(cmd, "a\\nb");
}

#[test]
fn adjacent_quoted_segments_merge() {
    let (cmd, args) = parse("\"ab\"cd\"ef\"");
    assert_eq!(cmd, "abcdef");
    assert!(args.is_empty());
}

#[test]
fn unquoted_backslash_collapses_to_the_next_character() {
    let (cmd, args) = parse("a\\ b");
    assert_eq!(cmd, "a b");
    assert!(args.is_empty());
}

#[test]
fn unterminated_quote_closes_at_end_of_input() {
    let (cmd, args) = parse("'abc");
    assert_eq!(cmd, "abc");
    assert!(args.is_empty());
}

#[test]
fn quoted_argument_after_command() {
    let (cmd, args) = parse("echo 'one two' three");
    assert_eq!(cmd, "echo");
    assert_eq!(args, vec!["one two".to_string(), "three".to_string()]);
}

#[test]
fn scanner_peek_and_pop_walk_the_characters() {
    let mut s = Scanner::new("ab");
    assert_eq!(s.peek(), Some(&'a'));
    assert_eq!(s.pop(), Some(&'a'));
    assert_eq!(s.pop(), Some(&'b'));
    assert_eq!(s.pop(), None);
    assert_eq!(s.peek(), None);
}

#[test]
fn scanner_take_consumes_only_the_expected_or_newline() {
    let mut s = Scanner::new("a\nb");
    assert!(!s.take(' '));
    assert!(s.take('a'));
    // a newline satisfies any take
    assert!(s.take(' '));
    assert!(!s.take('c'));
    assert!(s.take('b'));
}

#[test]
fn scanner_next_scans_one_word_at_a_time() {
    let mut s = Scanner::new("one 'two three' four");
    assert_eq!(s.next(), "one");
    assert_eq!(s.next(), "two three");
    assert!(s.take(' '));
    assert_eq!(s.next(), "four");
}

#[test]
fn scanner_take_until_collapses_every_escape() {
    let mut s = Scanner::new("x\\\\y\\ z rest");
    assert_eq!(s.take_until(' '), "x\\y z");
    assert_eq!(s.next(), "rest");
}

#[test]
fn scanner_unquote_stops_at_closing_quote_before_space() {
    let mut s = Scanner::new("'ab' cd");
    assert!(s.take('\''));
    assert_eq!(s.unquote('\''), "ab");
    assert!(s.take(' '));
    assert_eq!(s.next(), "cd");
}
