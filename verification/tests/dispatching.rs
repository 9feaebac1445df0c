use minishell::builtins::find_builtin;
use minishell::builtins::builtin_of;
use minishell::builtins::join_args;
use minishell::builtins::Builtin;
use minishell::dispatch::cd_error_message;
use minishell::dispatch::dispatch;
use minishell::dispatch::expand_home;
use minishell::dispatch::not_found_message;
use minishell::dispatch::strip_bin_prefix;
use minishell::dispatch::type_message;
use minishell::dispatch::Action;
use minishell::redirect::split_redirection;
use minishell::redirect::RedirectError;
use minishell::redirect::Stream;
use minishell::resolver::find_executable;
use minishell::resolver::split_path;
use minishell::resolver::FsEntry;
use minishell::resolver::SearchDir;

fn words(items: &[&str]) -> Vec<String> {
    items.iter().map(|s| s.to_string()).collect()
}

fn file(name: &str) -> FsEntry {
    FsEntry::File { name: name.to_string() }
}

fn dir(name: &str, entries: Vec<FsEntry>) -> FsEntry {
    FsEntry::Dir { name: name.to_string(), entries }
}

fn search_dir(path: &str, entries: Vec<FsEntry>) -> SearchDir {
    SearchDir { path: path.to_string(), entries }
}

#[test]
fn every_builtin_name_is_found_at_its_index() {
    assert_eq!(find_builtin("cd"), Ok(0));
    assert_eq!(find_builtin("echo"), Ok(1));
    assert_eq!(find_builtin("exit"), Ok(2));
    assert_eq!(find_builtin("pwd"), Ok(3));
    assert_eq!(find_builtin("type"), Ok(4));
}

#[test]
fn unknown_names_report_their_insertion_point() {
    assert_eq!(find_builtin("a"), Err(0));
    assert_eq!(find_builtin("cp"), Err(1));
    assert_eq!(find_builtin("ech"), Err(1));
    assert_eq!(find_builtin("echoo"), Err(2));
    assert_eq!(find_builtin("zzz"), Err(5));
}

#[test]
fn builtin_of_names_the_builtin() {
    assert_eq!(builtin_of("cd"), Some(Builtin::Cd));
    assert_eq!(builtin_of("echo"), Some(Builtin::Echo));
    assert_eq!(builtin_of("exit"), Some(Builtin::Exit));
    assert_eq!(builtin_of("pwd"), Some(Builtin::Pwd));
    assert_eq!(builtin_of("type"), Some(Builtin::Type));
    assert_eq!(builtin_of("ls"), None);
    assert_eq!(builtin_of(""), None);
}

#[test]
fn redirection_split_to_stdout() {
    let split = split_redirection(&words(&["hello", ">", "out.txt"])).unwrap();
    assert_eq!(split.real_args, words(&["hello"]));
    let red = split.redirect.unwrap();
    assert_eq!(red.stream, Stream::Stdout);
    assert_eq!(red.target, "out.txt");
}

#[test]
fn redirection_split_to_stderr() {
    let split = split_redirection(&words(&["hello", "2>", "err.txt"])).unwrap();
    assert_eq!(split.real_args, words(&["hello"]));
    let red = split.redirect.unwrap();
    assert_eq!(red.stream, Stream::Stderr);
    assert_eq!(red.target, "err.txt");
}

#[test]
fn explicit_stdout_digit_also_works() {
    let split = split_redirection(&words(&["a", "b", "1>", "f"])).unwrap();
    assert_eq!(split.real_args, words(&["a", "b"]));
    assert_eq!(split.redirect.unwrap().stream, Stream::Stdout);
}

#[test]
fn without_operator_the_arguments_come_back_whole() {
    let split = split_redirection(&words(&["a", "b"])).unwrap();
    assert_eq!(split.real_args, words(&["a", "b"]));
    assert!(split.redirect.is_none());
}

#[test]
fn dangling_operator_is_a_missing_target() {
    let err = split_redirection(&words(&["a", ">"])).unwrap_err();
    assert_eq!(err, RedirectError::MissingTarget);
}

#[test]
fn operator_with_strange_leading_character_is_unknown() {
    let err = split_redirection(&words(&["a", "x>y", "b"])).unwrap_err();
    assert_eq!(err, RedirectError::UnknownStream);
}

#[test]
fn only_the_first_operator_governs() {
    let split = split_redirection(&words(&["a", ">", "b", ">", "c"])).unwrap();
    assert_eq!(split.real_args, words(&["a"]));
    let red = split.redirect.unwrap();
    assert_eq!(red.stream, Stream::Stdout);
    assert_eq!(red.target, "b");
}

#[test]
fn empty_or_unreadable_directories_find_nothing() {
    let dirs = vec![search_dir("/one", vec![]), search_dir("/two", vec![])];
    assert_eq!(find_executable(&dirs, "prog"), None);
}

#[test]
fn first_match_in_listing_order_wins() {
    let dirs = vec![
        search_dir("/empty", vec![]),
        search_dir("/bin", vec![file("other"), file("prog")]),
        search_dir("/later", vec![file("prog")]),
    ];
    assert_eq!(find_executable(&dirs, "prog"), Some("/bin/prog".to_string()));
}

#[test]
fn subdirectories_are_searched_before_later_siblings() {
    // a subdirectory match shadows a file of the same name beside it
    let dirs = vec![search_dir(
        "/base",
        vec![dir("sub", vec![file("prog")]), file("prog")],
    )];
    assert_eq!(
        find_executable(&dirs, "prog"),
        Some("/base/sub/prog".to_string())
    );
}

#[test]
fn directories_are_not_matched_as_files() {
    let dirs = vec![search_dir("/base", vec![dir("prog", vec![])])];
    assert_eq!(find_executable(&dirs, "prog"), None);
}

#[test]
fn search_path_splits_at_colons_keeping_empty_segments() {
    assert_eq!(split_path("a:b::c"), words(&["a", "b", "", "c"]));
    assert_eq!(split_path(""), words(&[""]));
    assert_eq!(split_path("/usr/bin"), words(&["/usr/bin"]));
}

#[test]
fn empty_line_dispatches_to_nothing() {
    let dirs: Vec<SearchDir> = vec![];
    assert!(matches!(dispatch("", &dirs), Action::Nothing));
    assert!(matches!(dispatch("   ", &dirs), Action::Nothing));
}

#[test]
fn builtin_line_dispatches_to_the_builtin() {
    let dirs: Vec<SearchDir> = vec![];
    match dispatch("echo hi there", &dirs) {
        Action::RunBuiltin { which, args } => {
            assert_eq!(which, Builtin::Echo);
            assert_eq!(args, words(&["hi", "there"]));
        }
        _ => panic!("expected a builtin action"),
    }
}

#[test]
fn leading_separators_do_not_hide_the_command() {
    let dirs: Vec<SearchDir> = vec![];
    match dispatch("  echo hi", &dirs) {
        Action::RunBuiltin { which, args } => {
            assert_eq!(which, Builtin::Echo);
            assert_eq!(args, words(&["hi"]));
        }
        _ => panic!("expected a builtin action"),
    }
}

#[test]
fn external_line_dispatches_to_the_found_path() {
    let dirs = vec![search_dir("/bin", vec![file("prog")])];
    match dispatch("prog x y", &dirs) {
        Action::RunExternal { path, args } => {
            assert_eq!(path, "/bin/prog");
            assert_eq!(args, words(&["x", "y"]));
        }
        _ => panic!("expected an external action"),
    }
}

#[test]
fn unknown_name_dispatches_to_a_report() {
    let dirs: Vec<SearchDir> = vec![];
    match dispatch("nonexistent_cmd", &dirs) {
        Action::Report { message } => {
            assert_eq!(message, "nonexistent_cmd: command not found");
        }
        _ => panic!("expected a report"),
    }
}

#[test]
fn type_reports_builtins_first_even_when_shadowed() {
    // an executable named like the builtin exists on the search path
    let dirs = vec![search_dir("/bin", vec![file("echo")])];
    assert_eq!(type_message("echo", &dirs), "echo is a shell builtin");
}

#[test]
fn type_reports_executables_with_their_path() {
    let dirs = vec![search_dir("/bin", vec![file("prog")])];
    assert_eq!(type_message("prog", &dirs), "prog is /bin/prog");
}

#[test]
fn type_reports_unknown_names_as_not_found() {
    let dirs: Vec<SearchDir> = vec![];
    assert_eq!(type_message("prog", &dirs), "prog not found");
}

#[test]
fn leading_tilde_expands_to_the_home_directory() {
    assert_eq!(expand_home("~", "/home/u"), "/home/u");
    assert_eq!(expand_home("~/sub", "/home/u"), "/home/u/sub");
}

#[test]
fn tilde_elsewhere_is_kept() {
    assert_eq!(expand_home("a~b", "/home/u"), "a~b");
    assert_eq!(expand_home("", "/home/u"), "");
}

#[test]
fn echo_joins_arguments_with_single_spaces() {
    assert_eq!(join_args(&words(&["foo", "bar"])), "foo bar");
    assert_eq!(join_args(&words(&["one"])), "one");
    assert_eq!(join_args(&words(&[])), "");
}

#[test]
fn echo_output_refed_as_input_reproduces_the_arguments() {
    let (cmd, args) = minishell::parser::parse("echo  foo   bar");
    assert_eq!(cmd, "echo");
    let printed = join_args(&args);
    assert_eq!(printed, "foo bar");
    let (again_first, again_rest) = minishell::parser::parse(&printed);
    assert_eq!(again_first, "foo");
    assert_eq!(again_rest, words(&["bar"]));
}

#[test]
fn captured_error_text_loses_a_bin_prefix() {
    assert_eq!(strip_bin_prefix("/bin/ls: failed"), "ls: failed");
    assert_eq!(strip_bin_prefix("ls: failed"), "ls: failed");
    assert_eq!(strip_bin_prefix("/bi"), "/bi");
}

#[test]
fn failure_lines_are_spelled_exactly() {
    assert_eq!(not_found_message("prog"), "prog: command not found");
    assert_eq!(cd_error_message("/nope"), "cd: /nope: No such file or directory");
}
