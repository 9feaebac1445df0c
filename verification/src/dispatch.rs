//! Dispatcher: decides, from one raw input line and a snapshot of the
//! search path, what the interpreter must do, and builds the exact lines
//! the builtins print.  The surrounding read-eval loop only executes the
//! returned action.

use vstd::prelude::*;
use vstd::string::StrSliceExecFns;
use vstd::string::StringExecFns;

use crate::builtins::Builtin;
use crate::builtins::builtin_of;
use crate::builtins::is_builtin;
use crate::builtins::lemma_builtin_of_is_builtin;
use crate::builtins::spec_builtin_of;
use crate::parser::parse;
use crate::parser::spec_parse;
use crate::resolver::find_executable;
use crate::resolver::spec_find_path;
use crate::resolver::str_eq;
use crate::resolver::SearchDir;

verus! {

/// What the interpreter must do with one input line.
pub enum Action {
    /// The line had no command name: do nothing.
    Nothing,
    /// Run a builtin with the tokenized arguments.
    RunBuiltin { which: Builtin, args: Vec<String> },
    /// Spawn the executable found on the search path.
    RunExternal { path: String, args: Vec<String> },
    /// Print the failure line for a name that is neither a builtin nor on
    /// the search path.
    Report { message: String },
}

/// The failure line for an unknown command name.
pub open spec fn spec_not_found_message(name: Seq<char>) -> Seq<char> {
    name + ": command not found"@
}

/// Build the failure line for an unknown command name.
pub fn not_found_message(name: &str) -> (r: String)
    ensures
        r@ == spec_not_found_message(name@),
{
    let mut r = String::from_str(name);
    r.append(": command not found");
    r
}

/// Decide what one input line asks for: nothing for an empty name, the
/// builtin when the command table knows the name, otherwise the first
/// executable the search path walk finds, and a failure report when there
/// is none.  Builtin lookup always comes first.
pub fn dispatch(line: &str, dirs: &Vec<SearchDir>) -> (r: Action)
    ensures
        ({
            let parsed = spec_parse(line@);
            match r {
                Action::Nothing => parsed.0.len() == 0,
                Action::RunBuiltin { which, args } => {
                    &&& parsed.0.len() > 0
                    &&& spec_builtin_of(parsed.0) == Some(which)
                    &&& args.deep_view() == parsed.1
                },
                Action::RunExternal { path, args } => {
                    &&& parsed.0.len() > 0
                    &&& spec_builtin_of(parsed.0) is None
                    &&& spec_find_path(dirs@, parsed.0, 0) == Some(path@)
                    &&& args.deep_view() == parsed.1
                },
                Action::Report { message } => {
                    &&& parsed.0.len() > 0
                    &&& spec_builtin_of(parsed.0) is None
                    &&& spec_find_path(dirs@, parsed.0, 0) is None
                    &&& message@ == spec_not_found_message(parsed.0)
                },
            }
        }),
{
    let (cmd, args) = parse(line);
    if cmd.as_str().unicode_len() == 0 {
        return Action::Nothing;
    }
    match builtin_of(cmd.as_str()) {
        Some(which) => Action::RunBuiltin { which, args },
        None => match find_executable(dirs, cmd.as_str()) {
            Some(path) => Action::RunExternal { path, args },
            None => Action::Report { message: not_found_message(cmd.as_str()) },
        },
    }
}

/// The line the `type` builtin prints for a name: builtins are reported
/// as builtins before the search path is even consulted; other names are
/// reported with the path where the walk found them, or as not found.
pub open spec fn spec_type_message(name: Seq<char>, dirs: Seq<SearchDir>) -> Seq<char> {
    if is_builtin(name) {
        name + " is a shell builtin"@
    } else {
        match spec_find_path(dirs, name, 0) {
            Some(path) => name + " is "@ + path,
            None => name + " not found"@,
        }
    }
}

/// `type` reports a builtin name as a builtin whatever the search path
/// holds — even when an executable of the same name exists on it.
pub proof fn lemma_type_builtin_priority(name: Seq<char>, dirs: Seq<SearchDir>)
    requires
        is_builtin(name),
    ensures
        spec_type_message(name, dirs) == name + " is a shell builtin"@,
{
}

/// Build the line the `type` builtin prints for a name.
pub fn type_message(name: &str, dirs: &Vec<SearchDir>) -> (r: String)
    ensures
        r@ == spec_type_message(name@, dirs@),
{
    proof {
        lemma_builtin_of_is_builtin(name@);
    }
    match builtin_of(name) {
        Some(_) => {
            let mut r = String::from_str(name);
            r.append(" is a shell builtin");
            r
        },
        None => match find_executable(dirs, name) {
            Some(path) => {
                let mut r = String::from_str(name);
                r.append(" is ");
                r.append(path.as_str());
                r
            },
            None => {
                let mut r = String::from_str(name);
                r.append(" not found");
                r
            },
        },
    }
}

/// The complaint `cd` prints for a directory it cannot enter.
pub open spec fn spec_cd_error_message(dest: Seq<char>) -> Seq<char> {
    "cd: "@ + dest + ": No such file or directory"@
}

/// Build the complaint `cd` prints for a directory it cannot enter.
pub fn cd_error_message(dest: &str) -> (r: String)
    ensures
        r@ == spec_cd_error_message(dest@),
{
    let mut r = String::from_str("cd: ");
    r.append(dest);
    r.append(": No such file or directory");
    r
}

/// A leading `~` in a `cd` argument stands for the home directory; the
/// argument is otherwise kept as it is.
pub open spec fn spec_expand_home(arg: Seq<char>, home: Seq<char>) -> Seq<char> {
    if arg.len() > 0 && arg[0] == '~' {
        home + arg.skip(1)
    } else {
        arg
    }
}

/// Substitute the home directory for a leading `~` in a `cd` argument.
pub fn expand_home(arg: &str, home: &str) -> (r: String)
    ensures
        r@ == spec_expand_home(arg@, home@),
{
    let n = arg.unicode_len();
    if n > 0 && arg.get_char(0) == '~' {
        let mut r = String::from_str(home);
        let rest = arg.substring_char(1, n);
        r.append(rest);
        proof {
            assert(arg@.subrange(1, arg@.len() as int) =~= arg@.skip(1));
        }
        r
    } else {
        String::from_str(arg)
    }
}

/// Captured error text with a literal leading `/bin/` removed, and
/// unchanged text otherwise.
pub open spec fn spec_strip_bin_prefix(s: Seq<char>) -> Seq<char> {
    if s.len() >= 5 && s.subrange(0, 5) == "/bin/"@ {
        s.skip(5)
    } else {
        s
    }
}

/// Strip a literal `/bin/` prefix from captured error text before it is
/// shown — a compatibility fixup for messages spawned commands emit, not
/// a general path rule.
pub fn strip_bin_prefix(s: &str) -> (r: String)
    ensures
        r@ == spec_strip_bin_prefix(s@),
{
    let n = s.unicode_len();
    if n >= 5 {
        let head = s.substring_char(0, 5);
        if str_eq(head, "/bin/") {
            let tail = s.substring_char(5, n);
            proof {
                assert(s@.subrange(5, s@.len() as int) =~= s@.skip(5));
            }
            return String::from_str(tail);
        }
    }
    String::from_str(s)
}

} // verus!
