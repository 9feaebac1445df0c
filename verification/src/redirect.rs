//! Redirection splitter: scans a tokenized argument list for the first
//! redirection operator and splits it into the command's real arguments
//! and the target file plus stream.

use vstd::prelude::*;
use vstd::string::StrSliceExecFns;

verus! {

/// The output stream a redirection sends to the target file.
#[derive(Clone, Copy, PartialEq, Eq, Structural, Debug)]
pub enum Stream {
    Stdout,
    Stderr,
}

/// One redirection: which stream goes to which file.  The target file is
/// always created and truncated, never appended to.
#[derive(Debug)]
pub struct Redirection {
    pub stream: Stream,
    pub target: String,
}

/// Why an argument list with a redirection operator cannot be split.
#[derive(Clone, Copy, PartialEq, Eq, Structural, Debug)]
pub enum RedirectError {
    /// The operator is the last argument, so no target follows it.
    MissingTarget,
    /// The operator's first character names neither stdout nor stderr.
    UnknownStream,
}

/// An argument list with the redirection, if any, split off.
#[derive(Debug)]
pub struct SplitCommand {
    pub real_args: Vec<String>,
    pub redirect: Option<Redirection>,
}

/// True when the word contains a `>` anywhere, which makes it a
/// redirection operator.
pub open spec fn has_gt(s: Seq<char>) -> bool {
    exists|j: int| 0 <= j < s.len() && s[j] == '>'
}

/// Index of the first redirection operator at or after `i`, if any.
pub open spec fn spec_first_redirect(args: Seq<Seq<char>>, i: int) -> Option<int>
    decreases args.len() - i,
{
    if i < 0 || i >= args.len() {
        None
    } else if has_gt(args[i]) {
        Some(i)
    } else {
        spec_first_redirect(args, i + 1)
    }
}

/// The stream an operator word names: `1` or `>` in first position is
/// stdout, `2` is stderr, anything else is unknown.
pub open spec fn spec_stream_of(op: Seq<char>) -> Option<Stream> {
    if op.len() == 0 {
        None
    } else if op[0] == '1' || op[0] == '>' {
        Some(Stream::Stdout)
    } else if op[0] == '2' {
        Some(Stream::Stderr)
    } else {
        None
    }
}

/// True when the word contains a `>` anywhere.
fn contains_gt(s: &str) -> (r: bool)
    ensures
        r == has_gt(s@),
{
    let n = s.unicode_len();
    let mut i: usize = 0;
    while i < n
        invariant
            i <= n,
            n == s@.len(),
            forall|k: int| 0 <= k < i ==> s@[k] != '>',
        decreases n - i,
    {
        if s.get_char(i) == '>' {
            return true;
        }
        i = i + 1;
    }
    false
}

/// Split an argument list at its first redirection operator.
///
/// Everything before the operator becomes the real arguments; the word
/// after it becomes the target, with the stream named by the operator's
/// first character.  Only this first operator governs, even when more
/// `>`-bearing words follow: they are all excluded from the real
/// arguments.  Without any operator the arguments come back whole.  An
/// operator without a following word, or with an unknown leading
/// character, is a recoverable error for the line.
pub fn split_redirection(args: &Vec<String>) -> (r: Result<SplitCommand, RedirectError>)
    ensures
        match spec_first_redirect(args.deep_view(), 0) {
            Some(i) => match r {
                Ok(split) => {
                    &&& i + 1 < args.deep_view().len()
                    &&& split.real_args.deep_view() == args.deep_view().subrange(0, i)
                    &&& (match split.redirect {
                        Some(red) => {
                            &&& red.target@ == args.deep_view()[i + 1]
                            &&& spec_stream_of(args.deep_view()[i]) == Some(red.stream)
                        },
                        None => false,
                    })
                },
                Err(RedirectError::MissingTarget) => i + 1 >= args.deep_view().len(),
                Err(RedirectError::UnknownStream) => {
                    &&& i + 1 < args.deep_view().len()
                    &&& spec_stream_of(args.deep_view()[i]) is None
                },
            },
            None => match r {
                Ok(split) => {
                    &&& split.real_args.deep_view() == args.deep_view()
                    &&& split.redirect is None
                },
                Err(_) => false,
            },
        },
{
    let ghost view = args.deep_view();
    let n = args.len();
    let mut idx: usize = 0;
    loop
        invariant
            idx <= n,
            n == view.len(),
            view == args.deep_view(),
            spec_first_redirect(view, 0) == spec_first_redirect(view, idx as int),
        ensures
            view == args.deep_view(),
            n == view.len(),
            (match spec_first_redirect(view, 0) {
                Some(i) => idx < n && i == idx && has_gt(view[idx as int]),
                None => idx == n,
            }),
        decreases n - idx,
    {
        if idx >= n {
            break ;
        }
        if contains_gt(args[idx].as_str()) {
            break ;
        }
        idx = idx + 1;
    }

    if idx >= n {
        let real_args = clone_prefix(args, n);
        return Ok(SplitCommand { real_args, redirect: None });
    }
    if idx + 1 >= n {
        return Err(RedirectError::MissingTarget);
    }

    let op = &args[idx];
    proof {
        assert(op@ == view[idx as int]);
        assert(op@.len() > 0);
    }
    let first = op.as_str().get_char(0);
    let stream = if first == '1' || first == '>' {
        Stream::Stdout
    } else if first == '2' {
        Stream::Stderr
    } else {
        return Err(RedirectError::UnknownStream);
    };

    let real_args = clone_prefix(args, idx);
    let target = args[idx + 1].clone();
    Ok(SplitCommand { real_args, redirect: Some(Redirection { stream, target }) })
}

/// The first `count` arguments, as owned words.
fn clone_prefix(args: &Vec<String>, count: usize) -> (r: Vec<String>)
    requires
        count <= args.len(),
    ensures
        r.deep_view() == args.deep_view().subrange(0, count as int),
{
    let mut r: Vec<String> = Vec::new();
    let mut i: usize = 0;
    while i < count
        invariant
            i <= count <= args.len(),
            r@.len() == i as int,
            forall|k: int| 0 <= k < i ==> r@[k] == args@[k],
        decreases count - i,
    {
        r.push(args[i].clone());
        i = i + 1;
    }
    proof {
        assert(r.deep_view() =~= args.deep_view().subrange(0, count as int));
    }
    r
}

} // verus!
