//! Tokenizer: turns one raw input line into a command name and argument
//! words, honoring single-quote, double-quote and backslash rules.

use vstd::prelude::*;
use vstd::string::StrSliceExecFns;

verus! {

/// True when the character at `i` would be consumed by `Scanner::take(what)`:
/// the expected character itself, or a newline, which every `take` also
/// accepts so that the trailing newline of a read line ends the word.
pub open spec fn takes_at(s: Seq<char>, i: int, what: char) -> bool {
    0 <= i < s.len() && (s[i] == what || s[i] == '\n')
}

/// What scanning a quoted word from position `i` yields: the word's
/// characters and the cursor position after the scan.
///
/// Mirrors `Scanner::unquote`: characters are copied until the line ends,
/// a newline is hit, or the closing quote `what` is found followed by a
/// space or end of input.  A quote character followed by anything else is
/// dropped and scanning continues, which merges adjacent quoted segments
/// into one word.  In double-quote mode a backslash escapes only `\`, `$`,
/// `"` and newline; before any other character the backslash is kept.
pub open spec fn spec_unquote(s: Seq<char>, i: int, what: char) -> (Seq<char>, int)
    decreases s.len() - i,
{
    if i < 0 || i >= s.len() {
        (Seq::empty(), i)
    } else {
        let ch = s[i];
        let j = i + 1;
        if ch == '\n' {
            (Seq::empty(), j)
        } else if ch == what {
            if j >= s.len() || s[j] == ' ' {
                (Seq::empty(), j)
            } else {
                spec_unquote(s, j, what)
            }
        } else if ch == '\\' && what == '"' {
            if j >= s.len() {
                (Seq::empty(), j)
            } else if s[j] == '\\' || s[j] == '$' || s[j] == '"' || s[j] == '\n' {
                let rest = spec_unquote(s, j + 1, what);
                (seq![s[j]] + rest.0, rest.1)
            } else {
                let rest = spec_unquote(s, j, what);
                (seq![ch] + rest.0, rest.1)
            }
        } else {
            let rest = spec_unquote(s, j, what);
            (seq![ch] + rest.0, rest.1)
        }
    }
}

/// What scanning an unquoted word from position `i` yields: the word's
/// characters and the cursor position after the scan.
///
/// Mirrors `Scanner::take_until`: characters are copied until `what` (or a
/// newline) is consumed or the line ends; a backslash is dropped and the
/// character after it is copied unconditionally, so every `\X` collapses
/// to `X`.
pub open spec fn spec_take_until(s: Seq<char>, i: int, what: char) -> (Seq<char>, int)
    decreases s.len() - i,
{
    if takes_at(s, i, what) {
        (Seq::empty(), i + 1)
    } else if i < 0 || i >= s.len() {
        (Seq::empty(), i)
    } else if s[i] == '\\' {
        if i + 1 < s.len() {
            let rest = spec_take_until(s, i + 2, what);
            (seq![s[i + 1]] + rest.0, rest.1)
        } else {
            (Seq::empty(), i + 1)
        }
    } else {
        let rest = spec_take_until(s, i + 1, what);
        (seq![s[i]] + rest.0, rest.1)
    }
}

/// Cursor over the characters of one input line.
pub struct Scanner {
    cursor: usize,
    characters: Vec<char>,
}

impl Scanner {
    /// The whole line being scanned.
    pub closed spec fn chars(&self) -> Seq<char> {
        self.characters@
    }

    /// Current cursor position, between 0 and `chars().len()`.
    pub closed spec fn pos(&self) -> int {
        self.cursor as int
    }

    /// The cursor never runs past the end of the line.
    pub open spec fn wf(&self) -> bool {
        self.pos() <= self.chars().len()
    }

    pub fn new(string: &str) -> (scanner: Self)
        ensures
            scanner.chars() == string@,
            scanner.pos() == 0,
            scanner.wf(),
    {
        let n = string.unicode_len();
        let mut characters: Vec<char> = Vec::new();
        let mut i: usize = 0;
        while i < n
            invariant
                i <= n,
                n == string@.len(),
                characters@ == string@.subrange(0, i as int),
            decreases n - i,
        {
            characters.push(string.get_char(i));
            i = i + 1;
            proof {
                assert(characters@ =~= string@.subrange(0, i as int));
            }
        }
        proof {
            assert(characters@ =~= string@);
        }
        Self { cursor: 0, characters }
    }

    pub fn peek(&self) -> (r: Option<&char>)
        ensures
            self.pos() < self.chars().len() ==> r == Some(&self.chars()[self.pos()]),
            self.pos() >= self.chars().len() ==> r is None,
    {
        if self.cursor < self.characters.len() {
            Some(&self.characters[self.cursor])
        } else {
            None
        }
    }

    pub fn pop(&mut self) -> (r: Option<&char>)
        requires
            old(self).wf(),
        ensures
            final(self).wf(),
            final(self).chars() == old(self).chars(),
            old(self).pos() < old(self).chars().len() ==> {
                &&& r == Some(&old(self).chars()[old(self).pos()])
                &&& final(self).pos() == old(self).pos() + 1
            },
            old(self).pos() >= old(self).chars().len() ==> {
                &&& r is None
                &&& final(self).pos() == old(self).pos()
            },
    {
        if self.cursor < self.characters.len() {
            let ch = &self.characters[self.cursor];
            self.cursor = self.cursor + 1;
            Some(ch)
        } else {
            None
        }
    }

    pub fn take(&mut self, what: char) -> (r: bool)
        requires
            old(self).wf(),
        ensures
            final(self).wf(),
            final(self).chars() == old(self).chars(),
            r == takes_at(old(self).chars(), old(self).pos(), what),
            r ==> final(self).pos() == old(self).pos() + 1,
            !r ==> final(self).pos() == old(self).pos(),
    {
        if self.cursor < self.characters.len() {
            let ch = self.characters[self.cursor];
            if ch == what || ch == '\n' {
                self.cursor = self.cursor + 1;
                true
            } else {
                false
            }
        } else {
            false
        }
    }
    pub fn unquote(&mut self, what: char) -> (r: String)
        requires
            old(self).wf(),
        ensures
            final(self).wf(),
            final(self).chars() == old(self).chars(),
            r@ == spec_unquote(old(self).chars(), old(self).pos(), what).0,
            final(self).pos() == spec_unquote(old(self).chars(), old(self).pos(), what).1,
    {
        let ghost s = self.chars();
        let ghost start = self.pos();
        let mut chars: Vec<char> = Vec::new();

        loop
            invariant_except_break
                self.wf(),
                self.chars() == s,
                spec_unquote(s, start, what).0 == chars@ + spec_unquote(s, self.pos(), what).0,
                spec_unquote(s, start, what).1 == spec_unquote(s, self.pos(), what).1,
            ensures
                self.wf(),
                self.chars() == s,
                spec_unquote(s, start, what).0 == chars@,
                spec_unquote(s, start, what).1 == self.pos(),
            decreases s.len() - self.pos(),
        {
            let ch: char = match self.pop() {
                Some(current) => *current,
                None => {
                    break ;
                },
            };

            if ch == '\n' {
                break ;
            }

            if ch == what {
                match self.peek() {
                    Some(next) if *next == ' ' => {
                        break ;
                    },
                    None => {
                        break ;
                    },
                    _ => {
                        continue ;
                    },
                }
            }

            if ch == '\\' && what == '"' {
                match self.peek() {
                    Some(esc) if *esc == '\\' || *esc == '$' || *esc == '"' || *esc == '\n' => {
                        let escaped = *esc;
                        chars.push(escaped);
                        proof {
                            assert(self.cursor < self.characters.len());
                        }
                        self.cursor = self.cursor + 1;
                        continue ;
                    },
                    Some(_) => {},
                    None => {
                        break ;
                    },
                }
            }

            chars.push(ch);
        }

        chars_to_string(chars)
    }

    pub fn take_until(&mut self, what: char) -> (r: String)
        requires
            old(self).wf(),
        ensures
            final(self).wf(),
            final(self).chars() == old(self).chars(),
            r@ == spec_take_until(old(self).chars(), old(self).pos(), what).0,
            final(self).pos() == spec_take_until(old(self).chars(), old(self).pos(), what).1,
    {
        let ghost s = self.chars();
        let ghost start = self.pos();
        let mut chars: Vec<char> = Vec::new();

        loop
            invariant_except_break
                self.wf(),
                self.chars() == s,
                spec_take_until(s, start, what).0 == chars@ + spec_take_until(s, self.pos(), what).0,
                spec_take_until(s, start, what).1 == spec_take_until(s, self.pos(), what).1,
            ensures
                self.wf(),
                self.chars() == s,
                spec_take_until(s, start, what).0 == chars@,
                spec_take_until(s, start, what).1 == self.pos(),
            decreases s.len() - self.pos(),
        {
            if self.take(what) {
                break ;
            }
            match self.pop() {
                Some(current) if *current == '\\' => {
                    match self.pop() {
                        Some(escaped) => chars.push(*escaped),
                        None => {
                            break ;
                        },
                    }
                },
                Some(current) => chars.push(*current),
                None => {
                    break ;
                },
            }
        }

        chars_to_string(chars)
    }

    pub fn next(&mut self) -> (r: String)
        requires
            old(self).wf(),
        ensures
            final(self).wf(),
            final(self).chars() == old(self).chars(),
            r@ == spec_next(old(self).chars(), old(self).pos()).0,
            final(self).pos() == spec_next(old(self).chars(), old(self).pos()).1,
    {
        let expr = if self.take('\'') {
            self.unquote('\'')
        } else if self.take('"') {
            self.unquote('"')
        } else {
            self.take_until(' ')
        };

        expr
    }
}

/// What scanning one word from position `i` yields: a single-quoted or
/// double-quoted word when the first character is the corresponding quote
/// (or a newline, which `take` also consumes), and an unquoted word
/// otherwise.  Mirrors `Scanner::next`.
pub open spec fn spec_next(s: Seq<char>, i: int) -> (Seq<char>, int) {
    if takes_at(s, i, '\'') {
        spec_unquote(s, i + 1, '\'')
    } else if takes_at(s, i, '"') {
        spec_unquote(s, i + 1, '"')
    } else {
        spec_take_until(s, i, ' ')
    }
}

/// First position at or after `i` that holds neither a space nor a
/// newline (or the end of the line).  Mirrors the word-separator loop of
/// `parse`.
pub open spec fn spec_skip_blanks(s: Seq<char>, i: int) -> int
    decreases s.len() - i,
{
    if takes_at(s, i, ' ') {
        spec_skip_blanks(s, i + 1)
    } else {
        i
    }
}

/// Scanning a quoted word never moves the cursor backwards or past the
/// end of the line.
pub proof fn lemma_unquote_bounds(s: Seq<char>, i: int, what: char)
    requires
        0 <= i <= s.len(),
    ensures
        i <= spec_unquote(s, i, what).1 <= s.len(),
    decreases s.len() - i,
{
    if i < s.len() {
        lemma_unquote_bounds(s, i + 1, what);
        if i + 2 <= s.len() {
            lemma_unquote_bounds(s, i + 2, what);
        }
    }
}

/// Scanning an unquoted word never moves the cursor backwards or past the
/// end of the line, and consumes at least one character when one is left.
pub proof fn lemma_take_until_bounds(s: Seq<char>, i: int, what: char)
    requires
        0 <= i <= s.len(),
    ensures
        i <= spec_take_until(s, i, what).1 <= s.len(),
        i < s.len() ==> i + 1 <= spec_take_until(s, i, what).1,
    decreases s.len() - i,
{
    if i < s.len() {
        lemma_take_until_bounds(s, i + 1, what);
        if i + 2 <= s.len() {
            lemma_take_until_bounds(s, i + 2, what);
        }
    }
}

/// Scanning one word never moves the cursor backwards or past the end of
/// the line, and consumes at least one character when one is left.
pub proof fn lemma_next_bounds(s: Seq<char>, i: int)
    requires
        0 <= i <= s.len(),
    ensures
        i <= spec_next(s, i).1 <= s.len(),
        i < s.len() ==> i + 1 <= spec_next(s, i).1,
{
    lemma_take_until_bounds(s, i, ' ');
    if i < s.len() {
        lemma_unquote_bounds(s, i + 1, '\'');
        lemma_unquote_bounds(s, i + 1, '"');
    }
}

/// Skipping word separators never moves the cursor backwards or past the
/// end of the line, and stops on a character that is not a separator.
pub proof fn lemma_skip_blanks_bounds(s: Seq<char>, i: int)
    requires
        0 <= i <= s.len(),
    ensures
        i <= spec_skip_blanks(s, i) <= s.len(),
        !takes_at(s, spec_skip_blanks(s, i), ' '),
    decreases s.len() - i,
{
    if takes_at(s, i, ' ') {
        lemma_skip_blanks_bounds(s, i + 1);
    }
}

/// The argument words scanned from position `i` to the end of the line:
/// while word characters are left, the separator run before them is
/// skipped and one word is scanned.  A trailing run of separators ends
/// the list without emitting a word, so separator runs never produce
/// empty tokens.  Mirrors the argument loop of `parse`.
pub open spec fn spec_rest_args(s: Seq<char>, i: int) -> Seq<Seq<char>>
    decreases s.len() - i
        when 0 <= i
        via spec_rest_args_decreases
{
    if i >= s.len() {
        Seq::empty()
    } else {
        let j = spec_skip_blanks(s, i);
        if j >= s.len() {
            Seq::empty()
        } else {
            let word = spec_next(s, j);
            seq![word.0] + spec_rest_args(s, word.1)
        }
    }
}

#[via_fn]
proof fn spec_rest_args_decreases(s: Seq<char>, i: int) {
    if 0 <= i < s.len() {
        lemma_skip_blanks_bounds(s, i);
        lemma_next_bounds(s, spec_skip_blanks(s, i));
    }
}

/// The command name and argument words of a whole line: leading
/// separators are skipped, the first word scanned becomes the name, and
/// the argument words follow from wherever it ended.  A line that is
/// empty or holds only separators has an empty name and no arguments.
/// Mirrors `parse`.
pub open spec fn spec_parse(s: Seq<char>) -> (Seq<char>, Seq<Seq<char>>) {
    let name = spec_next(s, spec_skip_blanks(s, 0));
    (name.0, spec_rest_args(s, name.1))
}

/// A run of ordinary characters closed by the final quote of the line
/// scans to exactly that run.
proof fn lemma_single_quote_run(s: Seq<char>, i: int, k: int)
    requires
        0 <= i <= k < s.len(),
        k == s.len() - 1,
        s[k] == '\'',
        forall|m: int| i <= m < k ==> s[m] != '\'' && s[m] != '\n',
    ensures
        spec_unquote(s, i, '\'') == (s.subrange(i, k), k + 1),
    decreases k - i,
{
    if i == k {
        assert(s.subrange(k, k) =~= Seq::<char>::empty());
    } else {
        lemma_single_quote_run(s, i + 1, k);
        assert(s.subrange(i, k) =~= seq![s[i]] + s.subrange(i + 1, k));
    }
}

/// A line holding one single-quoted word parses to exactly the quoted
/// content, spaces included, with no escape interpretation, and no
/// further arguments.
pub proof fn lemma_single_quoted_verbatim(content: Seq<char>)
    requires
        forall|k: int| 0 <= k < content.len() ==> content[k] != '\'' && content[k] != '\n',
    ensures
        spec_parse(seq!['\''] + content + seq!['\'']).0 == content,
        spec_parse(seq!['\''] + content + seq!['\'']).1 == Seq::<Seq<char>>::empty(),
{
    let s = seq!['\''] + content + seq!['\''];
    assert(s.len() == content.len() + 2);
    assert(s[0] == '\'');
    assert(s[s.len() - 1] == '\'');
    assert(takes_at(s, 0, '\''));
    assert forall|m: int| 1 <= m < s.len() - 1 implies s[m] != '\'' && s[m] != '\n' by {
        assert(s[m] == content[m - 1]);
    }
    lemma_single_quote_run(s, 1, s.len() - 1);
    assert(s.subrange(1, s.len() - 1) =~= content);
    assert(spec_next(s, 0).1 == s.len());
}

/// Inside double quotes a backslash unescapes exactly `\`, `$`, `"` and
/// newline: before one of those four the backslash vanishes and the
/// character is kept; before any other character the backslash itself is
/// kept as well.
pub proof fn lemma_double_quote_escape(s: Seq<char>, i: int)
    requires
        0 <= i,
        i + 1 < s.len(),
        s[i] == '\\',
    ensures
        (s[i + 1] == '\\' || s[i + 1] == '$' || s[i + 1] == '"' || s[i + 1] == '\n')
            ==> spec_unquote(s, i, '"') == (
            seq![s[i + 1]] + spec_unquote(s, i + 2, '"').0,
            spec_unquote(s, i + 2, '"').1,
        ),
        !(s[i + 1] == '\\' || s[i + 1] == '$' || s[i + 1] == '"' || s[i + 1] == '\n')
            ==> spec_unquote(s, i, '"') == (
            seq!['\\'] + spec_unquote(s, i + 1, '"').0,
            spec_unquote(s, i + 1, '"').1,
        ),
{
}

/// Closing a double quote directly before more word characters drops the
/// quote and continues the same word: adjacent quoted segments merge into
/// one token.
pub proof fn lemma_quoted_segments_merge(s: Seq<char>, i: int, k: int)
    requires
        0 <= i <= k < s.len(),
        s[k] == '"',
        forall|m: int| i <= m < k ==> s[m] != '"' && s[m] != '\n' && s[m] != '\\',
        k + 1 < s.len(),
        s[k + 1] != ' ',
    ensures
        spec_unquote(s, i, '"').0 == s.subrange(i, k) + spec_unquote(s, k + 1, '"').0,
        spec_unquote(s, i, '"').1 == spec_unquote(s, k + 1, '"').1,
    decreases k - i,
{
    if i == k {
        assert(s.subrange(k, k) =~= Seq::<char>::empty());
        assert(s.subrange(k, k) + spec_unquote(s, k + 1, '"').0 =~= spec_unquote(
            s,
            k + 1,
            '"',
        ).0);
    } else {
        lemma_quoted_segments_merge(s, i + 1, k);
        assert(s.subrange(i, k) =~= seq![s[i]] + s.subrange(i + 1, k));
        assert((seq![s[i]] + s.subrange(i + 1, k)) + spec_unquote(s, k + 1, '"').0 =~= seq![s[i]]
            + (s.subrange(i + 1, k) + spec_unquote(s, k + 1, '"').0));
    }
}

/// Outside quotes a backslash collapses with the character after it to
/// that character alone, whatever it is — space, quote or another
/// backslash.
pub proof fn lemma_unquoted_escape(s: Seq<char>, i: int)
    requires
        0 <= i,
        i + 1 < s.len(),
        s[i] == '\\',
    ensures
        spec_take_until(s, i, ' ') == (
            seq![s[i + 1]] + spec_take_until(s, i + 2, ' ').0,
            spec_take_until(s, i + 2, ' ').1,
        ),
{
}

/// A word with none of the characters the tokenizer treats specially:
/// nonempty, and free of spaces, newlines, backslashes and both quotes.
pub open spec fn plain_word(w: Seq<char>) -> bool {
    &&& w.len() > 0
    &&& forall|k: int|
        0 <= k < w.len() ==> w[k] != ' ' && w[k] != '\n' && w[k] != '\\' && w[k] != '\'' && w[k]
            != '"'
}

/// Scanning an unquoted run of ordinary characters yields exactly that
/// run, consuming the space behind it or stopping at the end of the line.
pub proof fn lemma_take_until_plain_run(s: Seq<char>, i: int, w: Seq<char>)
    requires
        0 <= i,
        i + w.len() <= s.len(),
        forall|k: int| 0 <= k < w.len() ==> w[k] != ' ' && w[k] != '\n' && w[k] != '\\',
        s.subrange(i, i + w.len()) == w,
        i + w.len() == s.len() || s[i + w.len()] == ' ',
    ensures
        spec_take_until(s, i, ' ').0 == w,
        spec_take_until(s, i, ' ').1 == if i + w.len() == s.len() {
            s.len() as int
        } else {
            i + w.len() + 1
        },
    decreases w.len(),
{
    if w.len() == 0 {
        assert(spec_take_until(s, i, ' ').0 =~= w);
    } else {
        assert(s[i] == w[0]);
        assert(s.subrange(i + 1, i + w.len()) =~= w.skip(1));
        lemma_take_until_plain_run(s, i + 1, w.skip(1));
        assert(seq![s[i]] + w.skip(1) =~= w);
    }
}

/// Relies on `String`'s `FromIterator<char>` implementation: collecting
/// characters yields the string of exactly those characters, in order.
#[verifier::external_body]
pub(crate) fn chars_to_string(chars: Vec<char>) -> (r: String)
    ensures
        r@ == chars@,
{
    chars.into_iter().collect()
}

/// Split one input line into the command name and the argument words,
/// skipping the separator runs before the name, between words, and at
/// the end of the line.
pub fn parse(string: &str) -> (r: (String, Vec<String>))
    ensures
        r.0@ == spec_parse(string@).0,
        r.1.deep_view() == spec_parse(string@).1,
{
    let ghost s = string@;
    let mut scanner = Scanner::new(string);

    loop
        invariant
            scanner.wf(),
            scanner.chars() == s,
            spec_skip_blanks(s, 0) == spec_skip_blanks(s, scanner.pos()),
        ensures
            scanner.wf(),
            scanner.chars() == s,
            scanner.pos() == spec_skip_blanks(s, 0),
        decreases s.len() - scanner.pos(),
    {
        if !scanner.take(' ') {
            break ;
        }
    }

    let cmd = scanner.next();
    let ghost start = scanner.pos();

    let mut args: Vec<String> = Vec::new();
    loop
        invariant
            scanner.wf(),
            scanner.chars() == s,
            0 <= start,
            spec_rest_args(s, start) == args.deep_view() + spec_rest_args(s, scanner.pos()),
        ensures
            scanner.chars() == s,
            spec_rest_args(s, start) == args.deep_view() + spec_rest_args(s, scanner.pos()),
            spec_rest_args(s, scanner.pos()).len() == 0,
        decreases s.len() - scanner.pos(),
    {
        let ghost before = scanner.pos();

        loop
            invariant
                scanner.wf(),
                scanner.chars() == s,
                before <= scanner.pos(),
                spec_skip_blanks(s, before) == spec_skip_blanks(s, scanner.pos()),
            ensures
                scanner.wf(),
                scanner.chars() == s,
                before <= scanner.pos(),
                scanner.pos() == spec_skip_blanks(s, before),
            decreases s.len() - scanner.pos(),
        {
            if !scanner.take(' ') {
                break ;
            }
        }

        proof {
            lemma_skip_blanks_bounds(s, before);
            assert(spec_skip_blanks(s, scanner.pos()) == scanner.pos());
            assert(spec_rest_args(s, before) == spec_rest_args(s, scanner.pos()));
        }
        match scanner.peek() {
            Some(_) => {},
            None => {
                break ;
            },
        }
        let ghost at_word = scanner.pos();

        let word = scanner.next();
        args.push(word);
        proof {
            lemma_next_bounds(s, at_word);
            assert(args.deep_view() =~= args.deep_view().subrange(
                0,
                args.deep_view().len() - 1,
            ).push(word@));
            assert(spec_rest_args(s, start) == args.deep_view() + spec_rest_args(
                s,
                scanner.pos(),
            )) by {
                assert(spec_rest_args(s, at_word) == seq![word@] + spec_rest_args(
                    s,
                    scanner.pos(),
                ));
                assert(args.deep_view().subrange(0, args.deep_view().len() - 1) + (seq![word@]
                    + spec_rest_args(s, scanner.pos())) =~= args.deep_view() + spec_rest_args(
                    s,
                    scanner.pos(),
                ));
            }
        }
    }

    proof {
        assert(args.deep_view() + spec_rest_args(s, scanner.pos()) =~= args.deep_view());
    }
    (cmd, args)
}

} // verus!
