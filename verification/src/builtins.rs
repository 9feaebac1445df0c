//! Command table: the fixed, name-sorted registry of builtin commands,
//! looked up by binary search — together with the line building of the
//! `echo` builtin and the proof that `echo`'s output re-tokenizes to the
//! words it was given.

use vstd::prelude::*;
use vstd::string::StrSliceExecFns;
use vstd::string::StringExecFns;

verus! {

/// The words joined by single spaces: the line `echo` prints.
pub open spec fn spec_join(args: Seq<Seq<char>>) -> Seq<char>
    decreases args.len(),
{
    if args.len() == 0 {
        Seq::empty()
    } else if args.len() == 1 {
        args[0]
    } else {
        args[0] + seq![' '] + spec_join(args.skip(1))
    }
}

/// Joining one more word appends a separating space and the word; the
/// first word comes without a separator.
pub proof fn lemma_join_push(args: Seq<Seq<char>>, word: Seq<char>)
    ensures
        args.len() == 0 ==> spec_join(args.push(word)) == word,
        args.len() > 0 ==> spec_join(args.push(word)) == spec_join(args) + seq![' '] + word,
    decreases args.len(),
{
    if args.len() == 0 {
        assert(args.push(word)[0] == word);
    } else if args.len() == 1 {
        assert(args.push(word).skip(1) =~= seq![word]);
        assert(args.push(word)[0] == args[0]);
        assert(seq![word][0] == word);
        assert(spec_join(seq![word]) == word);
    } else {
        assert(args.push(word).skip(1) =~= args.skip(1).push(word));
        assert(args.push(word)[0] == args[0]);
        lemma_join_push(args.skip(1), word);
        assert(args[0] + seq![' '] + (spec_join(args.skip(1)) + seq![' '] + word) =~= (args[0]
            + seq![' '] + spec_join(args.skip(1))) + seq![' '] + word);
    }
}

/// The argument words scanned from position `i` are exactly `ws` when
/// the rest of the line from `i` is those plain words joined by single
/// spaces.
proof fn lemma_rest_args_join(s: Seq<char>, i: int, ws: Seq<Seq<char>>)
    requires
        0 <= i <= s.len(),
        ws.len() >= 1,
        forall|m: int| 0 <= m < ws.len() ==> crate::parser::plain_word(#[trigger] ws[m]),
        s.subrange(i, s.len() as int) == spec_join(ws),
    ensures
        crate::parser::spec_rest_args(s, i) == ws,
    decreases ws.len(),
{
    let first = ws[0];
    if ws.len() == 1 {
        assert(i + first.len() == s.len());
        assert(i < s.len());
        assert(s[i] == first[0]);
        assert(s.subrange(i, i + first.len()) =~= first);
        crate::parser::lemma_take_until_plain_run(s, i, first);
        assert(crate::parser::spec_skip_blanks(s, i) == i);
        assert(crate::parser::spec_next(s, i) == (first, s.len() as int));
        assert(seq![first] + crate::parser::spec_rest_args(s, s.len() as int) =~= ws);
    } else {
        let rest = spec_join(ws.skip(1));
        assert(spec_join(ws) == first + seq![' '] + rest);
        assert(ws.skip(1).len() >= 1);
        assert(crate::parser::plain_word(ws.skip(1)[0]));
        assert(rest.len() >= ws.skip(1)[0].len()) by {
            if ws.skip(1).len() > 1 {
                assert(rest == ws.skip(1)[0] + seq![' '] + spec_join(ws.skip(1).skip(1)));
            }
        }
        assert(s.len() - i == first.len() + 1 + rest.len());
        assert(i < s.len());
        assert forall|k: int| 0 <= k < first.len() implies s[i + k] == first[k] by {
            assert(s.subrange(i, s.len() as int)[k] == spec_join(ws)[k]);
        }
        assert(s[i] == first[0]);
        assert(s.subrange(i, i + first.len()) =~= first);
        assert(s[i + first.len()] == ' ') by {
            assert(s.subrange(i, s.len() as int)[first.len() as int] == spec_join(
                ws,
            )[first.len() as int]);
        }
        crate::parser::lemma_take_until_plain_run(s, i, first);
        assert(crate::parser::spec_skip_blanks(s, i) == i);
        assert(crate::parser::spec_next(s, i) == (first, i + first.len() + 1));
        let j = i + first.len() + 1;
        assert(s.subrange(j, s.len() as int) =~= rest) by {
            assert forall|k: int| 0 <= k < rest.len() implies s.subrange(j, s.len() as int)[k]
                == rest[k] by {
                assert(s.subrange(i, s.len() as int)[first.len() + 1 + k] == spec_join(
                    ws,
                )[first.len() + 1 + k]);
            }
        }
        lemma_rest_args_join(s, j, ws.skip(1));
        assert(seq![first] + ws.skip(1) =~= ws);
    }
}

/// Feeding the line `echo` prints for plain unquoted words back through
/// the tokenizer reproduces exactly those words: the first as the command
/// name, the rest as the arguments.
pub proof fn lemma_echo_roundtrip(words: Seq<Seq<char>>)
    requires
        words.len() >= 1,
        forall|m: int| 0 <= m < words.len() ==> crate::parser::plain_word(#[trigger] words[m]),
    ensures
        crate::parser::spec_parse(spec_join(words)).0 == words[0],
        crate::parser::spec_parse(spec_join(words)).1 == words.skip(1),
{
    let s = spec_join(words);
    let first = words[0];
    assert(s.subrange(0, s.len() as int) =~= s);
    if words.len() == 1 {
        assert(s == first);
        crate::parser::lemma_take_until_plain_run(s, 0, first);
        assert(crate::parser::spec_next(s, 0) == (first, s.len() as int));
        assert(crate::parser::spec_rest_args(s, s.len() as int) =~= words.skip(1));
    } else {
        let rest = spec_join(words.skip(1));
        assert(s == first + seq![' '] + rest);
        assert(words.skip(1).len() >= 1);
        assert(crate::parser::plain_word(words.skip(1)[0]));
        assert(rest.len() >= words.skip(1)[0].len()) by {
            if words.skip(1).len() > 1 {
                assert(rest == words.skip(1)[0] + seq![' '] + spec_join(words.skip(1).skip(1)));
            }
        }
        assert(s.subrange(0, first.len() as int) =~= first);
        assert(s[first.len() as int] == ' ');
        crate::parser::lemma_take_until_plain_run(s, 0, first);
        let j = first.len() + 1int;
        assert(crate::parser::spec_next(s, 0) == (first, j));
        assert(s.subrange(j, s.len() as int) =~= rest);
        lemma_rest_args_join(s, j, words.skip(1));
    }
}

/// Join argument words with single spaces, as `echo` prints them.
pub fn join_args(args: &Vec<String>) -> (r: String)
    ensures
        r@ == spec_join(args.deep_view()),
{
    let ghost all = args.deep_view();
    let mut out = String::new();
    let mut i: usize = 0;
    proof {
        reveal_strlit(" ");
        assert(" "@ =~= seq![' ']);
        assert(all.subrange(0, 0) =~= Seq::<Seq<char>>::empty());
    }
    while i < args.len()
        invariant
            i <= args@.len(),
            all == args.deep_view(),
            all.len() == args@.len(),
            " "@ == seq![' '],
            out@ == spec_join(all.subrange(0, i as int)),
        decreases args@.len() - i,
    {
        if i > 0 {
            out.append(" ");
        }
        out.append(args[i].as_str());
        proof {
            assert(args[i as int]@ == all[i as int]);
            assert(all.subrange(0, i + 1) =~= all.subrange(0, i as int).push(all[i as int]));
            lemma_join_push(all.subrange(0, i as int), all[i as int]);
        }
        i = i + 1;
    }
    proof {
        assert(all.subrange(0, all.len() as int) =~= all);
    }
    out
}

/// The builtin command names, in strict lexicographic order.  Lookup by
/// binary search depends on this order; `lemma_builtin_table_sorted`
/// proves it once and for all.
pub open spec fn builtin_table() -> Seq<Seq<char>> {
    seq!["cd"@, "echo"@, "exit"@, "pwd"@, "type"@]
}

/// A name is a builtin when it occurs in the command table.
pub open spec fn is_builtin(name: Seq<char>) -> bool {
    exists|i: int| 0 <= i < builtin_table().len() && builtin_table()[i] == name
}

/// The builtin commands of the interpreter.
#[derive(Clone, Copy, PartialEq, Eq, Structural, Debug)]
pub enum Builtin {
    Cd,
    Echo,
    Exit,
    Pwd,
    Type,
}

/// The builtin a name designates, if any.
pub open spec fn spec_builtin_of(name: Seq<char>) -> Option<Builtin> {
    if name == "cd"@ {
        Some(Builtin::Cd)
    } else if name == "echo"@ {
        Some(Builtin::Echo)
    } else if name == "exit"@ {
        Some(Builtin::Exit)
    } else if name == "pwd"@ {
        Some(Builtin::Pwd)
    } else if name == "type"@ {
        Some(Builtin::Type)
    } else {
        None
    }
}

/// A name designates a builtin exactly when it occurs in the command
/// table.
pub proof fn lemma_builtin_of_is_builtin(name: Seq<char>)
    ensures
        spec_builtin_of(name) is Some <==> is_builtin(name),
{
    if spec_builtin_of(name) is Some {
        if name == "cd"@ {
            assert(builtin_table()[0] == name);
        } else if name == "echo"@ {
            assert(builtin_table()[1] == name);
        } else if name == "exit"@ {
            assert(builtin_table()[2] == name);
        } else if name == "pwd"@ {
            assert(builtin_table()[3] == name);
        } else {
            assert(builtin_table()[4] == name);
        }
    }
    if is_builtin(name) {
        let i = choose|i: int| 0 <= i < builtin_table().len() && builtin_table()[i] == name;
        assert(spec_builtin_of(name) is Some);
    }
}

/// No two entries of the command table hold the same name.
pub proof fn lemma_builtin_table_distinct()
    ensures
        forall|i: int, j: int|
            0 <= i < j < builtin_table().len() ==> builtin_table()[i] != builtin_table()[j],
{
    lemma_builtin_table_sorted();
    assert forall|i: int, j: int|
        0 <= i < j < builtin_table().len() implies builtin_table()[i] != builtin_table()[j] by {
        assert(lex_lt(builtin_table()[i], builtin_table()[j]));
        if builtin_table()[i] == builtin_table()[j] {
            lemma_lex_lt_irrefl(builtin_table()[i], 0);
        }
    }
}

/// Strict lexicographic order on character sequences, comparing by code
/// point from position `i` on; a proper prefix sorts first.
pub open spec fn lex_lt_from(a: Seq<char>, b: Seq<char>, i: int) -> bool
    decreases b.len() - i,
{
    if i >= b.len() {
        false
    } else if i >= a.len() {
        true
    } else if a[i] != b[i] {
        (a[i] as u32) < (b[i] as u32)
    } else {
        lex_lt_from(a, b, i + 1)
    }
}

/// Strict lexicographic order on whole character sequences.
pub open spec fn lex_lt(a: Seq<char>, b: Seq<char>) -> bool {
    lex_lt_from(a, b, 0)
}

/// The lexicographic order is irreflexive.
pub proof fn lemma_lex_lt_irrefl(a: Seq<char>, i: int)
    ensures
        !lex_lt_from(a, a, i),
    decreases a.len() - i,
{
    if i < a.len() {
        lemma_lex_lt_irrefl(a, i + 1);
    }
}

/// The lexicographic order is transitive.
pub proof fn lemma_lex_lt_trans(a: Seq<char>, b: Seq<char>, c: Seq<char>, i: int)
    requires
        lex_lt_from(a, b, i),
        lex_lt_from(b, c, i),
    ensures
        lex_lt_from(a, c, i),
    decreases b.len() - i,
{
    if i < a.len() && i < b.len() && a[i] == b[i] && i < c.len() && b[i] == c[i] {
        lemma_lex_lt_trans(a, b, c, i + 1);
    }
}

/// The command table is sorted strictly by the lexicographic order.
pub proof fn lemma_builtin_table_sorted()
    ensures
        forall|i: int, j: int|
            0 <= i < j < builtin_table().len() ==> lex_lt(
                builtin_table()[i],
                builtin_table()[j],
            ),
{
    reveal_strlit("cd");
    reveal_strlit("echo");
    reveal_strlit("exit");
    reveal_strlit("pwd");
    reveal_strlit("type");
    let t = builtin_table();
    assert(lex_lt(t[0], t[1]));
    assert(lex_lt_from(t[1], t[2], 1));
    assert(lex_lt(t[1], t[2]));
    assert(lex_lt(t[2], t[3]));
    assert(lex_lt(t[3], t[4]));
    lemma_lex_lt_trans(t[0], t[1], t[2], 0);
    lemma_lex_lt_trans(t[0], t[2], t[3], 0);
    lemma_lex_lt_trans(t[0], t[3], t[4], 0);
    lemma_lex_lt_trans(t[1], t[2], t[3], 0);
    lemma_lex_lt_trans(t[1], t[3], t[4], 0);
    lemma_lex_lt_trans(t[2], t[3], t[4], 0);
}

/// The builtin names as executable values, in table order.
fn builtin_names() -> (names: Vec<&'static str>)
    ensures
        names@.len() == builtin_table().len(),
        forall|i: int| 0 <= i < names@.len() ==> names@[i]@ == builtin_table()[i],
{
    let names = vec!["cd", "echo", "exit", "pwd", "type"];
    proof {
        assert(names@[0]@ == builtin_table()[0]);
        assert(names@[1]@ == builtin_table()[1]);
        assert(names@[2]@ == builtin_table()[2]);
        assert(names@[3]@ == builtin_table()[3]);
        assert(names@[4]@ == builtin_table()[4]);
    }
    names
}

/// Three-way comparison of two strings in the lexicographic order.
fn str_cmp(a: &str, b: &str) -> (o: i32)
    ensures
        o < 0 <==> lex_lt(a@, b@),
        o == 0 <==> a@ == b@,
        o > 0 <==> lex_lt(b@, a@),
{
    let a_len = a.unicode_len();
    let b_len = b.unicode_len();
    let mut i: usize = 0;
    loop
        invariant
            i <= a_len,
            i <= b_len,
            a_len == a@.len(),
            b_len == b@.len(),
            forall|k: int| 0 <= k < i ==> a@[k] == b@[k],
            lex_lt(a@, b@) == lex_lt_from(a@, b@, i as int),
            lex_lt(b@, a@) == lex_lt_from(b@, a@, i as int),
        decreases a_len - i,
    {
        if i == a_len && i == b_len {
            proof {
                assert(a@ =~= b@);
                lemma_lex_lt_irrefl(a@, i as int);
            }
            return 0;
        }
        if i == a_len {
            proof {
                assert(a@.len() < b@.len());
                lemma_lex_lt_irrefl(a@, 0);
            }
            return -1;
        }
        if i == b_len {
            proof {
                lemma_lex_lt_irrefl(b@, 0);
            }
            return 1;
        }
        let ca = a.get_char(i);
        let cb = b.get_char(i);
        if (ca as u32) < (cb as u32) {
            proof {
                lemma_lex_lt_irrefl(a@, 0);
            }
            return -1;
        }
        if (ca as u32) > (cb as u32) {
            proof {
                lemma_lex_lt_irrefl(b@, 0);
            }
            return 1;
        }
        i = i + 1;
    }
}

/// Look a command name up in the builtin table by binary search:
/// `Ok(index)` of the entry whose name equals `key`, or `Err(insertion)`
/// with the position where `key` would keep the table sorted, when no
/// entry matches.
pub fn find_builtin(key: &str) -> (r: Result<usize, usize>)
    ensures
        match r {
            Ok(i) => i < builtin_table().len() && builtin_table()[i as int] == key@,
            Err(j) => {
                &&& !is_builtin(key@)
                &&& j <= builtin_table().len()
                &&& forall|k: int| 0 <= k < j ==> lex_lt(builtin_table()[k], key@)
                &&& forall|k: int|
                    j <= k < builtin_table().len() ==> lex_lt(key@, builtin_table()[k])
            },
        },
        r is Ok <==> is_builtin(key@),
{
    proof {
        lemma_builtin_table_sorted();
    }
    let names = builtin_names();
    let mut lo: usize = 0;
    let mut hi: usize = names.len();
    loop
        invariant
            lo <= hi <= names@.len(),
            names@.len() == builtin_table().len(),
            forall|i: int| 0 <= i < names@.len() ==> names@[i]@ == builtin_table()[i],
            forall|i: int, j: int|
                0 <= i < j < builtin_table().len() ==> lex_lt(
                    builtin_table()[i],
                    builtin_table()[j],
                ),
            forall|k: int| 0 <= k < lo ==> lex_lt(builtin_table()[k], key@),
            forall|k: int| hi <= k < builtin_table().len() ==> lex_lt(key@, builtin_table()[k]),
        decreases hi - lo,
    {
        if lo >= hi {
            proof {
                assert forall|i: int|
                    0 <= i < builtin_table().len() implies builtin_table()[i] != key@ by {
                    if i < lo {
                        lemma_lex_lt_irrefl(key@, 0);
                    } else {
                        lemma_lex_lt_irrefl(key@, 0);
                    }
                }
            }
            return Err(lo);
        }
        let mid = lo + (hi - lo) / 2;
        let o = str_cmp(names[mid], key);
        if o == 0 {
            proof {
                assert(builtin_table()[mid as int] == key@);
            }
            return Ok(mid);
        } else if o < 0 {
            proof {
                assert forall|k: int| 0 <= k < mid + 1 implies lex_lt(
                    builtin_table()[k],
                    key@,
                ) by {
                    if k < mid {
                        assert(lex_lt(builtin_table()[k], builtin_table()[mid as int]));
                        lemma_lex_lt_trans(builtin_table()[k], builtin_table()[mid as int], key@, 0);
                    }
                }
            }
            lo = mid + 1;
        } else {
            proof {
                assert forall|k: int| mid <= k < builtin_table().len() implies lex_lt(
                    key@,
                    builtin_table()[k],
                ) by {
                    if k > mid {
                        assert(lex_lt(builtin_table()[mid as int], builtin_table()[k]));
                        lemma_lex_lt_trans(key@, builtin_table()[mid as int], builtin_table()[k], 0);
                    }
                }
            }
            hi = mid;
        }
    }
}

/// Look a command name up in the builtin table and name the builtin it
/// designates, if any.
pub fn builtin_of(name: &str) -> (r: Option<Builtin>)
    ensures
        r == spec_builtin_of(name@),
{
    match find_builtin(name) {
        Ok(idx) => {
            proof {
                lemma_builtin_table_distinct();
            }
            if idx == 0 {
                Some(Builtin::Cd)
            } else if idx == 1 {
                Some(Builtin::Echo)
            } else if idx == 2 {
                Some(Builtin::Exit)
            } else if idx == 3 {
                Some(Builtin::Pwd)
            } else {
                Some(Builtin::Type)
            }
        },
        Err(_) => {
            proof {
                lemma_builtin_of_is_builtin(name@);
            }
            None
        },
    }
}

} // verus!
