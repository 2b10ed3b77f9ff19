//! Interpreting a tokenized command line: the id argument parser and the
//! mapping from an argument vector to a storage-engine command.

use vstd::prelude::*;
use crate::errors::NoteError;
use crate::errors::NoteErrorView;
use crate::like::fold_char;
use crate::like::fold_char_exec;
use crate::tokenizer::token_views;

verus! {

/// Whether `c` is an ASCII decimal digit.
pub open spec fn is_digit(c: char) -> bool {
    48 <= c as u32 && c as u32 <= 57
}

/// The numeric value of an ASCII decimal digit.
pub open spec fn digit_val(c: char) -> int {
    c as u32 - 48
}

/// Whether every character of `s` is an ASCII decimal digit.
pub open spec fn all_digits(s: Seq<char>) -> bool {
    forall|i: int| 0 <= i < s.len() ==> is_digit(#[trigger] s[i])
}

/// The value of a sequence of decimal digits, most significant first.
pub open spec fn dec_val(s: Seq<char>) -> int
    decreases s.len(),
{
    if s.len() == 0 {
        0
    } else {
        dec_val(s.drop_last()) * 10 + digit_val(s.last())
    }
}

/// The digit part of an integer literal: everything after an optional
/// leading `+` or `-` sign.
pub open spec fn int_body(s: Seq<char>) -> Seq<char> {
    if s.len() > 0 && (s[0] == '+' || s[0] == '-') {
        s.drop_first()
    } else {
        s
    }
}

/// Whether the literal carries a leading minus sign.
pub open spec fn is_negative(s: Seq<char>) -> bool {
    s.len() > 0 && s[0] == '-'
}

/// The signed value of an integer literal.
pub open spec fn int_str_val(s: Seq<char>) -> int {
    if is_negative(s) {
        -dec_val(int_body(s))
    } else {
        dec_val(int_body(s))
    }
}

/// Whether `s` is a valid `i32` literal: an optional sign, at least one
/// digit, nothing else, and a value within the `i32` range.
pub open spec fn valid_i32_str(s: Seq<char>) -> bool {
    int_body(s).len() > 0 && all_digits(int_body(s)) && i32::MIN <= int_str_val(s) <= i32::MAX
}

proof fn lemma_dec_val_nonneg(s: Seq<char>)
    requires
        all_digits(s),
    ensures
        dec_val(s) >= 0,
    decreases s.len(),
{
    if s.len() > 0 {
        assert(all_digits(s.drop_last()));
        lemma_dec_val_nonneg(s.drop_last());
    }
}

proof fn lemma_dec_val_prefix(s: Seq<char>, k: int)
    requires
        all_digits(s),
        0 <= k <= s.len(),
    ensures
        dec_val(s) >= dec_val(s.take(k)),
    decreases s.len() - k,
{
    if k == s.len() {
        assert(s.take(k) =~= s);
    } else {
        assert(s.take(k + 1).drop_last() =~= s.take(k));
        assert(s.take(k + 1).last() == s[k]);
        assert(all_digits(s.take(k)));
        lemma_dec_val_nonneg(s.take(k));
        assert(dec_val(s.take(k + 1)) == dec_val(s.take(k)) * 10 + digit_val(s[k]));
        lemma_dec_val_prefix(s, k + 1);
    }
}

/// Parse an id argument: an optional sign followed by decimal digits,
/// rejected with `NotAValidID` when malformed or out of the `i32` range.
pub fn parse_id(s: &str) -> (r: Result<i32, NoteError>)
    ensures
        valid_i32_str(s@) ==> (r matches Ok(v) && v as int == int_str_val(s@)),
        !valid_i32_str(s@) ==> r == Err::<i32, NoteError>(NoteError::NotAValidID),
{
    let n = s.unicode_len();
    if n == 0 {
        return Err(NoteError::NotAValidID);
    }
    let c0 = s.get_char(0);
    let mut start: usize = 0;
    let mut neg = false;
    if c0 == '+' || c0 == '-' {
        start = 1;
        neg = c0 == '-';
    }
    let ghost body = int_body(s@);
    proof {
        assert(body =~= s@.skip(start as int));
    }
    if start == n {
        return Err(NoteError::NotAValidID);
    }
    let mut acc: u64 = 0;
    let mut i: usize = start;
    while i < n
        invariant
            start <= i <= n,
            n == s@.len(),
            start == 1 ==> (s@[0] == '+' || s@[0] == '-'),
            neg == is_negative(s@),
            body == int_body(s@),
            body =~= s@.skip(start as int),
            all_digits(body.take(i - start)),
            acc == dec_val(body.take(i - start)),
            acc <= 2147483648,
        decreases n - i,
    {
        let c = s.get_char(i);
        let code = c as u32;
        proof {
            assert(body[i - start] == s@[i as int]);
        }
        if code < 48 || code > 57 {
            proof {
                assert(!is_digit(body[i - start]));
                assert(!all_digits(body));
            }
            return Err(NoteError::NotAValidID);
        }
        let d = (code - 48) as u64;
        proof {
            let ghost t = body.take(i - start);
            assert(body.take(i + 1 - start).drop_last() =~= t);
            assert(body.take(i + 1 - start).last() == body[i - start]);
            assert(dec_val(body.take(i + 1 - start)) == dec_val(t) * 10 + digit_val(body[i - start]));
        }
        acc = acc * 10 + d;
        i = i + 1;
        if acc > 2147483648 {
            proof {
                if valid_i32_str(s@) {
                    lemma_dec_val_prefix(body, i - start);
                    assert(dec_val(body) >= acc > 2147483648);
                }
            }
            return Err(NoteError::NotAValidID);
        }
    }
    proof {
        assert(body.take(n - start) =~= body);
        lemma_dec_val_nonneg(body);
    }
    if neg {
        if acc == 2147483648 {
            Ok(i32::MIN)
        } else {
            Ok(-(acc as i32))
        }
    } else {
        if acc == 2147483648 {
            return Err(NoteError::NotAValidID);
        }
        Ok(acc as i32)
    }
}

/// Mathematical view of a [`Command`].
pub enum CommandView {
    List,
    Help,
    Add { name: Seq<char>, text: Seq<char> },
    Complete { id: int },
    Uncomplete { id: int },
    Delete { id: int },
    Rename { id: int, new_name: Seq<char> },
    ChangeText { id: int, new_text: Seq<char> },
    Usage,
}

/// One storage-engine command of the command surface, as decoded from an
/// argument vector. `Usage` stands for an unrecognized command word.
#[derive(Debug, PartialEq)]
pub enum Command {
    List,
    Help,
    Add { name: String, text: String },
    Complete { id: i32 },
    Uncomplete { id: i32 },
    Delete { id: i32 },
    Rename { id: i32, new_name: String },
    ChangeText { id: i32, new_text: String },
    Usage,
}

impl View for Command {
    type V = CommandView;

    open spec fn view(&self) -> CommandView {
        match self {
            Command::List => CommandView::List,
            Command::Help => CommandView::Help,
            Command::Add { name, text } => CommandView::Add { name: name@, text: text@ },
            Command::Complete { id } => CommandView::Complete { id: *id as int },
            Command::Uncomplete { id } => CommandView::Uncomplete { id: *id as int },
            Command::Delete { id } => CommandView::Delete { id: *id as int },
            Command::Rename { id, new_name } => CommandView::Rename {
                id: *id as int,
                new_name: new_name@,
            },
            Command::ChangeText { id, new_text } => CommandView::ChangeText {
                id: *id as int,
                new_text: new_text@,
            },
            Command::Usage => CommandView::Usage,
        }
    }
}

/// ASCII case folding of a whole character sequence.
pub open spec fn fold_seq(s: Seq<char>) -> Seq<char> {
    s.map_values(|c: char| fold_char(c))
}

/// The id argument of a command, or the error reported instead: a missing
/// second argument, or one that is no valid integer.
pub open spec fn spec_id_arg(args: Seq<Seq<char>>) -> Result<int, NoteErrorView> {
    if args.len() < 2 {
        Err(NoteErrorView::MissingField { field: "id"@ })
    } else if !valid_i32_str(args[1]) {
        Err(NoteErrorView::NotAValidID)
    } else {
        Ok(int_str_val(args[1]))
    }
}

/// The id and trailing string arguments of a command, with the id parsed
/// first, so an invalid id is reported before a missing string argument.
pub open spec fn spec_id_and_string_arg(args: Seq<Seq<char>>) -> Result<
    (int, Seq<char>),
    NoteErrorView,
> {
    match spec_id_arg(args) {
        Err(e) => Err(e),
        Ok(id) => if args.len() < 3 {
            Err(NoteErrorView::MissingField { field: "text"@ })
        } else {
            Ok((id, args[2]))
        },
    }
}

/// The command denoted by a non-empty argument vector: the first token,
/// matched ignoring ASCII case, selects the command; the remaining tokens
/// are its arguments. An unrecognized first token denotes `Usage`.
pub open spec fn spec_parse_command(args: Seq<Seq<char>>) -> Result<CommandView, NoteErrorView>
    recommends
        args.len() >= 1,
{
    let w = fold_seq(args[0]);
    if w == fold_seq("list"@) || w == fold_seq("l"@) {
        Ok(CommandView::List)
    } else if w == fold_seq("help"@) || w == fold_seq("h"@) {
        Ok(CommandView::Help)
    } else if w == fold_seq("add"@) || w == fold_seq("a"@) {
        if args.len() < 2 {
            Err(NoteErrorView::MissingField { field: "Name"@ })
        } else {
            Ok(
                CommandView::Add {
                    name: args[1],
                    text: if args.len() >= 3 {
                        args[2]
                    } else {
                        Seq::empty()
                    },
                },
            )
        }
    } else if w == fold_seq("complete"@) || w == fold_seq("c"@) {
        match spec_id_arg(args) {
            Ok(id) => Ok(CommandView::Complete { id }),
            Err(e) => Err(e),
        }
    } else if w == fold_seq("uncomplete"@) || w == fold_seq("u"@) {
        match spec_id_arg(args) {
            Ok(id) => Ok(CommandView::Uncomplete { id }),
            Err(e) => Err(e),
        }
    } else if w == fold_seq("delete"@) || w == fold_seq("d"@) {
        match spec_id_arg(args) {
            Ok(id) => Ok(CommandView::Delete { id }),
            Err(e) => Err(e),
        }
    } else if w == fold_seq("rename"@) || w == fold_seq("r"@) {
        match spec_id_and_string_arg(args) {
            Ok((id, a)) => Ok(CommandView::Rename { id, new_name: a }),
            Err(e) => Err(e),
        }
    } else if w == fold_seq("text"@) || w == fold_seq("t"@) {
        match spec_id_and_string_arg(args) {
            Ok((id, a)) => Ok(CommandView::ChangeText { id, new_text: a }),
            Err(e) => Err(e),
        }
    } else {
        Ok(CommandView::Usage)
    }
}

/// The view of a decoded command or of the error reported instead.
pub open spec fn command_result_view(r: Result<Command, NoteError>) -> Result<
    CommandView,
    NoteErrorView,
> {
    match r {
        Ok(c) => Ok(c@),
        Err(e) => Err(e@),
    }
}

/// Whether `s` equals the command word `kw` ignoring ASCII case.
fn word_matches(s: &str, kw: &str) -> (r: bool)
    ensures
        r == (fold_seq(s@) == fold_seq(kw@)),
{
    let n = s.unicode_len();
    if n != kw.unicode_len() {
        proof {
            assert(fold_seq(s@).len() != fold_seq(kw@).len());
        }
        return false;
    }
    let mut i: usize = 0;
    while i < n
        invariant
            i <= n,
            n == s@.len(),
            n == kw@.len(),
            forall|j: int| 0 <= j < i ==> fold_char(s@[j]) == fold_char(kw@[j]),
        decreases n - i,
    {
        let a = fold_char_exec(s.get_char(i));
        let b = fold_char_exec(kw.get_char(i));
        if a != b {
            proof {
                assert(fold_seq(s@)[i as int] != fold_seq(kw@)[i as int]);
            }
            return false;
        }
        i = i + 1;
    }
    proof {
        assert(fold_seq(s@) =~= fold_seq(kw@));
    }
    true
}

fn id_arg(args: &Vec<String>) -> (r: Result<i32, NoteError>)
    ensures
        r matches Ok(v) ==> spec_id_arg(token_views(args@)) == Ok::<int, NoteErrorView>(
            v as int,
        ),
        r matches Err(e) ==> spec_id_arg(token_views(args@)) == Err::<int, NoteErrorView>(e@),
{
    if args.len() < 2 {
        return Err(NoteError::MissingField { field: "id".to_owned() });
    }
    parse_id(args[1].as_str())
}

/// Decode a non-empty argument vector into the command it denotes, exactly
/// as [`spec_parse_command`] describes.
pub fn parse_command(args: &Vec<String>) -> (r: Result<Command, NoteError>)
    requires
        args@.len() >= 1,
    ensures
        command_result_view(r) == spec_parse_command(token_views(args@)),
{
    let first = args[0].as_str();
    if word_matches(first, "list") || word_matches(first, "l") {
        Ok(Command::List)
    } else if word_matches(first, "help") || word_matches(first, "h") {
        Ok(Command::Help)
    } else if word_matches(first, "add") || word_matches(first, "a") {
        if args.len() < 2 {
            return Err(NoteError::MissingField { field: "Name".to_owned() });
        }
        let name = args[1].clone();
        let text = if args.len() >= 3 {
            args[2].clone()
        } else {
            String::new()
        };
        proof {
            if args@.len() < 3 {
                assert(text@ =~= Seq::<char>::empty());
            }
        }
        Ok(Command::Add { name, text })
    } else if word_matches(first, "complete") || word_matches(first, "c") {
        match id_arg(args) {
            Ok(id) => Ok(Command::Complete { id }),
            Err(e) => Err(e),
        }
    } else if word_matches(first, "uncomplete") || word_matches(first, "u") {
        match id_arg(args) {
            Ok(id) => Ok(Command::Uncomplete { id }),
            Err(e) => Err(e),
        }
    } else if word_matches(first, "delete") || word_matches(first, "d") {
        match id_arg(args) {
            Ok(id) => Ok(Command::Delete { id }),
            Err(e) => Err(e),
        }
    } else if word_matches(first, "rename") || word_matches(first, "r") {
        match id_arg(args) {
            Ok(id) => {
                if args.len() < 3 {
                    return Err(NoteError::MissingField { field: "text".to_owned() });
                }
                Ok(Command::Rename { id, new_name: args[2].clone() })
            },
            Err(e) => Err(e),
        }
    } else if word_matches(first, "text") || word_matches(first, "t") {
        match id_arg(args) {
            Ok(id) => {
                if args.len() < 3 {
                    return Err(NoteError::MissingField { field: "text".to_owned() });
                }
                Ok(Command::ChangeText { id, new_text: args[2].clone() })
            },
            Err(e) => Err(e),
        }
    } else {
        Ok(Command::Usage)
    }
}

} // verus!
