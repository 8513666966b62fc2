//! The errors a `process` call can end in. Every error is terminal for
//! the call that produced it and leaves the evaluator usable.
use vstd::prelude::*;

use crate::chars::chars_to_string;
use crate::keyword::{Keyword, KeywordView};
use crate::numbers::{i64_chars, int_str};
use crate::semantics::ErrorView;
use vstd::string::StringExecFns;

verus! {

/// Why a line failed.
#[derive(Debug)]
pub enum Error {
    /// The token is neither a defined word, nor a built-in, nor a literal.
    UnknownCommand(String),
    /// The operation, and a snapshot of the stack, when operands ran short.
    InsufficientOperands(Keyword, Vec<i64>),
    DivideByZero,
    IllegalDefinition,
}

impl View for Error {
    type V = ErrorView;

    open spec fn view(&self) -> ErrorView {
        match self {
            Error::UnknownCommand(s) => ErrorView::UnknownCommand(s@),
            Error::InsufficientOperands(k, st) => ErrorView::InsufficientOperands(k@, st@),
            Error::DivideByZero => ErrorView::DivideByZero,
            Error::IllegalDefinition => ErrorView::IllegalDefinition,
        }
    }
}

/// The name an operation is reported under.
pub open spec fn kw_name(k: KeywordView) -> Seq<char> {
    match k {
        KeywordView::Plus => "Plus"@,
        KeywordView::Minus => "Minus"@,
        KeywordView::Mul => "Mul"@,
        KeywordView::Div => "Div"@,
        KeywordView::Over => "Over"@,
        KeywordView::Swap => "Swap"@,
        KeywordView::Dup => "Dup"@,
        KeywordView::Drop => "Drop"@,
        KeywordView::UserCmd(s) => s,
        KeywordView::Number(_) => "Number"@,
    }
}

/// The rendering of a stack snapshot: the values in order, comma
/// separated, in brackets.
pub open spec fn join_vals(s: Seq<i64>) -> Seq<char>
    decreases s.len(),
{
    if s.len() == 0 {
        Seq::empty()
    } else if s.len() == 1 {
        int_str(s[0] as int)
    } else {
        join_vals(s.drop_last()) + seq![',', ' '] + int_str(s.last() as int)
    }
}

pub open spec fn stack_str(s: Seq<i64>) -> Seq<char> {
    seq!['['] + join_vals(s) + seq![']']
}

/// What [`Error::message`] returns, for each error.
pub open spec fn message_of(e: ErrorView) -> Seq<char> {
    match e {
        ErrorView::UnknownCommand(s) => "Unknown command: '"@ + s + "'"@,
        ErrorView::InsufficientOperands(k, st) => "too few arguments for '"@ + kw_name(k) + "': "@
            + stack_str(st),
        ErrorView::DivideByZero => "attempt to divide by zero"@,
        ErrorView::IllegalDefinition => "illegal definition"@,
    }
}

/// The reported name of an operation, as an owned string.
fn kw_name_string(k: &Keyword) -> (r: String)
    ensures
        r@ == kw_name(k@),
{
    match k {
        Keyword::Plus => String::from_str("Plus"),
        Keyword::Minus => String::from_str("Minus"),
        Keyword::Mul => String::from_str("Mul"),
        Keyword::Div => String::from_str("Div"),
        Keyword::Over => String::from_str("Over"),
        Keyword::Swap => String::from_str("Swap"),
        Keyword::Dup => String::from_str("Dup"),
        Keyword::Drop => String::from_str("Drop"),
        Keyword::UserCmd(s) => s.clone(),
        Keyword::Number(_) => String::from_str("Number"),
    }
}

/// Renders a stack snapshot, exactly as [`stack_str`] says.
fn stack_string(v: &Vec<i64>) -> (r: String)
    ensures
        r@ == stack_str(v@),
{
    let mut acc: Vec<char> = Vec::new();
    acc.push('[');
    let mut i: usize = 0;
    proof {
        assert(acc@ =~= seq!['['] + join_vals(v@.take(0)));
    }
    while i < v.len()
        invariant
            i <= v@.len(),
            acc@ == seq!['['] + join_vals(v@.take(i as int)),
        decreases v@.len() - i,
    {
        let ghost a0 = acc@;
        if i > 0 {
            acc.push(',');
            acc.push(' ');
        }
        let mut ds = i64_chars(v[i]);
        let ghost a1 = acc@;
        acc.append(&mut ds);
        proof {
            assert(v@.take(i + 1 as int).drop_last() =~= v@.take(i as int));
            assert(v@.take(i + 1 as int).last() == v@[i as int]);
            if i == 0 {
                assert(join_vals(v@.take(1)) == int_str(v@[0] as int));
                assert(acc@ =~= seq!['['] + join_vals(v@.take(1)));
            } else {
                assert(a1 =~= a0 + seq![',', ' ']);
                assert(join_vals(v@.take(i + 1 as int)) == join_vals(v@.take(i as int)) + seq![
                    ',',
                    ' ',
                ] + int_str(v@[i as int] as int));
                assert(acc@ =~= seq!['['] + join_vals(v@.take(i + 1 as int)));
            }
        }
        i = i + 1;
    }
    acc.push(']');
    proof {
        assert(v@.take(v@.len() as int) =~= v@);
        assert(acc@ =~= stack_str(v@));
    }
    chars_to_string(&acc)
}

impl Error {
    /// A human-readable account of the error, naming the failed operation
    /// and the stack as it stood where operands ran short.
    pub fn message(&self) -> (r: String)
        ensures
            r@ == message_of(self@),
    {
        match self {
            Error::UnknownCommand(s) => {
                let mut r = String::from_str("Unknown command: '");
                r.append(s.as_str());
                r.append("'");
                proof {
                    assert(r@ =~= message_of(self@));
                }
                r
            },
            Error::InsufficientOperands(k, st) => {
                let mut r = String::from_str("too few arguments for '");
                let name = kw_name_string(k);
                r.append(name.as_str());
                r.append("': ");
                let snap = stack_string(st);
                r.append(snap.as_str());
                proof {
                    assert(r@ =~= message_of(self@));
                }
                r
            },
            Error::DivideByZero => String::from_str("attempt to divide by zero"),
            Error::IllegalDefinition => String::from_str("illegal definition"),
        }
    }
}

} // verus!
