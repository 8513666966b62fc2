//! The mathematical model of the evaluator: tokenization, word
//! resolution, the effect of each operation on the stack, and the
//! processing of whole lines (execution lines and definition lines).
use vstd::prelude::*;

use crate::chars::{is_space, lower};
use crate::keyword::{builtin, KeywordView};
use crate::numbers::token_number;

verus! {

/// One definition-table entry: a canonical (case-folded) name and the
/// word's fully expanded body.
pub struct DefView {
    pub name: Seq<char>,
    pub body: Seq<KeywordView>,
}

/// The definition table, oldest entry first; a later entry with the same
/// name shadows an earlier one.
pub type TableView = Seq<DefView>;

/// The error outcomes of processing one line.
pub enum ErrorView {
    /// The token is neither a defined word, nor a built-in, nor a literal.
    UnknownCommand(Seq<char>),
    /// The operation, and the stack as it stood, when operands ran short.
    InsufficientOperands(KeywordView, Seq<i64>),
    DivideByZero,
    IllegalDefinition,
}

/// Looks a canonical name up in the table; the latest definition wins.
pub open spec fn lookup(t: TableView, name: Seq<char>) -> Option<Seq<KeywordView>>
    decreases t.len(),
{
    if t.len() == 0 {
        None
    } else if t.last().name == name {
        Some(t.last().body)
    } else {
        lookup(t.drop_last(), name)
    }
}

/// A fully expanded body holds primitives and literals only, never a
/// reference to another user word.
pub open spec fn body_expanded(body: Seq<KeywordView>) -> bool {
    forall|i: int| 0 <= i < body.len() ==> !((#[trigger] body[i]) is UserCmd)
}

/// Every stored name is case-folded and not a numeric literal, and every
/// stored body is fully expanded.
pub open spec fn wf_table(t: TableView) -> bool {
    forall|i: int| 0 <= i < t.len() ==> {
        &&& lower((#[trigger] t[i]).name) == t[i].name
        &&& token_number(t[i].name) is None
        &&& body_expanded(t[i].body)
    }
}

/// One step of tokenization: `acc` holds the finished tokens, `cur` the
/// (possibly empty) token being read, `s` the rest of the line.
pub open spec fn tok_step(acc: Seq<Seq<char>>, cur: Seq<char>, s: Seq<char>) -> Seq<Seq<char>>
    decreases s.len(),
{
    if s.len() == 0 {
        if cur.len() > 0 {
            acc.push(cur)
        } else {
            acc
        }
    } else if is_space(s[0]) {
        tok_step(
            if cur.len() > 0 {
                acc.push(cur)
            } else {
                acc
            },
            Seq::empty(),
            s.skip(1),
        )
    } else {
        tok_step(acc, cur.push(s[0]), s.skip(1))
    }
}

/// A line's tokens: its maximal runs of non-whitespace characters.
pub open spec fn tokenize(s: Seq<char>) -> Seq<Seq<char>> {
    tok_step(Seq::empty(), Seq::empty(), s)
}

/// The word resolver: a token names a user word (which shadows the
/// built-ins), a built-in, or a base-10 literal, in that order; the
/// result is the operation sequence the token stands for.
pub open spec fn resolve_tok(t: TableView, tok: Seq<char>) -> Result<Seq<KeywordView>, ErrorView> {
    let f = lower(tok);
    match lookup(t, f) {
        Some(body) => Ok(body),
        None => match builtin(f) {
            Some(k) => Ok(seq![k]),
            None => match token_number(f) {
                Some(n) => Ok(seq![KeywordView::Number(n)]),
                None => Err(ErrorView::UnknownCommand(tok)),
            },
        },
    }
}

/// What kind of keyword a single token denotes: the user word it names
/// (by its canonical spelling), the built-in it matches, or the literal
/// it spells. [`resolve_tok`] is this, with user words expanded.
pub open spec fn word_kind(t: TableView, tok: Seq<char>) -> Result<KeywordView, ErrorView> {
    let f = lower(tok);
    if lookup(t, f) is Some {
        Ok(KeywordView::UserCmd(f))
    } else {
        match builtin(f) {
            Some(k) => Ok(k),
            None => match token_number(f) {
                Some(n) => Ok(KeywordView::Number(n)),
                None => Err(ErrorView::UnknownCommand(tok)),
            },
        }
    }
}

/// Truncating division as the machine performs it: toward zero, with the
/// one wrapped case of `i64::MIN / -1`.
pub open spec fn div_trunc(a: i64, b: i64) -> i64
    recommends
        b != 0,
{
    match a.checked_div(b) {
        Some(q) => q,
        None => i64::MIN,
    }
}

/// One operation against the stack: its precondition on the depth,
/// and its exact effect. Arithmetic wraps around on 64-bit overflow.
pub open spec fn apply_prim(stack: Seq<i64>, k: KeywordView) -> Result<Seq<i64>, ErrorView> {
    match k {
        KeywordView::Number(n) => Ok(stack.push(n)),
        KeywordView::UserCmd(name) => Err(ErrorView::UnknownCommand(name)),
        KeywordView::Dup => if stack.len() >= 1 {
            Ok(stack.push(stack.last()))
        } else {
            Err(ErrorView::InsufficientOperands(k, stack))
        },
        KeywordView::Drop => if stack.len() >= 1 {
            Ok(stack.drop_last())
        } else {
            Err(ErrorView::InsufficientOperands(k, stack))
        },
        _ => if stack.len() >= 2 {
            let a = stack[stack.len() - 2];
            let b = stack[stack.len() - 1];
            let rest = stack.take(stack.len() - 2);
            match k {
                KeywordView::Plus => Ok(rest.push(vstd::wrapping::i64_specs::wrapping_add(a, b))),
                KeywordView::Minus => Ok(rest.push(vstd::wrapping::i64_specs::wrapping_sub(a, b))),
                KeywordView::Mul => Ok(rest.push(vstd::wrapping::i64_specs::wrapping_mul(a, b))),
                KeywordView::Div => if b == 0 {
                    Err(ErrorView::DivideByZero)
                } else {
                    Ok(rest.push(div_trunc(a, b)))
                },
                KeywordView::Swap => Ok(rest.push(b).push(a)),
                _ => Ok(rest.push(a).push(b).push(a)),
            }
        } else {
            Err(ErrorView::InsufficientOperands(k, stack))
        },
    }
}

/// Runs an expanded operation sequence against the stack, stopping at the
/// first failure.
pub open spec fn run_ops(stack: Seq<i64>, ops: Seq<KeywordView>) -> Result<Seq<i64>, ErrorView>
    decreases ops.len(),
{
    if ops.len() == 0 {
        Ok(stack)
    } else {
        match apply_prim(stack, ops[0]) {
            Ok(s2) => run_ops(s2, ops.skip(1)),
            Err(e) => Err(e),
        }
    }
}

/// An execution line: tokens are resolved left to right against the
/// current table and executed depth-first, each user word's expanded body
/// in its original order.
pub open spec fn run_tokens(t: TableView, stack: Seq<i64>, toks: Seq<Seq<char>>) -> Result<
    Seq<i64>,
    ErrorView,
>
    decreases toks.len(),
{
    if toks.len() == 0 {
        Ok(stack)
    } else {
        match resolve_tok(t, toks[0]) {
            Ok(ops) => match run_ops(stack, ops) {
                Ok(s2) => run_tokens(t, s2, toks.skip(1)),
                Err(e) => Err(e),
            },
            Err(e) => Err(e),
        }
    }
}

/// Resolves a definition body: each token's expansion, concatenated.
pub open spec fn resolve_body(t: TableView, toks: Seq<Seq<char>>) -> Result<
    Seq<KeywordView>,
    ErrorView,
>
    decreases toks.len(),
{
    if toks.len() == 0 {
        Ok(Seq::empty())
    } else {
        match resolve_tok(t, toks[0]) {
            Ok(ops) => match resolve_body(t, toks.skip(1)) {
                Ok(rest) => Ok(ops + rest),
                Err(e) => Err(e),
            },
            Err(e) => Err(e),
        }
    }
}

/// A definition line starts with the token `:`.
pub open spec fn is_def_line(toks: Seq<Seq<char>>) -> bool {
    toks.len() > 0 && toks[0] == seq![':']
}

/// A definition line: `: name body ;`. The name must not read as a
/// numeric literal; the body is resolved against the table as it stood
/// before the line, and the fully expanded result replaces any previous
/// meaning of the name.
pub open spec fn process_def(t: TableView, toks: Seq<Seq<char>>) -> Result<TableView, ErrorView> {
    if toks.len() < 3 || toks.last() != seq![';'] {
        Err(ErrorView::IllegalDefinition)
    } else {
        let name = lower(toks[1]);
        if token_number(name) is Some {
            Err(ErrorView::IllegalDefinition)
        } else {
            match resolve_body(t, toks.subrange(2, toks.len() - 1)) {
                Ok(body) => Ok(t.push(DefView { name, body })),
                Err(e) => Err(e),
            }
        }
    }
}

/// One call of `process`: the table afterwards, and what the call
/// returns. An execution line runs against a stack that starts empty and
/// returns the whole stack; a definition line leaves the stack empty. A
/// failing line leaves the table as it stood.
pub open spec fn spec_process(t: TableView, line: Seq<char>) -> (TableView, Result<
    Seq<i64>,
    ErrorView,
>) {
    let toks = tokenize(line);
    if is_def_line(toks) {
        match process_def(t, toks) {
            Ok(t2) => (t2, Ok(Seq::empty())),
            Err(e) => (t, Err(e)),
        }
    } else {
        (t, run_tokens(t, Seq::empty(), toks))
    }
}

/// A name found in a well-formed table has a fully expanded body.
pub proof fn lemma_lookup_wf(t: TableView, name: Seq<char>)
    requires
        wf_table(t),
        lookup(t, name) is Some,
    ensures
        body_expanded(lookup(t, name)->Some_0),
    decreases t.len(),
{
    if t.len() > 0 && t.last().name != name {
        assert(wf_table(t.drop_last()));
        lemma_lookup_wf(t.drop_last(), name);
    }
}

/// Whatever a token resolves to against a well-formed table is fully
/// expanded: resolution is eager and complete.
pub proof fn lemma_resolve_tok_expanded(t: TableView, tok: Seq<char>)
    requires
        wf_table(t),
        resolve_tok(t, tok) is Ok,
    ensures
        body_expanded(resolve_tok(t, tok)->Ok_0),
{
    let f = lower(tok);
    if lookup(t, f) is Some {
        lemma_lookup_wf(t, f);
    }
}

/// A resolved definition body is fully expanded.
pub proof fn lemma_resolve_body_expanded(t: TableView, toks: Seq<Seq<char>>)
    requires
        wf_table(t),
        resolve_body(t, toks) is Ok,
    ensures
        body_expanded(resolve_body(t, toks)->Ok_0),
    decreases toks.len(),
{
    if toks.len() > 0 {
        lemma_resolve_tok_expanded(t, toks[0]);
        lemma_resolve_body_expanded(t, toks.skip(1));
    }
}

/// A successful definition line keeps the table well formed.
pub proof fn lemma_process_def_wf(t: TableView, toks: Seq<Seq<char>>)
    requires
        wf_table(t),
        process_def(t, toks) is Ok,
    ensures
        wf_table(process_def(t, toks)->Ok_0),
{
    let name = lower(toks[1]);
    assert(lower(name) =~= name) by {
        crate::chars::lemma_lower_idempotent(toks[1]);
    }
    lemma_resolve_body_expanded(t, toks.subrange(2, toks.len() - 1));
    let t2 = process_def(t, toks)->Ok_0;
    assert forall|i: int| 0 <= i < t2.len() implies {
        &&& lower((#[trigger] t2[i]).name) == t2[i].name
        &&& token_number(t2[i].name) is None
        &&& body_expanded(t2[i].body)
    } by {
        if i < t.len() {
            assert(t2[i] == t[i]);
        }
    }
}

} // verus!
