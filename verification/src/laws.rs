//! The general laws of the evaluator, proved from the model in
//! [`crate::semantics`].
use vstd::prelude::*;

use crate::chars::lower;
use crate::keyword::{builtin, KeywordView};
use crate::numbers::{is_digit, token_number};
use crate::semantics::{
    apply_prim, body_expanded, div_trunc, lookup, process_def, resolve_body, resolve_tok, run_ops,
    run_tokens, wf_table, DefView, ErrorView, TableView,
};

verus! {

/// A numeric literal is never a stored name: definition lines reject
/// numeric names, so a well-formed table cannot resolve one.
proof fn lemma_lookup_numeric_none(t: TableView, name: Seq<char>)
    requires
        wf_table(t),
        token_number(name) is Some,
    ensures
        lookup(t, name) is None,
    decreases t.len(),
{
    if t.len() > 0 {
        assert(wf_table(t.drop_last()));
        lemma_lookup_numeric_none(t.drop_last(), name);
    }
}

/// No built-in spelling reads as a number.
proof fn lemma_builtin_not_numeric(tok: Seq<char>)
    requires
        builtin(tok) is Some,
    ensures
        token_number(tok) is None,
{
    if tok == seq!['+'] || tok == seq!['-'] {
        assert(tok.skip(1) =~= Seq::<char>::empty());
    } else if tok == seq!['*'] || tok == seq!['/'] {
        assert(!is_digit(tok[0]));
    } else {
        assert(!is_digit(tok[0]));
    }
}

/// The sequence of values a literal line denotes.
pub open spec fn literal_values(toks: Seq<Seq<char>>) -> Seq<i64> {
    toks.map_values(|tok: Seq<char>| token_number(lower(tok))->Some_0)
}

/// A line of literals alone pushes exactly those values, in input order,
/// onto whatever stack it starts from.
pub proof fn lemma_literal_line(t: TableView, stack: Seq<i64>, toks: Seq<Seq<char>>)
    requires
        wf_table(t),
        forall|i: int| 0 <= i < toks.len() ==> token_number(lower(#[trigger] toks[i])) is Some,
    ensures
        run_tokens(t, stack, toks) == Ok::<Seq<i64>, ErrorView>(stack + literal_values(toks)),
    decreases toks.len(),
{
    if toks.len() == 0 {
        assert(stack + literal_values(toks) =~= stack);
    } else {
        let f = lower(toks[0]);
        let n = token_number(f)->Some_0;
        lemma_lookup_numeric_none(t, f);
        if builtin(f) is Some {
            lemma_builtin_not_numeric(f);
        }
        assert(resolve_tok(t, toks[0]) == Ok::<Seq<KeywordView>, ErrorView>(
            seq![KeywordView::Number(n)],
        ));
        assert(seq![KeywordView::Number(n)].skip(1) =~= Seq::<KeywordView>::empty());
        assert(run_ops(stack.push(n), Seq::<KeywordView>::empty()) == Ok::<Seq<i64>, ErrorView>(
            stack.push(n),
        ));
        assert(run_ops(stack, seq![KeywordView::Number(n)]) == Ok::<Seq<i64>, ErrorView>(
            stack.push(n),
        ));
        assert(forall|i: int|
            0 <= i < toks.skip(1).len() ==> token_number(lower(#[trigger] toks.skip(1)[i]))
                is Some);
        lemma_literal_line(t, stack.push(n), toks.skip(1));
        assert(stack.push(n) + literal_values(toks.skip(1)) =~= stack + literal_values(toks));
    }
}

/// The stack-shuffling words, on every stack: the exact effect
/// when the operands suffice, and the exact failure when they do not.
pub proof fn lemma_stack_ops(s: Seq<i64>)
    ensures
        s.len() >= 1 ==> apply_prim(s, KeywordView::Dup) == Ok::<Seq<i64>, ErrorView>(
            s.push(s.last()),
        ),
        s.len() >= 1 ==> apply_prim(s, KeywordView::Drop) == Ok::<Seq<i64>, ErrorView>(
            s.drop_last(),
        ),
        s.len() >= 2 ==> apply_prim(s, KeywordView::Swap) == Ok::<Seq<i64>, ErrorView>(
            s.take(s.len() - 2).push(s[s.len() - 1]).push(s[s.len() - 2]),
        ),
        s.len() >= 2 ==> apply_prim(s, KeywordView::Over) == Ok::<Seq<i64>, ErrorView>(
            s.take(s.len() - 2).push(s[s.len() - 2]).push(s[s.len() - 1]).push(s[s.len() - 2]),
        ),
        s.len() < 1 ==> apply_prim(s, KeywordView::Dup) == Err::<Seq<i64>, ErrorView>(
            ErrorView::InsufficientOperands(KeywordView::Dup, s),
        ),
        s.len() < 1 ==> apply_prim(s, KeywordView::Drop) == Err::<Seq<i64>, ErrorView>(
            ErrorView::InsufficientOperands(KeywordView::Drop, s),
        ),
        s.len() < 2 ==> apply_prim(s, KeywordView::Swap) == Err::<Seq<i64>, ErrorView>(
            ErrorView::InsufficientOperands(KeywordView::Swap, s),
        ),
        s.len() < 2 ==> apply_prim(s, KeywordView::Over) == Err::<Seq<i64>, ErrorView>(
            ErrorView::InsufficientOperands(KeywordView::Over, s),
        ),
{
}

/// A successful definition binds the case-folded name to the body as
/// resolved against the table as it stood before the line: eager, early
/// binding.
pub proof fn lemma_eager_binding(t: TableView, toks: Seq<Seq<char>>)
    requires
        process_def(t, toks) is Ok,
    ensures
        lookup(process_def(t, toks)->Ok_0, lower(toks[1])) == Some(
            resolve_body(t, toks.subrange(2, toks.len() - 1))->Ok_0,
        ),
{
    let t2 = process_def(t, toks)->Ok_0;
    assert(t2.last().name == lower(toks[1]));
}

/// A definition only affects names that fold to the one it binds: every
/// other word resolves afterwards exactly as it did before.
pub proof fn lemma_redefine_future_only(t: TableView, toks: Seq<Seq<char>>, other: Seq<char>)
    requires
        process_def(t, toks) is Ok,
        lower(other) != lower(toks[1]),
    ensures
        lookup(process_def(t, toks)->Ok_0, lower(other)) == lookup(t, lower(other)),
        resolve_tok(process_def(t, toks)->Ok_0, other) == resolve_tok(t, other),
{
    let t2 = process_def(t, toks)->Ok_0;
    assert(t2.drop_last() =~= t);
}

/// Defining a name that reads as a numeric literal fails with
/// `IllegalDefinition`, whatever the body.
pub proof fn lemma_numeric_name_illegal(t: TableView, toks: Seq<Seq<char>>)
    requires
        toks.len() >= 3,
        toks.last() == seq![';'],
        token_number(lower(toks[1])) is Some,
    ensures
        process_def(t, toks) == Err::<TableView, ErrorView>(ErrorView::IllegalDefinition),
{
}

/// A token that is no defined word, no built-in and no literal fails with
/// `UnknownCommand`, carrying the token as typed.
pub proof fn lemma_unknown_command(t: TableView, stack: Seq<i64>, tok: Seq<char>)
    requires
        lookup(t, lower(tok)) is None,
        builtin(lower(tok)) is None,
        token_number(lower(tok)) is None,
    ensures
        resolve_tok(t, tok) == Err::<Seq<KeywordView>, ErrorView>(ErrorView::UnknownCommand(tok)),
        run_tokens(t, stack, seq![tok]) == Err::<Seq<i64>, ErrorView>(
            ErrorView::UnknownCommand(tok),
        ),
{
    assert(seq![tok][0] == tok);
}

/// Running one resolved keyword is applying it.
proof fn lemma_run_one(s: Seq<i64>, k: KeywordView)
    ensures
        run_ops(s, seq![k]) == apply_prim(s, k),
{
    assert(seq![k][0] == k);
    assert(seq![k].skip(1) =~= Seq::<KeywordView>::empty());
    if apply_prim(s, k) is Ok {
        let s2 = apply_prim(s, k)->Ok_0;
        assert(run_ops(s2, Seq::<KeywordView>::empty()) == Ok::<Seq<i64>, ErrorView>(s2));
    }
}

/// Running a concatenation is running the parts in order.
proof fn lemma_run_ops_concat(s: Seq<i64>, xs: Seq<KeywordView>, ys: Seq<KeywordView>)
    ensures
        run_ops(s, xs + ys) == match run_ops(s, xs) {
            Ok(s2) => run_ops(s2, ys),
            Err(e) => Err(e),
        },
    decreases xs.len(),
{
    if xs.len() == 0 {
        assert(xs + ys =~= ys);
    } else {
        assert((xs + ys)[0] == xs[0]);
        assert((xs + ys).skip(1) =~= xs.skip(1) + ys);
        if apply_prim(s, xs[0]) is Ok {
            lemma_run_ops_concat(apply_prim(s, xs[0])->Ok_0, xs.skip(1), ys);
        }
    }
}

/// Running a resolved body is running its source tokens: the eager
/// expansion stored at definition time behaves exactly like the text it
/// came from.
pub proof fn lemma_body_tokens_equiv(t: TableView, toks: Seq<Seq<char>>, s: Seq<i64>)
    requires
        resolve_body(t, toks) is Ok,
    ensures
        run_ops(s, resolve_body(t, toks)->Ok_0) == run_tokens(t, s, toks),
    decreases toks.len(),
{
    if toks.len() == 0 {
    } else {
        let ops0 = resolve_tok(t, toks[0])->Ok_0;
        let rest = resolve_body(t, toks.skip(1))->Ok_0;
        lemma_run_ops_concat(s, ops0, rest);
        if run_ops(s, ops0) is Ok {
            lemma_body_tokens_equiv(t, toks.skip(1), run_ops(s, ops0)->Ok_0);
        }
    }
}

/// Defining `: name body ;` and then invoking the name is the same as
/// running `body` textually at the call site, against the table as it
/// stood when the definition was made (so nested words are expanded
/// recursively, and a redefinition binds its own prior self).
pub proof fn lemma_define_then_invoke(
    t: TableView,
    toks: Seq<Seq<char>>,
    call: Seq<char>,
    stack: Seq<i64>,
)
    requires
        process_def(t, toks) is Ok,
        lower(call) == lower(toks[1]),
    ensures
        run_tokens(process_def(t, toks)->Ok_0, stack, seq![call]) == run_tokens(
            t,
            stack,
            toks.subrange(2, toks.len() - 1),
        ),
{
    let t2 = process_def(t, toks)->Ok_0;
    let body = resolve_body(t, toks.subrange(2, toks.len() - 1))->Ok_0;
    assert(t2.last().name == lower(toks[1]));
    assert(seq![call][0] == call);
    assert(seq![call].skip(1) =~= Seq::<Seq<char>>::empty());
    assert(resolve_tok(t2, call) == Ok::<Seq<KeywordView>, ErrorView>(body));
    lemma_body_tokens_equiv(t, toks.subrange(2, toks.len() - 1), stack);
    if run_ops(stack, body) is Ok {
        let s2 = run_ops(stack, body)->Ok_0;
        assert(run_tokens(t2, s2, Seq::<Seq<char>>::empty()) == Ok::<Seq<i64>, ErrorView>(s2));
    }
}

/// The arithmetic words on a fresh stack: `a b op` leaves the one
/// mathematical result when it fits in 64 bits; `a b /` truncates toward
/// zero; dividing by zero fails with `DivideByZero` whatever the dividend.
pub proof fn lemma_arith_line(
    t: TableView,
    ta: Seq<char>,
    tb: Seq<char>,
    top: Seq<char>,
    a: i64,
    b: i64,
)
    requires
        wf_table(t),
        token_number(lower(ta)) == Some(a),
        token_number(lower(tb)) == Some(b),
        lookup(t, lower(top)) is None,
        builtin(lower(top)) is Some,
    ensures
        ({
            let op = builtin(lower(top))->Some_0;
            let run = run_tokens(t, Seq::empty(), seq![ta, tb, top]);
            &&& (op == KeywordView::Plus && i64::MIN <= a + b <= i64::MAX ==> run == Ok::<
                Seq<i64>,
                ErrorView,
            >(seq![(a + b) as i64]))
            &&& (op == KeywordView::Minus && i64::MIN <= a - b <= i64::MAX ==> run == Ok::<
                Seq<i64>,
                ErrorView,
            >(seq![(a - b) as i64]))
            &&& (op == KeywordView::Mul && i64::MIN <= a * b <= i64::MAX ==> run == Ok::<
                Seq<i64>,
                ErrorView,
            >(seq![(a * b) as i64]))
            &&& (op == KeywordView::Div && b != 0 ==> run == Ok::<Seq<i64>, ErrorView>(
                seq![div_trunc(a, b)],
            ))
            &&& (op == KeywordView::Div && b == 0 ==> run == Err::<Seq<i64>, ErrorView>(
                ErrorView::DivideByZero,
            ))
        }),
{
    let op = builtin(lower(top))->Some_0;
    let toks = seq![ta, tb, top];
    lemma_lookup_numeric_none(t, lower(ta));
    lemma_lookup_numeric_none(t, lower(tb));
    if builtin(lower(ta)) is Some {
        lemma_builtin_not_numeric(lower(ta));
    }
    if builtin(lower(tb)) is Some {
        lemma_builtin_not_numeric(lower(tb));
    }
    assert(toks[0] == ta && toks[1] == tb && toks[2] == top);
    assert(toks.skip(1) =~= seq![tb, top]);
    assert(seq![tb, top].skip(1) =~= seq![top]);
    assert(seq![top].skip(1) =~= Seq::<Seq<char>>::empty());
    let s0 = Seq::<i64>::empty();
    let s1 = s0.push(a);
    let s2 = s1.push(b);
    lemma_run_one(s0, KeywordView::Number(a));
    lemma_run_one(s1, KeywordView::Number(b));
    lemma_run_one(s2, op);
    assert(resolve_tok(t, ta) == Ok::<Seq<KeywordView>, ErrorView>(seq![KeywordView::Number(a)]));
    assert(resolve_tok(t, tb) == Ok::<Seq<KeywordView>, ErrorView>(seq![KeywordView::Number(b)]));
    assert(resolve_tok(t, top) == Ok::<Seq<KeywordView>, ErrorView>(seq![op]));
    assert(s2.len() == 2 && s2[0] == a && s2[1] == b);
    assert(s2.take(0) =~= Seq::<i64>::empty());
    if apply_prim(s2, op) is Ok {
        let s3 = apply_prim(s2, op)->Ok_0;
        assert(run_tokens(t, s3, Seq::<Seq<char>>::empty()) == Ok::<Seq<i64>, ErrorView>(s3));
        assert(run_tokens(t, s2, seq![top]) == Ok::<Seq<i64>, ErrorView>(s3));
    } else {
        assert(run_tokens(t, s2, seq![top]) == Err::<Seq<i64>, ErrorView>(
            apply_prim(s2, op)->Err_0,
        ));
    }
    assert(run_tokens(t, s1, seq![tb, top]) == run_tokens(t, s2, seq![top]));
    assert(run_tokens(t, s0, toks) == run_tokens(t, s1, seq![tb, top]));
    assert(op == KeywordView::Plus ==> apply_prim(s2, op) == Ok::<Seq<i64>, ErrorView>(
        Seq::<i64>::empty().push(vstd::wrapping::i64_specs::wrapping_add(a, b)),
    ));
    assert(op == KeywordView::Plus && i64::MIN <= a + b <= i64::MAX ==> apply_prim(s2, op) == Ok::<
        Seq<i64>,
        ErrorView,
    >(seq![(a + b) as i64]) && run_tokens(t, s0, toks) == Ok::<Seq<i64>, ErrorView>(
        seq![(a + b) as i64],
    ));
    if i64::MIN <= a * b <= i64::MAX {
        assert(vstd::wrapping::i64_specs::wrapping_mul(a, b) == (a * b) as i64) by {
            lemma_signed_crop_in_range(a * b);
        }
    }
}

/// `signed_crop` is the identity on values already in range.
proof fn lemma_signed_crop_in_range(x: int)
    requires
        i64::MIN <= x <= i64::MAX,
    ensures
        vstd::wrapping::i64_specs::signed_crop(x) == x as i64,
{
    let range = 0x1_0000_0000_0000_0000int;
    if x >= 0 {
        assert(x % range == x) by (nonlinear_arith)
            requires
                0 <= x < range,
        ;
    } else {
        assert(x % range == x + range) by (nonlinear_arith)
            requires
                -range < x < 0,
        ;
    }
}

/// Token matching is case-insensitive: tokens with the same folded form
/// resolve alike (an unknown token only differs in the spelling its error
/// reports), and a definition line binds the same word whatever the case
/// of the name token.
pub proof fn lemma_case_insensitive(
    t: TableView,
    a: Seq<char>,
    b: Seq<char>,
    stack: Seq<i64>,
    toks: Seq<Seq<char>>,
)
    requires
        lower(a) == lower(b),
        toks.len() >= 3,
    ensures
        resolve_tok(t, a) is Ok ==> resolve_tok(t, a) == resolve_tok(t, b),
        resolve_tok(t, a) is Err <==> resolve_tok(t, b) is Err,
        resolve_tok(t, a) is Ok ==> run_tokens(t, stack, seq![a]) == run_tokens(
            t,
            stack,
            seq![b],
        ),
        lower(toks[1]) == lower(a) ==> process_def(t, toks.update(1, b)) == process_def(t, toks),
{
    assert(seq![a][0] == a);
    assert(seq![b][0] == b);
    assert(seq![a].skip(1) =~= Seq::<Seq<char>>::empty());
    assert(seq![b].skip(1) =~= Seq::<Seq<char>>::empty());
    if resolve_tok(t, a) is Ok {
        let ops = resolve_tok(t, a)->Ok_0;
        if run_ops(stack, ops) is Ok {
            let s2 = run_ops(stack, ops)->Ok_0;
            assert(run_tokens(t, s2, Seq::<Seq<char>>::empty()) == Ok::<Seq<i64>, ErrorView>(s2));
        }
    }
    if lower(toks[1]) == lower(a) {
        let toks2 = toks.update(1, b);
        assert(toks2.last() == toks.last());
        assert(toks2.subrange(2, toks2.len() - 1) =~= toks.subrange(2, toks.len() - 1));
        assert(lower(toks2[1]) == lower(toks[1]));
    }
}

} // verus!
