//! A line-oriented evaluator for a small stack-based language: integer
//! literals, arithmetic and stack-shuffling primitives, and user-defined
//! words whose bodies are resolved eagerly at definition time.
use vstd::prelude::*;

pub mod chars;
pub mod error;
pub mod keyword;
pub mod laws;
pub mod numbers;
pub mod semantics;

pub use crate::error::Error;
pub use crate::keyword::Keyword;

use crate::chars::{chars_to_string, exec_is_space, lower, lower_token};
use crate::keyword::{builtin_of, clone_keyword, KeywordView};
use crate::numbers::parse_i64;
use crate::semantics::{
    apply_prim, is_def_line, lookup, process_def, resolve_body, resolve_tok, run_ops, run_tokens,
    spec_process, tok_step, tokenize, word_kind, wf_table, DefView, ErrorView, TableView,
};
use vstd::string::StrSliceExecFns;

verus! {

/// One entry of the definition table: a canonical (case-folded) name and
/// the word's fully expanded body.
struct Def {
    name: Vec<char>,
    body: Vec<Keyword>,
}

impl View for Def {
    type V = DefView;

    closed spec fn view(&self) -> DefView {
        DefView { name: self.name@, body: self.body.deep_view() }
    }
}

impl DeepView for Def {
    type V = DefView;

    closed spec fn deep_view(&self) -> DefView {
        self.view()
    }
}

/// The evaluator: owns the definition table. Each `process` call runs one
/// line against a stack that starts empty.
pub struct Evaluator {
    definitions: Vec<Def>,
}

impl View for Evaluator {
    type V = TableView;

    closed spec fn view(&self) -> TableView {
        self.definitions.deep_view()
    }
}

/// Splits a line into its tokens: maximal runs of characters separated by
/// ASCII whitespace, exactly as [`tokenize`] says.
fn tokenize_line(line: &str) -> (r: Vec<Vec<char>>)
    ensures
        r.deep_view() == tokenize(line@),
{
    let n = line.unicode_len();
    let mut toks: Vec<Vec<char>> = Vec::new();
    let mut cur: Vec<char> = Vec::new();
    let mut i: usize = 0;
    proof {
        assert(line@.skip(0) =~= line@);
        assert(toks.deep_view() =~~= Seq::<Seq<char>>::empty());
        assert(cur@ =~= Seq::<char>::empty());
    }
    while i < n
        invariant
            i <= n,
            n == line@.len(),
            tokenize(line@) == tok_step(toks.deep_view(), cur@, line@.skip(i as int)),
        decreases n - i,
    {
        let c = line.get_char(i);
        proof {
            assert(line@.skip(i as int)[0] == line@[i as int]);
            assert(line@.skip(i as int).skip(1) =~= line@.skip(i + 1));
        }
        if exec_is_space(c) {
            if cur.len() > 0 {
                let ghost tv = toks.deep_view();
                let ghost cv = cur@;
                toks.push(cur);
                cur = Vec::new();
                proof {
                    assert(toks.deep_view() =~~= tv.push(cv));
                    assert(cur@ =~= Seq::<char>::empty());
                }
            } else {
                proof {
                    assert(cur@ =~= Seq::<char>::empty());
                }
            }
        } else {
            cur.push(c);
        }
        i = i + 1;
    }
    proof {
        assert(line@.skip(n as int) =~= Seq::<char>::empty());
    }
    if cur.len() > 0 {
        let ghost tv = toks.deep_view();
        let ghost cv = cur@;
        toks.push(cur);
        proof {
            assert(toks.deep_view() =~~= tv.push(cv));
        }
    }
    toks
}

/// An exact copy of the stack, taken for an error snapshot.
fn snapshot(stack: &Vec<i64>) -> (r: Vec<i64>)
    ensures
        r@ == stack@,
{
    let mut r: Vec<i64> = Vec::new();
    let mut i: usize = 0;
    while i < stack.len()
        invariant
            i <= stack.len(),
            r@ == stack@.take(i as int),
        decreases stack.len() - i,
    {
        r.push(stack[i]);
        proof {
            assert(stack@.take(i + 1 as int) =~= stack@.take(i as int).push(stack@[i as int]));
        }
        i = i + 1;
    }
    proof {
        assert(stack@.take(stack@.len() as int) =~= stack@);
    }
    r
}

/// An exact copy of a stored body, so that a later redefinition cannot
/// reach into operations already handed out.
fn clone_body(body: &Vec<Keyword>) -> (r: Vec<Keyword>)
    ensures
        r.deep_view() == body.deep_view(),
{
    let mut r: Vec<Keyword> = Vec::new();
    let mut i: usize = 0;
    while i < body.len()
        invariant
            i <= body.len(),
            r@.len() == i,
            forall|j: int| 0 <= j < i ==> r@[j] == body@[j],
        decreases body.len() - i,
    {
        r.push(clone_keyword(&body[i]));
        i = i + 1;
    }
    proof {
        assert(r.deep_view() =~= body.deep_view());
    }
    r
}

impl Evaluator {
    /// The table well-formedness that every method preserves: stored
    /// names are canonical and stored bodies fully expanded.
    pub open spec fn wf(&self) -> bool {
        wf_table(self@)
    }

    /// A fresh evaluator: empty definition table.
    pub fn new() -> (r: Evaluator)
        ensures
            r@ == Seq::<DefView>::empty(),
            r.wf(),
    {
        let r = Evaluator { definitions: Vec::new() };
        proof {
            assert(r@ =~= Seq::<DefView>::empty());
        }
        r
    }

    /// Scans the table for a canonical name, latest definition first.
    fn find_def<'a>(&'a self, name: &Vec<char>) -> (r: Option<&'a Vec<Keyword>>)
        ensures
            match r {
                Some(b) => lookup(self@, name@) == Some(b.deep_view()),
                None => lookup(self@, name@) is None,
            },
    {
        let mut i: usize = self.definitions.len();
        proof {
            assert(self@.take(i as int) =~= self@);
        }
        while i > 0
            invariant
                i <= self.definitions.len(),
                self@ == self.definitions.deep_view(),
                self@.len() == self.definitions.len(),
                lookup(self@, name@) == lookup(self@.take(i as int), name@),
            decreases i,
        {
            proof {
                assert(self@.take(i as int).last() == self@[i - 1]);
                assert(self@.take(i as int).drop_last() =~= self@.take(i - 1));
            }
            let d = &self.definitions[i - 1];
            if chars::eq_token(&d.name, name) {
                return Some(&d.body);
            }
            i = i - 1;
        }
        proof {
            assert(self@.take(0) =~= Seq::<DefView>::empty());
        }
        None
    }

    /// The word resolver: user words shadow built-ins, built-ins
    /// shadow literals; anything else is unknown. Matching is
    /// case-insensitive; a user word comes back under its canonical
    /// spelling, an unknown token under its original one.
    pub fn parse_word(&self, word: &Vec<char>) -> (r: Result<Keyword, Error>)
        ensures
            match r {
                Ok(k) => word_kind(self@, word@) == Ok::<KeywordView, ErrorView>(k@),
                Err(e) => word_kind(self@, word@) == Err::<KeywordView, ErrorView>(e@),
            },
    {
        let f = lower_token(word);
        if let Some(_) = self.find_def(&f) {
            return Ok(Keyword::UserCmd(chars_to_string(&f)));
        }
        match builtin_of(&f) {
            Some(k) => Ok(k),
            None => match parse_i64(&f) {
                Some(n) => Ok(Keyword::Number(n)),
                None => Err(Error::UnknownCommand(chars_to_string(word))),
            },
        }
    }

    /// A definition line: binds the case-folded name to the body,
    /// resolved eagerly against the table as it stood before the line.
    fn add_definition(&mut self, toks: &Vec<Vec<char>>) -> (r: Result<(), Error>)
        requires
            old(self).wf(),
        ensures
            final(self).wf(),
            match r {
                Ok(_) => process_def(old(self)@, toks.deep_view()) == Ok::<TableView, ErrorView>(
                    final(self)@,
                ),
                Err(e) => process_def(old(self)@, toks.deep_view()) == Err::<TableView, ErrorView>(
                    e@,
                ) && final(self)@ == old(self)@,
            },
    {
        let ghost t = old(self)@;
        let ghost tv = toks.deep_view();
        let n = toks.len();
        proof {
            assert(tv.len() == n);
        }
        if n < 3 {
            return Err(Error::IllegalDefinition);
        }
        let lastok = &toks[n - 1];
        proof {
            assert(tv.last() == toks@[n - 1].deep_view());
            assert(tv.last() =~= lastok@);
        }
        if !(lastok.len() == 1 && lastok[0] == ';') {
            proof {
                assert(tv.last() != seq![';']);
            }
            return Err(Error::IllegalDefinition);
        }
        proof {
            assert(tv.last() =~= seq![';']);
            assert(tv[1] =~= toks@[1]@);
        }
        let name = lower_token(&toks[1]);
        if let Some(_) = parse_i64(&name) {
            return Err(Error::IllegalDefinition);
        }
        let mut body: Vec<Keyword> = Vec::new();
        let ghost bts = tv.subrange(2, n - 1);
        let mut i: usize = 2;
        proof {
            assert(bts.skip(0) =~~= bts);
            if resolve_body(t, bts) is Ok {
                assert(body.deep_view() + resolve_body(t, bts)->Ok_0 =~= resolve_body(t, bts)->Ok_0);
            }
        }
        while i < n - 1
            invariant
                2 <= i <= n - 1,
                3 <= n == toks.len(),
                tv == toks.deep_view(),
                tv.len() == n,
                *self == *old(self),
                old(self).wf(),
                t == old(self)@,
                tv.last() == seq![';'],
                crate::numbers::token_number(lower(tv[1])) is None,
                bts == tv.subrange(2, n - 1),
                match resolve_body(t, bts.skip(i - 2)) {
                    Ok(rest) => resolve_body(t, bts) == Ok::<Seq<KeywordView>, ErrorView>(
                        body.deep_view() + rest,
                    ),
                    Err(e) => resolve_body(t, bts) == Err::<Seq<KeywordView>, ErrorView>(e),
                },
            decreases n - 1 - i,
        {
            proof {
                assert(bts.skip(i - 2)[0] == bts[i - 2]);
                assert(bts[i - 2] == tv[i as int]);
                assert(tv[i as int] == toks@[i as int].deep_view());
                assert(bts.skip(i - 2).skip(1) =~~= bts.skip(i - 1));
            }
            let w = &toks[i];
            proof {
                assert(tv[i as int] =~= w@);
            }
            match self.parse_word(w) {
                Err(e) => {
                    return Err(e);
                },
                Ok(Keyword::UserCmd(_)) => {
                    let f = lower_token(w);
                    let mut found = match self.find_def(&f) {
                        Some(b) => clone_body(b),
                        None => unreached(),
                    };
                    let ghost ops = found.deep_view();
                    let ghost bv = body.deep_view();
                    body.append(&mut found);
                    proof {
                        assert(resolve_tok(t, tv[i as int]) == Ok::<Seq<KeywordView>, ErrorView>(
                            ops,
                        ));
                        assert(body.deep_view() =~~= bv + ops);
                        if resolve_body(t, bts.skip(i - 1)) is Ok {
                            assert((bv + ops) + resolve_body(t, bts.skip(i - 1))->Ok_0 =~= bv + (ops
                                + resolve_body(t, bts.skip(i - 1))->Ok_0));
                        }
                    }
                },
                Ok(k) => {
                    let ghost kv = k@;
                    let ghost bv = body.deep_view();
                    body.push(k);
                    proof {
                        assert(resolve_tok(t, tv[i as int]) == Ok::<Seq<KeywordView>, ErrorView>(
                            seq![kv],
                        ));
                        assert(body.deep_view() =~~= bv.push(kv));
                        assert(bv.push(kv) =~= bv + seq![kv]);
                        if resolve_body(t, bts.skip(i - 1)) is Ok {
                            assert((bv + seq![kv]) + resolve_body(t, bts.skip(i - 1))->Ok_0 =~= bv + (
                            seq![kv] + resolve_body(t, bts.skip(i - 1))->Ok_0));
                        }
                    }
                },
            }
            i = i + 1;
        }
        proof {
            assert(bts.skip(n - 1 - 2) =~~= Seq::<Seq<char>>::empty());
            assert(body.deep_view() + Seq::<KeywordView>::empty() =~= body.deep_view());
        }
        let ghost bodydv = body.deep_view();
        proof {
            assert(tv[1] =~= toks@[1]@);
            assert(name@ == lower(tv[1]));
        }
        self.definitions.push(Def { name, body });
        proof {
            assert(self@ =~= t.push(DefView { name: lower(tv[1]), body: bodydv }));
            assert(process_def(t, tv) == Ok::<TableView, ErrorView>(self@));
            crate::semantics::lemma_process_def_wf(t, tv);
        }
        Ok(())
    }

    /// An execution line: each token, resolved against the current
    /// table, runs against the stack depth-first; the whole stack comes
    /// back, bottom first.
    fn run_line(&mut self, toks: &Vec<Vec<char>>) -> (res: Result<Vec<i64>, Error>)
        requires
            old(self).wf(),
        ensures
            *final(self) == *old(self),
            match res {
                Ok(v) => run_tokens(old(self)@, Seq::empty(), toks.deep_view()) == Ok::<
                    Seq<i64>,
                    ErrorView,
                >(v@),
                Err(e) => run_tokens(old(self)@, Seq::empty(), toks.deep_view()) == Err::<
                    Seq<i64>,
                    ErrorView,
                >(e@),
            },
    {
        let ghost t = old(self)@;
        let ghost tv = toks.deep_view();
        let mut stack: Vec<i64> = Vec::new();
        let mut i: usize = 0;
        proof {
            assert(tv.skip(0) =~~= tv);
            assert(stack@ =~= Seq::<i64>::empty());
        }
        while i < toks.len()
            invariant
                i <= toks.len(),
                tv == toks.deep_view(),
                tv.len() == toks.len(),
                *self == *old(self),
                old(self).wf(),
                t == old(self)@,
                run_tokens(t, Seq::empty(), tv) == run_tokens(t, stack@, tv.skip(i as int)),
            decreases toks.len() - i,
        {
            proof {
                assert(tv.skip(i as int)[0] == tv[i as int]);
                assert(tv[i as int] == toks@[i as int].deep_view());
                assert(tv.skip(i as int).skip(1) =~~= tv.skip(i + 1));
            }
            let w = &toks[i];
            proof {
                assert(tv[i as int] =~= w@);
            }
            match self.parse_word(w) {
                Err(e) => {
                    return Err(e);
                },
                Ok(Keyword::UserCmd(_)) => {
                    let f = lower_token(w);
                    let body = match self.find_def(&f) {
                        Some(b) => clone_body(b),
                        None => unreached(),
                    };
                    let ghost ops = body.deep_view();
                    proof {
                        crate::semantics::lemma_lookup_wf(t, f@);
                        assert(resolve_tok(t, tv[i as int]) == Ok::<Seq<KeywordView>, ErrorView>(
                            ops,
                        ));
                        assert(ops.skip(0) =~= ops);
                    }
                    let ghost s_in = stack@;
                    let mut j: usize = 0;
                    while j < body.len()
                        invariant
                            j <= body.len(),
                            ops == body.deep_view(),
                            ops.len() == body.len(),
                            crate::semantics::body_expanded(ops),
                            *self == *old(self),
                            t == old(self)@,
                            tv == toks.deep_view(),
                            i < tv.len(),
                            tv.skip(i as int)[0] == tv[i as int],
                            tv.skip(i as int).skip(1) == tv.skip(i + 1),
                            resolve_tok(t, tv[i as int]) == Ok::<Seq<KeywordView>, ErrorView>(ops),
                            run_tokens(t, Seq::empty(), tv) == run_tokens(t, s_in, tv.skip(i as int)),
                            run_ops(s_in, ops) == run_ops(stack@, ops.skip(j as int)),
                        decreases body.len() - j,
                    {
                        proof {
                            assert(ops.skip(j as int)[0] == ops[j as int]);
                            assert(ops[j as int] == body@[j as int].deep_view());
                            assert(ops.skip(j as int).skip(1) =~= ops.skip(j + 1));
                        }
                        let k = clone_keyword(&body[j]);
                        let ghost s_pre = stack@;
                        match self.evaluate(&mut stack, k) {
                            Ok(_) => {},
                            Err(e) => {
                                proof {
                                    assert(run_ops(s_pre, ops.skip(j as int)) == Err::<
                                        Seq<i64>,
                                        ErrorView,
                                    >(e@));
                                    assert(run_ops(s_in, ops) == Err::<Seq<i64>, ErrorView>(e@));
                                    assert(run_tokens(t, s_in, tv.skip(i as int)) == Err::<
                                        Seq<i64>,
                                        ErrorView,
                                    >(e@));
                                }
                                return Err(e);
                            },
                        }
                        j = j + 1;
                    }
                    proof {
                        assert(ops.skip(body@.len() as int) =~= Seq::<KeywordView>::empty());
                        assert(run_ops(s_in, ops) == Ok::<Seq<i64>, ErrorView>(stack@));
                        assert(run_tokens(t, s_in, tv.skip(i as int)) == run_tokens(
                            t,
                            stack@,
                            tv.skip(i + 1),
                        ));
                    }
                },
                Ok(k) => {
                    let ghost kv = k@;
                    proof {
                        assert(resolve_tok(t, tv[i as int]) == Ok::<Seq<KeywordView>, ErrorView>(
                            seq![kv],
                        ));
                        assert(seq![kv].skip(1) =~= Seq::<KeywordView>::empty());
                        assert(seq![kv][0] == kv);
                    }
                    let ghost s_pre = stack@;
                    match self.evaluate(&mut stack, k) {
                        Ok(_) => {
                            proof {
                                assert(run_ops(stack@, Seq::<KeywordView>::empty()) == Ok::<
                                    Seq<i64>,
                                    ErrorView,
                                >(stack@));
                                assert(run_ops(s_pre, seq![kv]) == Ok::<Seq<i64>, ErrorView>(
                                    stack@,
                                ));
                                assert(run_tokens(t, s_pre, tv.skip(i as int)) == run_tokens(
                                    t,
                                    stack@,
                                    tv.skip(i + 1),
                                ));
                            }
                        },
                        Err(e) => {
                            proof {
                                assert(run_ops(s_pre, seq![kv]) == Err::<Seq<i64>, ErrorView>(e@));
                                assert(run_tokens(t, s_pre, tv.skip(i as int)) == Err::<
                                    Seq<i64>,
                                    ErrorView,
                                >(e@));
                            }
                            return Err(e);
                        },
                    }
                },
            }
            i = i + 1;
        }
        proof {
            assert(tv.skip(toks@.len() as int) =~~= Seq::<Seq<char>>::empty());
        }
        Ok(stack)
    }

    /// The sole entry point: processes one line of tokens separated by
    /// ASCII whitespace, either a definition line `: name body ;` or an
    /// execution line, exactly as [`spec_process`] says. The stack starts
    /// empty, the definition table carries over from prior calls; a
    /// failing line returns its error and leaves the table as it stood.
    pub fn process(&mut self, row: &str) -> (res: Result<Vec<i64>, Error>)
        requires
            old(self).wf(),
        ensures
            final(self).wf(),
            ({
                let (t2, r) = spec_process(old(self)@, row@);
                &&& final(self)@ == t2
                &&& match res {
                    Ok(v) => r == Ok::<Seq<i64>, ErrorView>(v@),
                    Err(e) => r == Err::<Seq<i64>, ErrorView>(e@),
                }
            }),
    {
        let toks = tokenize_line(row);
        let ghost tv = toks.deep_view();
        let mut isdef = false;
        if toks.len() > 0 {
            let first = &toks[0];
            if first.len() == 1 && first[0] == ':' {
                isdef = true;
                proof {
                    assert(tv[0] =~= seq![':']);
                }
            } else {
                proof {
                    assert(tv[0] == toks@[0].deep_view());
                    assert(tv[0] != seq![':']);
                }
            }
        }
        proof {
            assert(isdef == is_def_line(tv));
        }
        if isdef {
            match self.add_definition(&toks) {
                Ok(_) => {
                    let v: Vec<i64> = Vec::new();
                    proof {
                        assert(v@ =~= Seq::<i64>::empty());
                    }
                    Ok(v)
                },
                Err(e) => Err(e),
            }
        } else {
            self.run_line(&toks)
        }
    }

    /// One operation against the stack, exactly as [`apply_prim`]
    /// says. On failure the caller abandons the stack, so no rollback of
    /// operands already consumed is promised.
    fn evaluate(&mut self, stack: &mut Vec<i64>, keyword: Keyword) -> (r: Result<(), Error>)
        requires
            !(keyword@ is UserCmd),
        ensures
            *final(self) == *old(self),
            match r {
                Ok(_) => apply_prim(old(stack)@, keyword@) == Ok::<Seq<i64>, ErrorView>(
                    final(stack)@,
                ),
                Err(e) => apply_prim(old(stack)@, keyword@) == Err::<Seq<i64>, ErrorView>(e@),
            },
    {
        match keyword {
            Keyword::UserCmd(_) => unreached(),
            Keyword::Number(n) => {
                stack.push(n);
                Ok(())
            },
            Keyword::Drop => {
                match stack.pop() {
                    Some(_) => Ok(()),
                    None => Err(Error::InsufficientOperands(keyword, snapshot(stack))),
                }
            },
            Keyword::Dup => {
                if stack.len() >= 1 {
                    let top = stack[stack.len() - 1];
                    stack.push(top);
                    proof {
                        assert(old(stack)@.push(old(stack)@.last()) =~= stack@);
                    }
                    Ok(())
                } else {
                    Err(Error::InsufficientOperands(keyword, snapshot(stack)))
                }
            },
            _ => {
                if stack.len() < 2 {
                    let snap = snapshot(stack);
                    return Err(Error::InsufficientOperands(keyword, snap));
                }
                let ghost s0 = stack@;
                let b = match stack.pop() {
                    Some(v) => v,
                    None => unreached(),
                };
                let a = match stack.pop() {
                    Some(v) => v,
                    None => unreached(),
                };
                proof {
                    assert(stack@ =~= s0.take(s0.len() - 2));
                }
                match keyword {
                    Keyword::Plus => stack.push(a.wrapping_add(b)),
                    Keyword::Minus => stack.push(a.wrapping_sub(b)),
                    Keyword::Mul => stack.push(a.wrapping_mul(b)),
                    Keyword::Div => {
                        if b == 0 {
                            return Err(Error::DivideByZero);
                        }
                        let q = match a.checked_div(b) {
                            Some(q) => q,
                            None => i64::MIN,
                        };
                        stack.push(q);
                    },
                    Keyword::Swap => {
                        stack.push(b);
                        stack.push(a);
                    },
                    Keyword::Over => {
                        stack.push(a);
                        stack.push(b);
                        stack.push(a);
                    },
                    _ => unreached(),
                }
                Ok(())
            },
        }
    }
}

impl Default for Evaluator {
    /// The same evaluator as [`Evaluator::new`]: empty table.
    fn default() -> (r: Self)
        ensures
            r@ == Seq::<DefView>::empty(),
            r.wf(),
    {
        Evaluator::new()
    }
}

} // verus!
