//! The unit of execution: arithmetic and stack primitives, integer
//! literals, and (transiently, during resolution) references to
//! user-defined words.
use vstd::prelude::*;

verus! {

/// One indivisible unit of execution.
#[derive(Debug)]
pub enum Keyword {
    Plus,
    Minus,
    Mul,
    Div,
    Over,
    Swap,
    Dup,
    Drop,
    UserCmd(String),
    Number(i64),
}

/// The mathematical value of a [`Keyword`]: the name of a user word is a
/// sequence of characters rather than a `String`.
pub enum KeywordView {
    Plus,
    Minus,
    Mul,
    Div,
    Over,
    Swap,
    Dup,
    Drop,
    UserCmd(Seq<char>),
    Number(i64),
}

impl View for Keyword {
    type V = KeywordView;

    open spec fn view(&self) -> KeywordView {
        match self {
            Keyword::Plus => KeywordView::Plus,
            Keyword::Minus => KeywordView::Minus,
            Keyword::Mul => KeywordView::Mul,
            Keyword::Div => KeywordView::Div,
            Keyword::Over => KeywordView::Over,
            Keyword::Swap => KeywordView::Swap,
            Keyword::Dup => KeywordView::Dup,
            Keyword::Drop => KeywordView::Drop,
            Keyword::UserCmd(s) => KeywordView::UserCmd(s@),
            Keyword::Number(n) => KeywordView::Number(*n),
        }
    }
}

impl DeepView for Keyword {
    type V = KeywordView;

    open spec fn deep_view(&self) -> KeywordView {
        self.view()
    }
}

/// An exact copy of a keyword.
pub fn clone_keyword(k: &Keyword) -> (r: Keyword)
    ensures
        r == *k,
{
    match k {
        Keyword::Plus => Keyword::Plus,
        Keyword::Minus => Keyword::Minus,
        Keyword::Mul => Keyword::Mul,
        Keyword::Div => Keyword::Div,
        Keyword::Over => Keyword::Over,
        Keyword::Swap => Keyword::Swap,
        Keyword::Dup => Keyword::Dup,
        Keyword::Drop => Keyword::Drop,
        Keyword::UserCmd(s) => Keyword::UserCmd(s.clone()),
        Keyword::Number(n) => Keyword::Number(*n),
    }
}

/// The fixed built-in keyword table, matched against an already
/// case-folded token.
pub open spec fn builtin(t: Seq<char>) -> Option<KeywordView> {
    if t == seq!['+'] {
        Some(KeywordView::Plus)
    } else if t == seq!['-'] {
        Some(KeywordView::Minus)
    } else if t == seq!['*'] {
        Some(KeywordView::Mul)
    } else if t == seq!['/'] {
        Some(KeywordView::Div)
    } else if t == seq!['d', 'u', 'p'] {
        Some(KeywordView::Dup)
    } else if t == seq!['o', 'v', 'e', 'r'] {
        Some(KeywordView::Over)
    } else if t == seq!['d', 'r', 'o', 'p'] {
        Some(KeywordView::Drop)
    } else if t == seq!['s', 'w', 'a', 'p'] {
        Some(KeywordView::Swap)
    } else {
        None
    }
}

/// Looks a case-folded token up in the built-in table.
pub fn builtin_of(t: &Vec<char>) -> (r: Option<Keyword>)
    ensures
        match r {
            Some(k) => builtin(t@) == Some(k@),
            None => builtin(t@) is None,
        },
{
    if t.len() == 1 {
        let c = t[0];
        if c == '+' {
            proof {
                assert(t@ =~= seq!['+']);
            }
            Some(Keyword::Plus)
        } else if c == '-' {
            proof {
                assert(t@ =~= seq!['-']);
            }
            Some(Keyword::Minus)
        } else if c == '*' {
            proof {
                assert(t@ =~= seq!['*']);
            }
            Some(Keyword::Mul)
        } else if c == '/' {
            proof {
                assert(t@ =~= seq!['/']);
            }
            Some(Keyword::Div)
        } else {
            None
        }
    } else if t.len() == 3 {
        if t[0] == 'd' && t[1] == 'u' && t[2] == 'p' {
            proof {
                assert(t@ =~= seq!['d', 'u', 'p']);
            }
            Some(Keyword::Dup)
        } else {
            None
        }
    } else if t.len() == 4 {
        if t[0] == 'o' && t[1] == 'v' && t[2] == 'e' && t[3] == 'r' {
            proof {
                assert(t@ =~= seq!['o', 'v', 'e', 'r']);
            }
            Some(Keyword::Over)
        } else if t[0] == 'd' && t[1] == 'r' && t[2] == 'o' && t[3] == 'p' {
            proof {
                assert(t@ =~= seq!['d', 'r', 'o', 'p']);
            }
            Some(Keyword::Drop)
        } else if t[0] == 's' && t[1] == 'w' && t[2] == 'a' && t[3] == 'p' {
            proof {
                assert(t@ =~= seq!['s', 'w', 'a', 'p']);
            }
            Some(Keyword::Swap)
        } else {
            None
        }
    } else {
        None
    }
}

} // verus!
