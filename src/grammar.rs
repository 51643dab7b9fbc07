use vstd::prelude::*;
use crate::syntax::{Builtin, Term};

verus! {

/// A letter of the identifier alphabet: an ASCII letter.
pub open spec fn is_letter(c: char) -> bool {
    ('a' <= c && c <= 'z') || ('A' <= c && c <= 'Z')
}

/// A separator character: space, tab, carriage return or line feed.
pub open spec fn is_space(c: char) -> bool {
    c == ' ' || c == '\t' || c == '\r' || c == '\n'
}

/// The end of the run of letters that starts at `p`.
pub open spec fn letters_end(s: Seq<char>, p: int) -> int
    decreases s.len() - p,
{
    if 0 <= p < s.len() && is_letter(s[p]) {
        letters_end(s, p + 1)
    } else {
        p
    }
}

/// The end of the run of separators that starts at `p`.
pub open spec fn spaces_end(s: Seq<char>, p: int) -> int
    decreases s.len() - p,
{
    if 0 <= p < s.len() && is_space(s[p]) {
        spaces_end(s, p + 1)
    } else {
        p
    }
}

/// `w` is written at `p`.
pub open spec fn word_at(s: Seq<char>, p: int, w: Seq<char>) -> bool {
    0 <= p && p + w.len() <= s.len() && s.subrange(p, p + w.len()) == w
}

/// The builtin whose keyword is written at `p`, if any. The keyword needs
/// no boundary after it: `hdx` reads as `hd` followed by `x`.
pub open spec fn keyword_at(s: Seq<char>, p: int) -> Option<(Builtin, int)> {
    if word_at(s, p, seq!['h', 'd']) {
        Some((Builtin::Hd, p + 2))
    } else if word_at(s, p, seq!['t', 'l']) {
        Some((Builtin::Tl, p + 2))
    } else if word_at(s, p, seq!['e', 'v', 'a', 'l']) {
        Some((Builtin::Eval, p + 4))
    } else {
        None
    }
}

/// The expression that starts at `p` and where it ends, trying in order: a
/// builtin keyword, an identifier, a parenthesised lambda or application, a
/// braced list.
pub open spec fn parse_at(s: Seq<char>, p: int) -> Option<(Term, int)>
    decreases s.len() - p, 0int,
{
    if !(0 <= p < s.len()) {
        None
    } else if keyword_at(s, p) is Some {
        let (b, q) = keyword_at(s, p)->Some_0;
        Some((Term::Builtin(b), q))
    } else if is_letter(s[p]) {
        let q = letters_end(s, p);
        Some((Term::Const(s.subrange(p, q)), q))
    } else if s[p] == '(' {
        match paren_body(s, p + 1) {
            Some((t, q)) => if 0 <= q < s.len() && s[q] == ')' {
                Some((t, q + 1))
            } else {
                None
            },
            None => None,
        }
    } else if s[p] == '{' {
        let (items, q) = list_items(s, p + 1);
        if 0 <= q < s.len() && s[q] == '}' {
            Some((Term::Q(items.reverse()), q + 1))
        } else {
            None
        }
    } else {
        None
    }
}

/// What stands between parentheses at `p`: a lambda `arg.body` if one
/// parses there, else an application of at least two expressions.
pub open spec fn paren_body(s: Seq<char>, p: int) -> Option<(Term, int)>
    decreases s.len() - p, 1int,
{
    let e = letters_end(s, p);
    if p < e < s.len() && s[e] == '.' && parse_at(s, e + 1) is Some {
        let (body, q) = parse_at(s, e + 1)->Some_0;
        Some((Term::Lambda(s.subrange(p, e), Box::new(body)), q))
    } else if 0 <= p < s.len() && parse_at(s, p) is Some {
        let (first, q) = parse_at(s, p)->Some_0;
        if p < q <= s.len() {
            let (more, r) = more_items(s, q);
            if more.len() >= 1 {
                Some((Term::Appl(seq![first] + more), r))
            } else {
                None
            }
        } else {
            None
        }
    } else {
        None
    }
}

/// The expressions that follow `p`, each after a run of separators, as many
/// as parse; and where the last of them ends (`p` if none does).
pub open spec fn more_items(s: Seq<char>, p: int) -> (Seq<Term>, int)
    decreases s.len() - p, 2int,
{
    let w = spaces_end(s, p);
    if 0 <= p < w <= s.len() && parse_at(s, w) is Some {
        let (t, q) = parse_at(s, w)->Some_0;
        if w < q <= s.len() {
            let (ts, r) = more_items(s, q);
            (seq![t] + ts, r)
        } else {
            (seq![], p)
        }
    } else {
        (seq![], p)
    }
}

/// The elements of a list body at `p`, zero or more separated expressions,
/// in written order, and where they end.
pub open spec fn list_items(s: Seq<char>, p: int) -> (Seq<Term>, int)
    decreases s.len() - p, 3int,
{
    if 0 <= p < s.len() && parse_at(s, p) is Some {
        let (t, q) = parse_at(s, p)->Some_0;
        if p < q <= s.len() {
            let (ts, r) = more_items(s, q);
            (seq![t] + ts, r)
        } else {
            (seq![], p)
        }
    } else {
        (seq![], p)
    }
}

} // verus!
