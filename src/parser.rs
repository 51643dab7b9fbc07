use vstd::prelude::*;
use vstd::string::*;
use crate::grammar::{
    keyword_at, letters_end, list_items, more_items, paren_body, parse_at, spaces_end, word_at,
};
use crate::syntax::{lemma_view_items, views, Builtin, Exp, Term};

verus! {

/// Why a text is not an expression.
#[derive(Debug, PartialEq, Eq, Clone, Copy)]
pub enum ParseErrorKind {
    /// No alternative of the grammar matches where the remainder starts.
    NoMatch,
    /// An expression parsed, but text follows it.
    Trailing,
}

/// A failed parse: the unconsumed remainder of the text, and why.
#[derive(Debug, PartialEq, Eq)]
pub struct ParseError {
    pub input: String,
    pub code: ParseErrorKind,
}

/// The outcome of parsing the whole of `s`: the expression, or the position
/// where the unconsumed remainder starts and the kind of failure. Where no
/// expression parses, the failure is reported where the last alternative,
/// the list, stopped: after the elements that parse when `s` opens a list,
/// else at the start.
pub open spec fn parse_result(s: Seq<char>) -> Result<Term, (int, ParseErrorKind)> {
    match parse_at(s, 0) {
        Some((t, q)) => if q == s.len() {
            Ok(t)
        } else {
            Err((q, ParseErrorKind::Trailing))
        },
        None => if s.len() > 0 && s[0] == '{' {
            Err((list_items(s, 1).1, ParseErrorKind::NoMatch))
        } else {
            Err((0, ParseErrorKind::NoMatch))
        },
    }
}

/// The characters of `text`, in order.
fn chars_of(text: &str) -> (r: Vec<char>)
    ensures
        r@ == text@,
{
    let n = text.unicode_len();
    let mut r: Vec<char> = Vec::new();
    let mut i: usize = 0;
    while i < n
        invariant
            n == text@.len(),
            i <= n,
            r@ == text@.take(i as int),
        decreases n - i,
    {
        r.push(text.get_char(i));
        i += 1;
        assert(r@ =~= text@.take(i as int));
    }
    assert(r@ =~= text@);
    r
}

fn letters_end_of(s: &Vec<char>, p: usize) -> (r: usize)
    requires
        p <= s.len(),
    ensures
        r == letters_end(s@, p as int),
        p <= r <= s.len(),
{
    let mut i = p;
    while i < s.len() && (('a' <= s[i] && s[i] <= 'z') || ('A' <= s[i] && s[i] <= 'Z'))
        invariant
            p <= i <= s.len(),
            letters_end(s@, i as int) == letters_end(s@, p as int),
        decreases s.len() - i,
    {
        i += 1;
    }
    i
}

fn spaces_end_of(s: &Vec<char>, p: usize) -> (r: usize)
    requires
        p <= s.len(),
    ensures
        r == spaces_end(s@, p as int),
        p <= r <= s.len(),
{
    let mut i = p;
    while i < s.len() && (s[i] == ' ' || s[i] == '\t' || s[i] == '\r' || s[i] == '\n')
        invariant
            p <= i <= s.len(),
            spaces_end(s@, i as int) == spaces_end(s@, p as int),
        decreases s.len() - i,
    {
        i += 1;
    }
    i
}

/// Whether the characters of `w` stand in `s` from `p` on.
fn word_at_of(s: &Vec<char>, p: usize, w: &Vec<char>) -> (r: bool)
    requires
        p <= s.len(),
    ensures
        r == word_at(s@, p as int, w@),
{
    if w.len() > s.len() - p {
        return false;
    }
    let mut i: usize = 0;
    while i < w.len()
        invariant
            i <= w.len(),
            p + w.len() <= s.len(),
            forall|k: int| 0 <= k < i ==> s@[p + k] == w@[k],
        decreases w.len() - i,
    {
        if s[p + i] != w[i] {
            assert(s@.subrange(p as int, p + w.len())[i as int] != w@[i as int]);
            return false;
        }
        i += 1;
    }
    assert(s@.subrange(p as int, p + w.len()) =~= w@);
    true
}

fn keyword_at_of(s: &Vec<char>, p: usize) -> (r: Option<(Builtin, usize)>)
    requires
        p <= s.len(),
    ensures
        match r {
            Some((b, q)) => keyword_at(s@, p as int) == Some((b, q as int)) && p < q <= s.len(),
            None => keyword_at(s@, p as int) is None,
        },
{
    let hd = vec!['h', 'd'];
    let tl = vec!['t', 'l'];
    let ev = vec!['e', 'v', 'a', 'l'];
    assert(hd@ == seq!['h', 'd']);
    assert(tl@ == seq!['t', 'l']);
    assert(ev@ == seq!['e', 'v', 'a', 'l']);
    if word_at_of(s, p, &hd) {
        Some((Builtin::Hd, p + 2))
    } else if word_at_of(s, p, &tl) {
        Some((Builtin::Tl, p + 2))
    } else if word_at_of(s, p, &ev) {
        Some((Builtin::Eval, p + 4))
    } else {
        None
    }
}

/// The trees of `v` in reverse order.
fn reversed(v: Vec<Exp>) -> (r: Vec<Exp>)
    ensures
        views(r@) == views(v@).reverse(),
{
    let ghost orig = views(v@);
    let ghost n = v@.len();
    let mut v = v;
    let mut r: Vec<Exp> = Vec::new();
    while v.len() > 0
        invariant
            v@.len() + r@.len() == n,
            n == orig.len(),
            forall|k: int| 0 <= k < v@.len() ==> #[trigger] v@[k]@ == orig[k],
            forall|k: int| 0 <= k < r@.len() ==> #[trigger] r@[k]@ == orig[n - 1 - k],
        decreases v.len(),
    {
        let x = v.pop().unwrap();
        r.push(x);
    }
    assert(views(r@) =~= orig.reverse());
    r
}

/// The expression that starts at `p`, as `parse_at` says.
fn parse_at_of(text: &str, s: &Vec<char>, p: usize) -> (r: Option<(Exp, usize)>)
    requires
        s@ == text@,
        p <= s.len(),
    ensures
        match r {
            Some((e, q)) => parse_at(s@, p as int) == Some((e@, q as int)) && p < q <= s.len(),
            None => parse_at(s@, p as int) is None,
        },
    decreases s.len() - p, 0int,
{
    if p >= s.len() {
        return None;
    }
    if let Some((b, q)) = keyword_at_of(s, p) {
        return Some((Exp::Builtin(b), q));
    }
    let c = s[p];
    if ('a' <= c && c <= 'z') || ('A' <= c && c <= 'Z') {
        let q = letters_end_of(s, p + 1);
        assert(q == letters_end(s@, p as int));
        let name = String::from_str(text.substring_char(p, q));
        return Some((Exp::Const(name), q));
    }
    if c == '(' {
        match paren_body_of(text, s, p + 1) {
            Some((t, q)) => {
                if q < s.len() && s[q] == ')' {
                    Some((t, q + 1))
                } else {
                    None
                }
            },
            None => None,
        }
    } else if c == '{' {
        let (items, q) = list_items_of(text, s, p + 1);
        if q < s.len() && s[q] == '}' {
            let stored = reversed(items);
            proof {
                lemma_view_items(stored);
            }
            Some((Exp::Q(stored), q + 1))
        } else {
            None
        }
    } else {
        None
    }
}

/// What stands between parentheses at `p`, as `paren_body` says.
fn paren_body_of(text: &str, s: &Vec<char>, p: usize) -> (r: Option<(Exp, usize)>)
    requires
        s@ == text@,
        p <= s.len(),
    ensures
        match r {
            Some((e, q)) => paren_body(s@, p as int) == Some((e@, q as int)) && p < q <= s.len(),
            None => paren_body(s@, p as int) is None,
        },
    decreases s.len() - p, 1int,
{
    let e = letters_end_of(s, p);
    if p < e && e < s.len() && s[e] == '.' {
        if let Some((body, q)) = parse_at_of(text, s, e + 1) {
            let arg = String::from_str(text.substring_char(p, e));
            return Some((Exp::Lambda { arg, body: Box::new(body) }, q));
        }
    }
    if p < s.len() {
        if let Some((first, q)) = parse_at_of(text, s, p) {
            let (more, r) = more_items_of(text, s, q);
            if more.len() >= 1 {
                let mut items: Vec<Exp> = vec![first];
                let mut more = more;
                let ghost m = views(more@);
                items.append(&mut more);
                let t = Exp::Appl(items);
                proof {
                    lemma_view_items(items);
                    assert(views(items@) =~= seq![first@] + m);
                }
                return Some((t, r));
            }
        }
    }
    None
}

/// The separated expressions that follow `p`, as `more_items` says.
fn more_items_of(text: &str, s: &Vec<char>, p: usize) -> (r: (Vec<Exp>, usize))
    requires
        s@ == text@,
        p <= s.len(),
    ensures
        views(r.0@) == more_items(s@, p as int).0,
        r.1 == more_items(s@, p as int).1,
        p <= r.1 <= s.len(),
    decreases s.len() - p, 2int,
{
    let w = spaces_end_of(s, p);
    if p < w {
        if let Some((t, q)) = parse_at_of(text, s, w) {
            let (rest, r) = more_items_of(text, s, q);
            let mut items: Vec<Exp> = vec![t];
            let mut rest = rest;
            let ghost m = views(rest@);
            items.append(&mut rest);
            assert(views(items@) =~= seq![t@] + m);
            return (items, r);
        }
    }
    let empty: Vec<Exp> = Vec::new();
    assert(views(empty@) =~= seq![]);
    (empty, p)
}

/// The elements of a list body at `p`, as `list_items` says.
fn list_items_of(text: &str, s: &Vec<char>, p: usize) -> (r: (Vec<Exp>, usize))
    requires
        s@ == text@,
        p <= s.len(),
    ensures
        views(r.0@) == list_items(s@, p as int).0,
        r.1 == list_items(s@, p as int).1,
        p <= r.1 <= s.len(),
    decreases s.len() - p, 3int,
{
    if p < s.len() {
        if let Some((t, q)) = parse_at_of(text, s, p) {
            let (rest, r) = more_items_of(text, s, q);
            let mut items: Vec<Exp> = vec![t];
            let mut rest = rest;
            let ghost m = views(rest@);
            items.append(&mut rest);
            assert(views(items@) =~= seq![t@] + m);
            return (items, r);
        }
    }
    let empty: Vec<Exp> = Vec::new();
    assert(views(empty@) =~= seq![]);
    (empty, p)
}

/// Parses the whole of `input` as one expression. The elements of a list
/// are stored in reverse of their written order.
pub fn parse(input: &str) -> (r: Result<Exp, ParseError>)
    ensures
        match (r, parse_result(input@)) {
            (Ok(e), Ok(t)) => e@ == t,
            (Err(err), Err((n, kind))) => err.input@ == input@.subrange(n, input@.len() as int)
                && err.code == kind,
            _ => false,
        },
{
    let s = chars_of(input);
    match parse_at_of(input, &s, 0) {
        Some((e, q)) => {
            if q == s.len() {
                Ok(e)
            } else {
                let rest = String::from_str(input.substring_char(q, s.len()));
                Err(ParseError { input: rest, code: ParseErrorKind::Trailing })
            }
        },
        None => {
            let n = if s.len() > 0 && s[0] == '{' {
                list_items_of(input, &s, 1).1
            } else {
                0
            };
            let rest = String::from_str(input.substring_char(n, s.len()));
            Err(ParseError { input: rest, code: ParseErrorKind::NoMatch })
        },
    }
}

} // verus!
