use vstd::prelude::*;
use crate::grammar::{
    is_letter, is_space, keyword_at, letters_end, more_items, paren_body, parse_at, spaces_end,
    word_at,
};
use crate::parser::{parse_result, ParseErrorKind};
use crate::syntax::Term;

verus! {

/// An identifier that reads as a constant: letters only, at least one, and
/// not starting with a builtin keyword.
pub open spec fn is_plain_name(a: Seq<char>) -> bool {
    &&& a.len() > 0
    &&& forall|k: int| 0 <= k < a.len() ==> is_letter(#[trigger] a[k])
    &&& keyword_at(a, 0) is None
}

/// The names written one after another, each pair split by one space.
pub open spec fn spaced(names: Seq<Seq<char>>) -> Seq<char>
    decreases names.len(),
{
    if names.len() <= 1 {
        if names.len() == 1 {
            names[0]
        } else {
            seq![]
        }
    } else {
        names[0] + seq![' '] + spaced(names.drop_first())
    }
}

/// The constants that the names stand for, in order.
pub open spec fn constants(names: Seq<Seq<char>>) -> Seq<Term> {
    Seq::new(names.len(), |i: int| Term::Const(names[i]))
}

proof fn lemma_letters_run(s: Seq<char>, p: int, q: int)
    requires
        0 <= p <= q <= s.len(),
        forall|k: int| p <= k < q ==> is_letter(#[trigger] s[k]),
        q == s.len() || !is_letter(s[q]),
    ensures
        letters_end(s, p) == q,
    decreases q - p,
{
    if p < q {
        lemma_letters_run(s, p + 1, q);
    }
}

/// A plain name written at `p`, followed by a character that is no letter,
/// parses as its constant.
proof fn lemma_name_at(s: Seq<char>, p: int, a: Seq<char>)
    requires
        is_plain_name(a),
        0 <= p,
        p + a.len() < s.len(),
        s.subrange(p, p + a.len()) == a,
        !is_letter(s[p + a.len()]),
    ensures
        parse_at(s, p) == Some((Term::Const(a), p + a.len())),
{
    assert forall|k: int| p <= k < p + a.len() implies is_letter(#[trigger] s[k]) by {
        assert(s[k] == s.subrange(p, p + a.len())[k - p]);
    }
    lemma_letters_run(s, p, p + a.len());
    assert(s[p] == a[0]);
    let words = seq![seq!['h', 'd'], seq!['t', 'l'], seq!['e', 'v', 'a', 'l']];
    assert forall|j: int| 0 <= j < 3 implies !word_at(s, p, #[trigger] words[j]) by {
        let w = words[j];
        if word_at(s, p, w) {
            if w.len() <= a.len() {
                assert(a.subrange(0, w.len() as int) =~= s.subrange(p, p + w.len()));
            } else {
                assert(s.subrange(p, p + w.len())[a.len() as int] == s[p + a.len()]);
            }
        }
    }
    assert(!word_at(s, p, words[0]) && !word_at(s, p, words[1]) && !word_at(s, p, words[2]));
    assert(s.subrange(p, p + a.len()) =~= a);
}

/// After the first of the names written at `p`, the separated items that
/// follow are the constants of the others.
proof fn lemma_spaced_items(s: Seq<char>, p: int, names: Seq<Seq<char>>)
    requires
        names.len() >= 1,
        forall|i: int| 0 <= i < names.len() ==> is_plain_name(#[trigger] names[i]),
        0 <= p,
        p + spaced(names).len() < s.len(),
        s.subrange(p, p + spaced(names).len()) == spaced(names),
        !is_letter(s[p + spaced(names).len()]),
        !is_space(s[p + spaced(names).len()]),
    ensures
        parse_at(s, p) == Some((Term::Const(names[0]), p + names[0].len())),
        more_items(s, p + names[0].len()) == (
            constants(names.drop_first()),
            p + spaced(names).len(),
        ),
    decreases names.len(),
{
    let a = names[0];
    let n = spaced(names).len() as int;
    if names.len() == 1 {
        lemma_name_at(s, p, a);
        assert(constants(names.drop_first()) =~= seq![]);
    } else {
        let rest = names.drop_first();
        let q = p + a.len();
        assert(spaced(names) == a + seq![' '] + spaced(rest));
        assert(s.subrange(p, q) =~= a) by {
            assert forall|k: int| 0 <= k < a.len() implies s.subrange(p, q)[k] == a[k] by {
                assert(s.subrange(p, p + n)[k] == spaced(names)[k]);
            }
        }
        assert(s[q] == ' ') by {
            assert(s.subrange(p, p + n)[a.len() as int] == spaced(names)[a.len() as int]);
        }
        lemma_name_at(s, p, a);
        let b = rest[0];
        assert(is_plain_name(b));
        assert(spaced(rest).len() >= 1) by {
            if rest.len() > 1 {
                assert(spaced(rest) == rest[0] + seq![' '] + spaced(rest.drop_first()));
            }
        }
        assert(s.subrange(q + 1, q + 1 + spaced(rest).len()) =~= spaced(rest)) by {
            assert forall|k: int| 0 <= k < spaced(rest).len() implies s.subrange(
                q + 1,
                q + 1 + spaced(rest).len(),
            )[k] == spaced(rest)[k] by {
                assert(s.subrange(p, p + n)[a.len() + 1 + k] == spaced(names)[a.len() + 1 + k]);
            }
        }
        assert(is_letter(s[q + 1])) by {
            if rest.len() > 1 {
                assert(spaced(rest) == rest[0] + seq![' '] + spaced(rest.drop_first()));
            }
            assert(s.subrange(q + 1, q + 1 + spaced(rest).len())[0] == spaced(rest)[0]);
            assert(spaced(rest)[0] == b[0]);
        }
        assert(spaces_end(s, q + 1) == q + 1);
        assert(spaces_end(s, q) == q + 1);
        lemma_spaced_items(s, q + 1, rest);
        assert(forall|i: int| 0 <= i < rest.len() ==> is_plain_name(#[trigger] rest[i]));
        assert(constants(names.drop_first()) =~= seq![Term::Const(b)] + constants(rest.drop_first()));
    }
}

/// An application written as two or more plain names between parentheses,
/// split by single spaces, parses to the application of their constants in
/// written order.
pub proof fn lemma_application_shape(names: Seq<Seq<char>>)
    requires
        names.len() >= 2,
        forall|i: int| 0 <= i < names.len() ==> is_plain_name(#[trigger] names[i]),
    ensures
        parse_result(seq!['('] + spaced(names) + seq![')']) == Ok::<Term, (int, ParseErrorKind)>(
            Term::Appl(constants(names)),
        ),
{
    let s = seq!['('] + spaced(names) + seq![')'];
    let n = spaced(names).len() as int;
    assert(s.subrange(1, 1 + n) =~= spaced(names));
    assert(s[1 + n] == ')');
    lemma_spaced_items(s, 1, names);
    let a = names[0];
    assert(spaced(names) == a + seq![' '] + spaced(names.drop_first()));
    assert(s[1 + a.len() as int] == ' ') by {
        assert(s.subrange(1, 1 + n)[a.len() as int] == spaced(names)[a.len() as int]);
    }
    assert(letters_end(s, 1) == 1 + a.len()) by {
        assert(parse_at(s, 1) == Some((Term::Const(a), 1 + a.len() as int)));
        assert forall|k: int| 1 <= k < 1 + a.len() implies is_letter(#[trigger] s[k]) by {
            assert(s.subrange(1, 1 + n)[k - 1] == spaced(names)[k - 1]);
            assert(spaced(names)[k - 1] == a[k - 1]);
        }
        lemma_letters_run(s, 1, 1 + a.len() as int);
    }
    assert(constants(names) =~= seq![Term::Const(a)] + constants(names.drop_first()));
    assert(names.drop_first().len() >= 1);
    assert(paren_body(s, 1) == Some((Term::Appl(constants(names)), 1 + n)));
    assert(parse_at(s, 0) == Some((Term::Appl(constants(names)), 2 + n)));
}

} // verus!
