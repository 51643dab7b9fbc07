use vstd::prelude::*;
use crate::reduce::{beta, evaluate, evaluate_each, residue};
use crate::reduce::{hd_of, tl_of};
use crate::syntax::{Builtin, Term};

verus! {

/// A term in full normal form: no application outside a list. Such a term
/// is a chain of lambdas that ends in a constant, a builtin or a list.
pub open spec fn is_normal(t: Term) -> bool
    decreases t,
{
    match t {
        Term::Appl(_) => false,
        Term::Lambda(_, body) => is_normal(*body),
        _ => true,
    }
}

/// How many lambdas a term opens before its innermost body.
pub open spec fn binder_depth(t: Term) -> nat
    decreases t,
{
    match t {
        Term::Lambda(_, body) => 1 + binder_depth(*body),
        _ => 0,
    }
}

/// A constant, a list or a builtin, standing alone, is its own value.
pub proof fn lemma_opaque_is_value(t: Term, depth: nat)
    requires
        t is Const || t is Q || t is Builtin,
        depth > 0,
    ensures
        evaluate(t, depth) == Some(t),
{
}

/// A term in full normal form is its own value, once evaluation may nest
/// deeper than its lambdas.
pub proof fn lemma_normal_is_value(t: Term, depth: nat)
    requires
        is_normal(t),
        depth > binder_depth(t),
    ensures
        evaluate(t, depth) == Some(t),
    decreases t,
{
    if let Term::Lambda(arg, body) = t {
        lemma_normal_is_value(*body, (depth - 1) as nat);
    }
}

/// Evaluating a value again gives it back, where the value is in full
/// normal form: `evaluate(evaluate(t)) == evaluate(t)`.
pub proof fn lemma_evaluate_idempotent(t: Term, depth: nat, again: nat)
    requires
        evaluate(t, depth) is Some,
        is_normal(evaluate(t, depth)->Some_0),
        again > binder_depth(evaluate(t, depth)->Some_0),
    ensures
        evaluate(evaluate(t, depth)->Some_0, again) == evaluate(t, depth),
{
    lemma_normal_is_value(evaluate(t, depth)->Some_0, again);
}

/// Once evaluation succeeds within a depth, a larger depth gives the same
/// value: the bound decides only whether a value is reached.
pub proof fn lemma_evaluate_deeper(t: Term, depth: nat, more: nat)
    requires
        evaluate(t, depth) is Some,
        depth <= more,
    ensures
        evaluate(t, more) == evaluate(t, depth),
    decreases depth, 0int,
{
    let d = (depth - 1) as nat;
    let e = (more - 1) as nat;
    match t {
        Term::Appl(items) => {
            if items.len() > 0 {
                let (acc, i) = beta(items[0], items, 1);
                if 0 <= i < items.len() && acc is Builtin && items[i] is Q {
                    let l = items[i]->Q_0;
                    match acc->Builtin_0 {
                        Builtin::Hd => lemma_residue_deeper(Term::Q(hd_of(l)), items, i + 1, d, e),
                        Builtin::Tl => lemma_residue_deeper(Term::Q(tl_of(l)), items, i + 1, d, e),
                        Builtin::Eval => {
                            lemma_evaluate_deeper(Term::Appl(l), d, e);
                            let v = evaluate(Term::Appl(l), d)->Some_0;
                            lemma_residue_deeper(v, items, i + 1, d, e);
                        },
                    }
                } else {
                    lemma_residue_deeper(acc, items, i, d, e);
                }
            }
        },
        Term::Lambda(arg, body) => {
            lemma_evaluate_deeper(*body, d, e);
        },
        _ => {},
    }
}

/// `evaluate_each` keeps its value at a larger depth.
pub proof fn lemma_evaluate_each_deeper(ts: Seq<Term>, depth: nat, more: nat)
    requires
        evaluate_each(ts, depth) is Some,
        depth <= more,
    ensures
        evaluate_each(ts, more) == evaluate_each(ts, depth),
    decreases depth, 1 + ts.len(),
{
    if ts.len() > 0 {
        lemma_evaluate_deeper(ts[0], depth, more);
        lemma_evaluate_each_deeper(ts.drop_first(), depth, more);
    }
}

/// `residue` keeps its value at a larger depth.
pub proof fn lemma_residue_deeper(acc: Term, items: Seq<Term>, i: int, depth: nat, more: nat)
    requires
        residue(acc, items, i, depth) is Some,
        depth <= more,
    ensures
        residue(acc, items, i, more) == residue(acc, items, i, depth),
    decreases depth, 2 + items.len(),
{
    lemma_evaluate_deeper(acc, depth, more);
    if 0 <= i < items.len() {
        lemma_evaluate_each_deeper(items.subrange(i, items.len() as int), depth, more);
    }
}

} // verus!
