use vstd::prelude::*;
use crate::syntax::{copy_all, lemma_view_items, views, Builtin, Exp, Term};

verus! {

/// Replaces each free `Const(from)` in `t` by `to`. A binder named `from`
/// shadows it for its whole body; lists and builtins are left as they are.
/// Nothing is renamed, so a free name of `to` may be captured.
pub open spec fn subst(t: Term, from: Seq<char>, to: Term) -> Term
    decreases t,
{
    match t {
        Term::Appl(items) => Term::Appl(
            Seq::new(
                items.len(),
                |i: int|
                    if 0 <= i < items.len() {
                        subst(items[i], from, to)
                    } else {
                        to
                    },
            ),
        ),
        Term::Const(name) => if name == from {
            to
        } else {
            t
        },
        Term::Lambda(arg, body) => if arg == from {
            t
        } else {
            Term::Lambda(arg, Box::new(subst(*body, from, to)))
        },
        _ => t,
    }
}

/// Beta steps at the head of an application: while `acc` is a lambda and
/// `items[i]` is pending, substitute that argument, unevaluated, into the
/// lambda's body. Gives the new head and the index of the first pending item.
pub open spec fn beta(acc: Term, items: Seq<Term>, i: int) -> (Term, int)
    decreases items.len() - i,
{
    if 0 <= i < items.len() && acc is Lambda {
        beta(subst(*acc->Lambda_1, acc->Lambda_0, items[i]), items, i + 1)
    } else {
        (acc, i)
    }
}

/// `hd` of a stored list: a list of its written head, or empty.
pub open spec fn hd_of(l: Seq<Term>) -> Seq<Term> {
    if l.len() == 0 {
        l
    } else {
        seq![l.last()]
    }
}

/// `tl` of a stored list: the list without its written head.
pub open spec fn tl_of(l: Seq<Term>) -> Seq<Term> {
    if l.len() == 0 {
        l
    } else {
        l.drop_last()
    }
}

/// The values of the terms of `ts`, each evaluated within `depth`; `None`
/// where one of them needs more.
pub open spec fn evaluate_each(ts: Seq<Term>, depth: nat) -> Option<Seq<Term>>
    decreases depth, 1 + ts.len(),
{
    if ts.len() == 0 {
        Some(ts)
    } else {
        match (evaluate(ts[0], depth), evaluate_each(ts.drop_first(), depth)) {
            (Some(h), Some(r)) => Some(seq![h] + r),
            _ => None,
        }
    }
}

/// What remains of an application once its head `acc` is reduced and
/// `items[i..]` are pending: the value of `acc` alone when nothing is
/// pending, else an application of the value of `acc` to the values of the
/// pending items.
pub open spec fn residue(acc: Term, items: Seq<Term>, i: int, depth: nat) -> Option<Term>
    decreases depth, 2 + items.len(),
{
    if 0 <= i < items.len() {
        match (evaluate(acc, depth), evaluate_each(items.subrange(i, items.len() as int), depth)) {
            (Some(h), Some(r)) => Some(Term::Appl(seq![h] + r)),
            _ => None,
        }
    } else {
        evaluate(acc, depth)
    }
}

/// The value of `t`, where evaluation may nest calls to at most `depth`
/// levels; `None` where it would need more.
///
/// An application first takes beta steps at its head. A builtin head then
/// consumes a pending list: `hd` and `tl` act on it, `eval` evaluates its
/// stored elements as an application. The rest is as `residue` says. A
/// lambda evaluates its body; constants, lists and builtins are values. An
/// application with no items is left as it is.
pub open spec fn evaluate(t: Term, depth: nat) -> Option<Term>
    decreases depth, 0int,
{
    if depth == 0 {
        None
    } else {
        let d = (depth - 1) as nat;
        match t {
            Term::Appl(items) => if items.len() == 0 {
                Some(t)
            } else {
                let (acc, i) = beta(items[0], items, 1);
                if 0 <= i < items.len() && acc is Builtin && items[i] is Q {
                    let l = items[i]->Q_0;
                    match acc->Builtin_0 {
                        Builtin::Hd => residue(Term::Q(hd_of(l)), items, i + 1, d),
                        Builtin::Tl => residue(Term::Q(tl_of(l)), items, i + 1, d),
                        Builtin::Eval => match evaluate(Term::Appl(l), d) {
                            Some(v) => residue(v, items, i + 1, d),
                            None => None,
                        },
                    }
                } else {
                    residue(acc, items, i, d)
                }
            },
            Term::Lambda(arg, body) => match evaluate(*body, d) {
                Some(v) => Some(Term::Lambda(arg, Box::new(v))),
                None => None,
            },
            _ => Some(t),
        }
    }
}

impl Exp {
    /// The tree with each free `Const(from)` replaced by a copy of `to`.
    pub fn substituted(&self, from: &String, to: &Exp) -> (r: Exp)
        ensures
            r@ == subst(self@, from@, to@),
        decreases self,
    {
        match self {
            Exp::Appl(v) => {
                let mut items: Vec<Exp> = Vec::new();
                let mut i: usize = 0;
                while i < v.len()
                    invariant
                        i <= v.len(),
                        forall|k: int| 0 <= k < v.len() ==> decreases_to!(self => v[k]),
                        items@.len() == i,
                        forall|k: int| 0 <= k < i ==> #[trigger] items@[k]@ == subst(v@[k]@, from@, to@),
                    decreases v.len() - i,
                {
                    let x = v[i].substituted(from, to);
                    items.push(x);
                    i += 1;
                }
                let r = Exp::Appl(items);
                proof {
                    lemma_view_items(*v);
                    lemma_view_items(items);
                    assert(r@->Appl_0 =~= subst(self@, from@, to@)->Appl_0);
                }
                r
            },
            Exp::Const(name) => {
                if *name == *from {
                    to.copy()
                } else {
                    Exp::Const(name.clone())
                }
            },
            Exp::Lambda { arg, body } => {
                if *arg == *from {
                    self.copy()
                } else {
                    Exp::Lambda { arg: arg.clone(), body: Box::new(body.substituted(from, to)) }
                }
            },
            Exp::Builtin(b) => Exp::Builtin(*b),
            Exp::Q(_) => self.copy(),
        }
    }

    /// Replaces, in place, each free `Const(from)` by a copy of `to`.
    pub fn substitute(&mut self, from: &String, to: &Exp)
        ensures
            final(self)@ == subst(old(self)@, from@, to@),
    {
        *self = self.substituted(from, to);
    }
}

} // verus!

verus! {

/// `evaluate_each` succeeds exactly when each term evaluates, and then holds
/// their values in order.
pub proof fn lemma_evaluate_each(ts: Seq<Term>, depth: nat)
    ensures
        evaluate_each(ts, depth) is Some <==> forall|k: int|
            0 <= k < ts.len() ==> (#[trigger] evaluate(ts[k], depth)) is Some,
        evaluate_each(ts, depth) is Some ==> evaluate_each(ts, depth)->Some_0.len() == ts.len()
            && forall|k: int|
            0 <= k < ts.len() ==> evaluate_each(ts, depth)->Some_0[k] == (#[trigger] evaluate(
                ts[k],
                depth,
            ))->Some_0,
    decreases ts.len(),
{
    if ts.len() > 0 {
        let tail = ts.drop_first();
        lemma_evaluate_each(tail, depth);
        assert forall|k: int| 0 < k < ts.len() implies #[trigger] ts[k] == tail[k - 1] by {}
        if evaluate_each(ts, depth) is Some {
            let r = evaluate_each(ts, depth)->Some_0;
            assert forall|k: int| 0 <= k < ts.len() implies r[k] == (#[trigger] evaluate(ts[k], depth))->Some_0 by {
                if k > 0 {
                    assert(evaluate(ts[k], depth) == evaluate(tail[k - 1], depth));
                }
            }
        }
        if !(evaluate(ts[0], depth) is Some) {
            assert(!(evaluate(ts[0], depth) is Some));
        } else if !(evaluate_each(tail, depth) is Some) {
            let k = choose|k: int| 0 <= k < tail.len() && !(#[trigger] evaluate(tail[k], depth) is Some);
            assert(ts[k + 1] == tail[k]);
        }
    }
}

/// The value of an application once its head `acc` is reduced and the items
/// `x[i..]` are pending, as `residue` says.
fn finish(acc: &Exp, x: &Vec<Exp>, i: usize, depth: u64) -> (r: Option<Exp>)
    requires
        1 <= i <= x.len(),
    ensures
        match r {
            Some(v) => residue(acc@, views(x@), i as int, depth as nat) == Some(v@),
            None => residue(acc@, views(x@), i as int, depth as nat) is None,
        },
    decreases depth, 1nat,
{
    let ghost items = views(x@);
    if i == x.len() {
        return eval_bounded(acc, depth);
    }
    let head = match eval_bounded(acc, depth) {
        Some(v) => v,
        None => return None,
    };
    let ghost rest = items.subrange(i as int, items.len() as int);
    let mut out: Vec<Exp> = vec![head];
    let mut j: usize = i;
    while j < x.len()
        invariant
            i <= j <= x.len(),
            items == views(x@),
            rest == items.subrange(i as int, items.len() as int),
            out@.len() == 1 + j - i,
            out@[0]@ == evaluate(acc@, depth as nat)->Some_0,
            forall|k: int| 0 <= k < j - i ==> (#[trigger] evaluate(rest[k], depth as nat)) is Some,
            forall|k: int|
                0 <= k < j - i ==> out@[k + 1]@ == (#[trigger] evaluate(rest[k], depth as nat))->Some_0,
        decreases x.len() - j,
    {
        match eval_bounded(&x[j], depth) {
            Some(v) => {
                out.push(v);
            },
            None => {
                proof {
                    assert(rest[j - i] == x@[j as int]@);
                    lemma_evaluate_each(rest, depth as nat);
                }
                return None;
            },
        }
        j += 1;
    }
    let r = Exp::Appl(out);
    proof {
        lemma_view_items(out);
        lemma_evaluate_each(rest, depth as nat);
        assert(rest.len() == j - i);
        let ev = evaluate_each(rest, depth as nat)->Some_0;
        assert(evaluate_each(rest, depth as nat) is Some);
        assert forall|k: int| 1 <= k < out@.len() implies views(out@)[k] == #[trigger] ev[k - 1] by {
            assert(out@[k]@ == evaluate(rest[k - 1], depth as nat)->Some_0);
        }
        assert(views(out@) =~= seq![evaluate(acc@, depth as nat)->Some_0] + evaluate_each(
            rest,
            depth as nat,
        )->Some_0);
    }
    Some(r)
}

/// The value of `exp` where evaluation may nest at most `depth` levels, or
/// `None` where it needs more.
pub fn eval_bounded(exp: &Exp, depth: u64) -> (r: Option<Exp>)
    ensures
        match r {
            Some(v) => evaluate(exp@, depth as nat) == Some(v@),
            None => evaluate(exp@, depth as nat) is None,
        },
    decreases depth, 0nat,
{
    if depth == 0 {
        return None;
    }
    let d = depth - 1;
    match exp {
        Exp::Appl(x) => {
            if x.len() == 0 {
                return Some(exp.copy());
            }
            proof {
                lemma_view_items(*x);
            }
            let ghost items = views(x@);
            let mut acc = x[0].copy();
            let mut i: usize = 1;
            loop
                invariant
                    1 <= i <= x.len(),
                    items == views(x@),
                    beta(acc@, items, i as int) == beta(items[0], items, 1),
                ensures
                    1 <= i <= x.len(),
                    beta(items[0], items, 1) == (acc@, i as int),
                decreases x.len() - i,
            {
                if i >= x.len() {
                    break;
                }
                match acc {
                    Exp::Lambda { arg, body } => {
                        acc = body.substituted(&arg, &x[i]);
                        i += 1;
                    },
                    other => {
                        acc = other;
                        break;
                    },
                }
            }
            assert(beta(items[0], items, 1) == (acc@, i as int));
            assert(exp@ == Term::Appl(items));
            if i < x.len() {
                if let Exp::Builtin(b) = &acc {
                    if let Exp::Q(l) = &x[i] {
                        proof {
                            lemma_view_items(*l);
                        }
                        let next = match b {
                            Builtin::Hd => {
                                let h = if l.len() == 0 {
                                    Vec::new()
                                } else {
                                    vec![l[l.len() - 1].copy()]
                                };
                                proof {
                                    lemma_view_items(h);
                                    assert(views(h@) =~= hd_of(views(l@)));
                                }
                                Exp::Q(h)
                            },
                            Builtin::Tl => {
                                let mut t = copy_all(l);
                                let ghost whole = t@;
                                if t.len() > 0 {
                                    t.pop();
                                    assert(views(t@) =~= views(whole).drop_last());
                                }
                                proof {
                                    lemma_view_items(t);
                                    assert(views(t@) =~= tl_of(views(l@)));
                                }
                                Exp::Q(t)
                            },
                            Builtin::Eval => {
                                let inner = copy_all(l);
                                proof {
                                    lemma_view_items(inner);
                                }
                                match eval_bounded(&Exp::Appl(inner), d) {
                                    Some(v) => v,
                                    None => return None,
                                }
                            },
                        };
                        return finish(&next, x, i + 1, d);
                    }
                }
            }
            assert(!(i < x.len() && acc@ is Builtin && items[i as int] is Q));
            finish(&acc, x, i, d)
        },
        Exp::Lambda { arg, body } => match eval_bounded(body, d) {
            Some(v) => Some(Exp::Lambda { arg: arg.clone(), body: Box::new(v) }),
            None => None,
        },
        _ => Some(exp.copy()),
    }
}

/// The nesting depth that `eval` allows; a term that needs more is
/// returned unevaluated. Evaluation nests by recursion, so the stack runs out
/// long before this bound does.
pub const EVAL_DEPTH: u64 = 0xffff_ffff_ffff_ffff;

/// The value of `exp`, reduced as `evaluate` says. Constants, lists and
/// builtins are their own values.
#[must_use]
pub fn eval(exp: &Exp) -> (r: Exp)
    ensures
        r@ == match evaluate(exp@, EVAL_DEPTH as nat) {
            Some(v) => v,
            None => exp@,
        },
        exp is Const || exp is Q || exp is Builtin ==> r@ == exp@,
{
    match eval_bounded(exp, EVAL_DEPTH) {
        Some(v) => v,
        None => exp.copy(),
    }
}

} // verus!
