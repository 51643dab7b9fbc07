use vstd::prelude::*;

verus! {

/// The three primitive operators; each is applied only to a list.
#[derive(Debug, PartialEq, Eq, Clone, Copy)]
pub enum Builtin {
    Eval,
    Hd,
    Tl,
}

/// An expression tree.
///
/// `Appl` applies its first item to the others, left to right. `Q` is a list
/// literal whose elements are stored in reverse of their written order, so
/// that the written head is the last stored element.
#[derive(Debug, PartialEq, Eq)]
pub enum Exp {
    Appl(Vec<Exp>),
    Builtin(Builtin),
    Const(String),
    Lambda { arg: String, body: Box<Exp> },
    Q(Vec<Exp>),
}

/// The mathematical value of an expression tree.
pub ghost enum Term {
    Appl(Seq<Term>),
    Builtin(Builtin),
    Const(Seq<char>),
    Lambda(Seq<char>, Box<Term>),
    Q(Seq<Term>),
}

impl Exp {
    /// The term that this tree denotes.
    pub open spec fn view(&self) -> Term
        decreases self,
    {
        match self {
            Exp::Appl(v) => Term::Appl(Seq::new(v.len() as nat, |i: int| if 0 <= i < v.len() { v[i].view() } else { Term::Appl(seq![]) })),
            Exp::Builtin(b) => Term::Builtin(*b),
            Exp::Const(s) => Term::Const(s@),
            Exp::Lambda { arg, body } => Term::Lambda(arg@, Box::new(body.view())),
            Exp::Q(v) => Term::Q(Seq::new(v.len() as nat, |i: int| if 0 <= i < v.len() { v[i].view() } else { Term::Q(seq![]) })),
        }
    }
}

/// The term of an application or a list is made of the terms of its items.
pub proof fn lemma_view_items(v: Vec<Exp>)
    ensures
        Exp::Appl(v)@ == Term::Appl(views(v@)),
        Exp::Q(v)@ == Term::Q(views(v@)),
{
    assert(Exp::Appl(v)@->Appl_0 =~= views(v@));
    assert(Exp::Q(v)@->Q_0 =~= views(v@));
}

/// The terms of a sequence of trees, in order.
pub open spec fn views(v: Seq<Exp>) -> Seq<Term> {
    Seq::new(v.len(), |i: int| v[i]@)
}

impl Exp {
    /// A deep copy of the tree.
    pub fn copy(&self) -> (r: Exp)
        ensures
            r@ == self@,
        decreases self,
    {
        match self {
            Exp::Appl(v) => {
                let r = copy_all(v);
                proof {
                    lemma_view_items(*v);
                    lemma_view_items(r);
                }
                Exp::Appl(r)
            },
            Exp::Builtin(b) => Exp::Builtin(*b),
            Exp::Const(s) => Exp::Const(s.clone()),
            Exp::Lambda { arg, body } => Exp::Lambda { arg: arg.clone(), body: Box::new(body.copy()) },
            Exp::Q(v) => {
                let r = copy_all(v);
                proof {
                    lemma_view_items(*v);
                    lemma_view_items(r);
                }
                Exp::Q(r)
            },
        }
    }
}

impl Clone for Exp {
    fn clone(&self) -> (r: Exp)
        ensures
            r@ == self@,
    {
        self.copy()
    }
}

/// Deep copies of the trees of `v`, in order.
pub fn copy_all(v: &Vec<Exp>) -> (r: Vec<Exp>)
    ensures
        views(r@) == views(v@),
    decreases v,
{
    let mut r: Vec<Exp> = Vec::new();
    let mut i: usize = 0;
    while i < v.len()
        invariant
            i <= v.len(),
            views(r@) == views(v@).take(i as int),
        decreases v.len() - i,
    {
        proof {
            assert(decreases_to!(v => v[i as int]));
        }
        let c = v[i].copy();
        assert(c@ == views(v@)[i as int]);
        let ghost prev = r@;
        r.push(c);
        i += 1;
        assert(r@ == prev.push(c));
        assert(views(r@) =~= views(v@).take(i as int)) by {
            assert(views(prev) =~= views(v@).take(i - 1));
            assert forall|k: int| 0 <= k < i implies #[trigger] views(r@)[k] == views(v@)[k] by {
                if k < i - 1 {
                    assert(views(prev)[k] == views(v@).take(i - 1)[k]);
                }
            }
        }
    }
    assert(views(v@).take(i as int) =~= views(v@));
    r
}

} // verus!
