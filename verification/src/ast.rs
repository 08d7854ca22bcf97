//! The syntax/value tree of the language and its mathematical model.

use vstd::prelude::*;

verus! {

/// An immutable leaf value: an identifier, a quoted string literal
/// (stored without its surrounding quotes), or a signed integer.
pub enum Atom {
    Symbol(String),
    String(String),
    Number(i64),
}

/// A syntax/value node.
///
/// - `Atom`: an unquoted atom; a `Symbol` evaluates via environment lookup.
/// - `Single`: a quoted atom (`#name`); evaluates to the literal atom and
///   doubles as the canonical "true" value (`Single(Symbol("t"))`).
/// - `Call`: a parenthesized form, dispatched at evaluation time.
/// - `List`: a bracketed literal; self-evaluating, and the empty one is the
///   canonical "false" value.
pub enum Elem {
    Atom(Atom),
    Single(Atom),
    Call(Vec<Elem>),
    List(Vec<Elem>),
}

/// The mathematical model of an `Atom`.
pub enum AtomModel {
    Symbol(Seq<char>),
    Text(Seq<char>),
    Number(i64),
}

/// The mathematical model of an `Elem`.
pub enum ElemModel {
    Atom(AtomModel),
    Single(AtomModel),
    Call(Seq<ElemModel>),
    List(Seq<ElemModel>),
}

impl Atom {
    pub open spec fn view(self) -> AtomModel {
        match self {
            Atom::Symbol(s) => AtomModel::Symbol(s@),
            Atom::String(s) => AtomModel::Text(s@),
            Atom::Number(n) => AtomModel::Number(n),
        }
    }
}

impl Elem {
    pub open spec fn view(self) -> ElemModel
        decreases self,
    {
        if self is Atom {
            ElemModel::Atom(self->Atom_0.view())
        } else if self is Single {
            ElemModel::Single(self->Single_0.view())
        } else if self is Call {
            ElemModel::Call(view_items(self->Call_0@))
        } else {
            ElemModel::List(view_items(self->List_0@))
        }
    }
}

/// The models of the nodes of a sequence, in order.
pub open spec fn view_items(items: Seq<Elem>) -> Seq<ElemModel>
    decreases items,
{
    if items.len() == 0 {
        Seq::empty()
    } else {
        seq![items[0].view()] + view_items(items.subrange(1, items.len() as int))
    }
}

/// `view_items` maps each node to its model, keeping length and order.
pub broadcast proof fn lemma_view_items(items: Seq<Elem>)
    ensures
        #[trigger] view_items(items).len() == items.len(),
        forall|i: int| 0 <= i < items.len() ==> #[trigger] view_items(items)[i] == items[i].view(),
    decreases items.len(),
{
    if items.len() > 0 {
        let rest = items.subrange(1, items.len() as int);
        lemma_view_items(rest);
        assert forall|i: int| 0 <= i < items.len() implies view_items(items)[i] == items[i].view() by {
            if i >= 1 {
                assert(rest[i - 1] == items[i]);
                assert(view_items(items)[i] == view_items(rest)[i - 1]);
            }
        }
    }
}

impl Atom {
    /// A structurally equal copy.
    pub fn duplicate(&self) -> (r: Atom)
        ensures
            r.view() == self.view(),
    {
        match self {
            Atom::Symbol(s) => Atom::Symbol(s.clone()),
            Atom::String(s) => Atom::String(s.clone()),
            Atom::Number(n) => Atom::Number(*n),
        }
    }
}

impl Elem {
    /// A structurally equal copy of the whole tree.
    pub fn duplicate(&self) -> (r: Elem)
        ensures
            r.view() == self.view(),
        decreases self,
    {
        match self {
            Elem::Atom(a) => Elem::Atom(a.duplicate()),
            Elem::Single(a) => Elem::Single(a.duplicate()),
            Elem::Call(items) => {
                let copy = duplicate_items(items);
                proof {
                    lemma_view_items(items@);
                    lemma_view_items(copy@);
                    assert(view_items(copy@) =~= view_items(items@));
                }
                Elem::Call(copy)
            },
            Elem::List(items) => {
                let copy = duplicate_items(items);
                proof {
                    lemma_view_items(items@);
                    lemma_view_items(copy@);
                    assert(view_items(copy@) =~= view_items(items@));
                }
                Elem::List(copy)
            },
        }
    }
}

/// A structurally equal copy of every node in the sequence.
pub fn duplicate_items(items: &Vec<Elem>) -> (r: Vec<Elem>)
    ensures
        r@.len() == items@.len(),
        forall|i: int| 0 <= i < items@.len() ==> r@[i].view() == items@[i].view(),
    decreases items,
{
    let mut r: Vec<Elem> = Vec::new();
    let mut k: usize = 0;
    while k < items.len()
        invariant
            k <= items@.len(),
            r@.len() == k,
            forall|i: int| 0 <= i < k ==> r@[i].view() == items@[i].view(),
        decreases items@.len() - k,
    {
        r.push(items[k].duplicate());
        k = k + 1;
    }
    r
}

} // verus!
