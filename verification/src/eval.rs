//! The evaluator: reduces a syntax node to a value node under a mutable
//! environment, exactly as `crate::semantics` defines.
//!
//! Every function here is proved to return, and to leave the environment
//! in, precisely what the corresponding spec function says, for every
//! input and every fuel bound.

use vstd::prelude::*;

use std::cmp::Ordering;

use crate::ast::Atom;
use crate::ast::Elem;
use crate::ast::ElemModel;
use crate::ast::duplicate_items;
use crate::ast::lemma_view_items;
use crate::ast::view_items;
use crate::env::Env;
use crate::semantics::EnvModel;
use crate::semantics::EvalError;
use crate::semantics::empty_value;
use crate::semantics::spec_apply;
use crate::semantics::spec_atom_test;
use crate::semantics::spec_bind;
use crate::semantics::spec_car;
use crate::semantics::spec_cdr;
use crate::semantics::spec_compare;
use crate::semantics::spec_cond;
use crate::semantics::spec_cons;
use crate::semantics::spec_eq;
use crate::semantics::spec_eval;
use crate::semantics::spec_eval_atom;
use crate::semantics::spec_eval_call;
use crate::semantics::spec_eval_items;
use crate::semantics::spec_eval_one;
use crate::semantics::spec_eval_two;
use crate::semantics::spec_ifelse;
use crate::semantics::spec_ne;
use crate::semantics::spec_not;
use crate::semantics::spec_rcons;
use crate::semantics::spec_sum;
use crate::semantics::spec_op_form;
use crate::semantics::spec_special_form;
use crate::semantics::spec_sym_form;
use crate::semantics::truth_value;

verus! {

broadcast use lemma_view_items;

/// The model of an evaluation result.
pub open spec fn res_model(r: Result<Elem, EvalError>) -> Result<ElemModel, EvalError> {
    match r {
        Ok(v) => Ok(v.view()),
        Err(x) => Err(x),
    }
}

/// Whether the executable outcome `(r, envv)` is the spec outcome `o`.
pub open spec fn outcome_is(
    r: Result<Elem, EvalError>,
    envv: EnvModel,
    o: (Result<ElemModel, EvalError>, EnvModel),
) -> bool {
    res_model(r) == o.0 && envv == o.1
}

/// Whether an executable string equals a literal.
fn str_is(s: &String, lit: &str) -> (r: bool)
    ensures
        r == (s@ == lit@),
{
    let o: String = lit.to_owned();
    *s == o
}

/// The canonical "false" value.
fn empty_list() -> (r: Elem)
    ensures
        r.view() == empty_value(),
{
    Elem::List(Vec::new())
}

/// The canonical "true" value.
fn truth() -> (r: Elem)
    ensures
        r.view() == truth_value(),
{
    Elem::Single(Atom::Symbol("t".to_owned()))
}

/// Structural equality of atoms.
fn atom_eq(a: &Atom, b: &Atom) -> (r: bool)
    ensures
        r == (a.view() == b.view()),
{
    match (a, b) {
        (Atom::Symbol(x), Atom::Symbol(y)) => *x == *y,
        (Atom::String(x), Atom::String(y)) => *x == *y,
        (Atom::Number(x), Atom::Number(y)) => *x == *y,
        _ => false,
    }
}

impl Elem {
    /// `cons`: prepend the value onto a sequence, or pair the two values.
    pub fn cons(self, other: Elem) -> (r: Elem)
        ensures
            r.view() == spec_cons(self.view(), other.view()),
    {
        match other {
            Elem::Call(mut items) => {
                let ghost before = items@;
                items.insert(0, self);
                proof {
                    assert(items@.subrange(1, items@.len() as int) =~= before);
                    assert(view_items(items@) =~= seq![self.view()] + view_items(before));
                }
                Elem::List(items)
            },
            Elem::List(mut items) => {
                let ghost before = items@;
                items.insert(0, self);
                proof {
                    assert(items@.subrange(1, items@.len() as int) =~= before);
                    assert(view_items(items@) =~= seq![self.view()] + view_items(before));
                }
                Elem::List(items)
            },
            _ => pair_list(self, other),
        }
    }

    /// `append`: push the value onto a sequence, or pair the two values.
    pub fn rcons(self, other: Elem) -> (r: Elem)
        ensures
            r.view() == spec_rcons(self.view(), other.view()),
    {
        match self {
            Elem::Call(mut items) => {
                let ghost before = items@;
                items.push(other);
                proof {
                    lemma_view_items(items@);
                    lemma_view_items(before);
                    assert(view_items(items@) =~= view_items(before).push(other.view()));
                }
                Elem::List(items)
            },
            Elem::List(mut items) => {
                let ghost before = items@;
                items.push(other);
                proof {
                    lemma_view_items(items@);
                    lemma_view_items(before);
                    assert(view_items(items@) =~= view_items(before).push(other.view()));
                }
                Elem::List(items)
            },
            _ => pair_list(self, other),
        }
    }

    /// `head`: the first item of a non-empty sequence; the empty list
    /// otherwise.
    pub fn car(self) -> (r: Elem)
        ensures
            r.view() == spec_car(self.view()),
    {
        match self {
            Elem::Call(mut items) => {
                if items.len() == 0 {
                    empty_list()
                } else {
                    items.remove(0)
                }
            },
            Elem::List(mut items) => {
                if items.len() == 0 {
                    empty_list()
                } else {
                    items.remove(0)
                }
            },
            _ => empty_list(),
        }
    }

    /// `tail`: all but the first item, as a `List`.
    pub fn cdr(self) -> (r: Elem)
        ensures
            r.view() == spec_cdr(self.view()),
    {
        match self {
            Elem::Call(mut items) => {
                if items.len() == 0 {
                    empty_list()
                } else {
                    let ghost before = items@;
                    items.remove(0);
                    proof {
                        lemma_view_items_drop_first(before, items@);
                    }
                    Elem::List(items)
                }
            },
            Elem::List(mut items) => {
                if items.len() == 0 {
                    empty_list()
                } else {
                    let ghost before = items@;
                    items.remove(0);
                    proof {
                        lemma_view_items_drop_first(before, items@);
                    }
                    Elem::List(items)
                }
            },
            _ => empty_list(),
        }
    }

    /// `atom`: truthy exactly on leaves.
    pub fn atom(self) -> (r: Elem)
        ensures
            r.view() == spec_atom_test(self.view()),
    {
        match self {
            Elem::Atom(_) => truth(),
            Elem::Single(_) => truth(),
            _ => empty_list(),
        }
    }

    /// `not`: truthy exactly on an empty sequence.
    pub fn not(self) -> (r: Elem)
        ensures
            r.view() == spec_not(self.view()),
    {
        match &self {
            Elem::Call(items) => {
                if items.len() == 0 {
                    truth()
                } else {
                    empty_list()
                }
            },
            Elem::List(items) => {
                if items.len() == 0 {
                    truth()
                } else {
                    empty_list()
                }
            },
            _ => empty_list(),
        }
    }

    /// `eq`: structural equality of leaf payloads.
    pub fn eq(self, other: Elem) -> (r: Elem)
        ensures
            r.view() == spec_eq(self.view(), other.view()),
    {
        match leaves(&self, &other) {
            Some(equal) => {
                if equal {
                    truth()
                } else {
                    empty_list()
                }
            },
            None => empty_list(),
        }
    }

    /// `ne`: structural inequality of leaf payloads.
    pub fn ne(self, other: Elem) -> (r: Elem)
        ensures
            r.view() == spec_ne(self.view(), other.view()),
    {
        match leaves(&self, &other) {
            Some(equal) => {
                if equal {
                    empty_list()
                } else {
                    truth()
                }
            },
            None => empty_list(),
        }
    }

    /// Numeric comparison; non-numbers compare as false.
    pub fn compare(self, other: Elem, order: Ordering) -> (r: Elem)
        ensures
            r.view() == spec_compare(self.view(), other.view(), order),
    {
        let a = match &self {
            Elem::Atom(Atom::Number(n)) => Some(*n),
            Elem::Single(Atom::Number(n)) => Some(*n),
            _ => None,
        };
        let b = match &other {
            Elem::Atom(Atom::Number(n)) => Some(*n),
            Elem::Single(Atom::Number(n)) => Some(*n),
            _ => None,
        };
        match (a, b) {
            (Some(x), Some(y)) => {
                let holds = match order {
                    Ordering::Less => x < y,
                    Ordering::Equal => x == y,
                    Ordering::Greater => x > y,
                };
                if holds {
                    truth()
                } else {
                    empty_list()
                }
            },
            _ => empty_list(),
        }
    }

    /// `if`: a leaf condition picks `t`, a sequence condition picks `f`.
    pub fn ifelse(self, t: Elem, f: Elem, env: &mut Env, fuel: u64) -> (r: Result<
        Elem,
        EvalError,
    >)
        requires
            old(env).wf(),
        ensures
            final(env).wf(),
            outcome_is(
                r,
                final(env)@,
                spec_ifelse(self.view(), t.view(), f.view(), old(env)@, fuel as nat),
            ),
        decreases fuel, 3int, 0int,
    {
        if fuel == 0 {
            return Err(EvalError::Depth);
        }
        match self {
            Elem::Atom(_) => t.eval(env, fuel - 1),
            Elem::Single(_) => t.eval(env, fuel - 1),
            _ => f.eval(env, fuel - 1),
        }
    }

    /// `cond`: scan the supplied clauses in order.
    pub fn cond(self, items: Vec<Elem>, env: &mut Env, fuel: u64) -> (r: Result<Elem, EvalError>)
        requires
            old(env).wf(),
        ensures
            final(env).wf(),
            outcome_is(r, final(env)@, spec_cond(view_items(items@), 1, old(env)@, fuel as nat)),
        decreases fuel, 3int, items@.len() as int + 1,
    {
        if fuel == 0 {
            return Err(EvalError::Depth);
        }
        cond_scan(&items, 1, env, fuel)
    }

    /// Evaluation of one node.
    pub fn eval(self, env: &mut Env, fuel: u64) -> (r: Result<Elem, EvalError>)
        requires
            old(env).wf(),
        ensures
            final(env).wf(),
            outcome_is(r, final(env)@, spec_eval(self.view(), old(env)@, fuel as nat)),
        decreases fuel, 6int, 0int,
    {
        if fuel == 0 {
            return Err(EvalError::Depth);
        }
        match self {
            Elem::Atom(_) => Ok(self.eval_atom(env)),
            Elem::List(_) => Ok(self),
            Elem::Call(_) => self.eval_call(env, fuel),
            Elem::Single(a) => Ok(Elem::Atom(a)),
        }
    }

    /// A bound symbol becomes a copy of its bound value; every other atom
    /// is self-evaluating.
    pub fn eval_atom(self, env: &mut Env) -> (r: Elem)
        requires
            old(env).wf(),
        ensures
            final(env).wf(),
            final(env)@ == old(env)@,
            r.view() == spec_eval_atom(self.view(), old(env)@),
    {
        match &self {
            Elem::Atom(Atom::Symbol(name)) => {
                match env.get(name) {
                    Some(v) => v,
                    None => self,
                }
            },
            _ => self,
        }
    }

    /// Evaluation of a parenthesized form: special forms, built-ins, bound
    /// symbols, and direct application of `(fun [params] body)`.
    pub fn eval_call(self, env: &mut Env, fuel: u64) -> (r: Result<Elem, EvalError>)
        requires
            old(env).wf(),
        ensures
            final(env).wf(),
            outcome_is(r, final(env)@, spec_eval_call(self.view(), old(env)@, fuel as nat)),
        decreases fuel, 5int, 0int,
    {
        if fuel == 0 {
            return Err(EvalError::Depth);
        }
        let items = match self {
            Elem::Call(items) => items,
            other => {
                return Ok(other);
            },
        };
        if items.len() == 0 {
            return Ok(Elem::Call(items));
        }
        proof {
            lemma_view_items(items@);
        }
        match &items[0] {
            Elem::Atom(Atom::Symbol(sym)) => {
                let name = sym.clone();
                eval_sym_form(&name, items, env, fuel)
            },
            Elem::Call(_) => eval_apply(items, env, fuel),
            _ => Ok(Elem::Call(items)),
        }
    }
}

/// A form whose head is the symbol `name`: a special form, a built-in, or
/// a bound name standing for a procedure.
fn eval_sym_form(name: &String, items: Vec<Elem>, env: &mut Env, fuel: u64) -> (r: Result<
    Elem,
    EvalError,
>)
    requires
        old(env).wf(),
        fuel >= 1,
        items@.len() >= 1,
    ensures
        final(env).wf(),
        outcome_is(r, final(env)@, spec_sym_form(name@, view_items(items@), old(env)@, fuel as nat)),
    decreases fuel, 4int, 2int,
{
    let is_op = str_is(name, "cons") || str_is(name, "append") || str_is(name, "list") || str_is(
        name,
        "head",
    ) || str_is(name, "tail") || str_is(name, "atom") || str_is(name, "not") || str_is(name, "eq")
        || str_is(name, "ne") || str_is(name, "lt") || str_is(name, "gt") || str_is(name, "le")
        || str_is(name, "ge");
    if is_op {
        eval_op_form(name, items, env, fuel)
    } else {
        eval_special_form(name, items, env, fuel)
    }
}

/// A value built-in applied to its evaluated operands.
#[verifier::rlimit(100)]
#[verifier::spinoff_prover]
fn eval_op_form(name: &String, items: Vec<Elem>, env: &mut Env, fuel: u64) -> (r: Result<
    Elem,
    EvalError,
>)
    requires
        old(env).wf(),
        fuel >= 1,
        items@.len() >= 1,
        crate::semantics::is_value_op(name@),
    ensures
        final(env).wf(),
        outcome_is(r, final(env)@, spec_op_form(name@, view_items(items@), old(env)@, fuel as nat)),
    decreases fuel, 4int, 1int,
{
    proof {
        lemma_view_items(items@);
    }
    if str_is(name, "cons") {
        match eval_two(&items, env, fuel) {
            Ok((a, b)) => Ok(a.cons(b)),
            Err(x) => Err(x),
        }
    } else if str_is(name, "append") {
        match eval_two(&items, env, fuel) {
            Ok((a, b)) => Ok(a.rcons(b)),
            Err(x) => Err(x),
        }
    } else if str_is(name, "list") {
        match eval_items_from(&items, 1, env, fuel) {
            Ok(vs) => Ok(Elem::List(vs)),
            Err(x) => Err(x),
        }
    } else if str_is(name, "head") {
        match eval_one(&items, env, fuel) {
            Ok(v) => Ok(v.car()),
            Err(x) => Err(x),
        }
    } else if str_is(name, "tail") {
        match eval_one(&items, env, fuel) {
            Ok(v) => Ok(v.cdr()),
            Err(x) => Err(x),
        }
    } else if str_is(name, "atom") {
        match eval_one(&items, env, fuel) {
            Ok(v) => Ok(v.atom()),
            Err(x) => Err(x),
        }
    } else if str_is(name, "not") {
        match eval_one(&items, env, fuel) {
            Ok(v) => Ok(v.not()),
            Err(x) => Err(x),
        }
    } else if str_is(name, "eq") {
        match eval_two(&items, env, fuel) {
            Ok((a, b)) => Ok(a.eq(b)),
            Err(x) => Err(x),
        }
    } else if str_is(name, "ne") {
        match eval_two(&items, env, fuel) {
            Ok((a, b)) => Ok(a.ne(b)),
            Err(x) => Err(x),
        }
    } else if str_is(name, "lt") {
        match eval_two(&items, env, fuel) {
            Ok((a, b)) => Ok(a.compare(b, Ordering::Less)),
            Err(x) => Err(x),
        }
    } else if str_is(name, "gt") {
        match eval_two(&items, env, fuel) {
            Ok((a, b)) => Ok(a.compare(b, Ordering::Greater)),
            Err(x) => Err(x),
        }
    } else if str_is(name, "le") {
        match eval_two(&items, env, fuel) {
            Ok((a, b)) => Ok(a.compare(b, Ordering::Greater).not()),
            Err(x) => Err(x),
        }
    } else if str_is(name, "ge") {
        match eval_two(&items, env, fuel) {
            Ok((a, b)) => Ok(a.compare(b, Ordering::Less).not()),
            Err(x) => Err(x),
        }
    } else {
        proof {
            assert(false);
        }
        Ok(Elem::Call(items))
    }
}

/// A special form (`if`, `cond`, `add`, `let`), or a bound symbol standing
/// for a procedure, or an unbound symbol leaving the form unchanged.
#[verifier::rlimit(100)]
#[verifier::spinoff_prover]
fn eval_special_form(name: &String, items: Vec<Elem>, env: &mut Env, fuel: u64) -> (r: Result<
    Elem,
    EvalError,
>)
    requires
        old(env).wf(),
        fuel >= 1,
        items@.len() >= 1,
        !crate::semantics::is_value_op(name@),
    ensures
        final(env).wf(),
        outcome_is(
            r,
            final(env)@,
            spec_special_form(name@, view_items(items@), old(env)@, fuel as nat),
        ),
    decreases fuel, 4int, 1int,
{
    proof {
        lemma_view_items(items@);
    }
    if str_is(name, "if") {
        if items.len() < 2 {
            return Err(EvalError::Arity);
        }
        let c = match items[1].duplicate().eval(env, fuel - 1) {
            Ok(v) => v,
            Err(x) => {
                return Err(x);
            },
        };
        if items.len() < 4 {
            return Err(EvalError::Arity);
        }
        c.ifelse(items[2].duplicate(), items[3].duplicate(), env, fuel)
    } else if str_is(name, "cond") {
        let dup = duplicate_items(&items);
        proof {
            assert(view_items(dup@) =~= view_items(items@));
        }
        let this = Elem::Call(items);
        this.cond(dup, env, fuel)
    } else if str_is(name, "add") {
        match eval_items_from(&items, 1, env, fuel) {
            Ok(vs) => Ok(Elem::Atom(Atom::Number(sum_items(&vs)))),
            Err(x) => Err(x),
        }
    } else if str_is(name, "let") {
        if items.len() < 2 {
            return Err(EvalError::Arity);
        }
        match &items[1] {
            Elem::Atom(Atom::Symbol(nm)) => {
                if items.len() < 3 {
                    return Err(EvalError::Arity);
                }
                env.insert(nm.clone(), items[2].duplicate());
                Ok(items[1].duplicate())
            },
            _ => Ok(Elem::Call(items)),
        }
    } else {
        match env.get(name) {
            Some(bound) => {
                let mut items_m = duplicate_items(&items);
                items_m[0] = bound;
                proof {
                    assert(view_items(items_m@) =~= view_items(items@).update(
                        0,
                        items_m@[0].view(),
                    ));
                }
                Elem::Call(items_m).eval(env, fuel - 1)
            },
            None => Ok(Elem::Call(items)),
        }
    }
}

/// A form whose head is itself a parenthesized form: applied when that
/// head is `(fun [params] body)`, returned unchanged otherwise.
#[verifier::rlimit(50)]
fn eval_apply(items: Vec<Elem>, env: &mut Env, fuel: u64) -> (r: Result<Elem, EvalError>)
    requires
        old(env).wf(),
        fuel >= 1,
        items@.len() >= 1,
        items@[0] is Call,
    ensures
        final(env).wf(),
        outcome_is(r, final(env)@, spec_apply(view_items(items@), old(env)@, fuel as nat)),
    decreases fuel, 4int, 1int,
{
    proof {
        lemma_view_items(items@);
    }
    match &items[0] {
        Elem::Call(subitems) => {
            proof {
                lemma_view_items(subitems@);
            }
            if subitems.len() == 0 {
                return Err(EvalError::Arity);
            }
            let is_fun = match &subitems[0] {
                Elem::Atom(Atom::Symbol(f)) => str_is(f, "fun"),
                _ => false,
            };
            if is_fun {
                let mut scope = env.duplicate();
                if subitems.len() < 2 {
                    return Err(EvalError::Arity);
                }
                match &subitems[1] {
                    Elem::List(names) => {
                        proof {
                            lemma_view_items(names@);
                        }
                        match bind_params(names, 0, &items, env, &mut scope, fuel) {
                            Ok(()) => (),
                            Err(x) => {
                                return Err(x);
                            },
                        }
                        if subitems.len() < 3 {
                            return Err(EvalError::Arity);
                        }
                        let body = subitems[2].duplicate();
                        match body.eval(&mut scope, fuel - 1) {
                            Ok(v) => Ok(v),
                            Err(x) => Err(x),
                        }
                    },
                    _ => Ok(Elem::Call(items)),
                }
            } else {
                Ok(Elem::Call(items))
            }
        },
        _ => {
            proof {
                assert(false);
            }
            Ok(Elem::Call(items))
        },
    }
}

/// The two values as a fresh `List`.
fn pair_list(a: Elem, b: Elem) -> (r: Elem)
    ensures
        r.view() == ElemModel::List(seq![a.view(), b.view()]),
{
    let mut items: Vec<Elem> = Vec::new();
    items.push(a);
    items.push(b);
    proof {
        assert(view_items(items@) =~= seq![a.view(), b.view()]);
    }
    Elem::List(items)
}

/// Dropping the first node drops its model.
proof fn lemma_view_items_drop_first(before: Seq<Elem>, after: Seq<Elem>)
    requires
        before.len() >= 1,
        after =~= before.subrange(1, before.len() as int),
    ensures
        view_items(after) =~= view_items(before).subrange(1, before.len() as int),
{
    assert(view_items(before) =~= seq![before[0].view()] + view_items(
        before.subrange(1, before.len() as int),
    ));
}

/// The leaf payload comparison of two nodes: `Some(equal)` when both are
/// leaves, `None` otherwise.
fn leaves(a: &Elem, b: &Elem) -> (r: Option<bool>)
    ensures
        match r {
            Some(equal) => crate::semantics::is_leaf(a.view()) && crate::semantics::is_leaf(
                b.view(),
            ) && equal == (crate::semantics::leaf_atom(a.view()) == crate::semantics::leaf_atom(
                b.view(),
            )),
            None => !(crate::semantics::is_leaf(a.view()) && crate::semantics::is_leaf(b.view())),
        },
{
    let pa = match a {
        Elem::Atom(x) => Some(x),
        Elem::Single(x) => Some(x),
        _ => None,
    };
    let pb = match b {
        Elem::Atom(x) => Some(x),
        Elem::Single(x) => Some(x),
        _ => None,
    };
    match (pa, pb) {
        (Some(x), Some(y)) => Some(atom_eq(x, y)),
        _ => None,
    }
}

/// The single evaluated operand of a one-operand built-in.
fn eval_one(items: &Vec<Elem>, env: &mut Env, fuel: u64) -> (r: Result<Elem, EvalError>)
    requires
        old(env).wf(),
    ensures
        final(env).wf(),
        outcome_is(r, final(env)@, spec_eval_one(view_items(items@), old(env)@, fuel as nat)),
    decreases fuel, 3int, 0int,
{
    if fuel == 0 {
        return Err(EvalError::Depth);
    }
    if items.len() < 2 {
        return Err(EvalError::Arity);
    }
    items[1].duplicate().eval(env, fuel - 1)
}

/// The two evaluated operands of a two-operand built-in, left to right.
fn eval_two(items: &Vec<Elem>, env: &mut Env, fuel: u64) -> (r: Result<(Elem, Elem), EvalError>)
    requires
        old(env).wf(),
    ensures
        final(env).wf(),
        ({
            let o = spec_eval_two(view_items(items@), old(env)@, fuel as nat);
            final(env)@ == o.1 && match (r, o.0) {
                (Ok(p), Ok(q)) => p.0.view() == q.0 && p.1.view() == q.1,
                (Err(x), Err(y)) => x == y,
                _ => false,
            }
        }),
    decreases fuel, 3int, 0int,
{
    if fuel == 0 {
        return Err(EvalError::Depth);
    }
    if items.len() < 2 {
        return Err(EvalError::Arity);
    }
    let a = match items[1].duplicate().eval(env, fuel - 1) {
        Ok(v) => v,
        Err(x) => {
            return Err(x);
        },
    };
    if items.len() < 3 {
        return Err(EvalError::Arity);
    }
    let b = match items[2].duplicate().eval(env, fuel - 1) {
        Ok(v) => v,
        Err(x) => {
            return Err(x);
        },
    };
    Ok((a, b))
}

/// The items from position `k` on, each evaluated in order.
fn eval_items_from(items: &Vec<Elem>, k: usize, env: &mut Env, fuel: u64) -> (r: Result<
    Vec<Elem>,
    EvalError,
>)
    requires
        old(env).wf(),
    ensures
        final(env).wf(),
        ({
            let o = spec_eval_items(view_items(items@), k as int, old(env)@, fuel as nat);
            final(env)@ == o.1 && match (r, o.0) {
                (Ok(v), Ok(vs)) => view_items(v@) == vs,
                (Err(x), Err(y)) => x == y,
                _ => false,
            }
        }),
    decreases fuel, 3int, items@.len() - k,
{
    if fuel == 0 {
        return Err(EvalError::Depth);
    }
    if k >= items.len() {
        let out: Vec<Elem> = Vec::new();
        return Ok(out);
    }
    let v = match items[k].duplicate().eval(env, fuel - 1) {
        Ok(v) => v,
        Err(x) => {
            return Err(x);
        },
    };
    let mut out = match eval_items_from(items, k + 1, env, fuel) {
        Ok(vs) => vs,
        Err(x) => {
            return Err(x);
        },
    };
    let ghost tail_views = view_items(out@);
    let ghost before = out@;
    out.insert(0, v);
    proof {
        assert(out@.subrange(1, out@.len() as int) =~= before);
        assert(view_items(out@) =~= seq![v.view()] + tail_views);
    }
    Ok(out)
}

/// The wrapping sum of the number atoms among the values.
fn sum_items(vals: &Vec<Elem>) -> (s: i64)
    ensures
        s == spec_sum(view_items(vals@)),
{
    let ghost whole = view_items(vals@);
    let mut s: i64 = 0;
    let mut k: usize = 0;
    while k < vals.len()
        invariant
            k <= vals@.len(),
            whole == view_items(vals@),
            whole.len() == vals@.len(),
            s == spec_sum(whole.take(k as int)),
        decreases vals@.len() - k,
    {
        proof {
            assert(whole.take(k + 1).drop_last() =~= whole.take(k as int));
            assert(whole.take(k + 1).last() == vals@[k as int].view());
        }
        match &vals[k] {
            Elem::Atom(Atom::Number(n)) => {
                s = s.wrapping_add(*n);
            },
            _ => {
            },
        }
        k = k + 1;
    }
    proof {
        assert(whole.take(vals@.len() as int) =~= whole);
    }
    s
}

/// Clause scan for `cond`, from position `k`.
fn cond_scan(items: &Vec<Elem>, k: usize, env: &mut Env, fuel: u64) -> (r: Result<Elem, EvalError>)
    requires
        old(env).wf(),
    ensures
        final(env).wf(),
        outcome_is(r, final(env)@, spec_cond(view_items(items@), k as int, old(env)@, fuel as nat)),
    decreases fuel, 3int, items@.len() as int + 1 - k,
{
    if fuel == 0 {
        return Err(EvalError::Depth);
    }
    if k >= items.len() {
        return Ok(empty_list());
    }
    match &items[k] {
        Elem::List(pair) => {
            proof {
                lemma_view_items(items@);
                lemma_view_items(pair@);
            }
            if pair.len() < 1 {
                return Err(EvalError::Arity);
            }
            let tv = match pair[0].duplicate().eval(env, fuel - 1) {
                Ok(v) => v,
                Err(x) => {
                    return Err(x);
                },
            };
            let is_leaf_tv = match &tv {
                Elem::Atom(_) => true,
                Elem::Single(_) => true,
                _ => false,
            };
            if is_leaf_tv {
                if pair.len() < 2 {
                    return Err(EvalError::Arity);
                }
                pair[1].duplicate().eval(env, fuel - 1)
            } else {
                cond_scan(items, k + 1, env, fuel)
            }
        },
        _ => cond_scan(items, k + 1, env, fuel),
    }
}

/// Parameter binding for an application: symbols among `names` (from
/// position `k` on) are bound in `scope` to the matching arguments of
/// `items`, evaluated under the caller's environment `env`.
fn bind_params(
    names: &Vec<Elem>,
    k: usize,
    items: &Vec<Elem>,
    env: &mut Env,
    scope: &mut Env,
    fuel: u64,
) -> (r: Result<(), EvalError>)
    requires
        old(env).wf(),
        old(scope).wf(),
    ensures
        final(env).wf(),
        final(scope).wf(),
        ({
            let o = spec_bind(
                view_items(names@),
                k as int,
                view_items(items@),
                old(env)@,
                old(scope)@,
                fuel as nat,
            );
            final(env)@ == o.1 && match (r, o.0) {
                (Ok(()), Ok(sc)) => final(scope)@ == sc,
                (Err(x), Err(y)) => x == y,
                _ => false,
            }
        }),
    decreases fuel, 3int, names@.len() - k,
{
    if fuel == 0 {
        return Err(EvalError::Depth);
    }
    if k >= names.len() {
        return Ok(());
    }
    match &names[k] {
        Elem::Atom(Atom::Symbol(nm)) => {
            if k + 1 >= items.len() {
                return Err(EvalError::Arity);
            }
            let v = match items[k + 1].duplicate().eval(env, fuel - 1) {
                Ok(v) => v,
                Err(x) => {
                    return Err(x);
                },
            };
            scope.insert(nm.clone(), v);
            bind_params(names, k + 1, items, env, scope, fuel)
        },
        _ => bind_params(names, k + 1, items, env, scope, fuel),
    }
}

} // verus!
