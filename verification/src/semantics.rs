//! The meaning of evaluation, written over the mathematical models.
//!
//! Every executable evaluation function is proved to return exactly what
//! these functions say. Evaluation is measured by a fuel bound: each nested
//! evaluation step spends one unit, so the definition is total, and a run
//! that exhausts the bound reports `EvalError::Depth` instead of recursing
//! forever. Built-ins invoked with too few operands report
//! `EvalError::Arity` instead of faulting on an out-of-range access; both
//! reports are fatal for the form being evaluated.

use vstd::prelude::*;

use std::cmp::Ordering;

use crate::ast::AtomModel;
use crate::ast::ElemModel;

verus! {

/// A fatal evaluation fault.
///
/// `Depth` reports an exhausted recursion bound; `Arity` reports a built-in
/// or an application that would have read a missing operand. Neither is
/// recoverable: the driver abandons the current form.
#[derive(Clone, Copy, Debug, PartialEq, Eq)]
pub enum EvalError {
    Depth,
    Arity,
}

/// The bindings visible during evaluation, abstractly.
pub type EnvModel = Map<Seq<char>, ElemModel>;

/// One spec evaluation outcome: the result (or fault) and the environment
/// as the evaluated form leaves it.
pub type EvalOutcome = (Result<ElemModel, EvalError>, EnvModel);

/// The canonical "true" value: the quoted symbol `t`.
pub open spec fn truth_value() -> ElemModel {
    ElemModel::Single(AtomModel::Symbol("t"@))
}

/// The canonical "false" value: the empty list.
pub open spec fn empty_value() -> ElemModel {
    ElemModel::List(Seq::empty())
}

/// An `Atom` or `Single` node: a leaf.
pub open spec fn is_leaf(e: ElemModel) -> bool {
    e is Atom || e is Single
}

/// The payload of a leaf.
pub open spec fn leaf_atom(e: ElemModel) -> AtomModel
    recommends
        is_leaf(e),
{
    if e is Atom {
        e->Atom_0
    } else {
        e->Single_0
    }
}

/// A `Call` or `List` node: a sequence.
pub open spec fn is_sequence(e: ElemModel) -> bool {
    e is Call || e is List
}

/// The items of a sequence node.
pub open spec fn sequence_items(e: ElemModel) -> Seq<ElemModel>
    recommends
        is_sequence(e),
{
    if e is Call {
        e->Call_0
    } else {
        e->List_0
    }
}

/// `cons`: prepend to a sequence; otherwise pair the two values.
pub open spec fn spec_cons(a: ElemModel, b: ElemModel) -> ElemModel {
    if is_sequence(b) {
        ElemModel::List(seq![a] + sequence_items(b))
    } else {
        ElemModel::List(seq![a, b])
    }
}

/// `append`: push onto a sequence; otherwise pair the two values.
pub open spec fn spec_rcons(a: ElemModel, b: ElemModel) -> ElemModel {
    if is_sequence(a) {
        ElemModel::List(sequence_items(a).push(b))
    } else {
        ElemModel::List(seq![a, b])
    }
}

/// `head`: the first item of a non-empty sequence; the empty list for an
/// empty sequence or a non-sequence.
pub open spec fn spec_car(e: ElemModel) -> ElemModel {
    if is_sequence(e) {
        if sequence_items(e).len() == 0 {
            empty_value()
        } else {
            sequence_items(e)[0]
        }
    } else {
        empty_value()
    }
}

/// `tail`: all but the first item, as a `List`; the empty list for an empty
/// sequence or a non-sequence.
pub open spec fn spec_cdr(e: ElemModel) -> ElemModel {
    if is_sequence(e) {
        if sequence_items(e).len() == 0 {
            empty_value()
        } else {
            ElemModel::List(sequence_items(e).subrange(1, sequence_items(e).len() as int))
        }
    } else {
        empty_value()
    }
}

/// `atom`: truthy exactly on leaves.
pub open spec fn spec_atom_test(e: ElemModel) -> ElemModel {
    if is_leaf(e) {
        truth_value()
    } else {
        empty_value()
    }
}

/// `not`: truthy exactly on an *empty* sequence; leaves are not negated.
pub open spec fn spec_not(e: ElemModel) -> ElemModel {
    if is_sequence(e) {
        if sequence_items(e).len() == 0 {
            truth_value()
        } else {
            empty_value()
        }
    } else {
        empty_value()
    }
}

/// `eq`: structural equality of leaf payloads (the quote mark is ignored);
/// any sequence operand makes the answer false.
pub open spec fn spec_eq(a: ElemModel, b: ElemModel) -> ElemModel {
    if is_leaf(a) && is_leaf(b) && leaf_atom(a) == leaf_atom(b) {
        truth_value()
    } else {
        empty_value()
    }
}

/// `ne`: structural inequality of leaf payloads; any sequence operand makes
/// the answer false (so two equal lists are reported neither equal nor
/// unequal).
pub open spec fn spec_ne(a: ElemModel, b: ElemModel) -> ElemModel {
    if is_leaf(a) && is_leaf(b) && leaf_atom(a) != leaf_atom(b) {
        truth_value()
    } else {
        empty_value()
    }
}

/// Numeric comparison: defined only when both leaves carry numbers.
pub open spec fn spec_compare(a: ElemModel, b: ElemModel, order: Ordering) -> ElemModel {
    if is_leaf(a) && leaf_atom(a) is Number && is_leaf(b) && leaf_atom(b) is Number {
        let x = leaf_atom(a)->Number_0;
        let y = leaf_atom(b)->Number_0;
        let holds = match order {
            Ordering::Less => x < y,
            Ordering::Equal => x == y,
            Ordering::Greater => x > y,
        };
        if holds {
            truth_value()
        } else {
            empty_value()
        }
    } else {
        empty_value()
    }
}

/// `add`: the wrapping sum of the operands that are plain number atoms;
/// every other operand is silently skipped.
pub open spec fn spec_sum(vals: Seq<ElemModel>) -> i64
    decreases vals.len(),
{
    if vals.len() == 0 {
        0i64
    } else {
        let rest = spec_sum(vals.drop_last());
        if vals.last() matches ElemModel::Atom(AtomModel::Number(_)) {
            vstd::wrapping::i64_specs::wrapping_add(rest, vals.last()->Atom_0->Number_0)
        } else {
            rest
        }
    }
}

/// Evaluation of one node under an environment, spending one unit of fuel
/// for each nested evaluation.
pub open spec fn spec_eval(e: ElemModel, env: EnvModel, fuel: nat) -> EvalOutcome
    decreases fuel, 3int, 0int,
{
    if fuel == 0 {
        (Err(EvalError::Depth), env)
    } else if e is Atom {
        (Ok(spec_eval_atom(e, env)), env)
    } else if e is List {
        (Ok(e), env)
    } else if e is Single {
        (Ok(ElemModel::Atom(e->Single_0)), env)
    } else {
        spec_eval_call(e, env, fuel)
    }
}

/// A bound symbol becomes its bound value; every other atom (an unbound
/// symbol included) is self-evaluating.
pub open spec fn spec_eval_atom(e: ElemModel, env: EnvModel) -> ElemModel {
    if e matches ElemModel::Atom(AtomModel::Symbol(_)) && env.dom().contains(e->Atom_0->Symbol_0) {
        env[e->Atom_0->Symbol_0]
    } else {
        e
    }
}

/// The single evaluated operand of a one-operand built-in.
pub open spec fn spec_eval_one(
    items: Seq<ElemModel>,
    env: EnvModel,
    fuel: nat,
) -> EvalOutcome
    decreases fuel, 1int, 0int,
{
    if fuel == 0 {
        (Err(EvalError::Depth), env)
    } else if items.len() < 2 {
        (Err(EvalError::Arity), env)
    } else {
        spec_eval(items[1], env, (fuel - 1) as nat)
    }
}

/// The two evaluated operands of a two-operand built-in, left to right.
pub open spec fn spec_eval_two(
    items: Seq<ElemModel>,
    env: EnvModel,
    fuel: nat,
) -> (Result<(ElemModel, ElemModel), EvalError>, EnvModel)
    decreases fuel, 1int, 0int,
{
    if fuel == 0 {
        (Err(EvalError::Depth), env)
    } else if items.len() < 2 {
        (Err(EvalError::Arity), env)
    } else {
        let first = spec_eval(items[1], env, (fuel - 1) as nat);
        match first.0 {
            Err(x) => (Err(x), first.1),
            Ok(a) => if items.len() < 3 {
                (Err(EvalError::Arity), first.1)
            } else {
                let second = spec_eval(items[2], first.1, (fuel - 1) as nat);
                match second.0 {
                    Err(x) => (Err(x), second.1),
                    Ok(b) => (Ok((a, b)), second.1),
                }
            },
        }
    }
}

/// The items from position `k` on, each evaluated in order.
pub open spec fn spec_eval_items(
    items: Seq<ElemModel>,
    k: int,
    env: EnvModel,
    fuel: nat,
) -> (Result<Seq<ElemModel>, EvalError>, EnvModel)
    decreases fuel, 1int, items.len() - k,
{
    if fuel == 0 {
        (Err(EvalError::Depth), env)
    } else if k < 0 || k >= items.len() {
        (Ok(Seq::empty()), env)
    } else {
        let first = spec_eval(items[k], env, (fuel - 1) as nat);
        match first.0 {
            Err(x) => (Err(x), first.1),
            Ok(v) => {
                let rest = spec_eval_items(items, k + 1, first.1, fuel);
                match rest.0 {
                    Err(x) => (Err(x), rest.1),
                    Ok(vs) => (Ok(seq![v] + vs), rest.1),
                }
            },
        }
    }
}

/// `if`: any leaf condition picks the first branch, any sequence condition
/// (the empty list included) picks the second; only that branch is
/// evaluated.
pub open spec fn spec_ifelse(
    c: ElemModel,
    t: ElemModel,
    f: ElemModel,
    env: EnvModel,
    fuel: nat,
) -> EvalOutcome
    decreases fuel, 1int, 0int,
{
    if fuel == 0 {
        (Err(EvalError::Depth), env)
    } else if is_leaf(c) {
        spec_eval(t, env, (fuel - 1) as nat)
    } else {
        spec_eval(f, env, (fuel - 1) as nat)
    }
}

/// `cond`: scan the clauses from position `k`; a clause that is not a
/// bracketed pair is skipped; the first clause whose evaluated test is a
/// leaf yields its evaluated result; no match yields the empty list.
pub open spec fn spec_cond(
    items: Seq<ElemModel>,
    k: int,
    env: EnvModel,
    fuel: nat,
) -> EvalOutcome
    decreases fuel, 1int, items.len() - k,
{
    if fuel == 0 {
        (Err(EvalError::Depth), env)
    } else if k < 0 || k >= items.len() {
        (Ok(empty_value()), env)
    } else if items[k] is List {
        let pair = items[k]->List_0;
        if pair.len() < 1 {
            (Err(EvalError::Arity), env)
        } else {
            let test = spec_eval(pair[0], env, (fuel - 1) as nat);
            match test.0 {
                Err(x) => (Err(x), test.1),
                Ok(tv) => if is_leaf(tv) {
                    if pair.len() < 2 {
                        (Err(EvalError::Arity), test.1)
                    } else {
                        spec_eval(pair[1], test.1, (fuel - 1) as nat)
                    }
                } else {
                    spec_cond(items, k + 1, test.1, fuel)
                },
            }
        }
    } else {
        spec_cond(items, k + 1, env, fuel)
    }
}

/// Parameter binding for an application: each parameter that is a symbol is
/// bound, in the scope, to the matching argument evaluated under the
/// *caller's* environment; a parameter of any other shape consumes its
/// position without evaluating anything; a symbol parameter without a
/// matching argument is a fatal arity fault.
pub open spec fn spec_bind(
    names: Seq<ElemModel>,
    k: int,
    items: Seq<ElemModel>,
    env: EnvModel,
    scope: EnvModel,
    fuel: nat,
) -> (Result<EnvModel, EvalError>, EnvModel)
    decreases fuel, 1int, names.len() - k,
{
    if fuel == 0 {
        (Err(EvalError::Depth), env)
    } else if k < 0 || k >= names.len() {
        (Ok(scope), env)
    } else if names[k] matches ElemModel::Atom(AtomModel::Symbol(_)) {
        if k + 1 >= items.len() {
            (Err(EvalError::Arity), env)
        } else {
            let arg = spec_eval(items[k + 1], env, (fuel - 1) as nat);
            match arg.0 {
                Err(x) => (Err(x), arg.1),
                Ok(v) => spec_bind(
                    names,
                    k + 1,
                    items,
                    arg.1,
                    scope.insert(names[k]->Atom_0->Symbol_0, v),
                    fuel,
                ),
            }
        }
    } else {
        spec_bind(names, k + 1, items, env, scope, fuel)
    }
}

/// The thirteen built-ins that only evaluate operands and combine the
/// values.
pub open spec fn is_value_op(sym: Seq<char>) -> bool {
    ||| sym == "cons"@
    ||| sym == "append"@
    ||| sym == "list"@
    ||| sym == "head"@
    ||| sym == "tail"@
    ||| sym == "atom"@
    ||| sym == "not"@
    ||| sym == "eq"@
    ||| sym == "ne"@
    ||| sym == "lt"@
    ||| sym == "gt"@
    ||| sym == "le"@
    ||| sym == "ge"@
}

/// A value built-in applied to its evaluated operands.
pub open spec fn spec_op_form(
    sym: Seq<char>,
    items: Seq<ElemModel>,
    env: EnvModel,
    fuel: nat,
) -> EvalOutcome
    recommends
        is_value_op(sym),
    decreases fuel, 2int, 1int,
{
    if fuel == 0 {
        (Err(EvalError::Depth), env)
    } else
    if sym == "cons"@ {
        match spec_eval_two(items, env, fuel) {
            (Ok(p), env2) => (Ok(spec_cons(p.0, p.1)), env2),
            (Err(x), env2) => (Err(x), env2),
        }
    } else if sym == "append"@ {
        match spec_eval_two(items, env, fuel) {
            (Ok(p), env2) => (Ok(spec_rcons(p.0, p.1)), env2),
            (Err(x), env2) => (Err(x), env2),
        }
    } else if sym == "list"@ {
        match spec_eval_items(items, 1, env, fuel) {
            (Ok(vs), env2) => (Ok(ElemModel::List(vs)), env2),
            (Err(x), env2) => (Err(x), env2),
        }
    } else if sym == "head"@ {
        match spec_eval_one(items, env, fuel) {
            (Ok(v), env2) => (Ok(spec_car(v)), env2),
            (Err(x), env2) => (Err(x), env2),
        }
    } else if sym == "tail"@ {
        match spec_eval_one(items, env, fuel) {
            (Ok(v), env2) => (Ok(spec_cdr(v)), env2),
            (Err(x), env2) => (Err(x), env2),
        }
    } else if sym == "atom"@ {
        match spec_eval_one(items, env, fuel) {
            (Ok(v), env2) => (Ok(spec_atom_test(v)), env2),
            (Err(x), env2) => (Err(x), env2),
        }
    } else if sym == "not"@ {
        match spec_eval_one(items, env, fuel) {
            (Ok(v), env2) => (Ok(spec_not(v)), env2),
            (Err(x), env2) => (Err(x), env2),
        }
    } else if sym == "eq"@ {
        match spec_eval_two(items, env, fuel) {
            (Ok(p), env2) => (Ok(spec_eq(p.0, p.1)), env2),
            (Err(x), env2) => (Err(x), env2),
        }
    } else if sym == "ne"@ {
        match spec_eval_two(items, env, fuel) {
            (Ok(p), env2) => (Ok(spec_ne(p.0, p.1)), env2),
            (Err(x), env2) => (Err(x), env2),
        }
    } else if sym == "lt"@ {
        match spec_eval_two(items, env, fuel) {
            (Ok(p), env2) => (Ok(spec_compare(p.0, p.1, Ordering::Less)), env2),
            (Err(x), env2) => (Err(x), env2),
        }
    } else if sym == "gt"@ {
        match spec_eval_two(items, env, fuel) {
            (Ok(p), env2) => (Ok(spec_compare(p.0, p.1, Ordering::Greater)), env2),
            (Err(x), env2) => (Err(x), env2),
        }
    } else if sym == "le"@ {
        match spec_eval_two(items, env, fuel) {
            (Ok(p), env2) => (Ok(spec_not(spec_compare(p.0, p.1, Ordering::Greater))), env2),
            (Err(x), env2) => (Err(x), env2),
        }
    } else if sym == "ge"@ {
        match spec_eval_two(items, env, fuel) {
            (Ok(p), env2) => (Ok(spec_not(spec_compare(p.0, p.1, Ordering::Less))), env2),
            (Err(x), env2) => (Err(x), env2),
        }
    } else {
        (Ok(ElemModel::Call(items)), env)
    }
}

/// A special form (`if`, `cond`, `add`, `let`), or a bound symbol standing
/// for a procedure, or an unbound symbol leaving the form unchanged.
pub open spec fn spec_special_form(
    sym: Seq<char>,
    items: Seq<ElemModel>,
    env: EnvModel,
    fuel: nat,
) -> EvalOutcome
    decreases fuel, 2int, 1int,
{
    let unchanged = ElemModel::Call(items);
    if fuel == 0 {
        (Err(EvalError::Depth), env)
    } else
    if sym == "if"@ {
        if items.len() < 2 {
            (Err(EvalError::Arity), env)
        } else {
            let c = spec_eval(items[1], env, (fuel - 1) as nat);
            match c.0 {
                Err(x) => (Err(x), c.1),
                Ok(cv) => if items.len() < 4 {
                    (Err(EvalError::Arity), c.1)
                } else {
                    spec_ifelse(cv, items[2], items[3], c.1, fuel)
                },
            }
        }
    } else if sym == "cond"@ {
        spec_cond(items, 1, env, fuel)
    } else if sym == "add"@ {
        match spec_eval_items(items, 1, env, fuel) {
            (Ok(vs), env2) => (Ok(ElemModel::Atom(AtomModel::Number(spec_sum(vs)))), env2),
            (Err(x), env2) => (Err(x), env2),
        }
    } else if sym == "let"@ {
        if items.len() < 2 {
            (Err(EvalError::Arity), env)
        } else if items[1] matches ElemModel::Atom(AtomModel::Symbol(_)) {
            if items.len() < 3 {
                (Err(EvalError::Arity), env)
            } else {
                (Ok(items[1]), env.insert(items[1]->Atom_0->Symbol_0, items[2]))
            }
        } else {
            (Ok(unchanged), env)
        }
    } else {
        if env.dom().contains(sym) {
            spec_eval(ElemModel::Call(items.update(0, env[sym])), env, (fuel - 1) as nat)
        } else {
            (Ok(unchanged), env)
        }
    }
}

/// A form whose head is the symbol `sym`: the special forms and built-ins
/// are dispatched on the literal symbol; any other bound symbol is replaced
/// by its binding and the form is re-evaluated; an unbound one leaves the
/// form unchanged.
pub open spec fn spec_sym_form(
    sym: Seq<char>,
    items: Seq<ElemModel>,
    env: EnvModel,
    fuel: nat,
) -> EvalOutcome
    decreases fuel, 2int, 2int,
{
    if fuel == 0 {
        (Err(EvalError::Depth), env)
    } else if is_value_op(sym) {
        spec_op_form(sym, items, env, fuel)
    } else {
        spec_special_form(sym, items, env, fuel)
    }
}

/// A form whose head is itself a parenthesized form: when the head is
/// `(fun [params] body)`, bind the parameters to the arguments evaluated
/// under the caller's environment and evaluate the body under the extended
/// snapshot; otherwise the form is unchanged.
pub open spec fn spec_apply(items: Seq<ElemModel>, env: EnvModel, fuel: nat) -> EvalOutcome
    recommends
        items.len() >= 1,
        items[0] is Call,
    decreases fuel, 2int, 2int,
{
    let unchanged = ElemModel::Call(items);
    if fuel == 0 {
        (Err(EvalError::Depth), env)
    } else {
        let sub = items[0]->Call_0;
        if sub.len() == 0 {
            (Err(EvalError::Arity), env)
        } else if sub[0] matches ElemModel::Atom(AtomModel::Symbol(_)) && sub[0]->Atom_0->Symbol_0
            == "fun"@ {
            if sub.len() < 2 {
                (Err(EvalError::Arity), env)
            } else if sub[1] is List {
                let names = sub[1]->List_0;
                match spec_bind(names, 0, items, env, env, fuel) {
                    (Err(x), env2) => (Err(x), env2),
                    (Ok(scope), env2) => if sub.len() < 3 {
                        (Err(EvalError::Arity), env2)
                    } else {
                        (spec_eval(sub[2], scope, (fuel - 1) as nat).0, env2)
                    },
                }
            } else {
                (Ok(unchanged), env)
            }
        } else {
            (Ok(unchanged), env)
        }
    }
}

/// Evaluation of a parenthesized form: special forms and built-ins are
/// dispatched on a literal leading symbol; any other bound leading symbol
/// is replaced by its binding and the form is re-evaluated; a leading
/// `(fun [params] body)` call is applied to the remaining items as
/// arguments; every unrecognized shape evaluates to itself.
pub open spec fn spec_eval_call(e: ElemModel, env: EnvModel, fuel: nat) -> EvalOutcome
    decreases fuel, 2int, 3int,
{
    if fuel == 0 {
        (Err(EvalError::Depth), env)
    } else if !(e is Call) {
        (Ok(e), env)
    } else {
        let items = e->Call_0;
        if items.len() == 0 {
            (Ok(e), env)
        } else if items[0] matches ElemModel::Atom(AtomModel::Symbol(_)) {
            spec_sym_form(items[0]->Atom_0->Symbol_0, items, env, fuel)
        } else if items[0] is Call {
            spec_apply(items, env, fuel)
        } else {
            (Ok(e), env)
        }
    }
}

} // verus!
