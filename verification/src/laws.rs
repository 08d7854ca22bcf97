//! Laws of the language, each proved from the evaluation semantics.

use vstd::prelude::*;

use crate::ast::AtomModel;
use crate::ast::ElemModel;
use crate::semantics::EnvModel;
use crate::semantics::EvalError;
use crate::semantics::empty_value;
use crate::semantics::is_leaf;
use crate::semantics::spec_bind;
use crate::semantics::spec_car;
use crate::semantics::spec_cdr;
use crate::semantics::spec_cons;
use crate::semantics::spec_eval;
use crate::semantics::spec_not;
use crate::semantics::spec_sum;
use crate::semantics::truth_value;

verus! {

/// Self-evaluation of lists: a bracketed literal evaluates to itself, and
/// leaves the environment untouched, whatever it contains.
pub proof fn law_list_self_evaluation(items: Seq<ElemModel>, env: EnvModel, fuel: nat)
    requires
        fuel >= 1,
    ensures
        spec_eval(ElemModel::List(items), env, fuel) == (
        Ok::<ElemModel, crate::semantics::EvalError>(ElemModel::List(items)),
        env,
    ),
{
}

/// Quote bypass: a quoted atom evaluates to the bare atom itself, never
/// through the environment, whatever is bound there.
pub proof fn law_quote_bypass(a: AtomModel, env: EnvModel, fuel: nat)
    requires
        fuel >= 1,
    ensures
        spec_eval(ElemModel::Single(a), env, fuel) == (
        Ok::<ElemModel, crate::semantics::EvalError>(ElemModel::Atom(a)),
        env,
    ),
{
}

/// A bound plain symbol, in contrast, evaluates to its bound value.
pub proof fn law_bound_symbol(name: Seq<char>, env: EnvModel, fuel: nat)
    requires
        fuel >= 1,
        env.dom().contains(name),
    ensures
        spec_eval(ElemModel::Atom(AtomModel::Symbol(name)), env, fuel) == (
        Ok::<ElemModel, crate::semantics::EvalError>(env[name]),
        env,
    ),
{
}

/// Truthiness asymmetry, first half: `not` is truthy exactly on an empty
/// sequence, so `(not [])` is truthy while any leaf is not negated.
pub proof fn law_not_emptiness(e: ElemModel)
    ensures
        spec_not(e) == truth_value() <==> (e is List || e is Call)
            && crate::semantics::sequence_items(e).len() == 0,
        is_leaf(e) ==> spec_not(e) == empty_value(),
{
}

/// Truthiness asymmetry, second half: `if` goes by node kind alone, so any
/// sequence condition — the empty list included — picks the second branch,
/// and any leaf picks the first.
pub proof fn law_if_kind_truthiness(
    c: ElemModel,
    t: ElemModel,
    f: ElemModel,
    env: EnvModel,
    fuel: nat,
)
    requires
        fuel >= 1,
    ensures
        is_leaf(c) ==> crate::semantics::spec_ifelse(c, t, f, env, fuel) == spec_eval(
            t,
            env,
            (fuel - 1) as nat,
        ),
        !is_leaf(c) ==> crate::semantics::spec_ifelse(c, t, f, env, fuel) == spec_eval(
            f,
            env,
            (fuel - 1) as nat,
        ),
{
}

/// Arithmetic skips non-numeric operands: appending any value that is not
/// a plain number atom leaves a sum unchanged.
pub proof fn law_sum_skips_non_numbers(vals: Seq<ElemModel>, v: ElemModel)
    requires
        !(v matches ElemModel::Atom(AtomModel::Number(_))),
    ensures
        spec_sum(vals.push(v)) == spec_sum(vals),
{
    assert(vals.push(v).drop_last() =~= vals);
}

/// Cons/head structural law: taking the head of `a` consed onto any list
/// gives back `a`.
pub proof fn law_car_cons(a: ElemModel, items: Seq<ElemModel>)
    ensures
        spec_car(spec_cons(a, ElemModel::List(items))) == a,
{
}

/// Cons/tail structural law: taking the tail of `a` consed onto any list
/// gives back the list.
pub proof fn law_cdr_cons(a: ElemModel, items: Seq<ElemModel>)
    ensures
        spec_cdr(spec_cons(a, ElemModel::List(items))) == ElemModel::List(items),
{
    assert((seq![a] + items).subrange(1, (seq![a] + items).len() as int) =~= items);
}

/// Determinism: evaluation is a function of the node, the environment and
/// the fuel bound alone, so repeated runs from equal states agree.
pub proof fn law_deterministic(
    a: ElemModel,
    b: ElemModel,
    enva: EnvModel,
    envb: EnvModel,
    fuel: nat,
)
    requires
        a == b,
        enva == envb,
    ensures
        spec_eval(a, enva, fuel) == spec_eval(b, envb, fuel),
{
}

/// Binding isolation: the environment a direct application leaves behind
/// is exactly the one the parameter bindings leave behind — the body
/// (whatever `let`s it performs) contributes nothing to it.
pub proof fn law_binding_isolation(
    params: Seq<ElemModel>,
    body: ElemModel,
    items: Seq<ElemModel>,
    env: EnvModel,
    fuel: nat,
)
    requires
        fuel >= 1,
        items.len() >= 1,
        items[0] == ElemModel::Call(
            seq![
                ElemModel::Atom(AtomModel::Symbol("fun"@)),
                ElemModel::List(params),
                body,
            ],
        ),
    ensures
        crate::semantics::spec_eval_call(ElemModel::Call(items), env, fuel).1 == spec_bind(
            params,
            0,
            items,
            env,
            env,
            fuel,
        ).1,
{
    let sub = items[0]->Call_0;
    assert(sub[0] == ElemModel::Atom(AtomModel::Symbol("fun"@)));
    assert(sub[1] == ElemModel::List(params));
}

/// A form that nowhere holds the plain symbol `let`.
pub open spec fn let_free(e: ElemModel) -> bool
    decreases e,
{
    if e is Atom {
        !(e->Atom_0 matches AtomModel::Symbol(s) && s == "let"@)
    } else if e is Single {
        true
    } else if e is Call {
        items_let_free(e->Call_0)
    } else {
        items_let_free(e->List_0)
    }
}

/// Every item of the sequence is `let`-free.
pub open spec fn items_let_free(items: Seq<ElemModel>) -> bool
    decreases items,
{
    forall|i: int| 0 <= i < items.len() ==> let_free(#[trigger] items[i])
}

/// Every value bound in the environment is `let`-free.
pub open spec fn env_let_free(env: EnvModel) -> bool {
    forall|k: Seq<char>| env.dom().contains(k) ==> let_free(#[trigger] env[k])
}

proof fn lemma_ifelse_keeps_env(c: ElemModel, t: ElemModel, f: ElemModel, env: EnvModel, fuel: nat)
    requires
        let_free(t),
        let_free(f),
        env_let_free(env),
    ensures
        crate::semantics::spec_ifelse(c, t, f, env, fuel).1 == env,
    decreases fuel, 1int, 0int,
{
    if fuel != 0 {
        law_let_free_preserves_env(t, env, (fuel - 1) as nat);
        law_let_free_preserves_env(f, env, (fuel - 1) as nat);
    }
}

proof fn lemma_eval_one_keeps_env(items: Seq<ElemModel>, env: EnvModel, fuel: nat)
    requires
        items_let_free(items),
        env_let_free(env),
    ensures
        crate::semantics::spec_eval_one(items, env, fuel).1 == env,
    decreases fuel, 1int, 0int,
{
    if fuel != 0 && items.len() >= 2 {
        law_let_free_preserves_env(items[1], env, (fuel - 1) as nat);
    }
}

proof fn lemma_eval_two_keeps_env(items: Seq<ElemModel>, env: EnvModel, fuel: nat)
    requires
        items_let_free(items),
        env_let_free(env),
    ensures
        crate::semantics::spec_eval_two(items, env, fuel).1 == env,
    decreases fuel, 1int, 0int,
{
    if fuel != 0 && items.len() >= 2 {
        law_let_free_preserves_env(items[1], env, (fuel - 1) as nat);
        if items.len() >= 3 {
            law_let_free_preserves_env(items[2], env, (fuel - 1) as nat);
        }
    }
}

proof fn lemma_eval_items_keeps_env(items: Seq<ElemModel>, k: int, env: EnvModel, fuel: nat)
    requires
        items_let_free(items),
        env_let_free(env),
    ensures
        crate::semantics::spec_eval_items(items, k, env, fuel).1 == env,
    decreases fuel, 1int, items.len() - k,
{
    if fuel != 0 && 0 <= k < items.len() {
        law_let_free_preserves_env(items[k], env, (fuel - 1) as nat);
        let first = spec_eval(items[k], env, (fuel - 1) as nat);
        if first.0 is Ok {
            lemma_eval_items_keeps_env(items, k + 1, env, fuel);
        }
    }
}

proof fn lemma_cond_keeps_env(items: Seq<ElemModel>, k: int, env: EnvModel, fuel: nat)
    requires
        items_let_free(items),
        env_let_free(env),
    ensures
        crate::semantics::spec_cond(items, k, env, fuel).1 == env,
    decreases fuel, 1int, items.len() - k,
{
    if fuel != 0 && 0 <= k < items.len() {
        if items[k] is List {
            let pair = items[k]->List_0;
            assert(let_free(items[k]));
            assert(items_let_free(pair));
            if pair.len() >= 1 {
                law_let_free_preserves_env(pair[0], env, (fuel - 1) as nat);
                let test = spec_eval(pair[0], env, (fuel - 1) as nat);
                if test.0 is Ok {
                    if pair.len() >= 2 {
                        law_let_free_preserves_env(pair[1], env, (fuel - 1) as nat);
                    }
                    lemma_cond_keeps_env(items, k + 1, env, fuel);
                }
            }
        } else {
            lemma_cond_keeps_env(items, k + 1, env, fuel);
        }
    }
}

proof fn lemma_bind_keeps_env(
    names: Seq<ElemModel>,
    k: int,
    items: Seq<ElemModel>,
    env: EnvModel,
    scope: EnvModel,
    fuel: nat,
)
    requires
        items_let_free(items),
        env_let_free(env),
    ensures
        spec_bind(names, k, items, env, scope, fuel).1 == env,
    decreases fuel, 1int, names.len() - k,
{
    if fuel != 0 && 0 <= k < names.len() {
        if names[k] matches ElemModel::Atom(AtomModel::Symbol(_)) {
            if k + 1 < items.len() {
                law_let_free_preserves_env(items[k + 1], env, (fuel - 1) as nat);
                let arg = spec_eval(items[k + 1], env, (fuel - 1) as nat);
                if arg.0 is Ok {
                    lemma_bind_keeps_env(
                        names,
                        k + 1,
                        items,
                        env,
                        scope.insert(names[k]->Atom_0->Symbol_0, arg.0->Ok_0),
                        fuel,
                    );
                }
            }
        } else {
            lemma_bind_keeps_env(names, k + 1, items, env, scope, fuel);
        }
    }
}

proof fn lemma_apply_keeps_env(items: Seq<ElemModel>, env: EnvModel, fuel: nat)
    requires
        items_let_free(items),
        env_let_free(env),
        items.len() >= 1,
        items[0] is Call,
    ensures
        crate::semantics::spec_apply(items, env, fuel).1 == env,
    decreases fuel, 2int, 2int,
{
    if fuel != 0 && items.len() >= 1 && items[0] is Call {
        let sub = items[0]->Call_0;
        if sub.len() >= 2 && sub[1] is List {
            lemma_bind_keeps_env(sub[1]->List_0, 0, items, env, env, fuel);
        }
    }
}

proof fn lemma_op_form_keeps_env(sym: Seq<char>, items: Seq<ElemModel>, env: EnvModel, fuel: nat)
    requires
        items_let_free(items),
        env_let_free(env),
    ensures
        crate::semantics::spec_op_form(sym, items, env, fuel).1 == env,
    decreases fuel, 2int, 1int,
{
    if fuel != 0 {
        lemma_eval_one_keeps_env(items, env, fuel);
        lemma_eval_two_keeps_env(items, env, fuel);
        lemma_eval_items_keeps_env(items, 1, env, fuel);
    }
}

proof fn lemma_special_form_keeps_env(
    sym: Seq<char>,
    items: Seq<ElemModel>,
    env: EnvModel,
    fuel: nat,
)
    requires
        items_let_free(items),
        items.len() >= 1,
        sym != "let"@,
        env_let_free(env),
    ensures
        crate::semantics::spec_special_form(sym, items, env, fuel).1 == env,
    decreases fuel, 2int, 1int,
{
    if fuel != 0 {
        if items.len() >= 2 {
            law_let_free_preserves_env(items[1], env, (fuel - 1) as nat);
            if items.len() >= 4 {
                let c = spec_eval(items[1], env, (fuel - 1) as nat);
                if c.0 is Ok {
                    lemma_ifelse_keeps_env(c.0->Ok_0, items[2], items[3], env, fuel);
                }
            }
        }
        lemma_cond_keeps_env(items, 1, env, fuel);
        lemma_eval_items_keeps_env(items, 1, env, fuel);
        if env.dom().contains(sym) {
            let swapped = items.update(0, env[sym]);
            assert(swapped.len() == items.len());
            assert forall|i: int| 0 <= i < swapped.len() implies let_free(
                #[trigger] swapped[i],
            ) by {
                if i == 0 {
                    assert(let_free(env[sym]));
                } else {
                    assert(swapped[i] == items[i]);
                    assert(let_free(items[i]));
                }
            }
            assert(let_free(ElemModel::Call(swapped)));
            law_let_free_preserves_env(ElemModel::Call(swapped), env, (fuel - 1) as nat);
        }
    }
}

proof fn lemma_eval_call_keeps_env(e: ElemModel, env: EnvModel, fuel: nat)
    requires
        let_free(e),
        env_let_free(env),
    ensures
        crate::semantics::spec_eval_call(e, env, fuel).1 == env,
    decreases fuel, 2int, 3int,
{
    if fuel != 0 && e is Call {
        let items = e->Call_0;
        if items.len() >= 1 {
            if items[0] matches ElemModel::Atom(AtomModel::Symbol(_)) {
                let sym = items[0]->Atom_0->Symbol_0;
                assert(let_free(items[0]));
                if crate::semantics::is_value_op(sym) {
                    lemma_op_form_keeps_env(sym, items, env, fuel);
                } else {
                    lemma_special_form_keeps_env(sym, items, env, fuel);
                }
            } else if items[0] is Call {
                lemma_apply_keeps_env(items, env, fuel);
            }
        }
    }
}

/// Environment preservation: evaluating a form that nowhere holds the
/// symbol `let`, under an environment whose bound values nowhere hold it
/// either, leaves the environment exactly as it was — whatever the form
/// returns, and in particular for the arguments of an application.
pub proof fn law_let_free_preserves_env(e: ElemModel, env: EnvModel, fuel: nat)
    requires
        let_free(e),
        env_let_free(env),
    ensures
        spec_eval(e, env, fuel).1 == env,
    decreases fuel, 3int, 0int,
{
    if fuel != 0 && e is Call {
        lemma_eval_call_keeps_env(e, env, fuel);
    }
}

} // verus!
