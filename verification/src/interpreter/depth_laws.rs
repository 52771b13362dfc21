//! What the limit on the depth of calls does to an evaluation: it may
//! end it, and changes nothing else.
use vstd::prelude::*;

use crate::ast::{ExprModel, LetEntryModel, PatternModel};
use crate::interpreter::closure_helper::closure_model;
use crate::interpreter::dynamic_env::{add_model, find_model, ScopeModel};
use crate::interpreter::expression_eval::{
    add_all_model, call_model, eval_branches_model, eval_fields_model, eval_let_model,
    eval_list_model, eval_model, is_constant, CallModel,
};
use crate::interpreter::pattern_match::match_model;
use crate::scope::scope_map;
use crate::interpreter::{EvalResult, RuntimeErrorModel};
use crate::types::ValueModel;

verus! {

/// Whether an evaluation ended because calls nested too deep.
pub open spec fn too_deep<T>(r: Result<T, RuntimeErrorModel>) -> bool {
    r matches Err(RuntimeErrorModel::CallDepthExceeded)
}

/// An evaluation that does not end because calls nested too deep ends
/// the same way under a greater limit.
proof fn lemma_deeper(env: Seq<ScopeModel>, e: ExprModel, shallow: nat, deep: nat)
    requires
        shallow <= deep,
        !too_deep(eval_model(env, e, shallow)),
    ensures
        eval_model(env, e, deep) == eval_model(env, e, shallow),
    decreases shallow, e, 1nat, 0nat,
{
    match e {
        ExprModel::Tuple(items) => {
            lemma_deeper_list(env, items, 0, shallow, deep);
        },
        ExprModel::List(items) => {
            lemma_deeper_list(env, items, 0, shallow, deep);
        },
        ExprModel::Record(fields) => {
            lemma_deeper_fields(env, fields, 0, shallow, deep);
        },
        ExprModel::RecordUpdate(n, fields) => {
            if let Some(ValueModel::Record(_)) = find_model(env, n) {
                lemma_deeper_fields(env, fields, 0, shallow, deep);
            }
        },
        ExprModel::RecordField(b, name) => {
            lemma_deeper(env, *b, shallow, deep);
        },
        ExprModel::If(c, a, b) => {
            lemma_deeper(env, *c, shallow, deep);
            if let Ok(v) = eval_model(env, *c, shallow) {
                if is_constant(v, "True"@) {
                    lemma_deeper(env, *a, shallow, deep);
                } else if is_constant(v, "False"@) {
                    lemma_deeper(env, *b, shallow, deep);
                }
            }
        },
        ExprModel::Application(f, a) => {
            lemma_deeper(env, *f, shallow, deep);
            if let Ok(fv) = eval_model(env, *f, shallow) {
                if fv is Fun {
                    lemma_deeper(env, *a, shallow, deep);
                    if let Ok(av) = eval_model(env, *a, shallow) {
                        if let CallModel::Run { scope, body } = call_model(fv, av) {
                            lemma_deeper(
                                env.push(scope),
                                body,
                                (shallow - 1) as nat,
                                (deep - 1) as nat,
                            );
                        }
                    }
                }
            }
        },
        ExprModel::Case(s, branches) => {
            lemma_deeper(env, *s, shallow, deep);
            if let Ok(v) = eval_model(env, *s, shallow) {
                lemma_deeper_branches(env, v, branches, 0, shallow, deep);
            }
        },
        ExprModel::Let(_, _) => {
            lemma_deeper_let(env.push(Map::empty()), e, 0, shallow, deep);
        },
        _ => {},
    }
}

/// The same, for the evaluation of several expressions.
proof fn lemma_deeper_list(
    env: Seq<ScopeModel>,
    items: Seq<ExprModel>,
    i: nat,
    shallow: nat,
    deep: nat,
)
    requires
        shallow <= deep,
        !too_deep(eval_list_model(env, items, i, shallow)),
    ensures
        eval_list_model(env, items, i, deep) == eval_list_model(env, items, i, shallow),
    decreases shallow, items, 0nat, items.len() - i,
{
    if i < items.len() {
        lemma_deeper(env, items[i as int], shallow, deep);
        if eval_model(env, items[i as int], shallow) is Ok {
            lemma_deeper_list(env, items, i + 1, shallow, deep);
        }
    }
}

/// The same, for the evaluation of the fields of a record.
proof fn lemma_deeper_fields(
    env: Seq<ScopeModel>,
    fields: Seq<(Seq<char>, ExprModel)>,
    i: nat,
    shallow: nat,
    deep: nat,
)
    requires
        shallow <= deep,
        !too_deep(eval_fields_model(env, fields, i, shallow)),
    ensures
        eval_fields_model(env, fields, i, deep) == eval_fields_model(env, fields, i, shallow),
    decreases shallow, fields, 0nat, fields.len() - i,
{
    if i < fields.len() {
        lemma_deeper(env, fields[i as int].1, shallow, deep);
        if eval_model(env, fields[i as int].1, shallow) is Ok {
            lemma_deeper_fields(env, fields, i + 1, shallow, deep);
        }
    }
}

/// The same, for the evaluation of the branches of a `case`.
proof fn lemma_deeper_branches(
    env: Seq<ScopeModel>,
    v: ValueModel,
    branches: Seq<(PatternModel, ExprModel)>,
    i: nat,
    shallow: nat,
    deep: nat,
)
    requires
        shallow <= deep,
        !too_deep(eval_branches_model(env, v, branches, i, shallow)),
    ensures
        eval_branches_model(env, v, branches, i, deep) == eval_branches_model(
            env,
            v,
            branches,
            i,
            shallow,
        ),
    decreases shallow, branches, 0nat, branches.len() - i,
{
    if i < branches.len() {
        match match_model(branches[i as int].0, v) {
            Ok(None) => {
                lemma_deeper_branches(env, v, branches, i + 1, shallow, deep);
            },
            Ok(Some(bs)) => {
                lemma_deeper(
                    env.push(scope_map(bs)),
                    branches[i as int].1,
                    shallow,
                    deep,
                );
            },
            Err(_) => {},
        }
    }
}

/// The same, for the evaluation of the entries and the body of a `let`.
proof fn lemma_deeper_let(env: Seq<ScopeModel>, e: ExprModel, i: nat, shallow: nat, deep: nat)
    requires
        e is Let,
        shallow <= deep,
        !too_deep(eval_let_model(env, e, i, shallow)),
    ensures
        eval_let_model(env, e, i, deep) == eval_let_model(env, e, i, shallow),
    decreases shallow, e, 0nat, (e->Let_0).len() - i,
{
    match e {
        ExprModel::Let(entries, body) => {
            if i >= entries.len() {
                lemma_deeper(env, *body, shallow, deep);
            } else {
                match entries[i as int] {
                    LetEntryModel::Definition(d) => {
                        if d.patterns.len() == 0 {
                            lemma_deeper(env, d.expr, shallow, deep);
                            if let Ok(v) = eval_model(env, d.expr, shallow) {
                                lemma_deeper_let(
                                    add_model(env, d.name, v),
                                    e,
                                    i + 1,
                                    shallow,
                                    deep,
                                );
                            }
                        } else if d.patterns.len() <= u32::MAX {
                            lemma_deeper_let(
                                add_model(
                                    env,
                                    d.name,
                                    closure_model(
                                        env,
                                        Seq::empty(),
                                        d.header,
                                        d.patterns,
                                        d.expr,
                                    ),
                                ),
                                e,
                                i + 1,
                                shallow,
                                deep,
                            );
                        }
                    },
                    LetEntryModel::Pattern(p, x) => {
                        lemma_deeper(env, x, shallow, deep);
                        if let Ok(v) = eval_model(env, x, shallow) {
                            if let Ok(Some(bs)) = match_model(
                                p,
                                v,
                            ) {
                                lemma_deeper_let(
                                    add_all_model(env, bs),
                                    e,
                                    i + 1,
                                    shallow,
                                    deep,
                                );
                            }
                        }
                    },
                }
            }
        },
        _ => {},
    }
}

/// An evaluation that does not end because calls nested too deep ends
/// the same way under every greater limit: the limit may cut an
/// evaluation short, but it changes no value and no other error.
pub proof fn law_depth_changes_no_result(
    env: Seq<ScopeModel>,
    e: ExprModel,
    shallow: nat,
    deep: nat,
)
    requires
        shallow <= deep,
        !too_deep(eval_model(env, e, shallow)),
    ensures
        eval_model(env, e, deep) == eval_model(env, e, shallow),
{
    lemma_deeper(env, e, shallow, deep);
}

} // verus!
