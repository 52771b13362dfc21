//! Closures: a function value takes with it, at the moment it is made, the
//! value of every name that its body uses and does not bind itself.
use std::sync::Arc;
use vstd::prelude::*;

use crate::ast::{
    branch_models, clone_names, clone_patterns, entry_models, expr_models, lemma_expr_model,
    lemma_pattern_model, let_models, name_models, pattern_models, Definition, DefinitionModel,
    Expr, ExprModel, LetEntry, LetEntryModel, Pattern, PatternModel, Type, TypeModel,
};
use crate::interpreter::dynamic_env::{find_model, DynamicEnv, ScopeModel};
use crate::interpreter::Interpreter;
use crate::scope::{
    contains_name, entry_keys, find_key, keys_of, lemma_lookup_push, lookup, scope_map,
};
use crate::types::{
    binding_models, lemma_function_model, lemma_value_model, value_models, Function,
    FunctionModel, Value, ValueModel,
};

verus! {

/// The names that a pattern binds, in the order in which it holds them.
pub open spec fn pattern_names(p: PatternModel) -> Seq<Seq<char>>
    decreases p, 0nat,
{
    match p {
        PatternModel::Var(n) => seq![n],
        PatternModel::Tuple(items) => pattern_names_from(items, 0),
        PatternModel::List(items) => pattern_names_from(items, 0),
        PatternModel::Adt(_, items) => pattern_names_from(items, 0),
        PatternModel::Record(names) => names,
        PatternModel::BinaryOp(_, a, b) => pattern_names(*a) + pattern_names(*b),
        _ => Seq::empty(),
    }
}

/// The names that the patterns from place `i` on bind.
pub open spec fn pattern_names_from(items: Seq<PatternModel>, i: nat) -> Seq<Seq<char>>
    decreases items, items.len() - i,
{
    if i >= items.len() {
        Seq::empty()
    } else {
        pattern_names(items[i as int]) + pattern_names_from(items, i + 1)
    }
}

/// The one name, unless it is bound.
pub open spec fn free_name(name: Seq<char>, bound: Seq<Seq<char>>) -> Set<Seq<char>> {
    if bound.contains(name) {
        Set::empty()
    } else {
        set![name]
    }
}

/// The names that `e` uses and that neither `bound` nor `e` itself binds
/// at the place of use: a lambda binds what its parameters name, a `case`
/// branch what its pattern names, and an entry of a `let` what it defines,
/// for the entries after it and for the body. The name of a definition is
/// not bound in the definition's own body: there it stands for what it
/// stood for before.
pub open spec fn free_names(e: ExprModel, bound: Seq<Seq<char>>) -> Set<Seq<char>>
    decreases e, 1nat, 0nat,
{
    match e {
        ExprModel::Ref(n) => free_name(n, bound),
        ExprModel::Tuple(items) => free_names_from(items, 0, bound),
        ExprModel::List(items) => free_names_from(items, 0, bound),
        ExprModel::Record(fields) => free_names_fields(fields, 0, bound),
        ExprModel::RecordUpdate(n, fields) => free_name(n, bound) + free_names_fields(
            fields,
            0,
            bound,
        ),
        ExprModel::RecordField(b, _) => free_names(*b, bound),
        ExprModel::If(c, a, b) => free_names(*c, bound) + free_names(*a, bound) + free_names(
            *b,
            bound,
        ),
        ExprModel::Application(f, a) => free_names(*f, bound) + free_names(*a, bound),
        ExprModel::Case(s, branches) => free_names(*s, bound) + free_names_branches(
            branches,
            0,
            bound,
        ),
        ExprModel::Lambda(_, patterns, body) => free_names(
            *body,
            bound + pattern_names_from(patterns, 0),
        ),
        ExprModel::Let(_, _) => free_names_let(e, 0, bound),
        _ => Set::empty(),
    }
}

/// The free names of the expressions from place `i` on.
pub open spec fn free_names_from(items: Seq<ExprModel>, i: nat, bound: Seq<Seq<char>>) -> Set<
    Seq<char>,
>
    decreases items, 0nat, items.len() - i,
{
    if i >= items.len() {
        Set::empty()
    } else {
        free_names(items[i as int], bound) + free_names_from(items, i + 1, bound)
    }
}

/// The free names of the expressions of the fields from place `i` on.
pub open spec fn free_names_fields(
    fields: Seq<(Seq<char>, ExprModel)>,
    i: nat,
    bound: Seq<Seq<char>>,
) -> Set<Seq<char>>
    decreases fields, 0nat, fields.len() - i,
{
    if i >= fields.len() {
        Set::empty()
    } else {
        free_names(fields[i as int].1, bound) + free_names_fields(fields, i + 1, bound)
    }
}

/// The free names of the branches from place `i` on: those of each body
/// that its pattern does not bind.
pub open spec fn free_names_branches(
    branches: Seq<(PatternModel, ExprModel)>,
    i: nat,
    bound: Seq<Seq<char>>,
) -> Set<Seq<char>>
    decreases branches, 0nat, branches.len() - i,
{
    if i >= branches.len() {
        Set::empty()
    } else {
        free_names(branches[i as int].1, bound + pattern_names(branches[i as int].0))
            + free_names_branches(branches, i + 1, bound)
    }
}

/// The free names of the `let` expression `e` from its entry `i` on, its
/// body included.
pub open spec fn free_names_let(e: ExprModel, i: nat, bound: Seq<Seq<char>>) -> Set<Seq<char>>
    decreases e, 0nat, (e->Let_0).len() - i,
{
    match e {
        ExprModel::Let(entries, body) => if i >= entries.len() {
            free_names(*body, bound)
        } else {
            match entries[i as int] {
                LetEntryModel::Definition(d) => free_names(
                    d.expr,
                    bound + pattern_names_from(d.patterns, 0),
                ) + free_names_let(e, i + 1, bound + seq![d.name]),
                LetEntryModel::Pattern(p, x) => free_names(x, bound) + free_names_let(
                    e,
                    i + 1,
                    bound + pattern_names(p),
                ),
            }
        },
        _ => Set::empty(),
    }
}

/// What `name` stands for among captured values once the names of `wanted`
/// were looked for in `env`: what it stood for `before`, else what `env`
/// has for it if it is wanted.
pub open spec fn merged(
    before: Seq<(Seq<char>, ValueModel)>,
    wanted: Set<Seq<char>>,
    env: Seq<ScopeModel>,
    name: Seq<char>,
) -> Option<ValueModel> {
    match lookup(before, name) {
        Some(v) => Some(v),
        None => if wanted.contains(name) {
            find_model(env, name)
        } else {
            None
        },
    }
}

/// `after` holds what `before` held and, of the names in `wanted`, what
/// `env` knows.
pub open spec fn captures_are(
    after: Seq<(Seq<char>, ValueModel)>,
    before: Seq<(Seq<char>, ValueModel)>,
    wanted: Set<Seq<char>>,
    env: Seq<ScopeModel>,
) -> bool {
    forall|n: Seq<char>| #[trigger] lookup(after, n) == merged(before, wanted, env, n)
}

/// Looking for `rest` from `now` on ends where looking for `total` from
/// `start` on ends.
pub open spec fn same_goal(
    now: Seq<(Seq<char>, ValueModel)>,
    rest: Set<Seq<char>>,
    start: Seq<(Seq<char>, ValueModel)>,
    total: Set<Seq<char>>,
    env: Seq<ScopeModel>,
) -> bool {
    forall|n: Seq<char>| #[trigger]
        merged(now, rest, env, n) == merged(start, total, env, n)
}

/// One step towards the goal: the names of `first` were looked for.
pub proof fn lemma_goal_step(
    now: Seq<(Seq<char>, ValueModel)>,
    after: Seq<(Seq<char>, ValueModel)>,
    first: Set<Seq<char>>,
    rest: Set<Seq<char>>,
    start: Seq<(Seq<char>, ValueModel)>,
    total: Set<Seq<char>>,
    env: Seq<ScopeModel>,
)
    requires
        captures_are(after, now, first, env),
        same_goal(now, first + rest, start, total, env),
    ensures
        same_goal(after, rest, start, total, env),
{
    assert forall|n: Seq<char>| #[trigger]
        merged(after, rest, env, n) == merged(start, total, env, n) by {
        assert(lookup(after, n) == merged(now, first, env, n));
        assert(merged(now, first + rest, env, n) == merged(start, total, env, n));
    }
}

/// The goal is reached when nothing is left to look for.
pub proof fn lemma_goal_reached(
    now: Seq<(Seq<char>, ValueModel)>,
    start: Seq<(Seq<char>, ValueModel)>,
    total: Set<Seq<char>>,
    env: Seq<ScopeModel>,
)
    requires
        same_goal(now, Set::empty(), start, total, env),
    ensures
        captures_are(now, start, total, env),
{
    assert forall|n: Seq<char>| #[trigger]
        lookup(now, n) == merged(start, total, env, n) by {
        assert(merged(now, Set::empty(), env, n) == merged(start, total, env, n));
    }
}

/// The goal is reached by looking for all that is left.
pub proof fn lemma_goal_last(
    now: Seq<(Seq<char>, ValueModel)>,
    after: Seq<(Seq<char>, ValueModel)>,
    last: Set<Seq<char>>,
    start: Seq<(Seq<char>, ValueModel)>,
    total: Set<Seq<char>>,
    env: Seq<ScopeModel>,
)
    requires
        captures_are(after, now, last, env),
        same_goal(now, last, start, total, env),
    ensures
        captures_are(after, start, total, env),
{
    assert forall|n: Seq<char>| #[trigger]
        lookup(after, n) == merged(start, total, env, n) by {
        assert(merged(now, last, env, n) == merged(start, total, env, n));
    }
}

/// Looking for `first` and then for `second` is looking for both.
pub proof fn lemma_captures_then(
    start: Seq<(Seq<char>, ValueModel)>,
    mid: Seq<(Seq<char>, ValueModel)>,
    end: Seq<(Seq<char>, ValueModel)>,
    first: Set<Seq<char>>,
    second: Set<Seq<char>>,
    env: Seq<ScopeModel>,
)
    requires
        captures_are(mid, start, first, env),
        captures_are(end, mid, second, env),
    ensures
        captures_are(end, start, first + second, env),
{
    assert forall|n: Seq<char>| #[trigger]
        lookup(end, n) == merged(start, first + second, env, n) by {
        assert(lookup(mid, n) == merged(start, first, env, n));
        assert(lookup(end, n) == merged(mid, second, env, n));
    }
}

/// Appends to `out` the names that `p` binds.
pub fn collect_pattern_names(p: &Pattern, out: &mut Vec<String>)
    ensures
        name_models(final(out)@) == name_models(old(out)@) + pattern_names(p@),
    decreases p,
{
    proof {
        lemma_pattern_model(p);
    }
    match p {
        Pattern::Var(n) => {
            out.push(n.clone());
            assert(name_models(out@) =~= name_models(old(out)@) + seq![n@]);
        },
        Pattern::Tuple(items) => {
            collect_patterns_names(items, out);
        },
        Pattern::List(items) => {
            collect_patterns_names(items, out);
        },
        Pattern::Adt(_, items) => {
            collect_patterns_names(items, out);
        },
        Pattern::Record(names) => {
            let mut i: usize = 0;
            while i < names.len()
                invariant
                    i <= names.len(),
                    name_models(out@) == name_models(old(out)@) + name_models(names@).take(
                        i as int,
                    ),
                decreases names.len() - i,
            {
                let ghost before = name_models(out@);
                out.push(names[i].clone());
                assert(name_models(out@) =~= before.push(names[i as int]@));
                i += 1;
                assert(name_models(names@).take(i as int) =~= name_models(names@).take(
                    i - 1,
                ).push(names[i - 1]@));
                assert(name_models(out@) =~= name_models(old(out)@) + name_models(names@).take(
                    i as int,
                ));
            }
            assert(name_models(names@).take(i as int) =~= name_models(names@));
        },
        Pattern::BinaryOp(_, a, b) => {
            collect_pattern_names(a, out);
            collect_pattern_names(b, out);
            assert(name_models(out@) =~= name_models(old(out)@) + (pattern_names(a@)
                + pattern_names(b@)));
        },
        _ => {
            assert(name_models(out@) =~= name_models(old(out)@) + Seq::<Seq<char>>::empty());
        },
    }
}

/// Appends to `out` the names that the patterns bind, in order.
pub fn collect_patterns_names(items: &Vec<Pattern>, out: &mut Vec<String>)
    ensures
        name_models(final(out)@) == name_models(old(out)@) + pattern_names_from(
            pattern_models(items@),
            0,
        ),
    decreases items,
{
    let ghost all = pattern_models(items@);
    let mut i: usize = 0;
    while i < items.len()
        invariant
            i <= items.len(),
            all == pattern_models(items@),
            name_models(out@) + pattern_names_from(all, i as nat) == name_models(old(out)@)
                + pattern_names_from(all, 0),
        decreases items.len() - i,
    {
        let ghost before = name_models(out@);
        collect_pattern_names(&items[i], out);
        i += 1;
        assert(name_models(out@) + pattern_names_from(all, i as nat) =~= before
            + pattern_names_from(all, (i - 1) as nat));
    }
    assert(name_models(out@) + pattern_names_from(all, i as nat) =~= name_models(out@));
}

/// Captures `name`, unless it is bound, already captured, or unknown to the
/// environment.
pub fn capture_name(
    result: &mut Vec<(String, Value)>,
    env: &DynamicEnv,
    bound: &Vec<String>,
    name: &String,
)
    ensures
        captures_are(
            binding_models(final(result)@),
            binding_models(old(result)@),
            free_name(name@, name_models(bound@)),
            env@,
        ),
{
    let ghost before = binding_models(result@);
    proof {
        assert(keys_of(before) =~= entry_keys(result@));
    }
    if !contains_name(bound, name) {
        if find_key(result, name).is_none() {
            match env.find(name) {
                Some(v) => {
                    result.push((name.clone(), v));
                    assert(binding_models(result@) =~= before.push((name@, v@)));
                    assert forall|n: Seq<char>| #[trigger]
                        lookup(binding_models(result@), n) == merged(
                            before,
                            free_name(name@, name_models(bound@)),
                            env@,
                            n,
                        ) by {
                        lemma_lookup_push(before, name@, v@, n);
                    }
                },
                None => {},
            }
        }
    }
}

impl Interpreter {
    /// Captures the free names of `expr` that are not captured yet.
    pub fn traverse_expr(
        result: &mut Vec<(String, Value)>,
        env: &DynamicEnv,
        bound: &Vec<String>,
        expr: &Expr,
    )
        ensures
            captures_are(
                binding_models(final(result)@),
                binding_models(old(result)@),
                free_names(expr@, name_models(bound@)),
                env@,
            ),
        decreases expr,
    {
        proof {
            lemma_expr_model(expr);
        }
        let ghost start = binding_models(result@);
        let ghost names = name_models(bound@);
        match expr {
            Expr::Ref(name) => {
                capture_name(result, env, bound, name);
            },
            Expr::Tuple(list) => {
                Self::traverse_list(result, env, bound, list);
            },
            Expr::List(list) => {
                Self::traverse_list(result, env, bound, list);
            },
            Expr::Record(records) => {
                Self::traverse_fields(result, env, bound, records);
            },
            Expr::RecordUpdate(name, records) => {
                capture_name(result, env, bound, name);
                let ghost mid = binding_models(result@);
                Self::traverse_fields(result, env, bound, records);
                proof {
                    lemma_captures_then(
                        start,
                        mid,
                        binding_models(result@),
                        free_name(name@, names),
                        free_names_fields(entry_models(records@), 0, names),
                        env@,
                    );
                }
            },
            Expr::RecordField(box_expr, _) => {
                Self::traverse_expr(result, env, bound, box_expr);
            },
            Expr::If(a, b, c) => {
                Self::traverse_expr(result, env, bound, a);
                let ghost r1 = binding_models(result@);
                Self::traverse_expr(result, env, bound, b);
                let ghost r2 = binding_models(result@);
                Self::traverse_expr(result, env, bound, c);
                proof {
                    let fa = free_names(a@, names);
                    let fb = free_names(b@, names);
                    let fc = free_names(c@, names);
                    lemma_captures_then(start, r1, r2, fa, fb, env@);
                    lemma_captures_then(start, r2, binding_models(result@), fa + fb, fc, env@);
                }
            },
            Expr::Application(a, b) => {
                Self::traverse_expr(result, env, bound, a);
                let ghost r1 = binding_models(result@);
                Self::traverse_expr(result, env, bound, b);
                proof {
                    lemma_captures_then(
                        start,
                        r1,
                        binding_models(result@),
                        free_names(a@, names),
                        free_names(b@, names),
                        env@,
                    );
                }
            },
            Expr::Case(a, entries) => {
                Self::traverse_expr(result, env, bound, a);
                let ghost all = branch_models(entries@);
                let ghost mid = binding_models(result@);
                let ghost total = free_names_branches(all, 0, names);
                let mut i: usize = 0;
                while i < entries.len()
                    invariant
                        i <= entries.len(),
                        *expr matches Expr::Case(_, x) && x == entries,
                        all == branch_models(entries@),
                        names == name_models(bound@),
                        total == free_names_branches(all, 0, names),
                        same_goal(
                            binding_models(result@),
                            free_names_branches(all, i as nat, names),
                            mid,
                            total,
                            env@,
                        ),
                    decreases entries.len() - i,
                {
                    let ghost now = binding_models(result@);
                    let mut inner = clone_names(bound);
                    collect_pattern_names(&entries[i].0, &mut inner);
                    Self::traverse_expr(result, env, &inner, &entries[i].1);
                    proof {
                        lemma_goal_step(
                            now,
                            binding_models(result@),
                            free_names(all[i as int].1, names + pattern_names(all[i as int].0)),
                            free_names_branches(all, (i + 1) as nat, names),
                            mid,
                            total,
                            env@,
                        );
                    }
                    i += 1;
                }
                proof {
                    lemma_goal_reached(binding_models(result@), mid, total, env@);
                    lemma_captures_then(
                        start,
                        mid,
                        binding_models(result@),
                        free_names(a@, names),
                        total,
                        env@,
                    );
                }
            },
            Expr::Lambda(_, patterns, box_expr) => {
                let mut inner = clone_names(bound);
                collect_patterns_names(patterns, &mut inner);
                Self::traverse_expr(result, env, &inner, box_expr);
            },
            Expr::Let(decls, box_expr) => {
                let ghost e = expr@;
                let ghost total = free_names_let(e, 0, names);
                let mut inner = clone_names(bound);
                let mut i: usize = 0;
                while i < decls.len()
                    invariant
                        i <= decls.len(),
                        *expr matches Expr::Let(x, _) && x == decls,
                        e == ExprModel::Let(let_models(decls@), Box::new(box_expr@)),
                        same_goal(
                            binding_models(result@),
                            free_names_let(e, i as nat, name_models(inner@)),
                            start,
                            total,
                            env@,
                        ),
                    decreases decls.len() - i,
                {
                    let ghost now = binding_models(result@);
                    let ghost outer = name_models(inner@);
                    assert(let_models(decls@)[i as int] == decls[i as int]@);
                    match &decls[i] {
                        LetEntry::Definition(def) => {
                            let mut own = clone_names(&inner);
                            collect_patterns_names(&def.patterns, &mut own);
                            Self::traverse_expr(result, env, &own, &def.expr);
                            inner.push(def.name.clone());
                            assert(name_models(inner@) =~= outer + seq![def.name@]);
                            proof {
                                lemma_goal_step(
                                    now,
                                    binding_models(result@),
                                    free_names(def@.expr, name_models(own@)),
                                    free_names_let(e, (i + 1) as nat, name_models(inner@)),
                                    start,
                                    total,
                                    env@,
                                );
                            }
                        },
                        LetEntry::Pattern(p, x) => {
                            Self::traverse_expr(result, env, &inner, x);
                            collect_pattern_names(p, &mut inner);
                            proof {
                                lemma_goal_step(
                                    now,
                                    binding_models(result@),
                                    free_names(x@, outer),
                                    free_names_let(e, (i + 1) as nat, name_models(inner@)),
                                    start,
                                    total,
                                    env@,
                                );
                            }
                        },
                    }
                    i += 1;
                }
                let ghost now = binding_models(result@);
                Self::traverse_expr(result, env, &inner, box_expr);
                proof {
                    lemma_goal_last(
                        now,
                        binding_models(result@),
                        free_names(box_expr@, name_models(inner@)),
                        start,
                        total,
                        env@,
                    );
                }
            },
            _ => {},
        }
    }

    /// Captures the free names of each expression in turn.
    pub fn traverse_list(
        result: &mut Vec<(String, Value)>,
        env: &DynamicEnv,
        bound: &Vec<String>,
        list: &Vec<Expr>,
    )
        ensures
            captures_are(
                binding_models(final(result)@),
                binding_models(old(result)@),
                free_names_from(expr_models(list@), 0, name_models(bound@)),
                env@,
            ),
        decreases list,
    {
        let ghost all = expr_models(list@);
        let ghost names = name_models(bound@);
        let ghost start = binding_models(result@);
        let ghost total = free_names_from(all, 0, names);
        let mut i: usize = 0;
        while i < list.len()
            invariant
                i <= list.len(),
                all == expr_models(list@),
                names == name_models(bound@),
                same_goal(
                    binding_models(result@),
                    free_names_from(all, i as nat, names),
                    start,
                    total,
                    env@,
                ),
            decreases list.len() - i,
        {
            let ghost now = binding_models(result@);
            Self::traverse_expr(result, env, bound, &list[i]);
            proof {
                lemma_goal_step(
                    now,
                    binding_models(result@),
                    free_names(all[i as int], names),
                    free_names_from(all, (i + 1) as nat, names),
                    start,
                    total,
                    env@,
                );
            }
            i += 1;
        }
        proof {
            lemma_goal_reached(binding_models(result@), start, total, env@);
        }
    }

    /// Captures the free names of each field's expression in turn.
    pub fn traverse_fields(
        result: &mut Vec<(String, Value)>,
        env: &DynamicEnv,
        bound: &Vec<String>,
        fields: &Vec<(String, Expr)>,
    )
        ensures
            captures_are(
                binding_models(final(result)@),
                binding_models(old(result)@),
                free_names_fields(entry_models(fields@), 0, name_models(bound@)),
                env@,
            ),
        decreases fields,
    {
        let ghost all = entry_models(fields@);
        let ghost names = name_models(bound@);
        let ghost start = binding_models(result@);
        let ghost total = free_names_fields(all, 0, names);
        let mut i: usize = 0;
        while i < fields.len()
            invariant
                i <= fields.len(),
                all == entry_models(fields@),
                names == name_models(bound@),
                same_goal(
                    binding_models(result@),
                    free_names_fields(all, i as nat, names),
                    start,
                    total,
                    env@,
                ),
            decreases fields.len() - i,
        {
            let ghost now = binding_models(result@);
            Self::traverse_expr(result, env, bound, &fields[i].1);
            proof {
                lemma_goal_step(
                    now,
                    binding_models(result@),
                    free_names(all[i as int].1, names),
                    free_names_fields(all, (i + 1) as nat, names),
                    start,
                    total,
                    env@,
                );
            }
            i += 1;
        }
        proof {
            lemma_goal_reached(binding_models(result@), start, total, env@);
        }
    }

    /// The values to capture for a function with the parameters `patterns`
    /// and the body `expr`: for each free name of the body that `bound` and
    /// the parameters leave free, what the environment has for it now.
    pub fn extract_captures(
        env: &DynamicEnv,
        bound: &Vec<String>,
        patterns: &Vec<Pattern>,
        expr: &Expr,
    ) -> (r: Vec<(String, Value)>)
        ensures
            scope_map(binding_models(r@)) == captures_model(
                env@,
                name_models(bound@),
                pattern_models(patterns@),
                expr@,
            ),
    {
        let mut map: Vec<(String, Value)> = Vec::new();
        let mut inner = clone_names(bound);
        collect_patterns_names(patterns, &mut inner);
        proof {
            assert(keys_of(binding_models(map@)) =~= Seq::<Seq<char>>::empty());
        }
        Self::traverse_expr(&mut map, env, &inner, expr);
        proof {
            let got = binding_models(map@);
            let want = captures_model(
                env@,
                name_models(bound@),
                pattern_models(patterns@),
                expr@,
            );
            assert forall|n: Seq<char>| #[trigger]
                scope_map(got).contains_key(n) == want.contains_key(n) by {
                assert(lookup(got, n).is_some() == scope_map(got).contains_key(n));
            }
            assert forall|n: Seq<char>| #[trigger] scope_map(got).contains_key(n) implies scope_map(
                got,
            )[n] == want[n] by {
                assert(lookup(got, n) == Some(scope_map(got)[n]));
            }
            assert(scope_map(got) =~= want);
        }
        map
    }

    /// The function value of a lambda of type `ty`: it waits for one
    /// argument for each pattern, holds none, and has captured its free
    /// names from `env`.
    pub fn create_lambda_closure(
        env: &DynamicEnv,
        ty: &Type,
        patterns: &Vec<Pattern>,
        expr: &Expr,
    ) -> (r: Value)
        requires
            patterns.len() <= u32::MAX,
        ensures
            r@ == closure_model(env@, Seq::empty(), ty@, pattern_models(patterns@), expr@),
    {
        let bound: Vec<String> = Vec::new();
        let function = Function::Definition {
            patterns: clone_patterns(patterns),
            expression: expr.clone(),
            captures: Self::extract_captures(env, &bound, patterns, expr),
            function_type: ty.clone(),
        };
        let r = Value::Fun {
            arg_count: patterns.len() as u32,
            args: Vec::new(),
            fun: Arc::new(function),
        };
        proof {
            lemma_function_model(&function);
            lemma_value_model(&r);
            assert(name_models(bound@) =~= Seq::<Seq<char>>::empty());
            assert(value_models(Seq::<Value>::empty()) =~= Seq::<ValueModel>::empty());
        }
        r
    }

    /// The function value of a definition: as for a lambda. The body is not
    /// evaluated. Where the body uses the definition's own name and the
    /// environment has a value for it, that value is captured like any
    /// other.
    pub fn create_function_closure(env: &DynamicEnv, def: &Definition) -> (r: Value)
        requires
            def.patterns.len() <= u32::MAX,
        ensures
            r@ == closure_model(env@, Seq::empty(), def@.header, def@.patterns, def@.expr),
    {
        Self::create_lambda_closure(env, &def.header, &def.patterns, &def.expr)
    }
}

/// What a closure captures: for each name that the body uses and that
/// neither `bound` nor the parameters bind, the value that `env` has for
/// it, if it has one.
pub open spec fn captures_model(
    env: Seq<ScopeModel>,
    bound: Seq<Seq<char>>,
    patterns: Seq<PatternModel>,
    body: ExprModel,
) -> Map<Seq<char>, ValueModel> {
    Map::new(
        |n: Seq<char>|
            free_names(body, bound + pattern_names_from(patterns, 0)).contains(n) && find_model(
                env,
                n,
            ).is_some(),
        |n: Seq<char>| find_model(env, n).unwrap(),
    )
}

/// The function value made in `env` from the parameters `patterns` and the
/// body `body`, under the type `ty`: it waits for as many arguments as
/// there are parameters, holds none yet, and has captured the free names
/// of its body that `env` knows.
pub open spec fn closure_model(
    env: Seq<ScopeModel>,
    bound: Seq<Seq<char>>,
    ty: TypeModel,
    patterns: Seq<PatternModel>,
    body: ExprModel,
) -> ValueModel {
    ValueModel::Fun {
        arg_count: patterns.len() as u32,
        args: Seq::empty(),
        fun: Box::new(
            FunctionModel::Definition {
                patterns,
                expression: body,
                captures: captures_model(env, bound, patterns, body),
                function_type: ty,
            },
        ),
    }
}

} // verus!
