//! Matching a value against a pattern: whether it fits, and what the
//! pattern's names stand for if it does.
use vstd::prelude::*;
use vstd::string::StringExecFns;

use crate::ast::{lemma_pattern_model, name_models, pattern_models, Pattern, PatternModel};
use crate::interpreter::{RuntimeError, RuntimeErrorModel};
use crate::scope::{entry_keys, find_key, key_index, keys_of, lemma_key_index, lookup};
use crate::types::{binding_models, lemma_value_model, value_models, Value, ValueModel};

verus! {

/// How a match ends: with the bindings it made, without a match, or with
/// an error where pattern and value are of different kinds.
pub type MatchResult = Result<Option<Seq<(Seq<char>, ValueModel)>>, RuntimeErrorModel>;

/// Two matches, one after the other: the second is not tried unless the
/// first has matched.
pub open spec fn and_then_match(first: MatchResult, second: MatchResult) -> MatchResult {
    match first {
        Err(e) => Err(e),
        Ok(None) => Ok(None),
        Ok(Some(b1)) => match second {
            Err(e) => Err(e),
            Ok(None) => Ok(None),
            Ok(Some(b2)) => Ok(Some(b1 + b2)),
        },
    }
}

/// The match of `v` against `p`. A name or `_` matches anything. A
/// literal matches its own value, a list pattern a list of its length, a
/// variant the values of that variant; `h :: t` matches a list that is not
/// empty. A value of another kind than the pattern asks for is an error,
/// and so is an operator other than `::`.
pub open spec fn match_model(p: PatternModel, v: ValueModel) -> MatchResult
    decreases p, 0nat,
{
    match p {
        PatternModel::Var(n) => Ok(Some(seq![(n, v)])),
        PatternModel::Wildcard => Ok(Some(Seq::empty())),
        PatternModel::Unit => if v is Unit {
            Ok(Some(Seq::empty()))
        } else {
            Ok(None)
        },
        PatternModel::LitInt(i) => match v {
            ValueModel::Int(x) => if x == i {
                Ok(Some(Seq::empty()))
            } else {
                Ok(None)
            },
            ValueModel::Number(x) => if x == i {
                Ok(Some(Seq::empty()))
            } else {
                Ok(None)
            },
            _ => Err(RuntimeErrorModel::ExpectedInt(v)),
        },
        PatternModel::LitString(s) => if v == ValueModel::String(s) {
            Ok(Some(Seq::empty()))
        } else {
            Ok(None)
        },
        PatternModel::LitChar(c) => if v == ValueModel::Char(c) {
            Ok(Some(Seq::empty()))
        } else {
            Ok(None)
        },
        PatternModel::Tuple(ps) => match v {
            ValueModel::Tuple(vs) => if vs.len() == ps.len() {
                match_all_model(ps, vs, 0)
            } else {
                Err(RuntimeErrorModel::ExpectedTuple(v))
            },
            _ => Err(RuntimeErrorModel::ExpectedTuple(v)),
        },
        PatternModel::List(ps) => match v {
            ValueModel::List(vs) => if vs.len() == ps.len() {
                match_all_model(ps, vs, 0)
            } else {
                Ok(None)
            },
            _ => Err(RuntimeErrorModel::ExpectedList(v)),
        },
        PatternModel::Record(names) => match v {
            ValueModel::Record(fields) => match_fields_model(names, fields, 0),
            _ => Err(RuntimeErrorModel::ExpectedRecord(v)),
        },
        PatternModel::Adt(ctor, ps) => match v {
            ValueModel::Adt(name, vs, _) => if name != ctor {
                Ok(None)
            } else if vs.len() == ps.len() {
                match_all_model(ps, vs, 0)
            } else {
                Err(RuntimeErrorModel::ExpectedAdt(v))
            },
            _ => Err(RuntimeErrorModel::ExpectedAdt(v)),
        },
        PatternModel::BinaryOp(op, a, b) => if op != "::"@ {
            Err(RuntimeErrorModel::UnknownOperatorPattern(op))
        } else {
            match v {
                ValueModel::List(vs) => if vs.len() == 0 {
                    Ok(None)
                } else {
                    and_then_match(
                        match_model(*a, vs[0]),
                        match_model(*b, ValueModel::List(vs.subrange(1, vs.len() as int))),
                    )
                },
                _ => Err(RuntimeErrorModel::ExpectedList(v)),
            }
        },
    }
}

/// The match of the values from place `i` on against the patterns at
/// their places.
pub open spec fn match_all_model(ps: Seq<PatternModel>, vs: Seq<ValueModel>, i: nat) -> MatchResult
    decreases ps, ps.len() - i,
{
    if i >= ps.len() || i >= vs.len() {
        Ok(Some(Seq::empty()))
    } else {
        and_then_match(match_model(ps[i as int], vs[i as int]), match_all_model(ps, vs, i + 1))
    }
}

/// The names from place `i` on, each bound to the record's field of that
/// name; a name that is no field is an error.
pub open spec fn match_fields_model(
    names: Seq<Seq<char>>,
    fields: Seq<(Seq<char>, ValueModel)>,
    i: nat,
) -> MatchResult
    decreases names.len() - i,
{
    if i >= names.len() {
        Ok(Some(Seq::empty()))
    } else {
        match lookup(fields, names[i as int]) {
            None => Err(
                RuntimeErrorModel::RecordFieldNotFound(names[i as int], ValueModel::Record(fields)),
            ),
            Some(x) => and_then_match(
                Ok(Some(seq![(names[i as int], x)])),
                match_fields_model(names, fields, i + 1),
            ),
        }
    }
}

/// What a call of [`match_pattern`] that returned `r` and left `after` in
/// place of `before` has to do with the match `m`.
pub open spec fn match_done(
    m: MatchResult,
    r: Result<bool, RuntimeError>,
    before: Seq<(String, Value)>,
    after: Seq<(String, Value)>,
) -> bool {
    match m {
        Err(e) => r matches Err(x) && x@ == e,
        Ok(None) => r matches Ok(b) && !b,
        Ok(Some(bs)) => (r matches Ok(b) && b) && binding_models(after) == binding_models(before)
            + bs,
    }
}

/// Matches `v` against `p` and appends the bindings to `out`. Where the
/// value does not match, `out` may hold some bindings of the attempt.
pub fn match_pattern(p: &Pattern, v: &Value, out: &mut Vec<(String, Value)>) -> (r: Result<
    bool,
    RuntimeError,
>)
    ensures
        match_done(match_model(p@, v@), r, old(out)@, final(out)@),
    decreases p,
{
    proof {
        lemma_pattern_model(p);
        lemma_value_model(v);
    }
    let ghost before = binding_models(out@);
    match p {
        Pattern::Var(n) => {
            out.push((n.clone(), v.clone()));
            assert(binding_models(out@) =~= before + seq![(n@, v@)]);
            Ok(true)
        },
        Pattern::Wildcard => {
            assert(before =~= before + Seq::<(Seq<char>, ValueModel)>::empty());
            Ok(true)
        },
        Pattern::Unit => {
            assert(before =~= before + Seq::<(Seq<char>, ValueModel)>::empty());
            match v {
                Value::Unit => Ok(true),
                _ => Ok(false),
            }
        },
        Pattern::LitInt(i) => {
            assert(before =~= before + Seq::<(Seq<char>, ValueModel)>::empty());
            match v {
                Value::Int(x) => Ok(*x == *i),
                Value::Number(x) => Ok(*x == *i),
                _ => Err(RuntimeError::ExpectedInt(v.clone())),
            }
        },
        Pattern::LitString(s) => {
            assert(before =~= before + Seq::<(Seq<char>, ValueModel)>::empty());
            match v {
                Value::String(x) => Ok(*x == *s),
                _ => Ok(false),
            }
        },
        Pattern::LitChar(c) => {
            assert(before =~= before + Seq::<(Seq<char>, ValueModel)>::empty());
            match v {
                Value::Char(x) => Ok(*x == *c),
                _ => Ok(false),
            }
        },
        Pattern::Tuple(ps) => match v {
            Value::Tuple(vs) => {
                if vs.len() == ps.len() {
                    match_patterns(ps, vs, out)
                } else {
                    Err(RuntimeError::ExpectedTuple(v.clone()))
                }
            },
            _ => Err(RuntimeError::ExpectedTuple(v.clone())),
        },
        Pattern::List(ps) => match v {
            Value::List(vs) => {
                if vs.len() == ps.len() {
                    match_patterns(ps, vs, out)
                } else {
                    Ok(false)
                }
            },
            _ => Err(RuntimeError::ExpectedList(v.clone())),
        },
        Pattern::Record(names) => match v {
            Value::Record(fields) => {
                let ghost all = name_models(names@);
                let ghost fs = binding_models(fields@);
                proof {
                    assert(keys_of(fs) =~= entry_keys(fields@));
                    assert(before + Seq::<(Seq<char>, ValueModel)>::empty() =~= before);
                }
                let mut i: usize = 0;
                while i < names.len()
                    invariant
                        i <= names.len(),
                        all == name_models(names@),
                        fs == binding_models(fields@),
                        v@ == ValueModel::Record(fs),
                        p@ == PatternModel::Record(all),
                        keys_of(fs) == entry_keys(fields@),
                        forall|r: Result<bool, RuntimeError>, after: Seq<(String, Value)>|
                            #![trigger match_done(match_fields_model(all, fs, 0), r, old(out)@, after)]
                            match_done(match_fields_model(all, fs, i as nat), r, out@, after)
                                ==> match_done(match_fields_model(all, fs, 0), r, old(out)@, after),
                    decreases names.len() - i,
                {
                    let ghost now = binding_models(out@);
                    let ghost now_out = out@;
                    proof {
                        lemma_key_index(entry_keys(fields@), names[i as int]@);
                    }
                    match find_key(fields, &names[i]) {
                        None => {
                            let e = RuntimeError::RecordFieldNotFound(names[i].clone(), v.clone());
                            proof {
                                assert(lookup(fs, all[i as int]).is_none());
                                assert(match_done(
                                    match_fields_model(all, fs, i as nat),
                                    Err(e),
                                    out@,
                                    out@,
                                ));
                                assert(match_done(
                                    match_fields_model(all, fs, 0),
                                    Err(e),
                                    old(out)@,
                                    out@,
                                ));
                            }
                            return Err(e);
                        },
                        Some(k) => {
                            out.push((names[i].clone(), fields[k].1.clone()));
                            proof {
                                let x = fields[k as int].1@;
                                let n = names[i as int]@;
                                assert(binding_models(out@) =~= now + seq![(n, x)]);
                                assert forall|r: Result<bool, RuntimeError>, after: Seq<
                                    (String, Value),
                                >|
                                    match_done(
                                        match_fields_model(all, fs, (i + 1) as nat),
                                        r,
                                        out@,
                                        after,
                                    ) implies #[trigger] match_done(
                                    match_fields_model(all, fs, 0),
                                    r,
                                    old(out)@,
                                    after,
                                ) by {
                                    let rest = match_fields_model(all, fs, (i + 1) as nat);
                                    if let Ok(Some(b2)) = rest {
                                        assert(now + (seq![(n, x)] + b2) =~= (now + seq![(n, x)])
                                            + b2);
                                    }
                                    assert(match_done(
                                        match_fields_model(all, fs, i as nat),
                                        r,
                                        now_out,
                                        after,
                                    ));
                                }
                            }
                        },
                    }
                    i += 1;
                }
                proof {
                    assert(binding_models(out@) + Seq::<(Seq<char>, ValueModel)>::empty()
                        =~= binding_models(out@));
                    assert(match_done(
                        match_fields_model(all, fs, i as nat),
                        Ok(true),
                        out@,
                        out@,
                    ));
                }
                Ok(true)
            },
            _ => Err(RuntimeError::ExpectedRecord(v.clone())),
        },
        Pattern::Adt(ctor, ps) => match v {
            Value::Adt(name, vs, _) => {
                if *name != *ctor {
                    Ok(false)
                } else if vs.len() == ps.len() {
                    match_patterns(ps, vs, out)
                } else {
                    Err(RuntimeError::ExpectedAdt(v.clone()))
                }
            },
            _ => Err(RuntimeError::ExpectedAdt(v.clone())),
        },
        Pattern::BinaryOp(op, a, b) => {
            if *op != String::from_str("::") {
                return Err(RuntimeError::UnknownOperatorPattern(op.clone()));
            }
            match v {
                Value::List(vs) => {
                    if vs.len() == 0 {
                        return Ok(false);
                    }
                    match match_pattern(a, &vs[0], out) {
                        Err(e) => {
                            return Err(e);
                        },
                        Ok(false) => {
                            return Ok(false);
                        },
                        Ok(true) => {},
                    }
                    let ghost mid = binding_models(out@);
                    let mut rest: Vec<Value> = Vec::new();
                    let mut i: usize = 1;
                    while i < vs.len()
                        invariant
                            1 <= i <= vs.len(),
                            rest.len() == i - 1,
                            forall|j: int| 0 <= j < rest.len() ==> rest[j]@ == vs[j + 1]@,
                        decreases vs.len() - i,
                    {
                        rest.push(vs[i].clone());
                        i += 1;
                    }
                    let tail = Value::List(rest);
                    proof {
                        lemma_value_model(&tail);
                        assert(value_models(rest@) =~= value_models(vs@).subrange(
                            1,
                            vs.len() as int,
                        ));
                    }
                    let r = match_pattern(b, &tail, out);
                    proof {
                        let first = match_model(a@, vs[0]@);
                        let second = match_model(b@, tail@);
                        if let Ok(Some(b2)) = second {
                            assert(before + (first->Ok_0->Some_0 + b2) =~= mid + b2);
                        }
                    }
                    r
                },
                _ => Err(RuntimeError::ExpectedList(v.clone())),
            }
        },
    }
}

/// Matches each value against the pattern at its place.
pub fn match_patterns(ps: &Vec<Pattern>, vs: &Vec<Value>, out: &mut Vec<(String, Value)>) -> (r:
    Result<bool, RuntimeError>)
    ensures
        match_done(
            match_all_model(pattern_models(ps@), value_models(vs@), 0),
            r,
            old(out)@,
            final(out)@,
        ),
    decreases ps,
{
    let ghost pm = pattern_models(ps@);
    let ghost vm = value_models(vs@);
    let mut i: usize = 0;
    while i < ps.len() && i < vs.len()
        invariant
            i <= ps.len(),
            i <= vs.len(),
            pm == pattern_models(ps@),
            vm == value_models(vs@),
            forall|r: Result<bool, RuntimeError>, after: Seq<(String, Value)>|
                #![trigger match_done(match_all_model(pm, vm, 0), r, old(out)@, after)]
                match_done(match_all_model(pm, vm, i as nat), r, out@, after) ==> match_done(
                    match_all_model(pm, vm, 0),
                    r,
                    old(out)@,
                    after,
                ),
        decreases ps.len() - i,
    {
        let ghost now = binding_models(out@);
        let ghost now_out = out@;
        let r = match_pattern(&ps[i], &vs[i], out);
        match r {
            Err(e) => {
                assert(match_done(match_all_model(pm, vm, i as nat), Err(e), now_out, out@));
                return Err(e);
            },
            Ok(false) => {
                assert(match_done(match_all_model(pm, vm, i as nat), Ok(false), now_out, out@));
                return Ok(false);
            },
            Ok(true) => {
                proof {
                    let b1 = match_model(pm[i as int], vm[i as int])->Ok_0->Some_0;
                    assert forall|r: Result<bool, RuntimeError>, after: Seq<(String, Value)>|
                        match_done(
                            match_all_model(pm, vm, (i + 1) as nat),
                            r,
                            out@,
                            after,
                        ) implies #[trigger] match_done(
                        match_all_model(pm, vm, 0),
                        r,
                        old(out)@,
                        after,
                    ) by {
                        let rest = match_all_model(pm, vm, (i + 1) as nat);
                        if let Ok(Some(b2)) = rest {
                            assert(now + (b1 + b2) =~= (now + b1) + b2);
                        }
                        assert(match_done(match_all_model(pm, vm, i as nat), r, now_out, after));
                    }
                }
            },
        }
        i += 1;
    }
    proof {
        assert(binding_models(out@) + Seq::<(Seq<char>, ValueModel)>::empty() =~= binding_models(
            out@,
        ));
        assert(match_done(match_all_model(pm, vm, i as nat), Ok(true), out@, out@));
    }
    Ok(true)
}

} // verus!
