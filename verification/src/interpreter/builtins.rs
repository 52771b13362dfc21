//! The functions that the interpreter brings itself, each known by a
//! number.
use std::sync::Arc;
use vstd::prelude::*;
use vstd::string::StringExecFns;

use crate::ast::{name_models, type_models, Type, TypeModel};
use crate::interpreter::{eval_view, EvalResult, RuntimeError, RuntimeErrorModel};
use crate::types::{
    clone_values, lemma_value_model, value_models, Adt, AdtModel, AdtVariant, AdtVariantModel,
    Value, ValueModel, share,
};

verus! {

/// Makes an instance of a variant: the first argument is the variant
/// without fields, the others become its fields.
pub const ADT_CONSTRUCTOR: u32 = 0;

/// The sum of two whole numbers.
pub const INT_ADD: u32 = 1;

/// The difference of two whole numbers.
pub const INT_SUB: u32 = 2;

/// The product of two whole numbers.
pub const INT_MUL: u32 = 3;

/// Whether two whole numbers are equal.
pub const INT_EQ: u32 = 4;

/// Whether a whole number is less than another.
pub const INT_LT: u32 = 5;

/// The type `Bool`, with its variants `True` and `False`.
pub open spec fn bool_adt_model() -> AdtModel {
    AdtModel {
        name: "Bool"@,
        types: Seq::empty(),
        variants: seq![
            AdtVariantModel { name: "True"@, types: Seq::empty() },
            AdtVariantModel { name: "False"@, types: Seq::empty() },
        ],
    }
}

/// The value `True` or `False`.
pub open spec fn bool_model(b: bool) -> ValueModel {
    ValueModel::Adt(
        if b {
            "True"@
        } else {
            "False"@
        },
        Seq::empty(),
        bool_adt_model(),
    )
}

/// The integer that a numeric argument holds. A float is no integer, and
/// anything else no number.
pub open spec fn int_arg_model(v: ValueModel) -> Result<i64, RuntimeErrorModel> {
    match v {
        ValueModel::Int(x) => Ok(x),
        ValueModel::Number(x) => Ok(x),
        ValueModel::Float(_) => Err(RuntimeErrorModel::ExpectedInt(v)),
        _ => Err(RuntimeErrorModel::ExpectedNumber(v)),
    }
}

/// What the built-in `id` makes of two integers. Sums, differences and
/// products wrap round.
pub open spec fn int_op_model(id: u32, a: i64, b: i64) -> ValueModel {
    if id == INT_ADD {
        ValueModel::Int(a.wrapping_add(b))
    } else if id == INT_SUB {
        ValueModel::Int(a.wrapping_sub(b))
    } else if id == INT_MUL {
        ValueModel::Int(a.wrapping_mul(b))
    } else if id == INT_EQ {
        bool_model(a == b)
    } else {
        bool_model(a < b)
    }
}

/// What the built-in `id` returns for `args`.
pub open spec fn builtin_model(id: u32, args: Seq<ValueModel>) -> EvalResult {
    if id == ADT_CONSTRUCTOR {
        if args.len() == 0 {
            Err(RuntimeErrorModel::FunArgumentSizeMismatch(1, 0))
        } else {
            match args[0] {
                ValueModel::Adt(name, _, adt) => Ok(
                    ValueModel::Adt(name, args.subrange(1, args.len() as int), adt),
                ),
                _ => Err(RuntimeErrorModel::InternalErrorAdtCreation(args[0])),
            }
        }
    } else if INT_ADD <= id <= INT_LT {
        if args.len() != 2 {
            Err(RuntimeErrorModel::FunArgumentSizeMismatch(2, args.len() as usize))
        } else {
            match int_arg_model(args[0]) {
                Err(e) => Err(e),
                Ok(a) => match int_arg_model(args[1]) {
                    Err(e) => Err(e),
                    Ok(b) => Ok(int_op_model(id, a, b)),
                },
            }
        }
    } else {
        Err(RuntimeErrorModel::UnknownBuiltinFunction(id))
    }
}

/// The type `Bool`.
pub fn bool_adt() -> (r: Adt)
    ensures
        r@ == bool_adt_model(),
{
    let mut variants: Vec<AdtVariant> = Vec::new();
    variants.push(AdtVariant { name: String::from_str("True"), types: Vec::new() });
    variants.push(AdtVariant { name: String::from_str("False"), types: Vec::new() });
    let r = Adt { name: String::from_str("Bool"), types: Vec::new(), variants };
    proof {
        assert(name_models(r.types@) =~= Seq::<Seq<char>>::empty());
        assert(type_models(r.variants[0].types@) =~= Seq::<TypeModel>::empty());
        assert(type_models(r.variants[1].types@) =~= Seq::<TypeModel>::empty());
        assert(r@.variants =~= bool_adt_model().variants);
    }
    r
}

/// The value `True` or `False`.
pub fn bool_value(b: bool) -> (r: Value)
    ensures
        r@ == bool_model(b),
{
    let name = if b {
        String::from_str("True")
    } else {
        String::from_str("False")
    };
    let r = Value::Adt(name, Vec::new(), Arc::new(bool_adt()));
    proof {
        lemma_value_model(&r);
        assert(value_models(Seq::<Value>::empty()) =~= Seq::<ValueModel>::empty());
    }
    r
}

/// The integer that a numeric argument holds.
fn int_arg(v: &Value) -> (r: Result<i64, RuntimeError>)
    ensures
        match int_arg_model(v@) {
            Ok(x) => r == Ok::<i64, RuntimeError>(x),
            Err(e) => r matches Err(x) && x@ == e,
        },
{
    proof {
        lemma_value_model(v);
    }
    match v {
        Value::Int(x) => Ok(*x),
        Value::Number(x) => Ok(*x),
        Value::Float(_) => Err(RuntimeError::ExpectedInt(v.clone())),
        _ => Err(RuntimeError::ExpectedNumber(v.clone())),
    }
}

/// Calls the built-in `id` on `args`.
pub fn call_builtin(id: u32, args: &Vec<Value>) -> (r: Result<Value, RuntimeError>)
    ensures
        eval_view(r) == builtin_model(id, value_models(args@)),
{
    if id == ADT_CONSTRUCTOR {
        if args.len() == 0 {
            return Err(RuntimeError::FunArgumentSizeMismatch(1, 0));
        }
        proof {
            lemma_value_model(&args[0]);
        }
        match &args[0] {
            Value::Adt(name, _, adt) => {
                let mut fields: Vec<Value> = Vec::new();
                let mut i: usize = 1;
                while i < args.len()
                    invariant
                        1 <= i <= args.len(),
                        fields.len() == i - 1,
                        forall|j: int| 0 <= j < fields.len() ==> fields[j]@ == args[j + 1]@,
                    decreases args.len() - i,
                {
                    fields.push(args[i].clone());
                    i += 1;
                }
                let r = Value::Adt(name.clone(), fields, share(adt));
                proof {
                    lemma_value_model(&r);
                    assert(value_models(fields@) =~= value_models(args@).subrange(
                        1,
                        args.len() as int,
                    ));
                }
                Ok(r)
            },
            _ => Err(RuntimeError::InternalErrorAdtCreation(args[0].clone())),
        }
    } else if INT_ADD <= id && id <= INT_LT {
        if args.len() != 2 {
            return Err(RuntimeError::FunArgumentSizeMismatch(2, args.len()));
        }
        let a = match int_arg(&args[0]) {
            Ok(a) => a,
            Err(e) => {
                return Err(e);
            },
        };
        let b = match int_arg(&args[1]) {
            Ok(b) => b,
            Err(e) => {
                return Err(e);
            },
        };
        let r = if id == INT_ADD {
            Value::Int(a.wrapping_add(b))
        } else if id == INT_SUB {
            Value::Int(a.wrapping_sub(b))
        } else if id == INT_MUL {
            Value::Int(a.wrapping_mul(b))
        } else if id == INT_EQ {
            bool_value(a == b)
        } else {
            bool_value(a < b)
        };
        proof {
            lemma_value_model(&r);
        }
        Ok(r)
    } else {
        Err(RuntimeError::UnknownBuiltinFunction(id))
    }
}

} // verus!
