//! The values of the language, the functions they may hold and the algebraic
//! data types they may belong to, each with its mathematical model.
use std::sync::Arc;
use vstd::prelude::*;

use crate::scope::{entry_keys, key_index, keys_of, lemma_key_index, scope_map};
use crate::ast::{
    field_models, lemma_type_model, pattern_models, clone_patterns, type_models, clone_types,
    clone_names, name_models, Definition, DefinitionModel, Expr, ExprModel, Import, Pattern,
    PatternModel, Type, TypeModel,
};

verus! {

/// Another handle on a shared, immutable record. Stands for `Arc::clone` of
/// the standard library, which hands back a pointer to the same allocation:
/// the record reached through the new handle is the one reached through the
/// old.
#[verifier::external_body]
pub(crate) fn share<T>(a: &Arc<T>) -> (r: Arc<T>)
    ensures
        r == *a,
{
    a.clone()
}

/// One variant of an algebraic data type.
#[derive(Debug, PartialEq, Eq)]
pub struct AdtVariant {
    pub name: String,
    pub types: Vec<Type>,
}

/// An algebraic data type: created once, then shared by every value and
/// pattern that refers to it.
#[derive(Debug, PartialEq, Eq)]
pub struct Adt {
    pub name: String,
    /// The names of the type parameters.
    pub types: Vec<String>,
    pub variants: Vec<AdtVariant>,
}

/// The model of a [`AdtVariant`].
pub struct AdtVariantModel {
    pub name: Seq<char>,
    pub types: Seq<TypeModel>,
}

/// The model of a [`Adt`].
pub struct AdtModel {
    pub name: Seq<char>,
    pub types: Seq<Seq<char>>,
    pub variants: Seq<AdtVariantModel>,
}

impl View for AdtVariant {
    type V = AdtVariantModel;

    open spec fn view(&self) -> AdtVariantModel {
        AdtVariantModel { name: self.name@, types: type_models(self.types@) }
    }
}

impl View for Adt {
    type V = AdtModel;

    open spec fn view(&self) -> AdtModel {
        AdtModel {
            name: self.name@,
            types: name_models(self.types@),
            variants: Seq::new(self.variants@.len(), |i: int| self.variants@[i]@),
        }
    }
}

impl Clone for AdtVariant {
    fn clone(&self) -> (r: AdtVariant)
        ensures
            r@ == self@,
    {
        AdtVariant { name: self.name.clone(), types: clone_types(&self.types) }
    }
}

impl Clone for Adt {
    fn clone(&self) -> (r: Adt)
        ensures
            r@ == self@,
    {
        let mut variants: Vec<AdtVariant> = Vec::new();
        let mut i: usize = 0;
        while i < self.variants.len()
            invariant
                i <= self.variants.len(),
                variants.len() == i,
                forall|j: int| 0 <= j < i ==> variants[j]@ == self.variants[j]@,
            decreases self.variants.len() - i,
        {
            variants.push(self.variants[i].clone());
            i += 1;
        }
        let r = Adt { name: self.name.clone(), types: clone_names(&self.types), variants };
        assert(r@.variants =~= self@.variants);
        r
    }
}

/// A value of the language.
#[derive(Debug, PartialEq, Eq)]
pub enum Value {
    Unit,
    /// A number that no context has yet fixed as an `Int` or a `Float`.
    Number(i64),
    Int(i64),
    /// The bits of an IEEE 754 double.
    Float(u64),
    String(String),
    Char(char),
    List(Vec<Value>),
    Tuple(Vec<Value>),
    Record(Vec<(String, Value)>),
    /// A variant's name, its fields, and the type it belongs to.
    Adt(String, Vec<Value>, Arc<Adt>),
    /// A function that waits for `arg_count` arguments and has `args` of them.
    Fun { arg_count: u32, args: Vec<Value>, fun: Arc<Function> },
}

/// The body of a function value: created once, then shared.
#[derive(Debug, PartialEq, Eq)]
pub enum Function {
    /// A built-in, known by its number.
    External { id: u32, function_type: Type },
    /// Another function under a declared type.
    Wrapper { inner: Arc<Function>, function_type: Type },
    /// A definition of the program, with the values that its free names had
    /// when it was made.
    Definition {
        patterns: Vec<Pattern>,
        expression: Expr,
        captures: Vec<(String, Value)>,
        function_type: Type,
    },
}

/// The model of a [`Value`].
pub enum ValueModel {
    Unit,
    Number(i64),
    Int(i64),
    Float(u64),
    String(Seq<char>),
    Char(char),
    List(Seq<ValueModel>),
    Tuple(Seq<ValueModel>),
    Record(Seq<(Seq<char>, ValueModel)>),
    Adt(Seq<char>, Seq<ValueModel>, AdtModel),
    Fun { arg_count: u32, args: Seq<ValueModel>, fun: Box<FunctionModel> },
}

/// The model of a [`Function`].
pub enum FunctionModel {
    External { id: u32, function_type: TypeModel },
    Wrapper { inner: Box<FunctionModel>, function_type: TypeModel },
    Definition {
        patterns: Seq<PatternModel>,
        expression: ExprModel,
        captures: Map<Seq<char>, ValueModel>,
        function_type: TypeModel,
    },
}

impl Value {
    pub open spec fn model(&self) -> ValueModel
        decreases self,
    {
        match self {
            Value::Unit => ValueModel::Unit,
            Value::Number(n) => ValueModel::Number(*n),
            Value::Int(n) => ValueModel::Int(*n),
            Value::Float(f) => ValueModel::Float(*f),
            Value::String(s) => ValueModel::String(s@),
            Value::Char(c) => ValueModel::Char(*c),
            Value::List(items) => ValueModel::List(
                Seq::new(
                    items.len() as nat,
                    |i: int|
                        if 0 <= i < items.len() {
                            items[i].model()
                        } else {
                            ValueModel::Unit
                        },
                ),
            ),
            Value::Tuple(items) => ValueModel::Tuple(
                Seq::new(
                    items.len() as nat,
                    |i: int|
                        if 0 <= i < items.len() {
                            items[i].model()
                        } else {
                            ValueModel::Unit
                        },
                ),
            ),
            Value::Record(fields) => ValueModel::Record(
                Seq::new(
                    fields.len() as nat,
                    |i: int|
                        if 0 <= i < fields.len() {
                            (fields[i].0@, fields[i].1.model())
                        } else {
                            (Seq::empty(), ValueModel::Unit)
                        },
                ),
            ),
            Value::Adt(n, items, adt) => ValueModel::Adt(
                n@,
                Seq::new(
                    items.len() as nat,
                    |i: int|
                        if 0 <= i < items.len() {
                            items[i].model()
                        } else {
                            ValueModel::Unit
                        },
                ),
                adt@,
            ),
            Value::Fun { arg_count, args, fun } => ValueModel::Fun {
                arg_count: *arg_count,
                args: Seq::new(
                    args.len() as nat,
                    |i: int|
                        if 0 <= i < args.len() {
                            args[i].model()
                        } else {
                            ValueModel::Unit
                        },
                ),
                fun: Box::new(fun.model()),
            },
        }
    }
}

impl Function {
    pub open spec fn model(&self) -> FunctionModel
        decreases self,
    {
        match self {
            Function::External { id, function_type } => FunctionModel::External {
                id: *id,
                function_type: function_type@,
            },
            Function::Wrapper { inner, function_type } => FunctionModel::Wrapper {
                inner: Box::new(inner.model()),
                function_type: function_type@,
            },
            Function::Definition {
                patterns,
                expression,
                captures,
                function_type,
            } => FunctionModel::Definition {
                patterns: pattern_models(patterns@),
                expression: expression@,
                captures: Map::new(
                    |n: Seq<char>| key_index(entry_keys(captures@), n) >= 0,
                    |n: Seq<char>|
                        {
                            let i = key_index(entry_keys(captures@), n);
                            if 0 <= i < captures.len() {
                                captures[i].1.model()
                            } else {
                                ValueModel::Unit
                            }
                        },
                ),
                function_type: function_type@,
            },
        }
    }
}

impl View for Value {
    type V = ValueModel;

    open spec fn view(&self) -> ValueModel {
        self.model()
    }
}

impl View for Function {
    type V = FunctionModel;

    open spec fn view(&self) -> FunctionModel {
        self.model()
    }
}

/// The models of a vector of values, in order.
pub open spec fn value_models(v: Seq<Value>) -> Seq<ValueModel> {
    Seq::new(v.len(), |i: int| v[i]@)
}

/// The models of a vector of named values, in order.
pub open spec fn binding_models(v: Seq<(String, Value)>) -> Seq<(Seq<char>, ValueModel)> {
    Seq::new(v.len(), |i: int| (v[i].0@, v[i].1@))
}

/// What each constructor's model is, over the helper functions above.
pub proof fn lemma_value_model(v: &Value)
    ensures
        v matches Value::Unit ==> v@ == ValueModel::Unit,
        v matches Value::Number(n) ==> v@ == ValueModel::Number(*n),
        v matches Value::Int(n) ==> v@ == ValueModel::Int(*n),
        v matches Value::Float(f) ==> v@ == ValueModel::Float(*f),
        v matches Value::String(s) ==> v@ == ValueModel::String(s@),
        v matches Value::Char(c) ==> v@ == ValueModel::Char(*c),
        v matches Value::List(items) ==> v@ == ValueModel::List(value_models(items@)),
        v matches Value::Tuple(items) ==> v@ == ValueModel::Tuple(value_models(items@)),
        v matches Value::Record(fields) ==> v@ == ValueModel::Record(binding_models(fields@)),
        v matches Value::Adt(n, items, adt) ==> v@ == ValueModel::Adt(
            n@,
            value_models(items@),
            adt@,
        ),
        v matches Value::Fun { arg_count, args, fun } ==> v@ == (ValueModel::Fun {
            arg_count: *arg_count,
            args: value_models(args@),
            fun: Box::new(fun@),
        }),
{
    match v {
        Value::List(items) => {
            assert(v@->List_0 =~= value_models(items@));
        },
        Value::Tuple(items) => {
            assert(v@->Tuple_0 =~= value_models(items@));
        },
        Value::Record(fields) => {
            assert(v@->Record_0 =~= binding_models(fields@));
        },
        Value::Adt(n, items, adt) => {
            assert(v@->Adt_1 =~= value_models(items@));
        },
        Value::Fun { arg_count, args, fun } => {
            assert(v@->Fun_args =~= value_models(args@));
        },
        _ => {},
    }
}

/// What each constructor's model is, over the helper functions above.
pub proof fn lemma_function_model(f: &Function)
    ensures
        f matches Function::External { id, function_type } ==> f@ == (FunctionModel::External {
            id: *id,
            function_type: function_type@,
        }),
        f matches Function::Wrapper { inner, function_type } ==> f@ == (FunctionModel::Wrapper {
            inner: Box::new(inner@),
            function_type: function_type@,
        }),
        f matches Function::Definition { patterns, expression, captures, function_type } ==> f@
            == (FunctionModel::Definition {
            patterns: pattern_models(patterns@),
            expression: expression@,
            captures: scope_map(binding_models(captures@)),
            function_type: function_type@,
        }),
{
    match f {
        Function::Definition { patterns, expression, captures, function_type } => {
            assert(keys_of(binding_models(captures@)) =~= entry_keys(captures@));
            assert forall|n: Seq<char>|
                key_index(entry_keys(captures@), n) < captures@.len() by {
                lemma_key_index(entry_keys(captures@), n);
            }
            assert(f@->Definition_captures =~= scope_map(binding_models(captures@)));
        },
        _ => {},
    }
}

/// A copy of the values.
pub fn clone_values(v: &Vec<Value>) -> (r: Vec<Value>)
    ensures
        value_models(r@) == value_models(v@),
    decreases v,
{
    let mut out: Vec<Value> = Vec::new();
    let mut i: usize = 0;
    while i < v.len()
        invariant
            i <= v.len(),
            out.len() == i,
            forall|j: int| 0 <= j < i ==> out[j]@ == v[j]@,
        decreases v.len() - i,
    {
        out.push(v[i].clone());
        i += 1;
    }
    assert(value_models(out@) =~= value_models(v@));
    out
}

/// A copy of the named values.
pub fn clone_bindings(v: &Vec<(String, Value)>) -> (r: Vec<(String, Value)>)
    ensures
        binding_models(r@) == binding_models(v@),
    decreases v,
{
    let mut out: Vec<(String, Value)> = Vec::new();
    let mut i: usize = 0;
    while i < v.len()
        invariant
            i <= v.len(),
            out.len() == i,
            forall|j: int| 0 <= j < i ==> out[j].0@ == v[j].0@ && out[j].1@ == v[j].1@,
        decreases v.len() - i,
    {
        out.push((v[i].0.clone(), v[i].1.clone()));
        i += 1;
    }
    assert(binding_models(out@) =~= binding_models(v@));
    out
}

impl Clone for Value {
    /// A copy of the value; what it shares (function bodies, data types) the
    /// copy shares too.
    fn clone(&self) -> (r: Value)
        ensures
            r@ == self@,
        decreases self,
    {
        let r = match self {
            Value::Unit => Value::Unit,
            Value::Number(n) => Value::Number(*n),
            Value::Int(n) => Value::Int(*n),
            Value::Float(f) => Value::Float(*f),
            Value::String(s) => Value::String(s.clone()),
            Value::Char(c) => Value::Char(*c),
            Value::List(items) => Value::List(clone_values(items)),
            Value::Tuple(items) => Value::Tuple(clone_values(items)),
            Value::Record(fields) => Value::Record(clone_bindings(fields)),
            Value::Adt(n, items, adt) => Value::Adt(n.clone(), clone_values(items), share(adt)),
            Value::Fun { arg_count, args, fun } => Value::Fun {
                arg_count: *arg_count,
                args: clone_values(args),
                fun: share(fun),
            },
        };
        proof {
            lemma_value_model(self);
            lemma_value_model(&r);
        }
        r
    }
}

/// A statement of a module.
#[derive(Debug, PartialEq, Eq)]
pub enum Statement {
    /// A name for a type.
    Alias(String, Type),
    /// An algebraic data type.
    Adt(Arc<Adt>),
    /// A named function or value.
    Def(Definition),
}

/// The model of a [`Statement`].
pub enum StatementModel {
    Alias(Seq<char>, TypeModel),
    Adt(AdtModel),
    Def(DefinitionModel),
}

impl View for Statement {
    type V = StatementModel;

    open spec fn view(&self) -> StatementModel {
        match self {
            Statement::Alias(n, t) => StatementModel::Alias(n@, t@),
            Statement::Adt(adt) => StatementModel::Adt(adt@),
            Statement::Def(d) => StatementModel::Def(d@),
        }
    }
}

impl Clone for Statement {
    fn clone(&self) -> (r: Statement)
        ensures
            r@ == self@,
    {
        match self {
            Statement::Alias(n, t) => Statement::Alias(n.clone(), t.clone()),
            Statement::Adt(adt) => Statement::Adt(share(adt)),
            Statement::Def(d) => Statement::Def(d.clone()),
        }
    }
}

/// A module: what it imports and what it states.
#[derive(Debug, PartialEq, Eq)]
pub struct Module {
    pub imports: Vec<Import>,
    pub statements: Vec<Statement>,
}

/// The model of a [`Module`].
pub struct ModuleModel {
    /// Each import as the parts of its dotted name.
    pub imports: Seq<Seq<Seq<char>>>,
    pub statements: Seq<StatementModel>,
}

impl View for Module {
    type V = ModuleModel;

    open spec fn view(&self) -> ModuleModel {
        ModuleModel {
            imports: Seq::new(self.imports@.len(), |i: int| self.imports@[i]@),
            statements: Seq::new(self.statements@.len(), |i: int| self.statements@[i]@),
        }
    }
}

impl Clone for Module {
    fn clone(&self) -> (r: Module)
        ensures
            r@ == self@,
    {
        let mut imports: Vec<Import> = Vec::new();
        let mut i: usize = 0;
        while i < self.imports.len()
            invariant
                i <= self.imports.len(),
                imports.len() == i,
                forall|j: int| 0 <= j < i ==> imports[j]@ == self.imports[j]@,
            decreases self.imports.len() - i,
        {
            imports.push(self.imports[i].clone());
            i += 1;
        }
        let mut statements: Vec<Statement> = Vec::new();
        let mut k: usize = 0;
        while k < self.statements.len()
            invariant
                k <= self.statements.len(),
                statements.len() == k,
                forall|j: int| 0 <= j < k ==> statements[j]@ == self.statements[j]@,
            decreases self.statements.len() - k,
        {
            statements.push(self.statements[k].clone());
            k += 1;
        }
        let r = Module { imports, statements };
        assert(r@.imports =~= self@.imports);
        assert(r@.statements =~= self@.statements);
        r
    }
}

} // verus!
