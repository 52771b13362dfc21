//! The syntax tree that the analyzer and the interpreter consume, together
//! with the mathematical model of each node.
use vstd::prelude::*;
use vstd::string::StringExecFns;

verus! {

/// A type of the language.
#[derive(Debug, PartialEq, Eq)]
pub enum Type {
    /// A placeholder that unification may still resolve.
    Var(String),
    /// A nominal type applied to its arguments.
    Tag(String, Vec<Type>),
    /// A curried function arrow.
    Fun(Box<Type>, Box<Type>),
    Tuple(Vec<Type>),
    /// Fields in order; the names are unique in a well-formed type.
    Record(Vec<(String, Type)>),
    Unit,
}

/// The model of a [`Type`].
pub enum TypeModel {
    Var(Seq<char>),
    Tag(Seq<char>, Seq<TypeModel>),
    Fun(Box<TypeModel>, Box<TypeModel>),
    Tuple(Seq<TypeModel>),
    Record(Seq<(Seq<char>, TypeModel)>),
    Unit,
}

impl Type {
    pub open spec fn model(&self) -> TypeModel
        decreases self,
    {
        match self {
            Type::Var(n) => TypeModel::Var(n@),
            Type::Tag(n, args) => TypeModel::Tag(
                n@,
                Seq::new(
                    args.len() as nat,
                    |i: int|
                        if 0 <= i < args.len() {
                            args[i].model()
                        } else {
                            TypeModel::Unit
                        },
                ),
            ),
            Type::Fun(a, b) => TypeModel::Fun(Box::new(a.model()), Box::new(b.model())),
            Type::Tuple(items) => TypeModel::Tuple(
                Seq::new(
                    items.len() as nat,
                    |i: int|
                        if 0 <= i < items.len() {
                            items[i].model()
                        } else {
                            TypeModel::Unit
                        },
                ),
            ),
            Type::Record(fields) => TypeModel::Record(
                Seq::new(
                    fields.len() as nat,
                    |i: int|
                        if 0 <= i < fields.len() {
                            (fields[i].0@, fields[i].1.model())
                        } else {
                            (Seq::empty(), TypeModel::Unit)
                        },
                ),
            ),
            Type::Unit => TypeModel::Unit,
        }
    }
}

impl View for Type {
    type V = TypeModel;

    open spec fn view(&self) -> TypeModel {
        self.model()
    }
}

/// The models of a vector of types, in order.
pub open spec fn type_models(v: Seq<Type>) -> Seq<TypeModel> {
    Seq::new(v.len(), |i: int| v[i]@)
}

/// The models of a vector of named types, in order.
pub open spec fn field_models(v: Seq<(String, Type)>) -> Seq<(Seq<char>, TypeModel)> {
    Seq::new(v.len(), |i: int| (v[i].0@, v[i].1@))
}

/// What each constructor's model is, over the helper functions above.
pub proof fn lemma_type_model(t: &Type)
    ensures
        t matches Type::Var(n) ==> t@ == TypeModel::Var(n@),
        t matches Type::Tag(n, args) ==> t@ == TypeModel::Tag(n@, type_models(args@)),
        t matches Type::Fun(a, b) ==> t@ == TypeModel::Fun(Box::new(a@), Box::new(b@)),
        t matches Type::Tuple(items) ==> t@ == TypeModel::Tuple(type_models(items@)),
        t matches Type::Record(fields) ==> t@ == TypeModel::Record(field_models(fields@)),
        t matches Type::Unit ==> t@ == TypeModel::Unit,
{
    match t {
        Type::Tag(n, args) => {
            assert(t@->Tag_1 =~= type_models(args@));
        },
        Type::Tuple(items) => {
            assert(t@->Tuple_0 =~= type_models(items@));
        },
        Type::Record(fields) => {
            assert(t@->Record_0 =~= field_models(fields@));
        },
        _ => {},
    }
}

/// A copy of the types.
pub fn clone_types(v: &Vec<Type>) -> (r: Vec<Type>)
    ensures
        type_models(r@) == type_models(v@),
    decreases v,
{
    let mut out: Vec<Type> = Vec::new();
    let mut i: usize = 0;
    while i < v.len()
        invariant
            i <= v.len(),
            out.len() == i,
            forall|j: int| 0 <= j < i ==> out[j]@ == v[j]@,
        decreases v.len() - i,
    {
        out.push(v[i].clone());
        i += 1;
    }
    assert(type_models(out@) =~= type_models(v@));
    out
}

/// A copy of the named types.
pub fn clone_fields(v: &Vec<(String, Type)>) -> (r: Vec<(String, Type)>)
    ensures
        field_models(r@) == field_models(v@),
    decreases v,
{
    let mut out: Vec<(String, Type)> = Vec::new();
    let mut i: usize = 0;
    while i < v.len()
        invariant
            i <= v.len(),
            out.len() == i,
            forall|j: int| 0 <= j < i ==> out[j].0@ == v[j].0@ && out[j].1@ == v[j].1@,
        decreases v.len() - i,
    {
        out.push((v[i].0.clone(), v[i].1.clone()));
        i += 1;
    }
    assert(field_models(out@) =~= field_models(v@));
    out
}

impl Clone for Type {
    fn clone(&self) -> (r: Type)
        ensures
            r@ == self@,
        decreases self,
    {
        let r = match self {
            Type::Var(n) => Type::Var(n.clone()),
            Type::Tag(n, args) => Type::Tag(n.clone(), clone_types(args)),
            Type::Fun(a, b) => Type::Fun(Box::new((**a).clone()), Box::new((**b).clone())),
            Type::Tuple(items) => Type::Tuple(clone_types(items)),
            Type::Record(fields) => Type::Record(clone_fields(fields)),
            Type::Unit => Type::Unit,
        };
        proof {
            lemma_type_model(self);
            lemma_type_model(&r);
        }
        r
    }
}

/// The views of a vector of names, in order.
pub open spec fn name_models(v: Seq<String>) -> Seq<Seq<char>> {
    Seq::new(v.len(), |i: int| v[i]@)
}

/// A copy of the names.
pub fn clone_names(v: &Vec<String>) -> (r: Vec<String>)
    ensures
        name_models(r@) == name_models(v@),
{
    let mut out: Vec<String> = Vec::new();
    let mut i: usize = 0;
    while i < v.len()
        invariant
            i <= v.len(),
            out.len() == i,
            forall|j: int| 0 <= j < i ==> out[j]@ == v[j]@,
        decreases v.len() - i,
    {
        out.push(v[i].clone());
        i += 1;
    }
    assert(name_models(out@) =~= name_models(v@));
    out
}

/// A literal of the source text. A float is held as the bits of its IEEE 754
/// double, so that it can be carried and compared without being computed on.
#[derive(Debug, PartialEq, Eq)]
pub enum Literal {
    Int(i64),
    Float(u64),
    String(String),
    Char(char),
}

/// The model of a [`Literal`].
pub enum LiteralModel {
    Int(i64),
    Float(u64),
    String(Seq<char>),
    Char(char),
}

impl View for Literal {
    type V = LiteralModel;

    open spec fn view(&self) -> LiteralModel {
        match self {
            Literal::Int(i) => LiteralModel::Int(*i),
            Literal::Float(f) => LiteralModel::Float(*f),
            Literal::String(s) => LiteralModel::String(s@),
            Literal::Char(c) => LiteralModel::Char(*c),
        }
    }
}

impl Clone for Literal {
    fn clone(&self) -> (r: Literal)
        ensures
            r@ == self@,
    {
        match self {
            Literal::Int(i) => Literal::Int(*i),
            Literal::Float(f) => Literal::Float(*f),
            Literal::String(s) => Literal::String(s.clone()),
            Literal::Char(c) => Literal::Char(*c),
        }
    }
}

/// A pattern of a `case` branch, a parameter or a `let` entry.
#[derive(Debug, PartialEq, Eq)]
pub enum Pattern {
    Var(String),
    Wildcard,
    Unit,
    LitInt(i64),
    LitString(String),
    LitChar(char),
    Tuple(Vec<Pattern>),
    List(Vec<Pattern>),
    /// The names of the fields that the pattern binds.
    Record(Vec<String>),
    /// A variant's name and a pattern for each of its fields.
    Adt(String, Vec<Pattern>),
    /// An operator between two patterns; `::` splits a list.
    BinaryOp(String, Box<Pattern>, Box<Pattern>),
}

/// The model of a [`Pattern`].
pub enum PatternModel {
    Var(Seq<char>),
    Wildcard,
    Unit,
    LitInt(i64),
    LitString(Seq<char>),
    LitChar(char),
    Tuple(Seq<PatternModel>),
    List(Seq<PatternModel>),
    Record(Seq<Seq<char>>),
    Adt(Seq<char>, Seq<PatternModel>),
    BinaryOp(Seq<char>, Box<PatternModel>, Box<PatternModel>),
}

impl Pattern {
    pub open spec fn model(&self) -> PatternModel
        decreases self,
    {
        match self {
            Pattern::Var(n) => PatternModel::Var(n@),
            Pattern::Wildcard => PatternModel::Wildcard,
            Pattern::Unit => PatternModel::Unit,
            Pattern::LitInt(i) => PatternModel::LitInt(*i),
            Pattern::LitString(s) => PatternModel::LitString(s@),
            Pattern::LitChar(c) => PatternModel::LitChar(*c),
            Pattern::Tuple(items) => PatternModel::Tuple(
                Seq::new(
                    items.len() as nat,
                    |i: int|
                        if 0 <= i < items.len() {
                            items[i].model()
                        } else {
                            PatternModel::Wildcard
                        },
                ),
            ),
            Pattern::List(items) => PatternModel::List(
                Seq::new(
                    items.len() as nat,
                    |i: int|
                        if 0 <= i < items.len() {
                            items[i].model()
                        } else {
                            PatternModel::Wildcard
                        },
                ),
            ),
            Pattern::Record(names) => PatternModel::Record(name_models(names@)),
            Pattern::Adt(n, items) => PatternModel::Adt(
                n@,
                Seq::new(
                    items.len() as nat,
                    |i: int|
                        if 0 <= i < items.len() {
                            items[i].model()
                        } else {
                            PatternModel::Wildcard
                        },
                ),
            ),
            Pattern::BinaryOp(op, a, b) => PatternModel::BinaryOp(
                op@,
                Box::new(a.model()),
                Box::new(b.model()),
            ),
        }
    }
}

impl View for Pattern {
    type V = PatternModel;

    open spec fn view(&self) -> PatternModel {
        self.model()
    }
}

/// The models of a vector of patterns, in order.
pub open spec fn pattern_models(v: Seq<Pattern>) -> Seq<PatternModel> {
    Seq::new(v.len(), |i: int| v[i]@)
}

/// What each constructor's model is, over the helper functions above.
pub proof fn lemma_pattern_model(p: &Pattern)
    ensures
        p matches Pattern::Var(n) ==> p@ == PatternModel::Var(n@),
        p matches Pattern::Wildcard ==> p@ == PatternModel::Wildcard,
        p matches Pattern::Unit ==> p@ == PatternModel::Unit,
        p matches Pattern::LitInt(i) ==> p@ == PatternModel::LitInt(*i),
        p matches Pattern::LitString(s) ==> p@ == PatternModel::LitString(s@),
        p matches Pattern::LitChar(c) ==> p@ == PatternModel::LitChar(*c),
        p matches Pattern::Tuple(items) ==> p@ == PatternModel::Tuple(pattern_models(items@)),
        p matches Pattern::List(items) ==> p@ == PatternModel::List(pattern_models(items@)),
        p matches Pattern::Record(names) ==> p@ == PatternModel::Record(name_models(names@)),
        p matches Pattern::Adt(n, items) ==> p@ == PatternModel::Adt(n@, pattern_models(items@)),
        p matches Pattern::BinaryOp(op, a, b) ==> p@ == PatternModel::BinaryOp(
            op@,
            Box::new(a@),
            Box::new(b@),
        ),
{
    match p {
        Pattern::Tuple(items) => {
            assert(p@->Tuple_0 =~= pattern_models(items@));
        },
        Pattern::List(items) => {
            assert(p@->List_0 =~= pattern_models(items@));
        },
        Pattern::Adt(n, items) => {
            assert(p@->Adt_1 =~= pattern_models(items@));
        },
        _ => {},
    }
}

/// A copy of the patterns.
pub fn clone_patterns(v: &Vec<Pattern>) -> (r: Vec<Pattern>)
    ensures
        pattern_models(r@) == pattern_models(v@),
    decreases v,
{
    let mut out: Vec<Pattern> = Vec::new();
    let mut i: usize = 0;
    while i < v.len()
        invariant
            i <= v.len(),
            out.len() == i,
            forall|j: int| 0 <= j < i ==> out[j]@ == v[j]@,
        decreases v.len() - i,
    {
        out.push(v[i].clone());
        i += 1;
    }
    assert(pattern_models(out@) =~= pattern_models(v@));
    out
}

impl Clone for Pattern {
    fn clone(&self) -> (r: Pattern)
        ensures
            r@ == self@,
        decreases self,
    {
        let r = match self {
            Pattern::Var(n) => Pattern::Var(n.clone()),
            Pattern::Wildcard => Pattern::Wildcard,
            Pattern::Unit => Pattern::Unit,
            Pattern::LitInt(i) => Pattern::LitInt(*i),
            Pattern::LitString(s) => Pattern::LitString(s.clone()),
            Pattern::LitChar(c) => Pattern::LitChar(*c),
            Pattern::Tuple(items) => Pattern::Tuple(clone_patterns(items)),
            Pattern::List(items) => Pattern::List(clone_patterns(items)),
            Pattern::Record(names) => Pattern::Record(clone_names(names)),
            Pattern::Adt(n, items) => Pattern::Adt(n.clone(), clone_patterns(items)),
            Pattern::BinaryOp(op, a, b) => Pattern::BinaryOp(
                op.clone(),
                Box::new((**a).clone()),
                Box::new((**b).clone()),
            ),
        };
        proof {
            lemma_pattern_model(self);
            lemma_pattern_model(&r);
        }
        r
    }
}

/// An expression. A lambda carries its function type, a definition its
/// header: the closure built from either carries that type on.
#[derive(Debug, PartialEq, Eq)]
pub enum Expr {
    Unit,
    Literal(Literal),
    Ref(String),
    Tuple(Vec<Expr>),
    List(Vec<Expr>),
    Record(Vec<(String, Expr)>),
    /// The name of a record in scope and the fields to replace.
    RecordUpdate(String, Vec<(String, Expr)>),
    RecordField(Box<Expr>, String),
    If(Box<Expr>, Box<Expr>, Box<Expr>),
    Application(Box<Expr>, Box<Expr>),
    Case(Box<Expr>, Vec<(Pattern, Expr)>),
    Lambda(Type, Vec<Pattern>, Box<Expr>),
    Let(Vec<LetEntry>, Box<Expr>),
}

/// One entry of a `let` block.
#[derive(Debug, PartialEq, Eq)]
pub enum LetEntry {
    Definition(Definition),
    Pattern(Pattern, Expr),
}

/// A named function or value: the name, its parameters and its body, of
/// type `header`.
#[derive(Debug, PartialEq, Eq)]
pub struct Definition {
    pub header: Type,
    pub name: String,
    pub patterns: Vec<Pattern>,
    pub expr: Expr,
}

/// The model of a [`Expr`].
pub enum ExprModel {
    Unit,
    Literal(LiteralModel),
    Ref(Seq<char>),
    Tuple(Seq<ExprModel>),
    List(Seq<ExprModel>),
    Record(Seq<(Seq<char>, ExprModel)>),
    RecordUpdate(Seq<char>, Seq<(Seq<char>, ExprModel)>),
    RecordField(Box<ExprModel>, Seq<char>),
    If(Box<ExprModel>, Box<ExprModel>, Box<ExprModel>),
    Application(Box<ExprModel>, Box<ExprModel>),
    Case(Box<ExprModel>, Seq<(PatternModel, ExprModel)>),
    Lambda(TypeModel, Seq<PatternModel>, Box<ExprModel>),
    Let(Seq<LetEntryModel>, Box<ExprModel>),
}

/// The model of a [`LetEntry`].
pub enum LetEntryModel {
    Definition(DefinitionModel),
    Pattern(PatternModel, ExprModel),
}

/// The model of a [`Definition`].
pub struct DefinitionModel {
    pub header: TypeModel,
    pub name: Seq<char>,
    pub patterns: Seq<PatternModel>,
    pub expr: ExprModel,
}

impl Expr {
    pub open spec fn model(&self) -> ExprModel
        decreases self,
    {
        match self {
            Expr::Unit => ExprModel::Unit,
            Expr::Literal(l) => ExprModel::Literal(l@),
            Expr::Ref(n) => ExprModel::Ref(n@),
            Expr::Tuple(items) => ExprModel::Tuple(
                Seq::new(
                    items.len() as nat,
                    |i: int|
                        if 0 <= i < items.len() {
                            items[i].model()
                        } else {
                            ExprModel::Unit
                        },
                ),
            ),
            Expr::List(items) => ExprModel::List(
                Seq::new(
                    items.len() as nat,
                    |i: int|
                        if 0 <= i < items.len() {
                            items[i].model()
                        } else {
                            ExprModel::Unit
                        },
                ),
            ),
            Expr::Record(fields) => ExprModel::Record(
                Seq::new(
                    fields.len() as nat,
                    |i: int|
                        if 0 <= i < fields.len() {
                            (fields[i].0@, fields[i].1.model())
                        } else {
                            (Seq::empty(), ExprModel::Unit)
                        },
                ),
            ),
            Expr::RecordUpdate(n, fields) => ExprModel::RecordUpdate(
                n@,
                Seq::new(
                    fields.len() as nat,
                    |i: int|
                        if 0 <= i < fields.len() {
                            (fields[i].0@, fields[i].1.model())
                        } else {
                            (Seq::empty(), ExprModel::Unit)
                        },
                ),
            ),
            Expr::RecordField(e, n) => ExprModel::RecordField(Box::new(e.model()), n@),
            Expr::If(c, a, b) => ExprModel::If(
                Box::new(c.model()),
                Box::new(a.model()),
                Box::new(b.model()),
            ),
            Expr::Application(f, a) => ExprModel::Application(
                Box::new(f.model()),
                Box::new(a.model()),
            ),
            Expr::Case(e, branches) => ExprModel::Case(
                Box::new(e.model()),
                Seq::new(
                    branches.len() as nat,
                    |i: int|
                        if 0 <= i < branches.len() {
                            (branches[i].0@, branches[i].1.model())
                        } else {
                            (PatternModel::Wildcard, ExprModel::Unit)
                        },
                ),
            ),
            Expr::Lambda(ty, patterns, body) => ExprModel::Lambda(
                ty@,
                pattern_models(patterns@),
                Box::new(body.model()),
            ),
            Expr::Let(entries, body) => ExprModel::Let(
                Seq::new(
                    entries.len() as nat,
                    |i: int|
                        if 0 <= i < entries.len() {
                            entries[i].model()
                        } else {
                            LetEntryModel::Pattern(PatternModel::Wildcard, ExprModel::Unit)
                        },
                ),
                Box::new(body.model()),
            ),
        }
    }
}

impl LetEntry {
    pub open spec fn model(&self) -> LetEntryModel
        decreases self,
    {
        match self {
            LetEntry::Definition(d) => LetEntryModel::Definition(d.model()),
            LetEntry::Pattern(p, e) => LetEntryModel::Pattern(p@, e.model()),
        }
    }
}

impl Definition {
    pub open spec fn model(&self) -> DefinitionModel
        decreases self,
    {
        DefinitionModel {
            header: self.header@,
            name: self.name@,
            patterns: pattern_models(self.patterns@),
            expr: self.expr.model(),
        }
    }
}

impl View for Expr {
    type V = ExprModel;

    open spec fn view(&self) -> ExprModel {
        self.model()
    }
}

impl View for LetEntry {
    type V = LetEntryModel;

    open spec fn view(&self) -> LetEntryModel {
        self.model()
    }
}

impl View for Definition {
    type V = DefinitionModel;

    open spec fn view(&self) -> DefinitionModel {
        self.model()
    }
}

/// The models of a vector of expressions, in order.
pub open spec fn expr_models(v: Seq<Expr>) -> Seq<ExprModel> {
    Seq::new(v.len(), |i: int| v[i]@)
}

/// The models of a vector of named expressions, in order.
pub open spec fn entry_models(v: Seq<(String, Expr)>) -> Seq<(Seq<char>, ExprModel)> {
    Seq::new(v.len(), |i: int| (v[i].0@, v[i].1@))
}

/// The models of the branches of a `case`, in order.
pub open spec fn branch_models(v: Seq<(Pattern, Expr)>) -> Seq<(PatternModel, ExprModel)> {
    Seq::new(v.len(), |i: int| (v[i].0@, v[i].1@))
}

/// The models of the entries of a `let`, in order.
pub open spec fn let_models(v: Seq<LetEntry>) -> Seq<LetEntryModel> {
    Seq::new(v.len(), |i: int| v[i]@)
}

/// What each constructor's model is, over the helper functions above.
pub proof fn lemma_expr_model(e: &Expr)
    ensures
        e matches Expr::Unit ==> e@ == ExprModel::Unit,
        e matches Expr::Literal(l) ==> e@ == ExprModel::Literal(l@),
        e matches Expr::Ref(n) ==> e@ == ExprModel::Ref(n@),
        e matches Expr::Tuple(items) ==> e@ == ExprModel::Tuple(expr_models(items@)),
        e matches Expr::List(items) ==> e@ == ExprModel::List(expr_models(items@)),
        e matches Expr::Record(fields) ==> e@ == ExprModel::Record(entry_models(fields@)),
        e matches Expr::RecordUpdate(n, fields) ==> e@ == ExprModel::RecordUpdate(
            n@,
            entry_models(fields@),
        ),
        e matches Expr::RecordField(b, n) ==> e@ == ExprModel::RecordField(Box::new(b@), n@),
        e matches Expr::If(c, a, b) ==> e@ == ExprModel::If(
            Box::new(c@),
            Box::new(a@),
            Box::new(b@),
        ),
        e matches Expr::Application(f, a) ==> e@ == ExprModel::Application(
            Box::new(f@),
            Box::new(a@),
        ),
        e matches Expr::Case(s, branches) ==> e@ == ExprModel::Case(
            Box::new(s@),
            branch_models(branches@),
        ),
        e matches Expr::Lambda(ty, patterns, body) ==> e@ == ExprModel::Lambda(
            ty@,
            pattern_models(patterns@),
            Box::new(body@),
        ),
        e matches Expr::Let(entries, body) ==> e@ == ExprModel::Let(
            let_models(entries@),
            Box::new(body@),
        ),
{
    match e {
        Expr::Tuple(items) => {
            assert(e@->Tuple_0 =~= expr_models(items@));
        },
        Expr::List(items) => {
            assert(e@->List_0 =~= expr_models(items@));
        },
        Expr::Record(fields) => {
            assert(e@->Record_0 =~= entry_models(fields@));
        },
        Expr::RecordUpdate(n, fields) => {
            assert(e@->RecordUpdate_1 =~= entry_models(fields@));
        },
        Expr::Case(s, branches) => {
            assert(e@->Case_1 =~= branch_models(branches@));
        },
        Expr::Let(entries, body) => {
            assert(e@->Let_0 =~= let_models(entries@));
        },
        _ => {},
    }
}

/// A copy of the expressions.
pub fn clone_exprs(v: &Vec<Expr>) -> (r: Vec<Expr>)
    ensures
        expr_models(r@) == expr_models(v@),
    decreases v,
{
    let mut out: Vec<Expr> = Vec::new();
    let mut i: usize = 0;
    while i < v.len()
        invariant
            i <= v.len(),
            out.len() == i,
            forall|j: int| 0 <= j < i ==> out[j]@ == v[j]@,
        decreases v.len() - i,
    {
        out.push(v[i].clone());
        i += 1;
    }
    assert(expr_models(out@) =~= expr_models(v@));
    out
}

/// A copy of the named expressions.
pub fn clone_entries(v: &Vec<(String, Expr)>) -> (r: Vec<(String, Expr)>)
    ensures
        entry_models(r@) == entry_models(v@),
    decreases v,
{
    let mut out: Vec<(String, Expr)> = Vec::new();
    let mut i: usize = 0;
    while i < v.len()
        invariant
            i <= v.len(),
            out.len() == i,
            forall|j: int| 0 <= j < i ==> out[j].0@ == v[j].0@ && out[j].1@ == v[j].1@,
        decreases v.len() - i,
    {
        out.push((v[i].0.clone(), v[i].1.clone()));
        i += 1;
    }
    assert(entry_models(out@) =~= entry_models(v@));
    out
}

/// A copy of the branches.
pub fn clone_branches(v: &Vec<(Pattern, Expr)>) -> (r: Vec<(Pattern, Expr)>)
    ensures
        branch_models(r@) == branch_models(v@),
    decreases v,
{
    let mut out: Vec<(Pattern, Expr)> = Vec::new();
    let mut i: usize = 0;
    while i < v.len()
        invariant
            i <= v.len(),
            out.len() == i,
            forall|j: int| 0 <= j < i ==> out[j].0@ == v[j].0@ && out[j].1@ == v[j].1@,
        decreases v.len() - i,
    {
        out.push((v[i].0.clone(), v[i].1.clone()));
        i += 1;
    }
    assert(branch_models(out@) =~= branch_models(v@));
    out
}

/// A copy of the entries of a `let`.
pub fn clone_let_entries(v: &Vec<LetEntry>) -> (r: Vec<LetEntry>)
    ensures
        let_models(r@) == let_models(v@),
    decreases v,
{
    let mut out: Vec<LetEntry> = Vec::new();
    let mut i: usize = 0;
    while i < v.len()
        invariant
            i <= v.len(),
            out.len() == i,
            forall|j: int| 0 <= j < i ==> out[j]@ == v[j]@,
        decreases v.len() - i,
    {
        out.push(v[i].clone());
        i += 1;
    }
    assert(let_models(out@) =~= let_models(v@));
    out
}

impl Clone for Expr {
    fn clone(&self) -> (r: Expr)
        ensures
            r@ == self@,
        decreases self,
    {
        let r = match self {
            Expr::Unit => Expr::Unit,
            Expr::Literal(l) => Expr::Literal(l.clone()),
            Expr::Ref(n) => Expr::Ref(n.clone()),
            Expr::Tuple(items) => Expr::Tuple(clone_exprs(items)),
            Expr::List(items) => Expr::List(clone_exprs(items)),
            Expr::Record(fields) => Expr::Record(clone_entries(fields)),
            Expr::RecordUpdate(n, fields) => Expr::RecordUpdate(n.clone(), clone_entries(fields)),
            Expr::RecordField(b, n) => Expr::RecordField(Box::new((**b).clone()), n.clone()),
            Expr::If(c, a, b) => Expr::If(
                Box::new((**c).clone()),
                Box::new((**a).clone()),
                Box::new((**b).clone()),
            ),
            Expr::Application(f, a) => Expr::Application(
                Box::new((**f).clone()),
                Box::new((**a).clone()),
            ),
            Expr::Case(s, branches) => Expr::Case(
                Box::new((**s).clone()),
                clone_branches(branches),
            ),
            Expr::Lambda(ty, patterns, body) => Expr::Lambda(
                ty.clone(),
                clone_patterns(patterns),
                Box::new((**body).clone()),
            ),
            Expr::Let(entries, body) => Expr::Let(
                clone_let_entries(entries),
                Box::new((**body).clone()),
            ),
        };
        proof {
            lemma_expr_model(self);
            lemma_expr_model(&r);
        }
        r
    }
}

impl Clone for LetEntry {
    fn clone(&self) -> (r: LetEntry)
        ensures
            r@ == self@,
        decreases self,
    {
        match self {
            LetEntry::Definition(d) => LetEntry::Definition(d.clone()),
            LetEntry::Pattern(p, e) => LetEntry::Pattern(p.clone(), e.clone()),
        }
    }
}

impl Clone for Definition {
    fn clone(&self) -> (r: Definition)
        ensures
            r@ == self@,
        decreases self,
    {
        Definition {
            header: self.header.clone(),
            name: self.name.clone(),
            patterns: clone_patterns(&self.patterns),
            expr: self.expr.clone(),
        }
    }
}

/// An import of a module, by the parts of its dotted name.
#[derive(Debug, PartialEq, Eq)]
pub struct Import {
    pub path: Vec<String>,
}

impl View for Import {
    type V = Seq<Seq<char>>;

    open spec fn view(&self) -> Seq<Seq<char>> {
        name_models(self.path@)
    }
}

impl Clone for Import {
    fn clone(&self) -> (r: Import)
        ensures
            r@ == self@,
    {
        Import { path: clone_names(&self.path) }
    }
}

} // verus!
