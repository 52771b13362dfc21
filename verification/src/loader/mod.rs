//! Loading modules: each after the modules it imports.
use std::sync::Arc;
use vstd::prelude::*;
use vstd::string::StringExecFns;

use vstd::string::StrSliceExecFns;

use crate::analyzer::module_analyser::{
    analyze_module, analyze_module_model, declaration_models, declare_all, declared_all,
    statement_models,
};
use crate::analyzer::static_env::{StaticEnv, StaticEnvModel};
use crate::analyzer::unification_laws::well_formed;
use crate::analyzer::{TypeError, TypeErrorModel};
use crate::ast::{clone_names, name_models, Import, Type, TypeModel};
use crate::basics::{default_static_env, default_static_model};
use crate::loader::dependency_sorter::{
    distinct_nodes, is_cycle, is_dependency_order, node_index, sort_dependencies,
    DependencyGraph, GraphModel,
};
use crate::scope::{key_index, lemma_key_index, lemma_key_index_is};
use crate::types::{share, Adt, AdtModel, Module, ModuleModel, Statement, StatementModel};

pub mod dependency_sorter;

verus! {

/// What a module makes known to the modules that import it.
#[derive(Debug, PartialEq, Eq)]
pub enum Declaration {
    /// A definition and its type.
    Def(String, Type),
    /// A name for a type.
    Alias(String, Type),
    /// A data type.
    Adt(String, Arc<Adt>),
}

/// The model of a [`Declaration`].
pub enum DeclarationModel {
    Def(Seq<char>, TypeModel),
    Alias(Seq<char>, TypeModel),
    Adt(Seq<char>, AdtModel),
}

impl View for Declaration {
    type V = DeclarationModel;

    open spec fn view(&self) -> DeclarationModel {
        match self {
            Declaration::Def(n, t) => DeclarationModel::Def(n@, t@),
            Declaration::Alias(n, t) => DeclarationModel::Alias(n@, t@),
            Declaration::Adt(n, adt) => DeclarationModel::Adt(n@, adt@),
        }
    }
}

impl Clone for Declaration {
    fn clone(&self) -> (r: Declaration)
        ensures
            r@ == self@,
    {
        match self {
            Declaration::Def(n, t) => Declaration::Def(n.clone(), t.clone()),
            Declaration::Alias(n, t) => Declaration::Alias(n.clone(), t.clone()),
            Declaration::Adt(n, adt) => Declaration::Adt(n.clone(), share(adt)),
        }
    }
}

/// The name that a declaration declares.
pub open spec fn declaration_name_model(d: DeclarationModel) -> Seq<char> {
    match d {
        DeclarationModel::Def(n, _) => n,
        DeclarationModel::Alias(n, _) => n,
        DeclarationModel::Adt(n, _) => n,
    }
}

/// The name that a declaration declares.
pub fn declaration_name(decl: &Declaration) -> (r: &str)
    ensures
        r@ == declaration_name_model(decl@),
{
    match decl {
        Declaration::Def(name, _) => name.as_str(),
        Declaration::Alias(name, _) => name.as_str(),
        Declaration::Adt(name, _) => name.as_str(),
    }
}

/// A source file: the module's dotted name, where the file lies, and what
/// it holds.
#[derive(Debug, PartialEq, Eq)]
pub struct SourceFile {
    pub name: String,
    pub path: String,
    pub source: Vec<u8>,
}

/// The model of a [`SourceFile`].
pub struct SourceFileModel {
    pub name: Seq<char>,
    pub path: Seq<char>,
    pub source: Seq<u8>,
}

impl View for SourceFile {
    type V = SourceFileModel;

    open spec fn view(&self) -> SourceFileModel {
        SourceFileModel { name: self.name@, path: self.path@, source: self.source@ }
    }
}

impl Clone for SourceFile {
    fn clone(&self) -> (r: SourceFile)
        ensures
            r@ == self@,
    {
        SourceFile {
            name: self.name.clone(),
            path: self.path.clone(),
            source: self.source.clone(),
        }
    }
}

/// A module that was analyzed.
#[derive(Debug, PartialEq, Eq)]
pub struct LoadedModule {
    pub src: SourceFile,
    pub ast: Module,
    pub declarations: Vec<Declaration>,
    pub dependencies: Vec<String>,
}

/// The model of a [`LoadedModule`].
pub struct LoadedModuleModel {
    pub src: SourceFileModel,
    pub ast: ModuleModel,
    pub declarations: Seq<DeclarationModel>,
    pub dependencies: Seq<Seq<char>>,
}

impl View for LoadedModule {
    type V = LoadedModuleModel;

    open spec fn view(&self) -> LoadedModuleModel {
        LoadedModuleModel {
            src: self.src@,
            ast: self.ast@,
            declarations: declaration_models(self.declarations@),
            dependencies: name_models(self.dependencies@),
        }
    }
}

/// Why a module could not be loaded.
#[derive(Debug, PartialEq, Eq)]
pub enum LoaderError {
    /// A file could not be read; the text says why.
    IO(String),
    /// The module imports these modules, which are not loaded.
    MissingDependencies(Vec<String>),
    /// These modules import each other in a circle.
    CyclicDependency(Vec<String>),
    /// The module has a type error.
    Analysis(TypeError),
}

/// The model of a [`LoaderError`].
pub enum LoaderErrorModel {
    IO(Seq<char>),
    MissingDependencies(Seq<Seq<char>>),
    CyclicDependency(Seq<Seq<char>>),
    Analysis(TypeErrorModel),
}

impl View for LoaderError {
    type V = LoaderErrorModel;

    open spec fn view(&self) -> LoaderErrorModel {
        match self {
            LoaderError::IO(s) => LoaderErrorModel::IO(s@),
            LoaderError::MissingDependencies(v) => LoaderErrorModel::MissingDependencies(
                name_models(v@),
            ),
            LoaderError::CyclicDependency(v) => LoaderErrorModel::CyclicDependency(
                name_models(v@),
            ),
            LoaderError::Analysis(e) => LoaderErrorModel::Analysis(e@),
        }
    }
}

/// The modules that were loaded, in the order in which they were.
#[derive(Debug, PartialEq, Eq)]
pub struct ModuleLoader {
    pub loaded_modules: Vec<LoadedModule>,
}

impl View for ModuleLoader {
    type V = Seq<LoadedModuleModel>;

    open spec fn view(&self) -> Seq<LoadedModuleModel> {
        Seq::new(self.loaded_modules@.len(), |i: int| self.loaded_modules@[i]@)
    }
}

/// The first `n` parts with a dot between each two.
pub open spec fn dotted_first(parts: Seq<Seq<char>>, n: nat) -> Seq<char>
    decreases n,
{
    if n == 0 {
        Seq::empty()
    } else if n == 1 {
        parts[0]
    } else {
        dotted_first(parts, (n - 1) as nat) + "."@ + parts[n - 1]
    }
}

/// The parts with a dot between each two.
pub open spec fn dotted_name(parts: Seq<Seq<char>>) -> Seq<char> {
    dotted_first(parts, parts.len())
}

/// The dotted names of the modules that a module imports, in order.
pub open spec fn dependencies_model(imports: Seq<Seq<Seq<char>>>) -> Seq<Seq<char>> {
    Seq::new(imports.len(), |i: int| dotted_name(imports[i]))
}

/// The ending of a source file's name.
pub open spec fn extension() -> Seq<char> {
    seq!['.', 'e', 'l', 'm']
}

/// Whether the text ends with the ending of a source file's name.
pub open spec fn has_extension(s: Seq<char>) -> bool {
    s.len() >= 4 && s[s.len() - 4] == '.' && s[s.len() - 3] == 'e' && s[s.len() - 2] == 'l'
        && s[s.len() - 1] == 'm'
}

/// The text without the endings at its end, however many there are.
pub open spec fn without_extension(s: Seq<char>) -> Seq<char>
    decreases s.len(),
{
    if has_extension(s) {
        without_extension(s.subrange(0, s.len() - 4))
    } else {
        s
    }
}

/// The dotted name of the module in the file `file_name`, which lies in
/// the folders that `inner_path` names, dotted as well.
pub open spec fn module_name_model(inner_path: Seq<char>, file_name: Seq<char>) -> Seq<char> {
    without_extension(
        if inner_path.len() == 0 {
            file_name
        } else {
            inner_path + "."@ + file_name
        },
    )
}

/// The names of the loaded modules, in order.
pub open spec fn module_names(loaded: Seq<LoadedModuleModel>) -> Seq<Seq<char>> {
    Seq::new(loaded.len(), |i: int| loaded[i].src.name)
}

/// The place of the module called `name`, the last one where several
/// were loaded under it; -1 where none was.
pub open spec fn module_index(loaded: Seq<LoadedModuleModel>, name: Seq<char>) -> int {
    key_index(module_names(loaded), name)
}

/// The dependencies from place `i` on that are not loaded, in order.
pub open spec fn missing_model(loaded: Seq<LoadedModuleModel>, deps: Seq<Seq<char>>, i: nat) -> Seq<
    Seq<char>,
>
    decreases deps.len() - i,
{
    if i >= deps.len() {
        Seq::empty()
    } else if module_index(loaded, deps[i as int]) >= 0 {
        missing_model(loaded, deps, i + 1)
    } else {
        seq![deps[i as int]] + missing_model(loaded, deps, i + 1)
    }
}

/// The environment after the declarations of the dependencies from place
/// `i` on were made known, in order.
pub open spec fn import_env_model(
    loaded: Seq<LoadedModuleModel>,
    deps: Seq<Seq<char>>,
    i: nat,
    env: StaticEnvModel,
) -> StaticEnvModel
    decreases deps.len() - i,
{
    if i >= deps.len() {
        env
    } else {
        let k = module_index(loaded, deps[i as int]);
        import_env_model(
            loaded,
            deps,
            i + 1,
            if k >= 0 {
                declared_all(env, loaded[k].declarations, 0)
            } else {
                env
            },
        )
    }
}

/// How an inclusion ends: the modules that are loaded after it, and the
/// error if there was one.
pub type LoaderOutcome = (Seq<LoadedModuleModel>, Option<LoaderErrorModel>);

/// No two loaded modules have one name.
pub open spec fn distinct_modules(loaded: Seq<LoadedModuleModel>) -> bool {
    forall|i: int, j: int| 0 <= i < j < loaded.len() ==> loaded[i].src.name != loaded[j].src.name
}

/// The loaded modules with `module` among them: in the place of the
/// module of its name, where one is loaded; after the others, where none
/// is.
pub open spec fn with_module(
    loaded: Seq<LoadedModuleModel>,
    module: LoadedModuleModel,
) -> Seq<LoadedModuleModel> {
    if module_index(loaded, module.src.name) >= 0 {
        loaded.update(module_index(loaded, module.src.name), module)
    } else {
        loaded.push(module)
    }
}

/// The inclusion of the module `module` of the source file `src`, under
/// the file's name. Every module it imports has to be loaded. It is
/// analyzed in an environment that holds what every program starts with
/// and what the imported modules declare; where that succeeds it is
/// loaded, with its source file, its syntax tree, what it declares and
/// what it imports: in the place of the module of its name, where one
/// was loaded, else after the others.
pub open spec fn include_module_model(
    loaded: Seq<LoadedModuleModel>,
    src: SourceFileModel,
    module: ModuleModel,
) -> LoaderOutcome {
    let deps = dependencies_model(module.imports);
    let missing = missing_model(loaded, deps, 0);
    if missing.len() > 0 {
        (loaded, Some(LoaderErrorModel::MissingDependencies(missing)))
    } else {
        match analyze_module_model(
            import_env_model(loaded, deps, 0, default_static_model()),
            module.statements,
            0,
        ).1 {
            Err(e) => (loaded, Some(LoaderErrorModel::Analysis(e))),
            Ok(ds) => (
                with_module(
                    loaded,
                    LoadedModuleModel { src, ast: module, declarations: ds, dependencies: deps },
                ),
                None,
            ),
        }
    }
}

/// The model of the sources of a folder: each source file and the module
/// it holds.
pub open spec fn source_models(sources: Seq<(SourceFile, Module)>) -> Seq<
    (SourceFileModel, ModuleModel),
> {
    Seq::new(sources.len(), |i: int| (sources[i].0@, sources[i].1@))
}

/// The names of the sources, in order.
pub open spec fn source_names(sources: Seq<(SourceFileModel, ModuleModel)>) -> Seq<Seq<char>> {
    Seq::new(sources.len(), |i: int| sources[i].0.name)
}

/// The graph with the node `name` depending on `deps`.
pub open spec fn graph_with(g: GraphModel, name: Seq<char>, deps: Seq<Seq<char>>) -> GraphModel {
    if node_index(g, name) >= 0 {
        g.update(node_index(g, name), (name, deps))
    } else {
        g.push((name, deps))
    }
}

/// The graph of the sources from place `i` on, added to `g`: each module
/// depends on what it imports. Of two sources of one name the later
/// counts.
pub open spec fn graph_of(
    sources: Seq<(SourceFileModel, ModuleModel)>,
    i: nat,
    g: GraphModel,
) -> GraphModel
    decreases sources.len() - i,
{
    if i >= sources.len() {
        g
    } else {
        graph_of(
            sources,
            i + 1,
            graph_with(
                g,
                sources[i as int].0.name,
                dependencies_model(sources[i as int].1.imports),
            ),
        )
    }
}

/// The inclusion of the sources named in `order` from place `i` on, one
/// after the other; the first error ends it. Of two sources of one name
/// the later is taken.
pub open spec fn include_in_order_model(
    loaded: Seq<LoadedModuleModel>,
    sources: Seq<(SourceFileModel, ModuleModel)>,
    order: Seq<Seq<char>>,
    i: nat,
) -> LoaderOutcome
    decreases order.len() - i,
{
    if i >= order.len() {
        (loaded, None)
    } else {
        let k = key_index(source_names(sources), order[i as int]);
        if k < 0 {
            include_in_order_model(loaded, sources, order, i + 1)
        } else {
            let (l1, failed) = include_module_model(loaded, sources[k].0, sources[k].1);
            if failed.is_some() {
                (l1, failed)
            } else {
                include_in_order_model(l1, sources, order, i + 1)
            }
        }
    }
}

/// What a call that returned `r` and left the modules `after` loaded has
/// to do with the inclusion `m`.
pub open spec fn loader_done(
    m: LoaderOutcome,
    after: Seq<LoadedModuleModel>,
    r: Result<(), LoaderError>,
) -> bool {
    &&& after == m.0
    &&& match m.1 {
        None => r is Ok,
        Some(e) => r matches Err(x) && x@ == e,
    }
}

/// The parts with a dot between each two.
pub fn join_path(path: &Vec<String>) -> (r: String)
    ensures
        r@ == dotted_name(name_models(path@)),
{
    let ghost parts = name_models(path@);
    let mut out = String::new();
    let mut i: usize = 0;
    while i < path.len()
        invariant
            i <= path.len(),
            parts == name_models(path@),
            out@ == dotted_first(parts, i as nat),
        decreases path.len() - i,
    {
        if i > 0 {
            out.append(".");
        }
        out.append(path[i].as_str());
        proof {
            assert(parts[i as int] == path[i as int]@);
            if i == 0 {
                assert(out@ =~= parts[0]);
            }
        }
        i += 1;
    }
    out
}

/// The dotted names of the modules that `module` imports, in order.
pub fn get_module_dependencies(module: &Module) -> (r: Vec<String>)
    ensures
        name_models(r@) == dependencies_model(module@.imports),
{
    let mut out: Vec<String> = Vec::new();
    let mut i: usize = 0;
    while i < module.imports.len()
        invariant
            i <= module.imports.len(),
            out.len() == i,
            forall|j: int| 0 <= j < i ==> out[j]@ == dotted_name(module.imports[j]@),
        decreases module.imports.len() - i,
    {
        out.push(join_path(&module.imports[i].path));
        i += 1;
    }
    assert(name_models(out@) =~= dependencies_model(module@.imports));
    out
}

/// The dotted name of the module in the file `file_name`, which lies in
/// the folders that `inner_path` names.
pub fn module_name(inner_path: &str, file_name: &str) -> (r: String)
    ensures
        r@ == module_name_model(inner_path@, file_name@),
{
    let mut full = String::from_str(inner_path);
    if inner_path.unicode_len() == 0 {
        full.append(file_name);
        assert(full@ =~= file_name@);
    } else {
        full.append(".");
        full.append(file_name);
    }
    let text = full.as_str();
    let ghost whole = text@;
    let mut n: usize = text.unicode_len();
    assert(whole.subrange(0, n as int) =~= whole);
    loop
        invariant
            n <= whole.len(),
            whole == text@,
            without_extension(whole.subrange(0, n as int)) == without_extension(whole),
        ensures
            n <= whole.len(),
            without_extension(whole) == whole.subrange(0, n as int),
        decreases n,
    {
        let ghost part = whole.subrange(0, n as int);
        if n < 4 {
            break ;
        }
        let ends = text.get_char(n - 4) == '.' && text.get_char(n - 3) == 'e' && text.get_char(
            n - 2,
        ) == 'l' && text.get_char(n - 1) == 'm';
        assert(ends == has_extension(part));
        if !ends {
            break ;
        }
        assert(part.subrange(0, part.len() - 4) =~= whole.subrange(0, n - 4));
        n -= 4;
    }
    String::from_str(text.substring_char(0, n))
}

/// Whether a file of that name is a source file: the name ends with the
/// ending of source files.
pub fn is_source_name(file_name: &str) -> (r: bool)
    ensures
        r == has_extension(file_name@),
{
    let n = file_name.unicode_len();
    n >= 4 && file_name.get_char(n - 4) == '.' && file_name.get_char(n - 3) == 'e'
        && file_name.get_char(n - 2) == 'l' && file_name.get_char(n - 1) == 'm'
}

/// The dotted path of the folder `dir`, which lies in the folders that
/// `inner_path` names.
pub fn inner_path_of(inner_path: &str, dir: &str) -> (r: String)
    ensures
        r@ == if inner_path@.len() == 0 {
            dir@
        } else {
            inner_path@ + "."@ + dir@
        },
{
    let mut r = String::from_str(inner_path);
    if inner_path.unicode_len() == 0 {
        r.append(dir);
        assert(r@ =~= dir@);
    } else {
        r.append(".");
        r.append(dir);
    }
    r
}

impl ModuleLoader {
    /// A loader without modules.
    pub fn new() -> (r: ModuleLoader)
        ensures
            r@.len() == 0,
            distinct_modules(r@),
    {
        ModuleLoader { loaded_modules: Vec::new() }
    }

    /// The place of the module called `name`.
    pub fn find_module(&self, name: &String) -> (r: Option<usize>)
        ensures
            match r {
                Some(k) => k < self.loaded_modules.len() && module_index(self@, name@) == k,
                None => module_index(self@, name@) == -1,
            },
    {
        let mut i: usize = self.loaded_modules.len();
        while i > 0
            invariant
                i <= self.loaded_modules.len(),
                forall|j: int|
                    i <= j < self.loaded_modules.len() ==> self.loaded_modules[j].src.name@
                        != name@,
            decreases i,
        {
            i -= 1;
            if self.loaded_modules[i].src.name == *name {
                proof {
                    lemma_key_index_is(module_names(self@), name@, i as int);
                }
                return Some(i);
            }
        }
        proof {
            lemma_key_index_is(module_names(self@), name@, -1);
        }
        None
    }

    /// The module called `name`, if it is loaded.
    pub fn get_module(&self, name: &str) -> (r: Option<&LoadedModule>)
        ensures
            match r {
                Some(m) => module_index(self@, name@) >= 0 && m@ == self@[module_index(
                    self@,
                    name@,
                )],
                None => module_index(self@, name@) == -1,
            },
    {
        match self.find_module(&String::from_str(name)) {
            Some(k) => Some(&self.loaded_modules[k]),
            None => None,
        }
    }

    /// The dependencies that are not loaded, in order.
    pub fn missing_dependencies(&self, deps: &Vec<String>) -> (r: Vec<String>)
        ensures
            name_models(r@) == missing_model(self@, name_models(deps@), 0),
    {
        let ghost dm = name_models(deps@);
        let mut out: Vec<String> = Vec::new();
        let mut i: usize = 0;
        assert(name_models(out@) =~= Seq::<Seq<char>>::empty());
        while i < deps.len()
            invariant
                i <= deps.len(),
                dm == name_models(deps@),
                name_models(out@) + missing_model(self@, dm, i as nat) == missing_model(
                    self@,
                    dm,
                    0,
                ),
            decreases deps.len() - i,
        {
            let ghost before = name_models(out@);
            if self.find_module(&deps[i]).is_none() {
                out.push(deps[i].clone());
                assert(name_models(out@) =~= before + seq![dm[i as int]]);
                assert(name_models(out@) + missing_model(self@, dm, (i + 1) as nat) =~= before
                    + missing_model(self@, dm, i as nat));
            }
            i += 1;
        }
        assert(name_models(out@) + Seq::<Seq<char>>::empty() =~= name_models(out@));
        out
    }

    /// The environment in which a module that imports `deps` is analyzed.
    pub fn import_env(&self, deps: &Vec<String>) -> (r: StaticEnv)
        ensures
            r@ == import_env_model(self@, name_models(deps@), 0, default_static_model()),
            well_formed(r@.substitution),
    {
        let ghost dm = name_models(deps@);
        let mut env = default_static_env();
        let mut i: usize = 0;
        while i < deps.len()
            invariant
                i <= deps.len(),
                dm == name_models(deps@),
                well_formed(env@.substitution),
                import_env_model(self@, dm, i as nat, env@) == import_env_model(
                    self@,
                    dm,
                    0,
                    default_static_model(),
                ),
            decreases deps.len() - i,
        {
            match self.find_module(&deps[i]) {
                Some(k) => {
                    declare_all(&mut env, &self.loaded_modules[k].declarations);
                },
                None => {},
            }
            i += 1;
        }
        env
    }

    /// Analyzes a module and loads it under the name of its source file,
    /// in the place of the module that was loaded under that name, if one
    /// was. No two modules are loaded under one name afterwards, if none
    /// were before.
    pub fn include_module(&mut self, src: SourceFile, ast: Module) -> (r: Result<(), LoaderError>)
        ensures
            loader_done(include_module_model(old(self)@, src@, ast@), final(self)@, r),
            distinct_modules(old(self)@) ==> distinct_modules(final(self)@),
    {
        let deps = get_module_dependencies(&ast);
        let missing_deps = self.missing_dependencies(&deps);
        if missing_deps.len() > 0 {
            return Err(LoaderError::MissingDependencies(missing_deps));
        }
        let mut env = self.import_env(&deps);
        assert(statement_models(ast.statements@) =~= ast@.statements);
        let declarations = match analyze_module(&mut env, &ast.statements) {
            Err(e) => {
                return Err(LoaderError::Analysis(e));
            },
            Ok(declarations) => declarations,
        };
        let place = self.find_module(&src.name);
        let module = LoadedModule { src, ast, declarations, dependencies: deps };
        proof {
            lemma_with_module_distinct(old(self)@, module@);
        }
        match place {
            Some(k) => {
                self.loaded_modules.set(k, module);
                assert(self@ =~= old(self)@.update(k as int, module@));
            },
            None => {
                self.loaded_modules.push(module);
                assert(self@ =~= old(self)@.push(module@));
            },
        }
        Ok(())
    }

    /// Loads the module of one source file, which was read and parsed.
    pub fn include_file(&mut self, src: SourceFile, ast: Module) -> (r: Result<(), LoaderError>)
        ensures
            loader_done(include_module_model(old(self)@, src@, ast@), final(self)@, r),
            distinct_modules(old(self)@) ==> distinct_modules(final(self)@),
    {
        self.include_module(src, ast)
    }

    /// Loads the named sources, one after the other.
    pub fn include_in_order(&mut self, sources: &Vec<(SourceFile, Module)>, order: &Vec<String>) -> (r:
        Result<(), LoaderError>)
        ensures
            loader_done(
                include_in_order_model(old(self)@, source_models(sources@), name_models(order@), 0),
                final(self)@,
                r,
            ),
            distinct_modules(old(self)@) ==> distinct_modules(final(self)@),
    {
        let ghost sm = source_models(sources@);
        let ghost om = name_models(order@);
        let ghost goal = include_in_order_model(self@, sm, om, 0);
        let mut i: usize = 0;
        while i < order.len()
            invariant
                i <= order.len(),
                sm == source_models(sources@),
                om == name_models(order@),
                goal == include_in_order_model(old(self)@, sm, om, 0),
                include_in_order_model(self@, sm, om, i as nat) == goal,
                distinct_modules(old(self)@) ==> distinct_modules(self@),
            decreases order.len() - i,
        {
            // The last source of that name.
            let mut k: usize = sources.len();
            let mut found: Option<usize> = None;
            while k > 0 && found.is_none()
                invariant
                    k <= sources.len(),
                    i < order.len(),
                    sm == source_models(sources@),
                    found matches Some(x) ==> x < sources.len() && sources[x as int].0.name@
                        == order[i as int]@ && x == k,
                    forall|j: int|
                        (if found.is_some() {
                            k + 1
                        } else {
                            k as int
                        }) <= j < sources.len() ==> sources[j].0.name@ != order[i as int]@,
                decreases k,
            {
                k -= 1;
                if sources[k].0.name == order[i] {
                    found = Some(k);
                }
            }
            match found {
                None => {
                    proof {
                        lemma_key_index_is(source_names(sm), om[i as int], -1);
                    }
                },
                Some(x) => {
                    proof {
                        lemma_key_index_is(source_names(sm), om[i as int], x as int);
                                assert(sm[x as int] == (sources[x as int].0@, sources[x as int].1@));
                    }
                    match self.include_module(sources[x].0.clone(), sources[x].1.clone()) {
                        Err(e) => {
                            return Err(e);
                        },
                        Ok(()) => {},
                    }
                },
            }
            i += 1;
        }
        Ok(())
    }

    /// Loads the modules of a folder, whose source files were read and
    /// parsed: each after the modules of the folder that it imports. Where
    /// the imports go round in a circle no module is loaded.
    pub fn include_folder(&mut self, sources: &Vec<(SourceFile, Module)>) -> (r: Result<
        (),
        LoaderError,
    >)
        ensures
            ({
                let g = graph_of(source_models(sources@), 0, Seq::empty());
                ||| (r matches Err(e) && e@ matches LoaderErrorModel::CyclicDependency(c)
                    && is_cycle(g, c) && c.no_duplicates() && final(self)@ == old(self)@)
                ||| (exists|order: Seq<Seq<char>>|
                    is_dependency_order(g, order) && #[trigger] loader_done(
                        include_in_order_model(old(self)@, source_models(sources@), order, 0),
                        final(self)@,
                        r,
                    ))
            }),
            distinct_modules(old(self)@) ==> distinct_modules(final(self)@),
    {
        let ghost sm = source_models(sources@);
        let mut graph = DependencyGraph::new();
        assert(graph@ =~= Seq::empty());
        let mut i: usize = 0;
        while i < sources.len()
            invariant
                i <= sources.len(),
                sm == source_models(sources@),
                distinct_nodes(graph@),
                graph_of(sm, i as nat, graph@) == graph_of(sm, 0, Seq::empty()),
            decreases sources.len() - i,
        {
            assert(sm[i as int] == (sources[i as int].0@, sources[i as int].1@));
            graph.insert(sources[i].0.name.clone(), get_module_dependencies(&sources[i].1));
            i += 1;
        }
        match sort_dependencies(&graph) {
            Err(cycle) => Err(LoaderError::CyclicDependency(cycle)),
            Ok(order) => {
                let r = self.include_in_order(sources, &order);
                assert(loader_done(
                    include_in_order_model(old(self)@, sm, name_models(order@), 0),
                    self@,
                    r,
                ));
                r
            },
        }
    }
}

/// Putting a module among the loaded ones keeps their names distinct, and
/// changes no module of another name.
pub proof fn lemma_with_module_distinct(loaded: Seq<LoadedModuleModel>, module: LoadedModuleModel)
    ensures
        distinct_modules(loaded) ==> distinct_modules(with_module(loaded, module)),
        module_index(with_module(loaded, module), module.src.name) == if module_index(
            loaded,
            module.src.name,
        ) >= 0 {
            module_index(loaded, module.src.name)
        } else {
            loaded.len() as int
        },
{
    let name = module.src.name;
    let k = module_index(loaded, name);
    let after = with_module(loaded, module);
    lemma_key_index(module_names(loaded), name);
    if k >= 0 {
        assert(module_names(after) =~= module_names(loaded));
        if distinct_modules(loaded) {
            assert forall|i: int, j: int| 0 <= i < j < after.len() implies after[i].src.name
                != after[j].src.name by {
                assert(module_names(loaded)[i] == loaded[i].src.name);
                assert(module_names(loaded)[j] == loaded[j].src.name);
                assert(module_names(after)[i] == after[i].src.name);
                assert(module_names(after)[j] == after[j].src.name);
            }
        }
    } else {
        lemma_key_index_is(module_names(after), name, loaded.len() as int);
        if distinct_modules(loaded) {
            assert forall|i: int, j: int| 0 <= i < j < after.len() implies after[i].src.name
                != after[j].src.name by {
                assert(module_names(loaded)[i] == loaded[i].src.name);
            }
        }
    }
}

/// A module that was included without an error is the one that its name
/// stands for from then on: it holds the source file and the syntax tree
/// that were given, and what the tree imports. The modules of other names
/// are as they were.
pub proof fn law_included_module_is_found(
    loaded: Seq<LoadedModuleModel>,
    src: SourceFileModel,
    module: ModuleModel,
)
    requires
        include_module_model(loaded, src, module).1.is_none(),
    ensures
        ({
            let after = include_module_model(loaded, src, module).0;
            let at = module_index(after, src.name);
            &&& 0 <= at < after.len()
            &&& after[at].src == src
            &&& after[at].ast == module
            &&& after[at].dependencies == dependencies_model(module.imports)
            &&& loaded.len() <= after.len() <= loaded.len() + 1
            &&& forall|j: int| 0 <= j < loaded.len() && j != at ==> after[j] == loaded[j]
            &&& distinct_modules(loaded) ==> distinct_modules(after)
        }),
{
    let deps = dependencies_model(module.imports);
    let ds = analyze_module_model(
        import_env_model(loaded, deps, 0, default_static_model()),
        module.statements,
        0,
    ).1->Ok_0;
    let m = LoadedModuleModel { src, ast: module, declarations: ds, dependencies: deps };
    lemma_with_module_distinct(loaded, m);
    lemma_key_index(module_names(loaded), src.name);
}

/// A module is included only when every module that it imports is
/// loaded: where one is missing, the error names the missing ones and
/// nothing is loaded.
pub proof fn law_missing_import_stops_inclusion(
    loaded: Seq<LoadedModuleModel>,
    src: SourceFileModel,
    module: ModuleModel,
    k: int,
)
    requires
        0 <= k < module.imports.len(),
        module_index(loaded, dotted_name(module.imports[k])) < 0,
    ensures
        include_module_model(loaded, src, module) == (
            loaded,
            Some(
                LoaderErrorModel::MissingDependencies(
                    missing_model(loaded, dependencies_model(module.imports), 0),
                ),
            ),
        ),
        missing_model(loaded, dependencies_model(module.imports), 0).contains(
            dotted_name(module.imports[k]),
        ),
{
    let deps = dependencies_model(module.imports);
    lemma_missing_holds(loaded, deps, 0, k);
}

/// A dependency that is not loaded is among the missing ones.
proof fn lemma_missing_holds(loaded: Seq<LoadedModuleModel>, deps: Seq<Seq<char>>, i: nat, k: int)
    requires
        i <= k < deps.len(),
        module_index(loaded, deps[k]) < 0,
    ensures
        missing_model(loaded, deps, i).contains(deps[k]),
        missing_model(loaded, deps, i).len() > 0,
    decreases k - i,
{
    let rest = missing_model(loaded, deps, i + 1);
    if i < k {
        lemma_missing_holds(loaded, deps, i + 1, k);
        let at = choose|j: int| 0 <= j < rest.len() && rest[j] == deps[k];
        if module_index(loaded, deps[i as int]) < 0 {
            let all = seq![deps[i as int]] + rest;
            assert(all[at + 1] == deps[k]);
        }
    } else {
        let all = seq![deps[i as int]] + rest;
        assert(all[0] == deps[k]);
    }
}

} // verus!
