//! The compilation controller: the modules of the last compilation that
//! succeeded, replaced as a whole by the next one that succeeds and left
//! alone by one that fails.

use crate::ast::{all_within, find_node, lemma_located_within, locate, Located, Statement};
use crate::error::Error;
use crate::line_numbers::LineNumbers;
use crate::span::SrcSpan;
use crate::text::{distinct_names, names_are_distinct};
use vstd::prelude::*;
use vstd::string::*;

verus! {

/// Where a module comes from.
#[derive(Clone, Copy, Debug, PartialEq, Eq, Structural)]
pub enum Origin {
    /// The sources of the project.
    Src,
    /// The tests of the project.
    Test,
    /// A package that the project depends on.
    Dependency,
}

impl Origin {
    pub open spec fn spec_is_src(self) -> bool {
        self is Src
    }

    /// Whether the module belongs to the sources of the project.
    #[verifier::when_used_as_spec(spec_is_src)]
    pub fn is_src(self) -> (yes: bool)
        ensures
            yes == self.spec_is_src(),
    {
        match self {
            Origin::Src => true,
            _ => false,
        }
    }
}

/// A compiled module: its name, its origin, the path of its file, the text
/// that was compiled with the line table of that text, and the typed
/// syntax tree. The table is held with the text that it was built from, so
/// the offsets of a module are only ever measured by its own table.
pub struct Module {
    pub name: String,
    pub origin: Origin,
    pub path: String,
    pub line_numbers: LineNumbers,
    pub ast: Vec<Statement>,
}

impl Module {
    /// A module of the given text, with the line table of that text.
    pub fn new(name: String, origin: Origin, path: String, code: &str, ast: Vec<Statement>) -> (module:
        Module)
        ensures
            module.name == name,
            module.origin == origin,
            module.path == path,
            module.line_numbers@ == code@,
            module.ast == ast,
    {
        Module { name, origin, path, line_numbers: LineNumbers::new(code), ast }
    }

    /// Whether every span in the syntax tree is a run of the text that was
    /// compiled.
    pub open spec fn well_formed(&self) -> bool {
        self.line_numbers.bytes().len() <= usize::MAX && all_within(
            self.ast@,
            self.line_numbers.bytes().len() as usize,
        )
    }

    /// Whether every span in the syntax tree lies within the text that was
    /// compiled.
    pub fn is_well_formed(&self) -> (yes: bool)
        ensures
            yes == self.well_formed(),
    {
        let len = self.line_numbers.len();
        let mut i: usize = 0;
        while i < self.ast.len()
            invariant
                i <= self.ast@.len(),
                len == self.line_numbers.bytes().len(),
                forall|k: int| 0 <= k < i ==> (#[trigger] self.ast@[k]).within(len),
            decreases self.ast@.len() - i,
        {
            if !self.ast[i].is_within(len) {
                return false;
            }
            i += 1;
        }
        true
    }

    /// The text that was compiled.
    pub fn code(&self) -> (code: &str)
        ensures
            code@ == self.line_numbers@,
    {
        self.line_numbers.text()
    }

    /// The innermost node of the module under a byte offset: a statement,
    /// or an expression within one. There is none where no statement
    /// contains the offset.
    pub fn find_node(&self, byte_index: usize) -> (found: Option<Located<'_>>)
        ensures
            found == locate(self.ast@, byte_index),
            found matches Some(node) ==> node.location().start <= byte_index
                <= node.location().end,
            self.well_formed() ==> (found matches Some(node) ==> node.location().start
                <= node.location().end <= self.line_numbers.bytes().len()),
    {
        proof {
            if self.well_formed() {
                lemma_located_within(
                    self.ast@,
                    byte_index,
                    self.line_numbers.bytes().len() as usize,
                );
            }
        }
        find_node(&self.ast, byte_index)
    }
}

/// How grave a diagnostic is.
#[derive(Clone, Copy, Debug, PartialEq, Eq, Structural)]
pub enum Level {
    Error,
    Warning,
}

/// A message of the compiler about a place in a file.
#[derive(Clone, Debug, PartialEq, Eq)]
pub struct Diagnostic {
    pub title: String,
    pub text: String,
    pub level: Level,
    pub path: String,
    pub location: SrcSpan,
}

/// What a compilation that succeeded hands over.
pub struct Compilation {
    pub modules: Vec<Module>,
    pub warnings: Vec<Diagnostic>,
    /// The names of the modules of the dependencies, which the project can
    /// import.
    pub importable_modules: Vec<String>,
}

/// Whether no two of `modules` have the same name.
pub open spec fn distinct_module_names(modules: Seq<Module>) -> bool {
    forall|i: int, j: int|
        #![trigger modules[i], modules[j]]
        0 <= i < j < modules.len() ==> modules[i].name@ != modules[j].name@
}

/// Whether a set of modules with the names that can be imported is what a
/// compilation may hand over: the modules are keyed by their names, so no
/// two of them share one; no importable name is given twice; and every
/// span of every module is a run of that module's text.
pub open spec fn well_formed_modules(modules: Seq<Module>, importable: Seq<String>) -> bool {
    &&& distinct_module_names(modules)
    &&& distinct_names(importable)
    &&& forall|i: int| 0 <= i < modules.len() ==> (#[trigger] modules[i]).well_formed()
}

/// Whether no two of `modules` have the same name.
pub fn module_names_are_distinct(modules: &Vec<Module>) -> (yes: bool)
    ensures
        yes == distinct_module_names(modules@),
{
    let mut i: usize = 0;
    while i < modules.len()
        invariant
            i <= modules@.len(),
            forall|a: int, b: int|
                #![trigger modules@[a], modules@[b]]
                0 <= a < b < i ==> modules@[a].name@ != modules@[b].name@,
        decreases modules@.len() - i,
    {
        let mut j: usize = 0;
        while j < i
            invariant
                j <= i < modules@.len(),
                forall|a: int| 0 <= a < j ==> (#[trigger] modules@[a]).name@ != modules@[i as int].name@,
            decreases i - j,
        {
            if modules[j].name == modules[i].name {
                assert(modules@[j as int].name@ == modules@[i as int].name@);
                return false;
            }
            j += 1;
        }
        i += 1;
    }
    true
}

impl Compilation {
    /// Whether the compilation may be handed over to the controller.
    pub open spec fn well_formed(&self) -> bool {
        well_formed_modules(self.modules@, self.importable_modules@)
    }

    /// Whether the compilation may be handed over to the controller: no
    /// module name and no importable name occurs twice, and every span of
    /// every module lies within the text of that module.
    pub fn is_well_formed(&self) -> (yes: bool)
        ensures
            yes == self.well_formed(),
    {
        if !module_names_are_distinct(&self.modules) || !names_are_distinct(
            &self.importable_modules,
        ) {
            return false;
        }
        let mut i: usize = 0;
        while i < self.modules.len()
            invariant
                i <= self.modules@.len(),
                forall|k: int| 0 <= k < i ==> (#[trigger] self.modules@[k]).well_formed(),
            decreases self.modules@.len() - i,
        {
            if !self.modules[i].is_well_formed() {
                return false;
            }
            i += 1;
        }
        true
    }
}

/// The index of the first of `modules`, from `from` on, with the given
/// name, or the number of modules where none has it.
pub open spec fn first_named(modules: Seq<Module>, from: int, name: Seq<char>) -> int
    decreases modules.len() - from,
{
    if from >= modules.len() {
        modules.len() as int
    } else if from >= 0 && modules[from].name@ == name {
        from
    } else {
        first_named(modules, from + 1, name)
    }
}

/// The module of the given name among `modules`: the first that has
/// exactly that name, if any has.
pub open spec fn module_named(modules: Seq<Module>, name: Seq<char>) -> Option<Module> {
    let at = first_named(modules, 0, name);
    if 0 <= at < modules.len() {
        Some(modules[at])
    } else {
        None
    }
}

/// The index that `first_named` gives lies in `from..=len`; below `len` it
/// is that of a module of the name; and no module between `from` and it
/// has the name.
pub proof fn lemma_first_named_is_least(modules: Seq<Module>, from: int, name: Seq<char>)
    requires
        0 <= from <= modules.len(),
    ensures
        from <= first_named(modules, from, name) <= modules.len(),
        first_named(modules, from, name) < modules.len() ==> modules[first_named(
            modules,
            from,
            name,
        )].name@ == name,
        forall|k: int|
            from <= k < first_named(modules, from, name) ==> (#[trigger] modules[k]).name@ != name,
    decreases modules.len() - from,
{
    if from < modules.len() && modules[from].name@ != name {
        lemma_first_named_is_least(modules, from + 1, name);
    }
}

/// Where the modules are keyed by their names, the module of a name is the
/// only module that has the name.
pub proof fn lemma_module_named_is_the_one(modules: Seq<Module>, at: int)
    requires
        distinct_module_names(modules),
        0 <= at < modules.len(),
    ensures
        module_named(modules, modules[at].name@) == Some(modules[at]),
{
    let name = modules[at].name@;
    lemma_first_named_is_least(modules, 0, name);
    let first = first_named(modules, 0, name);
    if first < at {
        assert(modules[first].name@ != modules[at].name@);
    }
}

/// The state of the controller for one project.
pub struct ProjectCompiler {
    /// The modules of the last compilation that succeeded.
    pub modules: Vec<Module>,
    /// The warnings of that compilation that nobody has taken yet.
    pub warnings: Vec<Diagnostic>,
    /// The names of the modules that the project can import from its
    /// dependencies.
    pub importable_modules: Vec<String>,
    /// Whether a compilation has failed since the modules were compiled.
    pub stale: bool,
}

impl ProjectCompiler {
    /// Whether the controller holds nothing: no modules, no warnings, no
    /// importable names, and nothing stale.
    pub open spec fn is_fresh(&self) -> bool {
        &&& self.modules@.len() == 0
        &&& self.warnings@.len() == 0
        &&& self.importable_modules@.len() == 0
        &&& !self.stale
    }

    /// Whether the controller holds exactly what a compilation handed
    /// over.
    pub open spec fn holds(&self, compilation: Compilation) -> bool {
        &&& self.modules == compilation.modules
        &&& self.warnings == compilation.warnings
        &&& self.importable_modules == compilation.importable_modules
        &&& !self.stale
    }

    /// Whether the controller holds what an earlier state of it held, now
    /// marked as stale.
    pub open spec fn holds_stale(&self, before: ProjectCompiler) -> bool {
        &&& self.modules == before.modules
        &&& self.warnings == before.warnings
        &&& self.importable_modules == before.importable_modules
        &&& self.stale
    }

    /// Whether the controller holds what a compilation may hand over.
    pub open spec fn well_formed(&self) -> bool {
        well_formed_modules(self.modules@, self.importable_modules@)
    }

    /// A controller that has compiled nothing yet.
    pub fn new() -> (compiler: ProjectCompiler)
        ensures
            compiler.is_fresh(),
            compiler.well_formed(),
    {
        ProjectCompiler {
            modules: Vec::new(),
            warnings: Vec::new(),
            importable_modules: Vec::new(),
            stale: false,
        }
    }

    /// Takes in the outcome of a compilation. One that succeeded replaces
    /// the modules, the warnings and the importable names as a whole. One
    /// that failed leaves all three as they were, marks them as stale and
    /// hands the error back.
    pub fn compile(&mut self, outcome: Result<Compilation, Error>) -> (result: Result<(), Error>)
        ensures
            match outcome {
                Ok(compilation) => result is Ok && final(self).holds(compilation) && (
                compilation.well_formed() ==> final(self).well_formed()),
                Err(error) => result == Err::<(), Error>(error) && final(self).holds_stale(
                    *old(self),
                ) && (old(self).well_formed() ==> final(self).well_formed()),
            },
    {
        match outcome {
            Ok(compilation) => {
                self.modules = compilation.modules;
                self.warnings = compilation.warnings;
                self.importable_modules = compilation.importable_modules;
                self.stale = false;
                Ok(())
            },
            Err(error) => {
                self.stale = true;
                Err(error)
            },
        }
    }

    /// Hands out the warnings that have come up, and keeps none.
    pub fn take_warnings(&mut self) -> (warnings: Vec<Diagnostic>)
        ensures
            warnings == old(self).warnings,
            final(self).warnings@.len() == 0,
            final(self).modules == old(self).modules,
            final(self).importable_modules == old(self).importable_modules,
            final(self).stale == old(self).stale,
            old(self).well_formed() ==> final(self).well_formed(),
    {
        let mut warnings: Vec<Diagnostic> = Vec::new();
        std::mem::swap(&mut self.warnings, &mut warnings);
        warnings
    }

    /// The compiled module of exactly the given name, if there is one.
    pub fn module(&self, name: &str) -> (module: Option<&Module>)
        ensures
            match module {
                Some(found) => module_named(self.modules@, name@) == Some(*found),
                None => module_named(self.modules@, name@) is None,
            },
    {
        let key = name.to_owned();
        let mut i: usize = 0;
        while i < self.modules.len()
            invariant
                i <= self.modules@.len(),
                key@ == name@,
                first_named(self.modules@, 0, name@) == first_named(self.modules@, i as int, name@),
            decreases self.modules@.len() - i,
        {
            if self.modules[i].name == key {
                return Some(&self.modules[i]);
            }
            i += 1;
        }
        None
    }

    /// The names of the modules that the project can import from its
    /// dependencies.
    pub fn importable_module_names(&self) -> (names: &Vec<String>)
        ensures
            names == self.importable_modules,
    {
        &self.importable_modules
    }
}

} // verus!
