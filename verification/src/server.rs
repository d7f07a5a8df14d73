//! The language server: the handlers for the events of a document's life
//! and for the queries of the editor.
//!
//! The server does no work outside itself. Where a compilation is due it
//! says so, and takes the outcome in when its caller has run the compiler.

use crate::ast::{lemma_located_contains, locate, Located, Statement};
use crate::compiler::{
    distinct_module_names, module_named, Compilation, Diagnostic, Module, ProjectCompiler,
};
use crate::error::Error;
use crate::line_numbers::{
    byte_index_of, count_lines, editor_range, lemma_byte_index_in_range,
    lemma_span_range_contains_position, line_count, line_starts, saturate, src_span_to_lsp_range,
    valid_position, LineNumbers,
};
use crate::overlay::{visible_text, FileSystemProxy};
use crate::protocol::{
    CompletionItem, CompletionParams, DidChangeTextDocumentParams, DidCloseTextDocumentParams,
    DidOpenTextDocumentParams, DidSaveTextDocumentParams, DocumentFormattingParams,
    GotoDefinitionParams, Hover, HoverParams, Location, TextDocumentPositionParams, TextEdit, Url,
};
use crate::span::{Position, Range};
use crate::text::{lemma_without_repeats, module_name_of, uri_to_module_name, without_repeats};
use crate::url::{parse_url, parsed_url};
use vstd::prelude::*;
use vstd::string::*;
use vstd::utf8::*;

verus! {

/// The configuration of the project that the server works on.
#[derive(Clone, Debug, PartialEq, Eq)]
pub struct PackageConfig {
    pub name: String,
}

/// What the caller of a handler is to do next.
#[derive(Clone, Copy, Debug, PartialEq, Eq, Structural)]
pub enum Action {
    /// Nothing.
    Nothing,
    /// Run the compiler on the project, with every file read through the
    /// overlay, and hand the outcome to `LanguageServer::compile`.
    Compile,
}

pub struct LanguageServer {
    /// The absolute path of the project root.
    pub project_root: String,
    /// The controller of the project's compilations. There is none while
    /// no project configuration is known. When the configuration changes
    /// the controller is made anew, with `create_new_compiler`.
    pub compiler: Option<ProjectCompiler>,
    pub fs_proxy: FileSystemProxy,
    pub config: Option<PackageConfig>,
}

/// What the editor shows for an expression of the given type: the type in
/// a block of code.
pub open spec fn hover_contents(type_: Seq<char>) -> Seq<char> {
    "```gleam\n"@ + type_ + "\n```"@
}

/// The text of the URL of a file: `file:///` and the path of the file.
pub open spec fn file_url(path: Seq<char>) -> Seq<char> {
    "file:///"@ + path
}

/// The range of a whole document: from its start to the line after its
/// last one.
pub open spec fn whole_document(text: Seq<char>) -> Range {
    Range {
        start: Position { line: 0, character: 0 },
        end: Position { line: saturate(line_count(encode_utf8(text))) as u32, character: 0 },
    }
}

/// The names of the modules among `modules` that belong to the sources of
/// the project, in the order of the modules.
pub open spec fn source_module_names(modules: Seq<Module>) -> Seq<Seq<char>>
    decreases modules.len(),
{
    if modules.len() == 0 {
        Seq::empty()
    } else if modules.last().origin.is_src() {
        source_module_names(modules.drop_last()).push(modules.last().name@)
    } else {
        source_module_names(modules.drop_last())
    }
}

/// Whether one of the items has the given label.
fn has_label(items: &Vec<CompletionItem>, label: &str) -> (yes: bool)
    ensures
        yes == items.deep_view().contains(label@),
{
    let key = label.to_owned();
    let mut i: usize = 0;
    while i < items.len()
        invariant
            i <= items@.len(),
            key@ == label@,
            forall|k: int| 0 <= k < i ==> (#[trigger] items.deep_view()[k]) != label@,
        decreases items@.len() - i,
    {
        if items[i].label == key {
            assert(items.deep_view()[i as int] == label@);
            return true;
        }
        i += 1;
    }
    false
}

/// The place of a definition in another file, given the URL of the file as
/// far as one could be made for it: without a URL there is no answer.
pub fn location_in(uri: Option<Url>, range: Range) -> (location: Option<Location>)
    ensures
        location.deep_view() == match uri {
            Some(uri) => Some((uri.deep_view(), range)),
            None => None,
        },
{
    match uri {
        Some(uri) => Some(Location { uri, range }),
        None => None,
    }
}

/// Compile stability under failure, as the queries see it: two states of a
/// server for the same project root that hold the same compiled modules,
/// such as the states before and after a compilation that failed, give the
/// same node for every position and the same answers to hover and to a
/// request for a definition.
pub proof fn lemma_queries_read_modules_alone(
    before: LanguageServer,
    after: LanguageServer,
    params: TextDocumentPositionParams,
)
    requires
        before.compiler is Some,
        after.compiler is Some,
        after.project_root == before.project_root,
        after.modules() == before.modules(),
    ensures
        after.spec_node_at_position(params) == before.spec_node_at_position(params),
        after.spec_hover(HoverParams { text_document_position_params: params })
            == before.spec_hover(HoverParams { text_document_position_params: params }),
        after.spec_goto_definition(GotoDefinitionParams { text_document_position_params: params })
            == before.spec_goto_definition(
            GotoDefinitionParams { text_document_position_params: params },
        ),
{
}

/// Hover leaves statements out: where the node under the cursor is a
/// statement, a hover has no answer.
pub proof fn lemma_hover_on_statement(server: LanguageServer, params: HoverParams)
    requires
        server.spec_node_at_position(params.text_document_position_params) matches Some(
            (_, Located::Statement(_)),
        ),
    ensures
        server.spec_hover(params) is None,
{
}

/// A name is among the names of the source modules exactly when a module
/// of the project's sources has it.
pub proof fn lemma_source_module_names(modules: Seq<Module>, name: Seq<char>)
    ensures
        source_module_names(modules).contains(name) <==> exists|i: int|
            0 <= i < modules.len() && (#[trigger] modules[i]).origin.is_src() && modules[i].name@
                == name,
    decreases modules.len(),
{
    if modules.len() > 0 {
        let shorter = modules.drop_last();
        let rest = source_module_names(shorter);
        lemma_source_module_names(shorter, name);
        if source_module_names(modules).contains(name) {
            let k = choose|k: int|
                0 <= k < source_module_names(modules).len() && source_module_names(modules)[k]
                    == name;
            if k < rest.len() {
                assert(rest[k] == name);
                assert(rest.contains(name));
                let i = choose|i: int|
                    0 <= i < shorter.len() && (#[trigger] shorter[i]).origin.is_src()
                        && shorter[i].name@ == name;
                assert(modules[i].origin.is_src() && modules[i].name@ == name);
            } else {
                assert(modules[modules.len() - 1].origin.is_src() && modules[modules.len()
                    - 1].name@ == name);
            }
        }
        if exists|i: int|
            0 <= i < modules.len() && (#[trigger] modules[i]).origin.is_src() && modules[i].name@
                == name {
            let i = choose|i: int|
                0 <= i < modules.len() && (#[trigger] modules[i]).origin.is_src()
                    && modules[i].name@ == name;
            if i < modules.len() - 1 {
                assert(shorter[i].origin.is_src() && shorter[i].name@ == name);
                let k = choose|k: int| 0 <= k < rest.len() && rest[k] == name;
                assert(source_module_names(modules)[k] == name);
            } else {
                assert(source_module_names(modules)[rest.len() as int] == name);
            }
        }
    }
}

/// The completion of an import is a union: no label occurs twice, and a
/// name is a label exactly when it is an importable name or the name of a
/// module of the project's sources.
pub proof fn lemma_completion_is_a_union(server: LanguageServer, name: Seq<char>)
    requires
        server.compiler is Some,
    ensures
        server.spec_completion_for_import() is Some,
        server.spec_completion_for_import().unwrap().no_duplicates(),
        server.spec_completion_for_import().unwrap().contains(name) <==> (
        server.compiler.unwrap().importable_modules.deep_view().contains(name) || exists|i: int|
            0 <= i < server.modules().len() && (#[trigger] server.modules()[i]).origin.is_src()
                && server.modules()[i].name@ == name),
{
    let importable = server.compiler.unwrap().importable_modules.deep_view();
    let sources = source_module_names(server.modules());
    lemma_without_repeats(importable + sources);
    lemma_source_module_names(server.modules(), name);
    if (importable + sources).contains(name) {
        let k = choose|k: int| 0 <= k < (importable + sources).len() && (importable + sources)[k]
            == name;
        if k < importable.len() {
            assert(importable[k] == name);
        } else {
            assert(sources[k - importable.len()] == name);
        }
    }
    if importable.contains(name) {
        let k = choose|k: int| 0 <= k < importable.len() && importable[k] == name;
        assert((importable + sources)[k] == name);
    }
    if sources.contains(name) {
        let k = choose|k: int| 0 <= k < sources.len() && sources[k] == name;
        assert((importable + sources)[importable.len() + k] == name);
    }
}

/// The completion of an import leaves out the modules that are not of the
/// project's sources: where the compiled modules are keyed by their names,
/// the name of a test module that is not importable is no label.
pub proof fn lemma_completion_leaves_out_tests(server: LanguageServer, test: int)
    requires
        server.compiler is Some,
        distinct_module_names(server.modules()),
        0 <= test < server.modules().len(),
        !server.modules()[test].origin.is_src(),
        !server.compiler.unwrap().importable_modules.deep_view().contains(server.modules()[test].name@),
    ensures
        server.spec_completion_for_import() is Some,
        !server.spec_completion_for_import().unwrap().contains(server.modules()[test].name@),
{
    let name = server.modules()[test].name@;
    lemma_completion_is_a_union(server, name);
    if exists|i: int|
        0 <= i < server.modules().len() && (#[trigger] server.modules()[i]).origin.is_src()
            && server.modules()[i].name@ == name {
        let i = choose|i: int|
            0 <= i < server.modules().len() && (#[trigger] server.modules()[i]).origin.is_src()
                && server.modules()[i].name@ == name;
        if i < test {
            assert(server.modules()[i].name@ != server.modules()[test].name@);
        } else {
            assert(server.modules()[test].name@ != server.modules()[i].name@);
        }
    }
}

/// The range of the node under a position contains the position, for a
/// position within the bounds of the module's text and a text whose length
/// and line numbers fit the machine's integers.
pub proof fn lemma_node_range_contains_position(
    server: LanguageServer,
    params: TextDocumentPositionParams,
)
    requires
        server.spec_node_at_position(params) matches Some((table, _)) && valid_position(
            table.bytes(),
            params.position.line as int,
            params.position.character as int,
        ) && table.bytes().len() <= usize::MAX && line_starts(table.bytes()).len()
            <= 0x1_0000_0000,
    ensures
        server.spec_node_at_position(params) matches Some((table, node)) && editor_range(
            table.bytes(),
            node.location(),
        ).spec_contains(params.position),
{
    match (server.spec_module_for_uri(params.text_document.uri), server.spec_node_at_position(params)) {
        (Some(module), Some((table, node))) => {
            let bytes = module.line_numbers.bytes();
            let offset = byte_index_of(
                bytes,
                params.position.line as int,
                params.position.character as int,
            );
            lemma_byte_index_in_range(
                bytes,
                params.position.line as int,
                params.position.character as int,
            );
            lemma_located_contains(module.ast@, offset as usize);
            lemma_span_range_contains_position(bytes, params.position, node.location());
        },
        _ => {},
    }
}

/// The range that a hover answers with contains the position that was
/// hovered, for a position within the bounds of the module's text and a
/// text whose length and line numbers fit the machine's integers.
pub proof fn lemma_hover_range_contains_position(server: LanguageServer, params: HoverParams)
    requires
        server.spec_hover(params) is Some,
        server.spec_node_at_position(params.text_document_position_params) matches Some(
            (table, _),
        ) && valid_position(
            table.bytes(),
            params.text_document_position_params.position.line as int,
            params.text_document_position_params.position.character as int,
        ) && table.bytes().len() <= usize::MAX && line_starts(table.bytes()).len()
            <= 0x1_0000_0000,
    ensures
        server.spec_hover(params) matches Some((_, range)) && range.spec_contains(
            params.text_document_position_params.position,
        ),
{
    lemma_node_range_contains_position(server, params.text_document_position_params);
}

impl LanguageServer {
    /// Whether the server differs from an earlier state of itself in
    /// nothing but the overlay.
    pub open spec fn same_but_overlay(&self, before: &LanguageServer) -> bool {
        &&& self.project_root == before.project_root
        &&& self.compiler == before.compiler
        &&& self.config == before.config
    }

    /// Whether the server differs from an earlier state of itself in
    /// nothing but the controller.
    pub open spec fn same_but_compiler(&self, before: &LanguageServer) -> bool {
        &&& self.project_root == before.project_root
        &&& self.fs_proxy == before.fs_proxy
        &&& self.config == before.config
    }

    /// A server for the project under `project_root`. With a configuration
    /// the server needs a compiler: `engine` says whether one could be
    /// started, and where it could not the error is handed on. Without a
    /// configuration the server has no controller and answers no query.
    pub fn new(
        config: Option<PackageConfig>,
        project_root: String,
        engine: Result<(), Error>,
    ) -> (result: Result<LanguageServer, Error>)
        ensures
            match (config, engine) {
                (Some(_), Err(error)) => result == Err::<LanguageServer, Error>(error),
                _ => {
                    &&& result matches Ok(server)
                    &&& server.project_root == project_root
                    &&& server.config == config
                    &&& server.fs_proxy@ == Map::<Seq<char>, Seq<char>>::empty()
                    &&& config is None ==> server.compiler is None
                    &&& config is Some ==> (server.compiler matches Some(compiler)
                        && compiler.is_fresh())
                    &&& server.well_formed()
                },
            },
    {
        let mut language_server = LanguageServer {
            project_root,
            compiler: None,
            fs_proxy: FileSystemProxy::new(),
            config,
        };
        match language_server.create_new_compiler(engine) {
            Ok(()) => Ok(language_server),
            Err(error) => Err(error),
        }
    }

    /// Takes in the outcome of a compilation, if the server is in a
    /// project; otherwise does nothing. After a compilation that failed the
    /// queries still see the modules of the last one that succeeded.
    pub fn compile(&mut self, outcome: Result<Compilation, Error>) -> (result: Result<(), Error>)
        ensures
            final(self).same_but_compiler(old(self)),
            outcome is Err ==> final(self).modules() == old(self).modules(),
            old(self).well_formed() && (outcome matches Ok(compilation)
                ==> compilation.well_formed()) ==> final(self).well_formed(),
            old(self).compiler is None ==> result is Ok && final(self).compiler is None,
            old(self).compiler matches Some(before) ==> (final(self).compiler matches Some(after)
                && match outcome {
                Ok(compilation) => result is Ok && after.holds(compilation),
                Err(error) => result == Err::<(), Error>(error) && after.holds_stale(before),
            }),
    {
        match &mut self.compiler {
            Some(compiler) => compiler.compile(outcome),
            None => Ok(()),
        }
    }

    /// Hands out the warnings of the compiler that have come up since they
    /// were last taken.
    pub fn take_warnings(&mut self) -> (warnings: Vec<Diagnostic>)
        ensures
            final(self).same_but_compiler(old(self)),
            old(self).well_formed() ==> final(self).well_formed(),
            old(self).compiler is None ==> warnings@.len() == 0 && final(self).compiler is None,
            old(self).compiler matches Some(before) ==> (final(self).compiler matches Some(after)
                && warnings == before.warnings && after.warnings@.len() == 0 && after.modules
                == before.modules && after.importable_modules == before.importable_modules
                && after.stale == before.stale),
    {
        match &mut self.compiler {
            Some(compiler) => compiler.take_warnings(),
            None => Vec::new(),
        }
    }

    /// Makes the controller anew, where there is a project configuration:
    /// the modules, warnings and importable names of the old one are gone.
    /// `engine` says whether a compiler could be started for the
    /// configuration. Where it could not, the error is handed on and the
    /// server stays as it was. Without a configuration nothing happens.
    pub fn create_new_compiler(&mut self, engine: Result<(), Error>) -> (result: Result<(), Error>)
        ensures
            final(self).same_but_compiler(old(self)),
            old(self).well_formed() ==> final(self).well_formed(),
            match (old(self).config, engine) {
                (Some(_), Ok(_)) => {
                    &&& result is Ok
                    &&& final(self).compiler matches Some(compiler)
                    &&& compiler.is_fresh()
                },
                (Some(_), Err(error)) => {
                    &&& result == Err::<(), Error>(error)
                    &&& final(self).compiler == old(self).compiler
                },
                (None, _) => {
                    &&& result is Ok
                    &&& final(self).compiler == old(self).compiler
                },
            },
    {
        if self.config.is_some() {
            match engine {
                Ok(()) => {
                    self.compiler = Some(ProjectCompiler::new());
                },
                Err(error) => {
                    return Err(error);
                },
            }
        }
        Ok(())
    }

    /// A document was opened in the editor. Its text may not be on disk, so
    /// it becomes the override of the file, and a compilation is due.
    pub fn text_document_did_open(&mut self, params: DidOpenTextDocumentParams) -> (result: Result<
        Action,
        Error,
    >)
        ensures
            result == Ok::<Action, Error>(Action::Compile),
            final(self).same_but_overlay(old(self)),
            final(self).fs_proxy@ == old(self).fs_proxy@.insert(
                params.text_document.uri.path@,
                params.text_document.text@,
            ),
    {
        match self.fs_proxy.write_mem_cache(
            params.text_document.uri.path.as_str(),
            params.text_document.text.as_str(),
        ) {
            Ok(()) => Ok(Action::Compile),
            Err(error) => Err(error),
        }
    }

    /// A document was saved. The file is as the editor has it, so the
    /// override goes, and a compilation is due.
    pub fn text_document_did_save(&mut self, params: DidSaveTextDocumentParams) -> (result: Result<
        Action,
        Error,
    >)
        ensures
            result == Ok::<Action, Error>(Action::Compile),
            final(self).same_but_overlay(old(self)),
            final(self).fs_proxy@ == old(self).fs_proxy@.remove(params.text_document.uri.path@),
    {
        match self.fs_proxy.delete_mem_cache(params.text_document.uri.path.as_str()) {
            Ok(()) => Ok(Action::Compile),
            Err(error) => Err(error),
        }
    }

    /// A document was closed. The override goes; nothing is compiled.
    pub fn text_document_did_close(&mut self, params: DidCloseTextDocumentParams) -> (result:
        Result<(), Error>)
        ensures
            result is Ok,
            final(self).same_but_overlay(old(self)),
            final(self).fs_proxy@ == old(self).fs_proxy@.remove(params.text_document.uri.path@),
    {
        self.fs_proxy.delete_mem_cache(params.text_document.uri.path.as_str())
    }

    /// A document was changed in the editor. The first of the changes holds
    /// the new text, which becomes the override of the file, and a
    /// compilation is due. Without a change nothing happens.
    pub fn text_document_did_change(&mut self, params: DidChangeTextDocumentParams) -> (result:
        Result<Action, Error>)
        ensures
            final(self).same_but_overlay(old(self)),
            params.content_changes@.len() == 0 ==> result == Ok::<Action, Error>(Action::Nothing)
                && final(self).fs_proxy@ == old(self).fs_proxy@,
            params.content_changes@.len() > 0 ==> result == Ok::<Action, Error>(Action::Compile)
                && final(self).fs_proxy@ == old(self).fs_proxy@.insert(
                params.text_document.uri.path@,
                params.content_changes@[0].text@,
            ),
    {
        if params.content_changes.len() > 0 {
            match self.fs_proxy.write_mem_cache(
                params.text_document.uri.path.as_str(),
                params.content_changes[0].text.as_str(),
            ) {
                Ok(()) => Ok(Action::Compile),
                Err(error) => Err(error),
            }
        } else {
            Ok(Action::Nothing)
        }
    }

    /// The compiled modules that the queries read.
    pub open spec fn modules(&self) -> Seq<Module> {
        match self.compiler {
            Some(compiler) => compiler.modules@,
            None => Seq::empty(),
        }
    }

    /// The compiled module of the file behind a URL.
    pub open spec fn spec_module_for_uri(&self, uri: Url) -> Option<Module> {
        match (self.compiler, module_name_of(uri.path@, self.project_root@)) {
            (Some(compiler), Some(name)) => module_named(compiler.modules@, name),
            _ => None,
        }
    }

    /// The node under a position in a document, with the line table of the
    /// document's module.
    pub open spec fn spec_node_at_position(&self, params: TextDocumentPositionParams) -> Option<
        (LineNumbers, Located<'static>),
    > {
        match self.spec_module_for_uri(params.text_document.uri) {
            Some(module) => match locate(
                module.ast@,
                byte_index_of(
                    module.line_numbers.bytes(),
                    params.position.line as int,
                    params.position.character as int,
                ) as usize,
            ) {
                Some(node) => Some((module.line_numbers, node)),
                None => None,
            },
            None => None,
        }
    }

    /// The answer to a hover: for an expression its type, over the range of
    /// the expression; for a statement, and where there is no node, none.
    pub open spec fn spec_hover(&self, params: HoverParams) -> Option<(Seq<char>, Range)> {
        match self.spec_node_at_position(params.text_document_position_params) {
            Some((table, Located::Expression(expression))) => Some(
                (
                    hover_contents(expression.type_@),
                    editor_range(table.bytes(), expression.location),
                ),
            ),
            _ => None,
        }
    }

    /// The answer to a request for a definition. A definition in the same
    /// module is in the document of the request, its range measured by the
    /// table of that module. A definition in another module is in the file
    /// of that module, its range measured by the table of that module,
    /// provided that the module is among the compiled ones and its path
    /// gives a URL.
    pub open spec fn spec_goto_definition(&self, params: GotoDefinitionParams) -> Option<
        ((Seq<char>, Seq<char>), Range),
    > {
        let position = params.text_document_position_params;
        match self.spec_node_at_position(position) {
            Some((table, node)) => match node.definition_location() {
                Some(definition) => match definition.module {
                    None => Some(
                        (
                            position.text_document.uri.deep_view(),
                            editor_range(table.bytes(), definition.span),
                        ),
                    ),
                    Some(name) => match module_named(self.modules(), name@) {
                        Some(module) => match parsed_url(file_url(module.path@)) {
                            Some(uri) => Some(
                                (uri, editor_range(module.line_numbers.bytes(), definition.span)),
                            ),
                            None => None,
                        },
                        None => None,
                    },
                },
                None => None,
            },
            None => None,
        }
    }

    /// The labels for the completion of an import: the union of the names
    /// of the importable modules of the dependencies and the names of the
    /// modules of the project's sources. The importable names come first,
    /// and a name that occurs again is not given again.
    pub open spec fn spec_completion_for_import(&self) -> Option<Seq<Seq<char>>> {
        match self.compiler {
            Some(compiler) => Some(
                without_repeats(
                    compiler.importable_modules.deep_view() + source_module_names(
                        compiler.modules@,
                    ),
                ),
            ),
            None => None,
        }
    }

    /// Whether the controller, if there is one, holds what a compilation
    /// may hand over.
    pub open spec fn well_formed(&self) -> bool {
        self.compiler matches Some(compiler) ==> compiler.well_formed()
    }

    /// The labels of a completion: those for an import where the cursor is
    /// on an import or on no node, none elsewhere.
    pub open spec fn spec_completion(&self, params: CompletionParams) -> Option<Seq<Seq<char>>> {
        match self.spec_node_at_position(params.text_document_position) {
            None => self.spec_completion_for_import(),
            Some((_, Located::Statement(Statement::Import { .. }))) => {
                self.spec_completion_for_import()
            },
            Some(_) => None,
        }
    }

    /// The compiled module of the file behind a URL: none without a
    /// controller, for a file outside the project, and for a file that was
    /// not compiled.
    pub fn module_for_uri(&self, uri: &Url) -> (module: Option<&Module>)
        ensures
            match module {
                Some(found) => self.spec_module_for_uri(*uri) == Some(*found),
                None => self.spec_module_for_uri(*uri) is None,
            },
    {
        match &self.compiler {
            Some(compiler) => match uri_to_module_name(uri, self.project_root.as_str()) {
                Some(module_name) => compiler.module(module_name.as_str()),
                None => None,
            },
            None => None,
        }
    }

    /// The innermost node under a position in a document, with the line
    /// table of the document's module.
    pub fn node_at_position(&self, params: &TextDocumentPositionParams) -> (found: Option<
        (&LineNumbers, Located<'_>),
    >)
        ensures
            match found {
                Some((table, node)) => self.spec_node_at_position(*params) == Some((*table, node)),
                None => self.spec_node_at_position(*params) is None,
            },
    {
        match self.module_for_uri(&params.text_document.uri) {
            Some(module) => {
                let byte_index = module.line_numbers.byte_index(
                    params.position.line,
                    params.position.character,
                );
                match module.find_node(byte_index) {
                    Some(node) => Some((&module.line_numbers, node)),
                    None => None,
                }
            },
            None => None,
        }
    }

    /// Where the name under the cursor is declared. There is no answer
    /// where the cursor is on no node, where the node refers to no
    /// declaration, and where the declaration is in a module that was not
    /// compiled with the project.
    pub fn goto_definition(&self, params: GotoDefinitionParams) -> (result: Result<
        Option<Location>,
        Error,
    >)
        ensures
            result matches Ok(answer) && answer.deep_view() == self.spec_goto_definition(params),
    {
        let params = params.text_document_position_params;
        let (line_numbers, node) = match self.node_at_position(&params) {
            Some(location) => location,
            None => return Ok(None),
        };
        let location = match node.definition_location() {
            Some(location) => location,
            None => return Ok(None),
        };
        match location.module {
            None => {
                let range = src_span_to_lsp_range(location.span, line_numbers);
                Ok(Some(Location { uri: params.text_document.uri, range }))
            },
            Some(name) => {
                let module = match &self.compiler {
                    Some(compiler) => compiler.module(name.as_str()),
                    None => None,
                };
                match module {
                    Some(module) => {
                        let text = String::from_str("file:///").concat(module.path.as_str());
                        let range = src_span_to_lsp_range(location.span, &module.line_numbers);
                        Ok(location_in(parse_url(text.as_str()), range))
                    },
                    None => Ok(None),
                }
            },
        }
    }

    /// The completions at a position. So far there are completions for
    /// imports alone: where the cursor is on an import or on no node, the
    /// modules that can be imported. Anywhere else there is no answer.
    pub fn completion(&self, params: CompletionParams) -> (items: Option<Vec<CompletionItem>>)
        ensures
            items.deep_view() == self.spec_completion(params),
    {
        match self.node_at_position(&params.text_document_position) {
            None => self.completion_for_import(),
            Some((_, Located::Statement(Statement::Import { .. }))) => self.completion_for_import(),
            Some((_, Located::Statement(_))) => None,
            Some((_, Located::Expression(_))) => None,
        }
    }

    /// The whole-document edit that formats a file. `disk` is what the file
    /// holds on disk, if it could be read, and `pretty` is what the
    /// pretty-printer makes of the text of the file as the overlay shows
    /// it. The edit replaces everything, from the start of the document to
    /// the line after the last line of the text that was formatted. Where
    /// the text cannot be had, or the pretty-printer refuses it, there is
    /// the error and no edit.
    pub fn format(
        &self,
        params: DocumentFormattingParams,
        disk: Option<String>,
        pretty: Result<String, Error>,
    ) -> (result: Result<Vec<TextEdit>, Error>)
        ensures
            match visible_text(
                self.fs_proxy@,
                params.text_document.uri.path@,
                disk.deep_view(),
            ) {
                None => result matches Err(Error::FileUnavailable { path })
                    && path@ == params.text_document.uri.path@,
                Some(src) => match pretty {
                    Ok(new_text) => result matches Ok(edits) && edits.deep_view() == seq![
                        (whole_document(src), new_text@),
                    ],
                    Err(error) => result == Err::<Vec<TextEdit>, Error>(error),
                },
            },
    {
        let src = match self.fs_proxy.read(params.text_document.uri.path.as_str(), disk) {
            Ok(src) => src,
            Err(error) => return Err(error),
        };
        let new_text = match pretty {
            Ok(new_text) => new_text,
            Err(error) => return Err(error),
        };
        let line_count = count_lines(src.as_str());
        let edit = TextEdit {
            range: Range {
                start: Position { line: 0, character: 0 },
                end: Position { line: line_count, character: 0 },
            },
            new_text,
        };
        let mut edits: Vec<TextEdit> = Vec::new();
        edits.push(edit);
        assert(edits.deep_view() =~= seq![(whole_document(src@), edit.new_text@)]);
        Ok(edits)
    }

    /// The completions for an import: the names of the modules that the
    /// project can import from its dependencies and the names of the
    /// modules of its own sources, each name once. The modules of its tests
    /// are left out. Without a controller there is no answer.
    pub fn completion_for_import(&self) -> (items: Option<Vec<CompletionItem>>)
        ensures
            items.deep_view() == self.spec_completion_for_import(),
            items matches Some(found) ==> found.deep_view().no_duplicates(),
            (items, self.compiler) matches (Some(found), Some(compiler)) ==> forall|
                name: Seq<char>,
            | #[trigger]
                found.deep_view().contains(name) <==> (compiler.importable_modules.deep_view()
                    + source_module_names(compiler.modules@)).contains(name),
    {
        let compiler = match &self.compiler {
            Some(compiler) => compiler,
            None => return None,
        };
        let mut modules: Vec<CompletionItem> = Vec::new();
        let names = compiler.importable_module_names();
        let ghost mut labels: Seq<Seq<char>> = Seq::empty();
        let mut i: usize = 0;
        assert(names.deep_view().take(0) =~= Seq::<Seq<char>>::empty());
        while i < names.len()
            invariant
                i <= names@.len(),
                labels == without_repeats(names.deep_view().take(i as int)),
                modules@.len() == labels.len(),
                forall|k: int| 0 <= k < modules@.len() ==> (#[trigger] modules@[k]).label@ == labels[k],
            decreases names@.len() - i,
        {
            proof {
                assert(modules.deep_view() =~= labels);
                assert(names.deep_view().take(i + 1).drop_last() =~= names.deep_view().take(
                    i as int,
                ));
                assert(names.deep_view().take(i + 1).last() == names@[i as int]@);
            }
            if !has_label(&modules, names[i].as_str()) {
                modules.push(CompletionItem { label: names[i].clone() });
                proof {
                    labels = labels.push(names@[i as int]@);
                }
            }
            i += 1;
        }
        assert(names.deep_view().take(i as int) =~= names.deep_view());
        let mut j: usize = 0;
        assert(compiler.modules@.take(0) =~= Seq::<Module>::empty());
        assert(names.deep_view() + source_module_names(compiler.modules@.take(0))
            =~= names.deep_view());
        while j < compiler.modules.len()
            invariant
                j <= compiler.modules@.len(),
                labels == without_repeats(
                    names.deep_view() + source_module_names(compiler.modules@.take(j as int)),
                ),
                modules@.len() == labels.len(),
                forall|k: int| 0 <= k < modules@.len() ==> (#[trigger] modules@[k]).label@ == labels[k],
            decreases compiler.modules@.len() - j,
        {
            assert(compiler.modules@.take(j + 1).drop_last() =~= compiler.modules@.take(j as int));
            if compiler.modules[j].origin.is_src() {
                proof {
                    let so_far = names.deep_view() + source_module_names(
                        compiler.modules@.take(j as int),
                    );
                    let next = names.deep_view() + source_module_names(
                        compiler.modules@.take(j + 1),
                    );
                    assert(modules.deep_view() =~= labels);
                    assert(next =~= so_far.push(compiler.modules@[j as int].name@));
                    assert(next.drop_last() =~= so_far);
                }
                if !has_label(&modules, compiler.modules[j].name.as_str()) {
                    modules.push(CompletionItem { label: compiler.modules[j].name.clone() });
                    proof {
                        labels = labels.push(compiler.modules@[j as int].name@);
                    }
                }
            }
            j += 1;
        }
        proof {
            assert(compiler.modules@.take(j as int) =~= compiler.modules@);
            assert(modules.deep_view() =~= labels);
            lemma_without_repeats(names.deep_view() + source_module_names(compiler.modules@));
        }
        Some(modules)
    }

    /// What the editor shows over the place under the cursor: the type of
    /// the expression there. On a statement, and where the cursor is on no
    /// node, there is nothing to show.
    pub fn hover(&self, params: HoverParams) -> (result: Result<Option<Hover>, Error>)
        ensures
            result matches Ok(answer) && answer.deep_view() == self.spec_hover(params),
            self.spec_node_at_position(params.text_document_position_params) matches Some(
                (_, Located::Statement(_)),
            ) ==> result matches Ok(None),
    {
        let params = params.text_document_position_params;
        let (line_numbers, found) = match self.node_at_position(&params) {
            Some(value) => value,
            None => return Ok(None),
        };
        let expression = match found {
            Located::Expression(expression) => expression,
            Located::Statement(_) => return Ok(None),
        };
        let contents = String::from_str("```gleam\n").concat(expression.type_.as_str()).concat(
            "\n```",
        );
        Ok(
            Some(
                Hover {
                    contents,
                    range: src_span_to_lsp_range(expression.location, line_numbers),
                },
            ),
        )
    }
}

} // verus!
