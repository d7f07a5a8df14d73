use language_server::ast::{DefinitionLocation, Expression, Statement};
use language_server::compiler::{Compilation, Diagnostic, Level, Module, Origin, ProjectCompiler};
use language_server::error::Error;
use language_server::protocol::{
    CompletionParams, DidChangeTextDocumentParams, DidCloseTextDocumentParams,
    DidOpenTextDocumentParams, DidSaveTextDocumentParams, DocumentFormattingParams,
    GotoDefinitionParams, HoverParams, TextDocumentContentChangeEvent, TextDocumentIdentifier,
    TextDocumentItem, TextDocumentPositionParams, Url,
};
use language_server::server::{location_in, Action, LanguageServer, PackageConfig};
use language_server::span::{Position, Range, SrcSpan};

const MAIN: &str = "import gleam/io\n\npub fn main() {\n  io.println(greeting)\n}\n";
//                  0..15             17..                 35..54

fn span(start: usize, end: usize) -> SrcSpan {
    SrcSpan { start, end }
}

fn url(path: &str) -> Url {
    Url { text: format!("file://{}", path), path: path.to_string() }
}

fn document(path: &str) -> TextDocumentIdentifier {
    TextDocumentIdentifier { uri: url(path) }
}

fn at(path: &str, line: u32, character: u32) -> TextDocumentPositionParams {
    TextDocumentPositionParams { text_document: document(path), position: Position { line, character } }
}

fn hover_at(path: &str, line: u32, character: u32) -> HoverParams {
    HoverParams { text_document_position_params: at(path, line, character) }
}

fn definition_at(path: &str, line: u32, character: u32) -> GotoDefinitionParams {
    GotoDefinitionParams { text_document_position_params: at(path, line, character) }
}

fn completion_at(path: &str, line: u32, character: u32) -> CompletionParams {
    CompletionParams { text_document_position: at(path, line, character) }
}

fn main_module() -> Module {
    let println = Expression {
        location: span(35, 45),
        type_: "fn(String) -> Nil".to_string(),
        definition: Some(DefinitionLocation { module: Some("gleam/io".to_string()), span: span(3, 9) }),
        children: vec![],
    };
    let greeting = Expression {
        location: span(46, 54),
        type_: "String".to_string(),
        definition: Some(DefinitionLocation { module: Some("greetings".to_string()), span: span(7, 15) }),
        children: vec![],
    };
    let call = Expression {
        location: span(35, 55),
        type_: "Nil".to_string(),
        definition: None,
        children: vec![println, greeting],
    };
    let ast = vec![
        Statement::Import { location: span(0, 15), module: "gleam/io".to_string() },
        Statement::Function { location: span(17, 57), body: call },
    ];
    Module::new("main".to_string(), Origin::Src, "/p/src/main.gleam".to_string(), MAIN, ast)
}

fn greetings_module() -> Module {
    Module::new(
        "greetings".to_string(),
        Origin::Src,
        "/p/src/my greetings.gleam".to_string(),
        "pub const greeting = \"hello\"\n",
        vec![Statement::Definition { location: span(0, 28) }],
    )
}

const LOCAL: &str = "const greeting = \"h\u{e9}\"\n\nlocal()\n";

fn local_module() -> Module {
    let local = Expression {
        location: span(24, 29),
        type_: "String".to_string(),
        definition: Some(DefinitionLocation { module: None, span: span(17, 22) }),
        children: vec![],
    };
    let ast = vec![
        Statement::Definition { location: span(0, 22) },
        Statement::Function { location: span(24, 31), body: local },
    ];
    Module::new("local".to_string(), Origin::Src, "/p/src/local.gleam".to_string(), LOCAL, ast)
}

fn test_module() -> Module {
    Module::new(
        "main_test".to_string(),
        Origin::Test,
        "/p/test/main_test.gleam".to_string(),
        "",
        vec![],
    )
}

fn warning() -> Diagnostic {
    Diagnostic {
        title: "Unused variable".to_string(),
        text: "x is never used".to_string(),
        level: Level::Warning,
        path: "/p/src/main.gleam".to_string(),
        location: span(1, 2),
    }
}

fn compilation() -> Compilation {
    Compilation {
        modules: vec![main_module(), greetings_module(), local_module(), test_module()],
        warnings: vec![warning()],
        importable_modules: vec!["gleam/io".to_string(), "gleam/list".to_string()],
    }
}

fn server() -> LanguageServer {
    let config = PackageConfig { name: "p".to_string() };
    LanguageServer::new(Some(config), "/p".to_string(), Ok(())).unwrap()
}

fn compiled_server() -> LanguageServer {
    let mut server = server();
    server.compile(Ok(compilation())).unwrap();
    server
}

fn failure() -> Error {
    Error::CompileFailure { message: "Type mismatch".to_string() }
}

fn labels(items: Option<Vec<language_server::protocol::CompletionItem>>) -> Option<Vec<String>> {
    items.map(|items| items.into_iter().map(|item| item.label).collect())
}

#[test]
fn new_server_with_config_has_a_fresh_compiler() {
    let server = server();
    assert_eq!(server.project_root, "/p");
    let compiler = server.compiler.as_ref().unwrap();
    assert!(compiler.modules.is_empty());
    assert!(compiler.warnings.is_empty());
    assert!(compiler.importable_modules.is_empty());
    assert!(!compiler.stale);
    assert!(server.fs_proxy.read_mem_cache("/p/src/main.gleam").is_none());
}

#[test]
fn new_server_without_config_has_no_compiler() {
    let server = LanguageServer::new(None, "/p".to_string(), Ok(())).unwrap();
    assert!(server.compiler.is_none());
    let server = LanguageServer::new(None, "/p".to_string(), Err(failure())).unwrap();
    assert!(server.compiler.is_none());
}

#[test]
fn new_server_hands_on_the_error_of_the_engine() {
    let config = PackageConfig { name: "p".to_string() };
    match LanguageServer::new(Some(config), "/p".to_string(), Err(failure())) {
        Err(Error::CompileFailure { message }) => assert_eq!(message, "Type mismatch"),
        _ => panic!("an error was expected"),
    }
}

#[test]
fn queries_without_a_compiler_have_no_answer() {
    let mut server = LanguageServer::new(None, "/p".to_string(), Ok(())).unwrap();
    assert!(server.compile(Ok(compilation())).is_ok());
    assert!(server.compiler.is_none());
    assert!(server.take_warnings().is_empty());
    assert_eq!(server.hover(hover_at("/p/src/main.gleam", 3, 14)).unwrap(), None);
    assert_eq!(server.goto_definition(definition_at("/p/src/main.gleam", 3, 14)).unwrap(), None);
    assert_eq!(server.completion(completion_at("/p/src/main.gleam", 0, 15)), None);
    assert_eq!(server.completion_for_import(), None);
}

#[test]
fn create_new_compiler_discards_what_was_compiled() {
    let mut server = compiled_server();
    assert_eq!(server.compiler.as_ref().unwrap().modules.len(), 4);
    server.create_new_compiler(Ok(())).unwrap();
    let compiler = server.compiler.as_ref().unwrap();
    assert!(compiler.modules.is_empty());
    assert!(compiler.warnings.is_empty());
    assert!(compiler.importable_modules.is_empty());
}

#[test]
fn create_new_compiler_keeps_the_old_one_on_failure() {
    let mut server = compiled_server();
    assert!(server.create_new_compiler(Err(failure())).is_err());
    assert_eq!(server.compiler.as_ref().unwrap().modules.len(), 4);
}

#[test]
fn compile_success_replaces_the_modules() {
    let mut server = compiled_server();
    let next = Compilation { modules: vec![test_module()], warnings: vec![], importable_modules: vec![] };
    server.compile(Ok(next)).unwrap();
    let compiler = server.compiler.as_ref().unwrap();
    assert_eq!(compiler.modules.len(), 1);
    assert_eq!(compiler.modules[0].name, "main_test");
    assert!(compiler.warnings.is_empty());
    assert!(compiler.importable_modules.is_empty());
    assert!(compiler.module("main").is_none());
    assert!(compiler.module("main_test").is_some());
}

#[test]
fn compile_failure_keeps_the_modules() {
    let mut server = compiled_server();
    match server.compile(Err(failure())) {
        Err(Error::CompileFailure { message }) => assert_eq!(message, "Type mismatch"),
        _ => panic!("an error was expected"),
    }
    let compiler = server.compiler.as_ref().unwrap();
    assert!(compiler.stale);
    assert_eq!(compiler.modules.len(), 4);
    assert_eq!(compiler.modules[0].name, "main");
    assert_eq!(compiler.modules[0].code(), MAIN);
    assert_eq!(compiler.warnings, vec![warning()]);
    assert_eq!(compiler.importable_module_names().len(), 2);
    server.compile(Ok(compilation())).unwrap();
    assert!(!server.compiler.as_ref().unwrap().stale);
}

#[test]
fn warnings_are_taken_once() {
    let mut server = compiled_server();
    assert_eq!(server.take_warnings(), vec![warning()]);
    assert!(server.take_warnings().is_empty());
    assert_eq!(server.compiler.as_ref().unwrap().modules.len(), 4);
    let mut compiler = ProjectCompiler::new();
    assert!(compiler.take_warnings().is_empty());
}

#[test]
fn module_lookup_is_by_exact_name() {
    let server = compiled_server();
    let compiler = server.compiler.as_ref().unwrap();
    assert_eq!(compiler.module("greetings").unwrap().path, "/p/src/my greetings.gleam");
    assert_eq!(compiler.module("local").unwrap().code(), LOCAL);
    assert!(compiler.module("greeting").is_none());
    assert!(compiler.module("Greetings").is_none());
    assert!(compiler.module("").is_none());
    assert_eq!(server.module_for_uri(&url("/p/src/main.gleam")).unwrap().name, "main");
    assert_eq!(server.module_for_uri(&url("/p/test/main_test.gleam")).unwrap().name, "main_test");
    assert!(server.module_for_uri(&url("/p/src/absent.gleam")).is_none());
    assert!(server.module_for_uri(&url("/elsewhere/src/main.gleam")).is_none());
}

#[test]
fn did_open_installs_the_text_and_asks_for_a_compilation() {
    let mut server = server();
    let params = DidOpenTextDocumentParams {
        text_document: TextDocumentItem { uri: url("/p/src/main.gleam"), text: "import gleam/io".to_string() },
    };
    assert_eq!(server.text_document_did_open(params).unwrap(), Action::Compile);
    assert_eq!(server.fs_proxy.read("/p/src/main.gleam", Some("on disk".to_string())).unwrap(), "import gleam/io");
}

#[test]
fn did_change_installs_the_first_change() {
    let mut server = server();
    let params = DidChangeTextDocumentParams {
        text_document: document("/p/src/main.gleam"),
        content_changes: vec![
            TextDocumentContentChangeEvent { text: "first".to_string() },
            TextDocumentContentChangeEvent { text: "second".to_string() },
        ],
    };
    assert_eq!(server.text_document_did_change(params).unwrap(), Action::Compile);
    assert_eq!(server.fs_proxy.read("/p/src/main.gleam", None).unwrap(), "first");
}

#[test]
fn did_change_without_changes_does_nothing() {
    let mut server = server();
    let params = DidChangeTextDocumentParams {
        text_document: document("/p/src/main.gleam"),
        content_changes: vec![],
    };
    assert_eq!(server.text_document_did_change(params).unwrap(), Action::Nothing);
    assert!(server.fs_proxy.read_mem_cache("/p/src/main.gleam").is_none());
}

#[test]
fn did_save_clears_the_override_and_asks_for_a_compilation() {
    let mut server = server();
    server.fs_proxy.write_mem_cache("/p/src/main.gleam", "edited").unwrap();
    let params = DidSaveTextDocumentParams { text_document: document("/p/src/main.gleam") };
    assert_eq!(server.text_document_did_save(params).unwrap(), Action::Compile);
    assert_eq!(server.fs_proxy.read("/p/src/main.gleam", Some("on disk".to_string())).unwrap(), "on disk");
}

#[test]
fn did_close_clears_the_override() {
    let mut server = server();
    server.fs_proxy.write_mem_cache("/p/src/main.gleam", "edited").unwrap();
    let params = DidCloseTextDocumentParams { text_document: document("/p/src/main.gleam") };
    assert!(server.text_document_did_close(params).is_ok());
    assert!(server.fs_proxy.read_mem_cache("/p/src/main.gleam").is_none());
}

#[test]
fn completion_after_opening_an_import() {
    let mut server = server();
    assert!(server.fs_proxy.read_mem_cache("/p/src/main.gleam").is_none());
    let params = DidOpenTextDocumentParams {
        text_document: TextDocumentItem { uri: url("/p/src/main.gleam"), text: "import gleam/io".to_string() },
    };
    assert_eq!(server.text_document_did_open(params).unwrap(), Action::Compile);
    let text = server.fs_proxy.read("/p/src/main.gleam", None).unwrap();
    let main = Module::new(
        "main".to_string(),
        Origin::Src,
        "/p/src/main.gleam".to_string(),
        &text,
        vec![Statement::Import { location: span(0, 15), module: "gleam/io".to_string() }],
    );
    let dependency = Module::new("gleam/io".to_string(), Origin::Dependency, "/d/io.gleam".to_string(), "", vec![]);
    let compilation = Compilation {
        modules: vec![main, test_module(), greetings_module(), dependency],
        warnings: vec![],
        importable_modules: vec!["gleam/io".to_string(), "gleam/list".to_string()],
    };
    server.compile(Ok(compilation)).unwrap();
    let found = labels(server.completion(completion_at("/p/src/main.gleam", 0, 15))).unwrap();
    assert_eq!(found, vec!["gleam/io", "gleam/list", "main", "greetings"]);
    assert!(!found.contains(&"main_test".to_string()));
}

#[test]
fn completion_on_no_node_is_for_an_import() {
    let server = compiled_server();
    let found = labels(server.completion(completion_at("/p/src/main.gleam", 1, 0))).unwrap();
    assert_eq!(found, vec!["gleam/io", "gleam/list", "main", "greetings", "local"]);
    let found = labels(server.completion(completion_at("/p/src/absent.gleam", 0, 0))).unwrap();
    assert_eq!(found, vec!["gleam/io", "gleam/list", "main", "greetings", "local"]);
}

#[test]
fn completion_elsewhere_has_no_answer() {
    let server = compiled_server();
    assert_eq!(server.completion(completion_at("/p/src/main.gleam", 2, 3)), None);
    assert_eq!(server.completion(completion_at("/p/src/main.gleam", 3, 14)), None);
}

#[test]
fn hover_shows_the_type_of_the_expression() {
    let server = compiled_server();
    let hover = server.hover(hover_at("/p/src/main.gleam", 3, 14)).unwrap().unwrap();
    assert_eq!(hover.contents, "```gleam\nString\n```");
    assert_eq!(
        hover.range,
        Range { start: Position { line: 3, character: 13 }, end: Position { line: 3, character: 21 } }
    );
    let hover = server.hover(hover_at("/p/src/main.gleam", 3, 4)).unwrap().unwrap();
    assert_eq!(hover.contents, "```gleam\nfn(String) -> Nil\n```");
}

#[test]
fn hover_on_a_statement_has_no_answer() {
    let server = compiled_server();
    assert_eq!(server.hover(hover_at("/p/src/main.gleam", 0, 3)).unwrap(), None);
    assert_eq!(server.hover(hover_at("/p/src/main.gleam", 2, 3)).unwrap(), None);
    assert_eq!(server.hover(hover_at("/p/src/local.gleam", 0, 3)).unwrap(), None);
}

#[test]
fn hover_on_no_node_has_no_answer() {
    let server = compiled_server();
    assert_eq!(server.hover(hover_at("/p/src/main.gleam", 1, 0)).unwrap(), None);
    assert_eq!(server.hover(hover_at("/p/src/absent.gleam", 0, 0)).unwrap(), None);
}

#[test]
fn hover_after_a_failed_compilation_shows_the_previous_type() {
    let mut server = compiled_server();
    let before = server.hover(hover_at("/p/src/main.gleam", 3, 14)).unwrap();
    let params = DidChangeTextDocumentParams {
        text_document: document("/p/src/main.gleam"),
        content_changes: vec![TextDocumentContentChangeEvent { text: "pub fn main() { 1 + \"\" }".to_string() }],
    };
    assert_eq!(server.text_document_did_change(params).unwrap(), Action::Compile);
    assert!(server.compile(Err(failure())).is_err());
    let after = server.hover(hover_at("/p/src/main.gleam", 3, 14)).unwrap();
    assert_eq!(after, before);
    assert_eq!(after.unwrap().contents, "```gleam\nString\n```");
}

#[test]
fn definition_in_the_same_file() {
    let server = compiled_server();
    let params = definition_at("/p/src/local.gleam", 2, 2);
    let uri = params.text_document_position_params.text_document.uri.clone();
    let location = server.goto_definition(params).unwrap().unwrap();
    assert_eq!(location.uri, uri);
    // The span runs over a character of two bytes and one code unit.
    assert_eq!(
        location.range,
        Range { start: Position { line: 0, character: 17 }, end: Position { line: 0, character: 21 } }
    );
}

#[test]
fn definition_of_a_statement_is_its_own_span() {
    let server = compiled_server();
    let location = server.goto_definition(definition_at("/p/src/main.gleam", 0, 3)).unwrap().unwrap();
    assert_eq!(location.uri, url("/p/src/main.gleam"));
    assert_eq!(
        location.range,
        Range { start: Position { line: 0, character: 0 }, end: Position { line: 0, character: 15 } }
    );
}

#[test]
fn definition_in_another_module_uses_that_module() {
    let server = compiled_server();
    let location = server.goto_definition(definition_at("/p/src/main.gleam", 3, 14)).unwrap().unwrap();
    assert_eq!(location.uri.text, "file:///p/src/my%20greetings.gleam");
    assert_eq!(location.uri.path, "/p/src/my%20greetings.gleam");
    assert_eq!(
        location.range,
        Range { start: Position { line: 0, character: 7 }, end: Position { line: 0, character: 15 } }
    );
}

#[test]
fn definition_in_a_module_that_was_not_compiled_has_no_answer() {
    let server = compiled_server();
    assert_eq!(server.goto_definition(definition_at("/p/src/main.gleam", 3, 4)).unwrap(), None);
}

#[test]
fn definition_without_a_reference_has_no_answer() {
    let server = compiled_server();
    assert_eq!(server.goto_definition(definition_at("/p/src/main.gleam", 3, 22)).unwrap(), None);
    assert_eq!(server.goto_definition(definition_at("/p/src/main.gleam", 1, 0)).unwrap(), None);
}

#[test]
fn location_needs_a_url() {
    let range = Range { start: Position { line: 1, character: 2 }, end: Position { line: 3, character: 4 } };
    assert_eq!(location_in(None, range), None);
    let location = location_in(Some(url("/p/src/main.gleam")), range).unwrap();
    assert_eq!(location.uri, url("/p/src/main.gleam"));
    assert_eq!(location.range, range);
}

#[test]
fn format_replaces_the_whole_document() {
    let mut server = server();
    let untidy = "pub fn main() {   \n  1  \n}   \n";
    let pretty = "pub fn main() {\n  1\n}\n";
    server.fs_proxy.write_mem_cache("/p/src/main.gleam", untidy).unwrap();
    let params = DocumentFormattingParams { text_document: document("/p/src/main.gleam") };
    let edits = server.format(params, Some("on\ndisk\nwith\nmore\nlines\n".to_string()), Ok(pretty.to_string())).unwrap();
    assert_eq!(edits.len(), 1);
    assert_eq!(edits[0].new_text, pretty);
    assert_eq!(
        edits[0].range,
        Range { start: Position { line: 0, character: 0 }, end: Position { line: 3, character: 0 } }
    );
}

#[test]
fn format_counts_the_lines_of_the_text_on_disk_without_an_override() {
    let server = server();
    let params = DocumentFormattingParams { text_document: document("/p/src/main.gleam") };
    let edits = server.format(params, Some("a\nb".to_string()), Ok("a\nb\n".to_string())).unwrap();
    assert_eq!(edits.len(), 1);
    assert_eq!(edits[0].new_text, "a\nb\n");
    assert_eq!(edits[0].range.end, Position { line: 2, character: 0 });
}

#[test]
fn format_of_an_unavailable_file_is_an_error() {
    let server = server();
    let params = DocumentFormattingParams { text_document: document("/p/src/main.gleam") };
    match server.format(params, None, Ok("".to_string())) {
        Err(Error::FileUnavailable { path }) => assert_eq!(path, "/p/src/main.gleam"),
        _ => panic!("an error was expected"),
    }
}

#[test]
fn format_hands_on_the_error_of_the_pretty_printer() {
    let server = server();
    let params = DocumentFormattingParams { text_document: document("/p/src/main.gleam") };
    let refused = Error::FormatError { message: "Syntax error".to_string() };
    match server.format(params, Some("pub fn (".to_string()), Err(refused)) {
        Err(Error::FormatError { message }) => assert_eq!(message, "Syntax error"),
        _ => panic!("an error was expected"),
    }
}

#[test]
fn node_at_position_gives_the_table_of_the_module() {
    let server = compiled_server();
    let (table, node) = server.node_at_position(&at("/p/src/main.gleam", 3, 14)).unwrap();
    assert_eq!(table.text(), MAIN);
    assert_eq!(node.location(), span(46, 54));
    assert!(server.node_at_position(&at("/p/src/main.gleam", 1, 0)).is_none());
    // Stale coordinates are clamped: a column past the line is the end of the line.
    let (_, node) = server.node_at_position(&at("/p/src/main.gleam", 3, 999)).unwrap();
    assert_eq!(node.location(), span(35, 55));
    // A line past the last one is the end of the text, where no statement is.
    assert!(server.node_at_position(&at("/p/src/main.gleam", 99, 0)).is_none());
}

#[test]
fn origin_is_src_for_sources_alone() {
    assert!(Origin::Src.is_src());
    assert!(!Origin::Test.is_src());
    assert!(!Origin::Dependency.is_src());
}

#[test]
fn completion_gives_a_shared_name_once() {
    let mut server = server();
    let shared = Module::new("shared".to_string(), Origin::Src, "/p/src/shared.gleam".to_string(), "", vec![]);
    let compilation = Compilation {
        modules: vec![main_module(), shared, test_module()],
        warnings: vec![],
        importable_modules: vec!["gleam/io".to_string(), "shared".to_string(), "main".to_string()],
    };
    server.compile(Ok(compilation)).unwrap();
    let found = labels(server.completion_for_import()).unwrap();
    assert_eq!(found, vec!["gleam/io", "shared", "main"]);
}

#[test]
fn completion_gives_a_repeated_name_once() {
    let mut server = server();
    let again = Module::new("main".to_string(), Origin::Src, "/p/src/main.gleam".to_string(), "", vec![]);
    let compilation = Compilation {
        modules: vec![main_module(), again, local_module()],
        warnings: vec![],
        importable_modules: vec!["a".to_string(), "b".to_string(), "a".to_string()],
    };
    server.compile(Ok(compilation)).unwrap();
    let found = labels(server.completion_for_import()).unwrap();
    assert_eq!(found, vec!["a", "b", "main", "local"]);
}

#[test]
fn completion_labels_are_pairwise_distinct() {
    let server = compiled_server();
    let found = labels(server.completion_for_import()).unwrap();
    for (i, one) in found.iter().enumerate() {
        for other in &found[i + 1..] {
            assert_ne!(one, other);
        }
    }
    assert!(!found.contains(&"main_test".to_string()));
}

#[test]
fn compilation_with_distinct_names_and_spans_in_bounds_is_well_formed() {
    assert!(compilation().is_well_formed());
    let empty = Compilation { modules: vec![], warnings: vec![], importable_modules: vec![] };
    assert!(empty.is_well_formed());
}

#[test]
fn compilation_with_a_module_name_twice_is_not_well_formed() {
    let mut twice = compilation();
    twice.modules.push(main_module());
    assert!(!twice.is_well_formed());
    // A test module and a source module of one name share a key too.
    let mut mixed = compilation();
    mixed.modules.push(Module::new("local".to_string(), Origin::Test, "/p/test/local.gleam".to_string(), "", vec![]));
    assert!(!mixed.is_well_formed());
}

#[test]
fn compilation_with_an_importable_name_twice_is_not_well_formed() {
    let mut twice = compilation();
    twice.importable_modules.push("gleam/io".to_string());
    assert!(!twice.is_well_formed());
}

#[test]
fn compilation_with_a_span_outside_its_text_is_not_well_formed() {
    let mut outside = compilation();
    outside.modules.push(Module::new(
        "short".to_string(),
        Origin::Src,
        "/p/src/short.gleam".to_string(),
        "abc",
        vec![Statement::Definition { location: span(0, 4) }],
    ));
    assert!(!outside.is_well_formed());
}

#[test]
fn hover_range_contains_the_hovered_position() {
    let server = compiled_server();
    for character in 2..23 {
        let params = hover_at("/p/src/main.gleam", 3, character);
        let position = params.text_document_position_params.position;
        let hover = server.hover(params).unwrap().unwrap();
        let start = (hover.range.start.line, hover.range.start.character);
        let end = (hover.range.end.line, hover.range.end.character);
        let here = (position.line, position.character);
        assert!(start <= here && here <= end);
    }
}
