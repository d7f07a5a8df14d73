//! The requests and answers of the editor protocol, as plain values.

use crate::span::{Position, Range};
use vstd::prelude::*;

verus! {

/// A parsed URL, held as its text and the path within it.
#[derive(Clone, Debug, PartialEq, Eq)]
pub struct Url {
    /// The URL in full, as it is written.
    pub text: String,
    /// The path part of the URL.
    pub path: String,
}

#[derive(Clone, Debug, PartialEq, Eq)]
pub struct TextDocumentIdentifier {
    pub uri: Url,
}

#[derive(Clone, Debug, PartialEq, Eq)]
pub struct TextDocumentItem {
    pub uri: Url,
    /// The text of the document as the editor holds it.
    pub text: String,
}

#[derive(Clone, Debug, PartialEq, Eq)]
pub struct TextDocumentPositionParams {
    pub text_document: TextDocumentIdentifier,
    pub position: Position,
}

#[derive(Clone, Debug, PartialEq, Eq)]
pub struct DidOpenTextDocumentParams {
    pub text_document: TextDocumentItem,
}

#[derive(Clone, Debug, PartialEq, Eq)]
pub struct DidSaveTextDocumentParams {
    pub text_document: TextDocumentIdentifier,
}

#[derive(Clone, Debug, PartialEq, Eq)]
pub struct DidCloseTextDocumentParams {
    pub text_document: TextDocumentIdentifier,
}

/// A change to a document. The editor sends the whole new text.
#[derive(Clone, Debug, PartialEq, Eq)]
pub struct TextDocumentContentChangeEvent {
    pub text: String,
}

#[derive(Clone, Debug, PartialEq, Eq)]
pub struct DidChangeTextDocumentParams {
    pub text_document: TextDocumentIdentifier,
    pub content_changes: Vec<TextDocumentContentChangeEvent>,
}

#[derive(Clone, Debug, PartialEq, Eq)]
pub struct HoverParams {
    pub text_document_position_params: TextDocumentPositionParams,
}

#[derive(Clone, Debug, PartialEq, Eq)]
pub struct GotoDefinitionParams {
    pub text_document_position_params: TextDocumentPositionParams,
}

#[derive(Clone, Debug, PartialEq, Eq)]
pub struct CompletionParams {
    pub text_document_position: TextDocumentPositionParams,
}

#[derive(Clone, Debug, PartialEq, Eq)]
pub struct DocumentFormattingParams {
    pub text_document: TextDocumentIdentifier,
}

/// A place in a document: the answer to a request for a definition.
#[derive(Clone, Debug, PartialEq, Eq)]
pub struct Location {
    pub uri: Url,
    pub range: Range,
}

/// The replacement of a range of a document by a text.
#[derive(Clone, Debug, PartialEq, Eq)]
pub struct TextEdit {
    pub range: Range,
    pub new_text: String,
}

/// What the editor shows over a hovered expression.
#[derive(Clone, Debug, PartialEq, Eq)]
pub struct Hover {
    pub contents: String,
    pub range: Range,
}

/// A proposal for a completion: a label and nothing more.
#[derive(Clone, Debug, PartialEq, Eq)]
pub struct CompletionItem {
    pub label: String,
}

impl DeepView for Url {
    type V = (Seq<char>, Seq<char>);

    /// The text of the URL and the path within it.
    open spec fn deep_view(&self) -> (Seq<char>, Seq<char>) {
        (self.text@, self.path@)
    }
}

impl DeepView for Location {
    type V = ((Seq<char>, Seq<char>), Range);

    /// The URL and the range.
    open spec fn deep_view(&self) -> ((Seq<char>, Seq<char>), Range) {
        (self.uri.deep_view(), self.range)
    }
}

impl DeepView for TextEdit {
    type V = (Range, Seq<char>);

    /// The range and the text that replaces it.
    open spec fn deep_view(&self) -> (Range, Seq<char>) {
        (self.range, self.new_text@)
    }
}

impl DeepView for Hover {
    type V = (Seq<char>, Range);

    /// The contents and the range that they belong to.
    open spec fn deep_view(&self) -> (Seq<char>, Range) {
        (self.contents@, self.range)
    }
}

impl DeepView for CompletionItem {
    type V = Seq<char>;

    /// The label.
    open spec fn deep_view(&self) -> Seq<char> {
        self.label@
    }
}

} // verus!
