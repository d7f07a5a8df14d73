//! The typed syntax tree of a compiled module, as far as the queries read
//! it, and the locator that finds the node under a cursor.

use crate::span::SrcSpan;
use vstd::prelude::*;

verus! {

/// Where a name is declared: a span, and the module that holds it. Without
/// a module the declaration is in the module that the name was found in.
pub struct DefinitionLocation {
    pub module: Option<String>,
    pub span: SrcSpan,
}

/// A typed expression with the expressions nested in it.
pub struct Expression {
    pub location: SrcSpan,
    /// The inferred type, as the compiler prints it.
    pub type_: String,
    /// Where the name that the expression refers to is declared, if it
    /// refers to one.
    pub definition: Option<DefinitionLocation>,
    pub children: Vec<Expression>,
}

/// A statement at the top level of a module.
pub enum Statement {
    Import { location: SrcSpan, module: String },
    Function { location: SrcSpan, body: Expression },
    Definition { location: SrcSpan },
}

/// The innermost node that encloses a place in the source: a statement, or
/// an expression within one.
pub enum Located<'a> {
    Statement(&'a Statement),
    Expression(&'a Expression),
}

/// The index of the first of `children`, from `from` on, whose span
/// contains the offset, or the number of children where none does.
pub open spec fn first_child_at(children: Seq<Expression>, from: int, byte_index: usize) -> int
    decreases children.len() - from,
{
    if from >= children.len() {
        children.len() as int
    } else if from >= 0 && children[from].location.contains(byte_index) {
        from
    } else {
        first_child_at(children, from + 1, byte_index)
    }
}

impl Expression {
    /// The innermost expression that contains the offset, reached from this
    /// one by going, as long as a nested expression contains the offset,
    /// into the first that does.
    pub open spec fn innermost(self, byte_index: usize) -> Expression
        decreases self,
    {
        let next = first_child_at(self.children@, 0, byte_index);
        if 0 <= next < self.children@.len() {
            self.children@[next].innermost(byte_index)
        } else {
            self
        }
    }

    /// The innermost expression under the offset, for an expression that
    /// contains it.
    pub fn find_node(&self, byte_index: usize) -> (found: &Expression)
        ensures
            *found == self.innermost(byte_index),
        decreases self,
    {
        let mut i: usize = 0;
        while i < self.children.len()
            invariant
                i <= self.children@.len(),
                first_child_at(self.children@, 0, byte_index) == first_child_at(
                    self.children@,
                    i as int,
                    byte_index,
                ),
            decreases self.children@.len() - i,
        {
            if self.children[i].location.contains(byte_index) {
                return self.children[i].find_node(byte_index);
            }
            i += 1;
        }
        self
    }
}

/// The index that `first_child_at` gives lies in `from..=len`; below `len`
/// it is that of a child that contains the offset; and no child between
/// `from` and it contains the offset.
pub proof fn lemma_first_child_is_least(children: Seq<Expression>, from: int, byte_index: usize)
    requires
        0 <= from <= children.len(),
    ensures
        from <= first_child_at(children, from, byte_index) <= children.len(),
        first_child_at(children, from, byte_index) < children.len() ==> children[first_child_at(
            children,
            from,
            byte_index,
        )].location.contains(byte_index),
        forall|k: int|
            from <= k < first_child_at(children, from, byte_index) ==> !(
            #[trigger] children[k]).location.contains(byte_index),
    decreases children.len() - from,
{
    if from < children.len() && !children[from].location.contains(byte_index) {
        lemma_first_child_is_least(children, from + 1, byte_index);
    }
}

/// Node containment, for expressions: the innermost expression under an
/// offset contains the offset, and none of the expressions nested in it
/// does.
pub proof fn lemma_innermost_contains(expression: Expression, byte_index: usize)
    requires
        expression.location.contains(byte_index),
    ensures
        expression.innermost(byte_index).location.contains(byte_index),
        forall|k: int|
            0 <= k < expression.innermost(byte_index).children@.len() ==> !(
            #[trigger] expression.innermost(byte_index).children@[k]).location.contains(
                byte_index,
            ),
    decreases expression,
{
    lemma_first_child_is_least(expression.children@, 0, byte_index);
    let next = first_child_at(expression.children@, 0, byte_index);
    if 0 <= next < expression.children@.len() {
        lemma_innermost_contains(expression.children@[next], byte_index);
    }
}

impl Statement {
    /// The span of the statement.
    pub open spec fn spec_location(&self) -> SrcSpan {
        match self {
            Statement::Import { location, .. } => *location,
            Statement::Function { location, .. } => *location,
            Statement::Definition { location } => *location,
        }
    }

    #[verifier::when_used_as_spec(spec_location)]
    pub fn location(&self) -> (location: SrcSpan)
        ensures
            location == self.spec_location(),
    {
        match self {
            Statement::Import { location, .. } => *location,
            Statement::Function { location, .. } => *location,
            Statement::Definition { location } => *location,
        }
    }

    /// The node under an offset within the statement: the innermost
    /// expression of a function's body where the body contains the offset,
    /// the statement itself otherwise.
    pub open spec fn locate(&self, byte_index: usize) -> Located<'_> {
        match self {
            Statement::Function { body, .. } if body.location.contains(byte_index) => {
                Located::Expression(&body.innermost(byte_index))
            },
            _ => Located::Statement(self),
        }
    }

    /// The node under an offset, for a statement that contains the offset.
    pub fn find_node(&self, byte_index: usize) -> (found: Located<'_>)
        ensures
            found == self.locate(byte_index),
    {
        match self {
            Statement::Function { body, .. } => {
                if body.location.contains(byte_index) {
                    Located::Expression(body.find_node(byte_index))
                } else {
                    Located::Statement(self)
                }
            },
            _ => Located::Statement(self),
        }
    }
}

impl<'a> Located<'a> {
    /// The span of the node.
    pub open spec fn spec_location(&self) -> SrcSpan {
        match self {
            Located::Statement(statement) => statement.location(),
            Located::Expression(expression) => expression.location,
        }
    }

    #[verifier::when_used_as_spec(spec_location)]
    pub fn location(&self) -> (location: SrcSpan)
        ensures
            location == self.spec_location(),
    {
        match self {
            Located::Statement(statement) => statement.location(),
            Located::Expression(expression) => expression.location,
        }
    }

    /// Where the node says its name is declared: for an expression the
    /// declaration that it refers to, if any; for a statement the statement
    /// itself, in its own module.
    pub open spec fn spec_definition_location(&self) -> Option<DefinitionLocation> {
        match self {
            Located::Statement(statement) => Some(
                DefinitionLocation { module: None, span: statement.location() },
            ),
            Located::Expression(expression) => expression.definition,
        }
    }

    #[verifier::when_used_as_spec(spec_definition_location)]
    pub fn definition_location(&self) -> (definition: Option<DefinitionLocation>)
        ensures
            definition == self.spec_definition_location(),
    {
        match self {
            Located::Statement(statement) => Some(
                DefinitionLocation { module: None, span: statement.location() },
            ),
            Located::Expression(expression) => match &expression.definition {
                Some(DefinitionLocation { module: Some(name), span }) => Some(
                    DefinitionLocation { module: Some(name.clone()), span: *span },
                ),
                Some(DefinitionLocation { module: None, span }) => Some(
                    DefinitionLocation { module: None, span: *span },
                ),
                None => None,
            },
        }
    }
}

/// The index of the first of `statements`, from `from` on, whose span
/// contains the offset, or the number of statements where none does.
pub open spec fn first_statement_at(statements: Seq<Statement>, from: int, byte_index: usize) -> int
    decreases statements.len() - from,
{
    if from >= statements.len() {
        statements.len() as int
    } else if from >= 0 && statements[from].location().contains(byte_index) {
        from
    } else {
        first_statement_at(statements, from + 1, byte_index)
    }
}

/// The node under an offset in the statements of a module: that of the
/// first statement whose span contains the offset, if there is one.
pub open spec fn locate(statements: Seq<Statement>, byte_index: usize) -> Option<Located<'static>> {
    let at = first_statement_at(statements, 0, byte_index);
    if 0 <= at < statements.len() {
        Some(statements[at].locate(byte_index))
    } else {
        None
    }
}

/// The index that `first_statement_at` gives lies in `from..=len`; below
/// `len` it is that of a statement that contains the offset; and no
/// statement between `from` and it contains the offset.
pub proof fn lemma_first_statement_is_least(
    statements: Seq<Statement>,
    from: int,
    byte_index: usize,
)
    requires
        0 <= from <= statements.len(),
    ensures
        from <= first_statement_at(statements, from, byte_index) <= statements.len(),
        first_statement_at(statements, from, byte_index) < statements.len()
            ==> statements[first_statement_at(statements, from, byte_index)].location().contains(
            byte_index,
        ),
        forall|k: int|
            from <= k < first_statement_at(statements, from, byte_index) ==> !(
            #[trigger] statements[k]).location().contains(byte_index),
    decreases statements.len() - from,
{
    if from < statements.len() && !statements[from].location().contains(byte_index) {
        lemma_first_statement_is_least(statements, from + 1, byte_index);
    }
}

/// Node containment: a node that the locator gives contains the offset
/// that was asked for, both ends of its span included, and the locator
/// gives a node exactly when some statement contains the offset.
pub proof fn lemma_located_contains(statements: Seq<Statement>, byte_index: usize)
    ensures
        locate(statements, byte_index) matches Some(node) ==> node.location().start <= byte_index
            <= node.location().end,
        locate(statements, byte_index) is Some <==> exists|k: int|
            0 <= k < statements.len() && (#[trigger] statements[k]).location().contains(
                byte_index,
            ),
{
    lemma_first_statement_is_least(statements, 0, byte_index);
    let at = first_statement_at(statements, 0, byte_index);
    if 0 <= at < statements.len() {
        match statements[at] {
            Statement::Function { body, .. } => {
                if body.location.contains(byte_index) {
                    lemma_innermost_contains(body, byte_index);
                }
            },
            _ => {},
        }
    }
}

impl Expression {
    /// Whether the span of the expression, and that of every expression
    /// nested in it, is a run of a text of `len` bytes.
    pub open spec fn within(self, len: usize) -> bool
        decreases self,
    {
        &&& self.location.start <= self.location.end <= len
        &&& forall|i: int|
            0 <= i < self.children@.len() ==> (#[trigger] self.children@[i]).within(len)
    }

    /// Whether the spans of the expression and of all that is nested in it
    /// lie within a text of `len` bytes.
    pub fn is_within(&self, len: usize) -> (yes: bool)
        ensures
            yes == self.within(len),
        decreases self,
    {
        if !(self.location.start <= self.location.end && self.location.end <= len) {
            return false;
        }
        let mut i: usize = 0;
        while i < self.children.len()
            invariant
                i <= self.children@.len(),
                self.location.start <= self.location.end <= len,
                forall|k: int| 0 <= k < i ==> (#[trigger] self.children@[k]).within(len),
            decreases self.children@.len() - i,
        {
            if !self.children[i].is_within(len) {
                return false;
            }
            i += 1;
        }
        true
    }
}

impl Statement {
    /// Whether the span of the statement, and that of every expression in
    /// it, is a run of a text of `len` bytes.
    pub open spec fn within(self, len: usize) -> bool {
        &&& self.location().start <= self.location().end <= len
        &&& self matches Statement::Function { body, .. } ==> body.within(len)
    }

    /// Whether the spans of the statement and of the expressions in it lie
    /// within a text of `len` bytes.
    pub fn is_within(&self, len: usize) -> (yes: bool)
        ensures
            yes == self.within(len),
    {
        let location = self.location();
        if !(location.start <= location.end && location.end <= len) {
            return false;
        }
        match self {
            Statement::Function { body, .. } => body.is_within(len),
            _ => true,
        }
    }
}

/// Whether every span in the statements of a module is a run of a text of
/// `len` bytes.
pub open spec fn all_within(statements: Seq<Statement>, len: usize) -> bool {
    forall|i: int| 0 <= i < statements.len() ==> (#[trigger] statements[i]).within(len)
}

/// The innermost expression under an offset has its span within the text,
/// where the expression that the search starts from has all its spans
/// there.
pub proof fn lemma_innermost_within(expression: Expression, byte_index: usize, len: usize)
    requires
        expression.within(len),
    ensures
        expression.innermost(byte_index).within(len),
    decreases expression,
{
    let next = first_child_at(expression.children@, 0, byte_index);
    if 0 <= next < expression.children@.len() {
        lemma_innermost_within(expression.children@[next], byte_index, len);
    }
}

/// The span of a located node is a run of the text of its module, where
/// the spans of the module's statements are.
pub proof fn lemma_located_within(statements: Seq<Statement>, byte_index: usize, len: usize)
    requires
        all_within(statements, len),
    ensures
        locate(statements, byte_index) matches Some(node) ==> node.location().start
            <= node.location().end <= len,
{
    lemma_first_statement_is_least(statements, 0, byte_index);
    let at = first_statement_at(statements, 0, byte_index);
    if 0 <= at < statements.len() {
        assert(statements[at].within(len));
        match statements[at] {
            Statement::Function { body, .. } => {
                lemma_innermost_within(body, byte_index, len);
            },
            _ => {},
        }
    }
}

/// The node under an offset in the statements of a module.
pub fn find_node<'a>(statements: &'a Vec<Statement>, byte_index: usize) -> (found: Option<
    Located<'a>,
>)
    ensures
        found == locate(statements@, byte_index),
        found matches Some(node) ==> node.location().start <= byte_index <= node.location().end,
{
    let mut i: usize = 0;
    while i < statements.len()
        invariant
            i <= statements@.len(),
            first_statement_at(statements@, 0, byte_index) == first_statement_at(
                statements@,
                i as int,
                byte_index,
            ),
        decreases statements@.len() - i,
    {
        if statements[i].location().contains(byte_index) {
            proof {
                lemma_located_contains(statements@, byte_index);
            }
            return Some(statements[i].find_node(byte_index));
        }
        i += 1;
    }
    None
}

} // verus!
