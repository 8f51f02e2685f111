//! The syntax tree that the parser builds and the constant evaluator reads,
//! together with the mathematical model (`view`) of each node.

use vstd::prelude::*;

verus! {

/// The operators of expressions.
#[derive(Debug, Clone, Copy, PartialEq, Eq, Structural)]
pub enum Operator {
    Plus,
    Minus,
    Multiplication,
    Division,
    Modulo,
    Equal,
    NotEqual,
    Less,
    Greater,
    LessOrEqual,
    GreaterOrEqual,
    And,
    Or,
    Xor,
    Not,
}

/// The types that the parser resolves by itself.
#[derive(Debug, Clone, Copy, PartialEq, Eq, Structural)]
pub enum PrimitiveType {
    Int,
    Bool,
}

/// The resolved type of a declared variable.
#[derive(Debug, Clone, Copy, PartialEq, Eq, Structural)]
pub enum Type {
    Primitive(PrimitiveType),
    Custom,
}

/// One dimension of an array type, as the offsets of its first and last element.
#[derive(Debug, Clone, Copy, PartialEq, Eq, Structural)]
pub struct Dimension {
    pub start_offset: i32,
    pub end_offset: i32,
}

/// A statement or an expression; the tree owns its children.
#[derive(Debug, PartialEq)]
#[allow(inconsistent_fields)]
pub enum Statement {
    Reference { name: String },
    LiteralNumber { value: String },
    LiteralBool { value: bool },
    LiteralReal { value: String },
    BinaryExpression { operator: Operator, left: Box<Statement>, right: Box<Statement> },
    UnaryExpression { operator: Operator, value: Box<Statement> },
    Assignment { left: Box<Statement>, right: Box<Statement> },
    IfStatement { blocks: Vec<ConditionalBlock>, else_block: Vec<Statement> },
    CastStatement { data_type_name: String, target: Box<Statement> },
}

/// A condition and the statements that run when it holds.
#[derive(Debug, PartialEq)]
pub struct ConditionalBlock {
    pub condition: Box<Statement>,
    pub body: Vec<Statement>,
}

/// A declared variable: its name, the name of its type as written, and the
/// type that the name resolves to.
#[derive(Debug, PartialEq)]
pub struct Variable {
    pub name: String,
    pub data_type_name: String,
    pub data_type: Type,
}

/// The variables of one `VAR` .. `END_VAR` block, in source order.
#[derive(Debug, PartialEq)]
pub struct VariableBlock {
    pub variables: Vec<Variable>,
}

/// A program: its name, its variable blocks and its statements, in source order.
#[derive(Debug, PartialEq)]
pub struct Program {
    pub name: String,
    pub variable_blocks: Vec<VariableBlock>,
    pub statements: Vec<Statement>,
}

/// The programs of one source text, in source order.
#[derive(Debug, PartialEq)]
pub struct CompilationUnit {
    pub units: Vec<Program>,
}

/// The model of a [`Statement`]: names and literals as character sequences,
/// lists as sequences.
#[allow(inconsistent_fields)]
pub enum StatementView {
    Reference { name: Seq<char> },
    LiteralNumber { value: Seq<char> },
    LiteralBool { value: bool },
    LiteralReal { value: Seq<char> },
    BinaryExpression { operator: Operator, left: Box<StatementView>, right: Box<StatementView> },
    UnaryExpression { operator: Operator, value: Box<StatementView> },
    Assignment { left: Box<StatementView>, right: Box<StatementView> },
    IfStatement { blocks: Seq<ConditionalBlockView>, else_block: Seq<StatementView> },
    CastStatement { data_type_name: Seq<char>, target: Box<StatementView> },
}

/// The model of a [`ConditionalBlock`].
pub struct ConditionalBlockView {
    pub condition: StatementView,
    pub body: Seq<StatementView>,
}

/// The model of a [`Variable`].
pub struct VariableView {
    pub name: Seq<char>,
    pub data_type_name: Seq<char>,
    pub data_type: Type,
}

/// The model of a [`VariableBlock`].
pub struct VariableBlockView {
    pub variables: Seq<VariableView>,
}

/// The model of a [`Program`].
pub struct ProgramView {
    pub name: Seq<char>,
    pub variable_blocks: Seq<VariableBlockView>,
    pub statements: Seq<StatementView>,
}

/// The model of a [`CompilationUnit`].
pub struct CompilationUnitView {
    pub units: Seq<ProgramView>,
}

/// The model of a statement.
pub open spec fn statement_view(statement: Statement) -> StatementView
    decreases statement,
{
    match statement {
        Statement::Reference { name } => StatementView::Reference { name: name@ },
        Statement::LiteralNumber { value } => StatementView::LiteralNumber { value: value@ },
        Statement::LiteralBool { value } => StatementView::LiteralBool { value },
        Statement::LiteralReal { value } => StatementView::LiteralReal { value: value@ },
        Statement::BinaryExpression { operator, left, right } => StatementView::BinaryExpression {
            operator,
            left: Box::new(statement_view(*left)),
            right: Box::new(statement_view(*right)),
        },
        Statement::UnaryExpression { operator, value } => StatementView::UnaryExpression {
            operator,
            value: Box::new(statement_view(*value)),
        },
        Statement::Assignment { left, right } => StatementView::Assignment {
            left: Box::new(statement_view(*left)),
            right: Box::new(statement_view(*right)),
        },
        Statement::IfStatement { blocks, else_block } => StatementView::IfStatement {
            blocks: Seq::new(
                blocks@.len(),
                |i: int|
                    if 0 <= i < blocks@.len() {
                        conditional_block_view(blocks@[i])
                    } else {
                        arbitrary()
                    },
            ),
            else_block: Seq::new(
                else_block@.len(),
                |i: int|
                    if 0 <= i < else_block@.len() {
                        statement_view(else_block@[i])
                    } else {
                        arbitrary()
                    },
            ),
        },
        Statement::CastStatement { data_type_name, target } => StatementView::CastStatement {
            data_type_name: data_type_name@,
            target: Box::new(statement_view(*target)),
        },
    }
}

/// The model of a conditional block.
pub open spec fn conditional_block_view(block: ConditionalBlock) -> ConditionalBlockView
    decreases block,
{
    ConditionalBlockView {
        condition: statement_view(*block.condition),
        body: Seq::new(
            block.body@.len(),
            |i: int|
                if 0 <= i < block.body@.len() {
                    statement_view(block.body@[i])
                } else {
                    arbitrary()
                },
        ),
    }
}

impl View for Statement {
    type V = StatementView;

    open spec fn view(&self) -> StatementView {
        statement_view(*self)
    }
}

impl View for ConditionalBlock {
    type V = ConditionalBlockView;

    open spec fn view(&self) -> ConditionalBlockView {
        conditional_block_view(*self)
    }
}

/// The models of the elements of a list, in the list's order.
pub open spec fn view_each<T: View>(items: Seq<T>) -> Seq<T::V> {
    Seq::new(items.len(), |i: int| items[i]@)
}

/// Appending an element to a list appends its model to the list's model.
pub proof fn lemma_view_each_push<T: View>(items: Seq<T>, item: T)
    ensures
        view_each(items.push(item)) == view_each(items).push(item@),
{
    assert(view_each(items.push(item)) =~= view_each(items).push(item@));
}

/// The model of an `IfStatement` is made of the models of its parts.
pub proof fn lemma_view_if_statement(blocks: Vec<ConditionalBlock>, else_block: Vec<Statement>)
    ensures
        (Statement::IfStatement { blocks, else_block })@ == (StatementView::IfStatement {
            blocks: view_each(blocks@),
            else_block: view_each(else_block@),
        }),
{
    let s = Statement::IfStatement { blocks, else_block };
    assert(s@->IfStatement_blocks =~= view_each(blocks@));
    assert(s@->IfStatement_else_block =~= view_each(else_block@));
}

/// The model of a `ConditionalBlock` is made of the models of its parts.
pub proof fn lemma_view_conditional_block(block: ConditionalBlock)
    ensures
        block@ == (ConditionalBlockView {
            condition: block.condition@,
            body: view_each(block.body@),
        }),
{
    assert(block@.body =~= view_each(block.body@));
}

impl View for Variable {
    type V = VariableView;

    open spec fn view(&self) -> VariableView {
        VariableView { name: self.name@, data_type_name: self.data_type_name@, data_type: self.data_type }
    }
}

impl View for VariableBlock {
    type V = VariableBlockView;

    open spec fn view(&self) -> VariableBlockView {
        VariableBlockView { variables: view_each(self.variables@) }
    }
}

impl View for Program {
    type V = ProgramView;

    open spec fn view(&self) -> ProgramView {
        ProgramView {
            name: self.name@,
            variable_blocks: view_each(self.variable_blocks@),
            statements: view_each(self.statements@),
        }
    }
}

impl View for CompilationUnit {
    type V = CompilationUnitView;

    open spec fn view(&self) -> CompilationUnitView {
        CompilationUnitView { units: view_each(self.units@) }
    }
}

} // verus!
