//! The parser: from the tokens of a source text to its programs, and to the
//! diagnostics for what is no program.
//!
//! The grammar:
//!
//! ```text
//! CompilationUnit := Program*
//! Program         := PROGRAM ident VariableBlock* Statement* END_PROGRAM
//! VariableBlock   := VAR Variable* END_VAR
//! Variable        := ident ':' ident ';'
//! Statement       := IfStatement | Expression ';'
//! IfStatement     := IF Expression THEN Statement*
//!                    (ELSIF Expression THEN Statement*)* [ELSE Statement*] END_IF
//! ```
//!
//! Expressions bind in five steps, from loose to tight: `=` `<>`, then `<` `>`
//! `<=` `>=`, then `+` `-`, then `*` `/` `MOD`, then `AND` `OR` `XOR`. The
//! right operand of an operator is an expression of the operator's own step,
//! so a chain of operators of one step nests to the right. Below them stand
//! an expression in parentheses, `NOT` and `-` in front of an operand, and the
//! leaves: a reference, a literal, and a leaf with `:=` and a whole expression
//! behind it.
//!
//! An error never ends the parsing. A statement or a declaration in error is
//! reported and left out, and the parser reads on behind the next `;` or in
//! front of the next keyword that bounds a block.

pub mod grammar;

use vstd::prelude::*;
use crate::ast::{
    lemma_view_conditional_block,
    lemma_view_each_push,
    lemma_view_if_statement,
    view_each,
    CompilationUnit,
    ConditionalBlock,
    Operator,
    PrimitiveType,
    Program,
    ProgramView,
    Statement,
    StatementView,
    Type,
    Variable,
    VariableBlock,
};
use crate::diagnostic::{quote, Diagnostic};
use crate::parser::grammar::{
    capital,
    is_word,
    remaining,
    spec_binary_expression,
    spec_body,
    spec_conditional_blocks,
    spec_control_statement,
    spec_data_type,
    spec_if_statement,
    spec_leaf_expression,
    spec_next_program,
    spec_no_expression,
    spec_no_program,
    spec_parenthesized_expression,
    spec_parse,
    spec_primary_expression,
    spec_program,
    spec_recover,
    spec_statement,
    spec_unary_expression,
    spec_unclosed_block,
    spec_unexpected_token,
    spec_units,
    spec_variable,
    spec_variable_blocks,
    spec_variables,
    Parsed,
};
use crate::token::{TokenKind, TokenStream};

verus! {

/// The model of what parsing an expression ends in.
pub open spec fn parsed_view(result: (Result<Statement, Diagnostic>, usize)) -> (Parsed, nat) {
    (
        match result.0 {
            Ok(statement) => Ok(statement@),
            Err(diagnostic) => Err(diagnostic@),
        },
        result.1 as nat,
    )
}

/// A program without a name, variable blocks and statements.
pub fn create_program() -> (result: Program)
    ensures
        result@ == (ProgramView {
            name: Seq::empty(),
            variable_blocks: Seq::empty(),
            statements: Seq::empty(),
        }),
        result.variable_blocks@.len() == 0,
        result.statements@.len() == 0,
{
    let result = Program {
        name: String::new(),
        variable_blocks: Vec::new(),
        statements: Vec::new(),
    };
    assert(result@.variable_blocks =~= Seq::empty());
    assert(result@.statements =~= Seq::empty());
    result
}

/// The diagnostic for the token at `pos`, which is no token of the language.
fn unidentified_token(lexer: &TokenStream, pos: usize) -> (result: Diagnostic)
    ensures
        result@ == crate::diagnostic::unidentified_token(
            lexer@.slice_at(pos as nat),
            lexer@.range_at(pos as nat),
        ),
{
    Diagnostic::unidentified_token(lexer.slice_at(pos), lexer.range_at(pos))
}

/// The diagnostic for the token at `pos`, where an expression should start.
fn no_expression(lexer: &TokenStream, pos: usize) -> (result: Diagnostic)
    ensures
        result@ == spec_no_expression(lexer@, pos as nat),
{
    if lexer.kind_at(pos) == TokenKind::Error {
        unidentified_token(lexer, pos)
    } else {
        Diagnostic::unexpected_token_found("Literal", lexer.slice_at(pos), lexer.range_at(pos))
    }
}

/// The diagnostic for the token at `pos`, where a token of the kind
/// `expected` should stand.
fn unexpected_token(lexer: &TokenStream, pos: usize, expected: TokenKind) -> (result: Diagnostic)
    ensures
        result@ == spec_unexpected_token(lexer@, pos as nat, expected),
{
    Diagnostic::unexpected_token_found(expected.name(), lexer.slice_at(pos), lexer.range_at(pos))
}

/// The diagnostic for the token at `pos`, where the keyword of the kind
/// `expected` should close a block.
fn unclosed_block(lexer: &TokenStream, pos: usize, expected: TokenKind) -> (result: Diagnostic)
    ensures
        result@ == spec_unclosed_block(lexer@, pos as nat, expected),
{
    let found = quote(lexer.slice_at(pos));
    Diagnostic::unexpected_token_found(expected.name(), found.as_str(), lexer.range_at(pos))
}

/// The text of the token at `pos` and the position behind it.
fn slice_and_advance(lexer: &TokenStream, pos: usize) -> (result: (String, usize))
    requires
        pos < lexer@.len(),
    ensures
        result.0@ == lexer@.slice_at(pos as nat),
        result.1 == pos + 1,
{
    (String::from_str(lexer.slice_at(pos)), lexer.advance(pos))
}

/// The position at which the parser reads on after an error at `pos`.
fn recover(lexer: &TokenStream, pos: usize) -> (result: usize)
    ensures
        result == spec_recover(lexer@, pos as nat),
        pos <= result,
        !lexer@.kind_at(pos as nat).spec_is_block_boundary() ==> pos < result,
{
    let mut at = pos;
    loop
        invariant
            pos <= at,
            spec_recover(lexer@, pos as nat) == spec_recover(lexer@, at as nat),
            at == pos || !lexer@.kind_at(pos as nat).spec_is_block_boundary(),
        decreases remaining(lexer@, at as nat),
    {
        let kind = lexer.kind_at(at);
        if kind.is_block_boundary() {
            return at;
        }
        if kind == TokenKind::KeywordSemicolon {
            return at + 1;
        }
        at += 1;
    }
}

/// A whole expression from `pos` on, or the diagnostic for the first error
/// in it, and the position behind what was read.
pub fn parse_primary_expression(lexer: &TokenStream, pos: usize) -> (result: (
    Result<Statement, Diagnostic>,
    usize,
))
    ensures
        parsed_view(result) == spec_primary_expression(lexer@, pos as nat),
        pos <= result.1,
        result.0 is Ok ==> pos < result.1,
    decreases remaining(lexer@, pos as nat), 9nat,
{
    parse_equality_expression(lexer, pos)
}

/// The binary expression of the operator and its operands.
fn binary_expression(operator: Operator, left: Statement, right: Statement) -> (result: Statement)
    ensures
        result@ == (StatementView::BinaryExpression {
            operator,
            left: Box::new(left@),
            right: Box::new(right@),
        }),
{
    Statement::BinaryExpression { operator, left: Box::new(left), right: Box::new(right) }
}

/// An expression of `=` and `<>`.
fn parse_equality_expression(lexer: &TokenStream, pos: usize) -> (result: (
    Result<Statement, Diagnostic>,
    usize,
))
    ensures
        parsed_view(result) == spec_binary_expression(lexer@, pos as nat, 5),
        pos <= result.1,
        result.0 is Ok ==> pos < result.1,
    decreases remaining(lexer@, pos as nat), 8nat,
{
    let (left, pos1) = parse_compare_expression(lexer, pos);
    let left = match left {
        Ok(left) => left,
        Err(diagnostic) => {
            return (Err(diagnostic), pos1);
        },
    };
    let operator = match lexer.kind_at(pos1) {
        TokenKind::OperatorEqual => Operator::Equal,
        TokenKind::OperatorNotEqual => Operator::NotEqual,
        _ => {
            return (Ok(left), pos1);
        },
    };
    let (right, pos2) = parse_equality_expression(lexer, pos1 + 1);
    match right {
        Ok(right) => (Ok(binary_expression(operator, left, right)), pos2),
        Err(diagnostic) => (Err(diagnostic), pos2),
    }
}

/// An expression of `<`, `>`, `<=` and `>=`.
fn parse_compare_expression(lexer: &TokenStream, pos: usize) -> (result: (
    Result<Statement, Diagnostic>,
    usize,
))
    ensures
        parsed_view(result) == spec_binary_expression(lexer@, pos as nat, 4),
        pos <= result.1,
        result.0 is Ok ==> pos < result.1,
    decreases remaining(lexer@, pos as nat), 7nat,
{
    let (left, pos1) = parse_additive_expression(lexer, pos);
    let left = match left {
        Ok(left) => left,
        Err(diagnostic) => {
            return (Err(diagnostic), pos1);
        },
    };
    let operator = match lexer.kind_at(pos1) {
        TokenKind::OperatorLess => Operator::Less,
        TokenKind::OperatorGreater => Operator::Greater,
        TokenKind::OperatorLessOrEqual => Operator::LessOrEqual,
        TokenKind::OperatorGreaterOrEqual => Operator::GreaterOrEqual,
        _ => {
            return (Ok(left), pos1);
        },
    };
    let (right, pos2) = parse_compare_expression(lexer, pos1 + 1);
    match right {
        Ok(right) => (Ok(binary_expression(operator, left, right)), pos2),
        Err(diagnostic) => (Err(diagnostic), pos2),
    }
}

/// An expression of `+` and `-`.
fn parse_additive_expression(lexer: &TokenStream, pos: usize) -> (result: (
    Result<Statement, Diagnostic>,
    usize,
))
    ensures
        parsed_view(result) == spec_binary_expression(lexer@, pos as nat, 3),
        pos <= result.1,
        result.0 is Ok ==> pos < result.1,
    decreases remaining(lexer@, pos as nat), 6nat,
{
    let (left, pos1) = parse_multiplication_expression(lexer, pos);
    let left = match left {
        Ok(left) => left,
        Err(diagnostic) => {
            return (Err(diagnostic), pos1);
        },
    };
    let operator = match lexer.kind_at(pos1) {
        TokenKind::OperatorPlus => Operator::Plus,
        TokenKind::OperatorMinus => Operator::Minus,
        _ => {
            return (Ok(left), pos1);
        },
    };
    let (right, pos2) = parse_additive_expression(lexer, pos1 + 1);
    match right {
        Ok(right) => (Ok(binary_expression(operator, left, right)), pos2),
        Err(diagnostic) => (Err(diagnostic), pos2),
    }
}

/// An expression of `*`, `/` and `MOD`.
fn parse_multiplication_expression(lexer: &TokenStream, pos: usize) -> (result: (
    Result<Statement, Diagnostic>,
    usize,
))
    ensures
        parsed_view(result) == spec_binary_expression(lexer@, pos as nat, 2),
        pos <= result.1,
        result.0 is Ok ==> pos < result.1,
    decreases remaining(lexer@, pos as nat), 5nat,
{
    let (left, pos1) = parse_boolean_expression(lexer, pos);
    let left = match left {
        Ok(left) => left,
        Err(diagnostic) => {
            return (Err(diagnostic), pos1);
        },
    };
    let operator = match lexer.kind_at(pos1) {
        TokenKind::OperatorMultiplication => Operator::Multiplication,
        TokenKind::OperatorDivision => Operator::Division,
        TokenKind::OperatorModulo => Operator::Modulo,
        _ => {
            return (Ok(left), pos1);
        },
    };
    let (right, pos2) = parse_multiplication_expression(lexer, pos1 + 1);
    match right {
        Ok(right) => (Ok(binary_expression(operator, left, right)), pos2),
        Err(diagnostic) => (Err(diagnostic), pos2),
    }
}

/// An expression of `AND`, `OR` and `XOR`.
fn parse_boolean_expression(lexer: &TokenStream, pos: usize) -> (result: (
    Result<Statement, Diagnostic>,
    usize,
))
    ensures
        parsed_view(result) == spec_binary_expression(lexer@, pos as nat, 1),
        pos <= result.1,
        result.0 is Ok ==> pos < result.1,
    decreases remaining(lexer@, pos as nat), 4nat,
{
    assert(spec_binary_expression(lexer@, pos as nat, 0) == spec_parenthesized_expression(
        lexer@,
        pos as nat,
    ));
    let (current, pos1) = parse_parenthesized_expression(lexer, pos);
    let current = match current {
        Ok(current) => current,
        Err(diagnostic) => {
            return (Err(diagnostic), pos1);
        },
    };
    let operator = match lexer.kind_at(pos1) {
        TokenKind::OperatorAnd => Operator::And,
        TokenKind::OperatorOr => Operator::Or,
        TokenKind::OperatorXor => Operator::Xor,
        _ => {
            return (Ok(current), pos1);
        },
    };
    let (right, pos2) = parse_boolean_expression(lexer, pos1 + 1);
    match right {
        Ok(right) => (Ok(binary_expression(operator, current, right)), pos2),
        Err(diagnostic) => (Err(diagnostic), pos2),
    }
}

/// A whole expression in parentheses, or an operand without them.
fn parse_parenthesized_expression(lexer: &TokenStream, pos: usize) -> (result: (
    Result<Statement, Diagnostic>,
    usize,
))
    ensures
        parsed_view(result) == spec_parenthesized_expression(lexer@, pos as nat),
        pos <= result.1,
        result.0 is Ok ==> pos < result.1,
    decreases remaining(lexer@, pos as nat), 2nat,
{
    match lexer.kind_at(pos) {
        TokenKind::KeywordParensOpen => {
            let (inner, pos1) = parse_primary_expression(lexer, pos + 1);
            match inner {
                Ok(expression) => if lexer.kind_at(pos1) == TokenKind::KeywordParensClose {
                    (Ok(expression), pos1 + 1)
                } else {
                    (Err(unexpected_token(lexer, pos1, TokenKind::KeywordParensClose)), pos1)
                },
                Err(diagnostic) => (Err(diagnostic), pos1),
            }
        },
        _ => parse_unary_expression(lexer, pos),
    }
}

/// `NOT` or `-` in front of an operand, or a leaf.
fn parse_unary_expression(lexer: &TokenStream, pos: usize) -> (result: (
    Result<Statement, Diagnostic>,
    usize,
))
    ensures
        parsed_view(result) == spec_unary_expression(lexer@, pos as nat),
        pos <= result.1,
        result.0 is Ok ==> pos < result.1,
    decreases remaining(lexer@, pos as nat), 1nat,
{
    let operator = match lexer.kind_at(pos) {
        TokenKind::OperatorNot => Operator::Not,
        TokenKind::OperatorMinus => Operator::Minus,
        _ => {
            return parse_leaf_expression(lexer, pos);
        },
    };
    let (value, pos1) = parse_parenthesized_expression(lexer, pos + 1);
    match value {
        Ok(value) => (Ok(Statement::UnaryExpression { operator, value: Box::new(value) }), pos1),
        Err(diagnostic) => (Err(diagnostic), pos1),
    }
}

/// A reference or a literal and, where `:=` follows it, the assignment of a
/// whole expression to it.
fn parse_leaf_expression(lexer: &TokenStream, pos: usize) -> (result: (
    Result<Statement, Diagnostic>,
    usize,
))
    ensures
        parsed_view(result) == spec_leaf_expression(lexer@, pos as nat),
        pos <= result.1,
        result.0 is Ok ==> pos < result.1,
    decreases remaining(lexer@, pos as nat), 0nat,
{
    let (current, pos1) = match lexer.kind_at(pos) {
        TokenKind::Identifier => parse_reference(lexer, pos),
        TokenKind::LiteralNumber => parse_literal_number(lexer, pos),
        TokenKind::LiteralReal => parse_literal_real(lexer, pos),
        TokenKind::LiteralTrue => parse_bool_literal(lexer, pos, true),
        TokenKind::LiteralFalse => parse_bool_literal(lexer, pos, false),
        _ => {
            return (Err(no_expression(lexer, pos)), pos);
        },
    };
    if lexer.kind_at(pos1) == TokenKind::KeywordAssignment {
        let (right, pos2) = parse_primary_expression(lexer, pos1 + 1);
        match right {
            Ok(right) => (
                Ok(Statement::Assignment { left: Box::new(current), right: Box::new(right) }),
                pos2,
            ),
            Err(diagnostic) => (Err(diagnostic), pos2),
        }
    } else {
        (Ok(current), pos1)
    }
}

/// The boolean literal of the given value, and the position behind the token at `pos`.
fn parse_bool_literal(lexer: &TokenStream, pos: usize, value: bool) -> (result: (Statement, usize))
    requires
        pos < lexer@.len(),
    ensures
        result.0@ == (StatementView::LiteralBool { value }),
        result.1 == pos + 1,
{
    (Statement::LiteralBool { value }, lexer.advance(pos))
}

/// The reference that the token at `pos` names, and the position behind it.
fn parse_reference(lexer: &TokenStream, pos: usize) -> (result: (Statement, usize))
    requires
        pos < lexer@.len(),
    ensures
        result.0@ == (StatementView::Reference { name: lexer@.slice_at(pos as nat) }),
        result.1 == pos + 1,
{
    let (name, next) = slice_and_advance(lexer, pos);
    (Statement::Reference { name }, next)
}

/// The integer literal that the token at `pos` is, and the position behind it.
fn parse_literal_number(lexer: &TokenStream, pos: usize) -> (result: (Statement, usize))
    requires
        pos < lexer@.len(),
    ensures
        result.0@ == (StatementView::LiteralNumber { value: lexer@.slice_at(pos as nat) }),
        result.1 == pos + 1,
{
    let (value, next) = slice_and_advance(lexer, pos);
    (Statement::LiteralNumber { value }, next)
}

/// The real literal that the token at `pos` is, and the position behind it.
fn parse_literal_real(lexer: &TokenStream, pos: usize) -> (result: (Statement, usize))
    requires
        pos < lexer@.len(),
    ensures
        result.0@ == (StatementView::LiteralReal { value: lexer@.slice_at(pos as nat) }),
        result.1 == pos + 1,
{
    let (value, next) = slice_and_advance(lexer, pos);
    (Statement::LiteralReal { value }, next)
}

/// An expression with `;` behind it.
fn parse_statement(lexer: &TokenStream, pos: usize) -> (result: (
    Result<Statement, Diagnostic>,
    usize,
))
    ensures
        parsed_view(result) == spec_statement(lexer@, pos as nat),
        pos <= result.1,
        result.0 is Ok ==> pos < result.1,
{
    let (result, pos1) = parse_primary_expression(lexer, pos);
    match result {
        Ok(expression) => if lexer.kind_at(pos1) == TokenKind::KeywordSemicolon {
            (Ok(expression), pos1 + 1)
        } else {
            (Err(unexpected_token(lexer, pos1, TokenKind::KeywordSemicolon)), pos1)
        },
        Err(diagnostic) => (Err(diagnostic), pos1),
    }
}

/// A statement from `pos` on: an `IF` statement or an expression with `;`.
/// The diagnostics of the statements inside it are added to `diagnostics`.
fn parse_control_statement(
    lexer: &TokenStream,
    pos: usize,
    diagnostics: &mut Vec<Diagnostic>,
) -> (result: (Result<Statement, Diagnostic>, usize))
    ensures
        (parsed_view(result).0, result.1 as nat, view_each(final(diagnostics)@))
            == spec_control_statement(lexer@, pos as nat, view_each(old(diagnostics)@)),
        pos <= result.1,
        result.0 is Ok ==> pos < result.1,
    decreases remaining(lexer@, pos as nat), 2nat,
{
    if lexer.kind_at(pos) == TokenKind::KeywordIf {
        parse_if_statement(lexer, pos, diagnostics)
    } else {
        parse_statement(lexer, pos)
    }
}

/// The statements from `pos` up to the next token that bounds a block. The
/// diagnostics of the statements in error are added to `diagnostics`.
fn parse_body(lexer: &TokenStream, pos: usize, diagnostics: &mut Vec<Diagnostic>) -> (result: (
    Vec<Statement>,
    usize,
))
    ensures
        (view_each(result.0@), result.1 as nat, view_each(final(diagnostics)@)) == spec_body(
            lexer@,
            pos as nat,
            Seq::empty(),
            view_each(old(diagnostics)@),
        ),
        pos <= result.1,
    decreases remaining(lexer@, pos as nat), 3nat,
{
    let ghost entry = view_each(diagnostics@);
    let mut statements: Vec<Statement> = Vec::new();
    let mut at = pos;
    assert(view_each(statements@) =~= Seq::empty());
    while !lexer.kind_at(at).is_block_boundary()
        invariant
            pos <= at,
            spec_body(lexer@, pos as nat, Seq::empty(), entry) == spec_body(
                lexer@,
                at as nat,
                view_each(statements@),
                view_each(diagnostics@),
            ),
        decreases remaining(lexer@, at as nat),
    {
        let (result, pos1) = parse_control_statement(lexer, at, diagnostics);
        match result {
            Ok(statement) => {
                proof {
                    lemma_view_each_push(statements@, statement);
                }
                statements.push(statement);
                at = pos1;
            },
            Err(diagnostic) => {
                proof {
                    lemma_view_each_push(diagnostics@, diagnostic);
                }
                diagnostics.push(diagnostic);
                at = recover(lexer, pos1);
            },
        }
    }
    (statements, at)
}

/// The conditional blocks of an `IF` statement from `pos` on, where `IF` stands.
fn parse_conditional_blocks(
    lexer: &TokenStream,
    pos: usize,
    diagnostics: &mut Vec<Diagnostic>,
) -> (result: (Result<Vec<ConditionalBlock>, Diagnostic>, usize))
    requires
        lexer@.kind_at(pos as nat) == TokenKind::KeywordIf,
    ensures
        (
            match result.0 {
                Ok(blocks) => Ok(view_each(blocks@)),
                Err(diagnostic) => Err(diagnostic@),
            },
            result.1 as nat,
            view_each(final(diagnostics)@),
        ) == spec_conditional_blocks(
            lexer@,
            pos as nat,
            Seq::empty(),
            view_each(old(diagnostics)@),
        ),
        pos < result.1 || result.0 is Err,
        pos <= result.1,
    decreases remaining(lexer@, pos as nat), 0nat,
{
    let ghost entry = view_each(diagnostics@);
    let mut blocks: Vec<ConditionalBlock> = Vec::new();
    let mut at = pos;
    assert(view_each(blocks@) =~= Seq::empty());
    loop
        invariant
            pos <= at,
            entry == view_each(old(diagnostics)@),
            lexer@.kind_at(at as nat) == TokenKind::KeywordIf || lexer@.kind_at(at as nat)
                == TokenKind::KeywordElseIf,
            spec_conditional_blocks(lexer@, pos as nat, Seq::empty(), entry)
                == spec_conditional_blocks(
                lexer@,
                at as nat,
                view_each(blocks@),
                view_each(diagnostics@),
            ),
        decreases remaining(lexer@, at as nat),
    {
        let kind = lexer.kind_at(at);
        let (condition, pos1) = parse_primary_expression(lexer, at + 1);
        let condition = match condition {
            Ok(condition) => condition,
            Err(diagnostic) => {
                return (Err(diagnostic), pos1);
            },
        };
        if lexer.kind_at(pos1) != TokenKind::KeywordThen {
            return (Err(unexpected_token(lexer, pos1, TokenKind::KeywordThen)), pos1);
        }
        let (body, pos2) = parse_body(lexer, pos1 + 1, diagnostics);
        let block = ConditionalBlock { condition: Box::new(condition), body };
        proof {
            lemma_view_conditional_block(block);
            lemma_view_each_push(blocks@, block);
        }
        blocks.push(block);
        if lexer.kind_at(pos2) != TokenKind::KeywordElseIf {
            return (Ok(blocks), pos2);
        }
        at = pos2;
    }
}

/// An `IF` statement from `pos` on, where `IF` stands.
fn parse_if_statement(lexer: &TokenStream, pos: usize, diagnostics: &mut Vec<Diagnostic>) -> (result:
    (Result<Statement, Diagnostic>, usize))
    requires
        lexer@.kind_at(pos as nat) == TokenKind::KeywordIf,
    ensures
        (parsed_view(result).0, result.1 as nat, view_each(final(diagnostics)@))
            == spec_if_statement(lexer@, pos as nat, view_each(old(diagnostics)@)),
        pos <= result.1,
        result.0 is Ok ==> pos < result.1,
    decreases remaining(lexer@, pos as nat), 1nat,
{
    let (blocks, pos1) = parse_conditional_blocks(lexer, pos, diagnostics);
    let blocks = match blocks {
        Ok(blocks) => blocks,
        Err(diagnostic) => {
            return (Err(diagnostic), pos1);
        },
    };
    let mut else_block: Vec<Statement> = Vec::new();
    let mut pos2 = pos1;
    assert(view_each(else_block@) =~= Seq::empty());
    if lexer.kind_at(pos1) == TokenKind::KeywordElse {
        let (body, next) = parse_body(lexer, pos1 + 1, diagnostics);
        else_block = body;
        pos2 = next;
    }
    proof {
        lemma_view_if_statement(blocks, else_block);
    }
    let statement = Statement::IfStatement { blocks, else_block };
    if lexer.kind_at(pos2) == TokenKind::KeywordEndIf {
        (Ok(statement), pos2 + 1)
    } else {
        let diagnostic = unclosed_block(lexer, pos2, TokenKind::KeywordEndIf);
        proof {
            lemma_view_each_push(diagnostics@, diagnostic);
        }
        diagnostics.push(diagnostic);
        (Ok(statement), pos2)
    }
}

/// Whether the text is the word but for the case of its letters.
fn is_word_text(text: &str, word: &str) -> (result: bool)
    ensures
        result == is_word(text@, word@),
{
    let n = text.unicode_len();
    if n != word.unicode_len() {
        return false;
    }
    let mut i: usize = 0;
    while i < n
        invariant
            n == text@.len(),
            n == word@.len(),
            i <= n,
            forall|k: int|
                0 <= k < i ==> #[trigger] text@[k] == word@[k] || capital(text@[k], word@[k]),
        decreases n - i,
    {
        let c = text.get_char(i);
        let small = word.get_char(i);
        let same = c == small || ('a' <= small && small <= 'z' && 'A' <= c && c <= 'Z' && c as u32
            + 32 == small as u32);
        if !same {
            return false;
        }
        i += 1;
    }
    true
}

/// The type that a type name resolves to.
pub fn get_data_type(name: &str) -> (result: Type)
    ensures
        result == spec_data_type(name@),
{
    if is_word_text(name, "int") {
        Type::Primitive(PrimitiveType::Int)
    } else if is_word_text(name, "bool") {
        Type::Primitive(PrimitiveType::Bool)
    } else {
        Type::Custom
    }
}

/// The declaration of a variable from `pos` on, where its name stands.
fn parse_variable(lexer: &TokenStream, pos: usize) -> (result: (
    Result<Variable, Diagnostic>,
    usize,
))
    requires
        lexer@.kind_at(pos as nat) == TokenKind::Identifier,
    ensures
        (
            match result.0 {
                Ok(variable) => Ok(variable@),
                Err(diagnostic) => Err(diagnostic@),
            },
            result.1 as nat,
        ) == spec_variable(lexer@, pos as nat),
        pos < result.1,
{
    let (name, pos1) = slice_and_advance(lexer, pos);
    if lexer.kind_at(pos1) != TokenKind::KeywordColon {
        return (Err(unexpected_token(lexer, pos1, TokenKind::KeywordColon)), pos1);
    }
    let pos2 = pos1 + 1;
    if lexer.kind_at(pos2) != TokenKind::Identifier {
        return (Err(unexpected_token(lexer, pos2, TokenKind::Identifier)), pos2);
    }
    let (data_type_name, pos3) = slice_and_advance(lexer, pos2);
    if lexer.kind_at(pos3) != TokenKind::KeywordSemicolon {
        return (Err(unexpected_token(lexer, pos3, TokenKind::KeywordSemicolon)), pos3);
    }
    let data_type = get_data_type(data_type_name.as_str());
    (Ok(Variable { name, data_type_name, data_type }), pos3 + 1)
}

/// A variable block from `pos` on, where `VAR` stands. The diagnostics of
/// the declarations in error are added to `diagnostics`.
fn parse_variable_block(
    lexer: &TokenStream,
    pos: usize,
    diagnostics: &mut Vec<Diagnostic>,
) -> (result: (VariableBlock, usize))
    requires
        lexer@.kind_at(pos as nat) == TokenKind::KeywordVar,
    ensures
        (result.0@.variables, result.1 as nat, view_each(final(diagnostics)@)) == spec_variables(
            lexer@,
            (pos + 1) as nat,
            Seq::empty(),
            view_each(old(diagnostics)@),
        ),
        pos < result.1,
{
    let ghost entry = view_each(diagnostics@);
    let mut variables: Vec<Variable> = Vec::new();
    let mut at = lexer.advance(pos);
    assert(view_each(variables@) =~= Seq::empty());
    loop
        invariant
            pos < at,
            entry == view_each(old(diagnostics)@),
            spec_variables(lexer@, (pos + 1) as nat, Seq::empty(), entry) == spec_variables(
                lexer@,
                at as nat,
                view_each(variables@),
                view_each(diagnostics@),
            ),
        decreases remaining(lexer@, at as nat),
    {
        let kind = lexer.kind_at(at);
        if kind == TokenKind::Identifier {
            let (variable, pos1) = parse_variable(lexer, at);
            match variable {
                Ok(variable) => {
                    proof {
                        lemma_view_each_push(variables@, variable);
                    }
                    variables.push(variable);
                    at = pos1;
                },
                Err(diagnostic) => {
                    proof {
                        lemma_view_each_push(diagnostics@, diagnostic);
                    }
                    diagnostics.push(diagnostic);
                    at = recover(lexer, pos1);
                },
            }
        } else if kind == TokenKind::KeywordEndVar {
            return (VariableBlock { variables }, at + 1);
        } else {
            let diagnostic = unclosed_block(lexer, at, TokenKind::KeywordEndVar);
            proof {
                lemma_view_each_push(diagnostics@, diagnostic);
            }
            diagnostics.push(diagnostic);
            if kind.is_block_boundary() {
                return (VariableBlock { variables }, at);
            }
            at = recover(lexer, at);
        }
    }
}

/// A program from `pos` on, where `PROGRAM` stands. The diagnostics of what
/// is in error in it are added to `diagnostics`.
fn parse_program(lexer: &TokenStream, pos: usize, diagnostics: &mut Vec<Diagnostic>) -> (result: (
    Program,
    usize,
))
    requires
        lexer@.kind_at(pos as nat) == TokenKind::KeywordProgram,
    ensures
        (result.0@, result.1 as nat, view_each(final(diagnostics)@)) == spec_program(
            lexer@,
            pos as nat,
            view_each(old(diagnostics)@),
        ),
        pos < result.1,
{
    let ghost entry = view_each(diagnostics@);
    let mut result = create_program();
    let mut at = lexer.advance(pos);
    if lexer.kind_at(at) == TokenKind::Identifier {
        let (name, next) = slice_and_advance(lexer, at);
        result.name = name;
        at = next;
    } else {
        let diagnostic = unexpected_token(lexer, at, TokenKind::Identifier);
        proof {
            lemma_view_each_push(diagnostics@, diagnostic);
        }
        diagnostics.push(diagnostic);
    }
    let ghost pos1 = at;
    let ghost d1 = view_each(diagnostics@);
    assert(result@.variable_blocks =~= Seq::empty());
    while lexer.kind_at(at) == TokenKind::KeywordVar
        invariant
            pos < at,
            result.statements@.len() == 0,
            result.name@ == spec_program(lexer@, pos as nat, entry).0.name,
            spec_variable_blocks(lexer@, pos1 as nat, Seq::empty(), d1) == spec_variable_blocks(
                lexer@,
                at as nat,
                result@.variable_blocks,
                view_each(diagnostics@),
            ),
        decreases remaining(lexer@, at as nat),
    {
        let (block, next) = parse_variable_block(lexer, at, diagnostics);
        proof {
            lemma_view_each_push(result.variable_blocks@, block);
        }
        result.variable_blocks.push(block);
        at = next;
    }
    let (mut body, next) = parse_body(lexer, at, diagnostics);
    let ghost statements = view_each(body@);
    result.statements.append(&mut body);
    assert(view_each(result.statements@) =~= statements);
    at = next;
    if lexer.kind_at(at) == TokenKind::KeywordEndProgram {
        (result, at + 1)
    } else {
        let diagnostic = unclosed_block(lexer, at, TokenKind::KeywordEndProgram);
        proof {
            lemma_view_each_push(diagnostics@, diagnostic);
        }
        diagnostics.push(diagnostic);
        (result, at)
    }
}

/// The position of the next `PROGRAM` from `pos` on, or of the end of the input.
fn next_program(lexer: &TokenStream, pos: usize) -> (result: usize)
    ensures
        result == spec_next_program(lexer@, pos as nat),
        pos <= result,
{
    let mut at = pos;
    loop
        invariant
            pos <= at,
            spec_next_program(lexer@, pos as nat) == spec_next_program(lexer@, at as nat),
        decreases remaining(lexer@, at as nat),
    {
        let kind = lexer.kind_at(at);
        if kind == TokenKind::KeywordProgram || kind == TokenKind::End {
            return at;
        }
        at += 1;
    }
}

/// The diagnostic for the token at `pos`, where a program should start.
fn no_program(lexer: &TokenStream, pos: usize) -> (result: Diagnostic)
    ensures
        result@ == spec_no_program(lexer@, pos as nat),
{
    if lexer.kind_at(pos) == TokenKind::Error {
        unidentified_token(lexer, pos)
    } else {
        Diagnostic::unexpected_token_found(
            "StartKeyword",
            lexer.slice_at(pos),
            lexer.range_at(pos),
        )
    }
}

/// Parses the tokens of a source text. Returns its programs, in source
/// order, and the diagnostics for what is no program, in the order in which
/// the parser meets it.
pub fn parse(lexer: TokenStream) -> (result: (CompilationUnit, Vec<Diagnostic>))
    ensures
        (result.0@, view_each(result.1@)) == spec_parse(lexer@),
{
    let mut unit = CompilationUnit { units: Vec::new() };
    let mut diagnostics: Vec<Diagnostic> = Vec::new();
    let mut at: usize = 0;
    assert(view_each(unit.units@) =~= Seq::empty());
    assert(view_each(diagnostics@) =~= Seq::empty());
    loop
        invariant
            spec_units(lexer@, 0, Seq::empty(), Seq::empty()) == spec_units(
                lexer@,
                at as nat,
                view_each(unit.units@),
                view_each(diagnostics@),
            ),
        decreases remaining(lexer@, at as nat),
    {
        let kind = lexer.kind_at(at);
        if kind == TokenKind::End {
            return (unit, diagnostics);
        } else if kind == TokenKind::KeywordProgram {
            let (program, next) = parse_program(&lexer, at, &mut diagnostics);
            proof {
                lemma_view_each_push(unit.units@, program);
            }
            unit.units.push(program);
            at = next;
        } else {
            let diagnostic = no_program(&lexer, at);
            proof {
                lemma_view_each_push(diagnostics@, diagnostic);
            }
            diagnostics.push(diagnostic);
            at = next_program(&lexer, at + 1);
        }
    }
}

} // verus!
