//! The grammar as functions of the token stream: what each parser of the
//! module above returns.

use vstd::prelude::*;
use crate::ast::{
    ConditionalBlockView,
    CompilationUnitView,
    Operator,
    PrimitiveType,
    ProgramView,
    StatementView,
    Type,
    VariableBlockView,
    VariableView,
};
use crate::diagnostic::{quoted, unexpected_token_found, unidentified_token, DiagnosticView};
use crate::token::{TokenKind, TokenStreamView};

verus! {

/// An expression, or the diagnostic for the first error in it.
pub type Parsed = Result<StatementView, DiagnosticView>;

/// The loosest step of the binary operators: `=` and `<>`.
pub open spec fn equality_step() -> nat {
    5
}

/// The operator of the given step that a token of the given kind stands for.
/// The steps are, from tight to loose: 1 for `AND` `OR` `XOR`, 2 for `*` `/`
/// `MOD`, 3 for `+` `-`, 4 for `<` `>` `<=` `>=`, and 5 for `=` `<>`.
pub open spec fn binary_operator(step: nat, kind: TokenKind) -> Option<Operator> {
    if step == 1 {
        match kind {
            TokenKind::OperatorAnd => Some(Operator::And),
            TokenKind::OperatorOr => Some(Operator::Or),
            TokenKind::OperatorXor => Some(Operator::Xor),
            _ => None,
        }
    } else if step == 2 {
        match kind {
            TokenKind::OperatorMultiplication => Some(Operator::Multiplication),
            TokenKind::OperatorDivision => Some(Operator::Division),
            TokenKind::OperatorModulo => Some(Operator::Modulo),
            _ => None,
        }
    } else if step == 3 {
        match kind {
            TokenKind::OperatorPlus => Some(Operator::Plus),
            TokenKind::OperatorMinus => Some(Operator::Minus),
            _ => None,
        }
    } else if step == 4 {
        match kind {
            TokenKind::OperatorLess => Some(Operator::Less),
            TokenKind::OperatorGreater => Some(Operator::Greater),
            TokenKind::OperatorLessOrEqual => Some(Operator::LessOrEqual),
            TokenKind::OperatorGreaterOrEqual => Some(Operator::GreaterOrEqual),
            _ => None,
        }
    } else if step == 5 {
        match kind {
            TokenKind::OperatorEqual => Some(Operator::Equal),
            TokenKind::OperatorNotEqual => Some(Operator::NotEqual),
            _ => None,
        }
    } else {
        None
    }
}

/// The operator in front of an operand that a token of the given kind stands for.
pub open spec fn unary_operator(kind: TokenKind) -> Option<Operator> {
    match kind {
        TokenKind::OperatorNot => Some(Operator::Not),
        TokenKind::OperatorMinus => Some(Operator::Minus),
        _ => None,
    }
}

/// The number of tokens from `pos` to the end of the input.
pub open spec fn remaining(ts: TokenStreamView, pos: nat) -> nat {
    if pos <= ts.len() {
        (ts.len() - pos) as nat
    } else {
        0
    }
}

/// Whether a parser that stood at `pos`, in front of a token, stands behind
/// it at `next`. Every parser that has read a token does, as the laws at the
/// end of this module show; the parsers ask for it where they read on, so
/// that they are seen to end.
pub open spec fn proceeds(ts: TokenStreamView, pos: nat, next: nat) -> bool {
    pos < ts.len() && pos < next
}

/// The diagnostic for the token at `pos`, where a token of the kind `expected` should stand.
pub open spec fn spec_unexpected_token(
    ts: TokenStreamView,
    pos: nat,
    expected: TokenKind,
) -> DiagnosticView {
    unexpected_token_found(expected.spec_name(), ts.slice_at(pos), ts.range_at(pos))
}

/// The diagnostic for the token at `pos`, where the keyword of the kind
/// `expected` should close a block.
pub open spec fn spec_unclosed_block(
    ts: TokenStreamView,
    pos: nat,
    expected: TokenKind,
) -> DiagnosticView {
    unexpected_token_found(expected.spec_name(), quoted(ts.slice_at(pos)), ts.range_at(pos))
}

/// The diagnostic for the token at `pos`, where an expression should start.
pub open spec fn spec_no_expression(ts: TokenStreamView, pos: nat) -> DiagnosticView {
    if ts.kind_at(pos) == TokenKind::Error {
        unidentified_token(ts.slice_at(pos), ts.range_at(pos))
    } else {
        unexpected_token_found("Literal"@, ts.slice_at(pos), ts.range_at(pos))
    }
}

/// The leaf that the token at `pos` is: a reference or a literal.
pub open spec fn spec_leaf(ts: TokenStreamView, pos: nat) -> Option<StatementView> {
    match ts.kind_at(pos) {
        TokenKind::Identifier => Some(StatementView::Reference { name: ts.slice_at(pos) }),
        TokenKind::LiteralNumber => Some(StatementView::LiteralNumber { value: ts.slice_at(pos) }),
        TokenKind::LiteralReal => Some(StatementView::LiteralReal { value: ts.slice_at(pos) }),
        TokenKind::LiteralTrue => Some(StatementView::LiteralBool { value: true }),
        TokenKind::LiteralFalse => Some(StatementView::LiteralBool { value: false }),
        _ => None,
    }
}

/// A whole expression from `pos` on, and the position behind it.
pub open spec fn spec_primary_expression(ts: TokenStreamView, pos: nat) -> (Parsed, nat)
    decreases remaining(ts, pos), 9nat,
{
    spec_binary_expression(ts, pos, equality_step())
}

/// An expression of the given step from `pos` on: an operand of the next
/// tighter step and, where an operator of the step follows it, that operator
/// and an expression of the same step. The operand of the tightest step is an
/// expression in parentheses or without them.
pub open spec fn spec_binary_expression(ts: TokenStreamView, pos: nat, step: nat) -> (Parsed, nat)
    decreases remaining(ts, pos), 3 + step,
{
    if step == 0 || step > equality_step() {
        spec_parenthesized_expression(ts, pos)
    } else {
        let (left, pos1) = spec_binary_expression(ts, pos, (step - 1) as nat);
        match (left, binary_operator(step, ts.kind_at(pos1))) {
            (Ok(l), Some(operator)) => if proceeds(ts, pos, pos1 + 1) {
                let (right, pos2) = spec_binary_expression(ts, pos1 + 1, step);
                match right {
                    Ok(r) => (
                        Ok(
                            StatementView::BinaryExpression {
                                operator,
                                left: Box::new(l),
                                right: Box::new(r),
                            },
                        ),
                        pos2,
                    ),
                    Err(diagnostic) => (Err(diagnostic), pos2),
                }
            } else {
                (left, pos1)
            },
            _ => (left, pos1),
        }
    }
}

/// A whole expression in parentheses, which stands for the expression
/// itself, or an operand without parentheses.
pub open spec fn spec_parenthesized_expression(ts: TokenStreamView, pos: nat) -> (Parsed, nat)
    decreases remaining(ts, pos), 2nat,
{
    if ts.kind_at(pos) == TokenKind::KeywordParensOpen {
        let (inner, pos1) = spec_primary_expression(ts, pos + 1);
        match inner {
            Ok(expression) => if ts.kind_at(pos1) == TokenKind::KeywordParensClose {
                (Ok(expression), pos1 + 1)
            } else {
                (Err(spec_unexpected_token(ts, pos1, TokenKind::KeywordParensClose)), pos1)
            },
            Err(diagnostic) => (Err(diagnostic), pos1),
        }
    } else {
        spec_unary_expression(ts, pos)
    }
}

/// `NOT` or `-` in front of an operand, or a leaf.
pub open spec fn spec_unary_expression(ts: TokenStreamView, pos: nat) -> (Parsed, nat)
    decreases remaining(ts, pos), 1nat,
{
    match unary_operator(ts.kind_at(pos)) {
        Some(operator) => {
            let (value, pos1) = spec_parenthesized_expression(ts, pos + 1);
            match value {
                Ok(v) => (Ok(StatementView::UnaryExpression { operator, value: Box::new(v) }), pos1),
                Err(diagnostic) => (Err(diagnostic), pos1),
            }
        },
        None => spec_leaf_expression(ts, pos),
    }
}

/// A reference or a literal and, where `:=` follows it, the assignment of a
/// whole expression to it.
pub open spec fn spec_leaf_expression(ts: TokenStreamView, pos: nat) -> (Parsed, nat)
    decreases remaining(ts, pos), 0nat,
{
    match spec_leaf(ts, pos) {
        Some(leaf) => if ts.kind_at(pos + 1) == TokenKind::KeywordAssignment {
            let (right, pos1) = spec_primary_expression(ts, pos + 2);
            match right {
                Ok(r) => (
                    Ok(StatementView::Assignment { left: Box::new(leaf), right: Box::new(r) }),
                    pos1,
                ),
                Err(diagnostic) => (Err(diagnostic), pos1),
            }
        } else {
            (Ok(leaf), pos + 1)
        },
        None => (Err(spec_no_expression(ts, pos)), pos),
    }
}

/// The position at which the parser reads on after an error at `pos`: behind
/// the next `;`, or in front of the next token that bounds a block.
pub open spec fn spec_recover(ts: TokenStreamView, pos: nat) -> nat
    decreases remaining(ts, pos),
{
    if ts.kind_at(pos).spec_is_block_boundary() {
        pos
    } else if ts.kind_at(pos) == TokenKind::KeywordSemicolon {
        pos + 1
    } else {
        spec_recover(ts, pos + 1)
    }
}

/// An expression with `;` behind it.
pub open spec fn spec_statement(ts: TokenStreamView, pos: nat) -> (Parsed, nat) {
    let (result, pos1) = spec_primary_expression(ts, pos);
    match result {
        Ok(expression) => if ts.kind_at(pos1) == TokenKind::KeywordSemicolon {
            (Ok(expression), pos1 + 1)
        } else {
            (Err(spec_unexpected_token(ts, pos1, TokenKind::KeywordSemicolon)), pos1)
        },
        Err(diagnostic) => (Err(diagnostic), pos1),
    }
}

/// A statement from `pos` on: an `IF` statement or an expression with `;`.
/// The diagnostics of the statements inside it come behind `diagnostics`; its
/// own error, if it is in error, is the result.
pub open spec fn spec_control_statement(
    ts: TokenStreamView,
    pos: nat,
    diagnostics: Seq<DiagnosticView>,
) -> (Parsed, nat, Seq<DiagnosticView>)
    decreases remaining(ts, pos), 2nat,
{
    if ts.kind_at(pos) == TokenKind::KeywordIf {
        spec_if_statement(ts, pos, diagnostics)
    } else {
        let (result, pos1) = spec_statement(ts, pos);
        (result, pos1, diagnostics)
    }
}

/// The statements from `pos` up to the next token that bounds a block, behind
/// `statements`. A statement in error is left out: its diagnostic comes behind
/// `diagnostics`, and the parser reads on where [`spec_recover`] says.
pub open spec fn spec_body(
    ts: TokenStreamView,
    pos: nat,
    statements: Seq<StatementView>,
    diagnostics: Seq<DiagnosticView>,
) -> (Seq<StatementView>, nat, Seq<DiagnosticView>)
    decreases remaining(ts, pos), 3nat,
{
    if ts.kind_at(pos).spec_is_block_boundary() {
        (statements, pos, diagnostics)
    } else {
        let (result, pos1, d1) = spec_control_statement(ts, pos, diagnostics);
        match result {
            Ok(statement) => if proceeds(ts, pos, pos1) {
                spec_body(ts, pos1, statements.push(statement), d1)
            } else {
                (statements.push(statement), pos1, d1)
            },
            Err(diagnostic) => {
                let pos2 = spec_recover(ts, pos1);
                if proceeds(ts, pos, pos2) {
                    spec_body(ts, pos2, statements, d1.push(diagnostic))
                } else {
                    (statements, pos2, d1.push(diagnostic))
                }
            },
        }
    }
}

/// The conditional blocks of an `IF` statement from `pos` on, where `IF` or
/// `ELSIF` stands, behind `blocks`: a condition, `THEN`, a body, and the
/// blocks of the `ELSIF`s that follow.
pub open spec fn spec_conditional_blocks(
    ts: TokenStreamView,
    pos: nat,
    blocks: Seq<ConditionalBlockView>,
    diagnostics: Seq<DiagnosticView>,
) -> (Result<Seq<ConditionalBlockView>, DiagnosticView>, nat, Seq<DiagnosticView>)
    decreases remaining(ts, pos), 0nat,
{
    let (condition, pos1) = spec_primary_expression(ts, pos + 1);
    match condition {
        Ok(c) => if ts.kind_at(pos1) != TokenKind::KeywordThen {
            (Err(spec_unexpected_token(ts, pos1, TokenKind::KeywordThen)), pos1, diagnostics)
        } else if !proceeds(ts, pos, pos1) {
            (Ok(blocks), pos1, diagnostics)
        } else {
            let (body, pos2, d2) = spec_body(ts, pos1 + 1, Seq::empty(), diagnostics);
            let more = blocks.push(ConditionalBlockView { condition: c, body });
            if ts.kind_at(pos2) == TokenKind::KeywordElseIf && proceeds(ts, pos, pos2) {
                spec_conditional_blocks(ts, pos2, more, d2)
            } else {
                (Ok(more), pos2, d2)
            }
        },
        Err(diagnostic) => (Err(diagnostic), pos1, diagnostics),
    }
}

/// An `IF` statement from `pos` on, where `IF` stands: its conditional
/// blocks, the body behind `ELSE` where there is one, and `END_IF`. Where
/// `END_IF` is missing, that is reported and the statement stands as it is.
pub open spec fn spec_if_statement(
    ts: TokenStreamView,
    pos: nat,
    diagnostics: Seq<DiagnosticView>,
) -> (Parsed, nat, Seq<DiagnosticView>)
    decreases remaining(ts, pos), 1nat,
{
    let (blocks, pos1, d1) = spec_conditional_blocks(ts, pos, Seq::empty(), diagnostics);
    match blocks {
        Ok(blocks) => {
            let (else_block, pos2, d2) = if ts.kind_at(pos1) == TokenKind::KeywordElse && proceeds(
                ts,
                pos,
                pos1,
            ) {
                spec_body(ts, pos1 + 1, Seq::empty(), d1)
            } else {
                (Seq::empty(), pos1, d1)
            };
            let statement = StatementView::IfStatement { blocks, else_block };
            if ts.kind_at(pos2) == TokenKind::KeywordEndIf {
                (Ok(statement), pos2 + 1, d2)
            } else {
                (Ok(statement), pos2, d2.push(spec_unclosed_block(ts, pos2, TokenKind::KeywordEndIf)))
            }
        },
        Err(diagnostic) => (Err(diagnostic), pos1, d1),
    }
}

/// Whether the first text is the second one but for the case of its letters.
/// The second text is made of small letters.
pub open spec fn is_word(text: Seq<char>, word: Seq<char>) -> bool {
    &&& text.len() == word.len()
    &&& forall|i: int|
        0 <= i < text.len() ==> #[trigger] text[i] == word[i] || capital(text[i], word[i])
}

/// Whether `c` is the capital of the small letter `small`.
pub open spec fn capital(c: char, small: char) -> bool {
    'a' <= small && small <= 'z' && 'A' <= c && c <= 'Z' && c as u32 + 32 == small as u32
}

/// The type that a type name resolves to: `INT` and `BOOL`, in any case of
/// their letters, are primitive types, and every other name is a custom type.
pub open spec fn spec_data_type(name: Seq<char>) -> Type {
    if is_word(name, "int"@) {
        Type::Primitive(PrimitiveType::Int)
    } else if is_word(name, "bool"@) {
        Type::Primitive(PrimitiveType::Bool)
    } else {
        Type::Custom
    }
}

/// The declaration of a variable from `pos` on, where its name stands: the
/// name, `:`, the name of the type, and `;`.
pub open spec fn spec_variable(ts: TokenStreamView, pos: nat) -> (
    Result<VariableView, DiagnosticView>,
    nat,
) {
    if ts.kind_at(pos + 1) != TokenKind::KeywordColon {
        (Err(spec_unexpected_token(ts, pos + 1, TokenKind::KeywordColon)), pos + 1)
    } else if ts.kind_at(pos + 2) != TokenKind::Identifier {
        (Err(spec_unexpected_token(ts, pos + 2, TokenKind::Identifier)), pos + 2)
    } else if ts.kind_at(pos + 3) != TokenKind::KeywordSemicolon {
        (Err(spec_unexpected_token(ts, pos + 3, TokenKind::KeywordSemicolon)), pos + 3)
    } else {
        (
            Ok(
                VariableView {
                    name: ts.slice_at(pos),
                    data_type_name: ts.slice_at(pos + 2),
                    data_type: spec_data_type(ts.slice_at(pos + 2)),
                },
            ),
            pos + 4,
        )
    }
}

/// The declarations of a variable block from `pos` up to `END_VAR`, behind
/// `variables`. A declaration in error is left out and reported. A token
/// that starts no declaration is reported as standing in the place of
/// `END_VAR`; where it bounds a block, the variable block ends in front of it.
pub open spec fn spec_variables(
    ts: TokenStreamView,
    pos: nat,
    variables: Seq<VariableView>,
    diagnostics: Seq<DiagnosticView>,
) -> (Seq<VariableView>, nat, Seq<DiagnosticView>)
    decreases remaining(ts, pos),
{
    if ts.kind_at(pos) == TokenKind::Identifier {
        let (variable, pos1) = spec_variable(ts, pos);
        match variable {
            Ok(v) => spec_variables(ts, pos1, variables.push(v), diagnostics),
            Err(diagnostic) => {
                let pos2 = spec_recover(ts, pos1);
                if proceeds(ts, pos, pos2) {
                    spec_variables(ts, pos2, variables, diagnostics.push(diagnostic))
                } else {
                    (variables, pos2, diagnostics.push(diagnostic))
                }
            },
        }
    } else if ts.kind_at(pos) == TokenKind::KeywordEndVar {
        (variables, pos + 1, diagnostics)
    } else {
        let reported = diagnostics.push(spec_unclosed_block(ts, pos, TokenKind::KeywordEndVar));
        let pos1 = spec_recover(ts, pos);
        if ts.kind_at(pos).spec_is_block_boundary() || !proceeds(ts, pos, pos1) {
            (variables, pos, reported)
        } else {
            spec_variables(ts, pos1, variables, reported)
        }
    }
}

/// The variable blocks from `pos` on, behind `blocks`: as long as `VAR`
/// stands there, the declarations behind it.
pub open spec fn spec_variable_blocks(
    ts: TokenStreamView,
    pos: nat,
    blocks: Seq<VariableBlockView>,
    diagnostics: Seq<DiagnosticView>,
) -> (Seq<VariableBlockView>, nat, Seq<DiagnosticView>)
    decreases remaining(ts, pos),
{
    if ts.kind_at(pos) == TokenKind::KeywordVar {
        let (variables, pos1, d1) = spec_variables(ts, pos + 1, Seq::empty(), diagnostics);
        let more = blocks.push(VariableBlockView { variables });
        if proceeds(ts, pos, pos1) {
            spec_variable_blocks(ts, pos1, more, d1)
        } else {
            (more, pos1, d1)
        }
    } else {
        (blocks, pos, diagnostics)
    }
}

/// A program from `pos` on, where `PROGRAM` stands: its name, its variable
/// blocks, its statements, and `END_PROGRAM`. Without a name it has the empty
/// name, and that is reported; without `END_PROGRAM` it ends where its
/// statements end, and that is reported.
pub open spec fn spec_program(ts: TokenStreamView, pos: nat, diagnostics: Seq<DiagnosticView>) -> (
    ProgramView,
    nat,
    Seq<DiagnosticView>,
) {
    let (name, pos1, d1) = if ts.kind_at(pos + 1) == TokenKind::Identifier {
        (ts.slice_at(pos + 1), pos + 2, diagnostics)
    } else {
        (
            Seq::empty(),
            pos + 1,
            diagnostics.push(spec_unexpected_token(ts, pos + 1, TokenKind::Identifier)),
        )
    };
    let (variable_blocks, pos2, d2) = spec_variable_blocks(ts, pos1, Seq::empty(), d1);
    let (statements, pos3, d3) = spec_body(ts, pos2, Seq::empty(), d2);
    let program = ProgramView { name, variable_blocks, statements };
    if ts.kind_at(pos3) == TokenKind::KeywordEndProgram {
        (program, pos3 + 1, d3)
    } else {
        (program, pos3, d3.push(spec_unclosed_block(ts, pos3, TokenKind::KeywordEndProgram)))
    }
}

/// The position of the next `PROGRAM` from `pos` on, or of the end of the input.
pub open spec fn spec_next_program(ts: TokenStreamView, pos: nat) -> nat
    decreases remaining(ts, pos),
{
    if ts.kind_at(pos) == TokenKind::KeywordProgram || ts.kind_at(pos) == TokenKind::End {
        pos
    } else {
        spec_next_program(ts, pos + 1)
    }
}

/// The diagnostic for the token at `pos`, where a program should start.
pub open spec fn spec_no_program(ts: TokenStreamView, pos: nat) -> DiagnosticView {
    if ts.kind_at(pos) == TokenKind::Error {
        unidentified_token(ts.slice_at(pos), ts.range_at(pos))
    } else {
        unexpected_token_found("StartKeyword"@, ts.slice_at(pos), ts.range_at(pos))
    }
}

/// The programs from `pos` to the end of the input, behind `units`. A token
/// that starts no program is reported, and the parser reads on at the next
/// `PROGRAM`.
pub open spec fn spec_units(
    ts: TokenStreamView,
    pos: nat,
    units: Seq<ProgramView>,
    diagnostics: Seq<DiagnosticView>,
) -> (Seq<ProgramView>, Seq<DiagnosticView>)
    decreases remaining(ts, pos),
{
    if ts.kind_at(pos) == TokenKind::End {
        (units, diagnostics)
    } else if ts.kind_at(pos) == TokenKind::KeywordProgram {
        let (program, pos1, d1) = spec_program(ts, pos, diagnostics);
        if proceeds(ts, pos, pos1) {
            spec_units(ts, pos1, units.push(program), d1)
        } else {
            (units.push(program), d1)
        }
    } else {
        let pos1 = spec_next_program(ts, pos + 1);
        let reported = diagnostics.push(spec_no_program(ts, pos));
        if proceeds(ts, pos, pos1) {
            spec_units(ts, pos1, units, reported)
        } else {
            (units, reported)
        }
    }
}

/// The programs of the token stream, in source order, and the diagnostics
/// for what is no program, in the order in which the parser meets it.
pub open spec fn spec_parse(ts: TokenStreamView) -> (CompilationUnitView, Seq<DiagnosticView>) {
    let (units, diagnostics) = spec_units(ts, 0, Seq::empty(), Seq::empty());
    (CompilationUnitView { units }, diagnostics)
}

/// Whether a parser that started at `pos` and ended as `outcome` says has
/// not gone back, and has read a token at least if it has not failed.
pub open spec fn moves_on(ts: TokenStreamView, pos: nat, outcome: (Parsed, nat)) -> bool {
    pos <= outcome.1 && (outcome.0 is Ok ==> proceeds(ts, pos, outcome.1))
}

/// A whole expression is at least one token long, and no parser of
/// expressions goes back.
pub proof fn lemma_primary_expression_moves_on(ts: TokenStreamView, pos: nat)
    ensures
        moves_on(ts, pos, spec_primary_expression(ts, pos)),
    decreases remaining(ts, pos), 9nat,
{
    lemma_binary_expression_moves_on(ts, pos, equality_step());
}

/// An expression of any step is at least one token long.
pub proof fn lemma_binary_expression_moves_on(ts: TokenStreamView, pos: nat, step: nat)
    ensures
        moves_on(ts, pos, spec_binary_expression(ts, pos, step)),
    decreases remaining(ts, pos), 3 + step,
{
    if step == 0 || step > equality_step() {
        lemma_parenthesized_expression_moves_on(ts, pos);
    } else {
        lemma_binary_expression_moves_on(ts, pos, (step - 1) as nat);
        let (left, pos1) = spec_binary_expression(ts, pos, (step - 1) as nat);
        if left is Ok && binary_operator(step, ts.kind_at(pos1)) is Some {
            lemma_binary_expression_moves_on(ts, pos1 + 1, step);
        }
    }
}

/// An operand is at least one token long.
pub proof fn lemma_parenthesized_expression_moves_on(ts: TokenStreamView, pos: nat)
    ensures
        moves_on(ts, pos, spec_parenthesized_expression(ts, pos)),
    decreases remaining(ts, pos), 2nat,
{
    if ts.kind_at(pos) == TokenKind::KeywordParensOpen {
        lemma_primary_expression_moves_on(ts, pos + 1);
    } else {
        lemma_unary_expression_moves_on(ts, pos);
    }
}

/// An operand with `NOT` or `-` in front of it or without is at least one
/// token long.
pub proof fn lemma_unary_expression_moves_on(ts: TokenStreamView, pos: nat)
    ensures
        moves_on(ts, pos, spec_unary_expression(ts, pos)),
    decreases remaining(ts, pos), 1nat,
{
    if unary_operator(ts.kind_at(pos)) is Some {
        lemma_parenthesized_expression_moves_on(ts, pos + 1);
    } else {
        lemma_leaf_expression_moves_on(ts, pos);
    }
}

/// A leaf is one token long, and more with an assignment.
pub proof fn lemma_leaf_expression_moves_on(ts: TokenStreamView, pos: nat)
    ensures
        moves_on(ts, pos, spec_leaf_expression(ts, pos)),
    decreases remaining(ts, pos), 0nat,
{
    if spec_leaf(ts, pos) is Some && ts.kind_at(pos + 1) == TokenKind::KeywordAssignment {
        lemma_primary_expression_moves_on(ts, pos + 2);
    }
}

/// After an error the parser does not go back, and it reads on behind the
/// token of the error unless that token bounds a block.
pub proof fn lemma_recover_moves_on(ts: TokenStreamView, pos: nat)
    ensures
        pos <= spec_recover(ts, pos),
        !ts.kind_at(pos).spec_is_block_boundary() ==> proceeds(ts, pos, spec_recover(ts, pos)),
        ts.kind_at(spec_recover(ts, pos)).spec_is_block_boundary() || spec_recover(ts, pos) > 0
            && ts.kind_at((spec_recover(ts, pos) - 1) as nat) == TokenKind::KeywordSemicolon,
    decreases remaining(ts, pos),
{
    if !ts.kind_at(pos).spec_is_block_boundary() && ts.kind_at(pos)
        != TokenKind::KeywordSemicolon {
        lemma_recover_moves_on(ts, pos + 1);
    }
}

/// Operators of one step nest to the right: an operand, an operator of the
/// step and an expression of the same step are the binary expression of the
/// three, whatever the expression to the right is made of.
pub proof fn lemma_binary_expression_nests_right(ts: TokenStreamView, pos: nat, step: nat)
    requires
        1 <= step <= equality_step(),
        spec_binary_expression(ts, pos, (step - 1) as nat).0 is Ok,
        binary_operator(
            step,
            ts.kind_at(spec_binary_expression(ts, pos, (step - 1) as nat).1),
        ) is Some,
        spec_binary_expression(
            ts,
            spec_binary_expression(ts, pos, (step - 1) as nat).1 + 1,
            step,
        ).0 is Ok,
    ensures
        ({
            let (left, pos1) = spec_binary_expression(ts, pos, (step - 1) as nat);
            let (right, pos2) = spec_binary_expression(ts, pos1 + 1, step);
            spec_binary_expression(ts, pos, step) == (
                Ok::<StatementView, DiagnosticView>(
                    StatementView::BinaryExpression {
                        operator: binary_operator(step, ts.kind_at(pos1))->Some_0,
                        left: Box::new(left->Ok_0),
                        right: Box::new(right->Ok_0),
                    },
                ),
                pos2,
            )
        }),
{
    lemma_binary_expression_moves_on(ts, pos, (step - 1) as nat);
}

/// Parentheses leave no trace: an expression between `(` and `)` is parsed
/// to what the expression alone is parsed to.
pub proof fn lemma_parentheses_leave_no_trace(ts: TokenStreamView, pos: nat)
    requires
        ts.kind_at(pos) == TokenKind::KeywordParensOpen,
        spec_primary_expression(ts, pos + 1).0 is Ok,
        ts.kind_at(spec_primary_expression(ts, pos + 1).1) == TokenKind::KeywordParensClose,
    ensures
        spec_parenthesized_expression(ts, pos) == (
            spec_primary_expression(ts, pos + 1).0,
            spec_primary_expression(ts, pos + 1).1 + 1,
        ),
{
}

/// A body ends in front of a token that bounds a block, and the parser of a
/// body does not go back. So every body, every `IF` statement and every
/// program is read to its end or to the end of the input.
pub proof fn lemma_body_ends_at_boundary(
    ts: TokenStreamView,
    pos: nat,
    statements: Seq<StatementView>,
    diagnostics: Seq<DiagnosticView>,
)
    ensures
        pos <= spec_body(ts, pos, statements, diagnostics).1,
        ts.kind_at(spec_body(ts, pos, statements, diagnostics).1).spec_is_block_boundary(),
    decreases remaining(ts, pos), 3nat,
{
    if !ts.kind_at(pos).spec_is_block_boundary() {
        lemma_control_statement_moves_on(ts, pos, diagnostics);
        let (result, pos1, d1) = spec_control_statement(ts, pos, diagnostics);
        match result {
            Ok(statement) => {
                lemma_body_ends_at_boundary(ts, pos1, statements.push(statement), d1);
            },
            Err(diagnostic) => {
                lemma_recover_moves_on(ts, pos1);
                lemma_body_ends_at_boundary(
                    ts,
                    spec_recover(ts, pos1),
                    statements,
                    d1.push(diagnostic),
                );
            },
        }
    }
}

/// A statement is at least one token long, and its parser does not go back.
pub proof fn lemma_control_statement_moves_on(
    ts: TokenStreamView,
    pos: nat,
    diagnostics: Seq<DiagnosticView>,
)
    ensures
        moves_on(
            ts,
            pos,
            (
                spec_control_statement(ts, pos, diagnostics).0,
                spec_control_statement(ts, pos, diagnostics).1,
            ),
        ),
    decreases remaining(ts, pos), 2nat,
{
    if ts.kind_at(pos) == TokenKind::KeywordIf {
        lemma_conditional_blocks_move_on(ts, pos, Seq::empty(), diagnostics);
        let (blocks, pos1, d1) = spec_conditional_blocks(ts, pos, Seq::empty(), diagnostics);
        if blocks is Ok && ts.kind_at(pos1) == TokenKind::KeywordElse {
            lemma_body_ends_at_boundary(ts, pos1 + 1, Seq::empty(), d1);
        }
    } else {
        lemma_primary_expression_moves_on(ts, pos);
    }
}

/// The conditional blocks of an `IF` statement are at least three tokens
/// long, and their parser does not go back.
pub proof fn lemma_conditional_blocks_move_on(
    ts: TokenStreamView,
    pos: nat,
    blocks: Seq<ConditionalBlockView>,
    diagnostics: Seq<DiagnosticView>,
)
    requires
        ts.kind_at(pos) == TokenKind::KeywordIf || ts.kind_at(pos) == TokenKind::KeywordElseIf,
    ensures
        pos <= spec_conditional_blocks(ts, pos, blocks, diagnostics).1,
        spec_conditional_blocks(ts, pos, blocks, diagnostics).0 is Ok ==> pos
            < spec_conditional_blocks(ts, pos, blocks, diagnostics).1,
    decreases remaining(ts, pos), 0nat,
{
    lemma_primary_expression_moves_on(ts, pos + 1);
    let (condition, pos1) = spec_primary_expression(ts, pos + 1);
    match condition {
        Ok(c) => {
            if ts.kind_at(pos1) == TokenKind::KeywordThen {
                lemma_body_ends_at_boundary(ts, pos1 + 1, Seq::empty(), diagnostics);
                let (body, pos2, d2) = spec_body(ts, pos1 + 1, Seq::empty(), diagnostics);
                if ts.kind_at(pos2) == TokenKind::KeywordElseIf {
                    lemma_conditional_blocks_move_on(
                        ts,
                        pos2,
                        blocks.push(ConditionalBlockView { condition: c, body }),
                        d2,
                    );
                }
            }
        },
        Err(_) => {},
    }
}

/// The parser of the declarations of a variable block does not go back.
pub proof fn lemma_variables_move_on(
    ts: TokenStreamView,
    pos: nat,
    variables: Seq<VariableView>,
    diagnostics: Seq<DiagnosticView>,
)
    ensures
        pos <= spec_variables(ts, pos, variables, diagnostics).1,
    decreases remaining(ts, pos),
{
    if ts.kind_at(pos) == TokenKind::Identifier {
        let (variable, pos1) = spec_variable(ts, pos);
        match variable {
            Ok(v) => {
                lemma_variables_move_on(ts, pos1, variables.push(v), diagnostics);
            },
            Err(diagnostic) => {
                lemma_recover_moves_on(ts, pos1);
                lemma_variables_move_on(
                    ts,
                    spec_recover(ts, pos1),
                    variables,
                    diagnostics.push(diagnostic),
                );
            },
        }
    } else if ts.kind_at(pos) != TokenKind::KeywordEndVar {
        lemma_recover_moves_on(ts, pos);
        if !ts.kind_at(pos).spec_is_block_boundary() {
            lemma_variables_move_on(
                ts,
                spec_recover(ts, pos),
                variables,
                diagnostics.push(spec_unclosed_block(ts, pos, TokenKind::KeywordEndVar)),
            );
        }
    }
}

/// The parser of variable blocks does not go back.
pub proof fn lemma_variable_blocks_move_on(
    ts: TokenStreamView,
    pos: nat,
    blocks: Seq<VariableBlockView>,
    diagnostics: Seq<DiagnosticView>,
)
    ensures
        pos <= spec_variable_blocks(ts, pos, blocks, diagnostics).1,
    decreases remaining(ts, pos),
{
    if ts.kind_at(pos) == TokenKind::KeywordVar {
        lemma_variables_move_on(ts, pos + 1, Seq::empty(), diagnostics);
        let (variables, pos1, d1) = spec_variables(ts, pos + 1, Seq::empty(), diagnostics);
        lemma_variable_blocks_move_on(
            ts,
            pos1,
            blocks.push(VariableBlockView { variables }),
            d1,
        );
    }
}

/// A program is at least one token long: the parser of programs reads on
/// behind `PROGRAM`, so that it comes to the end of the input.
pub proof fn lemma_program_moves_on(
    ts: TokenStreamView,
    pos: nat,
    diagnostics: Seq<DiagnosticView>,
)
    requires
        ts.kind_at(pos) == TokenKind::KeywordProgram,
    ensures
        proceeds(ts, pos, spec_program(ts, pos, diagnostics).1),
{
    let (name, pos1, d1) = if ts.kind_at(pos + 1) == TokenKind::Identifier {
        (ts.slice_at(pos + 1), pos + 2, diagnostics)
    } else {
        (
            Seq::empty(),
            pos + 1,
            diagnostics.push(spec_unexpected_token(ts, pos + 1, TokenKind::Identifier)),
        )
    };
    lemma_variable_blocks_move_on(ts, pos1, Seq::empty(), d1);
    let (variable_blocks, pos2, d2) = spec_variable_blocks(ts, pos1, Seq::empty(), d1);
    lemma_body_ends_at_boundary(ts, pos2, Seq::empty(), d2);
}

/// The search for the next `PROGRAM` does not go back, and ends at `PROGRAM`
/// or at the end of the input.
pub proof fn lemma_next_program_moves_on(ts: TokenStreamView, pos: nat)
    ensures
        pos <= spec_next_program(ts, pos),
        ts.kind_at(spec_next_program(ts, pos)) == TokenKind::KeywordProgram || ts.kind_at(
            spec_next_program(ts, pos),
        ) == TokenKind::End,
    decreases remaining(ts, pos),
{
    if ts.kind_at(pos) != TokenKind::KeywordProgram && ts.kind_at(pos) != TokenKind::End {
        lemma_next_program_moves_on(ts, pos + 1);
    }
}

} // verus!
