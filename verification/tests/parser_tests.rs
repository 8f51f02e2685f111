use rusty::ast::{
    CompilationUnit, ConditionalBlock, Operator, PrimitiveType, Statement, Type, Variable,
};
use rusty::diagnostic::{quote, Diagnostic};
use rusty::index::{Index, VariableIndexEntry};
use rusty::parser::{create_program, get_data_type, parse, parse_primary_expression};
use rusty::resolver::const_evaluator::{
    evaluate, evaluate_constants, ConstantsIndex, LiteralValue, RealValue,
};
use rusty::token::{SourceRange, Token, TokenKind, TokenStream};
use rusty::typesystem::get_builtin_types;

fn keyword(word: &str) -> Option<TokenKind> {
    let kind = match word {
        "PROGRAM" => TokenKind::KeywordProgram,
        "END_PROGRAM" => TokenKind::KeywordEndProgram,
        "VAR" => TokenKind::KeywordVar,
        "END_VAR" => TokenKind::KeywordEndVar,
        "IF" => TokenKind::KeywordIf,
        "THEN" => TokenKind::KeywordThen,
        "ELSIF" => TokenKind::KeywordElseIf,
        "ELSE" => TokenKind::KeywordElse,
        "END_IF" => TokenKind::KeywordEndIf,
        "FOR" => TokenKind::KeywordFor,
        "TO" => TokenKind::KeywordTo,
        "BY" => TokenKind::KeywordBy,
        "DO" => TokenKind::KeywordDo,
        "END_FOR" => TokenKind::KeywordEndFor,
        "WHILE" => TokenKind::KeywordWhile,
        "END_WHILE" => TokenKind::KeywordEndWhile,
        "REPEAT" => TokenKind::KeywordRepeat,
        "UNTIL" => TokenKind::KeywordUntil,
        "END_REPEAT" => TokenKind::KeywordEndRepeat,
        "MOD" => TokenKind::OperatorModulo,
        "AND" => TokenKind::OperatorAnd,
        "OR" => TokenKind::OperatorOr,
        "XOR" => TokenKind::OperatorXor,
        "NOT" => TokenKind::OperatorNot,
        "TRUE" => TokenKind::LiteralTrue,
        "FALSE" => TokenKind::LiteralFalse,
        _ => return None,
    };
    Some(kind)
}

fn symbol(text: &str) -> Option<(TokenKind, usize)> {
    let two = [
        (":=", TokenKind::KeywordAssignment),
        ("<>", TokenKind::OperatorNotEqual),
        ("<=", TokenKind::OperatorLessOrEqual),
        (">=", TokenKind::OperatorGreaterOrEqual),
    ];
    let one = [
        (":", TokenKind::KeywordColon),
        (";", TokenKind::KeywordSemicolon),
        ("(", TokenKind::KeywordParensOpen),
        (")", TokenKind::KeywordParensClose),
        ("+", TokenKind::OperatorPlus),
        ("-", TokenKind::OperatorMinus),
        ("*", TokenKind::OperatorMultiplication),
        ("/", TokenKind::OperatorDivision),
        ("=", TokenKind::OperatorEqual),
        ("<", TokenKind::OperatorLess),
        (">", TokenKind::OperatorGreater),
    ];
    for (sign, kind) in two.iter().chain(one.iter()) {
        if text.starts_with(sign) {
            return Some((*kind, sign.len()));
        }
    }
    None
}

/// Splits a source text into the tokens that the parser reads.
fn lex(source: &str) -> TokenStream {
    let bytes = source.as_bytes();
    let mut tokens = Vec::new();
    let mut at = 0;
    while at < bytes.len() {
        let first = bytes[at];
        if first.is_ascii_whitespace() {
            at += 1;
            continue;
        }
        let start = at;
        let kind = if first.is_ascii_alphabetic() || first == b'_' {
            while at < bytes.len() && (bytes[at].is_ascii_alphanumeric() || bytes[at] == b'_') {
                at += 1;
            }
            keyword(&source[start..at]).unwrap_or(TokenKind::Identifier)
        } else if first.is_ascii_digit() {
            while at < bytes.len() && bytes[at].is_ascii_digit() {
                at += 1;
            }
            if at + 1 < bytes.len() && bytes[at] == b'.' && bytes[at + 1].is_ascii_digit() {
                at += 1;
                while at < bytes.len() && bytes[at].is_ascii_digit() {
                    at += 1;
                }
                TokenKind::LiteralReal
            } else {
                TokenKind::LiteralNumber
            }
        } else if let Some((kind, len)) = symbol(&source[at..]) {
            at += len;
            kind
        } else {
            at += 1;
            while !source.is_char_boundary(at) {
                at += 1;
            }
            TokenKind::Error
        };
        tokens.push(Token::new(kind, &source[start..at], start, at));
    }
    TokenStream::new(tokens, source.len())
}

fn parse_without_diagnostics(lexer: TokenStream) -> CompilationUnit {
    let (unit, diagnostics) = parse(lexer);
    assert_eq!(diagnostics, vec![]);
    unit
}

#[test]
fn empty_returns_empty_compilation_unit() {
    let result = parse_without_diagnostics(lex(""));
    assert_eq!(result.units.len(), 0);
}

#[test]
fn simple_foo_program_can_be_parsed() {
    let lexer = lex("PROGRAM foo END_PROGRAM");
    let result = parse_without_diagnostics(lexer);

    let prg = &result.units[0];
    assert_eq!(prg.name, "foo");
}

#[test]
fn two_programs_can_be_parsed() {
    let lexer = lex("PROGRAM foo END_PROGRAM  PROGRAM bar END_PROGRAM");
    let result = parse_without_diagnostics(lexer);

    let prg = &result.units[0];
    assert_eq!(prg.name, "foo");
    let prg2 = &result.units[1];
    assert_eq!(prg2.name, "bar");
}

#[test]
fn simple_program_with_varblock_can_be_parsed() {
    let lexer = lex("PROGRAM buz VAR END_VAR END_PROGRAM");
    let result = parse_without_diagnostics(lexer);

    let prg = &result.units[0];

    assert_eq!(prg.variable_blocks.len(), 1);
}

#[test]
fn simple_program_with_two_varblocks_can_be_parsed() {
    let lexer = lex("PROGRAM buz VAR END_VAR VAR END_VAR END_PROGRAM");
    let result = parse_without_diagnostics(lexer);

    let prg = &result.units[0];

    assert_eq!(prg.variable_blocks.len(), 2);
}

#[test]
fn a_program_needs_to_end_with_end_program() {
    let lexer = lex("PROGRAM buz ");
    let (_, diagnostics) = parse(lexer);
    assert_eq!(
        diagnostics,
        vec![Diagnostic::unexpected_token_found(
            "KeywordEndProgram",
            "''",
            SourceRange::new(12, 12)
        )]
    );
}

#[test]
fn a_variable_declaration_block_needs_to_end_with_endvar() {
    let lexer = lex("PROGRAM buz VAR END_PROGRAM ");
    let (_, diagnostics) = parse(lexer);
    assert_eq!(
        diagnostics,
        vec![Diagnostic::unexpected_token_found(
            "KeywordEndVar",
            "'END_PROGRAM'",
            SourceRange::new(16, 27)
        )]
    );
}

#[test]
fn simple_program_with_variable_can_be_parsed() {
    let lexer = lex("PROGRAM buz VAR x : INT; END_VAR END_PROGRAM");
    let result = parse_without_diagnostics(lexer);

    let prg = &result.units[0];
    let variable = &prg.variable_blocks[0].variables[0];

    assert_eq!(variable.name, "x");
    assert_eq!(variable.data_type, Type::Primitive(PrimitiveType::Int));
}

#[test]
fn single_statement_parsed() {
    let lexer = lex("PROGRAM exp x; END_PROGRAM");
    let result = parse_without_diagnostics(lexer);

    let prg = &result.units[0];
    let statement = &prg.statements[0];

    if let Statement::Reference { name } = statement {
        assert_eq!(name, "x");
    } else {
        panic!("Expected Reference but found {:?}", statement);
    }
}

#[test]
fn literal_can_be_parsed() {
    let lexer = lex("PROGRAM exp 7; END_PROGRAM");
    let result = parse_without_diagnostics(lexer);

    let prg = &result.units[0];
    let statement = &prg.statements[0];

    if let Statement::LiteralNumber { value } = statement {
        assert_eq!(value, "7");
    } else {
        panic!("Expected LiteralNumber but found {:?}", statement);
    }
}

#[test]
fn boolean_literals_can_be_parsed() {
    let lexer = lex("PROGRAM exp TRUE OR FALSE; END_PROGRAM");
    let result = parse_without_diagnostics(lexer);

    let prg = &result.units[0];
    let statement = &prg.statements[0];

    let ast_string = format!("{:#?}", statement);
    let expected_ast = r#"BinaryExpression {
    operator: Or,
    left: LiteralBool {
        value: true,
    },
    right: LiteralBool {
        value: false,
    },
}"#;
    assert_eq!(ast_string, expected_ast);
}

#[test]
fn additon_of_two_variables_parsed() {
    let lexer = lex("PROGRAM exp x+y; END_PROGRAM");
    let result = parse_without_diagnostics(lexer);

    let prg = &result.units[0];
    let statement = &prg.statements[0];

    if let Statement::BinaryExpression {
        operator,
        left,  //Box<Reference> {name : left}),
        right, //Box<Reference> {name : right}),
    } = statement
    {
        if let Statement::Reference { name } = &**left {
            assert_eq!(name, "x");
        }
        if let Statement::Reference { name } = &**right {
            assert_eq!(name, "y");
        }
        assert_eq!(operator, &Operator::Plus);
    } else {
        panic!("Expected Reference but found {:?}", statement);
    }
}

#[test]
fn additon_of_three_variables_parsed() {
    let lexer = lex("PROGRAM exp x+y-z; END_PROGRAM");
    let result = parse_without_diagnostics(lexer);

    let prg = &result.units[0];
    let statement = &prg.statements[0];

    if let Statement::BinaryExpression {
        operator,
        left,  //Box<Reference> {name : left}),
        right, //Box<Reference> {name : right}),
    } = statement
    {
        assert_eq!(operator, &Operator::Plus);
        if let Statement::Reference { name } = &**left {
            assert_eq!(name, "x");
        }
        if let Statement::BinaryExpression {
            operator,
            left,
            right,
        } = &**right
        {
            if let Statement::Reference { name } = &**left {
                assert_eq!(name, "y");
            }
            if let Statement::Reference { name } = &**right {
                assert_eq!(name, "z");
            }
            assert_eq!(operator, &Operator::Minus);
        } else {
            panic!("Expected Reference but found {:?}", statement);
        }
    } else {
        panic!("Expected Reference but found {:?}", statement);
    }
}

#[test]
fn parenthesis_expressions_should_not_change_the_ast() {
    let lexer = lex("PROGRAM exp (x+y); END_PROGRAM");
    let result = parse_without_diagnostics(lexer);

    let prg = &result.units[0];
    let statement = &prg.statements[0];

    if let Statement::BinaryExpression {
        operator,
        left,
        right,
    } = statement
    {
        if let Statement::Reference { name } = &**left {
            assert_eq!(name, "x");
        }
        if let Statement::Reference { name } = &**right {
            assert_eq!(name, "y");
        }
        assert_eq!(operator, &Operator::Plus);
    } else {
        panic!("Expected Reference but found {:?}", statement);
    }
}

#[test]
fn multiplication_expressions_parse() {
    let lexer = lex("PROGRAM exp 1*2/7; END_PROGRAM");
    let result = parse_without_diagnostics(lexer);

    let prg = &result.units[0];
    let statement = &prg.statements[0];

    let ast_string = format!("{:#?}", statement);
    let expected_ast = r#"BinaryExpression {
    operator: Multiplication,
    left: LiteralNumber {
        value: "1",
    },
    right: BinaryExpression {
        operator: Division,
        left: LiteralNumber {
            value: "2",
        },
        right: LiteralNumber {
            value: "7",
        },
    },
}"#;
    assert_eq!(ast_string, expected_ast);
}

#[test]
fn addition_ast_test() {
    let lexer = lex("PROGRAM exp 1+2; END_PROGRAM");
    let result = parse_without_diagnostics(lexer);

    let prg = &result.units[0];
    let statement = &prg.statements[0];

    let ast_string = format!("{:#?}", statement);
    let expected_ast = r#"BinaryExpression {
    operator: Plus,
    left: LiteralNumber {
        value: "1",
    },
    right: LiteralNumber {
        value: "2",
    },
}"#;
    assert_eq!(ast_string, expected_ast);
}

#[test]
fn multiplication_ast_test() {
    let lexer = lex("PROGRAM exp 1+2*3; END_PROGRAM");
    let result = parse_without_diagnostics(lexer);

    let prg = &result.units[0];
    let statement = &prg.statements[0];

    let ast_string = format!("{:#?}", statement);
    let expected_ast = r#"BinaryExpression {
    operator: Plus,
    left: LiteralNumber {
        value: "1",
    },
    right: BinaryExpression {
        operator: Multiplication,
        left: LiteralNumber {
            value: "2",
        },
        right: LiteralNumber {
            value: "3",
        },
    },
}"#;
    assert_eq!(ast_string, expected_ast);
}

#[test]
fn term_ast_test() {
    let lexer = lex("PROGRAM exp 1+2*3+4; END_PROGRAM");
    let result = parse_without_diagnostics(lexer);

    let prg = &result.units[0];
    let statement = &prg.statements[0];

    let ast_string = format!("{:#?}", statement);
    let expected_ast = r#"BinaryExpression {
    operator: Plus,
    left: LiteralNumber {
        value: "1",
    },
    right: BinaryExpression {
        operator: Plus,
        left: BinaryExpression {
            operator: Multiplication,
            left: LiteralNumber {
                value: "2",
            },
            right: LiteralNumber {
                value: "3",
            },
        },
        right: LiteralNumber {
            value: "4",
        },
    },
}"#;
    assert_eq!(ast_string, expected_ast);
}

#[test]
fn module_expression_test() {
    let lexer = lex("PROGRAM exp 5 MOD 2; END_PROGRAM");

    let result = parse_without_diagnostics(lexer);

    let prg = &result.units[0];
    let statement = &prg.statements[0];

    let ast_string = format!("{:#?}", statement);
    let expected_ast = r#"BinaryExpression {
    operator: Modulo,
    left: LiteralNumber {
        value: "5",
    },
    right: LiteralNumber {
        value: "2",
    },
}"#;

    assert_eq!(ast_string, expected_ast);
}

#[test]
fn parenthesized_term_ast_test() {
    let lexer = lex("PROGRAM exp (1+2)*(3+4); END_PROGRAM");
    let result = parse_without_diagnostics(lexer);

    let prg = &result.units[0];
    let statement = &prg.statements[0];

    let ast_string = format!("{:#?}", statement);
    let expected_ast = r#"BinaryExpression {
    operator: Multiplication,
    left: BinaryExpression {
        operator: Plus,
        left: LiteralNumber {
            value: "1",
        },
        right: LiteralNumber {
            value: "2",
        },
    },
    right: BinaryExpression {
        operator: Plus,
        left: LiteralNumber {
            value: "3",
        },
        right: LiteralNumber {
            value: "4",
        },
    },
}"#;
    assert_eq!(ast_string, expected_ast);
}

#[test]
fn assignment_test() {
    let lexer = lex("PROGRAM exp x := 3; x := 1 + 2; END_PROGRAM");
    let result = parse_without_diagnostics(lexer);

    let prg = &result.units[0];
    {
        let statement = &prg.statements[0];
        let ast_string = format!("{:#?}", statement);
        let expected_ast = r#"Assignment {
    left: Reference {
        name: "x",
    },
    right: LiteralNumber {
        value: "3",
    },
}"#;
        assert_eq!(ast_string, expected_ast);
    }

    {
        let statement = &prg.statements[1];
        let ast_string = format!("{:#?}", statement);
        let expected_ast = r#"Assignment {
    left: Reference {
        name: "x",
    },
    right: BinaryExpression {
        operator: Plus,
        left: LiteralNumber {
            value: "1",
        },
        right: LiteralNumber {
            value: "2",
        },
    },
}"#;
        assert_eq!(ast_string, expected_ast);
    }
}

#[test]
fn equality_expression_test() {
    let lexer = lex("PROGRAM exp x = 3; x - 0 <> 1 + 2; END_PROGRAM");
    let result = parse_without_diagnostics(lexer);

    let prg = &result.units[0];
    {
        let statement = &prg.statements[0];
        let ast_string = format!("{:#?}", statement);
        let expected_ast = r#"BinaryExpression {
    operator: Equal,
    left: Reference {
        name: "x",
    },
    right: LiteralNumber {
        value: "3",
    },
}"#;
        assert_eq!(ast_string, expected_ast);
    }

    {
        let statement = &prg.statements[1];
        let ast_string = format!("{:#?}", statement);
        let expected_ast = r#"BinaryExpression {
    operator: NotEqual,
    left: BinaryExpression {
        operator: Minus,
        left: Reference {
            name: "x",
        },
        right: LiteralNumber {
            value: "0",
        },
    },
    right: BinaryExpression {
        operator: Plus,
        left: LiteralNumber {
            value: "1",
        },
        right: LiteralNumber {
            value: "2",
        },
    },
}"#;
        assert_eq!(ast_string, expected_ast);
    }
}
#[test]
fn comparison_expression_test() {
    let lexer = lex(
        "PROGRAM exp
                                a < 3;
                                b > 0;
                                c <= 7;
                                d >= 4;
                                e := 2 + 1 > 3 + 1;
                                END_PROGRAM",
    );
    let result = parse_without_diagnostics(lexer);

    let prg = &result.units[0];
    {
        let statement = &prg.statements[0];
        let expected_ast = r#"BinaryExpression {
    operator: Less,
    left: Reference {
        name: "a",
    },
    right: LiteralNumber {
        value: "3",
    },
}"#;
        assert_eq!(format!("{:#?}", statement), expected_ast);
    }
    {
        let statement = &prg.statements[1]; // b > 0
        let expected_ast = r#"BinaryExpression {
    operator: Greater,
    left: Reference {
        name: "b",
    },
    right: LiteralNumber {
        value: "0",
    },
}"#;
        assert_eq!(format!("{:#?}", statement), expected_ast);
    }
    {
        let statement = &prg.statements[2]; // c <= 7
        let expected_ast = r#"BinaryExpression {
    operator: LessOrEqual,
    left: Reference {
        name: "c",
    },
    right: LiteralNumber {
        value: "7",
    },
}"#;
        assert_eq!(format!("{:#?}", statement), expected_ast);
    }
    {
        let statement = &prg.statements[3]; // d >= 4
        let expected_ast = r#"BinaryExpression {
    operator: GreaterOrEqual,
    left: Reference {
        name: "d",
    },
    right: LiteralNumber {
        value: "4",
    },
}"#;
        assert_eq!(format!("{:#?}", statement), expected_ast);
    }
    {
        //e := 2 + 1 > 3 + 1;
        let statement = &prg.statements[4];
        let expected_ast = r#"Assignment {
    left: Reference {
        name: "e",
    },
    right: BinaryExpression {
        operator: Greater,
        left: BinaryExpression {
            operator: Plus,
            left: LiteralNumber {
                value: "2",
            },
            right: LiteralNumber {
                value: "1",
            },
        },
        right: BinaryExpression {
            operator: Plus,
            left: LiteralNumber {
                value: "3",
            },
            right: LiteralNumber {
                value: "1",
            },
        },
    },
}"#;
        assert_eq!(format!("{:#?}", statement), expected_ast);
    }
}

#[test]
fn boolean_expression_ast_test() {
    let lexer = lex("PROGRAM exp a AND NOT b OR c XOR d; END_PROGRAM");
    let result = parse_without_diagnostics(lexer);

    let prg = &result.units[0];
    let statement = &prg.statements[0];

    let ast_string = format!("{:#?}", statement);
    let expected_ast = r#"BinaryExpression {
    operator: And,
    left: Reference {
        name: "a",
    },
    right: BinaryExpression {
        operator: Or,
        left: UnaryExpression {
            operator: Not,
            value: Reference {
                name: "b",
            },
        },
        right: BinaryExpression {
            operator: Xor,
            left: Reference {
                name: "c",
            },
            right: Reference {
                name: "d",
            },
        },
    },
}"#;
    assert_eq!(ast_string, expected_ast);
}

#[test]
fn boolean_expression_paran_ast_test() {
    let lexer = lex("PROGRAM exp a AND (NOT (b OR c) XOR d); END_PROGRAM");
    let result = parse_without_diagnostics(lexer);

    let prg = &result.units[0];
    let statement = &prg.statements[0];

    let ast_string = format!("{:#?}", statement);
    let expected_ast = r#"BinaryExpression {
    operator: And,
    left: Reference {
        name: "a",
    },
    right: BinaryExpression {
        operator: Xor,
        left: UnaryExpression {
            operator: Not,
            value: BinaryExpression {
                operator: Or,
                left: Reference {
                    name: "b",
                },
                right: Reference {
                    name: "c",
                },
            },
        },
        right: Reference {
            name: "d",
        },
    },
}"#;
    assert_eq!(ast_string, expected_ast);
}

#[test]
fn signed_literal_minus_test() {
    let lexer = lex(
        "
    PROGRAM exp
    -1;
    END_PROGRAM
    ",
    );
    let result = parse_without_diagnostics(lexer);

    let prg = &result.units[0];
    let statement = &prg.statements[0];

    let ast_string = format!("{:#?}", statement);
    let expected_ast = r#"UnaryExpression {
    operator: Minus,
    value: LiteralNumber {
        value: "1",
    },
}"#;
    assert_eq!(ast_string, expected_ast);
}

#[test]
fn signed_literal_expression_test() {
    let lexer = lex(
        "
    PROGRAM exp
    2 +-x;
    END_PROGRAM
    ",
    );
    let result = parse_without_diagnostics(lexer);

    let prg = &result.units[0];
    let statement = &prg.statements[0];

    let ast_string = format!("{:#?}", statement);
    let expected_ast = r#"BinaryExpression {
    operator: Plus,
    left: LiteralNumber {
        value: "2",
    },
    right: UnaryExpression {
        operator: Minus,
        value: Reference {
            name: "x",
        },
    },
}"#;
    assert_eq!(ast_string, expected_ast);
}

#[test]
fn signed_literal_expression_reversed_test() {
    let lexer = lex(
        "
    PROGRAM exp
    -4 + 5;
    END_PROGRAM
    ",
    );
    let result = parse_without_diagnostics(lexer);

    let prg = &result.units[0];
    let statement = &prg.statements[0];

    let ast_string = format!("{:#?}", statement);
    let expected_ast = r#"BinaryExpression {
    operator: Plus,
    left: UnaryExpression {
        operator: Minus,
        value: LiteralNumber {
            value: "4",
        },
    },
    right: LiteralNumber {
        value: "5",
    },
}"#;
    assert_eq!(ast_string, expected_ast);
}

#[test]
fn if_statement() {
    let lexer = lex(
    "
    PROGRAM exp
    IF TRUE THEN
    END_IF
    END_PROGRAM
    ",
    );
    let result = parse_without_diagnostics(lexer);

    let prg = &result.units[0];
    let statement = &prg.statements[0];

    let ast_string = format!("{:#?}", statement);
    let expected_ast =
r#"IfStatement {
    blocks: [
        ConditionalBlock {
            condition: LiteralBool {
                value: true,
            },
            body: [],
        },
    ],
    else_block: [],
}"#;
    assert_eq!(ast_string, expected_ast);
}

#[test]
fn if_else_statement_with_expressions() {
    let lexer = lex(
    "
    PROGRAM exp
    IF TRUE THEN
        x;
    ELSE
        y;
    END_IF
    END_PROGRAM
    ",
    );
    let result = parse_without_diagnostics(lexer);

    let prg = &result.units[0];
    let statement = &prg.statements[0];

    let ast_string = format!("{:#?}", statement);
    let expected_ast =
r#"IfStatement {
    blocks: [
        ConditionalBlock {
            condition: LiteralBool {
                value: true,
            },
            body: [
                Reference {
                    name: "x",
                },
            ],
        },
    ],
    else_block: [
        Reference {
            name: "y",
        },
    ],
}"#;
    assert_eq!(ast_string, expected_ast);
}


#[test]
fn if_elsif_elsif_else_statement_with_expressions() {
    let lexer = lex(
    "
    PROGRAM exp
    IF TRUE THEN
        x;
    ELSIF y THEN
        z;
    ELSIF w THEN
        v;
    ELSE
        u;
    END_IF
    END_PROGRAM
    ",
    );
    let result = parse_without_diagnostics(lexer);

    let prg = &result.units[0];
    let statement = &prg.statements[0];

    let ast_string = format!("{:#?}", statement);
    let expected_ast =
r#"IfStatement {
    blocks: [
        ConditionalBlock {
            condition: LiteralBool {
                value: true,
            },
            body: [
                Reference {
                    name: "x",
                },
            ],
        },
        ConditionalBlock {
            condition: Reference {
                name: "y",
            },
            body: [
                Reference {
                    name: "z",
                },
            ],
        },
        ConditionalBlock {
            condition: Reference {
                name: "w",
            },
            body: [
                Reference {
                    name: "v",
                },
            ],
        },
    ],
    else_block: [
        Reference {
            name: "u",
        },
    ],
}"#;
    assert_eq!(ast_string, expected_ast);
}

#[test]
fn test_unexpected_token_error_message() {
    let source = "PROGRAM prg
                VAR ;
                END_VAR
            END_PROGRAM
    ";
    let lexer = lex(source);
    let (_, diagnostics) = parse(lexer);

    assert_eq!(
        format!("{:?}", diagnostics),
        format!(
            "{:?}",
            vec![Diagnostic::unexpected_token_found(
                "KeywordEndVar",
                "';'",
                SourceRange::new(32, 33)
            ),]
        )
    );
}

#[test]
fn test_unexpected_token_error_message2() {
    let lexer = lex(
        "SOME PROGRAM prg
                VAR ;
                END_VAR
            END_PROGRAM
    ",
    );
    let parse_result = parse(lexer);
    assert_eq!(
        &Diagnostic::unexpected_token_found("StartKeyword", "SOME", SourceRange::new(0, 4)),
        parse_result.1.first().unwrap()
    );
}

#[test]
fn if_then_with_unexpected_token() {
    let lexer = lex(
        "
        PROGRAM exp 
        IF TRUE CHARLIE
            x;
        ELSE
            y;
        END_IF
        END_PROGRAM
        ",
    );
    let parse_result = parse(lexer);

    assert_eq!(
        &Diagnostic::unexpected_token_found("KeywordThen", "CHARLIE", SourceRange::new(38, 45)),
        parse_result.1.first().unwrap()
    );
}

#[test]
fn test_unclosed_body_error_message() {
    let lexer = lex(
        "
            
            PROGRAM My_PRG

    ",
    );
    let (_, diagnostics) = parse(lexer);

    assert_eq!(
        diagnostics,
        vec![Diagnostic::unexpected_token_found(
            "KeywordEndProgram",
            "''",
            SourceRange::new(46, 46)
        )]
    );
}

fn reference(name: &str) -> Statement {
    Statement::Reference { name: name.to_string() }
}

fn number(value: &str) -> Statement {
    Statement::LiteralNumber { value: value.to_string() }
}

fn binary(operator: Operator, left: Statement, right: Statement) -> Statement {
    Statement::BinaryExpression { operator, left: Box::new(left), right: Box::new(right) }
}

fn expression(source: &str) -> Statement {
    let lexer = lex(source);
    let (result, behind) = parse_primary_expression(&lexer, 0);
    assert_eq!(behind, lexer.len());
    result.unwrap()
}

fn statements_of(source: &str) -> Vec<Statement> {
    let mut unit = parse_without_diagnostics(lex(source));
    assert_eq!(unit.units.len(), 1);
    unit.units.remove(0).statements
}

#[test]
fn an_empty_program_has_a_name_and_nothing_else() {
    let result = parse_without_diagnostics(lex("PROGRAM p END_PROGRAM"));
    assert_eq!(result.units.len(), 1);
    let mut expected = create_program();
    expected.name = "p".to_string();
    assert_eq!(result.units[0], expected);
    assert!(result.units[0].variable_blocks.is_empty());
    assert!(result.units[0].statements.is_empty());
}

#[test]
fn programs_come_in_source_order() {
    let result = parse_without_diagnostics(lex("PROGRAM a END_PROGRAM PROGRAM b END_PROGRAM"));
    let names: Vec<&str> = result.units.iter().map(|it| it.name.as_str()).collect();
    assert_eq!(names, vec!["a", "b"]);
}

#[test]
fn a_variable_has_its_name_and_both_forms_of_its_type() {
    let result = parse_without_diagnostics(lex("PROGRAM p VAR x : INT; END_VAR END_PROGRAM"));
    assert_eq!(result.units[0].variable_blocks.len(), 1);
    assert_eq!(
        result.units[0].variable_blocks[0].variables,
        vec![Variable {
            name: "x".to_string(),
            data_type_name: "INT".to_string(),
            data_type: Type::Primitive(PrimitiveType::Int),
        }]
    );
}

#[test]
fn type_names_resolve_whatever_the_case_of_their_letters() {
    assert_eq!(get_data_type("INT"), Type::Primitive(PrimitiveType::Int));
    assert_eq!(get_data_type("int"), Type::Primitive(PrimitiveType::Int));
    assert_eq!(get_data_type("Int"), Type::Primitive(PrimitiveType::Int));
    assert_eq!(get_data_type("BOOL"), Type::Primitive(PrimitiveType::Bool));
    assert_eq!(get_data_type("bOoL"), Type::Primitive(PrimitiveType::Bool));
    assert_eq!(get_data_type("DINT"), Type::Custom);
    assert_eq!(get_data_type("in"), Type::Custom);
    assert_eq!(get_data_type("ints"), Type::Custom);
    assert_eq!(get_data_type("i_t"), Type::Custom);
    assert_eq!(get_data_type(""), Type::Custom);
}

#[test]
fn multiplication_binds_tighter_than_addition() {
    assert_eq!(
        expression("1+2*3"),
        binary(
            Operator::Plus,
            number("1"),
            binary(Operator::Multiplication, number("2"), number("3"))
        )
    );
    assert_eq!(
        expression("1*2/7"),
        binary(
            Operator::Multiplication,
            number("1"),
            binary(Operator::Division, number("2"), number("7"))
        )
    );
}

#[test]
fn operators_of_one_step_nest_to_the_right() {
    assert_eq!(
        expression("x+y-z"),
        binary(
            Operator::Plus,
            reference("x"),
            binary(Operator::Minus, reference("y"), reference("z"))
        )
    );
    assert_eq!(
        expression("a-b-c"),
        binary(
            Operator::Minus,
            reference("a"),
            binary(Operator::Minus, reference("b"), reference("c"))
        )
    );
    assert_eq!(
        expression("a = b <> c"),
        binary(
            Operator::Equal,
            reference("a"),
            binary(Operator::NotEqual, reference("b"), reference("c"))
        )
    );
    assert_eq!(
        expression("a < b >= c"),
        binary(
            Operator::Less,
            reference("a"),
            binary(Operator::GreaterOrEqual, reference("b"), reference("c"))
        )
    );
}

#[test]
fn parentheses_leave_no_trace() {
    assert_eq!(expression("(x+y)"), expression("x+y"));
    assert_eq!(expression("((x))"), reference("x"));
    assert_eq!(
        expression("(x+y)*z"),
        binary(
            Operator::Multiplication,
            binary(Operator::Plus, reference("x"), reference("y")),
            reference("z")
        )
    );
}

#[test]
fn boolean_operators_nest_to_the_right_and_bind_tightest() {
    let not_b = Statement::UnaryExpression {
        operator: Operator::Not,
        value: Box::new(reference("b")),
    };
    assert_eq!(
        expression("a AND NOT b OR c XOR d"),
        binary(
            Operator::And,
            reference("a"),
            binary(
                Operator::Or,
                not_b,
                binary(Operator::Xor, reference("c"), reference("d"))
            )
        )
    );
    assert_eq!(
        expression("a AND b + c"),
        binary(
            Operator::Plus,
            binary(Operator::And, reference("a"), reference("b")),
            reference("c")
        )
    );
    assert_eq!(
        expression("a + b AND c"),
        binary(
            Operator::Plus,
            reference("a"),
            binary(Operator::And, reference("b"), reference("c"))
        )
    );
    assert_eq!(
        expression("a OR b * c XOR d = e"),
        binary(
            Operator::Equal,
            binary(
                Operator::Multiplication,
                binary(Operator::Or, reference("a"), reference("b")),
                binary(Operator::Xor, reference("c"), reference("d"))
            ),
            reference("e")
        )
    );
}

#[test]
fn literals_keep_their_text() {
    assert_eq!(expression("12"), number("12"));
    assert_eq!(expression("2.5"), Statement::LiteralReal { value: "2.5".to_string() });
    assert_eq!(expression("TRUE"), Statement::LiteralBool { value: true });
    assert_eq!(expression("FALSE"), Statement::LiteralBool { value: false });
}

#[test]
fn an_assignment_follows_a_leaf_only() {
    assert_eq!(
        expression("x := y := 1"),
        Statement::Assignment {
            left: Box::new(reference("x")),
            right: Box::new(Statement::Assignment {
                left: Box::new(reference("y")),
                right: Box::new(number("1")),
            }),
        }
    );
    let lexer = lex("(x) := 1;");
    let (result, behind) = parse_primary_expression(&lexer, 0);
    assert_eq!(result, Ok(reference("x")));
    assert_eq!(behind, 3);
}

#[test]
fn an_if_statement_has_its_blocks_and_its_else_block() {
    let statements = statements_of(
        "PROGRAM p IF TRUE THEN x; ELSIF y THEN z; ELSE u; END_IF END_PROGRAM",
    );
    assert_eq!(
        statements,
        vec![Statement::IfStatement {
            blocks: vec![
                ConditionalBlock {
                    condition: Box::new(Statement::LiteralBool { value: true }),
                    body: vec![reference("x")],
                },
                ConditionalBlock { condition: Box::new(reference("y")), body: vec![reference("z")] },
            ],
            else_block: vec![reference("u")],
        }]
    );
}

#[test]
fn if_statements_nest() {
    let statements =
        statements_of("PROGRAM p IF a THEN IF b THEN x; END_IF y; END_IF z; END_PROGRAM");
    assert_eq!(
        statements,
        vec![
            Statement::IfStatement {
                blocks: vec![ConditionalBlock {
                    condition: Box::new(reference("a")),
                    body: vec![
                        Statement::IfStatement {
                            blocks: vec![ConditionalBlock {
                                condition: Box::new(reference("b")),
                                body: vec![reference("x")],
                            }],
                            else_block: vec![],
                        },
                        reference("y"),
                    ],
                }],
                else_block: vec![],
            },
            reference("z"),
        ]
    );
}

#[test]
fn a_missing_end_var_names_the_keyword_and_the_token_found() {
    let (unit, diagnostics) = parse(lex("PROGRAM buz VAR x : INT; END_PROGRAM"));
    assert_eq!(
        diagnostics,
        vec![Diagnostic::unexpected_token_found(
            "KeywordEndVar",
            "'END_PROGRAM'",
            SourceRange::new(25, 36)
        )]
    );
    assert_eq!(
        diagnostics[0].get_message(),
        "Unexpected token: expected KeywordEndVar but found 'END_PROGRAM'"
    );
    assert_eq!(diagnostics[0].get_range(), SourceRange::new(25, 36));
    assert_eq!(unit.units.len(), 1);
    assert_eq!(unit.units[0].variable_blocks[0].variables.len(), 1);
}

#[test]
fn one_pass_reports_errors_that_stand_apart() {
    let source = "PROGRAM p VAR x INT; y : BOOL; END_VAR a + ; b; c d; e; END_PROGRAM";
    let (unit, diagnostics) = parse(lex(source));
    assert_eq!(
        diagnostics,
        vec![
            Diagnostic::unexpected_token_found("KeywordColon", "INT", SourceRange::new(16, 19)),
            Diagnostic::unexpected_token_found("Literal", ";", SourceRange::new(43, 44)),
            Diagnostic::unexpected_token_found("KeywordSemicolon", "d", SourceRange::new(50, 51)),
        ]
    );
    let program = &unit.units[0];
    assert_eq!(program.variable_blocks[0].variables.len(), 1);
    assert_eq!(program.variable_blocks[0].variables[0].name, "y");
    assert_eq!(program.statements, vec![reference("b"), reference("e")]);
}

#[test]
fn a_program_without_a_name_is_reported_and_kept() {
    let (unit, diagnostics) = parse(lex("PROGRAM VAR END_VAR x; END_PROGRAM"));
    assert_eq!(
        diagnostics,
        vec![Diagnostic::unexpected_token_found("Identifier", "VAR", SourceRange::new(8, 11))]
    );
    assert_eq!(unit.units.len(), 1);
    assert_eq!(unit.units[0].name, "");
    assert_eq!(unit.units[0].variable_blocks.len(), 1);
    assert_eq!(unit.units[0].statements, vec![reference("x")]);
}

#[test]
fn a_program_that_is_not_closed_does_not_hide_the_next_one() {
    let (unit, diagnostics) = parse(lex("PROGRAM a x; PROGRAM b y; END_PROGRAM"));
    assert_eq!(
        diagnostics,
        vec![Diagnostic::unexpected_token_found(
            "KeywordEndProgram",
            "'PROGRAM'",
            SourceRange::new(13, 20)
        )]
    );
    assert_eq!(unit.units.len(), 2);
    assert_eq!(unit.units[0].statements, vec![reference("x")]);
    assert_eq!(unit.units[1].name, "b");
    assert_eq!(unit.units[1].statements, vec![reference("y")]);
}

#[test]
fn an_if_statement_that_is_not_closed_is_reported_and_kept() {
    let (unit, diagnostics) = parse(lex("PROGRAM p IF a THEN x; END_PROGRAM"));
    assert_eq!(
        diagnostics,
        vec![Diagnostic::unexpected_token_found(
            "KeywordEndIf",
            "'END_PROGRAM'",
            SourceRange::new(23, 34)
        )]
    );
    assert_eq!(
        unit.units[0].statements,
        vec![Statement::IfStatement {
            blocks: vec![ConditionalBlock {
                condition: Box::new(reference("a")),
                body: vec![reference("x")],
            }],
            else_block: vec![],
        }]
    );
}

#[test]
fn input_that_is_no_token_is_reported_as_unidentified() {
    let (unit, diagnostics) = parse(lex("PROGRAM p x; # y; END_PROGRAM $ PROGRAM q END_PROGRAM"));
    assert_eq!(
        diagnostics,
        vec![
            Diagnostic::unidentified_token("#", SourceRange::new(13, 14)),
            Diagnostic::unidentified_token("$", SourceRange::new(30, 31)),
        ]
    );
    assert_eq!(diagnostics[0].get_message(), "Unidentified token: #");
    assert_eq!(unit.units.len(), 2);
    assert_eq!(unit.units[0].statements, vec![reference("x")]);
}

#[test]
fn a_parenthesis_that_is_not_closed_is_reported() {
    let lexer = lex("(x + y;");
    let (result, behind) = parse_primary_expression(&lexer, 0);
    assert_eq!(
        result,
        Err(Diagnostic::unexpected_token_found(
            "KeywordParensClose",
            ";",
            SourceRange::new(6, 7)
        ))
    );
    assert_eq!(behind, 4);
}

#[test]
fn the_stream_reads_as_the_end_of_the_input_behind_its_last_token() {
    let lexer = lex("x ;");
    assert_eq!(lexer.len(), 2);
    assert_eq!(lexer.kind_at(0), TokenKind::Identifier);
    assert_eq!(lexer.slice_at(1), ";");
    assert_eq!(lexer.range_at(1), SourceRange::new(2, 3));
    assert_eq!(lexer.kind_at(2), TokenKind::End);
    assert_eq!(lexer.kind_at(7), TokenKind::End);
    assert_eq!(lexer.slice_at(2), "");
    assert_eq!(lexer.range_at(2), SourceRange::new(3, 3));
    assert_eq!(lexer.advance(1), 2);
    assert_eq!(lexer.advance(2), 2);
    assert_eq!(TokenKind::KeywordEndVar.name(), "KeywordEndVar");
    assert!(TokenKind::KeywordElse.is_block_boundary());
    assert!(!TokenKind::KeywordSemicolon.is_block_boundary());
}

fn no_constants() -> ConstantsIndex {
    ConstantsIndex::new()
}

fn value_of(source: &str) -> LiteralValue {
    let index = Index::new();
    evaluate(&expression(source), &no_constants(), &index).unwrap().unwrap()
}

fn number_of(value: &RealValue) -> f64 {
    match value {
        RealValue::Literal(text) => text.parse().unwrap(),
        RealValue::FromInt(v) => *v as f64,
        RealValue::Binary { operator, left, right } => {
            let (l, r) = (number_of(left), number_of(right));
            match operator {
                Operator::Plus => l + r,
                Operator::Minus => l - r,
                Operator::Multiplication => l * r,
                Operator::Division => l / r,
                Operator::Modulo => l % r,
                _ => unreachable!(),
            }
        }
    }
}

fn assigned_to_main(source: &str) -> Statement {
    let mut statements = statements_of(source);
    assert_eq!(statements.len(), 1);
    match statements.remove(0) {
        Statement::Assignment { left, right } => {
            assert_eq!(*left, reference("main"));
            *right
        }
        other => panic!("Expected Assignment but found {:?}", other),
    }
}

#[test]
fn adds_in_result() {
    let prog = "
    PROGRAM main
        main := 10 + 50;
    END_PROGRAM
    ";

    let index = Index::new();
    let res = evaluate(&assigned_to_main(prog), &no_constants(), &index);
    assert_eq!(res, Ok(Some(LiteralValue::Int(60))))
}

#[test]
fn int_division_in_result() {
    let prog = "
    PROGRAM main
        main := (10 / 3) * 100;
    END_PROGRAM
    ";

    let index = Index::new();
    let res = evaluate(&assigned_to_main(prog), &no_constants(), &index);
    assert_eq!(res, Ok(Some(LiteralValue::Int(300))))
}

#[test]
fn real_division_in_result() {
    let prog = "
    PROGRAM main
        main := (ten / 3) * 100;
    END_PROGRAM
    ";

    let mut index = Index::new();
    index.register_types(get_builtin_types());
    let ten = VariableIndexEntry::new("ten", "REAL", Some(number("10")), true);
    let main = VariableIndexEntry::new("main", "DINT", Some(assigned_to_main(prog)), true);
    assert!(index.register_variable(main).is_ok());
    assert!(index.register_variable(ten).is_ok());
    let (constants, unresolvable, illegal) = evaluate_constants(&index);
    assert_eq!(unresolvable, Vec::<String>::new());
    assert_eq!(illegal, vec![]);
    match constants.get("main") {
        Some(LiteralValue::Real(value)) => assert_eq!(number_of(value) as i32, 333),
        other => panic!("Expected a real but found {:?}", other),
    }
}

#[test]
fn a_parsed_initializer_is_folded() {
    assert_eq!(value_of("1 + 2 * 3"), LiteralValue::Int(7));
    assert_eq!(value_of("7 MOD 4"), LiteralValue::Int(3));
    assert_eq!(value_of("NOT TRUE OR TRUE"), LiteralValue::Bool(true));
    assert_eq!(value_of("NOT (TRUE OR TRUE)"), LiteralValue::Bool(false));
    assert_eq!(value_of("6 AND 3"), LiteralValue::Int(2));
    assert_eq!(value_of("(6 AND 3) + 1"), LiteralValue::Int(3));
    assert_eq!(value_of("6 AND 3 + 1"), LiteralValue::Int(3));
    assert_eq!(value_of("6 AND (3 + 1)"), LiteralValue::Int(4));
}

#[test]
fn a_token_of_the_kind_end_ends_the_input() {
    let tokens = vec![
        Token::new(TokenKind::KeywordProgram, "PROGRAM", 0, 7),
        Token::new(TokenKind::Identifier, "a", 8, 9),
        Token::new(TokenKind::KeywordEndProgram, "END_PROGRAM", 10, 21),
        Token::new(TokenKind::End, "", 21, 21),
        Token::new(TokenKind::KeywordProgram, "PROGRAM", 22, 29),
        Token::new(TokenKind::Identifier, "b", 30, 31),
        Token::new(TokenKind::KeywordEndProgram, "END_PROGRAM", 32, 43),
    ];
    let (unit, diagnostics) = parse(TokenStream::new(tokens, 43));
    assert_eq!(diagnostics, vec![]);
    assert_eq!(unit.units.len(), 1);
    assert_eq!(unit.units[0].name, "a");
}

#[test]
fn an_expression_is_parsed_from_any_position() {
    let lexer = lex("x; y + 1; z");
    let (result, behind) = parse_primary_expression(&lexer, 2);
    assert_eq!(result, Ok(binary(Operator::Plus, reference("y"), number("1"))));
    assert_eq!(behind, 5);
    let (result, behind) = parse_primary_expression(&lexer, 1);
    assert_eq!(
        result,
        Err(Diagnostic::unexpected_token_found("Literal", ";", SourceRange::new(1, 2)))
    );
    assert_eq!(behind, 1);
    let (result, behind) = parse_primary_expression(&lexer, 7);
    assert_eq!(
        result,
        Err(Diagnostic::unexpected_token_found("Literal", "", SourceRange::new(11, 11)))
    );
    assert_eq!(behind, 7);
    let (result, behind) = parse_primary_expression(&lexer, 40);
    assert_eq!(
        result,
        Err(Diagnostic::unexpected_token_found("Literal", "", SourceRange::new(11, 11)))
    );
    assert_eq!(behind, 40);
}

#[test]
fn an_operator_without_its_right_operand_is_reported_at_what_follows() {
    let lexer = lex("a + * b");
    let (result, behind) = parse_primary_expression(&lexer, 0);
    assert_eq!(
        result,
        Err(Diagnostic::unexpected_token_found("Literal", "*", SourceRange::new(4, 5)))
    );
    assert_eq!(behind, 2);
    let lexer = lex("NOT");
    let (result, behind) = parse_primary_expression(&lexer, 0);
    assert_eq!(
        result,
        Err(Diagnostic::unexpected_token_found("Literal", "", SourceRange::new(3, 3)))
    );
    assert_eq!(behind, 1);
}

#[test]
fn a_diagnostic_is_made_of_what_was_expected_and_what_was_found() {
    let unexpected =
        Diagnostic::unexpected_token_found("KeywordThen", "CHARLIE", SourceRange::new(38, 45));
    assert_eq!(
        unexpected.get_message(),
        "Unexpected token: expected KeywordThen but found CHARLIE"
    );
    assert_eq!(unexpected.get_range(), SourceRange { start: 38, end: 45 });
    let unidentified = Diagnostic::unidentified_token("#", SourceRange::new(1, 2));
    assert_eq!(unidentified.get_message(), "Unidentified token: #");
    assert_eq!(unidentified.get_range(), SourceRange { start: 1, end: 2 });
    assert_eq!(quote("END_VAR"), "'END_VAR'");
    assert_eq!(quote(""), "''");
}

#[test]
fn an_else_block_ends_the_conditional_blocks() {
    let (unit, diagnostics) =
        parse(lex("PROGRAM p IF a THEN x; ELSE y; ELSIF b THEN z; END_IF END_PROGRAM"));
    assert_eq!(
        diagnostics[0],
        Diagnostic::unexpected_token_found("KeywordEndIf", "'ELSIF'", SourceRange::new(31, 36))
    );
    assert_eq!(
        unit.units[0].statements[0],
        Statement::IfStatement {
            blocks: vec![ConditionalBlock {
                condition: Box::new(reference("a")),
                body: vec![reference("x")],
            }],
            else_block: vec![reference("y")],
        }
    );
}

#[test]
fn a_declaration_in_error_does_not_end_its_block() {
    let (unit, diagnostics) =
        parse(lex("PROGRAM p VAR a : ; b : INT c : BOOL; d : x; END_VAR END_PROGRAM"));
    assert_eq!(
        diagnostics,
        vec![
            Diagnostic::unexpected_token_found("Identifier", ";", SourceRange::new(18, 19)),
            Diagnostic::unexpected_token_found("KeywordSemicolon", "c", SourceRange::new(28, 29)),
        ]
    );
    let names: Vec<&str> =
        unit.units[0].variable_blocks[0].variables.iter().map(|it| it.name.as_str()).collect();
    assert_eq!(names, vec!["d"]);
    assert_eq!(unit.units[0].variable_blocks[0].variables[0].data_type, Type::Custom);
    assert_eq!(unit.units[0].variable_blocks[0].variables[0].data_type_name, "x");
}
