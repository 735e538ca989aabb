use langc::compiler::compile_source;
use langc::compiler_context::context::CompilerContext;
use langc::error::spanned_error::{CompilerError, ErrorKind};
use langc::semantic::error::SemanticError;
use langc::source::source_file::SourceFile;
use langc::syntax::error::SyntaxError;
use langc::types::data_type::DataTypeId;

fn first_error(text: &str) -> (CompilerError, CompilerContext, SourceFile) {
    let source = SourceFile::from_text("e.lang", text);
    let mut ctx = CompilerContext::new();
    let e = compile_source(&source, &mut ctx).err().unwrap();
    (e, ctx, source)
}

#[test]
fn unmatched_parenthesis() {
    let (e, ctx, _) = first_error("x = (1");
    assert!(matches!(e.error_type, ErrorKind::Syntax(SyntaxError::UnmatchedGroupOpening(_))));
    assert_eq!(e.error_type.format(&ctx), "Error: Unmatched '('");
}

#[test]
fn missing_expression() {
    let (e, ctx, src) = first_error("x =");
    assert!(matches!(e.error_type, ErrorKind::Syntax(SyntaxError::ExpressionExpected)));
    assert_eq!(e.format(&src, &ctx), "Error: Expression expected\nFile:  e.lang:1:3\n1 | x =\n  |    ^\n");
}

#[test]
fn two_operands_in_a_row() {
    let (e, ctx, _) = first_error("x = 1 2");
    assert!(matches!(e.error_type, ErrorKind::Syntax(SyntaxError::InvalidExpression)));
    assert_eq!(e.span.start.char_index, 6);
    assert_eq!(e.error_type.format(&ctx), "Error: Invalid Expression");
}

#[test]
fn return_is_not_an_expression() {
    let (e, _ctx, _) = first_error("fn f() -> int\n    return 1");
    assert!(matches!(e.error_type, ErrorKind::Syntax(SyntaxError::InvalidExpression)));
}

#[test]
fn expected_token_with_actual() {
    let (e, ctx, _) = first_error("fn f(a int)\n    b = a");
    assert!(matches!(e.error_type, ErrorKind::Syntax(SyntaxError::ExpectedToken { .. })));
    assert_eq!(e.error_type.format(&ctx), "Error: ':' expected but got 'int'");
}

#[test]
fn globals_assigned_later_are_not_seen_by_function_bodies() {
    // function bodies are resolved before the statements around them
    let (e, _ctx, _) = first_error("x = 1\nfn f()\n    y = x");
    assert!(matches!(e.error_type, ErrorKind::Semantic(SemanticError::UndefinedVariable(_))));
}

#[test]
fn semantic_messages() {
    let ctx = CompilerContext::new();
    let cases = vec![
        (SemanticError::TypeInference, "Error: Cannot infer type"),
        (SemanticError::UndefinedType, "Error: Undefined type"),
        (SemanticError::FunctionExpected, "Error: Function expected"),
        (SemanticError::ReturnStatementOutsideFunction, "Error: Return statement outside of function"),
        (
            SemanticError::MismatchedTypes { expected: DataTypeId(2), actual: DataTypeId(1) },
            "Error: Mismatched types: expected int, found bool",
        ),
        (
            SemanticError::IncorrectReturnType { expected: DataTypeId(0), actual: DataTypeId(3) },
            "Error: Incorrect return type: expected unit, found str",
        ),
        (
            SemanticError::IncorrectArgumentCount { expected: 3, actual: 12 },
            "Error: Incorrect argument count: expected 3, found 12",
        ),
    ];
    for (e, text) in cases {
        assert_eq!(ErrorKind::Semantic(e).format(&ctx), text);
    }
}

#[test]
fn error_checks_before_formatting() {
    let ctx = CompilerContext::new();
    assert!(!ErrorKind::Semantic(SemanticError::UndefinedVariable(0)).is_within(&ctx));
    assert!(ErrorKind::Semantic(SemanticError::TypeInference).is_within(&ctx));
    assert!(!ErrorKind::Semantic(SemanticError::MismatchedTypes { expected: DataTypeId(9), actual: DataTypeId(1) }).is_within(&ctx));
    let src = SourceFile::from_text("s", "ab\ncd");
    let span = langc::source::source_span::SourceSpan::single_line(1, 0, 2);
    assert!(span.fits_source(&src));
    assert!(!langc::source::source_span::SourceSpan::single_line(2, 0, 1).fits_source(&src));
    assert!(!langc::source::source_span::SourceSpan::single_line(0, 2, 1).fits_source(&src));
}
