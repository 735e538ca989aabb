use langc::compiler::{compile_source, fits_interner};
use langc::compiler_context::context::CompilerContext;
use langc::error::spanned_error::ErrorKind;
use langc::lexer::error::LexerError;
use langc::semantic::error::SemanticError;
use langc::source::source_file::SourceFile;
use langc::syntax::error::SyntaxError;
use langc::types::data_type::DataTypeId;
use langc::ast::ast_node::ASTNodeType;
use langc::operators::binary_operators::BinaryOperator;

fn compile(text: &str) -> (Result<Option<langc::semantic::AnnotatedAST>, langc::error::spanned_error::CompilerError>, CompilerContext, SourceFile) {
    let source = SourceFile::from_text("test.lang", text);
    let mut ctx = CompilerContext::new();
    assert!(fits_interner(&source, 0));
    let r = compile_source(&source, &mut ctx);
    (r, ctx, source)
}

#[test]
fn assignments_get_int_type() {
    let (r, _ctx, _src) = compile("x = 1\ny = x + 2");
    let annotated = r.ok().unwrap().unwrap();
    assert_eq!(annotated.ast.node_arena.len(), 8);
    for (i, t) in annotated.ast_expr_data_types.iter().enumerate() {
        assert_eq!(*t, Some(DataTypeId(2)), "node {}", i);
    }
    assert_eq!(annotated.ast.statement_root_node_ids.len(), 2);
}

#[test]
fn function_call_has_return_type() {
    let (r, ctx, _src) = compile("fn add(a: int, b: int) -> int\n    c = a + b\nx = add(1, 2)");
    let annotated = r.ok().unwrap().unwrap();
    // the function type is the fifth type of the arena, after the builtins
    assert_eq!(ctx.type_arena.data_types.len(), 5);
    assert_eq!(ctx.type_arena.format_type(DataTypeId(4), &ctx.string_interner), "fn(int, int): int");
    let nodes = &annotated.ast.node_arena;
    let mut calls = 0;
    for (i, node) in nodes.iter().enumerate() {
        match &node.node_type {
            ASTNodeType::FunctionDef(_) => assert_eq!(annotated.ast_expr_data_types[i], None),
            ASTNodeType::FunctionCall(_) => {
                calls += 1;
                assert_eq!(annotated.ast_expr_data_types[i], Some(DataTypeId(2)));
            },
            // the comma between the arguments is left out of the call
            ASTNodeType::BinaryOperator(op) if op.op_type == BinaryOperator::CommaOperator => {
                assert_eq!(annotated.ast_expr_data_types[i], None)
            },
            _ => assert!(annotated.ast_expr_data_types[i].is_some()),
        }
    }
    assert_eq!(calls, 1);
}

#[test]
fn undefined_variable_is_reported_with_its_span() {
    let (r, ctx, src) = compile("y = z");
    let e = r.err().unwrap();
    let z = ctx.string_interner.get_str(match e.error_type {
        ErrorKind::Semantic(SemanticError::UndefinedVariable(s)) => s,
        _ => panic!("wrong error"),
    }).to_string();
    assert_eq!(z, "z");
    assert_eq!(e.span.start.char_index, 4);
    assert_eq!(e.span.end.char_index, 5);
    assert_eq!(e.format(&src, &ctx), "Error: Undefined variable: z\nFile:  test.lang:1:4\n1 | y = z\n  |     ^\n");
}

#[test]
fn wrong_argument_count() {
    let (r, _ctx, _src) = compile("fn f(a: int)\n    b = a\nx = f(1, 2)");
    match r.err().unwrap().error_type {
        ErrorKind::Semantic(SemanticError::IncorrectArgumentCount { expected, actual }) => {
            assert_eq!(expected, 1);
            assert_eq!(actual, 2);
        },
        _ => panic!("wrong error"),
    }
}

#[test]
fn mismatched_argument_type() {
    let (r, _ctx, _src) = compile("fn f(a: int)\n    b = a\nx = f(\"s\")");
    match r.err().unwrap().error_type {
        ErrorKind::Semantic(SemanticError::MismatchedTypes { expected, actual }) => {
            assert_eq!(expected, DataTypeId(2));
            assert_eq!(actual, DataTypeId(3));
        },
        _ => panic!("wrong error"),
    }
}

#[test]
fn calling_a_non_function() {
    let (r, _ctx, _src) = compile("x = 1\ny = x(2)");
    assert!(matches!(r.err().unwrap().error_type, ErrorKind::Semantic(SemanticError::FunctionExpected)));
}

#[test]
fn mismatched_operand_types() {
    let (r, ctx, _src) = compile("x = 1 + \"s\"");
    let e = r.err().unwrap();
    match e.error_type {
        ErrorKind::Semantic(SemanticError::MismatchedBinaryOperatorTypes(_, l, r)) => {
            assert_eq!(l, DataTypeId(2));
            assert_eq!(r, DataTypeId(3));
        },
        _ => panic!("wrong error"),
    }
    assert_eq!(e.error_type.format(&ctx), "Error: Operator + not defined for int and str");
}

#[test]
fn mismatched_unary_operand() {
    let (r, ctx, _src) = compile("x = !1");
    let e = r.err().unwrap();
    assert!(matches!(e.error_type, ErrorKind::Semantic(SemanticError::MismatchedUnaryOperatorTypes(_, DataTypeId(2)))));
    assert_eq!(e.error_type.format(&ctx), "Error: Operator ! not defined on int");
}

#[test]
fn undefined_parameter_type() {
    let (r, _ctx, _src) = compile("fn f(a: foo)\n    b = a");
    assert!(matches!(r.err().unwrap().error_type, ErrorKind::Semantic(SemanticError::UndefinedType)));
}

#[test]
fn duplicate_parameter() {
    let (r, ctx, _src) = compile("fn f(a: int, a: int)\n    b = a");
    let e = r.err().unwrap();
    assert!(matches!(e.error_type, ErrorKind::Semantic(SemanticError::DuplicateParameterName(_))));
    assert_eq!(e.error_type.format(&ctx), "Error: Duplicate parameter name: a");
}

#[test]
fn duplicate_function() {
    let (r, ctx, _src) = compile("fn f()\n    x = 1\nfn f()\n    y = 2");
    let e = r.err().unwrap();
    assert!(matches!(e.error_type, ErrorKind::Semantic(SemanticError::DuplicateFunctionName(_))));
    assert_eq!(e.error_type.format(&ctx), "Error: Duplicate function name: f");
}

#[test]
fn if_elif_else_chain() {
    let (r, ctx, _src) = compile("x = 1\nif x == 1\n    y = 2\nelif x == 2\n    y = 3\nelse\n    y = 4");
    let annotated = r.ok().unwrap().unwrap();
    // the global scope and one scope per body
    assert_eq!(ctx.symbol_table.scopes.len(), 4);
    let mut found = false;
    for node in annotated.ast.node_arena.iter() {
        if let ASTNodeType::If(if_node) = &node.node_type {
            assert_eq!(if_node.condition_blocks.len(), 2);
            assert!(if_node.else_body.is_some());
            found = true;
        }
    }
    assert!(found);
}

#[test]
fn loops_are_not_typed() {
    let (r, _ctx, _src) = compile("x = 1\nwhile x < 3\n    x = x + 1");
    assert!(r.ok().unwrap().is_none());
}

#[test]
fn body_indented_too_far() {
    let (r, _ctx, _src) = compile("fn f()\n        x = 1");
    let e = r.err().unwrap();
    assert!(matches!(e.error_type, ErrorKind::Syntax(SyntaxError::IndentTooLarge)));
    assert_eq!(e.span.start.line_index, 1);
}

#[test]
fn unaligned_indent() {
    let (r, ctx, _src) = compile("  x = 1");
    let e = r.err().unwrap();
    assert!(matches!(e.error_type, ErrorKind::Lexer(LexerError::UnalignedIndent(2))));
    assert_eq!(e.error_type.format(&ctx), "Error: Unaligned Indent: Indent size 2 is not a multiple of 4");
}

#[test]
fn invalid_token() {
    let (r, _ctx, _src) = compile("x = $");
    assert!(matches!(r.err().unwrap().error_type, ErrorKind::Lexer(LexerError::InvalidToken(_))));
}

#[test]
fn missing_close_paren_in_parameters() {
    let (r, ctx, _src) = compile("fn f(a: int\n    b = a");
    let e = r.err().unwrap();
    assert!(matches!(e.error_type, ErrorKind::Syntax(SyntaxError::ExpectedToken { .. })));
    assert_eq!(e.error_type.format(&ctx), "Error: ')' expected");
}

#[test]
fn interner_budget() {
    let source = SourceFile::from_text("a", "abc\nd");
    assert!(fits_interner(&source, 0));
    assert!(fits_interner(&source, (u32::MAX as usize) - 9));
    assert!(!fits_interner(&source, (u32::MAX as usize) - 8));
}

#[test]
fn one_root_per_line_except_elif_and_else() {
    let source = SourceFile::from_text("t", "x = 1\n\nif x == 1\n    y = 2\nelif x == 3\n    y = 5\nelse\n    y = 3\nz = x");
    let mut ctx = CompilerContext::new();
    let lines = langc::lexer::lexical_analysis(&source, &mut ctx).ok().unwrap();
    let ast = langc::syntax::syntax_analysis(lines, &mut ctx).ok().unwrap();
    // x = 1, if, y = 2, y = 5, y = 3, z = x
    assert_eq!(ast.statement_root_node_ids.len(), 6);
}

fn binary_at(ast: &langc::ast::arena_ast::AST, id: usize) -> (BinaryOperator, usize, usize) {
    match &ast.node_arena[id].node_type {
        ASTNodeType::BinaryOperator(n) => (n.op_type, n.left.0, n.right.0),
        _ => panic!("node {} is not a binary operation", id),
    }
}

#[test]
fn operators_bind_by_precedence() {
    let (r, _ctx, _src) = compile("x = 1 + 2 * 3 - 4");
    let annotated = r.ok().unwrap().unwrap();
    let ast = &annotated.ast;
    let root = ast.statement_root_node_ids[0].0;
    let (op, _, rhs) = binary_at(ast, root);
    assert_eq!(op, BinaryOperator::Assign);
    let (op, sum, four) = binary_at(ast, rhs);
    assert_eq!(op, BinaryOperator::Sub);
    assert!(matches!(ast.node_arena[four].node_type, ASTNodeType::IntLiteral(_)));
    let (op, one, product) = binary_at(ast, sum);
    assert_eq!(op, BinaryOperator::Add);
    assert!(matches!(ast.node_arena[one].node_type, ASTNodeType::IntLiteral(_)));
    assert_eq!(binary_at(ast, product).0, BinaryOperator::Mul);
}

#[test]
fn assignment_groups_to_the_right() {
    let (r, _ctx, _src) = compile("x = 1\ny = 2\nx = y = 3");
    let annotated = r.ok().unwrap().unwrap();
    let ast = &annotated.ast;
    let root = ast.statement_root_node_ids[2].0;
    let (op, lhs, rhs) = binary_at(ast, root);
    assert_eq!(op, BinaryOperator::Assign);
    assert!(matches!(ast.node_arena[lhs].node_type, ASTNodeType::Variable(_)));
    assert_eq!(binary_at(ast, rhs).0, BinaryOperator::Assign);
}

#[test]
fn every_variable_resolves_after_analysis() {
    let (r, ctx, _src) = compile("fn add(a: int, b: int) -> int\n    c = a + b\nx = add(1, 2)\ny = x * 2");
    let annotated = match r { Ok(a) => a.unwrap(), Err(e) => panic!("{:?}", e) };
    let mut variables = 0;
    for node in annotated.ast.node_arena.iter() {
        if let ASTNodeType::Variable(v) = &node.node_type {
            variables += 1;
            assert!(ctx.symbol_table.contains(v.name, node.scope_id));
        }
    }
    assert_eq!(variables, 7);
}

#[test]
fn empty_file_compiles_to_empty_tree() {
    let (r, _ctx, _src) = compile("");
    let annotated = match r { Ok(a) => a.unwrap(), Err(e) => panic!("{:?}", e) };
    assert_eq!(annotated.ast.node_arena.len(), 0);
    assert_eq!(annotated.ast_expr_data_types.len(), 0);
}

#[test]
fn headers_with_empty_bodies_parse() {
    // loops are parsed, then left out of type synthesis
    let (r, _ctx, _src) = compile("fn f()\nx = 1\nwhile x\nfor i in x\nif -x\n");
    match r {
        Ok(None) => {},
        Ok(Some(_)) => panic!("loops are not typed"),
        Err(e) => panic!("{:?}", e),
    }
}

#[test]
fn assigned_value_is_resolved_before_the_target() {
    let (r, ctx, _src) = compile("x = x");
    let e = r.err().unwrap();
    match e.error_type {
        ErrorKind::Semantic(SemanticError::UndefinedVariable(s)) => assert_eq!(ctx.string_interner.get_str(s), "x"),
        _ => panic!("wrong error"),
    }
    assert_eq!(e.span.start.char_index, 4);
}

#[test]
fn assignment_of_another_type_to_a_typed_variable_fails() {
    let (r, _ctx, _src) = compile("x = 1\nx = \"s\"");
    match r.err().unwrap().error_type {
        ErrorKind::Semantic(SemanticError::MismatchedBinaryOperatorTypes(BinaryOperator::Assign, l, r)) => {
            assert_eq!(l, DataTypeId(2));
            assert_eq!(r, DataTypeId(3));
        },
        _ => panic!("wrong error"),
    }
}

#[test]
fn nested_type_arguments_closed_by_one_token_parse() {
    // the annotation parses; its names are not types
    let (r, _ctx, _src) = compile("fn f(x: list<list<int>>)\n    y = x");
    assert!(matches!(r.err().unwrap().error_type, ErrorKind::Semantic(SemanticError::UndefinedType)));
}

#[test]
fn missing_operand_is_reported() {
    let (r, _ctx, _src) = compile("x = 1 +");
    assert!(matches!(r.err().unwrap().error_type, ErrorKind::Syntax(SyntaxError::ExpressionExpected)));
}

#[test]
fn unclosed_call_is_reported() {
    let (r, _ctx, _src) = compile("fn f(a: int)\n    b = a\nx = f(1");
    assert!(matches!(r.err().unwrap().error_type, ErrorKind::Syntax(SyntaxError::UnmatchedGroupOpening(_))));
}

fn parse_text(text: &str) -> langc::ast::arena_ast::AST {
    let source = SourceFile::from_text("t", text);
    let mut ctx = CompilerContext::new();
    let lines = langc::lexer::lexical_analysis(&source, &mut ctx).ok().unwrap();
    langc::syntax::syntax_analysis(lines, &mut ctx).ok().unwrap()
}

#[test]
fn expression_tree_reads_back_in_token_order() {
    let ast = parse_text("a + b * c");
    let root = ast.statement_root_node_ids[0].0;
    let (op, a, product) = binary_at(&ast, root);
    assert_eq!(op, BinaryOperator::Add);
    let (op, b, c) = binary_at(&ast, product);
    assert_eq!(op, BinaryOperator::Mul);
    let column = |id: usize| ast.node_arena[id].span.start.char_index;
    assert!(matches!(ast.node_arena[a].node_type, ASTNodeType::Variable(_)));
    assert!(matches!(ast.node_arena[b].node_type, ASTNodeType::Variable(_)));
    assert!(matches!(ast.node_arena[c].node_type, ASTNodeType::Variable(_)));
    assert_eq!((column(a), column(root), column(b), column(product), column(c)), (0, 2, 4, 6, 8));
}

#[test]
fn if_line_without_body_has_one_branch() {
    let ast = parse_text("if -x < 2");
    let root = ast.statement_root_node_ids[0].0;
    match &ast.node_arena[root].node_type {
        ASTNodeType::If(n) => {
            assert_eq!(n.condition_blocks.len(), 1);
            assert!(n.else_body.is_none());
            assert_eq!(n.condition_blocks[0].body.statements.len(), 0);
            let (op, neg, two) = binary_at(&ast, n.condition_blocks[0].condition.0);
            assert_eq!(op, BinaryOperator::LessThan);
            assert!(matches!(ast.node_arena[neg].node_type, ASTNodeType::UnaryOperator(_)));
            assert!(matches!(ast.node_arena[two].node_type, ASTNodeType::IntLiteral(_)));
        },
        _ => panic!("the root is not an if"),
    }
}

#[test]
fn flat_program_without_loops_is_analysed() {
    let (r, _ctx, _src) = compile("x = 1\nif x < 2\ny = -x * 3");
    let annotated = r.ok().unwrap().unwrap();
    assert_eq!(annotated.ast.statement_root_node_ids.len(), 3);
}

#[test]
fn call_arguments_come_in_source_order() {
    let ast = parse_text("f(a, b + c, d)");
    let root = ast.statement_root_node_ids[0].0;
    match &ast.node_arena[root].node_type {
        ASTNodeType::FunctionCall(call) => {
            assert_eq!(call.args.len(), 3);
            let column = |id: usize| ast.node_arena[id].span.start.char_index;
            assert_eq!(column(call.args[0].0), 2);
            assert_eq!(binary_at(&ast, call.args[1].0).0, BinaryOperator::Add);
            assert_eq!(column(call.args[1].0), 7);
            assert_eq!(column(call.args[2].0), 12);
        },
        _ => panic!("the root is not a call"),
    }
}

#[test]
fn flat_function_header_has_its_name_and_nothing_else() {
    let ast = parse_text("fn main()");
    let root = ast.statement_root_node_ids[0].0;
    match &ast.node_arena[root].node_type {
        ASTNodeType::FunctionDef(f) => {
            assert!(f.params.is_empty());
            assert!(f.return_type.is_none());
            assert!(f.body.statements.is_empty());
        },
        _ => panic!("the root is not a function definition"),
    }
}

#[test]
fn elif_and_else_branches_keep_their_bodies() {
    let ast = parse_text("if x\n    a = 1\nelif y\n    b = 2\n    c = 3\nelif z\nelse\n    d = 4");
    assert_eq!(ast.statement_root_node_ids.len(), 5);
    let root = *ast.statement_root_node_ids.last().unwrap();
    match &ast.node_arena[root.0].node_type {
        ASTNodeType::If(n) => {
            assert_eq!(n.condition_blocks.len(), 3);
            let sizes: Vec<usize> = n.condition_blocks.iter().map(|b| b.body.statements.len()).collect();
            assert_eq!(sizes, vec![1, 2, 0]);
            assert_eq!(n.else_body.as_ref().unwrap().statements.len(), 1);
            let column = |id: usize| ast.node_arena[id].span.start.char_index;
            assert_eq!(column(n.condition_blocks[1].condition.0), 5);
        },
        _ => panic!("the last root is not the if"),
    }
}

#[test]
fn body_holds_each_statement_one_level_deeper() {
    let ast = parse_text("fn f()\n    x = 1\n    if x\n        y = 2\n    z = 3\nw = 4");
    let mut found = false;
    for node in ast.node_arena.iter() {
        if let ASTNodeType::FunctionDef(f) = &node.node_type {
            let kinds: Vec<&str> = f.body.statements.iter().map(|id| match &ast.node_arena[id.0].node_type {
                ASTNodeType::If(_) => "if",
                ASTNodeType::BinaryOperator(_) => "expression",
                _ => "other",
            }).collect();
            assert_eq!(kinds, vec!["expression", "if", "expression"]);
            found = true;
        }
    }
    assert!(found);
}

#[test]
fn names_of_a_program_with_loops_resolve_first() {
    let (r, _ctx, _src) = compile("while y < 3\n    y = 1");
    assert!(matches!(r.err().unwrap().error_type, ErrorKind::Semantic(SemanticError::UndefinedVariable(_))));
}

#[test]
fn stray_token_after_an_operator_chain_is_reported() {
    let (r, _ctx, _src) = compile("x = 1 + 2 3");
    let e = r.err().unwrap();
    assert!(matches!(e.error_type, ErrorKind::Syntax(SyntaxError::InvalidExpression)));
    assert_eq!(e.span.start.char_index, 10);
}

#[test]
fn unclosed_call_with_several_arguments_is_reported() {
    let (r, _ctx, _src) = compile("fn f(a: int, b: int)\n    c = a\nx = f(1, 2");
    assert!(matches!(r.err().unwrap().error_type, ErrorKind::Syntax(SyntaxError::UnmatchedGroupOpening(_))));
}

#[test]
fn call_then_index_reads_back_in_token_order() {
    let ast = parse_text("f(a)[b]");
    let root = ast.statement_root_node_ids[0].0;
    match &ast.node_arena[root].node_type {
        ASTNodeType::Index(ix) => {
            assert!(matches!(ast.node_arena[ix.arg.0].node_type, ASTNodeType::Variable(_)));
            match &ast.node_arena[ix.operand.0].node_type {
                ASTNodeType::FunctionCall(call) => {
                    assert_eq!(call.args.len(), 1);
                    assert!(matches!(ast.node_arena[call.function.0].node_type, ASTNodeType::Variable(_)));
                },
                _ => panic!("the indexed expression is not a call"),
            }
        },
        _ => panic!("the root is not an index"),
    }
    assert_eq!(ast.node_arena[root].span.start.char_index, 4);
}

#[test]
fn parentheses_group_an_operand() {
    let ast = parse_text("(a + b) * c");
    let root = ast.statement_root_node_ids[0].0;
    let (op, sum, c) = binary_at(&ast, root);
    assert_eq!(op, BinaryOperator::Mul);
    assert_eq!(binary_at(&ast, sum).0, BinaryOperator::Add);
    assert!(matches!(ast.node_arena[c].node_type, ASTNodeType::Variable(_)));
}

#[test]
fn second_child_indented_too_far_is_reported() {
    let (r, _ctx, _src) = compile("fn f()\n    x = 1\n            y = 2");
    assert!(matches!(r.err().unwrap().error_type, ErrorKind::Syntax(SyntaxError::IndentTooLarge)));
}

#[test]
fn nested_program_with_general_expressions_parses() {
    let ast = parse_text(
        "fn f()\n    x: int = (1 + 2) * 3\n    while x > 0\n        x -= 1\n    if f()\n        y = x++\n    elif a[0]\n        z = 1\n    else\n        w = 2\nfor i in range(3)\n    k = i",
    );
    // one root per line, except the elif and else lines
    assert_eq!(ast.statement_root_node_ids.len(), 10);
}

#[test]
fn lexing_reports_the_first_line_that_fails() {
    let (r, _ctx, _src) = compile("x = 1\ny = $\nz = @");
    let e = r.err().unwrap();
    assert!(matches!(e.error_type, ErrorKind::Lexer(LexerError::InvalidToken(_))));
    assert_eq!(e.span.start.line_index, 1);
}

#[test]
fn lexing_error_comes_before_syntax_errors() {
    let (r, _ctx, _src) = compile("x = (1\n  y = 2");
    assert!(matches!(r.err().unwrap().error_type, ErrorKind::Lexer(LexerError::UnalignedIndent(2))));
}

#[test]
fn stray_token_after_a_call_is_reported() {
    let (r, _ctx, _src) = compile("x = f(a) b");
    let e = r.err().unwrap();
    assert!(matches!(e.error_type, ErrorKind::Syntax(SyntaxError::InvalidExpression)));
    assert_eq!(e.span.start.char_index, 9);
}

#[test]
fn stray_token_inside_brackets_is_reported() {
    let (r, _ctx, _src) = compile("x = (a[1 2]) + 1");
    let e = r.err().unwrap();
    assert!(matches!(e.error_type, ErrorKind::Syntax(SyntaxError::InvalidExpression)));
    assert_eq!(e.span.start.char_index, 9);
}

#[test]
fn bodies_nest_at_every_depth() {
    let ast = parse_text("fn f()\n    if x\n        while y\n            z = 1\n            w = 2\n    v = 3");
    let f = ast.statement_root_node_ids.iter().map(|id| id.0).find(|&i| matches!(ast.node_arena[i].node_type, ASTNodeType::FunctionDef(_))).unwrap();
    match &ast.node_arena[f].node_type {
        ASTNodeType::FunctionDef(def) => {
            assert_eq!(def.body.statements.len(), 2);
            match &ast.node_arena[def.body.statements[0].0].node_type {
                ASTNodeType::If(n) => {
                    assert_eq!(n.condition_blocks.len(), 1);
                    assert_eq!(n.condition_blocks[0].body.statements.len(), 1);
                    match &ast.node_arena[n.condition_blocks[0].body.statements[0].0].node_type {
                        ASTNodeType::While(w) => assert_eq!(w.body.statements.len(), 2),
                        _ => panic!("the if body does not hold the while loop"),
                    }
                },
                _ => panic!("the function body does not start with the if"),
            }
        },
        _ => unreachable!(),
    }
}
