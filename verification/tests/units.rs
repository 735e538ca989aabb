use langc::compiler_context::symbol_table::builtin_operator_registry::BuiltinOperatorRegistry;
use langc::compiler_context::context::CompilerContext;
use langc::compiler_context::global_string_interner::GlobalStringInterner;
use langc::compiler_context::scope::ScopeId;
use langc::compiler_context::symbol_table::SymbolTable;
use langc::compiler_context::type_arena::TypeArena;
use langc::lexer::token::TokenType;
use langc::lexer::tokenizer::tokenize_line;
use langc::syntax::parser::token_stream::TokenStream;
use langc::syntax::parser::expression::ExpressionParser;
use langc::ast::arena_ast::AST;
use langc::operators::binary_operators::BinaryOperator;
use langc::operators::precedence::OperatorPrecedenceGroup;
use langc::operators::unary_operators::UnaryOperator;
use langc::source::source_file::SourceFile;
use langc::source::source_span::{SourceLocation, SourceSpan};
use langc::types::builtin_type::BuiltinType;
use langc::types::data_type::{DataType, DataTypeId};

#[test]
fn binding_powers() {
    assert_eq!(OperatorPrecedenceGroup::Add.binding_power(), (10, 11));
    assert_eq!(OperatorPrecedenceGroup::Assign.binding_power(), (1, 1));
    assert_eq!(OperatorPrecedenceGroup::Prefix.binding_power(), (12, 12));
    assert_eq!(OperatorPrecedenceGroup::Postfix.binding_power(), (13, 14));
    assert!(OperatorPrecedenceGroup::Mul.is_left_assoc());
    assert!(!OperatorPrecedenceGroup::Assign.is_left_assoc());
    assert_eq!(OperatorPrecedenceGroup::Comma.as_u8(), 0);
}

#[test]
fn operator_groups_and_text() {
    assert_eq!(BinaryOperator::Add.precedence_group(), OperatorPrecedenceGroup::Add);
    assert_eq!(BinaryOperator::Mul.precedence_group(), OperatorPrecedenceGroup::Mul);
    assert_eq!(BinaryOperator::AddAssign.precedence_group(), OperatorPrecedenceGroup::Assign);
    assert_eq!(BinaryOperator::LessThan.precedence_group(), OperatorPrecedenceGroup::Relational);
    assert_eq!(BinaryOperator::Add.as_str(), "+");
    assert_eq!(UnaryOperator::Not.as_str(), "!");
}

#[test]
fn builtin_type_names() {
    assert_eq!(BuiltinType::from_str("int"), Some(BuiltinType::Int));
    assert_eq!(BuiltinType::from_str("bool"), Some(BuiltinType::Bool));
    assert_eq!(BuiltinType::from_str("str"), Some(BuiltinType::String));
    // the unit type has a display name but no source name
    assert_eq!(BuiltinType::from_str("unit"), None);
    assert_eq!(BuiltinType::Unit.name(), "unit");
    assert_eq!(BuiltinType::from_str("float"), None);
    for b in BuiltinType::all() {
        if b != BuiltinType::Unit {
            assert_eq!(BuiltinType::from_str(b.name()), Some(b));
        }
    }
    assert_eq!(BuiltinType::Int.as_usize(), 2);
}

#[test]
fn interner_gives_back_what_was_interned() {
    let mut interner = GlobalStringInterner::new();
    let a = interner.get_intern_symbol("alpha");
    let b = interner.get_intern_symbol("beta");
    let a2 = interner.get_intern_symbol("alpha");
    assert_eq!(a, 0);
    assert_eq!(b, 1);
    assert_eq!(a, a2);
    assert_eq!(interner.get_str(a), "alpha");
    assert_eq!(interner.get_str(b), "beta");
}

#[test]
fn symbol_table_lookup_after_insert() {
    let mut table = SymbolTable::new();
    let span = SourceSpan::single_line(0, 0, 1);
    assert!(table.insert(7, span, ScopeId::global()));
    assert!(!table.insert(7, span, ScopeId::global()));
    let inner = table.add_scope_with_parent(ScopeId::global(), Some(9));
    assert!(table.contains(7, inner));
    assert_eq!(table.lookup(7, inner).unwrap().name, 7);
    assert!(!table.contains(8, inner));
    assert!(table.insert(7, span, inner));
    assert_ne!(table.lookup(7, inner).unwrap().id, table.lookup(7, ScopeId::global()).unwrap().id);
    assert_eq!(table.scope_function_name(inner), Some(9));
    assert_eq!(table.scope_function_name(ScopeId::global()), None);
    table.assign_type(DataTypeId(2), 7, inner);
    assert_eq!(table.lookup(7, inner).unwrap().data_type_id, Some(DataTypeId(2)));
    assert_eq!(table.lookup(7, ScopeId::global()).unwrap().data_type_id, None);
}

#[test]
fn type_arena_adds_each_type_once() {
    let mut arena = TypeArena::new();
    assert_eq!(arena.type_count(), 4);
    let f = arena.add_if_new_type(DataType::Fn { param_types: vec![DataTypeId(2)], return_type: DataTypeId(1) });
    let g = arena.add_if_new_type(DataType::Fn { param_types: vec![DataTypeId(2)], return_type: DataTypeId(1) });
    assert_eq!(f, DataTypeId(4));
    assert_eq!(f, g);
    assert_eq!(arena.type_count(), 5);
    let int_id = arena.add_if_new_type(DataType::Builtin(BuiltinType::Int));
    assert_eq!(int_id, DataTypeId(2));
    assert_eq!(arena.builtin_type_id(BuiltinType::String), DataTypeId(3));
    let interner = GlobalStringInterner::new();
    assert_eq!(arena.format_type(f, &interner), "fn(int): bool");
}

#[test]
fn tokenize_a_line() {
    let mut ctx = CompilerContext::new();
    let tokens = tokenize_line(3, "    x += foo(12, \"hi\")", &mut ctx).ok().unwrap();
    let kinds: Vec<TokenType> = tokens.iter().map(|t| t.token_type).collect();
    assert_eq!(kinds, vec![
        TokenType::Indent(1),
        TokenType::Identifier,
        TokenType::PlusEquals,
        TokenType::Identifier,
        TokenType::OpenParen,
        TokenType::IntLiteral,
        TokenType::Comma,
        TokenType::StringLiteral,
        TokenType::CloseParen,
    ]);
    assert_eq!(tokens[3].span, SourceSpan::single_line(3, 9, 12));
    assert_eq!(ctx.string_interner.get_str(tokens[3].symbol), "foo");
    assert_eq!(ctx.string_interner.get_str(tokens[7].symbol), "\"hi\"");
    assert_eq!(tokens[0].span, SourceSpan::single_line(3, 0, 4));
}

#[test]
fn keywords_and_arrows() {
    let mut ctx = CompilerContext::new();
    let tokens = tokenize_line(0, "fn f() -> int", &mut ctx).ok().unwrap();
    assert_eq!(tokens[1].token_type, TokenType::Fn);
    assert_eq!(tokens[5].token_type, TokenType::RightArrow);
    let tokens = tokenize_line(0, "a>>=b>=c", &mut ctx).ok().unwrap();
    assert_eq!(tokens[2].token_type, TokenType::DoubleRightArrowEquals);
    assert_eq!(tokens[4].token_type, TokenType::GreaterEquals);
}

#[test]
fn source_file_lines() {
    let f = SourceFile::from_text("p", "a\r\nbc\n\nd");
    assert_eq!(f.line_count(), 4);
    assert_eq!(f.get_line(0), "a");
    assert_eq!(f.get_line(1), "bc");
    assert_eq!(f.get_line(2), "");
    assert_eq!(f.get_line(3), "d");
    assert_eq!(f.path_display(), "p");
}

#[test]
fn span_format_single_line() {
    let f = SourceFile::from_text("main.lang", "x = foo + 1");
    let span = SourceSpan::single_line(0, 4, 7);
    assert_eq!(span.format(&f), "File:  main.lang:1:4\n1 | x = foo + 1\n  |     ^^^\n");
}

#[test]
fn span_format_multi_line() {
    let text = "l1\nl2\nl3\nl4\nl5\nl6\nl7\nl8\nl9\nabcd\nefg\nhi";
    let f = SourceFile::from_text("m", text);
    let span = SourceSpan::new(SourceLocation::new(8, 1), SourceLocation::new(10, 2));
    assert_eq!(
        span.format(&f),
        "File:  m:9:1\n 9 | l9\n   |  ^\n10 | abcd\n   | ^^^^\n11 | efg\n   | ^^ \n"
    );
}

#[test]
fn location_shift() {
    let l = SourceLocation::new(2, 5).shift_right();
    assert_eq!(l, SourceLocation::new(2, 6));
}

#[test]
fn comma_and_same_type_assignment_need_no_arena_types() {
    let arena = TypeArena::new();
    let far = (DataTypeId(100), DataTypeId(200));
    assert_eq!(BinaryOperator::CommaOperator.builtin_operations(&far, &arena), Some(DataTypeId(200)));
    let same = (DataTypeId(300), DataTypeId(300));
    assert_eq!(BinaryOperator::Assign.builtin_operations(&same, &arena), Some(DataTypeId(300)));
}

#[test]
fn any_function_type_can_be_added() {
    let mut arena = TypeArena::new();
    let later = DataType::Fn { param_types: vec![DataTypeId(50)], return_type: DataTypeId(60) };
    let id = arena.add_if_new_type(later);
    assert_eq!(id, DataTypeId(4));
    let again = arena.add_if_new_type(DataType::Fn { param_types: vec![DataTypeId(50)], return_type: DataTypeId(60) });
    assert_eq!(again, DataTypeId(4));
    assert_eq!(arena.type_count(), 5);
}

#[test]
fn token_spans_are_byte_offsets() {
    let mut ctx = CompilerContext::new();
    let tokens = tokenize_line(0, "x = \"é\" + y", &mut ctx).ok().unwrap();
    let starts: Vec<(usize, usize)> = tokens.iter().skip(1).map(|t| (t.span.start.char_index, t.span.end.char_index)).collect();
    assert_eq!(starts, vec![(0, 1), (2, 3), (4, 8), (9, 10), (11, 12)]);
}

#[test]
fn underline_counts_bytes_of_the_line() {
    let f = SourceFile::from_text("u", "é1\nab");
    let span = SourceSpan::new(SourceLocation::new(0, 2), SourceLocation::new(1, 1));
    assert_eq!(span.format(&f), "File:  u:1:2\n1 | é1\n  |   ^\n2 | ab\n  | ^ \n");
}

#[test]
fn non_builtin_left_operand_needs_no_right_type() {
    let mut arena = TypeArena::new();
    let user = arena.add_if_new_type(DataType::UserDefined(0));
    let far = (user, DataTypeId(999));
    assert_eq!(BinaryOperator::Add.builtin_operations(&far, &arena), None);
}

#[test]
fn span_ending_on_an_earlier_line_formats() {
    let f = SourceFile::from_text("m", "ab\ncd");
    let span = SourceSpan::new(SourceLocation::new(1, 1), SourceLocation::new(0, 2));
    assert_eq!(span.format(&f), "File:  m:2:1\n2 | cd\n  |  ^\n1 | ab\n  | ^^\n");
}

#[test]
fn operator_token_reads_as_its_operator_text() {
    let mut ctx = CompilerContext::new();
    let tokens = tokenize_line(0, "a += b << c", &mut ctx).ok().unwrap();
    assert_eq!(ctx.string_interner.get_str(tokens[2].symbol), BinaryOperator::AddAssign.as_str());
    assert_eq!(ctx.string_interner.get_str(tokens[4].symbol), BinaryOperator::LeftShift.as_str());
}

#[test]
fn next_reads_the_tokens_in_order() {
    let mut ctx = CompilerContext::new();
    let tokens = tokenize_line(0, "a + b", &mut ctx).ok().unwrap();
    let mut stream = TokenStream::new(&tokens, 1);
    assert_eq!(stream.next().map(|t| t.token_type), Some(TokenType::Identifier));
    assert_eq!(stream.next().map(|t| t.token_type), Some(TokenType::Plus));
    assert_eq!(stream.next().map(|t| t.span.start.char_index), Some(4));
    assert!(stream.next().is_none());
    assert!(stream.next().is_none());
    assert!(stream.empty());
}

#[test]
fn expression_with_groups_calls_and_indexes_parses_to_its_end() {
    let mut ctx = CompilerContext::new();
    let tokens = tokenize_line(0, "(a + b) * f(c)[d]++ )", &mut ctx).ok().unwrap();
    let mut stream = TokenStream::new(&tokens, 1);
    let mut ast = AST::new();
    let r = ExpressionParser::parse(&mut stream, &mut ast, ScopeId::global());
    assert!(r.is_ok());
    // the parser stops before the closing parenthesis that does not belong to it
    assert_eq!(stream.pos, tokens.len() - 1);
}

#[test]
fn annotated_variable_parses() {
    let mut ctx = CompilerContext::new();
    let tokens = tokenize_line(0, "x: int = 5", &mut ctx).ok().unwrap();
    let mut stream = TokenStream::new(&tokens, 1);
    let mut ast = AST::new();
    assert!(ExpressionParser::parse(&mut stream, &mut ast, ScopeId::global()).is_ok());
    assert_eq!(stream.pos, tokens.len());
}
