use vstd::prelude::*;
use crate::error::spanned_error::{CompilerError, ErrorKind, SpannableError};
use crate::operators::binary_operators::BinaryOperator;
use crate::operators::unary_operators::UnaryOperator;
use crate::source::source_span::SourceSpan;
use crate::types::data_type::DataTypeId;
use crate::compiler_context::context::CompilerContext;
use crate::compiler_context::type_arena::type_text;
use crate::operators::binary_operators::binary_operator_text;
use crate::operators::unary_operators::unary_operator_text;
use crate::text::{decimal, push_decimal, push_str_chars, string_from_chars};

verus! {

/// Errors of name resolution and type synthesis.
#[derive(Debug, Copy, Clone, PartialEq, Eq, Structural)]
pub enum SemanticError {
    /// The operator is not defined on the operand's type.
    MismatchedUnaryOperatorTypes(UnaryOperator, DataTypeId),
    /// The operator is not defined on the operands' types.
    MismatchedBinaryOperatorTypes(BinaryOperator, DataTypeId, DataTypeId),
    /// A function declares two parameters of this name.
    DuplicateParameterName(usize),
    /// A scope declares two functions, or a function and a variable, of this name.
    DuplicateFunctionName(usize),
    /// No declaration of this name is in scope.
    UndefinedVariable(usize),
    /// A type annotation names no known type.
    UndefinedType,
    /// The type of an expression cannot be determined.
    TypeInference,
    /// An argument's type differs from the parameter's.
    MismatchedTypes { expected: DataTypeId, actual: DataTypeId },
    /// A call passes a number of arguments other than the function takes.
    IncorrectArgumentCount { expected: usize, actual: usize },
    /// A call of something that is not a function.
    FunctionExpected,
    /// A `return` outside any function body.
    ReturnStatementOutsideFunction,
    /// A returned value whose type differs from the declared return type.
    IncorrectReturnType { expected: DataTypeId, actual: DataTypeId },
}

impl SpannableError for SemanticError {
    fn at(self, span: SourceSpan) -> (r: CompilerError)
        ensures
            r == (CompilerError { error_type: ErrorKind::Semantic(self), span }),
    {
        CompilerError { error_type: ErrorKind::Semantic(self), span }
    }
}

/// The message of a semantic error, given the context's types and interned
/// strings.
pub open spec fn semantic_error_text(e: SemanticError, ctx: CompilerContext) -> Seq<char> {
    let types = ctx.type_arena.types_view();
    let strings = ctx.string_interner@;
    match e {
        SemanticError::MismatchedUnaryOperatorTypes(op, t) => "Error: Operator "@ + unary_operator_text(op)
            + " not defined on "@ + type_text(types, t.0 as int, strings),
        SemanticError::MismatchedBinaryOperatorTypes(op, l, r) => "Error: Operator "@ + binary_operator_text(op)
            + " not defined for "@ + type_text(types, l.0 as int, strings) + " and "@ + type_text(types, r.0 as int, strings),
        SemanticError::UndefinedVariable(name) => "Error: Undefined variable: "@ + strings[name as int],
        SemanticError::DuplicateParameterName(name) => "Error: Duplicate parameter name: "@ + strings[name as int],
        SemanticError::DuplicateFunctionName(name) => "Error: Duplicate function name: "@ + strings[name as int],
        SemanticError::UndefinedType => "Error: Undefined type"@,
        SemanticError::TypeInference => "Error: Cannot infer type"@,
        SemanticError::MismatchedTypes { expected, actual } => "Error: Mismatched types: expected "@ + type_text(
            types,
            expected.0 as int,
            strings,
        ) + ", found "@ + type_text(types, actual.0 as int, strings),
        SemanticError::IncorrectArgumentCount { expected, actual } => "Error: Incorrect argument count: expected "@
            + decimal(expected as nat) + ", found "@ + decimal(actual as nat),
        SemanticError::FunctionExpected => "Error: Function expected"@,
        SemanticError::ReturnStatementOutsideFunction => "Error: Return statement outside of function"@,
        SemanticError::IncorrectReturnType { expected, actual } => "Error: Incorrect return type: expected "@ + type_text(
            types,
            expected.0 as int,
            strings,
        ) + ", found "@ + type_text(types, actual.0 as int, strings),
    }
}

impl SemanticError {
    /// The symbols and types the error names are those of the context.
    pub open spec fn within(&self, ctx: CompilerContext) -> bool {
        let n = ctx.type_arena.data_types@.len();
        let m = ctx.string_interner@.len();
        match *self {
            SemanticError::MismatchedUnaryOperatorTypes(_, t) => t.0 < n,
            SemanticError::MismatchedBinaryOperatorTypes(_, l, r) => l.0 < n && r.0 < n,
            SemanticError::UndefinedVariable(name) => name < m,
            SemanticError::DuplicateParameterName(name) => name < m,
            SemanticError::DuplicateFunctionName(name) => name < m,
            SemanticError::MismatchedTypes { expected, actual } => expected.0 < n && actual.0 < n,
            SemanticError::IncorrectReturnType { expected, actual } => expected.0 < n && actual.0 < n,
            _ => true,
        }
    }

    /// The message of the error.
    pub fn format(&self, ctx: &CompilerContext) -> (r: String)
        requires
            ctx.wf(),
            self.within(*ctx),
        ensures
            r@ == semantic_error_text(*self, *ctx),
    {
        let mut out: Vec<char> = Vec::new();
        match *self {
            SemanticError::MismatchedUnaryOperatorTypes(op, t) => {
                push_str_chars(&mut out, "Error: Operator ");
                push_str_chars(&mut out, op.as_str());
                push_str_chars(&mut out, " not defined on ");
                push_str_chars(&mut out, ctx.type_arena.format_type(t, &ctx.string_interner).as_str());
            },
            SemanticError::MismatchedBinaryOperatorTypes(op, l, r) => {
                push_str_chars(&mut out, "Error: Operator ");
                push_str_chars(&mut out, op.as_str());
                push_str_chars(&mut out, " not defined for ");
                push_str_chars(&mut out, ctx.type_arena.format_type(l, &ctx.string_interner).as_str());
                push_str_chars(&mut out, " and ");
                push_str_chars(&mut out, ctx.type_arena.format_type(r, &ctx.string_interner).as_str());
            },
            SemanticError::UndefinedVariable(name) => {
                push_str_chars(&mut out, "Error: Undefined variable: ");
                push_str_chars(&mut out, ctx.string_interner.get_str(name));
            },
            SemanticError::DuplicateParameterName(name) => {
                push_str_chars(&mut out, "Error: Duplicate parameter name: ");
                push_str_chars(&mut out, ctx.string_interner.get_str(name));
            },
            SemanticError::DuplicateFunctionName(name) => {
                push_str_chars(&mut out, "Error: Duplicate function name: ");
                push_str_chars(&mut out, ctx.string_interner.get_str(name));
            },
            SemanticError::UndefinedType => push_str_chars(&mut out, "Error: Undefined type"),
            SemanticError::TypeInference => push_str_chars(&mut out, "Error: Cannot infer type"),
            SemanticError::MismatchedTypes { expected, actual } => {
                push_str_chars(&mut out, "Error: Mismatched types: expected ");
                push_str_chars(&mut out, ctx.type_arena.format_type(expected, &ctx.string_interner).as_str());
                push_str_chars(&mut out, ", found ");
                push_str_chars(&mut out, ctx.type_arena.format_type(actual, &ctx.string_interner).as_str());
            },
            SemanticError::IncorrectArgumentCount { expected, actual } => {
                push_str_chars(&mut out, "Error: Incorrect argument count: expected ");
                push_decimal(&mut out, expected);
                push_str_chars(&mut out, ", found ");
                push_decimal(&mut out, actual);
            },
            SemanticError::FunctionExpected => push_str_chars(&mut out, "Error: Function expected"),
            SemanticError::ReturnStatementOutsideFunction => push_str_chars(&mut out, "Error: Return statement outside of function"),
            SemanticError::IncorrectReturnType { expected, actual } => {
                push_str_chars(&mut out, "Error: Incorrect return type: expected ");
                push_str_chars(&mut out, ctx.type_arena.format_type(expected, &ctx.string_interner).as_str());
                push_str_chars(&mut out, ", found ");
                push_str_chars(&mut out, ctx.type_arena.format_type(actual, &ctx.string_interner).as_str());
            },
        }
        assert(out@ =~= semantic_error_text(*self, *ctx));
        string_from_chars(&out)
    }
}

} // verus!
