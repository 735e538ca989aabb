use vstd::prelude::*;
use crate::ast::arena_ast::AST;
use crate::ast::ast_node::{ASTNodeId, ASTNodeType, children_below, block_scopes_below, is_expression, signature_names_below};
use crate::ast::block_body::Block;
use crate::ast::function_call_node::FunctionCallNode;
use crate::ast::function_def_node::FunctionDefNode;
use crate::ast::operator_nodes::BinaryOperatorNode;
use crate::compiler_context::context::CompilerContext;
use crate::compiler_context::scope::ScopeId;
use crate::compiler_context::symbol_table::{SymbolTable, declaring_scope, lemma_declaring_scope, resolve_in};
use crate::compiler_context::symbol_table::builtin_operator_registry::{binary_operation_type, builtin_id, unary_operation_type};
use crate::compiler_context::symbol_table::operator_registry::{OperatorRegistry, registered_type};
use crate::compiler_context::type_arena::{TypeArena, components_before};
use crate::error::spanned_error::{CompilerError, ErrorKind, SpannableError};
use crate::operators::binary_operators::BinaryOperator;
use crate::operators::unary_operators::UnaryOperator;
use crate::semantic::error::SemanticError;
use crate::source::source_span::SourceSpan;
use crate::types::builtin_type::BuiltinType;
use crate::types::data_type::{DataType, DataTypeId, DataTypeView};

verus! {

/// `after` keeps every type of `before` under its identifier and may add
/// types after them.
pub open spec fn arena_extends(before: TypeArena, after: TypeArena) -> bool {
    &&& after.wf()
    &&& before.data_types@.len() <= after.data_types@.len()
    &&& forall|i: int| 0 <= i < before.data_types@.len() ==> #[trigger] after.types_view()[i] == before.types_view()[i]
    &&& after.user_defined_type_ids == before.user_defined_type_ids
}

/// Every type recorded for a symbol is a type of an arena of `n` types.
pub open spec fn table_types_below(table: SymbolTable, n: int) -> bool {
    forall|i: int, k: usize|
        0 <= i < table.scopes@.len() && #[trigger] table.scopes@[i].symbols_view().contains_key(k)
            ==> (table.scopes@[i].symbols_view()[k].data_type_id matches Some(t) ==> t.0 < n)
}

/// `after` is `before` with types recorded for some symbols: the same
/// scopes, declaring the same names.
pub open spec fn types_assigned(before: SymbolTable, after: SymbolTable) -> bool {
    &&& after.wf()
    &&& after.next_symbol_id == before.next_symbol_id
    &&& after.scopes@.len() == before.scopes@.len()
    &&& forall|i: int| 0 <= i < before.scopes@.len() ==> {
        &&& (#[trigger] after.scopes@[i]).parent == before.scopes@[i].parent
        &&& after.scopes@[i].function == before.scopes@[i].function
        &&& after.scopes@[i].symbols_view().dom() == before.scopes@[i].symbols_view().dom()
        &&& forall|k: usize| before.scopes@[i].symbols_view().contains_key(k) && before.scopes@[i].symbols_view()[k].data_type_id is Some
            ==> (#[trigger] after.scopes@[i].symbols_view()[k]).data_type_id is Some
    }
}

/// A name whose symbol has a type keeps denoting a symbol with a type as
/// types are recorded.
pub proof fn lemma_resolved_typed_kept(a: SymbolTable, b: SymbolTable, name: usize, id: int)
    requires
        a.wf(),
        types_assigned(a, b),
        resolve_in(a.scopes@, name, id) matches Some(s) && s.data_type_id is Some,
    ensures
        resolve_in(b.scopes@, name, id) matches Some(s) && s.data_type_id is Some,
    decreases id,
{
    assert(b.scopes@[id].symbols_view().dom() == a.scopes@[id].symbols_view().dom());
    assert(b.scopes@[id].parent == a.scopes@[id].parent);
    if a.scopes@[id].symbols_view().contains_key(name) {
        assert(b.scopes@[id].symbols_view().contains_key(name));
        assert(b.scopes@[id].symbols_view()[name].data_type_id is Some);
    } else {
        assert(!b.scopes@[id].symbols_view().contains_key(name));
        let p = a.scopes@[id].parent->0;
        lemma_resolved_typed_kept(a, b, name, p.0 as int);
    }
}

/// A step of type synthesis on the context: the interner untouched, types
/// only added to the arena, types only recorded in the symbol table.
pub open spec fn context_step(before: CompilerContext, after: CompilerContext) -> bool {
    &&& after.wf()
    &&& after.string_interner == before.string_interner
    &&& arena_extends(before.type_arena, after.type_arena)
    &&& types_assigned(before.symbol_table, after.symbol_table)
}

/// The errors type synthesis reports.
pub open spec fn is_synthesis_error(e: CompilerError) -> bool {
    match e.error_type {
        ErrorKind::Semantic(s) => !(s is UndefinedVariable) && !(s is DuplicateFunctionName) && !(s is DuplicateParameterName),
        _ => false,
    }
}

/// A literal that has a type has its builtin type: `int` for an integer,
/// `string` for a string.
pub open spec fn literal_type_ok(t: ASTNodeType, ty: Option<DataTypeId>) -> bool {
    &&& t is IntLiteral && ty is Some ==> ty == Some(builtin_id(BuiltinType::Int))
    &&& t is StringLiteral && ty is Some ==> ty == Some(builtin_id(BuiltinType::String))
}

/// The programs type synthesis handles: no `while` or `for` loop, no index
/// or member access, and no type arguments on a declared return type.
pub open spec fn synthesis_supported(ast: AST) -> bool {
    forall|i: int| 0 <= i < ast.node_arena@.len() ==> {
        let t = #[trigger] ast.node_arena@[i].node_type;
        &&& !(t is While) && !(t is For) && !(t is Index) && !(t is Access)
        &&& t matches ASTNodeType::FunctionDef(f) ==> (f.return_type matches Some(rt) ==> rt.inner_types@.len() == 0)
    }
}

/// Whether type synthesis handles the program (see `synthesis_supported`).
pub fn is_synthesis_supported(ast: &AST) -> (r: bool)
    ensures
        r == synthesis_supported(*ast),
{
    let mut i: usize = 0;
    while i < ast.node_count()
        invariant
            i <= ast.node_arena@.len(),
            forall|k: int| 0 <= k < i ==> {
                let t = #[trigger] ast.node_arena@[k].node_type;
                &&& !(t is While) && !(t is For) && !(t is Index) && !(t is Access)
                &&& t matches ASTNodeType::FunctionDef(f) ==> (f.return_type matches Some(rt) ==> rt.inner_types@.len() == 0)
            },
        decreases ast.node_arena@.len() - i,
    {
        match &ast.lookup(ASTNodeId(i)).node_type {
            ASTNodeType::While(_) | ASTNodeType::For(_) | ASTNodeType::Index(_) | ASTNodeType::Access(_) => {
                return false;
            },
            ASTNodeType::FunctionDef(f) => {
                if let Some(rt) = &f.return_type {
                    if rt.inner_types.len() > 0 {
                        return false;
                    }
                }
            },
            _ => {},
        }
        i += 1;
    }
    true
}

/// Recording a type of the arena for a symbol keeps the symbol table's
/// types within the arena and its names unchanged.
proof fn lemma_assign_type(before: SymbolTable, after: SymbolTable, name: usize, scope: ScopeId, t: DataTypeId, n: int)
    requires
        before.wf(),
        after.wf(),
        after.next_symbol_id == before.next_symbol_id,
        scope.0 < before.scopes@.len(),
        before.resolve(name, scope) is Some,
        table_types_below(before, n),
        t.0 < n,
        ({
            let d = declaring_scope(before.scopes@, name, scope.0 as int)->0;
            &&& after.scopes@.len() == before.scopes@.len()
            &&& forall|i: int| 0 <= i < before.scopes@.len() && i != d ==> after.scopes@[i] == before.scopes@[i]
            &&& after.scopes@[d].parent == before.scopes@[d].parent
            &&& after.scopes@[d].function == before.scopes@[d].function
            &&& after.scopes@[d].symbols_view() == before.scopes@[d].symbols_view().insert(
                name,
                crate::compiler_context::symbol_table::symbol::Symbol {
                    data_type_id: Some(t),
                    ..before.scopes@[d].symbols_view()[name]
                },
            )
        }),
    ensures
        types_assigned(before, after),
        table_types_below(after, n),
{
    lemma_declaring_scope(before.scopes@, name, scope.0 as int);
    let d = declaring_scope(before.scopes@, name, scope.0 as int)->0;
    assert(after.scopes@[d].symbols_view().dom() =~= before.scopes@[d].symbols_view().dom());
    assert forall|i: int, k: usize|
        0 <= i < after.scopes@.len() && #[trigger] after.scopes@[i].symbols_view().contains_key(k) implies (
        after.scopes@[i].symbols_view()[k].data_type_id matches Some(x) ==> x.0 < n) by {
        if i == d {
            if k != name {
                assert(before.scopes@[i].symbols_view().contains_key(k));
            }
        } else {
            assert(before.scopes@[i].symbols_view().contains_key(k));
        }
    }
}

/// The type recorded for the symbol a name denotes is a type of the arena.
proof fn lemma_resolved_type_below(table: SymbolTable, name: usize, scope: ScopeId, n: int)
    requires
        table.wf(),
        scope.0 < table.scopes@.len(),
        table_types_below(table, n),
    ensures
        table.resolve(name, scope) matches Some(s) ==> (s.data_type_id matches Some(t) ==> t.0 < n),
{
    lemma_declaring_scope(table.scopes@, name, scope.0 as int);
    if let Some(d) = declaring_scope(table.scopes@, name, scope.0 as int) {
        assert(table.scopes@[d].symbols_view().contains_key(name));
    }
}

/// Synthesis steps compose.
proof fn lemma_context_step_trans(a: CompilerContext, b: CompilerContext, c: CompilerContext)
    ensures
        a.wf() ==> context_step(a, a),
        context_step(a, b) && context_step(b, c) ==> context_step(a, c),
{
    if a.wf() {
        assert forall|i: int| 0 <= i < a.symbol_table.scopes@.len() implies {
            &&& (#[trigger] a.symbol_table.scopes@[i]).parent == a.symbol_table.scopes@[i].parent
            &&& a.symbol_table.scopes@[i].function == a.symbol_table.scopes@[i].function
            &&& a.symbol_table.scopes@[i].symbols_view().dom() == a.symbol_table.scopes@[i].symbols_view().dom()
        } by {}
    }
    if context_step(a, b) && context_step(b, c) {
        assert forall|i: int| 0 <= i < a.symbol_table.scopes@.len() implies {
            &&& (#[trigger] c.symbol_table.scopes@[i]).parent == a.symbol_table.scopes@[i].parent
            &&& c.symbol_table.scopes@[i].function == a.symbol_table.scopes@[i].function
            &&& c.symbol_table.scopes@[i].symbols_view().dom() == a.symbol_table.scopes@[i].symbols_view().dom()
        } by {
            assert(b.symbol_table.scopes@[i].parent == a.symbol_table.scopes@[i].parent);
        }
        assert forall|i: int| 0 <= i < a.type_arena.data_types@.len() implies #[trigger] c.type_arena.types_view()[i]
            == a.type_arena.types_view()[i] by {
            assert(b.type_arena.types_view()[i] == a.type_arena.types_view()[i]);
        }
    }
}

/// Computes the type of every expression of a program, recording the types
/// of variables, parameters and functions in the symbol table and adding
/// function types to the type arena.
pub struct TypeSynthesizer<'a> {
    pub ast: &'a AST,
    /// The type found for each node, by node identifier.
    pub ast_node_data_types: Vec<Option<DataTypeId>>,
    /// Whether the type of each node was computed, by node identifier.
    pub ast_node_visited: Vec<bool>,
    pub unary_op_impl: OperatorRegistry<UnaryOperator>,
    pub binary_op_impl: OperatorRegistry<BinaryOperator>,
}

/// The type that a type name denotes in a context: a builtin type, or else
/// a user-defined type of that name.
pub open spec fn named_type(ctx: CompilerContext, name: usize) -> Option<DataTypeId> {
    named_type_in(type_names(ctx), name)
}

/// What type names are read from: the interned strings and the
/// user-defined types by name.
pub open spec fn type_names(ctx: CompilerContext) -> (Seq<Seq<char>>, Map<usize, DataTypeId>) {
    (ctx.string_interner@, ctx.type_arena.user_defined_type_ids@)
}

/// The type that a type name denotes, read from the name data.
pub open spec fn named_type_in(names: (Seq<Seq<char>>, Map<usize, DataTypeId>), name: usize) -> Option<DataTypeId> {
    match crate::types::builtin_type::builtin_from_name(names.0[name as int]) {
        Some(b) => Some(DataTypeId(crate::types::builtin_type::builtin_index(b))),
        None => if names.1.contains_key(name) {
            Some(names.1[name])
        } else {
            None
        },
    }
}

/// The declared return type of a function: the type its annotation names,
/// or unit without one.
pub open spec fn declared_return_type(ctx: CompilerContext, f: FunctionDefNode) -> Option<DataTypeId> {
    declared_return_type_in(type_names(ctx), f)
}

/// The declared return type of a function, read from the name data.
pub open spec fn declared_return_type_in(names: (Seq<Seq<char>>, Map<usize, DataTypeId>), f: FunctionDefNode) -> Option<DataTypeId> {
    match f.return_type {
        None => Some(builtin_id(BuiltinType::Unit)),
        Some(ret) => named_type_in(names, ret.type_symbol),
    }
}

/// The semantic error `e` at `span`.
pub open spec fn semantic_error_at(e: SemanticError, span: SourceSpan) -> CompilerError {
    CompilerError { error_type: ErrorKind::Semantic(e), span }
}

/// The shape of a symbol table: each scope's enclosing scope and the names
/// it declares. Recording types leaves it as it is.
pub open spec fn scope_shape(table: SymbolTable) -> Seq<(Option<ScopeId>, Set<usize>)> {
    Seq::new(table.scopes@.len(), |i: int| (table.scopes@[i].parent, table.scopes@[i].symbols_view().dom()))
}

/// The scope on the chain from `id` that declares `name`, read from a
/// shape.
pub open spec fn shape_declaring(shape: Seq<(Option<ScopeId>, Set<usize>)>, name: usize, id: int) -> Option<int>
    decreases id,
{
    if id < 0 || id >= shape.len() {
        None
    } else if shape[id].1.contains(name) {
        Some(id)
    } else {
        match shape[id].0 {
            Some(p) => if p.0 < id {
                shape_declaring(shape, name, p.0 as int)
            } else {
                None
            },
            None => None,
        }
    }
}

/// The type recorded for each symbol, by scope and name.
pub open spec fn symbol_types(table: SymbolTable) -> Map<(int, usize), Option<DataTypeId>> {
    Map::new(
        |k: (int, usize)| 0 <= k.0 < table.scopes@.len() && table.scopes@[k.0].symbols_view().contains_key(k.1),
        |k: (int, usize)| table.scopes@[k.0].symbols_view()[k.1].data_type_id,
    )
}

/// What typing an expression reads and changes: the type and the mark
/// recorded for each node, and the type recorded for each symbol.
pub type TypingState = (Seq<Option<DataTypeId>>, Seq<bool>, Map<(int, usize), Option<DataTypeId>>);

/// The typing state of a synthesizer and a context.
pub open spec fn typing_state<'a>(s: TypeSynthesizer<'a>, ctx: CompilerContext) -> TypingState {
    (s.ast_node_data_types@, s.ast_node_visited@, symbol_types(ctx.symbol_table))
}

/// Node `id` gets type `t` and its mark.
pub open spec fn recorded(st: TypingState, id: int, t: Option<DataTypeId>) -> (Result<Option<DataTypeId>, CompilerError>, TypingState) {
    (Ok(t), (st.0.update(id, t), st.1.update(id, true), st.2))
}

/// The type recorded for the symbol that `name` denotes from `scope`.
pub open spec fn variable_type(shape: Seq<(Option<ScopeId>, Set<usize>)>, st: TypingState, name: usize, scope: ScopeId) -> Option<DataTypeId> {
    match shape_declaring(shape, name, scope.0 as int) {
        Some(d) => st.2[(d, name)],
        None => None,
    }
}

/// Typing the expression at node `id` in `scope`: the result, and the
/// state after it. A literal has its builtin type, a variable the type
/// recorded for its symbol (none yet, possibly); operations and calls are
/// typed below. The node gets the type found.
pub open spec fn expr_typing(
    ast: AST,
    shape: Seq<(Option<ScopeId>, Set<usize>)>,
    view: Seq<DataTypeView>,
    st: TypingState,
    id: int,
    scope: ScopeId,
) -> (Result<Option<DataTypeId>, CompilerError>, TypingState)
    decreases id, 2int, 0int,
{
    if 0 <= id < ast.node_arena@.len() {
        let node = ast.node_arena@[id];
        match node.node_type {
            ASTNodeType::IntLiteral(_) => recorded(st, id, Some(builtin_id(BuiltinType::Int))),
            ASTNodeType::StringLiteral(_) => recorded(st, id, Some(builtin_id(BuiltinType::String))),
            ASTNodeType::Variable(v) => recorded(st, id, variable_type(shape, st, v.name, scope)),
            ASTNodeType::UnaryOperator(op) => match unary_typing(ast, shape, view, st, op.op_type, op.operand_id, id, scope) {
                (Ok(t), s1) => recorded(s1, id, Some(t)),
                (Err(e), s1) => (Err(e), s1),
            },
            ASTNodeType::BinaryOperator(op) => match binary_typing(ast, shape, view, st, op, id, scope) {
                (Ok(t), s1) => recorded(s1, id, Some(t)),
                (Err(e), s1) => (Err(e), s1),
            },
            ASTNodeType::FunctionCall(c) => match call_typing(ast, shape, view, st, c, id, scope) {
                (Ok(t), s1) => recorded(s1, id, Some(t)),
                (Err(e), s1) => (Err(e), s1),
            },
            _ => (Err(semantic_error_at(SemanticError::TypeInference, node.span)), st),
        }
    } else {
        (Ok(None), st)
    }
}

/// Typing a unary operation at node `id`: the operand's type must be known
/// and the operator defined on it.
pub open spec fn unary_typing(
    ast: AST,
    shape: Seq<(Option<ScopeId>, Set<usize>)>,
    view: Seq<DataTypeView>,
    st: TypingState,
    op: UnaryOperator,
    operand: ASTNodeId,
    id: int,
    scope: ScopeId,
) -> (Result<DataTypeId, CompilerError>, TypingState)
    decreases id, 1int, 0int,
{
    if 0 <= operand.0 < id {
        let span = ast.node_arena@[operand.0 as int].span;
        match expr_typing(ast, shape, view, st, operand.0 as int, scope) {
            (Err(e), s1) => (Err(e), s1),
            (Ok(None), s1) => (Err(semantic_error_at(SemanticError::TypeInference, span)), s1),
            (Ok(Some(ot)), s1) => match unary_operation_type(op, ot, view) {
                Some(t) => (Ok(t), s1),
                None => (Err(semantic_error_at(SemanticError::MismatchedUnaryOperatorTypes(op, ot), span)), s1),
            },
        }
    } else {
        (Err(semantic_error_at(SemanticError::TypeInference, ast.node_arena@[id].span)), st)
    }
}

/// Typing a binary operation at node `id`: the right operand first, then
/// the left one. Assigning to a variable whose type is not known yet gives
/// it the right operand's type; otherwise the operator must be defined on
/// the two types.
pub open spec fn binary_typing(
    ast: AST,
    shape: Seq<(Option<ScopeId>, Set<usize>)>,
    view: Seq<DataTypeView>,
    st: TypingState,
    op: BinaryOperatorNode,
    id: int,
    scope: ScopeId,
) -> (Result<DataTypeId, CompilerError>, TypingState)
    decreases id, 1int, 0int,
{
    if 0 <= op.left.0 < id && 0 <= op.right.0 < id {
        let left = op.left.0 as int;
        let right = op.right.0 as int;
        let lspan = ast.node_arena@[left].span;
        let rspan = ast.node_arena@[right].span;
        match expr_typing(ast, shape, view, st, right, scope) {
            (Err(e), s1) => (Err(e), s1),
            (Ok(None), s1) => (Err(semantic_error_at(SemanticError::TypeInference, rspan)), s1),
            (Ok(Some(rt)), s1) => match expr_typing(ast, shape, view, s1, left, scope) {
                (Err(e), s2) => (Err(e), s2),
                (Ok(None), s2) => if op.op_type is Assign {
                    match ast.node_arena@[left].node_type {
                        ASTNodeType::Variable(v) => match shape_declaring(shape, v.name, scope.0 as int) {
                            Some(d) => (Ok(rt), (s2.0.update(left, Some(rt)), s2.1, s2.2.insert((d, v.name), Some(rt)))),
                            None => (Err(semantic_error_at(SemanticError::TypeInference, lspan)), s2),
                        },
                        _ => (Err(semantic_error_at(SemanticError::TypeInference, lspan)), s2),
                    }
                } else {
                    (Err(semantic_error_at(SemanticError::TypeInference, lspan)), s2)
                },
                (Ok(Some(lt)), s2) => match binary_operation_type(op.op_type, (lt, rt), view) {
                    Some(t) => (Ok(t), s2),
                    None => (Err(
                        semantic_error_at(SemanticError::MismatchedBinaryOperatorTypes(op.op_type, lt, rt), ast.node_arena@[id].span),
                    ), s2),
                },
            },
        }
    } else {
        (Err(semantic_error_at(SemanticError::TypeInference, ast.node_arena@[id].span)), st)
    }
}

/// Typing a binary operation whose operands, the right one first, both get
/// types: its type is the one the operator rules give for those operand
/// types, and otherwise the operation is reported at its own place as a
/// mismatch. In particular assigning to a typed variable a value of another
/// type is an error.
pub proof fn lemma_binary_typing_of_typed_operands(
    ast: AST,
    shape: Seq<(Option<ScopeId>, Set<usize>)>,
    view: Seq<DataTypeView>,
    st: TypingState,
    op: BinaryOperatorNode,
    id: int,
    scope: ScopeId,
    lt: DataTypeId,
    rt: DataTypeId,
    s1: TypingState,
    s2: TypingState,
)
    requires
        0 <= op.left.0 < id,
        0 <= op.right.0 < id,
        expr_typing(ast, shape, view, st, op.right.0 as int, scope) == (Ok::<Option<DataTypeId>, CompilerError>(Some(rt)), s1),
        expr_typing(ast, shape, view, s1, op.left.0 as int, scope) == (Ok::<Option<DataTypeId>, CompilerError>(Some(lt)), s2),
    ensures
        binary_typing(ast, shape, view, st, op, id, scope) == (match binary_operation_type(op.op_type, (lt, rt), view) {
            Some(t) => Ok::<DataTypeId, CompilerError>(t),
            None => Err(semantic_error_at(SemanticError::MismatchedBinaryOperatorTypes(op.op_type, lt, rt), ast.node_arena@[id].span)),
        }, s2),
        (op.op_type is Assign && lt != rt) ==> binary_typing(ast, shape, view, st, op, id, scope).0 == Err::<DataTypeId, CompilerError>(
            semantic_error_at(SemanticError::MismatchedBinaryOperatorTypes(op.op_type, lt, rt), ast.node_arena@[id].span),
        ),
{
}

/// Typing a call at node `id`: the called expression must have a function
/// type, the arguments must match its parameters in number and then, in
/// order, in type; the call has the function's return type.
pub open spec fn call_typing(
    ast: AST,
    shape: Seq<(Option<ScopeId>, Set<usize>)>,
    view: Seq<DataTypeView>,
    st: TypingState,
    c: FunctionCallNode,
    id: int,
    scope: ScopeId,
) -> (Result<DataTypeId, CompilerError>, TypingState)
    decreases id, 1int, 0int,
{
    if 0 <= c.function.0 < id {
        let fspan = ast.node_arena@[c.function.0 as int].span;
        match expr_typing(ast, shape, view, st, c.function.0 as int, scope) {
            (Err(e), s1) => (Err(e), s1),
            (Ok(None), s1) => (Err(semantic_error_at(SemanticError::TypeInference, fspan)), s1),
            (Ok(Some(ft)), s1) => match view[ft.0 as int] {
                DataTypeView::Fn { param_types, return_type } => if c.args@.len() != param_types.len() {
                    (Err(
                        semantic_error_at(
                            SemanticError::IncorrectArgumentCount {
                                expected: param_types.len() as usize,
                                actual: c.args@.len() as usize,
                            },
                            ast.node_arena@[id].span,
                        ),
                    ), s1)
                } else {
                    match args_typing(ast, shape, view, s1, c.args@, param_types, 0, id, scope) {
                        (Ok(()), s2) => (Ok(return_type), s2),
                        (Err(e), s2) => (Err(e), s2),
                    }
                },
                _ => (Err(semantic_error_at(SemanticError::FunctionExpected, fspan)), s1),
            },
        }
    } else {
        (Err(semantic_error_at(SemanticError::TypeInference, ast.node_arena@[id].span)), st)
    }
}

/// Typing the arguments of a call from the `k`-th on, against the
/// parameter types: each argument's type must be known and equal its
/// parameter's.
pub open spec fn args_typing(
    ast: AST,
    shape: Seq<(Option<ScopeId>, Set<usize>)>,
    view: Seq<DataTypeView>,
    st: TypingState,
    args: Seq<ASTNodeId>,
    params: Seq<DataTypeId>,
    k: int,
    bound: int,
    scope: ScopeId,
) -> (Result<(), CompilerError>, TypingState)
    decreases bound, 0int, args.len() - k,
{
    if 0 <= k < args.len() && k < params.len() && 0 <= args[k].0 < bound {
        let span = ast.node_arena@[args[k].0 as int].span;
        match expr_typing(ast, shape, view, st, args[k].0 as int, scope) {
            (Err(e), s1) => (Err(e), s1),
            (Ok(None), s1) => (Err(semantic_error_at(SemanticError::TypeInference, span)), s1),
            (Ok(Some(at)), s1) => if at != params[k] {
                (Err(semantic_error_at(SemanticError::MismatchedTypes { expected: params[k], actual: at }, span)), s1)
            } else {
                args_typing(ast, shape, view, s1, args, params, k + 1, bound, scope)
            },
        }
    } else {
        (Ok(()), st)
    }
}

/// Typing a `return` in `scope`, whose function is `function`: unit
/// without a value; with one, it must stand in a function whose recorded
/// type is a function type, and the value's type must be its return type.
pub open spec fn return_typing(
    ast: AST,
    shape: Seq<(Option<ScopeId>, Set<usize>)>,
    view: Seq<DataTypeView>,
    st: TypingState,
    function: Option<usize>,
    value: Option<ASTNodeId>,
    scope: ScopeId,
) -> (Result<DataTypeId, CompilerError>, TypingState) {
    match value {
        None => (Ok(builtin_id(BuiltinType::Unit)), st),
        Some(e) => {
            let span = ast.node_arena@[e.0 as int].span;
            match function {
                None => (Err(semantic_error_at(SemanticError::ReturnStatementOutsideFunction, span)), st),
                Some(f) => match variable_type(shape, st, f, scope) {
                    None => (Err(semantic_error_at(SemanticError::TypeInference, span)), st),
                    Some(ft) => match view[ft.0 as int] {
                        DataTypeView::Fn { return_type, .. } => match expr_typing(ast, shape, view, st, e.0 as int, scope) {
                            (Err(x), s1) => (Err(x), s1),
                            (Ok(None), s1) => (Err(semantic_error_at(SemanticError::TypeInference, span)), s1),
                            (Ok(Some(t)), s1) => if t == return_type {
                                (Ok(t), s1)
                            } else {
                                (Err(
                                    semantic_error_at(SemanticError::IncorrectReturnType { expected: return_type, actual: t }, span),
                                ), s1)
                            },
                        },
                        _ => (Err(semantic_error_at(SemanticError::TypeInference, span)), st),
                    },
                },
            }
        },
    }
}

/// The function each scope of a table belongs to, if any.
pub open spec fn scope_functions(table: SymbolTable) -> Seq<Option<usize>> {
    Seq::new(table.scopes@.len(), |i: int| table.scopes@[i].function)
}

/// The first position of type `t` in `view`.
pub open spec fn first_index(view: Seq<DataTypeView>, t: DataTypeView) -> int {
    choose|i: int| 0 <= i < view.len() && view[i] == t && forall|j: int| 0 <= j < i ==> view[j] != t
}

/// The declared types of the parameters from the `k`-th on, each recorded
/// for its parameter in the function's body scope; `acc` holds those before.
pub open spec fn param_typing(
    names: (Seq<Seq<char>>, Map<usize, DataTypeId>),
    shape: Seq<(Option<ScopeId>, Set<usize>)>,
    st: TypingState,
    params: Seq<crate::ast::function_def_node::Parameter>,
    body_scope: ScopeId,
    k: int,
    acc: Seq<DataTypeId>,
) -> (Result<Seq<DataTypeId>, CompilerError>, TypingState)
    decreases params.len() - k,
{
    if 0 <= k < params.len() {
        match named_type_in(names, params[k].type_annotation.type_symbol) {
            None => (Err(semantic_error_at(SemanticError::UndefinedType, params[k].span)), st),
            Some(t) => match shape_declaring(shape, params[k].name, body_scope.0 as int) {
                None => (Err(semantic_error_at(SemanticError::TypeInference, params[k].span)), st),
                Some(d) => param_typing(names, shape, (st.0, st.1, st.2.insert((d, params[k].name), Some(t))), params, body_scope, k + 1, acc.push(t)),
            },
        }
    } else {
        (Ok(acc), st)
    }
}

/// Typing a function's signature in `scope`: its parameters, its return
/// type, then its function type, added to the arena if new and recorded
/// for its name.
pub open spec fn sig_typing(
    names: (Seq<Seq<char>>, Map<usize, DataTypeId>),
    shape: Seq<(Option<ScopeId>, Set<usize>)>,
    view: Seq<DataTypeView>,
    st: TypingState,
    f: FunctionDefNode,
    span: SourceSpan,
    scope: ScopeId,
) -> (Result<(), CompilerError>, TypingState, Seq<DataTypeView>) {
    match param_typing(names, shape, st, f.params@, f.body.scope_id, 0, Seq::empty()) {
        (Err(e), s1) => (Err(e), s1, view),
        (Ok(ps), s1) => match declared_return_type_in(names, f) {
            None => (Err(semantic_error_at(SemanticError::UndefinedType, f.return_type->0.span)), s1, view),
            Some(rt) => {
                let ft = DataTypeView::Fn { param_types: ps, return_type: rt };
                let view2 = if view.contains(ft) {
                    view
                } else {
                    view.push(ft)
                };
                match shape_declaring(shape, f.name, scope.0 as int) {
                    None => (Err(semantic_error_at(SemanticError::TypeInference, span)), s1, view2),
                    Some(d) => (Ok(()), (s1.0, s1.1, s1.2.insert((d, f.name), Some(DataTypeId(first_index(view2, ft) as usize)))), view2),
                }
            },
        },
    }
}

/// Typing a statement at node `id` in `scope`. A function definition is
/// left to its block; loops are not typed.
pub open spec fn stmt_typing(
    ast: AST,
    names: (Seq<Seq<char>>, Map<usize, DataTypeId>),
    shape: Seq<(Option<ScopeId>, Set<usize>)>,
    functions: Seq<Option<usize>>,
    view: Seq<DataTypeView>,
    st: TypingState,
    id: int,
    scope: ScopeId,
) -> (Result<(), CompilerError>, TypingState, Seq<DataTypeView>)
    decreases id, 5int, 0int,
{
    if 0 <= id < ast.node_arena@.len() {
        match ast.node_arena@[id].node_type {
            ASTNodeType::FunctionDef(_) => (Ok(()), st, view),
            ASTNodeType::ReturnStatement(e) => match return_typing(ast, shape, view, st, functions[scope.0 as int], e, scope) {
                (Ok(_), s1) => (Ok(()), s1, view),
                (Err(x), s1) => (Err(x), s1, view),
            },
            ASTNodeType::If(n) => if_typing(ast, names, shape, functions, view, st, n, 0, id, scope),
            _ => match expr_typing(ast, shape, view, st, id, scope) {
                (Ok(_), s1) => (Ok(()), s1, view),
                (Err(x), s1) => (Err(x), s1, view),
            },
        }
    } else {
        (Ok(()), st, view)
    }
}

/// Typing the branches of an `if` at node `id` from the `k`-th on, then its
/// `else` body.
pub open spec fn if_typing(
    ast: AST,
    names: (Seq<Seq<char>>, Map<usize, DataTypeId>),
    shape: Seq<(Option<ScopeId>, Set<usize>)>,
    functions: Seq<Option<usize>>,
    view: Seq<DataTypeView>,
    st: TypingState,
    n: crate::ast::if_node::IfNode,
    k: int,
    id: int,
    scope: ScopeId,
) -> (Result<(), CompilerError>, TypingState, Seq<DataTypeView>)
    decreases id, 4int, n.condition_blocks@.len() - k,
{
    if 0 <= k < n.condition_blocks@.len() {
        let cb = n.condition_blocks@[k];
        if 0 <= cb.condition.0 < id {
            match expr_typing(ast, shape, view, st, cb.condition.0 as int, scope) {
                (Err(e), s1) => (Err(e), s1, view),
                (Ok(_), s1) => match block_typing(ast, names, shape, functions, view, s1, cb.body.statements@, cb.body.scope_id, id) {
                    (Err(e), s2, v2) => (Err(e), s2, v2),
                    (Ok(()), s2, v2) => if_typing(ast, names, shape, functions, v2, s2, n, k + 1, id, scope),
                },
            }
        } else {
            (Ok(()), st, view)
        }
    } else {
        match n.else_body {
            Some(b) => block_typing(ast, names, shape, functions, view, st, b.statements@, b.scope_id, id),
            None => (Ok(()), st, view),
        }
    }
}

/// Typing a block of scope `scope` whose statements come before node
/// `owner`: the signature of each function it defines, then each
/// function's body, then its other statements, each in order.
pub open spec fn block_typing(
    ast: AST,
    names: (Seq<Seq<char>>, Map<usize, DataTypeId>),
    shape: Seq<(Option<ScopeId>, Set<usize>)>,
    functions: Seq<Option<usize>>,
    view: Seq<DataTypeView>,
    st: TypingState,
    statements: Seq<ASTNodeId>,
    scope: ScopeId,
    owner: int,
) -> (Result<(), CompilerError>, TypingState, Seq<DataTypeView>)
    decreases owner, 3int, 0int,
{
    match items_typing(ast, names, shape, view, st, statements, scope, 0, owner) {
        (Err(e), s1, v1) => (Err(e), s1, v1),
        (Ok(()), s1, v1) => match item_blocks_typing(ast, names, shape, functions, v1, s1, statements, 0, owner) {
            (Err(e), s2, v2) => (Err(e), s2, v2),
            (Ok(()), s2, v2) => statements_typing(ast, names, shape, functions, v2, s2, statements, scope, 0, owner),
        },
    }
}

/// Typing the signatures of the functions among the statements from the
/// `k`-th on.
pub open spec fn items_typing(
    ast: AST,
    names: (Seq<Seq<char>>, Map<usize, DataTypeId>),
    shape: Seq<(Option<ScopeId>, Set<usize>)>,
    view: Seq<DataTypeView>,
    st: TypingState,
    statements: Seq<ASTNodeId>,
    scope: ScopeId,
    k: int,
    owner: int,
) -> (Result<(), CompilerError>, TypingState, Seq<DataTypeView>)
    decreases owner, 2int, statements.len() - k,
{
    if 0 <= k < statements.len() && 0 <= statements[k].0 < owner {
        let node = ast.node_arena@[statements[k].0 as int];
        match node.node_type {
            ASTNodeType::FunctionDef(f) => match sig_typing(names, shape, view, st, f, node.span, scope) {
                (Err(e), s1, v1) => (Err(e), s1, v1),
                (Ok(()), s1, v1) => items_typing(ast, names, shape, v1, s1, statements, scope, k + 1, owner),
            },
            _ => items_typing(ast, names, shape, view, st, statements, scope, k + 1, owner),
        }
    } else {
        (Ok(()), st, view)
    }
}

/// Typing the bodies of the functions among the statements from the `k`-th
/// on.
pub open spec fn item_blocks_typing(
    ast: AST,
    names: (Seq<Seq<char>>, Map<usize, DataTypeId>),
    shape: Seq<(Option<ScopeId>, Set<usize>)>,
    functions: Seq<Option<usize>>,
    view: Seq<DataTypeView>,
    st: TypingState,
    statements: Seq<ASTNodeId>,
    k: int,
    owner: int,
) -> (Result<(), CompilerError>, TypingState, Seq<DataTypeView>)
    decreases owner, 2int, statements.len() - k,
{
    if 0 <= k < statements.len() && 0 <= statements[k].0 < owner {
        match ast.node_arena@[statements[k].0 as int].node_type {
            ASTNodeType::FunctionDef(f) => match block_typing(
                ast,
                names,
                shape,
                functions,
                view,
                st,
                f.body.statements@,
                f.body.scope_id,
                statements[k].0 as int,
            ) {
                (Err(e), s1, v1) => (Err(e), s1, v1),
                (Ok(()), s1, v1) => item_blocks_typing(ast, names, shape, functions, v1, s1, statements, k + 1, owner),
            },
            _ => item_blocks_typing(ast, names, shape, functions, view, st, statements, k + 1, owner),
        }
    } else {
        (Ok(()), st, view)
    }
}

/// Typing the statements from the `k`-th on, in order.
pub open spec fn statements_typing(
    ast: AST,
    names: (Seq<Seq<char>>, Map<usize, DataTypeId>),
    shape: Seq<(Option<ScopeId>, Set<usize>)>,
    functions: Seq<Option<usize>>,
    view: Seq<DataTypeView>,
    st: TypingState,
    statements: Seq<ASTNodeId>,
    scope: ScopeId,
    k: int,
    owner: int,
) -> (Result<(), CompilerError>, TypingState, Seq<DataTypeView>)
    decreases owner, 2int, statements.len() - k,
{
    if 0 <= k < statements.len() && 0 <= statements[k].0 < owner {
        match stmt_typing(ast, names, shape, functions, view, st, statements[k].0 as int, scope) {
            (Err(e), s1, v1) => (Err(e), s1, v1),
            (Ok(()), s1, v1) => statements_typing(ast, names, shape, functions, v1, s1, statements, scope, k + 1, owner),
        }
    } else {
        (Ok(()), st, view)
    }
}

/// The first position of a type is the position before which it does not
/// occur.
pub proof fn lemma_first_index(view: Seq<DataTypeView>, t: DataTypeView, r: int)
    requires
        0 <= r < view.len(),
        view[r] == t,
        forall|j: int| 0 <= j < r ==> view[j] != t,
    ensures
        first_index(view, t) == r,
{
    let i = first_index(view, t);
    assert(0 <= i < view.len() && view[i] == t && forall|j: int| 0 <= j < i ==> view[j] != t);
    if i < r {
        assert(view[i] != t);
    }
    if r < i {
        assert(view[r] != t);
    }
}

/// Recording type `t` for the symbol that `name` denotes from `scope`.
pub proof fn lemma_assign_symbol_types(before: SymbolTable, after: SymbolTable, name: usize, scope: ScopeId, t: DataTypeId)
    requires
        before.wf(),
        scope.0 < before.scopes@.len(),
        before.resolve(name, scope) is Some,
        ({
            let d = declaring_scope(before.scopes@, name, scope.0 as int)->0;
            &&& after.scopes@.len() == before.scopes@.len()
            &&& forall|i: int| 0 <= i < before.scopes@.len() && i != d ==> after.scopes@[i] == before.scopes@[i]
            &&& after.scopes@[d].symbols_view() == before.scopes@[d].symbols_view().insert(
                name,
                crate::compiler_context::symbol_table::symbol::Symbol {
                    data_type_id: Some(t),
                    ..before.scopes@[d].symbols_view()[name]
                },
            )
        }),
    ensures
        shape_declaring(scope_shape(before), name, scope.0 as int) matches Some(d)
            && symbol_types(after) == symbol_types(before).insert((d, name), Some(t)),
{
    lemma_declaring_scope(before.scopes@, name, scope.0 as int);
    lemma_shape_declaring(before, name, scope.0 as int);
    let d = declaring_scope(before.scopes@, name, scope.0 as int)->0;
    assert forall|k: (int, usize)| #![auto] symbol_types(after).dom().contains(k) == symbol_types(before).insert((d, name), Some(t)).dom().contains(k) by {
        if k.0 == d {
            assert(after.scopes@[d].symbols_view().dom() =~= before.scopes@[d].symbols_view().dom().insert(name));
        }
    }
    assert(symbol_types(after) =~= symbol_types(before).insert((d, name), Some(t)));
}

/// The types a program's nodes get once its blocks are typed, from node
/// `k` on after `acc`: each expression that typing reached keeps the type
/// recorded for it, the other nodes none; the first expression reached
/// without a type is an error.
pub open spec fn collected(ast: AST, st: TypingState, k: int, acc: Seq<Option<DataTypeId>>) -> Result<Seq<Option<DataTypeId>>, CompilerError>
    decreases ast.node_arena@.len() - k,
{
    if 0 <= k < ast.node_arena@.len() {
        let node = ast.node_arena@[k];
        if is_expression(node.node_type) && st.1[k] {
            match st.0[k] {
                None => Err(semantic_error_at(SemanticError::TypeInference, node.span)),
                Some(t) => collected(ast, st, k + 1, acc.push(Some(t))),
            }
        } else {
            collected(ast, st, k + 1, acc.push(None))
        }
    } else {
        Ok(acc)
    }
}

/// The typing state a program starts from: no node typed or marked.
pub open spec fn initial_typing(ast: AST, table: SymbolTable) -> TypingState {
    (Seq::new(ast.node_arena@.len(), |i: int| None), Seq::new(ast.node_arena@.len(), |i: int| false), symbol_types(table))
}

/// Reading the declaring scope from the shape finds the scope that
/// declares the name.
pub proof fn lemma_shape_declaring(table: SymbolTable, name: usize, id: int)
    ensures
        shape_declaring(scope_shape(table), name, id) == declaring_scope(table.scopes@, name, id),
    decreases id,
{
    if 0 <= id < table.scopes@.len() && !table.scopes@[id].symbols_view().contains_key(name) {
        match table.scopes@[id].parent {
            Some(p) => if p.0 < id {
                lemma_shape_declaring(table, name, p.0 as int);
            },
            None => {},
        }
    }
}

/// Recording types keeps the shape of the table.
pub proof fn lemma_types_assigned_shape(a: SymbolTable, b: SymbolTable)
    requires
        types_assigned(a, b),
    ensures
        scope_shape(a) == scope_shape(b),
        scope_functions(a) == scope_functions(b),
{
    assert forall|i: int| 0 <= i < scope_functions(a).len() implies scope_functions(a)[i] == scope_functions(b)[i] by {
        assert(b.scopes@[i].function == a.scopes@[i].function);
    }
    assert(scope_functions(a) =~= scope_functions(b));
    assert forall|i: int| 0 <= i < scope_shape(a).len() implies scope_shape(a)[i] == scope_shape(b)[i] by {
        assert(b.scopes@[i].parent == a.scopes@[i].parent);
    }
    assert(scope_shape(a) =~= scope_shape(b));
}

/// The type of a variable read from the table is the one the typing state
/// gives.
pub proof fn lemma_variable_type(table: SymbolTable, s: TypingState, name: usize, scope: ScopeId)
    requires
        s.2 == symbol_types(table),
    ensures
        (match table.resolve(name, scope) {
            None => None,
            Some(sym) => sym.data_type_id,
        }) == variable_type(scope_shape(table), s, name, scope),
{
    lemma_shape_declaring(table, name, scope.0 as int);
    lemma_declaring_scope(table.scopes@, name, scope.0 as int);
}

/// Nodes marked as typed stay marked.
pub open spec fn visited_grows(before: Seq<bool>, after: Seq<bool>) -> bool {
    &&& after.len() == before.len()
    &&& forall|i: int| #![trigger after[i]] 0 <= i < before.len() && before[i] ==> after[i]
}

/// The expressions of the statement at node `id` have been typed: for a
/// function, every statement of its body; for a `return`, its value; for an
/// `if`, each condition and every statement of its bodies; for any other
/// statement but a loop, its own expression.
pub open spec fn statement_typed(ast: AST, visited: Seq<bool>, id: int) -> bool
    decreases id, 1int,
{
    if 0 <= id < ast.node_arena@.len() {
        match ast.node_arena@[id].node_type {
            ASTNodeType::FunctionDef(f) => block_typed(ast, visited, f.body.statements@, id),
            ASTNodeType::ReturnStatement(e) => e matches Some(x) ==> visited[x.0 as int],
            ASTNodeType::If(n) => (forall|k: int| 0 <= k < n.condition_blocks@.len() ==> visited[(#[trigger] n.condition_blocks@[k]).condition.0 as int]
                && block_typed(ast, visited, n.condition_blocks@[k].body.statements@, id))
                && (n.else_body matches Some(b) ==> block_typed(ast, visited, b.statements@, id)),
            ASTNodeType::While(_) => true,
            ASTNodeType::For(_) => true,
            _ => visited[id],
        }
    } else {
        true
    }
}

/// Every statement of a block, each before node `owner`, has been typed.
pub open spec fn block_typed(ast: AST, visited: Seq<bool>, statements: Seq<ASTNodeId>, owner: int) -> bool
    decreases owner, 0int,
{
    forall|i: int| 0 <= i < statements.len() ==> (#[trigger] statements[i]).0 < owner && statement_typed(
        ast,
        visited,
        statements[i].0 as int,
    )
}

/// A typed statement stays typed as more nodes are typed.
pub proof fn lemma_statement_typed_grows(ast: AST, a: Seq<bool>, b: Seq<bool>, id: int)
    requires
        visited_grows(a, b),
        a.len() == ast.node_arena@.len(),
        ast.wf(),
        statement_typed(ast, a, id),
    ensures
        statement_typed(ast, b, id),
    decreases id, 1int,
{
    if 0 <= id < ast.node_arena@.len() {
        assert(children_below(ast.node_arena@[id].node_type, id));
        match ast.node_arena@[id].node_type {
            ASTNodeType::FunctionDef(f) => lemma_block_typed_grows(ast, a, b, f.body.statements@, id),
            ASTNodeType::If(n) => {
                assert forall|k: int| 0 <= k < n.condition_blocks@.len() implies b[(#[trigger] n.condition_blocks@[k]).condition.0 as int]
                    && block_typed(ast, b, n.condition_blocks@[k].body.statements@, id) by {
                    lemma_block_typed_grows(ast, a, b, n.condition_blocks@[k].body.statements@, id);
                }
                if let Some(e) = n.else_body {
                    lemma_block_typed_grows(ast, a, b, e.statements@, id);
                }
            },
            _ => {},
        }
    }
}

/// A typed block stays typed as more nodes are typed.
pub proof fn lemma_block_typed_grows(ast: AST, a: Seq<bool>, b: Seq<bool>, statements: Seq<ASTNodeId>, owner: int)
    requires
        visited_grows(a, b),
        a.len() == ast.node_arena@.len(),
        ast.wf(),
        block_typed(ast, a, statements, owner),
    ensures
        block_typed(ast, b, statements, owner),
    decreases owner, 0int,
{
    assert forall|i: int| 0 <= i < statements.len() implies (#[trigger] statements[i]).0 < owner && statement_typed(
        ast,
        b,
        statements[i].0 as int,
    ) by {
        lemma_statement_typed_grows(ast, a, b, statements[i].0 as int);
    }
}

/// A step of the synthesizer: the same AST and operator registries, the
/// context advanced by a synthesis step.
pub open spec fn synth_step<'a>(
    before: TypeSynthesizer<'a>,
    after: TypeSynthesizer<'a>,
    before_ctx: CompilerContext,
    after_ctx: CompilerContext,
) -> bool {
    &&& after.ready(after_ctx)
    &&& context_step(before_ctx, after_ctx)
    &&& after.ast == before.ast
    &&& visited_grows(before.ast_node_visited@, after.ast_node_visited@)
    &&& after.unary_op_impl == before.unary_op_impl
    &&& after.binary_op_impl == before.binary_op_impl
}

impl<'a> TypeSynthesizer<'a> {
    /// What every step needs: a well-formed context, a supported AST whose
    /// scopes and type names are the context's, and recorded types that are
    /// types of the arena.
    pub open spec fn ready(&self, ctx: CompilerContext) -> bool {
        &&& ctx.wf()
        &&& self.ast.wf()
        &&& self.ast.scopes_below(ctx.symbol_table.scopes@.len() as int)
        &&& self.ast.names_below(ctx.string_interner@.len())
        &&& synthesis_supported(*self.ast)
        &&& self.ast_node_data_types@.len() == self.ast.node_arena@.len()
        &&& self.ast_node_visited@.len() == self.ast.node_arena@.len()
        &&& forall|i: int| 0 <= i < self.ast_node_visited@.len() && #[trigger] self.ast_node_visited@[i] ==> is_expression(
            self.ast.node_arena@[i].node_type,
        )
        &&& forall|i: int| 0 <= i < self.ast_node_data_types@.len() ==> (#[trigger] self.ast_node_data_types@[i] matches Some(
            t,
        ) ==> t.0 < ctx.type_arena.data_types@.len())
        &&& table_types_below(ctx.symbol_table, ctx.type_arena.data_types@.len() as int)
        &&& forall|i: int| 0 <= i < self.ast_node_data_types@.len() ==> literal_type_ok(
            self.ast.node_arena@[i].node_type,
            #[trigger] self.ast_node_data_types@[i],
        )
        &&& self.unary_op_impl.implementations@.len() == 0
        &&& self.binary_op_impl.implementations@.len() == 0
    }

    /// A synthesizer for `ast` with no type found yet.
    pub fn new(ast: &'a AST) -> (r: Self)
        ensures
            r.ast == ast,
            r.ast_node_data_types@.len() == ast.node_arena@.len(),
            forall|i: int| 0 <= i < r.ast_node_data_types@.len() ==> r.ast_node_data_types@[i] is None,
            r.ast_node_visited@.len() == ast.node_arena@.len(),
            forall|i: int| 0 <= i < r.ast_node_visited@.len() ==> !r.ast_node_visited@[i],
            r.unary_op_impl.implementations@.len() == 0,
            r.binary_op_impl.implementations@.len() == 0,
    {
        let mut types: Vec<Option<DataTypeId>> = Vec::new();
        let mut visited: Vec<bool> = Vec::new();
        let n = ast.node_count();
        while types.len() < n
            invariant
                types@.len() <= n,
                visited@.len() == types@.len(),
                forall|i: int| 0 <= i < types@.len() ==> types@[i] is None,
                forall|i: int| 0 <= i < visited@.len() ==> !visited@[i],
            decreases n - types@.len(),
        {
            types.push(None);
            visited.push(false);
        }
        Self {
            ast,
            ast_node_data_types: types,
            ast_node_visited: visited,
            unary_op_impl: OperatorRegistry::new(),
            binary_op_impl: OperatorRegistry::new(),
        }
    }

    /// Records the type found for node `expr_id`.
    fn assign_expr_data_type(&mut self, expr_id: ASTNodeId, data_type_id: Option<DataTypeId>)
        requires
            expr_id.0 < old(self).ast_node_data_types@.len(),
        ensures
            final(self).ast_node_data_types@ == old(self).ast_node_data_types@.update(expr_id.0 as int, data_type_id),
            final(self).ast_node_visited == old(self).ast_node_visited,
            final(self).ast == old(self).ast,
            final(self).unary_op_impl == old(self).unary_op_impl,
            final(self).binary_op_impl == old(self).binary_op_impl,
    {
        self.ast_node_data_types.set(expr_id.0, data_type_id);
    }

    /// The type recorded for the symbol that `var_name` denotes, if any.
    fn compute_variable_type(&self, ctx: &CompilerContext, var_name: usize, scope_id: ScopeId) -> (r: Result<Option<DataTypeId>, CompilerError>)
        requires
            ctx.symbol_table.wf(),
            scope_id.0 < ctx.symbol_table.scopes@.len(),
        ensures
            r == Ok::<Option<DataTypeId>, CompilerError>(
                match ctx.symbol_table.resolve(var_name, scope_id) {
                    None => None,
                    Some(s) => s.data_type_id,
                },
            ),
    {
        match ctx.symbol_table.lookup(var_name, scope_id) {
            None => Ok(None),
            Some(symbol) => Ok(symbol.data_type_id),
        }
    }

    /// The type of a unary operation: the operand's type must be known and
    /// the operator defined on it.
    fn compute_unary_operation_type(
        &mut self,
        ctx: &mut CompilerContext,
        operator_type: UnaryOperator,
        operand_id: ASTNodeId,
        node_id: ASTNodeId,
        scope_id: ScopeId,
    ) -> (r: Result<DataTypeId, CompilerError>)
        requires
            old(self).ready(*old(ctx)),
            scope_id.0 < old(ctx).symbol_table.scopes@.len(),
            operand_id.0 < node_id.0 < old(self).ast.node_arena@.len(),
        ensures
            synth_step(*old(self), *final(self), *old(ctx), *final(ctx)),
            r matches Err(e) ==> is_synthesis_error(e),
            r matches Ok(t) ==> t.0 < final(ctx).type_arena.data_types@.len(),
            (typing_state(*final(self), *final(ctx)), r) == (unary_typing(*old(self).ast, scope_shape(old(ctx).symbol_table), old(ctx).type_arena.types_view(), typing_state(*old(self), *old(ctx)), operator_type, operand_id, node_id.0 as int, scope_id).1,
                unary_typing(*old(self).ast, scope_shape(old(ctx).symbol_table), old(ctx).type_arena.types_view(), typing_state(*old(self), *old(ctx)), operator_type, operand_id, node_id.0 as int, scope_id).0),
            final(ctx).type_arena == old(ctx).type_arena,
            r matches Ok(t) ==> (final(self).ast_node_data_types@[operand_id.0 as int] matches Some(ot)
                && Some(t) == (match unary_operation_type(operator_type, ot, final(ctx).type_arena.types_view()) {
                Some(x) => Some(x),
                None => registered_type(old(self).unary_op_impl.implementations@, operator_type, ot),
            })),
        decreases node_id.0, 4nat,
    {
        let operand_span = self.ast.lookup(operand_id).span;
        let operand_type_id = match self.compute_expression_type(ctx, operand_id, scope_id)? {
            Some(data_type_id) => data_type_id,
            None => {
                return Err(SemanticError::TypeInference.at(operand_span));
            },
        };
        match self.unary_op_impl.operation_type(operator_type, &operand_type_id, &ctx.type_arena) {
            Some(data_type) => Ok(data_type),
            None => Err(SemanticError::MismatchedUnaryOperatorTypes(operator_type, operand_type_id).at(operand_span)),
        }
    }

    /// Records `data_type_id` as the type of the variable at node `var_id`
    /// and of the symbol it denotes.
    fn assign_variable_type(&mut self, ctx: &mut CompilerContext, var_id: ASTNodeId, data_type_id: DataTypeId, scope_id: ScopeId) -> (r: Result<(), CompilerError>)
        requires
            old(self).ready(*old(ctx)),
            scope_id.0 < old(ctx).symbol_table.scopes@.len(),
            var_id.0 < old(self).ast.node_arena@.len(),
            data_type_id.0 < old(ctx).type_arena.data_types@.len(),
        ensures
            synth_step(*old(self), *final(self), *old(ctx), *final(ctx)),
            final(ctx).type_arena == old(ctx).type_arena,
            r matches Err(e) ==> e.error_type == ErrorKind::Semantic(SemanticError::TypeInference)
                && e.span == old(self).ast.node_arena@[var_id.0 as int].span,
            r is Ok <==> (old(self).ast.node_arena@[var_id.0 as int].node_type matches ASTNodeType::Variable(v)
                && old(ctx).symbol_table.resolve(v.name, scope_id) is Some),
            r is Ok ==> final(self).ast_node_data_types@ == old(self).ast_node_data_types@.update(var_id.0 as int, Some(data_type_id)),
            final(self).ast_node_visited == old(self).ast_node_visited,
            r is Err ==> typing_state(*final(self), *final(ctx)) == typing_state(*old(self), *old(ctx)),
            r is Ok ==> (old(self).ast.node_arena@[var_id.0 as int].node_type matches ASTNodeType::Variable(v)
                && shape_declaring(scope_shape(old(ctx).symbol_table), v.name, scope_id.0 as int) matches Some(d)
                && symbol_types(final(ctx).symbol_table) == symbol_types(old(ctx).symbol_table).insert((d, v.name), Some(data_type_id))),
    {
        let node = self.ast.lookup(var_id);
        if let ASTNodeType::Variable(var) = &node.node_type {
            if ctx.symbol_table.lookup(var.name, scope_id).is_none() {
                proof {
                    lemma_context_step_trans(*old(ctx), *old(ctx), *old(ctx));
                }
                return Err(SemanticError::TypeInference.at(node.span));
            }
            let ghost before = ctx.symbol_table;
            ctx.symbol_table.assign_type(data_type_id, var.name, scope_id);
            proof {
                lemma_assign_type(before, ctx.symbol_table, var.name, scope_id, data_type_id, ctx.type_arena.data_types@.len() as int);
                lemma_declaring_scope(before.scopes@, var.name, scope_id.0 as int);
                lemma_shape_declaring(before, var.name, scope_id.0 as int);
                let d = declaring_scope(before.scopes@, var.name, scope_id.0 as int)->0;
                let after = ctx.symbol_table;
                assert forall|k: (int, usize)| #![auto] symbol_types(after).dom().contains(k) == symbol_types(before).insert((d, var.name), Some(data_type_id)).dom().contains(k) by {
                    if k.0 == d {
                        assert(after.scopes@[d].symbols_view().dom() =~= before.scopes@[d].symbols_view().dom().insert(var.name));
                    }
                }
                assert(symbol_types(after) =~= symbol_types(before).insert((d, var.name), Some(data_type_id)));
                lemma_context_step_trans(*old(ctx), *old(ctx), *old(ctx));
            }
            self.ast_node_data_types.set(var_id.0, Some(data_type_id));
            Ok(())
        } else {
            proof {
                lemma_context_step_trans(*old(ctx), *old(ctx), *old(ctx));
            }
            Err(SemanticError::TypeInference.at(node.span))
        }
    }

    /// The type of a binary operation. The right operand is typed first;
    /// an assignment to a variable whose type is not known yet gives the
    /// variable the right operand's type.
    fn compute_binary_operation_type(
        &mut self,
        ctx: &mut CompilerContext,
        operator_node: &BinaryOperatorNode,
        node_id: ASTNodeId,
        operator_span: SourceSpan,
        scope_id: ScopeId,
    ) -> (r: Result<DataTypeId, CompilerError>)
        requires
            old(self).ready(*old(ctx)),
            scope_id.0 < old(ctx).symbol_table.scopes@.len(),
            operator_node.left.0 < node_id.0 < old(self).ast.node_arena@.len(),
            operator_node.right.0 < node_id.0,
            operator_span == old(self).ast.node_arena@[node_id.0 as int].span,
        ensures
            (typing_state(*final(self), *final(ctx)), r) == (binary_typing(*old(self).ast, scope_shape(old(ctx).symbol_table), old(ctx).type_arena.types_view(), typing_state(*old(self), *old(ctx)), *operator_node, node_id.0 as int, scope_id).1,
                binary_typing(*old(self).ast, scope_shape(old(ctx).symbol_table), old(ctx).type_arena.types_view(), typing_state(*old(self), *old(ctx)), *operator_node, node_id.0 as int, scope_id).0),
            final(ctx).type_arena == old(ctx).type_arena,
            synth_step(*old(self), *final(self), *old(ctx), *final(ctx)),
            r matches Err(e) ==> is_synthesis_error(e),
            r matches Ok(t) ==> t.0 < final(ctx).type_arena.data_types@.len(),
            r matches Ok(t) ==> (final(self).ast_node_data_types@[operator_node.left.0 as int] matches Some(lt) && (
            (operator_node.op_type is Assign && t == lt) || exists|rt: DataTypeId|
                rt.0 < final(ctx).type_arena.data_types@.len() && Some(t) == binary_operation_type(
                    operator_node.op_type,
                    (lt, rt),
                    final(ctx).type_arena.types_view(),
                ))),
        decreases node_id.0, 4nat,
    {
        let right_span = self.ast.lookup(operator_node.right).span;
        let rhs_type_opt = self.compute_expression_type(ctx, operator_node.right, scope_id)?;
        let rhs_type_id = match rhs_type_opt {
            Some(data_type) => data_type,
            None => {
                return Err(SemanticError::TypeInference.at(right_span));
            },
        };
        let ghost mid = *self;
        let ghost mid_ctx = *ctx;
        proof {
            lemma_types_assigned_shape(old(ctx).symbol_table, mid_ctx.symbol_table);
        }
        let left_span = self.ast.lookup(operator_node.left).span;
        let res = self.compute_expression_type(ctx, operator_node.left, scope_id);
        proof {
            lemma_context_step_trans(*old(ctx), mid_ctx, *ctx);
            lemma_types_assigned_shape(mid_ctx.symbol_table, ctx.symbol_table);
        }
        let lhs_type_opt = res?;
        let lhs_type_id = match lhs_type_opt {
            Some(data_type) => data_type,
            None => {
                if operator_node.op_type == BinaryOperator::Assign {
                    proof {
                        lemma_types_assigned_shape(old(ctx).symbol_table, ctx.symbol_table);
                        if let ASTNodeType::Variable(v) = self.ast.node_arena@[operator_node.left.0 as int].node_type {
                            lemma_shape_declaring(ctx.symbol_table, v.name, scope_id.0 as int);
                            lemma_declaring_scope(ctx.symbol_table.scopes@, v.name, scope_id.0 as int);
                        }
                    }
                    let ghost before = *ctx;
                    let res = self.assign_variable_type(ctx, operator_node.left, rhs_type_id, scope_id);
                    proof {
                        lemma_context_step_trans(*old(ctx), before, *ctx);
                    }
                    res?;
                    return Ok(rhs_type_id);
                } else {
                    return Err(SemanticError::TypeInference.at(left_span));
                }
            },
        };
        let operands = (lhs_type_id, rhs_type_id);
        match self.binary_op_impl.operation_type(operator_node.op_type, &operands, &ctx.type_arena) {
            Some(data_type) => Ok(data_type),
            None => Err(
                SemanticError::MismatchedBinaryOperatorTypes(operator_node.op_type, lhs_type_id, rhs_type_id).at(
                    operator_span,
                ),
            ),
        }
    }

    /// Checks each argument's type against the parameter type at the same
    /// position.
    fn check_param_types(
        &mut self,
        ctx: &mut CompilerContext,
        param_types: &Vec<DataTypeId>,
        arg_ids: &Vec<ASTNodeId>,
        node_id: ASTNodeId,
        scope_id: ScopeId,
    ) -> (r: Result<(), CompilerError>)
        requires
            old(self).ready(*old(ctx)),
            scope_id.0 < old(ctx).symbol_table.scopes@.len(),
            forall|i: int| 0 <= i < arg_ids@.len() ==> (#[trigger] arg_ids@[i]).0 < node_id.0,
            node_id.0 < old(self).ast.node_arena@.len(),
        ensures
            (typing_state(*final(self), *final(ctx)), r) == (args_typing(*old(self).ast, scope_shape(old(ctx).symbol_table), old(ctx).type_arena.types_view(), typing_state(*old(self), *old(ctx)), arg_ids@, param_types@, 0, node_id.0 as int, scope_id).1,
                args_typing(*old(self).ast, scope_shape(old(ctx).symbol_table), old(ctx).type_arena.types_view(), typing_state(*old(self), *old(ctx)), arg_ids@, param_types@, 0, node_id.0 as int, scope_id).0),
            final(ctx).type_arena == old(ctx).type_arena,
            synth_step(*old(self), *final(self), *old(ctx), *final(ctx)),
            r matches Err(e) ==> is_synthesis_error(e),
            r is Ok ==> forall|i: int| 0 <= i < arg_ids@.len() && i < param_types@.len() ==> final(self).ast_node_visited@[(#[trigger] arg_ids@[i]).0 as int],
        decreases node_id.0, 3nat,
    {
        let mut i: usize = 0;
        proof {
            lemma_context_step_trans(*old(ctx), *old(ctx), *old(ctx));
        }
        while i < param_types.len() && i < arg_ids.len()
            invariant
                synth_step(*old(self), *self, *old(ctx), *ctx),
                scope_id.0 < ctx.symbol_table.scopes@.len(),
                forall|k: int| 0 <= k < arg_ids@.len() ==> (#[trigger] arg_ids@[k]).0 < node_id.0,
                node_id.0 < self.ast.node_arena@.len(),
                i <= param_types@.len(),
                forall|k: int| 0 <= k < i && k < arg_ids@.len() ==> self.ast_node_visited@[(#[trigger] arg_ids@[k]).0 as int],
                ctx.type_arena == old(ctx).type_arena,
                scope_shape(ctx.symbol_table) == scope_shape(old(ctx).symbol_table),
                args_typing(*old(self).ast, scope_shape(old(ctx).symbol_table), old(ctx).type_arena.types_view(), typing_state(*old(self), *old(ctx)), arg_ids@, param_types@, 0, node_id.0 as int, scope_id)
                    == args_typing(*old(self).ast, scope_shape(old(ctx).symbol_table), old(ctx).type_arena.types_view(), typing_state(*self, *ctx), arg_ids@, param_types@, i as int, node_id.0 as int, scope_id),
            decreases param_types@.len() - i,
        {
            let formal_param_type_id = param_types[i];
            let param_node_id = arg_ids[i];
            let param_span = self.ast.lookup(param_node_id).span;
            let ghost before = *ctx;
            let ghost before_self = *self;
            let ghost vb = self.ast_node_visited@;
            let res = self.compute_expression_type(ctx, param_node_id, scope_id);
            proof {
                lemma_context_step_trans(*old(ctx), before, *ctx);
                lemma_types_assigned_shape(before.symbol_table, ctx.symbol_table);
                assert(args_typing(*old(self).ast, scope_shape(old(ctx).symbol_table), old(ctx).type_arena.types_view(), typing_state(before_self, before), arg_ids@, param_types@, i as int, node_id.0 as int, scope_id)
                    == (match expr_typing(*old(self).ast, scope_shape(old(ctx).symbol_table), old(ctx).type_arena.types_view(), typing_state(before_self, before), arg_ids@[i as int].0 as int, scope_id) {
                        (Err(e), s1) => (Err(e), s1),
                        (Ok(None), s1) => (Err(semantic_error_at(SemanticError::TypeInference, self.ast.node_arena@[arg_ids@[i as int].0 as int].span)), s1),
                        (Ok(Some(at)), s1) => if at != param_types@[i as int] {
                            (Err(semantic_error_at(SemanticError::MismatchedTypes { expected: param_types@[i as int], actual: at }, self.ast.node_arena@[arg_ids@[i as int].0 as int].span)), s1)
                        } else {
                            args_typing(*old(self).ast, scope_shape(old(ctx).symbol_table), old(ctx).type_arena.types_view(), s1, arg_ids@, param_types@, i + 1, node_id.0 as int, scope_id)
                        },
                    }));
                if res is Ok {
                    assert forall|k: int| 0 <= k < i + 1 && k < arg_ids@.len() implies self.ast_node_visited@[(#[trigger] arg_ids@[k]).0 as int] by {
                        if k < i {
                            assert(vb[arg_ids@[k].0 as int]);
                        }
                    }
                }
            }
            match res? {
                None => {
                    return Err(SemanticError::TypeInference.at(param_span));
                },
                Some(actual_param_type_id) => {
                    if actual_param_type_id != formal_param_type_id {
                        return Err(
                            SemanticError::MismatchedTypes {
                                expected: formal_param_type_id,
                                actual: actual_param_type_id,
                            }.at(param_span),
                        );
                    }
                },
            }
            i += 1;
        }
        Ok(())
    }

    /// The argument expressions of a call, in order.
    fn function_arg_nodes(&self, func_call_node: &FunctionCallNode) -> (r: Vec<ASTNodeId>)
        ensures
            r@ == func_call_node.args@,
    {
        let mut args: Vec<ASTNodeId> = Vec::new();
        let mut i: usize = 0;
        while i < func_call_node.args.len()
            invariant
                i <= func_call_node.args@.len(),
                args@ == func_call_node.args@.subrange(0, i as int),
            decreases func_call_node.args@.len() - i,
        {
            args.push(func_call_node.args[i]);
            i += 1;
            assert(args@ =~= func_call_node.args@.subrange(0, i as int));
        }
        assert(args@ =~= func_call_node.args@);
        args
    }

    /// The type of a call: the called expression must have a function type
    /// whose parameters match the arguments in number and type; the call has
    /// the function's return type.
    fn compute_function_call_type(
        &mut self,
        ctx: &mut CompilerContext,
        func_call_node: &FunctionCallNode,
        node_id: ASTNodeId,
        span: SourceSpan,
        scope_id: ScopeId,
    ) -> (r: Result<DataTypeId, CompilerError>)
        requires
            old(self).ready(*old(ctx)),
            scope_id.0 < old(ctx).symbol_table.scopes@.len(),
            func_call_node.function.0 < node_id.0 < old(self).ast.node_arena@.len(),
            forall|i: int| 0 <= i < func_call_node.args@.len() ==> (#[trigger] func_call_node.args@[i]).0 < node_id.0,
            span == old(self).ast.node_arena@[node_id.0 as int].span,
        ensures
            (typing_state(*final(self), *final(ctx)), r) == (call_typing(*old(self).ast, scope_shape(old(ctx).symbol_table), old(ctx).type_arena.types_view(), typing_state(*old(self), *old(ctx)), *func_call_node, node_id.0 as int, scope_id).1,
                call_typing(*old(self).ast, scope_shape(old(ctx).symbol_table), old(ctx).type_arena.types_view(), typing_state(*old(self), *old(ctx)), *func_call_node, node_id.0 as int, scope_id).0),
            final(ctx).type_arena == old(ctx).type_arena,
            synth_step(*old(self), *final(self), *old(ctx), *final(ctx)),
            r matches Err(e) ==> is_synthesis_error(e),
            r matches Ok(t) ==> t.0 < final(ctx).type_arena.data_types@.len(),
            r matches Ok(t) ==> exists|ft: DataTypeId|
                ft.0 < final(ctx).type_arena.data_types@.len() && ((#[trigger] final(ctx).type_arena.types_view()[ft.0 as int]) matches DataTypeView::Fn {
                    param_types,
                    return_type,
                } && return_type == t && param_types.len() == func_call_node.args@.len()),
        decreases node_id.0, 4nat,
    {
        let func_node_id = func_call_node.function;
        let func_span = self.ast.lookup(func_node_id).span;
        let func_type_opt = self.compute_expression_type(ctx, func_node_id, scope_id)?;
        let func_type = match func_type_opt {
            Some(t) => t,
            None => {
                return Err(SemanticError::TypeInference.at(func_span));
            },
        };
        let (param_types, return_type) = match ctx.type_arena.get_data_type(func_type) {
            DataType::Fn { param_types, return_type } => {
                let mut copied: Vec<DataTypeId> = Vec::new();
                let mut i: usize = 0;
                while i < param_types.len()
                    invariant
                        i <= param_types@.len(),
                        copied@ == param_types@.subrange(0, i as int),
                    decreases param_types@.len() - i,
                {
                    copied.push(param_types[i]);
                    i += 1;
                    assert(copied@ =~= param_types@.subrange(0, i as int));
                }
                assert(copied@ =~= param_types@);
                (copied, *return_type)
            },
            _ => {
                return Err(SemanticError::FunctionExpected.at(func_span));
            },
        };
        let ghost fview = ctx.type_arena.types_view()[func_type.0 as int];
        proof {
            assert(components_before(ctx.type_arena.types_view()[func_type.0 as int], func_type.0 as int));
        }
        let arg_types = self.function_arg_nodes(func_call_node);
        let actual_args_count = arg_types.len();
        let expected_args_count = param_types.len();
        if actual_args_count != expected_args_count {
            return Err(
                SemanticError::IncorrectArgumentCount {
                    expected: expected_args_count,
                    actual: actual_args_count,
                }.at(span),
            );
        }
        let ghost before = *ctx;
        proof {
            lemma_types_assigned_shape(old(ctx).symbol_table, ctx.symbol_table);
        }
        let res = self.check_param_types(ctx, &param_types, &arg_types, node_id, scope_id);
        proof {
            lemma_context_step_trans(*old(ctx), before, *ctx);
        }
        res?;
        proof {
            assert(ctx.type_arena.types_view()[func_type.0 as int] == fview);
        }
        Ok(return_type)
    }

    /// The type of a `return`: unit without a value; with a value, inside a
    /// function whose declared return type is the value's type.
    fn compute_return_statement_type(
        &mut self,
        ctx: &mut CompilerContext,
        expr_id_opt: Option<ASTNodeId>,
        node_id: ASTNodeId,
        scope_id: ScopeId,
    ) -> (r: Result<DataTypeId, CompilerError>)
        requires
            old(self).ready(*old(ctx)),
            scope_id.0 < old(ctx).symbol_table.scopes@.len(),
            node_id.0 < old(self).ast.node_arena@.len(),
            expr_id_opt matches Some(e) ==> e.0 < node_id.0,
        ensures
            synth_step(*old(self), *final(self), *old(ctx), *final(ctx)),
            r matches Err(e) ==> is_synthesis_error(e),
            expr_id_opt is None ==> r == Ok::<DataTypeId, CompilerError>(builtin_id(BuiltinType::Unit)),
            (typing_state(*final(self), *final(ctx)), r) == (return_typing(*old(self).ast, scope_shape(old(ctx).symbol_table), old(ctx).type_arena.types_view(), typing_state(*old(self), *old(ctx)), old(ctx).symbol_table.scopes@[scope_id.0 as int].function, expr_id_opt, scope_id).1,
                return_typing(*old(self).ast, scope_shape(old(ctx).symbol_table), old(ctx).type_arena.types_view(), typing_state(*old(self), *old(ctx)), old(ctx).symbol_table.scopes@[scope_id.0 as int].function, expr_id_opt, scope_id).0),
            final(ctx).type_arena == old(ctx).type_arena,
            r is Ok ==> (expr_id_opt matches Some(e) ==> final(self).ast_node_visited@[e.0 as int]),
            r matches Ok(t) ==> (expr_id_opt matches Some(e) ==> {
                &&& final(self).ast_node_data_types@[e.0 as int] == Some(t)
                &&& old(ctx).symbol_table.scopes@[scope_id.0 as int].function matches Some(f)
                &&& old(ctx).symbol_table.resolve(f, scope_id) matches Some(sym)
                &&& sym.data_type_id matches Some(ft)
                &&& old(ctx).type_arena.types_view()[ft.0 as int] matches DataTypeView::Fn { return_type, .. }
                &&& return_type == t
            }),
            (expr_id_opt is Some && old(ctx).symbol_table.scopes@[scope_id.0 as int].function is None) ==> r
                == Err::<DataTypeId, CompilerError>(
                CompilerError {
                    error_type: ErrorKind::Semantic(SemanticError::ReturnStatementOutsideFunction),
                    span: old(self).ast.node_arena@[(expr_id_opt->0).0 as int].span,
                },
            ),
        decreases node_id.0, 4nat,
    {
        proof {
            lemma_context_step_trans(*old(ctx), *old(ctx), *old(ctx));
        }
        let expr_id = match expr_id_opt {
            Some(expr_id) => expr_id,
            None => {
                return Ok(ctx.type_arena.builtin_type_id(BuiltinType::Unit));
            },
        };
        let span = self.ast.lookup(expr_id).span;
        let func_name = match ctx.symbol_table.scope_function_name(scope_id) {
            Some(func_name) => func_name,
            None => {
                return Err(SemanticError::ReturnStatementOutsideFunction.at(span));
            },
        };
        proof {
            lemma_resolved_type_below(ctx.symbol_table, func_name, scope_id, ctx.type_arena.data_types@.len() as int);
            lemma_variable_type(ctx.symbol_table, typing_state(*self, *ctx), func_name, scope_id);
        }
        let func_type = match ctx.symbol_table.lookup(func_name, scope_id) {
            Some(symbol) => match symbol.data_type_id {
                Some(t) => t,
                None => {
                    return Err(SemanticError::TypeInference.at(span));
                },
            },
            None => {
                return Err(SemanticError::TypeInference.at(span));
            },
        };
        let expected_return_type = match ctx.type_arena.get_data_type(func_type) {
            DataType::Fn { return_type, .. } => *return_type,
            _ => {
                return Err(SemanticError::TypeInference.at(span));
            },
        };
        proof {
            assert(components_before(ctx.type_arena.types_view()[func_type.0 as int], func_type.0 as int));
        }
        let actual_return_type = match self.compute_expression_type(ctx, expr_id, scope_id)? {
            Some(return_type) => return_type,
            None => {
                return Err(SemanticError::TypeInference.at(span));
            },
        };
        if actual_return_type == expected_return_type {
            Ok(actual_return_type)
        } else {
            Err(SemanticError::IncorrectReturnType { expected: expected_return_type, actual: actual_return_type }.at(span))
        }
    }

    /// The type of an expression, recorded for its node: the builtin type of
    /// a literal, the recorded type of a variable (none if not known yet),
    /// or the type of an operation or call.
    fn compute_expression_type(&mut self, ctx: &mut CompilerContext, expr_id: ASTNodeId, scope_id: ScopeId) -> (r: Result<Option<DataTypeId>, CompilerError>)
        requires
            old(self).ready(*old(ctx)),
            scope_id.0 < old(ctx).symbol_table.scopes@.len(),
            expr_id.0 < old(self).ast.node_arena@.len(),
        ensures
            synth_step(*old(self), *final(self), *old(ctx), *final(ctx)),
            r matches Err(e) ==> is_synthesis_error(e),
            r matches Ok(t) ==> final(self).ast_node_data_types@[expr_id.0 as int] == t,
            r is Ok ==> final(self).ast_node_visited@[expr_id.0 as int],
            (typing_state(*final(self), *final(ctx)), r) == (expr_typing(*old(self).ast, scope_shape(old(ctx).symbol_table), old(ctx).type_arena.types_view(), typing_state(*old(self), *old(ctx)), expr_id.0 as int, scope_id).1,
                expr_typing(*old(self).ast, scope_shape(old(ctx).symbol_table), old(ctx).type_arena.types_view(), typing_state(*old(self), *old(ctx)), expr_id.0 as int, scope_id).0),
            final(ctx).type_arena == old(ctx).type_arena,
            r matches Ok(Some(t)) ==> t.0 < final(ctx).type_arena.data_types@.len(),
            old(self).ast.node_arena@[expr_id.0 as int].node_type is IntLiteral ==> r == Ok::<Option<DataTypeId>, CompilerError>(
                Some(builtin_id(BuiltinType::Int)),
            ),
            old(self).ast.node_arena@[expr_id.0 as int].node_type is StringLiteral ==> r == Ok::<Option<DataTypeId>, CompilerError>(
                Some(builtin_id(BuiltinType::String)),
            ),
            old(self).ast.node_arena@[expr_id.0 as int].node_type matches ASTNodeType::Variable(v) ==> r == Ok::<
                Option<DataTypeId>,
                CompilerError,
            >(
                match old(ctx).symbol_table.resolve(v.name, scope_id) {
                    None => None,
                    Some(s) => s.data_type_id,
                },
            ),
            !is_expression(old(self).ast.node_arena@[expr_id.0 as int].node_type) ==> r == Err::<
                Option<DataTypeId>,
                CompilerError,
            >(
                CompilerError {
                    error_type: ErrorKind::Semantic(SemanticError::TypeInference),
                    span: old(self).ast.node_arena@[expr_id.0 as int].span,
                },
            ),
        decreases expr_id.0, 5nat,
    {
        proof {
            lemma_context_step_trans(*old(ctx), *old(ctx), *old(ctx));
            assert(children_below(self.ast.node_arena@[expr_id.0 as int].node_type, expr_id.0 as int));
            assert(synthesis_supported(*self.ast));
            assert(!(self.ast.node_arena@[expr_id.0 as int].node_type is Index));
        }
        let node = self.ast.lookup(expr_id);
        let data_type_id = match &node.node_type {
            ASTNodeType::IntLiteral(_) => Some(ctx.type_arena.builtin_type_id(BuiltinType::Int)),
            ASTNodeType::StringLiteral(_) => Some(ctx.type_arena.builtin_type_id(BuiltinType::String)),
            ASTNodeType::Variable(var) => {
                proof {
                    lemma_resolved_type_below(ctx.symbol_table, var.name, scope_id, ctx.type_arena.data_types@.len() as int);
                    lemma_variable_type(ctx.symbol_table, typing_state(*self, *ctx), var.name, scope_id);
                }
                self.compute_variable_type(ctx, var.name, scope_id)?
            },
            ASTNodeType::UnaryOperator(op) => Some(
                self.compute_unary_operation_type(ctx, op.op_type, op.operand_id, expr_id, scope_id)?,
            ),
            ASTNodeType::BinaryOperator(op) => Some(self.compute_binary_operation_type(ctx, op, expr_id, node.span, scope_id)?),
            ASTNodeType::FunctionCall(func_call_node) => Some(
                self.compute_function_call_type(ctx, func_call_node, expr_id, node.span, scope_id)?,
            ),
            _ => {
                return Err(SemanticError::TypeInference.at(node.span));
            },
        };
        self.assign_expr_data_type(expr_id, data_type_id);
        self.ast_node_visited.set(expr_id.0, true);
        Ok(data_type_id)
    }

    /// Types the conditions and bodies of an `if`, in order.
    fn compute_if_types(&mut self, ctx: &mut CompilerContext, if_node: &crate::ast::if_node::IfNode, node_id: ASTNodeId, scope_id: ScopeId) -> (r: Result<(), CompilerError>)
        requires
            old(self).ready(*old(ctx)),
            scope_id.0 < old(ctx).symbol_table.scopes@.len(),
            node_id.0 < old(self).ast.node_arena@.len(),
            children_below(ASTNodeType::If(*if_node), node_id.0 as int),
            block_scopes_below(ASTNodeType::If(*if_node), old(ctx).symbol_table.scopes@.len() as int),
            old(self).ast.node_arena@[node_id.0 as int].node_type == ASTNodeType::If(*if_node),
        ensures
            (r, typing_state(*final(self), *final(ctx)), final(ctx).type_arena.types_view()) == stmt_typing(*old(self).ast, type_names(*old(ctx)), scope_shape(old(ctx).symbol_table), scope_functions(old(ctx).symbol_table), old(ctx).type_arena.types_view(), typing_state(*old(self), *old(ctx)), node_id.0 as int, scope_id),
            synth_step(*old(self), *final(self), *old(ctx), *final(ctx)),
            r matches Err(e) ==> is_synthesis_error(e),
            r is Ok ==> statement_typed(*final(self).ast, final(self).ast_node_visited@, node_id.0 as int),
        decreases node_id.0, 5nat,
    {
        proof {
            lemma_context_step_trans(*old(ctx), *old(ctx), *old(ctx));
        }
        let mut i: usize = 0;
        while i < if_node.condition_blocks.len()
            invariant
                synth_step(*old(self), *self, *old(ctx), *ctx),
                scope_id.0 < ctx.symbol_table.scopes@.len(),
                node_id.0 < self.ast.node_arena@.len(),
                children_below(ASTNodeType::If(*if_node), node_id.0 as int),
                block_scopes_below(ASTNodeType::If(*if_node), ctx.symbol_table.scopes@.len() as int),
                i <= if_node.condition_blocks@.len(),
                type_names(*ctx) == type_names(*old(ctx)),
                scope_shape(ctx.symbol_table) == scope_shape(old(ctx).symbol_table),
                scope_functions(ctx.symbol_table) == scope_functions(old(ctx).symbol_table),
                stmt_typing(*old(self).ast, type_names(*old(ctx)), scope_shape(old(ctx).symbol_table), scope_functions(old(ctx).symbol_table), old(ctx).type_arena.types_view(), typing_state(*old(self), *old(ctx)), node_id.0 as int, scope_id)
                    == if_typing(*old(self).ast, type_names(*old(ctx)), scope_shape(old(ctx).symbol_table), scope_functions(old(ctx).symbol_table), ctx.type_arena.types_view(), typing_state(*self, *ctx), *if_node, i as int, node_id.0 as int, scope_id),
                forall|k: int| 0 <= k < i ==> self.ast_node_visited@[(#[trigger] if_node.condition_blocks@[k]).condition.0 as int]
                    && block_typed(*self.ast, self.ast_node_visited@, if_node.condition_blocks@[k].body.statements@, node_id.0 as int),
            decreases if_node.condition_blocks@.len() - i,
        {
            let cond_block = &if_node.condition_blocks[i];
            let ghost before = *ctx;
            let ghost vb = self.ast_node_visited@;
            let res = self.compute_expression_type(ctx, cond_block.condition, scope_id);
            proof {
                lemma_context_step_trans(*old(ctx), before, *ctx);
                lemma_types_assigned_shape(old(ctx).symbol_table, ctx.symbol_table);
                if res is Ok {
                    assert forall|k: int| 0 <= k < i implies self.ast_node_visited@[(#[trigger] if_node.condition_blocks@[k]).condition.0 as int]
                        && block_typed(*self.ast, self.ast_node_visited@, if_node.condition_blocks@[k].body.statements@, node_id.0 as int) by {
                        lemma_block_typed_grows(*self.ast, vb, self.ast_node_visited@, if_node.condition_blocks@[k].body.statements@, node_id.0 as int);
                    }
                }
            }
            res?;
            let ghost mid = *ctx;
            let ghost vm = self.ast_node_visited@;
            let res = self.compute_block_types(ctx, &cond_block.body, node_id);
            proof {
                lemma_context_step_trans(*old(ctx), mid, *ctx);
                lemma_types_assigned_shape(old(ctx).symbol_table, ctx.symbol_table);
                if res is Ok {
                    assert forall|k: int| 0 <= k < i + 1 implies self.ast_node_visited@[(#[trigger] if_node.condition_blocks@[k]).condition.0 as int]
                        && block_typed(*self.ast, self.ast_node_visited@, if_node.condition_blocks@[k].body.statements@, node_id.0 as int) by {
                        if k < i {
                            lemma_block_typed_grows(*self.ast, vm, self.ast_node_visited@, if_node.condition_blocks@[k].body.statements@, node_id.0 as int);
                        }
                    }
                }
            }
            res?;
            i += 1;
        }
        if let Some(else_block) = &if_node.else_body {
            let ghost before = *ctx;
            let ghost vb = self.ast_node_visited@;
            let res = self.compute_block_types(ctx, else_block, node_id);
            proof {
                lemma_context_step_trans(*old(ctx), before, *ctx);
                lemma_types_assigned_shape(old(ctx).symbol_table, ctx.symbol_table);
                if res is Ok {
                    assert forall|k: int| 0 <= k < if_node.condition_blocks@.len() implies self.ast_node_visited@[(#[trigger] if_node.condition_blocks@[k]).condition.0 as int]
                        && block_typed(*self.ast, self.ast_node_visited@, if_node.condition_blocks@[k].body.statements@, node_id.0 as int) by {
                        lemma_block_typed_grows(*self.ast, vb, self.ast_node_visited@, if_node.condition_blocks@[k].body.statements@, node_id.0 as int);
                    }
                }
            }
            res?;
        }
        Ok(())
    }

    /// Types one statement other than a function definition.
    fn compute_curr_statement_type(&mut self, ctx: &mut CompilerContext, statement_id: ASTNodeId, scope_id: ScopeId) -> (r: Result<(), CompilerError>)
        requires
            old(self).ready(*old(ctx)),
            scope_id.0 < old(ctx).symbol_table.scopes@.len(),
            statement_id.0 < old(self).ast.node_arena@.len(),
        ensures
            (r, typing_state(*final(self), *final(ctx)), final(ctx).type_arena.types_view()) == stmt_typing(*old(self).ast, type_names(*old(ctx)), scope_shape(old(ctx).symbol_table), scope_functions(old(ctx).symbol_table), old(ctx).type_arena.types_view(), typing_state(*old(self), *old(ctx)), statement_id.0 as int, scope_id),
            synth_step(*old(self), *final(self), *old(ctx), *final(ctx)),
            r matches Err(e) ==> is_synthesis_error(e),
            r is Ok && !(old(self).ast.node_arena@[statement_id.0 as int].node_type is FunctionDef) ==> statement_typed(
                *final(self).ast,
                final(self).ast_node_visited@,
                statement_id.0 as int,
            ),
        decreases statement_id.0, 6nat,
    {
        proof {
            lemma_context_step_trans(*old(ctx), *old(ctx), *old(ctx));
            assert(children_below(self.ast.node_arena@[statement_id.0 as int].node_type, statement_id.0 as int));
            assert(block_scopes_below(self.ast.node_arena@[statement_id.0 as int].node_type, ctx.symbol_table.scopes@.len() as int));
        }
        let node = self.ast.lookup(statement_id);
        match &node.node_type {
            ASTNodeType::FunctionDef(_) => Ok(()),
            ASTNodeType::ReturnStatement(ret_id) => {
                self.compute_return_statement_type(ctx, *ret_id, statement_id, scope_id)?;
                Ok(())
            },
            ASTNodeType::If(if_node) => self.compute_if_types(ctx, if_node, statement_id, scope_id),
            _ => {
                self.compute_expression_type(ctx, statement_id, scope_id)?;
                Ok(())
            },
        }
    }

    /// Types the statements of a block in order.
    fn compute_statement_types(&mut self, ctx: &mut CompilerContext, block: &Block, owner: ASTNodeId) -> (r: Result<(), CompilerError>)
        requires
            old(self).ready(*old(ctx)),
            block.scope_id.0 < old(ctx).symbol_table.scopes@.len(),
            block.ids_below(owner.0 as int),
            owner.0 <= old(self).ast.node_arena@.len(),
        ensures
            (r, typing_state(*final(self), *final(ctx)), final(ctx).type_arena.types_view()) == statements_typing(*old(self).ast, type_names(*old(ctx)), scope_shape(old(ctx).symbol_table), scope_functions(old(ctx).symbol_table), old(ctx).type_arena.types_view(), typing_state(*old(self), *old(ctx)), block.statements@, block.scope_id, 0, owner.0 as int),
            block.statements@.len() == 0 ==> r is Ok,
            synth_step(*old(self), *final(self), *old(ctx), *final(ctx)),
            r matches Err(e) ==> is_synthesis_error(e),
            r is Ok ==> forall|k: int| 0 <= k < block.statements@.len() && !(old(self).ast.node_arena@[(#[trigger] block.statements@[k]).0 as int].node_type is FunctionDef)
                ==> statement_typed(*final(self).ast, final(self).ast_node_visited@, block.statements@[k].0 as int),
        decreases owner.0, 2nat,
    {
        proof {
            lemma_context_step_trans(*old(ctx), *old(ctx), *old(ctx));
        }
        let mut i: usize = 0;
        while i < block.statements.len()
            invariant
                synth_step(*old(self), *self, *old(ctx), *ctx),
                block.scope_id.0 < ctx.symbol_table.scopes@.len(),
                block.ids_below(owner.0 as int),
                owner.0 <= self.ast.node_arena@.len(),
                i <= block.statements@.len(),
                type_names(*ctx) == type_names(*old(ctx)),
                scope_shape(ctx.symbol_table) == scope_shape(old(ctx).symbol_table),
                scope_functions(ctx.symbol_table) == scope_functions(old(ctx).symbol_table),
                statements_typing(*old(self).ast, type_names(*old(ctx)), scope_shape(old(ctx).symbol_table), scope_functions(old(ctx).symbol_table), old(ctx).type_arena.types_view(), typing_state(*old(self), *old(ctx)), block.statements@, block.scope_id, 0, owner.0 as int)
                    == statements_typing(*old(self).ast, type_names(*old(ctx)), scope_shape(old(ctx).symbol_table), scope_functions(old(ctx).symbol_table), ctx.type_arena.types_view(), typing_state(*self, *ctx), block.statements@, block.scope_id, i as int, owner.0 as int),
                forall|k: int| 0 <= k < i && !(old(self).ast.node_arena@[(#[trigger] block.statements@[k]).0 as int].node_type is FunctionDef)
                    ==> statement_typed(*self.ast, self.ast_node_visited@, block.statements@[k].0 as int),
            decreases block.statements@.len() - i,
        {
            let ghost before = *ctx;
            let ghost vb = self.ast_node_visited@;
            let res = self.compute_curr_statement_type(ctx, block.statements[i], block.scope_id);
            proof {
                lemma_context_step_trans(*old(ctx), before, *ctx);
                lemma_types_assigned_shape(old(ctx).symbol_table, ctx.symbol_table);
                if res is Ok {
                    assert forall|k: int| 0 <= k < i + 1 && !(old(self).ast.node_arena@[(#[trigger] block.statements@[k]).0 as int].node_type is FunctionDef)
                        implies statement_typed(*self.ast, self.ast_node_visited@, block.statements@[k].0 as int) by {
                        if k < i {
                            lemma_statement_typed_grows(*self.ast, vb, self.ast_node_visited@, block.statements@[k].0 as int);
                        }
                    }
                }
            }
            res?;
            i += 1;
        }
        Ok(())
    }

    /// Types the body of every function the block defines.
    fn compute_item_block_types(&mut self, ctx: &mut CompilerContext, block: &Block, owner: ASTNodeId) -> (r: Result<(), CompilerError>)
        requires
            old(self).ready(*old(ctx)),
            block.ids_below(owner.0 as int),
            owner.0 <= old(self).ast.node_arena@.len(),
        ensures
            (r, typing_state(*final(self), *final(ctx)), final(ctx).type_arena.types_view()) == item_blocks_typing(*old(self).ast, type_names(*old(ctx)), scope_shape(old(ctx).symbol_table), scope_functions(old(ctx).symbol_table), old(ctx).type_arena.types_view(), typing_state(*old(self), *old(ctx)), block.statements@, 0, owner.0 as int),
            block.statements@.len() == 0 ==> r is Ok,
            synth_step(*old(self), *final(self), *old(ctx), *final(ctx)),
            r matches Err(e) ==> is_synthesis_error(e),
            r is Ok ==> forall|k: int| 0 <= k < block.statements@.len() ==> (old(self).ast.node_arena@[(#[trigger] block.statements@[k]).0 as int].node_type matches ASTNodeType::FunctionDef(f)
                ==> block_typed(*final(self).ast, final(self).ast_node_visited@, f.body.statements@, block.statements@[k].0 as int)),
        decreases owner.0, 2nat,
    {
        proof {
            lemma_context_step_trans(*old(ctx), *old(ctx), *old(ctx));
        }
        let mut i: usize = 0;
        while i < block.statements.len()
            invariant
                synth_step(*old(self), *self, *old(ctx), *ctx),
                block.ids_below(owner.0 as int),
                owner.0 <= self.ast.node_arena@.len(),
                i <= block.statements@.len(),
                type_names(*ctx) == type_names(*old(ctx)),
                scope_shape(ctx.symbol_table) == scope_shape(old(ctx).symbol_table),
                scope_functions(ctx.symbol_table) == scope_functions(old(ctx).symbol_table),
                item_blocks_typing(*old(self).ast, type_names(*old(ctx)), scope_shape(old(ctx).symbol_table), scope_functions(old(ctx).symbol_table), old(ctx).type_arena.types_view(), typing_state(*old(self), *old(ctx)), block.statements@, 0, owner.0 as int)
                    == item_blocks_typing(*old(self).ast, type_names(*old(ctx)), scope_shape(old(ctx).symbol_table), scope_functions(old(ctx).symbol_table), ctx.type_arena.types_view(), typing_state(*self, *ctx), block.statements@, i as int, owner.0 as int),
                forall|k: int| 0 <= k < i ==> (old(self).ast.node_arena@[(#[trigger] block.statements@[k]).0 as int].node_type matches ASTNodeType::FunctionDef(f)
                    ==> block_typed(*self.ast, self.ast_node_visited@, f.body.statements@, block.statements@[k].0 as int)),
            decreases block.statements@.len() - i,
        {
            let id = block.statements[i];
            let node = self.ast.lookup(id);
            if let ASTNodeType::FunctionDef(func_def_node) = &node.node_type {
                proof {
                    assert(children_below(self.ast.node_arena@[id.0 as int].node_type, id.0 as int));
                    assert(block_scopes_below(self.ast.node_arena@[id.0 as int].node_type, ctx.symbol_table.scopes@.len() as int));
                }
                let ghost before = *ctx;
                let ghost vb = self.ast_node_visited@;
                let res = self.compute_block_types(ctx, &func_def_node.body, id);
                proof {
                    lemma_context_step_trans(*old(ctx), before, *ctx);
                    lemma_types_assigned_shape(old(ctx).symbol_table, ctx.symbol_table);
                    if res is Ok {
                        assert forall|k: int| 0 <= k < i implies (old(self).ast.node_arena@[(#[trigger] block.statements@[k]).0 as int].node_type matches ASTNodeType::FunctionDef(f)
                            ==> block_typed(*self.ast, self.ast_node_visited@, f.body.statements@, block.statements@[k].0 as int)) by {
                            if let ASTNodeType::FunctionDef(f) = old(self).ast.node_arena@[block.statements@[k].0 as int].node_type {
                                lemma_block_typed_grows(*self.ast, vb, self.ast_node_visited@, f.body.statements@, block.statements@[k].0 as int);
                            }
                        }
                    }
                }
                res?;
            }
            i += 1;
        }
        Ok(())
    }

    /// The declared type of each parameter, recorded for the parameter in
    /// the function's body scope.
    fn compute_function_param_types(&mut self, ctx: &mut CompilerContext, func_def_node: &FunctionDefNode) -> (r: Result<Vec<DataTypeId>, CompilerError>)
        requires
            old(self).ready(*old(ctx)),
            func_def_node.body.scope_id.0 < old(ctx).symbol_table.scopes@.len(),
            signature_names_below(ASTNodeType::FunctionDef(*func_def_node), old(ctx).string_interner@.len()),
        ensures
            synth_step(*old(self), *final(self), *old(ctx), *final(ctx)),
            final(ctx).type_arena == old(ctx).type_arena,
            final(self).ast_node_data_types == old(self).ast_node_data_types,
            r matches Err(e) ==> is_synthesis_error(e),
            r matches Ok(v) ==> v@.len() == func_def_node.params@.len() && forall|i: int| 0 <= i < v@.len() ==> (#[trigger] v@[i]).0
                < final(ctx).type_arena.data_types@.len(),
            r matches Ok(v) ==> forall|i: int| 0 <= i < v@.len() ==> Some(#[trigger] v@[i]) == named_type(
                *old(ctx),
                func_def_node.params@[i].type_annotation.type_symbol,
            ),
            (match param_typing(type_names(*old(ctx)), scope_shape(old(ctx).symbol_table), typing_state(*old(self), *old(ctx)), func_def_node.params@, func_def_node.body.scope_id, 0, Seq::empty()) {
                (Ok(ps), s1) => (r matches Ok(v) && v@ == ps) && typing_state(*final(self), *final(ctx)) == s1,
                (Err(e), s1) => r == Err::<Vec<DataTypeId>, CompilerError>(e) && typing_state(*final(self), *final(ctx)) == s1,
            }),
    {
        proof {
            lemma_context_step_trans(*old(ctx), *old(ctx), *old(ctx));
        }
        let body_scope_id = func_def_node.body.scope_id;
        let mut param_types: Vec<DataTypeId> = Vec::new();
        let mut i: usize = 0;
        while i < func_def_node.params.len()
            invariant
                synth_step(*old(self), *self, *old(ctx), *ctx),
                ctx.type_arena == old(ctx).type_arena,
                self.ast_node_data_types == old(self).ast_node_data_types,
                body_scope_id == func_def_node.body.scope_id,
                body_scope_id.0 < ctx.symbol_table.scopes@.len(),
                signature_names_below(ASTNodeType::FunctionDef(*func_def_node), ctx.string_interner@.len()),
                i <= func_def_node.params@.len(),
                param_types@.len() == i,
                forall|k: int| 0 <= k < param_types@.len() ==> (#[trigger] param_types@[k]).0 < ctx.type_arena.data_types@.len(),
                ctx.string_interner == old(ctx).string_interner,
                forall|k: int| 0 <= k < param_types@.len() ==> Some(#[trigger] param_types@[k]) == named_type(
                    *old(ctx),
                    func_def_node.params@[k].type_annotation.type_symbol,
                ),
                scope_shape(ctx.symbol_table) == scope_shape(old(ctx).symbol_table),
                param_typing(type_names(*old(ctx)), scope_shape(old(ctx).symbol_table), typing_state(*old(self), *old(ctx)), func_def_node.params@, func_def_node.body.scope_id, 0, Seq::empty())
                    == param_typing(type_names(*old(ctx)), scope_shape(old(ctx).symbol_table), typing_state(*self, *ctx), func_def_node.params@, func_def_node.body.scope_id, i as int, param_types@),
            decreases func_def_node.params@.len() - i,
        {
            let param = &func_def_node.params[i];
            let type_id = match ctx.type_arena.get_type_id(param.type_annotation.type_symbol, &ctx.string_interner) {
                Some(t) => t,
                None => {
                    return Err(SemanticError::UndefinedType.at(param.span));
                },
            };
            proof {
                lemma_shape_declaring(ctx.symbol_table, param.name, body_scope_id.0 as int);
                lemma_declaring_scope(ctx.symbol_table.scopes@, param.name, body_scope_id.0 as int);
            }
            if ctx.symbol_table.lookup(param.name, body_scope_id).is_none() {
                return Err(SemanticError::TypeInference.at(param.span));
            }
            let ghost before = *ctx;
            ctx.symbol_table.assign_type(type_id, param.name, body_scope_id);
            proof {
                lemma_assign_symbol_types(before.symbol_table, ctx.symbol_table, param.name, body_scope_id, type_id);
                lemma_assign_type(before.symbol_table, ctx.symbol_table, param.name, body_scope_id, type_id, ctx.type_arena.data_types@.len() as int);
                lemma_context_step_trans(*old(ctx), before, *ctx);
                lemma_types_assigned_shape(before.symbol_table, ctx.symbol_table);
            }
            param_types.push(type_id);
            i += 1;
        }
        Ok(param_types)
    }

    /// The declared return type of a function; unit when none is declared.
    fn compute_function_return_type(&self, ctx: &CompilerContext, func_def_node: &FunctionDefNode) -> (r: Result<DataTypeId, CompilerError>)
        requires
            ctx.wf(),
            signature_names_below(ASTNodeType::FunctionDef(*func_def_node), ctx.string_interner@.len()),
        ensures
            r matches Err(e) ==> e.error_type == ErrorKind::Semantic(SemanticError::UndefinedType)
                && e.span == func_def_node.return_type->0.span,
            r matches Ok(t) ==> t.0 < ctx.type_arena.data_types@.len(),
            r is Ok <==> declared_return_type(*ctx, *func_def_node) is Some,
            r matches Ok(t) ==> declared_return_type(*ctx, *func_def_node) == Some(t),
    {
        match &func_def_node.return_type {
            None => Ok(ctx.type_arena.builtin_type_id(BuiltinType::Unit)),
            Some(ret) => {
                match ctx.type_arena.get_type_id(ret.type_symbol, &ctx.string_interner) {
                    Some(t) => Ok(t),
                    None => Err(SemanticError::UndefinedType.at(ret.span)),
                }
            },
        }
    }

    /// The type of a function: its parameter types and return type, added to
    /// the arena if new and recorded for the function's name in scope
    /// `scope_id`.
    fn compute_function_signature_types(&mut self, ctx: &mut CompilerContext, func_def_node: &FunctionDefNode, span: SourceSpan, scope_id: ScopeId) -> (r: Result<(), CompilerError>)
        requires
            old(self).ready(*old(ctx)),
            scope_id.0 < old(ctx).symbol_table.scopes@.len(),
            func_def_node.body.scope_id.0 < old(ctx).symbol_table.scopes@.len(),
            signature_names_below(ASTNodeType::FunctionDef(*func_def_node), old(ctx).string_interner@.len()),
        ensures
            (r, typing_state(*final(self), *final(ctx)), final(ctx).type_arena.types_view()) == sig_typing(type_names(*old(ctx)), scope_shape(old(ctx).symbol_table), old(ctx).type_arena.types_view(), typing_state(*old(self), *old(ctx)), *func_def_node, span, scope_id),
            synth_step(*old(self), *final(self), *old(ctx), *final(ctx)),
            r matches Err(e) ==> is_synthesis_error(e),
            r is Ok ==> (final(ctx).symbol_table.resolve(func_def_node.name, scope_id) matches Some(sym) && sym.data_type_id matches Some(
                ft,
            ) && final(ctx).type_arena.types_view()[ft.0 as int] matches DataTypeView::Fn { param_types, return_type }
                && param_types.len() == func_def_node.params@.len() && (forall|i: int| 0 <= i < param_types.len() ==> Some(
                #[trigger] param_types[i],
            ) == named_type(*old(ctx), func_def_node.params@[i].type_annotation.type_symbol)) && Some(return_type)
                == declared_return_type(*old(ctx), *func_def_node)),
    {
        let param_types = self.compute_function_param_types(ctx, func_def_node)?;
        let ghost mid = *ctx;
        let return_type = match self.compute_function_return_type(ctx, func_def_node) {
            Ok(t) => t,
            Err(e) => {
                return Err(e);
            },
        };
        let function_type = DataType::Fn { param_types, return_type };
        let ghost ft = function_type@;
        let ghost arena_before = ctx.type_arena;
        let function_type_id = ctx.type_arena.add_if_new_type(function_type);
        proof {
            lemma_first_index(ctx.type_arena.types_view(), ft, function_type_id.0 as int);
            let n = ctx.type_arena.data_types@.len() as int;
            assert forall|i: int| 0 <= i < ctx.type_arena.data_types@.len() implies (#[trigger] ctx.type_arena.types_view()[i] matches DataTypeView::UserDefined(s) ==> s < ctx.string_interner@.len()) by {
                if i < arena_before.data_types@.len() {
                    assert(ctx.type_arena.types_view()[i] == arena_before.types_view()[i]);
                } else {
                    assert(!arena_before.types_view().contains(ft));
                    assert(ctx.type_arena.types_view() == arena_before.types_view().push(ft));
                    assert(ctx.type_arena.types_view()[i] == ft);
                }
            }
            assert forall|i: int, k: usize|
                0 <= i < ctx.symbol_table.scopes@.len() && #[trigger] ctx.symbol_table.scopes@[i].symbols_view().contains_key(k) implies (
                ctx.symbol_table.scopes@[i].symbols_view()[k].data_type_id matches Some(x) ==> x.0 < n) by {
                assert(mid.symbol_table.scopes@[i].symbols_view().contains_key(k));
            }
            assert forall|i: int| 0 <= i < self.ast_node_data_types@.len() implies (#[trigger] self.ast_node_data_types@[i] matches Some(
                t,
            ) ==> t.0 < n) by {}
            assert forall|i: int| 0 <= i < arena_before.data_types@.len() implies #[trigger] ctx.type_arena.types_view()[i]
                == arena_before.types_view()[i] by {}
            lemma_context_step_trans(*old(ctx), mid, *ctx);
        }
        proof {
            lemma_types_assigned_shape(old(ctx).symbol_table, ctx.symbol_table);
            lemma_shape_declaring(ctx.symbol_table, func_def_node.name, scope_id.0 as int);
            lemma_declaring_scope(ctx.symbol_table.scopes@, func_def_node.name, scope_id.0 as int);
        }
        if ctx.symbol_table.lookup(func_def_node.name, scope_id).is_none() {
            return Err(SemanticError::TypeInference.at(span));
        }
        let ghost before = *ctx;
        ctx.symbol_table.assign_type(function_type_id, func_def_node.name, scope_id);
        proof {
            lemma_assign_symbol_types(before.symbol_table, ctx.symbol_table, func_def_node.name, scope_id, function_type_id);
            lemma_assign_type(before.symbol_table, ctx.symbol_table, func_def_node.name, scope_id, function_type_id, ctx.type_arena.data_types@.len() as int);
            lemma_context_step_trans(*old(ctx), before, *ctx);
        }
        Ok(())
    }

    /// Types the signature of every function the block defines, in order.
    fn compute_item_types(&mut self, ctx: &mut CompilerContext, block: &Block, owner: ASTNodeId) -> (r: Result<(), CompilerError>)
        requires
            old(self).ready(*old(ctx)),
            block.scope_id.0 < old(ctx).symbol_table.scopes@.len(),
            block.ids_below(owner.0 as int),
            owner.0 <= old(self).ast.node_arena@.len(),
        ensures
            (r, typing_state(*final(self), *final(ctx)), final(ctx).type_arena.types_view()) == items_typing(*old(self).ast, type_names(*old(ctx)), scope_shape(old(ctx).symbol_table), old(ctx).type_arena.types_view(), typing_state(*old(self), *old(ctx)), block.statements@, block.scope_id, 0, owner.0 as int),
            block.statements@.len() == 0 ==> r is Ok,
            synth_step(*old(self), *final(self), *old(ctx), *final(ctx)),
            r matches Err(e) ==> is_synthesis_error(e),
            r is Ok ==> forall|k: int| 0 <= k < block.statements@.len() ==> (old(self).ast.node_arena@[(#[trigger] block.statements@[k]).0 as int].node_type matches ASTNodeType::FunctionDef(f)
                ==> (final(ctx).symbol_table.resolve(f.name, block.scope_id) matches Some(sym) && sym.data_type_id is Some)),
    {
        proof {
            lemma_context_step_trans(*old(ctx), *old(ctx), *old(ctx));
        }
        let mut i: usize = 0;
        while i < block.statements.len()
            invariant
                synth_step(*old(self), *self, *old(ctx), *ctx),
                block.scope_id.0 < ctx.symbol_table.scopes@.len(),
                block.ids_below(owner.0 as int),
                owner.0 <= self.ast.node_arena@.len(),
                i <= block.statements@.len(),
                type_names(*ctx) == type_names(*old(ctx)),
                scope_shape(ctx.symbol_table) == scope_shape(old(ctx).symbol_table),
                scope_functions(ctx.symbol_table) == scope_functions(old(ctx).symbol_table),
                items_typing(*old(self).ast, type_names(*old(ctx)), scope_shape(old(ctx).symbol_table), old(ctx).type_arena.types_view(), typing_state(*old(self), *old(ctx)), block.statements@, block.scope_id, 0, owner.0 as int)
                    == items_typing(*old(self).ast, type_names(*old(ctx)), scope_shape(old(ctx).symbol_table), ctx.type_arena.types_view(), typing_state(*self, *ctx), block.statements@, block.scope_id, i as int, owner.0 as int),
                forall|k: int| 0 <= k < i ==> (old(self).ast.node_arena@[(#[trigger] block.statements@[k]).0 as int].node_type matches ASTNodeType::FunctionDef(f)
                    ==> (ctx.symbol_table.resolve(f.name, block.scope_id) matches Some(sym) && sym.data_type_id is Some)),
            decreases block.statements@.len() - i,
        {
            let id = block.statements[i];
            let node = self.ast.lookup(id);
            if let ASTNodeType::FunctionDef(func_def_node) = &node.node_type {
                proof {
                    assert(block_scopes_below(self.ast.node_arena@[id.0 as int].node_type, ctx.symbol_table.scopes@.len() as int));
                    assert(signature_names_below(self.ast.node_arena@[id.0 as int].node_type, ctx.string_interner@.len()));
                }
                let ghost before = *ctx;
                let res = self.compute_function_signature_types(ctx, func_def_node, node.span, block.scope_id);
                proof {
                    lemma_context_step_trans(*old(ctx), before, *ctx);
                    lemma_types_assigned_shape(old(ctx).symbol_table, ctx.symbol_table);
                    if res is Ok {
                        assert forall|k: int| 0 <= k < i implies (old(self).ast.node_arena@[(#[trigger] block.statements@[k]).0 as int].node_type matches ASTNodeType::FunctionDef(f)
                            ==> (ctx.symbol_table.resolve(f.name, block.scope_id) matches Some(sym) && sym.data_type_id is Some)) by {
                            if let ASTNodeType::FunctionDef(f) = old(self).ast.node_arena@[block.statements@[k].0 as int].node_type {
                                lemma_resolved_typed_kept(before.symbol_table, ctx.symbol_table, f.name, block.scope_id.0 as int);
                            }
                        }
                    }
                }
                res?;
            }
            i += 1;
        }
        Ok(())
    }

    /// Types a block: the signatures of its functions, then their bodies,
    /// then its statements.
    fn compute_block_types(&mut self, ctx: &mut CompilerContext, block: &Block, owner: ASTNodeId) -> (r: Result<(), CompilerError>)
        requires
            old(self).ready(*old(ctx)),
            block.scope_id.0 < old(ctx).symbol_table.scopes@.len(),
            block.ids_below(owner.0 as int),
            owner.0 <= old(self).ast.node_arena@.len(),
        ensures
            (r, typing_state(*final(self), *final(ctx)), final(ctx).type_arena.types_view()) == block_typing(*old(self).ast, type_names(*old(ctx)), scope_shape(old(ctx).symbol_table), scope_functions(old(ctx).symbol_table), old(ctx).type_arena.types_view(), typing_state(*old(self), *old(ctx)), block.statements@, block.scope_id, owner.0 as int),
            block.statements@.len() == 0 ==> r is Ok,
            synth_step(*old(self), *final(self), *old(ctx), *final(ctx)),
            r matches Err(e) ==> is_synthesis_error(e),
            r is Ok ==> block_typed(*final(self).ast, final(self).ast_node_visited@, block.statements@, owner.0 as int),
            r is Ok ==> forall|k: int| 0 <= k < block.statements@.len() ==> (old(self).ast.node_arena@[(#[trigger] block.statements@[k]).0 as int].node_type matches ASTNodeType::FunctionDef(f)
                ==> (final(ctx).symbol_table.resolve(f.name, block.scope_id) matches Some(sym) && sym.data_type_id is Some)),
        decreases owner.0, 3nat,
    {
        self.compute_item_types(ctx, block, owner)?;
        let ghost a = *ctx;
        proof {
            lemma_types_assigned_shape(old(ctx).symbol_table, ctx.symbol_table);
        }
        let res = self.compute_item_block_types(ctx, block, owner);
        proof {
            lemma_context_step_trans(*old(ctx), a, *ctx);
        }
        res?;
        let ghost b = *ctx;
        let ghost vb = self.ast_node_visited@;
        proof {
            lemma_types_assigned_shape(old(ctx).symbol_table, ctx.symbol_table);
        }
        let res = self.compute_statement_types(ctx, block, owner);
        proof {
            lemma_context_step_trans(*old(ctx), b, *ctx);
            lemma_context_step_trans(a, b, *ctx);
            if res is Ok {
                assert forall|k: int| 0 <= k < block.statements@.len() implies (old(self).ast.node_arena@[(#[trigger] block.statements@[k]).0 as int].node_type matches ASTNodeType::FunctionDef(f)
                    ==> (ctx.symbol_table.resolve(f.name, block.scope_id) matches Some(sym) && sym.data_type_id is Some)) by {
                    if let ASTNodeType::FunctionDef(f) = old(self).ast.node_arena@[block.statements@[k].0 as int].node_type {
                        lemma_resolved_typed_kept(a.symbol_table, ctx.symbol_table, f.name, block.scope_id.0 as int);
                    }
                }
                assert forall|k: int| 0 <= k < block.statements@.len() implies (#[trigger] block.statements@[k]).0 < owner.0
                    && statement_typed(*self.ast, self.ast_node_visited@, block.statements@[k].0 as int) by {
                    let id = block.statements@[k].0 as int;
                    if let ASTNodeType::FunctionDef(f) = self.ast.node_arena@[id].node_type {
                        lemma_block_typed_grows(*self.ast, vb, self.ast_node_visited@, f.body.statements@, id);
                    }
                }
            }
        }
        res?;
        Ok(())
    }

    /// Types a whole program, its global statements forming the global
    /// block, and gives the type of every node: each expression the
    /// analysis reached has one; statements, and the comma operators left
    /// behind when call arguments were split apart, have none. Fails if the
    /// type of an expression it reached cannot be found.
    pub fn synthesize(ast: &AST, ctx: &mut CompilerContext) -> (r: Result<Vec<Option<DataTypeId>>, CompilerError>)
        requires
            old(ctx).wf(),
            ast.wf(),
            ast.scopes_below(old(ctx).symbol_table.scopes@.len() as int),
            ast.names_below(old(ctx).string_interner@.len()),
            synthesis_supported(*ast),
            table_types_below(old(ctx).symbol_table, old(ctx).type_arena.data_types@.len() as int),
        ensures
            block_typing(*ast, type_names(*old(ctx)), scope_shape(old(ctx).symbol_table), scope_functions(old(ctx).symbol_table), old(ctx).type_arena.types_view(), initial_typing(*ast, old(ctx).symbol_table), crate::semantic::name_resolution::global_statements(*ast), ScopeId(0), ast.node_arena@.len() as int).0 matches Err(e) ==> r == Err::<Vec<Option<DataTypeId>>, CompilerError>(e),
            block_typing(*ast, type_names(*old(ctx)), scope_shape(old(ctx).symbol_table), scope_functions(old(ctx).symbol_table), old(ctx).type_arena.types_view(), initial_typing(*ast, old(ctx).symbol_table), crate::semantic::name_resolution::global_statements(*ast), ScopeId(0), ast.node_arena@.len() as int).0 is Ok ==> (match collected(*ast, block_typing(*ast, type_names(*old(ctx)), scope_shape(old(ctx).symbol_table), scope_functions(old(ctx).symbol_table), old(ctx).type_arena.types_view(), initial_typing(*ast, old(ctx).symbol_table), crate::semantic::name_resolution::global_statements(*ast), ScopeId(0), ast.node_arena@.len() as int).1, 0, Seq::empty()) {
                Ok(v) => r matches Ok(w) && w@ == v,
                Err(e) => r == Err::<Vec<Option<DataTypeId>>, CompilerError>(e),
            }),
            r matches Ok(v) ==> block_typed(
                *ast,
                Seq::new(v@.len(), |i: int| v@[i] is Some),
                crate::semantic::name_resolution::global_statements(*ast),
                ast.node_arena@.len() as int,
            ),
            ast.node_arena@.len() == 0 ==> r is Ok,
            context_step(*old(ctx), *final(ctx)),
            table_types_below(final(ctx).symbol_table, final(ctx).type_arena.data_types@.len() as int),
            r matches Err(e) ==> is_synthesis_error(e),
            r matches Ok(v) ==> {
                &&& v@.len() == ast.node_arena@.len()
                &&& forall|i: int| 0 <= i < v@.len() ==> (#[trigger] v@[i] is Some ==> is_expression(ast.node_arena@[i].node_type))
                &&& forall|i: int| 0 <= i < v@.len() ==> (#[trigger] v@[i] matches Some(t) ==> t.0 < final(ctx).type_arena.data_types@.len())
                &&& forall|i: int| 0 <= i < v@.len() ==> literal_type_ok(ast.node_arena@[i].node_type, #[trigger] v@[i])
            },
    {
        let global = crate::semantic::name_resolution::global_block(ast);
        proof {
            if ast.node_arena@.len() == 0 {
                if ast.statement_root_node_ids@.len() > 0 {
                    assert(ast.statement_root_node_ids@[0].0 < ast.node_arena@.len());
                }
                assert(ast.statement_root_node_ids@ =~= Seq::<ASTNodeId>::empty());
                reveal_with_fuel(Seq::filter, 1);
                assert(global.statements@.len() == 0);
            }
        }
        let mut synthesizer = TypeSynthesizer::new(ast);
        proof {
            assert(typing_state(synthesizer, *ctx) == initial_typing(*ast, ctx.symbol_table));
            assert(global.scope_id == ScopeId(0));
        }
        synthesizer.compute_block_types(ctx, &global, ASTNodeId(ast.node_count()))?;
        let ghost typed = typing_state(synthesizer, *ctx);
        let ghost marks = synthesizer.ast_node_visited@;
        let mut ast_node_types: Vec<Option<DataTypeId>> = Vec::new();
        let mut i: usize = 0;
        while i < synthesizer.ast_node_data_types.len()
            invariant
                synthesizer.ready(*ctx),
                context_step(*old(ctx), *ctx),
                synthesizer.ast == ast,
                i <= synthesizer.ast_node_data_types@.len(),
                ast_node_types@.len() == i,
                forall|k: int| 0 <= k < i ==> (#[trigger] ast_node_types@[k] is Some ==> is_expression(ast.node_arena@[k].node_type)),
                forall|k: int| 0 <= k < i ==> (#[trigger] ast_node_types@[k] matches Some(t) ==> t.0 < ctx.type_arena.data_types@.len()),
                forall|k: int| 0 <= k < i ==> literal_type_ok(ast.node_arena@[k].node_type, #[trigger] ast_node_types@[k]),
                marks == synthesizer.ast_node_visited@,
                typed == typing_state(synthesizer, *ctx),
                block_typing(*ast, type_names(*old(ctx)), scope_shape(old(ctx).symbol_table), scope_functions(old(ctx).symbol_table), old(ctx).type_arena.types_view(), initial_typing(*ast, old(ctx).symbol_table), crate::semantic::name_resolution::global_statements(*ast), ScopeId(0), ast.node_arena@.len() as int).0 is Ok && block_typing(*ast, type_names(*old(ctx)), scope_shape(old(ctx).symbol_table), scope_functions(old(ctx).symbol_table), old(ctx).type_arena.types_view(), initial_typing(*ast, old(ctx).symbol_table), crate::semantic::name_resolution::global_statements(*ast), ScopeId(0), ast.node_arena@.len() as int).1 == typed,
                collected(*ast, typed, 0, Seq::empty()) == collected(*ast, typed, i as int, ast_node_types@),
                forall|k: int| 0 <= k < i && #[trigger] marks[k] ==> ast_node_types@[k] is Some,
            decreases synthesizer.ast_node_data_types@.len() - i,
        {
            let node = ast.lookup(ASTNodeId(i));
            if node.node_type.is_expression_node() && synthesizer.ast_node_visited[i] {
                match synthesizer.ast_node_data_types[i] {
                    None => {
                        return Err(SemanticError::TypeInference.at(node.span));
                    },
                    Some(node_type) => {
                        ast_node_types.push(Some(node_type));
                    },
                }
            } else {
                ast_node_types.push(None);
            }
            i += 1;
        }
        proof {
            let has = Seq::new(ast_node_types@.len(), |k: int| ast_node_types@[k] is Some);
            assert(visited_grows(marks, has));
            lemma_block_typed_grows(*ast, marks, has, global.statements@, ast.node_arena@.len() as int);
        }
        Ok(ast_node_types)
    }
}

} // verus!
