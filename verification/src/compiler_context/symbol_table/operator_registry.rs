use vstd::prelude::*;
use crate::compiler_context::symbol_table::builtin_operator_registry::BuiltinOperatorRegistry;
use crate::compiler_context::type_arena::TypeArena;
use crate::types::data_type::DataTypeId;

verus! {

/// The result types of an operator kind: the builtin rules, then the
/// implementations a program registers (none yet: the language has no
/// operator overloading so far).
pub struct OperatorRegistry<OpType: BuiltinOperatorRegistry> {
    pub implementations: Vec<(OpType, OpType::Operands, DataTypeId)>,
}

/// The registered result for (op, operands), the first match.
pub open spec fn registered_type<OpType: BuiltinOperatorRegistry>(
    impls: Seq<(OpType, OpType::Operands, DataTypeId)>,
    op: OpType,
    operands: OpType::Operands,
) -> Option<DataTypeId>
    decreases impls.len(),
{
    if impls.len() == 0 {
        None
    } else if impls[0].0 == op && impls[0].1 == operands {
        Some(impls[0].2)
    } else {
        registered_type(impls.drop_first(), op, operands)
    }
}

impl<OpType: BuiltinOperatorRegistry> OperatorRegistry<OpType> {
    pub fn new() -> (r: Self)
        ensures
            r.implementations@ == Seq::<(OpType, OpType::Operands, DataTypeId)>::empty(),
    {
        Self { implementations: Vec::new() }
    }

    /// The type of applying `op_type` to `operands`: the builtin rule if one
    /// applies, else a registered implementation.
    pub fn operation_type(&self, op_type: OpType, operands: &OpType::Operands, type_arena: &TypeArena) -> (r: Option<DataTypeId>)
        requires
            type_arena.wf(),
            op_type.operands_read(*operands, type_arena.types_view()),
        ensures
            r == (match op_type.spec_builtin_operations(*operands, type_arena.types_view()) {
                Some(t) => Some(t),
                None => registered_type(self.implementations@, op_type, *operands),
            }),
    {
        if let Some(data_type_id) = op_type.builtin_operations(operands, type_arena) {
            return Some(data_type_id);
        }
        let mut i: usize = 0;
        assert(self.implementations@.subrange(0, self.implementations@.len() as int) =~= self.implementations@);
        while i < self.implementations.len()
            invariant
                op_type.spec_builtin_operations(*operands, type_arena.types_view()) is None,
                i <= self.implementations@.len(),
                registered_type(self.implementations@, op_type, *operands) == registered_type(
                    self.implementations@.subrange(i as int, self.implementations@.len() as int),
                    op_type,
                    *operands,
                ),
            decreases self.implementations@.len() - i,
        {
            let ghost rest = self.implementations@.subrange(i as int, self.implementations@.len() as int);
            assert(rest.drop_first() =~= self.implementations@.subrange(i + 1, self.implementations@.len() as int));
            let entry = &self.implementations[i];
            if op_type.same_operation(operands, &entry.0, &entry.1) {
                assert(rest[0] == *entry);
                return Some(entry.2);
            }
            i += 1;
        }
        None
    }
}

} // verus!
