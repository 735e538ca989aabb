use vstd::prelude::*;
use crate::compiler_context::global_string_interner::GlobalStringInterner;
use crate::compiler_context::symbol_table::SymbolTable;
use crate::compiler_context::type_arena::TypeArena;

verus! {

/// The state shared by all phases of a compilation.
#[derive(Debug)]
pub struct CompilerContext {
    pub string_interner: GlobalStringInterner,
    pub type_arena: TypeArena,
    pub symbol_table: SymbolTable,
}

impl CompilerContext {
    /// The context's invariant: that of each part, and every user-defined
    /// type named by an interned string.
    pub open spec fn wf(&self) -> bool {
        &&& self.string_interner.wf()
        &&& self.type_arena.wf()
        &&& self.type_arena.ordered()
        &&& self.type_arena.names_within(self.string_interner@)
        &&& self.symbol_table.wf()
    }

    pub fn new() -> (r: Self)
        ensures
            r.wf(),
            r.string_interner@ == Seq::<Seq<char>>::empty(),
            r.type_arena.data_types@.len() == 4,
            forall|i: int| 0 <= i < 4 ==> #[trigger] r.type_arena.types_view()[i] == crate::types::data_type::DataTypeView::Builtin(
                crate::types::builtin_type::builtin_at(i),
            ),
            r.type_arena.user_defined_type_ids@ == Map::<usize, crate::types::data_type::DataTypeId>::empty(),
            r.symbol_table.scopes@.len() == 1,
            r.symbol_table.scopes@[0].symbols_view() == Map::<usize, crate::compiler_context::symbol_table::symbol::Symbol>::empty(),
            r.symbol_table.scopes@[0].function is None,
            r.symbol_table.next_symbol_id == 0,
    {
        let r = Self {
            string_interner: GlobalStringInterner::new(),
            type_arena: TypeArena::new(),
            symbol_table: SymbolTable::new(),
        };
        assert forall|i: int| 0 <= i < r.type_arena.data_types@.len() implies (#[trigger] r.type_arena.types_view()[i] matches crate::types::data_type::DataTypeView::UserDefined(s) ==> s < r.string_interner@.len()) by {
            assert(r.type_arena.types_view()[i] == crate::types::data_type::DataTypeView::Builtin(crate::types::builtin_type::builtin_at(i)));
        }
        r
    }
}

} // verus!
