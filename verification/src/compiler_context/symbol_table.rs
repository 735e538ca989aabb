pub mod builtin_operator_registry;
pub mod operator_registry;
pub mod symbol;

use vstd::prelude::*;
use crate::compiler_context::scope::{Scope, ScopeId};
use crate::compiler_context::symbol_table::symbol::{Symbol, SymbolId};
use crate::source::source_span::SourceSpan;
use crate::types::data_type::DataTypeId;

verus! {

/// All scopes of a program. Scope 0 is the global scope; every other scope
/// has an enclosing scope with a smaller index.
#[derive(Debug)]
pub struct SymbolTable {
    pub scopes: Vec<Scope>,
    pub next_symbol_id: usize,
}

/// The symbol that `name` denotes from scope `id` of `scopes`: the one
/// declared in the nearest scope on the chain of enclosing scopes.
pub open spec fn resolve_in(scopes: Seq<Scope>, name: usize, id: int) -> Option<Symbol>
    decreases id,
{
    if id < 0 || id >= scopes.len() {
        None
    } else if scopes[id].symbols_view().contains_key(name) {
        Some(scopes[id].symbols_view()[name])
    } else {
        match scopes[id].parent {
            Some(p) => if p.0 < id {
                resolve_in(scopes, name, p.0 as int)
            } else {
                None
            },
            None => None,
        }
    }
}

/// The scope on the chain from `id` whose declaration of `name` is found
/// first.
pub open spec fn declaring_scope(scopes: Seq<Scope>, name: usize, id: int) -> Option<int>
    decreases id,
{
    if id < 0 || id >= scopes.len() {
        None
    } else if scopes[id].symbols_view().contains_key(name) {
        Some(id)
    } else {
        match scopes[id].parent {
            Some(p) => if p.0 < id {
                declaring_scope(scopes, name, p.0 as int)
            } else {
                None
            },
            None => None,
        }
    }
}

impl SymbolTable {
    /// The table's invariant: a global scope without parent, and every
    /// other scope enclosed by a scope that comes before it.
    pub open spec fn wf(&self) -> bool {
        &&& self.scopes@.len() >= 1
        &&& self.scopes@[0].parent is None
        &&& forall|i: int| 0 < i < self.scopes@.len() ==> ((#[trigger] self.scopes@[i]).parent matches Some(p) && p.0 < i)
    }

    /// The symbol `name` denotes from scope `id`.
    pub open spec fn resolve(&self, name: usize, id: ScopeId) -> Option<Symbol> {
        resolve_in(self.scopes@, name, id.0 as int)
    }

    pub fn new() -> (r: Self)
        ensures
            r.wf(),
            r.scopes@.len() == 1,
            r.scopes@[0].symbols_view() == Map::<usize, Symbol>::empty(),
            r.scopes@[0].function is None,
            r.next_symbol_id == 0,
    {
        let mut scopes: Vec<Scope> = Vec::new();
        scopes.push(Scope::global());
        Self { scopes, next_symbol_id: 0 }
    }

    /// Number of scopes.
    pub fn scope_count(&self) -> (r: usize)
        ensures
            r == self.scopes@.len(),
    {
        self.scopes.len()
    }

    /// Adds a scope, which must be enclosed by an existing scope, and returns
    /// its identifier.
    pub fn add_scope(&mut self, scope: Scope) -> (r: ScopeId)
        requires
            old(self).wf(),
            (scope.parent matches Some(p) && p.0 < old(self).scopes@.len()),
        ensures
            final(self).wf(),
            r.0 == old(self).scopes@.len(),
            final(self).scopes@ == old(self).scopes@.push(scope),
            final(self).next_symbol_id == old(self).next_symbol_id,
    {
        let id = self.scopes.len();
        self.scopes.push(scope);
        ScopeId::new(id)
    }

    /// Adds an empty scope enclosed by `parent`. A block inside a function
    /// belongs to the function of its parent unless `function` names another.
    pub fn add_scope_with_parent(&mut self, parent: ScopeId, function: Option<usize>) -> (r: ScopeId)
        requires
            old(self).wf(),
            parent.0 < old(self).scopes@.len(),
        ensures
            final(self).wf(),
            r.0 == old(self).scopes@.len(),
            final(self).scopes@.len() == old(self).scopes@.len() + 1,
            forall|i: int| 0 <= i < old(self).scopes@.len() ==> final(self).scopes@[i] == old(self).scopes@[i],
            final(self).scopes@[r.0 as int].parent == Some(parent),
            final(self).scopes@[r.0 as int].function == (if function is Some {
                function
            } else {
                old(self).scopes@[parent.0 as int].function
            }),
            final(self).scopes@[r.0 as int].symbols_view() == Map::<usize, Symbol>::empty(),
            final(self).next_symbol_id == old(self).next_symbol_id,
    {
        let f = match function {
            Some(name) => Some(name),
            None => self.scopes[parent.0].function,
        };
        self.add_scope(Scope::new(parent, f))
    }

    /// The symbol `name` denotes from the scope `block_id`.
    pub fn lookup(&self, name: usize, block_id: ScopeId) -> (r: Option<Symbol>)
        requires
            self.wf(),
            block_id.0 < self.scopes@.len(),
        ensures
            r == self.resolve(name, block_id),
    {
        let mut id = block_id.0;
        loop
            invariant
                self.wf(),
                id < self.scopes@.len(),
                resolve_in(self.scopes@, name, id as int) == self.resolve(name, block_id),
            decreases id,
        {
            let scope = &self.scopes[id];
            match scope.lookup(name) {
                Some(symbol) => {
                    return Some(*symbol);
                },
                None => {},
            }
            match scope.parent {
                Some(p) => {
                    assert(id > 0);
                    id = p.0;
                },
                None => {
                    return None;
                },
            }
        }
    }

    /// Whether `name` denotes a symbol from the scope `block_id`.
    pub fn contains(&self, name: usize, block_id: ScopeId) -> (r: bool)
        requires
            self.wf(),
            block_id.0 < self.scopes@.len(),
        ensures
            r == (self.resolve(name, block_id) is Some),
    {
        let mut id = block_id.0;
        loop
            invariant
                self.wf(),
                id < self.scopes@.len(),
                (resolve_in(self.scopes@, name, id as int) is Some) == (self.resolve(name, block_id) is Some),
            decreases id,
        {
            let scope = &self.scopes[id];
            if scope.contains(name) {
                return true;
            }
            match scope.parent {
                Some(p) => {
                    assert(id > 0);
                    id = p.0;
                },
                None => {
                    return false;
                },
            }
        }
    }

    /// The function the scope belongs to, if any.
    pub fn scope_function_name(&self, block_id: ScopeId) -> (r: Option<usize>)
        requires
            block_id.0 < self.scopes@.len(),
        ensures
            r == self.scopes@[block_id.0 as int].function,
    {
        self.scopes[block_id.0].function
    }

    fn insert_symbol(&mut self, name: usize, func_param_index: Option<usize>, def_span: SourceSpan, block_id: ScopeId) -> (r: bool)
        requires
            old(self).wf(),
            block_id.0 < old(self).scopes@.len(),
        ensures
            final(self).wf(),
            r == !old(self).scopes@[block_id.0 as int].symbols_view().contains_key(name),
            final(self).scopes@.len() == old(self).scopes@.len(),
            forall|i: int| 0 <= i < old(self).scopes@.len() && i != block_id.0 ==> final(self).scopes@[i] == old(self).scopes@[i],
            final(self).scopes@[block_id.0 as int].parent == old(self).scopes@[block_id.0 as int].parent,
            final(self).scopes@[block_id.0 as int].function == old(self).scopes@[block_id.0 as int].function,
            r ==> final(self).scopes@[block_id.0 as int].symbols_view() == old(self).scopes@[block_id.0 as int].symbols_view().insert(
                name,
                Symbol {
                    id: SymbolId(old(self).next_symbol_id),
                    name,
                    data_type_id: None,
                    func_param_index,
                    def_span,
                },
            ),
            r ==> final(self).next_symbol_id == old(self).next_symbol_id.saturating_add(1),
            !r ==> final(self).scopes@ == old(self).scopes@ && final(self).next_symbol_id == old(self).next_symbol_id,
    {
        if self.scopes[block_id.0].contains(name) {
            return false;
        }
        let symbol = Symbol::new(SymbolId::new(self.next_symbol_id), name, func_param_index, def_span);
        let mut scope = self.scopes.remove(block_id.0);
        let inserted = scope.insert(symbol);
        self.scopes.insert(block_id.0, scope);
        assert(self.scopes@ =~= old(self).scopes@.update(block_id.0 as int, scope));
        self.next_symbol_id = self.next_symbol_id.saturating_add(1);
        inserted
    }

    /// Declares a variable or function `name` in scope `block_id`, unless
    /// that scope already declares the name. Returns whether it was declared.
    pub fn insert(&mut self, name: usize, def_span: SourceSpan, block_id: ScopeId) -> (r: bool)
        requires
            old(self).wf(),
            block_id.0 < old(self).scopes@.len(),
        ensures
            final(self).wf(),
            r == !old(self).scopes@[block_id.0 as int].symbols_view().contains_key(name),
            final(self).scopes@.len() == old(self).scopes@.len(),
            forall|i: int| 0 <= i < old(self).scopes@.len() && i != block_id.0 ==> final(self).scopes@[i] == old(self).scopes@[i],
            final(self).scopes@[block_id.0 as int].parent == old(self).scopes@[block_id.0 as int].parent,
            final(self).scopes@[block_id.0 as int].function == old(self).scopes@[block_id.0 as int].function,
            r ==> final(self).scopes@[block_id.0 as int].symbols_view() == old(self).scopes@[block_id.0 as int].symbols_view().insert(
                name,
                Symbol { id: SymbolId(old(self).next_symbol_id), name, data_type_id: None, func_param_index: None, def_span },
            ),
            r ==> final(self).resolve(name, block_id) == Some(
                Symbol { id: SymbolId(old(self).next_symbol_id), name, data_type_id: None, func_param_index: None, def_span },
            ),
            !r ==> old(self).resolve(name, block_id) is Some,
            r ==> final(self).next_symbol_id == old(self).next_symbol_id.saturating_add(1),
            !r ==> final(self).scopes@ == old(self).scopes@ && final(self).next_symbol_id == old(self).next_symbol_id,
    {
        self.insert_symbol(name, None, def_span, block_id)
    }

    /// Declares parameter number `index` of a function in the function's
    /// body scope, unless the name is taken there.
    pub fn insert_function_param(&mut self, name: usize, index: usize, def_span: SourceSpan, block_id: ScopeId) -> (r: bool)
        requires
            old(self).wf(),
            block_id.0 < old(self).scopes@.len(),
        ensures
            final(self).wf(),
            r == !old(self).scopes@[block_id.0 as int].symbols_view().contains_key(name),
            final(self).scopes@.len() == old(self).scopes@.len(),
            forall|i: int| 0 <= i < old(self).scopes@.len() && i != block_id.0 ==> final(self).scopes@[i] == old(self).scopes@[i],
            final(self).scopes@[block_id.0 as int].parent == old(self).scopes@[block_id.0 as int].parent,
            final(self).scopes@[block_id.0 as int].function == old(self).scopes@[block_id.0 as int].function,
            r ==> final(self).scopes@[block_id.0 as int].symbols_view() == old(self).scopes@[block_id.0 as int].symbols_view().insert(
                name,
                Symbol { id: SymbolId(old(self).next_symbol_id), name, data_type_id: None, func_param_index: Some(index), def_span },
            ),
            r ==> final(self).resolve(name, block_id) == Some(
                Symbol { id: SymbolId(old(self).next_symbol_id), name, data_type_id: None, func_param_index: Some(index), def_span },
            ),
            r ==> final(self).next_symbol_id == old(self).next_symbol_id.saturating_add(1),
            !r ==> final(self).scopes@ == old(self).scopes@ && final(self).next_symbol_id == old(self).next_symbol_id,
    {
        self.insert_symbol(name, Some(index), def_span, block_id)
    }

    /// Records the type of the symbol that `name` denotes from scope
    /// `block_id`, in the scope that declares it.
    pub fn assign_type(&mut self, data_type_id: DataTypeId, name: usize, block_id: ScopeId)
        requires
            old(self).wf(),
            block_id.0 < old(self).scopes@.len(),
            old(self).resolve(name, block_id) is Some,
        ensures
            final(self).wf(),
            final(self).next_symbol_id == old(self).next_symbol_id,
            ({
                let d = declaring_scope(old(self).scopes@, name, block_id.0 as int)->0;
                &&& final(self).scopes@.len() == old(self).scopes@.len()
                &&& forall|i: int| 0 <= i < old(self).scopes@.len() && i != d ==> final(self).scopes@[i] == old(self).scopes@[i]
                &&& final(self).scopes@[d].parent == old(self).scopes@[d].parent
                &&& final(self).scopes@[d].function == old(self).scopes@[d].function
                &&& final(self).scopes@[d].symbols_view() == old(self).scopes@[d].symbols_view().insert(
                    name,
                    Symbol { data_type_id: Some(data_type_id), ..old(self).scopes@[d].symbols_view()[name] },
                )
            }),
            final(self).resolve(name, block_id) == Some(
                Symbol { data_type_id: Some(data_type_id), ..old(self).resolve(name, block_id)->0 },
            ),
    {
        let mut id = block_id.0;
        proof {
            lemma_declaring_scope(self.scopes@, name, block_id.0 as int);
        }
        loop
            invariant
                self.wf(),
                self.scopes@ == old(self).scopes@,
                self.next_symbol_id == old(self).next_symbol_id,
                id < self.scopes@.len(),
                declaring_scope(self.scopes@, name, id as int) == declaring_scope(self.scopes@, name, block_id.0 as int),
                declaring_scope(self.scopes@, name, id as int) is Some,
            decreases id,
        {
            if self.scopes[id].contains(name) {
                let mut scope = self.scopes.remove(id);
                scope.set_type(name, data_type_id);
                self.scopes.insert(id, scope);
                assert(self.scopes@ =~= old(self).scopes@.update(id as int, scope));
                proof {
                    lemma_declaring_scope(old(self).scopes@, name, block_id.0 as int);
                    assert(self.scopes@[id as int].symbols_view().dom() =~= old(self).scopes@[id as int].symbols_view().dom());
                    lemma_resolve_after_update(old(self).scopes@, self.scopes@, name, block_id.0 as int, id as int);
                }
                return;
            }
            match self.scopes[id].parent {
                Some(p) => {
                    assert(id > 0);
                    id = p.0;
                },
                None => {
                    assert(false);
                    return;
                },
            }
        }
    }
}

/// A name resolves exactly when a scope on the chain declares it, and the
/// symbol found is that scope's declaration.
pub proof fn lemma_declaring_scope(scopes: Seq<Scope>, name: usize, id: int)
    ensures
        (resolve_in(scopes, name, id) is Some) == (declaring_scope(scopes, name, id) is Some),
        declaring_scope(scopes, name, id) matches Some(d) ==> {
            &&& 0 <= d <= id < scopes.len()
            &&& scopes[d].symbols_view().contains_key(name)
            &&& resolve_in(scopes, name, id) == Some(scopes[d].symbols_view()[name])
        },
    decreases id,
{
    if 0 <= id < scopes.len() && !scopes[id].symbols_view().contains_key(name) {
        match scopes[id].parent {
            Some(p) => if p.0 < id {
                lemma_declaring_scope(scopes, name, p.0 as int);
            },
            None => {},
        }
    }
}

/// Changing the symbols of the scope `d` that declares `name` for `id`,
/// keeping its names and enclosing scope, changes what `name` denotes from
/// `id` to the new symbol of `d`.
pub proof fn lemma_resolve_after_update(before: Seq<Scope>, after: Seq<Scope>, name: usize, id: int, d: int)
    requires
        after.len() == before.len(),
        declaring_scope(before, name, id) == Some(d),
        forall|i: int| 0 <= i < before.len() && i != d ==> after[i] == before[i],
        0 <= d < before.len(),
        after[d].parent == before[d].parent,
        after[d].symbols_view().dom() == before[d].symbols_view().dom(),
    ensures
        resolve_in(after, name, id) == Some(after[d].symbols_view()[name]),
    decreases id,
{
    if 0 <= id < before.len() && !before[id].symbols_view().contains_key(name) {
        assert(after[id].symbols_view().dom() == before[id].symbols_view().dom());
        match before[id].parent {
            Some(p) => if p.0 < id {
                lemma_resolve_after_update(before, after, name, p.0 as int, d);
            },
            None => {},
        }
    } else if 0 <= id < before.len() {
        assert(id == d);
        assert(after[d].symbols_view().contains_key(name));
    }
}

} // verus!
