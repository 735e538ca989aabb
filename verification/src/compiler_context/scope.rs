use vstd::prelude::*;
use std::collections::HashMap;
use crate::compiler_context::symbol_table::symbol::Symbol;
use crate::types::data_type::DataTypeId;

verus! {

broadcast use vstd::std_specs::hash::group_hash_axioms;

/// Identifier of a scope in a symbol table: its index.
#[derive(Debug, Copy, Clone, PartialEq, Eq, Structural)]
pub struct ScopeId(pub usize);

impl ScopeId {
    pub fn new(id: usize) -> (r: Self)
        ensures
            r.0 == id,
    {
        Self(id)
    }

    pub fn as_usize(&self) -> (r: usize)
        ensures
            r == self.0,
    {
        self.0
    }

    /// The scope of the whole program.
    pub fn global() -> (r: Self)
        ensures
            r.0 == 0,
    {
        Self::new(0)
    }
}

/// The symbols declared in one block, keyed by their name, with the
/// enclosing scope and the function the block belongs to.
#[derive(Debug)]
pub struct Scope {
    pub symbols: HashMap<usize, Symbol>,
    pub parent: Option<ScopeId>,
    pub function: Option<usize>,
}

impl Scope {
    /// The symbols of the scope by name.
    pub open spec fn symbols_view(&self) -> Map<usize, Symbol> {
        self.symbols@
    }

    pub fn global() -> (r: Self)
        ensures
            r.parent is None,
            r.function is None,
            r.symbols_view() == Map::<usize, Symbol>::empty(),
    {
        Self { parent: None, symbols: HashMap::new(), function: None }
    }

    pub fn new(parent: ScopeId, function: Option<usize>) -> (r: Self)
        ensures
            r.parent == Some(parent),
            r.function == function,
            r.symbols_view() == Map::<usize, Symbol>::empty(),
    {
        Self { parent: Some(parent), symbols: HashMap::new(), function }
    }

    /// The symbol declared in this scope under `name`, if any.
    pub fn lookup(&self, name: usize) -> (r: Option<&Symbol>)
        ensures
            match r {
                Some(s) => self.symbols_view().contains_key(name) && *s == self.symbols_view()[name],
                None => !self.symbols_view().contains_key(name),
            },
    {
        self.symbols.get(&name)
    }

    pub fn contains(&self, name: usize) -> (r: bool)
        ensures
            r == self.symbols_view().contains_key(name),
    {
        self.symbols.contains_key(&name)
    }

    /// Declares a symbol under its name, unless the name is taken in this
    /// scope. Returns whether it was declared.
    pub fn insert(&mut self, symbol: Symbol) -> (r: bool)
        ensures
            r == !old(self).symbols_view().contains_key(symbol.name),
            r ==> final(self).symbols_view() == old(self).symbols_view().insert(symbol.name, symbol),
            !r ==> final(self).symbols_view() == old(self).symbols_view(),
            final(self).parent == old(self).parent,
            final(self).function == old(self).function,
    {
        if self.symbols.contains_key(&symbol.name) {
            false
        } else {
            self.symbols.insert(symbol.name, symbol);
            true
        }
    }

    /// Records the type of the symbol declared under `name` in this scope,
    /// if there is one. Returns whether there was.
    pub fn set_type(&mut self, name: usize, data_type_id: DataTypeId) -> (r: bool)
        ensures
            r == old(self).symbols_view().contains_key(name),
            r ==> final(self).symbols_view() == old(self).symbols_view().insert(
                name,
                Symbol { data_type_id: Some(data_type_id), ..old(self).symbols_view()[name] },
            ),
            !r ==> final(self).symbols_view() == old(self).symbols_view(),
            final(self).parent == old(self).parent,
            final(self).function == old(self).function,
    {
        match self.symbols.get(&name) {
            Some(symbol) => {
                let mut updated = *symbol;
                updated.data_type_id = Some(data_type_id);
                self.symbols.insert(name, updated);
                true
            },
            None => false,
        }
    }
}

} // verus!
