use vstd::prelude::*;
use string_interner::{DefaultBackend, DefaultSymbol, StringInterner};
use string_interner::Symbol;

verus! {

/// The interner of the `string_interner` crate with its default backend,
/// hidden from the verifier: what it holds is known only through
/// `interned_strings` and the functions below.
#[verifier::external_body]
#[derive(Debug)]
pub struct InternerStore {
    store: StringInterner<DefaultBackend>,
}

/// The strings an interner holds, in the order they were first interned.
/// The symbol of a string is its position in this sequence.
pub uninterp spec fn interned_strings(interner: InternerStore) -> Seq<Seq<char>>;

/// The contents after interning `s`: unchanged if `s` is already held,
/// otherwise `s` appended.
pub open spec fn intern_one(contents: Seq<Seq<char>>, s: Seq<char>) -> Seq<Seq<char>> {
    if contents.contains(s) {
        contents
    } else {
        contents.push(s)
    }
}

/// No string occurs twice.
pub open spec fn all_distinct(contents: Seq<Seq<char>>) -> bool {
    forall|i: int, j: int| 0 <= i < contents.len() && 0 <= j < contents.len() && i != j ==> contents[i] != contents[j]
}

/// `StringInterner::new`: an interner that holds no string.
#[verifier::external_body]
fn interner_new() -> (r: InternerStore)
    ensures
        interned_strings(r) == Seq::<Seq<char>>::empty(),
{
    InternerStore { store: StringInterner::new() }
}

/// `StringInterner::get_or_intern`, with the symbol converted to its index
/// (`Symbol::to_usize`). The source keeps a deduplicating table next to a
/// backend that appends each new string, so a string already held keeps its
/// symbol and a new one gets the next index. It panics when the next index
/// does not fit the 32-bit symbol, which `requires` excludes.
#[verifier::external_body]
fn interner_get_or_intern(interner: &mut InternerStore, s: &str) -> (r: usize)
    requires
        interned_strings(*old(interner)).len() < u32::MAX,
    ensures
        interned_strings(*final(interner)) == intern_one(interned_strings(*old(interner)), s@),
        all_distinct(interned_strings(*old(interner))) ==> all_distinct(interned_strings(*final(interner))),
        r < interned_strings(*final(interner)).len(),
        interned_strings(*final(interner))[r as int] == s@,
{
    interner.store.get_or_intern(s).to_usize()
}

/// `StringInterner::resolve` of the symbol with the given index
/// (`Symbol::try_from_usize`): the string stored at that index.
#[verifier::external_body]
fn interner_resolve(interner: &InternerStore, index: usize) -> (r: &str)
    requires
        index < interned_strings(*interner).len(),
        index < u32::MAX,
    ensures
        r@ == interned_strings(*interner)[index as int],
{
    interner.store.resolve(DefaultSymbol::try_from_usize(index).unwrap()).unwrap()
}

/// `StringInterner::len`: the number of strings held. The source counts the
/// entries of the deduplicating table, one per distinct string interned.
#[verifier::external_body]
fn interner_len(interner: &InternerStore) -> (r: usize)
    ensures
        r == interned_strings(*interner).len(),
{
    interner.store.len()
}

/// The interner shared by all phases: every identifier, literal and other
/// token text is stored once and referred to by its index.
#[derive(Debug)]
pub struct GlobalStringInterner {
    pub string_interner: InternerStore,
}

impl View for GlobalStringInterner {
    type V = Seq<Seq<char>>;

    open spec fn view(&self) -> Seq<Seq<char>> {
        interned_strings(self.string_interner)
    }
}

impl GlobalStringInterner {
    /// The interner's invariant: no string twice, and every index fits a
    /// 32-bit symbol.
    pub open spec fn wf(&self) -> bool {
        &&& all_distinct(self@)
        &&& self@.len() <= u32::MAX
    }

    pub fn new() -> (r: Self)
        ensures
            r.wf(),
            r@ == Seq::<Seq<char>>::empty(),
    {
        Self { string_interner: interner_new() }
    }

    /// The symbol of `string`, interning it if it is new.
    pub fn get_intern_symbol(&mut self, string: &str) -> (r: usize)
        requires
            old(self).wf(),
            old(self)@.len() < u32::MAX,
        ensures
            final(self).wf(),
            final(self)@ == intern_one(old(self)@, string@),
            r < final(self)@.len(),
            final(self)@[r as int] == string@,
    {
        interner_get_or_intern(&mut self.string_interner, string)
    }

    /// The number of strings held.
    pub fn len(&self) -> (r: usize)
        ensures
            r == self@.len(),
    {
        interner_len(&self.string_interner)
    }

    /// The string of a symbol.
    pub fn get_str(&self, symbol: usize) -> (r: &str)
        requires
            self.wf(),
            symbol < self@.len(),
        ensures
            r@ == self@[symbol as int],
    {
        interner_resolve(&self.string_interner, symbol)
    }
}

/// Interning keeps every string already held at its index, adds at most one
/// string, and interning the same string again changes nothing.
pub proof fn lemma_intern_one_extends(contents: Seq<Seq<char>>, s: Seq<char>)
    ensures
        intern_one(contents, s).len() <= contents.len() + 1,
        intern_one(contents, s).len() >= contents.len(),
        forall|i: int| 0 <= i < contents.len() ==> intern_one(contents, s)[i] == contents[i],
        intern_one(contents, s).contains(s),
        intern_one(intern_one(contents, s), s) == intern_one(contents, s),
{
    if !contents.contains(s) {
        assert(contents.push(s)[contents.len() as int] == s);
    }
}

/// Interning a string twice gives the same symbol: a string that is held
/// has exactly one index.
pub proof fn lemma_symbol_unique(contents: Seq<Seq<char>>, i: int, j: int)
    requires
        all_distinct(contents),
        0 <= i < contents.len(),
        0 <= j < contents.len(),
        contents[i] == contents[j],
    ensures
        i == j,
{
}

} // verus!
