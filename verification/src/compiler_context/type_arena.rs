use vstd::prelude::*;
use std::collections::HashMap;
use crate::compiler_context::global_string_interner::GlobalStringInterner;
use crate::text::{push_str_chars, string_from_chars};
use crate::types::builtin_type::{
    BuiltinType,
    builtin_at,
    builtin_count,
    builtin_from_name,
    builtin_index,
    builtin_name,
};
use crate::types::data_type::{DataType, DataTypeId, DataTypeView};

verus! {

broadcast use vstd::std_specs::hash::group_hash_axioms;

/// All types of a program, each stored once; a type is referred to by its
/// index. The builtin types come first, in declaration order.
#[derive(Debug)]
pub struct TypeArena {
    pub data_types: Vec<DataType>,
    pub user_defined_type_ids: HashMap<usize, DataTypeId>,
}

/// The text of a list of parameter types, separated by `, `. Each must be
/// below `bound`.
pub open spec fn params_text(types: Seq<DataTypeView>, params: Seq<DataTypeId>, bound: int, strings: Seq<Seq<char>>) -> Seq<char>
    decreases bound, params.len(),
{
    if params.len() == 0 {
        Seq::empty()
    } else if params.last().0 >= bound || bound < 0 {
        Seq::empty()
    } else if params.len() == 1 {
        type_text(types, params.last().0 as int, strings)
    } else {
        params_text(types, params.drop_last(), bound, strings) + ", "@ + type_text(types, params.last().0 as int, strings)
    }
}

/// The text of type `id`: a builtin's name, a user-defined type's name, or
/// `fn(<parameter types>): <return type>`.
pub open spec fn type_text(types: Seq<DataTypeView>, id: int, strings: Seq<Seq<char>>) -> Seq<char>
    decreases id + 1, 0int,
{
    if id < 0 || id >= types.len() {
        Seq::empty()
    } else {
        match types[id] {
            DataTypeView::Builtin(b) => builtin_name(b),
            DataTypeView::UserDefined(s) => strings[s as int],
            DataTypeView::Fn { param_types, return_type } => if return_type.0 < id {
                "fn("@ + params_text(types, param_types, id, strings) + "): "@ + type_text(
                    types,
                    return_type.0 as int,
                    strings,
                )
            } else {
                Seq::empty()
            },
        }
    }
}

impl TypeArena {
    /// The types of the arena.
    pub open spec fn types_view(&self) -> Seq<DataTypeView> {
        Seq::new(self.data_types@.len(), |i: int| self.data_types@[i]@)
    }

    /// The arena's invariant: the builtin types first and in order, and
    /// every named type in the arena.
    pub open spec fn wf(&self) -> bool {
        &&& self.data_types@.len() >= builtin_count()
        &&& forall|k: int| 0 <= k < builtin_count() ==> #[trigger] self.types_view()[k] == DataTypeView::Builtin(builtin_at(k))
        &&& forall|name: usize| #[trigger] self.user_defined_type_ids@.contains_key(name)
            ==> self.user_defined_type_ids@[name].0 < self.data_types@.len()
    }

    /// Every function type is built from types before it, so that the text
    /// of a type can be written out.
    pub open spec fn ordered(&self) -> bool {
        forall|i: int| 0 <= i < self.data_types@.len() ==> components_before(#[trigger] self.types_view()[i], i)
    }

    /// Every user-defined type of the arena is named by one of `strings`.
    pub open spec fn names_within(&self, strings: Seq<Seq<char>>) -> bool {
        forall|i: int| 0 <= i < self.data_types@.len() ==> (#[trigger] self.types_view()[i] matches DataTypeView::UserDefined(s) ==> s < strings.len())
    }

    pub fn new() -> (r: Self)
        ensures
            r.wf(),
            r.ordered(),
            r.data_types@.len() == builtin_count(),
            r.user_defined_type_ids@ == Map::<usize, DataTypeId>::empty(),
    {
        let builtins = BuiltinType::all();
        let mut data_types: Vec<DataType> = Vec::new();
        let mut i: usize = 0;
        while i < builtins.len()
            invariant
                builtins@.len() == builtin_count(),
                forall|k: int| 0 <= k < builtins@.len() ==> builtins@[k] == builtin_at(k),
                i <= builtins@.len(),
                data_types@.len() == i,
                forall|k: int| 0 <= k < i ==> data_types@[k]@ == DataTypeView::Builtin(builtin_at(k)),
            decreases builtins@.len() - i,
        {
            data_types.push(DataType::Builtin(builtins[i]));
            i += 1;
        }
        let r = Self { data_types, user_defined_type_ids: HashMap::new() };
        assert forall|k: int| 0 <= k < builtin_count() implies #[trigger] r.types_view()[k] == DataTypeView::Builtin(builtin_at(k)) by {
            assert(r.types_view()[k] == r.data_types@[k]@);
        }
        assert forall|k: int| 0 <= k < r.data_types@.len() implies components_before(#[trigger] r.types_view()[k], k) by {
            assert(r.types_view()[k] == r.data_types@[k]@);
        }
        r
    }

    fn add_type(&mut self, data_type: DataType) -> (r: DataTypeId)
        requires
            old(self).wf(),
        ensures
            final(self).wf(),
            (old(self).ordered() && components_before(data_type@, old(self).data_types@.len() as int)) ==> final(self).ordered(),
            r.0 == old(self).data_types@.len(),
            final(self).data_types@.len() == old(self).data_types@.len() + 1,
            final(self).types_view() == old(self).types_view().push(data_type@),
            final(self).user_defined_type_ids == old(self).user_defined_type_ids,
    {
        let id = self.data_types.len();
        self.data_types.push(data_type);
        assert(self.types_view() =~= old(self).types_view().push(data_type@));
        assert forall|k: int| 0 <= k < builtin_count() implies #[trigger] self.types_view()[k] == DataTypeView::Builtin(builtin_at(k)) by {
            assert(self.types_view()[k] == old(self).types_view()[k]);
        }
        proof {
            if old(self).ordered() && components_before(data_type@, id as int) {
            assert forall|k: int| 0 <= k < self.data_types@.len() implies components_before(#[trigger] self.types_view()[k], k) by {
                if k < id {
                    assert(self.types_view()[k] == old(self).types_view()[k]);
                }
            }
            }
        }
        DataTypeId(id)
    }

    /// The identifier of the type equal to `data_type`, adding it if the
    /// arena holds no such type.
    pub fn add_if_new_type(&mut self, data_type: DataType) -> (r: DataTypeId)
        requires
            old(self).wf(),
        ensures
            final(self).wf(),
            (old(self).ordered() && components_before(data_type@, old(self).data_types@.len() as int)) ==> final(self).ordered(),
            final(self).user_defined_type_ids == old(self).user_defined_type_ids,
            r.0 < final(self).data_types@.len(),
            final(self).types_view()[r.0 as int] == data_type@,
            forall|j: int| 0 <= j < r.0 ==> old(self).types_view()[j] != data_type@,
            old(self).types_view().contains(data_type@) ==> final(self).types_view() == old(self).types_view(),
            !old(self).types_view().contains(data_type@) ==> final(self).types_view() == old(self).types_view().push(
                data_type@,
            ) && r.0 == old(self).data_types@.len(),
    {
        let mut i: usize = 0;
        while i < self.data_types.len()
            invariant
                self.wf(),
                self.data_types@ == old(self).data_types@,
                self.user_defined_type_ids == old(self).user_defined_type_ids,
                i <= self.data_types@.len(),
                forall|j: int| 0 <= j < i ==> self.types_view()[j] != data_type@,
            decreases self.data_types@.len() - i,
        {
            if self.data_types[i].same_as(&data_type) {
                assert(old(self).types_view()[i as int] == data_type@);
                return DataTypeId(i);
            }
            i += 1;
        }
        assert(!self.types_view().contains(data_type@));
        self.add_type(data_type)
    }

    /// The type with identifier `id`.
    pub fn get_data_type(&self, id: DataTypeId) -> (r: &DataType)
        requires
            id.0 < self.data_types@.len(),
        ensures
            r@ == self.types_view()[id.0 as int],
    {
        &self.data_types[id.as_usize()]
    }

    /// Number of types in the arena.
    pub fn type_count(&self) -> (r: usize)
        ensures
            r == self.data_types@.len(),
    {
        self.data_types.len()
    }

    /// The identifier of a builtin type.
    pub fn builtin_type_id(&self, builtin_type: BuiltinType) -> (r: DataTypeId)
        requires
            self.wf(),
        ensures
            r.0 == builtin_index(builtin_type),
            r.0 < self.data_types@.len(),
            self.types_view()[r.0 as int] == DataTypeView::Builtin(builtin_type),
    {
        let r = DataTypeId(builtin_type.as_usize());
        assert(self.types_view()[r.0 as int] == DataTypeView::Builtin(builtin_at(r.0 as int)));
        r
    }

    /// The type that the name `name` (a symbol of `string_interner`)
    /// denotes: a builtin type, or else a user-defined type of that name.
    pub fn get_type_id(&self, name: usize, string_interner: &GlobalStringInterner) -> (r: Option<DataTypeId>)
        requires
            self.wf(),
            string_interner.wf(),
            name < string_interner@.len(),
        ensures
            r == (match builtin_from_name(string_interner@[name as int]) {
                Some(b) => Some(DataTypeId(builtin_index(b))),
                None => if self.user_defined_type_ids@.contains_key(name) {
                    Some(self.user_defined_type_ids@[name])
                } else {
                    None
                },
            }),
            r matches Some(id) ==> id.0 < self.data_types@.len(),
    {
        let name_str = string_interner.get_str(name);
        match BuiltinType::from_str(name_str) {
            Some(builtin_type) => Some(self.builtin_type_id(builtin_type)),
            None => match self.user_defined_type_ids.get(&name) {
                Some(id) => Some(*id),
                None => None,
            },
        }
    }

    fn push_type_text(&self, id: DataTypeId, string_interner: &GlobalStringInterner, out: &mut Vec<char>)
        requires
            self.wf(),
            self.ordered(),
            string_interner.wf(),
            self.names_within(string_interner@),
            id.0 < self.data_types@.len(),
        ensures
            final(out)@ == old(out)@ + type_text(self.types_view(), id.0 as int, string_interner@),
        decreases id.0,
    {
        match self.get_data_type(id) {
            DataType::Builtin(b) => {
                push_str_chars(out, b.name());
            },
            DataType::UserDefined(s) => {
                assert(self.types_view()[id.0 as int] matches DataTypeView::UserDefined(s) ==> s < string_interner@.len());
                push_str_chars(out, string_interner.get_str(*s));
            },
            DataType::Fn { param_types, return_type } => {
                let ghost types = self.types_view();
                let ghost strings = string_interner@;
                assert(types[id.0 as int] == self.data_types@[id.0 as int]@);
                assert(types[id.0 as int] == (DataTypeView::Fn { param_types: param_types@, return_type: *return_type }));
                assert(components_before(types[id.0 as int], id.0 as int));
                assert forall|j: int| 0 <= j < param_types@.len() implies param_types@[j].0 < id.0 by {
                    let t = types[id.0 as int];
                    assert(components_before(t, id.0 as int));
                    assert(t->param_types == param_types@);
                    assert(t->param_types[j].0 < id.0);
                }
                push_str_chars(out, "fn(");
                let ghost start = out@;
                let mut k: usize = 0;
                while k < param_types.len()
                    invariant
                        self.wf(),
                        self.ordered(),
                        string_interner.wf(),
                        self.names_within(string_interner@),
                        types == self.types_view(),
                        strings == string_interner@,
                        id.0 < self.data_types@.len(),
                        k <= param_types@.len(),
                        forall|j: int| 0 <= j < param_types@.len() ==> param_types@[j].0 < id.0,
                        out@ == start + params_text(types, param_types@.subrange(0, k as int), id.0 as int, strings),
                    decreases param_types@.len() - k,
                {
                    let ghost before = out@;
                    let ghost prefix = param_types@.subrange(0, k as int);
                    let ghost next = param_types@.subrange(0, k + 1);
                    assert(next.drop_last() =~= prefix);
                    assert(next.last() == param_types@[k as int]);
                    if k > 0 {
                        push_str_chars(out, ", ");
                    }
                    self.push_type_text(param_types[k], string_interner, out);
                    k += 1;
                    proof {
                        if k == 1 {
                            assert(prefix =~= Seq::<DataTypeId>::empty());
                            assert(out@ =~= start + params_text(types, next, id.0 as int, strings));
                        } else {
                            assert(out@ =~= start + params_text(types, next, id.0 as int, strings));
                        }
                    }
                }
                assert(param_types@.subrange(0, param_types@.len() as int) =~= param_types@);
                push_str_chars(out, "): ");
                self.push_type_text(*return_type, string_interner, out);
                assert(out@ =~= old(out)@ + type_text(self.types_view(), id.0 as int, string_interner@));
            },
        }
    }

    /// The text of type `id`, as used in error messages.
    pub fn format_type(&self, id: DataTypeId, string_interner: &GlobalStringInterner) -> (r: String)
        requires
            self.wf(),
            self.ordered(),
            string_interner.wf(),
            self.names_within(string_interner@),
            id.0 < self.data_types@.len(),
        ensures
            r@ == type_text(self.types_view(), id.0 as int, string_interner@),
    {
        let mut out: Vec<char> = Vec::new();
        self.push_type_text(id, string_interner, &mut out);
        assert(out@ =~= type_text(self.types_view(), id.0 as int, string_interner@));
        string_from_chars(&out)
    }

    /// The identifiers of all types, in order.
    pub fn type_ids(&self) -> (r: Vec<DataTypeId>)
        ensures
            r@.len() == self.data_types@.len(),
            forall|i: int| 0 <= i < r@.len() ==> r@[i].0 == i,
    {
        let mut r: Vec<DataTypeId> = Vec::new();
        let mut i: usize = 0;
        while i < self.data_types.len()
            invariant
                i <= self.data_types@.len(),
                r@.len() == i,
                forall|j: int| 0 <= j < i ==> r@[j].0 == j,
            decreases self.data_types@.len() - i,
        {
            r.push(DataTypeId(i));
            i += 1;
        }
        r
    }
}

/// A function type refers only to types with smaller identifiers than `id`.
pub open spec fn components_before(t: DataTypeView, id: int) -> bool {
    match t {
        DataTypeView::Fn { param_types, return_type } => {
            &&& return_type.0 < id
            &&& forall|j: int| 0 <= j < param_types.len() ==> (#[trigger] param_types[j]).0 < id
        },
        _ => true,
    }
}

} // verus!
