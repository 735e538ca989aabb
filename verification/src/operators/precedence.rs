use vstd::prelude::*;

verus! {

/// Precedence groups of the expression grammar, from the loosest binding
/// (`Comma`) to the tightest (`Postfix`).
#[derive(Debug, Copy, Clone, PartialEq, Eq, Structural)]
pub enum OperatorPrecedenceGroup {
    Comma,
    Assign,
    LogicalOr,
    LogicalAnd,
    BitOr,
    BitXor,
    BitAnd,
    Equality,
    Relational,
    BitShift,
    Add,
    Mul,
    Prefix,
    Postfix,
}

/// The level of a group: its position in the list above, counted from 0.
pub open spec fn group_level(g: OperatorPrecedenceGroup) -> u8 {
    match g {
        OperatorPrecedenceGroup::Comma => 0,
        OperatorPrecedenceGroup::Assign => 1,
        OperatorPrecedenceGroup::LogicalOr => 2,
        OperatorPrecedenceGroup::LogicalAnd => 3,
        OperatorPrecedenceGroup::BitOr => 4,
        OperatorPrecedenceGroup::BitXor => 5,
        OperatorPrecedenceGroup::BitAnd => 6,
        OperatorPrecedenceGroup::Equality => 7,
        OperatorPrecedenceGroup::Relational => 8,
        OperatorPrecedenceGroup::BitShift => 9,
        OperatorPrecedenceGroup::Add => 10,
        OperatorPrecedenceGroup::Mul => 11,
        OperatorPrecedenceGroup::Prefix => 12,
        OperatorPrecedenceGroup::Postfix => 13,
    }
}

/// Every group associates to the left except assignment and prefix operators.
pub open spec fn group_is_left_assoc(g: OperatorPrecedenceGroup) -> bool {
    !(g is Assign || g is Prefix)
}

/// Left and right binding power of a group: the level, and the level plus one
/// for a left-associative group.
pub open spec fn group_binding_power(g: OperatorPrecedenceGroup) -> (u8, u8) {
    (group_level(g), (group_level(g) + if group_is_left_assoc(g) { 1u8 } else { 0u8 }) as u8)
}

impl OperatorPrecedenceGroup {
    pub fn as_u8(self) -> (r: u8)
        ensures
            r == group_level(self),
    {
        match self {
            OperatorPrecedenceGroup::Comma => 0,
            OperatorPrecedenceGroup::Assign => 1,
            OperatorPrecedenceGroup::LogicalOr => 2,
            OperatorPrecedenceGroup::LogicalAnd => 3,
            OperatorPrecedenceGroup::BitOr => 4,
            OperatorPrecedenceGroup::BitXor => 5,
            OperatorPrecedenceGroup::BitAnd => 6,
            OperatorPrecedenceGroup::Equality => 7,
            OperatorPrecedenceGroup::Relational => 8,
            OperatorPrecedenceGroup::BitShift => 9,
            OperatorPrecedenceGroup::Add => 10,
            OperatorPrecedenceGroup::Mul => 11,
            OperatorPrecedenceGroup::Prefix => 12,
            OperatorPrecedenceGroup::Postfix => 13,
        }
    }

    pub fn binding_power(self) -> (r: (u8, u8))
        ensures
            r == group_binding_power(self),
    {
        let binding_power = self.as_u8();
        let extra: u8 = if self.is_left_assoc() { 1 } else { 0 };
        (binding_power, binding_power + extra)
    }

    pub fn is_left_assoc(self) -> (r: bool)
        ensures
            r == group_is_left_assoc(self),
    {
        !matches!(self, OperatorPrecedenceGroup::Assign | OperatorPrecedenceGroup::Prefix)
    }
}

/// The precedence groups from the loosest binding to the tightest: comma,
/// assignment, `||`, `&&`, `|`, `^`, `&`, equality, relational operators,
/// shifts, additive and multiplicative operators, prefix and postfix
/// operators.
pub open spec fn groups_loosest_first() -> Seq<OperatorPrecedenceGroup> {
    seq![
        OperatorPrecedenceGroup::Comma,
        OperatorPrecedenceGroup::Assign,
        OperatorPrecedenceGroup::LogicalOr,
        OperatorPrecedenceGroup::LogicalAnd,
        OperatorPrecedenceGroup::BitOr,
        OperatorPrecedenceGroup::BitXor,
        OperatorPrecedenceGroup::BitAnd,
        OperatorPrecedenceGroup::Equality,
        OperatorPrecedenceGroup::Relational,
        OperatorPrecedenceGroup::BitShift,
        OperatorPrecedenceGroup::Add,
        OperatorPrecedenceGroup::Mul,
        OperatorPrecedenceGroup::Prefix,
        OperatorPrecedenceGroup::Postfix,
    ]
}

/// Distinct groups have distinct levels, and the levels follow the order
/// from the loosest binding to the tightest: a group's level is its place in
/// that order, so it binds more tightly than every group before it (`&&`
/// more tightly than `||`, `*` more tightly than `+`).
pub proof fn lemma_group_levels_are_ordered(a: OperatorPrecedenceGroup, b: OperatorPrecedenceGroup)
    ensures
        a != b ==> group_level(a) != group_level(b),
        group_level(a) <= 13,
        groups_loosest_first()[group_level(a) as int] == a,
        forall|i: int| 0 <= i < groups_loosest_first().len() ==> group_level(#[trigger] groups_loosest_first()[i]) == i,
{
    assert forall|i: int| 0 <= i < groups_loosest_first().len() implies group_level(#[trigger] groups_loosest_first()[i]) == i by {
        assert(groups_loosest_first().len() == 14);
        if i == 0 {} else if i == 1 {} else if i == 2 {} else if i == 3 {} else if i == 4 {} else if i == 5 {} else if i == 6 {}
        else if i == 7 {} else if i == 8 {} else if i == 9 {} else if i == 10 {} else if i == 11 {} else if i == 12 {} else {}
    }
}

/// A left-associative group's right binding power exceeds its left binding
/// power by exactly one; a right-associative group's two powers are equal.
/// Assignments (`a = b = c` is `a = (b = c)`) and prefix operators group to
/// the right; every other group to the left (`a - b - c` is `(a - b) - c`).
pub proof fn lemma_binding_power_associativity(g: OperatorPrecedenceGroup)
    ensures
        group_is_left_assoc(g) ==> group_binding_power(g).1 == group_binding_power(g).0 + 1,
        !group_is_left_assoc(g) ==> group_binding_power(g).1 == group_binding_power(g).0,
        group_binding_power(g).0 <= group_binding_power(g).1 <= group_binding_power(g).0 + 1,
        (g is Assign || g is Prefix) ==> group_binding_power(g).1 == group_binding_power(g).0,
        !(g is Assign || g is Prefix) ==> group_binding_power(g).1 == group_binding_power(g).0 + 1,
{
}

} // verus!
