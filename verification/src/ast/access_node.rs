use vstd::prelude::*;
use crate::ast::ast_node::ASTNodeId;
use crate::source::source_span::SourceSpan;

verus! {

/// `receiver.member`.
#[derive(Debug)]
pub struct AccessNode {
    pub receiver: ASTNodeId,
    pub member: Member,
}

impl AccessNode {
    pub fn new(receiver: ASTNodeId, member: Member) -> (r: Self)
        ensures
            r.receiver == receiver,
            r.member == member,
    {
        Self { receiver, member }
    }
}

/// The member named after a dot: a field, or a method with its arguments.
#[derive(Debug)]
pub struct Member {
    pub name: usize,
    pub member_type: MemberType,
    pub span: SourceSpan,
}

/// Whether a member is a field or a method call (with its arguments).
#[derive(Debug)]
pub enum MemberType {
    Field,
    Method(Vec<ASTNodeId>),
}

impl Member {
    pub fn field(name: usize, span: SourceSpan) -> (r: Self)
        ensures
            r.name == name,
            r.member_type is Field,
            r.span == span,
    {
        Self { name, member_type: MemberType::Field, span }
    }

    pub fn method(name: usize, args: Vec<ASTNodeId>, span: SourceSpan) -> (r: Self)
        ensures
            r.name == name,
            r.member_type == MemberType::Method(args),
            r.span == span,
    {
        Self { name, member_type: MemberType::Method(args), span }
    }
}

} // verus!
