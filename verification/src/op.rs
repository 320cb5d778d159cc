use vstd::prelude::*;

verus! {

/// The operation at the top of a symbolic expression.
#[derive(Clone, Copy, Debug, PartialEq, Eq, Structural)]
pub enum Op {
    Add,
    Div,
    Mul,
    Pow,
    Sub,
    Var,
    Val,
    Brackets,
}

/// How tightly an operation binds; variables and values have no rank.
pub open spec fn precedence(op: Op) -> Option<nat> {
    match op {
        Op::Add | Op::Sub => Some(0),
        Op::Div | Op::Mul => Some(1),
        Op::Pow => Some(3),
        Op::Brackets => Some(4),
        Op::Var | Op::Val => None,
    }
}

/// `a` binds less tightly than `b`; false when either has no rank.
pub open spec fn spec_is_lower_precedence_than(a: Op, b: Op) -> bool {
    match (precedence(a), precedence(b)) {
        (Some(p0), Some(p1)) => p0 < p1,
        _ => false,
    }
}

fn precedence_of(op: &Op) -> (r: Option<u8>)
    ensures
        match (r, precedence(*op)) {
            (Some(x), Some(y)) => x == y,
            (None, None) => true,
            _ => false,
        },
{
    match op {
        Op::Add | Op::Sub => Some(0),
        Op::Div | Op::Mul => Some(1),
        Op::Pow => Some(3),
        Op::Brackets => Some(4),
        Op::Var | Op::Val => None,
    }
}

impl Op {
    pub fn is_lower_precedence_than(&self, other: &Self) -> (r: bool)
        ensures
            r == spec_is_lower_precedence_than(*self, *other),
    {
        match (precedence_of(self), precedence_of(other)) {
            (Some(p0), Some(p1)) => p0 < p1,
            _ => false,
        }
    }
}

/// No operation binds less tightly than itself.
pub proof fn law_precedence_irreflexive(a: Op)
    ensures
        !spec_is_lower_precedence_than(a, a),
{
}

/// Binding less tightly is transitive.
pub proof fn law_precedence_transitive(a: Op, b: Op, c: Op)
    requires
        spec_is_lower_precedence_than(a, b),
        spec_is_lower_precedence_than(b, c),
    ensures
        spec_is_lower_precedence_than(a, c),
{
}

/// Two operations never each bind less tightly than the other.
pub proof fn law_precedence_asymmetric(a: Op, b: Op)
    ensures
        !(spec_is_lower_precedence_than(a, b) && spec_is_lower_precedence_than(b, a)),
{
}

} // verus!
