//! The closed set of decoration kinds: one classified ownership, borrow or
//! move observation reported for a source span.

use vstd::prelude::*;

verus! {

/// Kind of a decoration fact produced by the analysis.
#[derive(Debug, Clone, Copy, PartialEq, Eq, Structural)]
pub enum DecoKind {
    Lifetime,
    ImmBorrow,
    MutBorrow,
    Move,
    Call,
    SharedMut,
    Outlive,
}

/// The stable textual label of each kind, as it appears in reports and on
/// the wire.
pub open spec fn spec_kind_label(k: DecoKind) -> Seq<char> {
    match k {
        DecoKind::Lifetime => "lifetime"@,
        DecoKind::ImmBorrow => "imm-borrow"@,
        DecoKind::MutBorrow => "mut-borrow"@,
        DecoKind::Move => "move"@,
        DecoKind::Call => "call"@,
        DecoKind::SharedMut => "shared-mut"@,
        DecoKind::Outlive => "outlive"@,
    }
}

impl DecoKind {
    /// Renders the kind as its kebab-case label.
    pub fn label(&self) -> (r: String)
        ensures
            r@ == spec_kind_label(*self),
    {
        match self {
            DecoKind::Lifetime => String::from_str("lifetime"),
            DecoKind::ImmBorrow => String::from_str("imm-borrow"),
            DecoKind::MutBorrow => String::from_str("mut-borrow"),
            DecoKind::Move => String::from_str("move"),
            DecoKind::Call => String::from_str("call"),
            DecoKind::SharedMut => String::from_str("shared-mut"),
            DecoKind::Outlive => String::from_str("outlive"),
        }
    }
}

} // verus!
