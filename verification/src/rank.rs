//! The type-rank lattice: a total order over the possible per-token type
//! ranks, used to widen numeric types and to pick one dominant rank per
//! column as the maximum over a sample.

use vstd::prelude::*;

verus! {

/// The ranks a token or a column can take, in increasing generality:
/// `Null < Boolean < Int32 < Int64 < Int128 < Float32 < Float64 < Any`.
/// `TmpInt` and `TmpFloat` are transient markers for a numeric token whose
/// width has not been resolved yet; they rank above every resolved rank and
/// must never appear in a final per-column decision.
#[derive(Clone, Copy, Debug, PartialEq, Eq, Structural)]
pub enum Codes {
    Null,
    Boolean,
    Int32,
    Int64,
    Int128,
    Float32,
    Float64,
    Any,
    TmpInt,
    TmpFloat,
}

impl Codes {
    /// The numeric position of a rank in the lattice order.
    pub open spec fn rank(self) -> int {
        match self {
            Codes::Null => 0,
            Codes::Boolean => 1,
            Codes::Int32 => 2,
            Codes::Int64 => 3,
            Codes::Int128 => 4,
            Codes::Float32 => 5,
            Codes::Float64 => 6,
            Codes::Any => 7,
            Codes::TmpInt => 99,
            Codes::TmpFloat => 100,
        }
    }

    /// A rank is resolved when it is not one of the transient width markers.
    pub open spec fn is_resolved(self) -> bool {
        self != Codes::TmpInt && self != Codes::TmpFloat
    }

    /// The lattice order.
    pub open spec fn spec_le(self, other: Codes) -> bool {
        self.rank() <= other.rank()
    }

    /// The greater of two ranks under the lattice order.
    pub open spec fn spec_max(self, other: Codes) -> Codes {
        if other.rank() <= self.rank() {
            self
        } else {
            other
        }
    }

    /// The position of this rank in the lattice order, as a machine value.
    pub fn rank_value(self) -> (r: usize)
        ensures
            r as int == self.rank(),
    {
        match self {
            Codes::Null => 0,
            Codes::Boolean => 1,
            Codes::Int32 => 2,
            Codes::Int64 => 3,
            Codes::Int128 => 4,
            Codes::Float32 => 5,
            Codes::Float64 => 6,
            Codes::Any => 7,
            Codes::TmpInt => 99,
            Codes::TmpFloat => 100,
        }
    }

    /// The greater of two ranks.
    pub fn max_code(self, other: Codes) -> (r: Codes)
        ensures
            r == self.spec_max(other),
    {
        if other.rank_value() <= self.rank_value() {
            self
        } else {
            other
        }
    }
}

/// The maximum rank of a sequence of ranks; `Null` for an empty sequence.
pub open spec fn seq_max_code(s: Seq<Codes>) -> Codes
    decreases s.len(),
{
    if s.len() == 0 {
        Codes::Null
    } else if s.len() == 1 {
        s[0]
    } else {
        seq_max_code(s.drop_last()).spec_max(s.last())
    }
}

/// The lattice order is a total order: reflexive, antisymmetric, transitive,
/// and any two ranks are comparable.
pub proof fn lemma_rank_total_order(a: Codes, b: Codes, c: Codes)
    ensures
        a.spec_le(a),
        a.spec_le(b) || b.spec_le(a),
        a.spec_le(b) && b.spec_le(a) ==> a == b,
        a.spec_le(b) && b.spec_le(c) ==> a.spec_le(c),
{
}

/// The maximum over a non-empty sample of ranks is well-defined: it is one
/// of the sampled ranks and every sampled rank is at or below it.
pub proof fn lemma_seq_max_code_membership(s: Seq<Codes>)
    requires
        s.len() > 0,
    ensures
        s.contains(seq_max_code(s)),
        forall|i: int| 0 <= i < s.len() ==> (#[trigger] s[i]).spec_le(seq_max_code(s)),
    decreases s.len(),
{
    if s.len() == 1 {
        assert(s[0] == seq_max_code(s));
    } else {
        lemma_seq_max_code_membership(s.drop_last());
        let m = seq_max_code(s.drop_last());
        let r = seq_max_code(s);
        if m.rank() >= s.last().rank() {
            assert(r == m);
            assert(s.drop_last().contains(m));
            let j = choose|j: int| 0 <= j < s.drop_last().len() && s.drop_last()[j] == m;
            assert(s[j] == m);
        } else {
            assert(r == s.last());
            assert(s[s.len() - 1] == s.last());
        }
        assert forall|i: int| 0 <= i < s.len() implies (#[trigger] s[i]).spec_le(r) by {
            if i < s.len() - 1 {
                assert(s.drop_last()[i] == s[i]);
            }
        }
    }
}

/// The maximum over a non-empty sample of resolved ranks is itself a valid,
/// resolved rank: never one of the transient sentinel ranks.
pub proof fn lemma_seq_max_code_resolved(s: Seq<Codes>)
    requires
        s.len() > 0,
        forall|i: int| 0 <= i < s.len() ==> (#[trigger] s[i]).is_resolved(),
    ensures
        seq_max_code(s).is_resolved(),
{
    lemma_seq_max_code_membership(s);
    let j = choose|j: int| 0 <= j < s.len() && s[j] == seq_max_code(s);
    assert(s[j].is_resolved());
}

} // verus!
