//! Three-way ranks and the lexicographic order on text.

use vstd::prelude::*;

verus! {

/// Where one value stands relative to another in a total order.
#[derive(Clone, Copy, Debug, PartialEq, Eq, Structural)]
pub enum Rank {
    Before,
    Same,
    After,
}

impl Rank {
    /// This rank, or `next` where this one does not decide.
    pub open spec fn or(self, next: Rank) -> Rank {
        if self == Rank::Same {
            next
        } else {
            self
        }
    }

    /// The rank seen from the other side.
    pub open spec fn flip(self) -> Rank {
        match self {
            Rank::Before => Rank::After,
            Rank::Same => Rank::Same,
            Rank::After => Rank::Before,
        }
    }
}

/// The rank of `a` relative to `b` among the integers.
pub open spec fn rank_int(a: int, b: int) -> Rank {
    if a < b {
        Rank::Before
    } else if a == b {
        Rank::Same
    } else {
        Rank::After
    }
}

/// The rank of `false` and `true`, `false` first.
pub open spec fn rank_bool(a: bool, b: bool) -> Rank {
    rank_int(if a { 1 } else { 0 }, if b { 1 } else { 0 })
}

/// The code point of `c`.
pub open spec fn code(c: char) -> int {
    c as u32 as int
}

/// Distinct characters have distinct code points.
pub proof fn lemma_code_injective(x: char, y: char)
    ensures
        code(x) == code(y) <==> x == y,
{
    vstd::utf8::char_u32_cast(x, x as u32);
    vstd::utf8::char_u32_cast(y, y as u32);
}

/// Lexicographic rank of two texts by code point; a proper prefix comes first.
pub open spec fn rank_text(a: Seq<char>, b: Seq<char>) -> Rank
    decreases a.len(),
{
    if a.len() == 0 || b.len() == 0 {
        rank_int(a.len() as int, b.len() as int)
    } else {
        rank_int(code(a[0]), code(b[0])).or(rank_text(a.skip(1), b.skip(1)))
    }
}

/// Swapping the two texts flips their rank.
pub proof fn lemma_rank_text_flip(a: Seq<char>, b: Seq<char>)
    ensures
        rank_text(b, a) == rank_text(a, b).flip(),
    decreases a.len(),
{
    if a.len() != 0 && b.len() != 0 {
        lemma_rank_text_flip(a.skip(1), b.skip(1));
    }
}

/// Two texts rank the same exactly when they are equal.
pub proof fn lemma_rank_text_same(a: Seq<char>, b: Seq<char>)
    ensures
        rank_text(a, b) == Rank::Same <==> a == b,
    decreases a.len(),
{
    if a.len() != 0 && b.len() != 0 {
        lemma_rank_text_same(a.skip(1), b.skip(1));
        lemma_code_injective(a[0], b[0]);
        if rank_text(a, b) == Rank::Same {
            assert(a =~= seq![a[0]] + a.skip(1));
            assert(b =~= seq![b[0]] + b.skip(1));
        }
    } else if a.len() == 0 && b.len() == 0 {
        assert(a =~= b);
    }
}

/// The order on texts is transitive.
pub proof fn lemma_rank_text_trans(a: Seq<char>, b: Seq<char>, c: Seq<char>)
    requires
        rank_text(a, b) != Rank::After,
        rank_text(b, c) != Rank::After,
    ensures
        rank_text(a, c) != Rank::After,
        rank_text(a, c) == Rank::Same ==> rank_text(a, b) == Rank::Same && rank_text(b, c)
            == Rank::Same,
    decreases a.len(),
{
    if a.len() != 0 && b.len() != 0 && c.len() != 0 {
        lemma_code_injective(a[0], b[0]);
        lemma_code_injective(b[0], c[0]);
        if a[0] == b[0] && b[0] == c[0] {
            lemma_rank_text_trans(a.skip(1), b.skip(1), c.skip(1));
        }
    }
}

} // verus!
