//! Column words: a `u64` read as a set of positions `0..64`.
//!
//! Everything the mesher knows about a row of voxels is which of its 64
//! positions are set, so the rest of the crate speaks of words only through
//! [`bit`]. The facts about the machine operators are proved here once.

use bit_iter::BitIter;
use vstd::prelude::*;

verus! {

/// The first and the last position of a column: the shell of the chunk.
pub const PAD_MASK: u64 = 0x8000_0000_0000_0001;

/// Position `i` of the word `m` is set.
pub open spec fn bit(m: u64, i: int) -> bool {
    0 <= i < 64 && (m >> (i as u64)) & 1 == 1
}

/// A plane word widened by one plane to either side, without the shell.
pub open spec fn dilated(w: u64) -> u64 {
    ((w << 1) | (w >> 1) | w) & !PAD_MASK
}

proof fn bv_two_words(a: u64, b: u64, i: u64)
    by (bit_vector)
    requires
        i < 64,
    ensures
        ((a & b) >> i) & 1 == 1 <==> ((a >> i) & 1 == 1 && (b >> i) & 1 == 1),
        ((a | b) >> i) & 1 == 1 <==> ((a >> i) & 1 == 1 || (b >> i) & 1 == 1),
{
}

proof fn bv_one_word(a: u64, i: u64)
    by (bit_vector)
    requires
        i < 64,
    ensures
        ((!a) >> i) & 1 == 1 <==> !((a >> i) & 1 == 1),
        ((a >> 1) >> i) & 1 == 1 <==> (i < 63 && (a >> ((i + 1) as u64)) & 1 == 1),
        ((a << 1) >> i) & 1 == 1 <==> (i >= 1 && (a >> ((i - 1) as u64)) & 1 == 1),
        (0u64 >> i) & 1 == 0,
        (0xffff_ffff_ffff_ffffu64 >> i) & 1 == 1,
        (0x8000_0000_0000_0001u64 >> i) & 1 == 1 <==> (i == 0 || i == 63),
{
}

proof fn bv_single(x: u64, i: u64)
    by (bit_vector)
    requires
        x < 64,
        i < 64,
    ensures
        ((1u64 << x) >> i) & 1 == 1 <==> i == x,
        ((((1u64 << x) - 1) as u64) >> i) & 1 == 1 <==> i < x,
{
}

proof fn bv_lowest(m: u64, t: u64, i: u64)
    by (bit_vector)
    requires
        t < 64,
        i < 64,
        (m >> t) & 1 == 1,
        m << ((64 - t) as u64) == 0,
    ensures
        ((m & ((m - 1) as u64)) >> i) & 1 == 1 <==> ((m >> i) & 1 == 1 && i != t),
{
}

/// The facts about `&`, `|`, `!` and the shifts by one, position by position.
pub proof fn lemma_bit_ops(a: u64, b: u64)
    ensures
        forall|i: int| #[trigger] bit(a & b, i) == (bit(a, i) && bit(b, i)),
        forall|i: int| #[trigger] bit(a | b, i) == (bit(a, i) || bit(b, i)),
        forall|i: int| #[trigger] bit(!a, i) == (0 <= i < 64 && !bit(a, i)),
        forall|i: int| #[trigger] bit(a >> 1, i) == (0 <= i && bit(a, i + 1)),
        forall|i: int| #[trigger] bit(a << 1, i) == (i < 64 && bit(a, i - 1)),
{
    assert forall|i: int| #[trigger] bit(a & b, i) == (bit(a, i) && bit(b, i)) by {
        if 0 <= i < 64 {
            bv_two_words(a, b, i as u64);
        }
    }
    assert forall|i: int| #[trigger] bit(a | b, i) == (bit(a, i) || bit(b, i)) by {
        if 0 <= i < 64 {
            bv_two_words(a, b, i as u64);
        }
    }
    assert forall|i: int| #[trigger] bit(!a, i) == (0 <= i < 64 && !bit(a, i)) by {
        if 0 <= i < 64 {
            bv_one_word(a, i as u64);
        }
    }
    assert forall|i: int| #[trigger] bit(a >> 1, i) == (0 <= i && bit(a, i + 1)) by {
        if 0 <= i < 64 {
            bv_one_word(a, i as u64);
        }
    }
    assert forall|i: int| #[trigger] bit(a << 1, i) == (i < 64 && bit(a, i - 1)) by {
        if 0 <= i < 64 {
            bv_one_word(a, i as u64);
        }
    }
}

/// The constant words: none, all, and the shell.
pub proof fn lemma_bit_consts()
    ensures
        forall|i: int| !#[trigger] bit(0u64, i),
        forall|i: int| #[trigger] bit(!0u64, i) == (0 <= i < 64),
        forall|i: int| #[trigger] bit(PAD_MASK, i) == (i == 0 || i == 63),
        forall|i: int| #[trigger] bit(!PAD_MASK, i) == (1 <= i < 63),
{
    assert(!0u64 == 0xffff_ffff_ffff_ffffu64) by (bit_vector);
    assert forall|i: int| !#[trigger] bit(0u64, i) by {
        if 0 <= i < 64 {
            bv_one_word(0u64, i as u64);
        }
    }
    assert forall|i: int| #[trigger] bit(!0u64, i) == (0 <= i < 64) by {
        if 0 <= i < 64 {
            bv_one_word(0u64, i as u64);
        }
    }
    assert forall|i: int| #[trigger] bit(PAD_MASK, i) == (i == 0 || i == 63) by {
        if 0 <= i < 64 {
            bv_one_word(0u64, i as u64);
        }
    }
    assert forall|i: int| #[trigger] bit(!PAD_MASK, i) == (1 <= i < 63) by {
        if 0 <= i < 64 {
            bv_one_word(PAD_MASK, i as u64);
            bv_one_word(0u64, i as u64);
        }
    }
}

/// The word with position `x` alone, and the word with the positions below `x`.
pub proof fn lemma_bit_single(x: int)
    requires
        0 <= x < 64,
    ensures
        forall|i: int| #[trigger] bit(1u64 << (x as u64), i) == (i == x),
        forall|i: int| #[trigger] bit(((1u64 << (x as u64)) - 1) as u64, i) == (0 <= i < x),
{
    assert forall|i: int| #[trigger] bit(1u64 << (x as u64), i) == (i == x) by {
        if 0 <= i < 64 {
            bv_single(x as u64, i as u64);
        }
    }
    assert forall|i: int| #[trigger]
        bit(((1u64 << (x as u64)) - 1) as u64, i) == (0 <= i < x) by {
        if 0 <= i < 64 {
            bv_single(x as u64, i as u64);
        }
    }
}

/// What a plane word marks once it is widened: its own planes and their
/// neighbours, inside the shell.
pub proof fn lemma_dilated(w: u64)
    ensures
        forall|i: int| #[trigger]
            bit(dilated(w), i) == (1 <= i < 63 && (bit(w, i - 1) || bit(w, i) || bit(w, i + 1))),
{
    lemma_bit_ops(w, w);
    lemma_bit_ops(w << 1, w >> 1);
    lemma_bit_ops((w << 1) | (w >> 1), w);
    lemma_bit_ops((w << 1) | (w >> 1) | w, !PAD_MASK);
    lemma_bit_consts();
    assert forall|i: int| #[trigger]
        bit(dilated(w), i) == (1 <= i < 63 && (bit(w, i - 1) || bit(w, i) || bit(w, i + 1))) by {
        assert(bit(dilated(w), i) == (bit((w << 1) | (w >> 1) | w, i) && bit(!PAD_MASK, i)));
        assert(bit((w << 1) | (w >> 1) | w, i) == (bit((w << 1) | (w >> 1), i) || bit(w, i)));
        assert(bit((w << 1) | (w >> 1), i) == (bit(w << 1, i) || bit(w >> 1, i)));
    }
}

/// Whether position `x` of `m` is set.
pub fn test_bit(m: u64, x: usize) -> (r: bool)
    requires
        x < 64,
    ensures
        r == bit(m, x as int),
{
    let word: u64 = (m >> (x as u64)) & 1;
    assert(word == 0 || word == 1) by (bit_vector)
        requires
            word == (m >> (x as u64)) & 1,
    ;
    word != 0
}

/// `m` with position `x` set.
pub fn with_bit(m: u64, x: usize) -> (r: u64)
    requires
        x < 64,
    ensures
        r == m | (1u64 << (x as u64)),
        forall|i: int| #[trigger] bit(r, i) == (bit(m, i) || i == x),
{
    proof {
        lemma_bit_single(x as int);
        lemma_bit_ops(m, 1u64 << (x as u64));
    }
    m | (1u64 << (x as u64))
}

/// `m` without the positions below `n`.
pub fn without_below(m: u64, n: usize) -> (r: u64)
    requires
        n < 64,
    ensures
        forall|i: int| #[trigger] bit(r, i) == (bit(m, i) && i >= n),
{
    let low: u64 = (1u64 << (n as u64)).wrapping_sub(1);
    proof {
        assert(low == ((1u64 << (n as u64)) - 1) as u64) by {
            assert(1u64 << (n as u64) >= 1) by (bit_vector)
                requires
                    n < 64,
            ;
        }
        lemma_bit_single(n as int);
        lemma_bit_ops(low, low);
        lemma_bit_ops(m, !low);
    }
    m & !low
}

/// The lowest position set in `m`; 64 where none is.
pub open spec fn lowest(m: u64) -> int {
    vstd::std_specs::bits::u64_trailing_zeros(m) as int
}

/// What makes a position the lowest one set.
pub proof fn lemma_lowest(m: u64)
    ensures
        0 <= lowest(m) <= 64,
        m == 0 <==> lowest(m) == 64,
        m != 0 ==> bit(m, lowest(m)),
        forall|i: int| 0 <= i < lowest(m) ==> !bit(m, i),
{
    vstd::std_specs::bits::axiom_u64_trailing_zeros(m);
    assert forall|i: int| 0 <= i < lowest(m) implies !bit(m, i) by {
        let j: u64 = i as u64;
        assert((m >> j) & 1u64 == 0u64);
    }
}

/// The lowest position set in a word that is not empty.
pub fn lowest_bit(m: u64) -> (x: usize)
    requires
        m != 0,
    ensures
        x == lowest(m),
        x < 64,
        bit(m, x as int),
        forall|i: int| 0 <= i < x ==> !bit(m, i),
{
    proof {
        lemma_lowest(m);
    }
    m.trailing_zeros() as usize
}

/// `m` without its lowest position.
pub fn without_lowest(m: u64) -> (r: u64)
    requires
        m != 0,
    ensures
        forall|i: int| #[trigger] bit(r, i) == (bit(m, i) && i != lowest(m)),
{
    let r: u64 = m & m.wrapping_sub(1);
    proof {
        lemma_lowest(m);
        vstd::std_specs::bits::axiom_u64_trailing_zeros(m);
        let t: u64 = lowest(m) as u64;
        assert(m.wrapping_sub(1) == (m - 1) as u64);
        assert forall|i: int| #[trigger] bit(r, i) == (bit(m, i) && i != lowest(m)) by {
            if 0 <= i < 64 {
                bv_lowest(m, t, i as u64);
            }
        }
    }
    r
}

/// Whether `s` lists, in ascending order, the positions set in `m`.
pub open spec fn lists_bits(s: Seq<usize>, m: u64) -> bool {
    &&& forall|i: int| 0 <= i < s.len() ==> bit(m, #[trigger] s[i] as int)
    &&& forall|i: int, j: int| 0 <= i < j < s.len() ==> s[i] < s[j]
    &&& forall|b: int| bit(m, b) ==> s.contains(b as usize)
}

/// Puts the positions set in `m` into `list`, lowest first, in place of
/// what it held.
///
/// Trusted: `list` is filled from `bit_iter::BitIter::from(m)`. The crate
/// documents that iterator as returning the positions of the `1` bits in
/// ascending order, which is what the contract repeats: every element is a
/// set position, the elements grow strictly, and no set position is missing.
#[verifier::external_body]
pub(crate) fn bit_positions(m: u64, list: &mut Vec<usize>)
    ensures
        lists_bits(final(list)@, m),
{
    list.clear();
    list.extend(BitIter::from(m));
}

/// `x` is one of the first `n` entries of `s`.
pub open spec fn among(s: Seq<usize>, n: int, x: int) -> bool {
    exists|m: int| 0 <= m < n && #[trigger] s[m] == x
}

/// A list of the positions of a word holds a position exactly if it is set.
pub proof fn lemma_among_all(s: Seq<usize>, m: u64, x: int)
    requires
        lists_bits(s, m),
    ensures
        among(s, s.len() as int, x) == bit(m, x),
{
    if bit(m, x) {
        assert(s.contains(x as usize));
        let i = choose|i: int| 0 <= i < s.len() && s[i] == x as usize;
        assert(s[i] == x);
    }
}

} // verus!
