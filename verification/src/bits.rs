//! Bit-level reasoning for 64-bit sets.
//!
//! A `u64` is read as a subset of `0..64`: [`bit`] says whether a position
//! belongs to it. The lemmas below translate each machine operation into a
//! statement about membership, so that the rest of the crate never has to
//! reason about shifts and masks directly.

use vstd::prelude::*;
use vstd::std_specs::bits::{axiom_u64_trailing_zeros, u64_trailing_zeros};

verus! {

/// Whether position `i` is a member of the set encoded by `b`.
/// Positions outside `0..64` are never members.
pub open spec fn bit(b: u64, i: int) -> bool {
    0 <= i < 64 && (b >> (i as u64)) & 1 == 1
}

proof fn bv_ops(a: u64, b: u64, i: u64)
    by (bit_vector)
    requires
        i < 64,
    ensures
        (((a | b) >> i) & 1 == 1) == (((a >> i) & 1 == 1) || ((b >> i) & 1 == 1)),
        (((a & b) >> i) & 1 == 1) == (((a >> i) & 1 == 1) && ((b >> i) & 1 == 1)),
        (((!a) >> i) & 1 == 1) == !((a >> i) & 1 == 1),
        !((0u64 >> i) & 1 == 1),
{
}

proof fn bv_single(s: u64, i: u64)
    by (bit_vector)
    requires
        s < 64,
        i < 64,
    ensures
        (((1u64 << s) >> i) & 1 == 1) == (s == i),
        1u64 << s != 0,
{
}

proof fn bv_test(b: u64, i: u64)
    by (bit_vector)
    requires
        i < 64,
    ensures
        ((b >> i) & 1 == 1) == (b & (1u64 << i) != 0),
{
}

proof fn bv_equal_step(a: u64, b: u64, n: u64)
    by (bit_vector)
    requires
        n < 64,
        ((a >> n) & 1 == 1) == ((b >> n) & 1 == 1),
        n < 63 ==> a >> ((n + 1) as u64) == b >> ((n + 1) as u64),
    ensures
        a >> n == b >> n,
        n == 0 ==> a == b,
{
}

proof fn bv_clear_lowest(b: u64, t: u64, i: u64)
    by (bit_vector)
    requires
        t < 64,
        i < 64,
        b != 0,
        (b >> t) & 1 == 1,
        b << ((64 - t) as u64) == 0,
    ensures
        (((b & ((b - 1) as u64)) >> i) & 1 == 1) == (((b >> i) & 1 == 1) && i != t),
        b & ((b - 1) as u64) < b,
{
}

proof fn bv_shift(b: u64, k: u64, i: u64)
    by (bit_vector)
    requires
        k < 64,
        i < 64,
    ensures
        (((b << k) >> i) & 1 == 1) == (i >= k && (b >> ((i - k) as u64)) & 1 == 1),
        (((b >> k) >> i) & 1 == 1) == (i + k < 64 && (b >> ((i + k) as u64)) & 1 == 1),
{
}

/// Union: `a | b` holds exactly the members of `a` and of `b`.
pub proof fn lemma_bit_or(a: u64, b: u64)
    ensures
        forall|i: int| #[trigger] bit(a | b, i) == (bit(a, i) || bit(b, i)),
{
    assert forall|i: int| #[trigger] bit(a | b, i) == (bit(a, i) || bit(b, i)) by {
        if 0 <= i < 64 {
            bv_ops(a, b, i as u64);
        }
    }
}

/// Intersection: `a & b` holds exactly the common members of `a` and `b`.
pub proof fn lemma_bit_and(a: u64, b: u64)
    ensures
        forall|i: int| #[trigger] bit(a & b, i) == (bit(a, i) && bit(b, i)),
{
    assert forall|i: int| #[trigger] bit(a & b, i) == (bit(a, i) && bit(b, i)) by {
        if 0 <= i < 64 {
            bv_ops(a, b, i as u64);
        }
    }
}

/// Complement within `0..64`.
pub proof fn lemma_bit_not(a: u64)
    ensures
        forall|i: int| 0 <= i < 64 ==> #[trigger] bit(!a, i) == !bit(a, i),
{
    assert forall|i: int| 0 <= i < 64 implies #[trigger] bit(!a, i) == !bit(a, i) by {
        bv_ops(a, a, i as u64);
    }
}

/// Zero is the empty set.
pub proof fn lemma_bit_zero()
    ensures
        forall|i: int| !#[trigger] bit(0u64, i),
{
    assert forall|i: int| !#[trigger] bit(0u64, i) by {
        if 0 <= i < 64 {
            bv_ops(0, 0, i as u64);
        }
    }
}

/// `1 << s` is the singleton `{s}`.
pub proof fn lemma_bit_single(s: int)
    requires
        0 <= s < 64,
    ensures
        forall|i: int| #[trigger] bit(1u64 << (s as u64), i) == (i == s),
        1u64 << (s as u64) != 0,
{
    assert forall|i: int| #[trigger] bit(1u64 << (s as u64), i) == (i == s) by {
        if 0 <= i < 64 {
            bv_single(s as u64, i as u64);
        }
    }
    bv_single(s as u64, 0);
}

/// Membership is what a mask test reads.
pub proof fn lemma_bit_test(b: u64, i: int)
    requires
        0 <= i < 64,
    ensures
        bit(b, i) == (b & (1u64 << (i as u64)) != 0),
{
    bv_test(b, i as u64);
}

proof fn lemma_equal_from(a: u64, b: u64, n: int)
    requires
        0 <= n < 64,
        forall|i: int| 0 <= i < 64 ==> bit(a, i) == bit(b, i),
    ensures
        a >> (n as u64) == b >> (n as u64),
        n == 0 ==> a == b,
    decreases 64 - n,
{
    if n < 63 {
        lemma_equal_from(a, b, n + 1);
    }
    assert(bit(a, n) == bit(b, n));
    bv_equal_step(a, b, n as u64);
}

/// Two words with the same members are the same word.
pub proof fn lemma_bits_equal(a: u64, b: u64)
    requires
        forall|i: int| 0 <= i < 64 ==> bit(a, i) == bit(b, i),
    ensures
        a == b,
{
    lemma_equal_from(a, b, 0);
}

/// A word is zero exactly when it has no member.
pub proof fn lemma_zero_iff_empty(b: u64)
    ensures
        b == 0 <==> forall|i: int| 0 <= i < 64 ==> !bit(b, i),
{
    lemma_bit_zero();
    if forall|i: int| 0 <= i < 64 ==> !bit(b, i) {
        lemma_bits_equal(b, 0);
    }
}

/// The lowest member of a word, or 64 for the empty word.
pub open spec fn lowest(b: u64) -> int {
    u64_trailing_zeros(b) as int
}

/// A word without its lowest member.
pub open spec fn without_lowest(b: u64) -> u64 {
    b & ((b - 1) as u64)
}

/// `lowest(b)` is the least member of a non-empty `b`, and
/// `without_lowest(b)` is `b` without it.
pub proof fn lemma_lowest(b: u64)
    requires
        b != 0,
    ensures
        0 <= lowest(b) < 64,
        bit(b, lowest(b)),
        forall|j: int| 0 <= j < lowest(b) ==> !bit(b, j),
        forall|i: int| #[trigger] bit(without_lowest(b), i) == (bit(b, i) && i != lowest(b)),
        without_lowest(b) < b,
{
    axiom_u64_trailing_zeros(b);
    let t = u64_trailing_zeros(b) as u64;
    assert forall|j: int| 0 <= j < lowest(b) implies !bit(b, j) by {
        assert((b >> (j as u64)) & 1u64 == 0u64);
    }
    assert forall|i: int| #[trigger] bit(without_lowest(b), i) == (bit(b, i) && i != lowest(b)) by {
        if 0 <= i < 64 {
            bv_clear_lowest(b, t, i as u64);
        }
    }
    bv_clear_lowest(b, t, 0);
}

/// Members of a left shift: each member moves up by `k`, those pushed past 63
/// are lost.
pub proof fn lemma_bit_shl(b: u64, k: int)
    requires
        0 <= k < 64,
    ensures
        forall|i: int| #[trigger] bit(b << (k as u64), i) == (k <= i < 64 && bit(b, i - k)),
{
    assert forall|i: int| #[trigger] bit(b << (k as u64), i) == (k <= i < 64 && bit(b, i - k)) by {
        if 0 <= i < 64 {
            bv_shift(b, k as u64, i as u64);
        }
    }
}

/// Members of a right shift: each member moves down by `k`, those pushed below
/// 0 are lost.
pub proof fn lemma_bit_shr(b: u64, k: int)
    requires
        0 <= k < 64,
    ensures
        forall|i: int| #[trigger] bit(b >> (k as u64), i) == (0 <= i && i + k < 64 && bit(b, i + k)),
{
    assert forall|i: int| #[trigger]
        bit(b >> (k as u64), i) == (0 <= i && i + k < 64 && bit(b, i + k)) by {
        if 0 <= i < 64 {
            bv_shift(b, k as u64, i as u64);
        }
    }
}

/// The members of `b` below `n`, in ascending order.
pub open spec fn members_below(b: u64, n: int) -> Seq<int>
    decreases n,
{
    if n <= 0 {
        Seq::empty()
    } else if bit(b, n - 1) {
        members_below(b, n - 1).push(n - 1)
    } else {
        members_below(b, n - 1)
    }
}

/// All members of `b`, in ascending order.
pub open spec fn members(b: u64) -> Seq<int> {
    members_below(b, 64)
}

/// Skipping a stretch without members does not change the list.
pub proof fn lemma_members_skip(b: u64, lo: int, hi: int)
    requires
        0 <= lo <= hi,
        forall|j: int| lo <= j < hi ==> !bit(b, j),
    ensures
        members_below(b, hi) == members_below(b, lo),
    decreases hi - lo,
{
    if lo < hi {
        lemma_members_skip(b, lo, hi - 1);
    }
}

/// Removes the lowest member of `b` and returns its position.
pub fn pop_lowest(b: &mut u64) -> (t: u8)
    requires
        *old(b) != 0,
    ensures
        t as int == lowest(*old(b)),
        0 <= t < 64,
        bit(*old(b), t as int),
        forall|j: int| 0 <= j < t ==> !bit(*old(b), j),
        forall|i: int| #[trigger] bit(*final(b), i) == (bit(*old(b), i) && i != t),
        *final(b) == without_lowest(*old(b)),
        *final(b) < *old(b),
{
    proof {
        lemma_lowest(*b);
    }
    let t: u8 = b.trailing_zeros() as u8;
    *b = *b & (*b - 1);
    t
}

/// The number of subsets of `m`: two to the number of its members.
pub open spec fn subset_count(m: u64) -> nat
    decreases m,
{
    if m == 0 {
        1
    } else {
        proof {
            lemma_lowest(m);
        }
        2 * subset_count(without_lowest(m))
    }
}

/// The members of `m` that `v` holds, packed into the low bits of a number:
/// bit `j` of the result says whether `v` holds the `j`-th lowest member of
/// `m`.
pub open spec fn extract_spec(v: u64, m: u64) -> nat
    decreases m,
{
    if m == 0 {
        0
    } else {
        proof {
            lemma_lowest(m);
        }
        (if bit(v, lowest(m)) {
            1nat
        } else {
            0nat
        }) + 2 * extract_spec(v, without_lowest(m))
    }
}

/// The subset of `m` that the low bits of `index` select: it holds the
/// `j`-th lowest member of `m` when bit `j` of `index` is set.
pub open spec fn deposit_spec(index: nat, m: u64) -> u64
    decreases m,
{
    if m == 0 {
        0
    } else {
        proof {
            lemma_lowest(m);
        }
        (if index % 2 == 1 {
            1u64 << (lowest(m) as u64)
        } else {
            0u64
        }) | deposit_spec(index / 2, without_lowest(m))
    }
}

/// A packed selection is smaller than the number of subsets.
pub proof fn lemma_extract_bound(v: u64, m: u64)
    ensures
        extract_spec(v, m) < subset_count(m),
    decreases m,
{
    if m != 0 {
        lemma_lowest(m);
        lemma_extract_bound(v, without_lowest(m));
    }
}

/// Unpacking what was packed from `v` gives the members of `m` that `v`
/// holds.
pub proof fn lemma_deposit_extract(v: u64, m: u64)
    ensures
        deposit_spec(extract_spec(v, m), m) == v & m,
    decreases m,
{
    lemma_bit_and(v, m);
    if m == 0 {
        lemma_bit_zero();
        lemma_bits_equal(v & m, 0);
    } else {
        lemma_lowest(m);
        let t = lowest(m);
        let rest = without_lowest(m);
        let e = extract_spec(v, m);
        lemma_deposit_extract(v, rest);
        lemma_bit_and(v, rest);
        let low = if e % 2 == 1 {
            1u64 << (t as u64)
        } else {
            0u64
        };
        assert(e / 2 == extract_spec(v, rest));
        assert((e % 2 == 1) == bit(v, t));
        lemma_bit_single(t);
        lemma_bit_zero();
        lemma_bit_or(low, v & rest);
        assert forall|i: int| 0 <= i < 64 implies bit(deposit_spec(e, m), i) == bit(v & m, i) by {
        }
        lemma_bits_equal(deposit_spec(e, m), v & m);
    }
}

/// Two to the power `k`.
pub open spec fn two_to(k: nat) -> nat
    decreases k,
{
    if k == 0 {
        1
    } else {
        2 * two_to((k - 1) as nat)
    }
}

/// Powers of two are positive.
pub proof fn lemma_two_to_positive(k: nat)
    ensures
        two_to(k) >= 1,
    decreases k,
{
    if k > 0 {
        lemma_two_to_positive((k - 1) as nat);
    }
}

/// A word whose members all lie in a set of at most `k` positions has at
/// most two to the `k` subsets.
pub proof fn lemma_subset_count_cover(m: u64, cover: Set<int>, k: nat)
    requires
        cover.finite(),
        cover.len() <= k,
        forall|i: int| bit(m, i) ==> cover.contains(i),
    ensures
        subset_count(m) <= two_to(k),
    decreases m,
{
    lemma_two_to_positive(k);
    if m != 0 {
        lemma_lowest(m);
        let t = lowest(m);
        assert(cover.contains(t));
        let rest = cover.remove(t);
        assert(cover.len() >= 1) by {
            if cover.len() == 0 {
                assert(cover =~= Set::empty());
            }
        }
        assert forall|i: int| bit(without_lowest(m), i) implies rest.contains(i) by {
        }
        lemma_subset_count_cover(without_lowest(m), rest, (k - 1) as nat);
    }
}

/// Counts the subsets of `mask`.
pub fn count_subsets(mask: u64) -> (n: usize)
    requires
        subset_count(mask) <= 0x10000,
    ensures
        n == subset_count(mask),
    decreases mask,
{
    if mask == 0 {
        1
    } else {
        let mut rest: u64 = mask;
        let _ = pop_lowest(&mut rest);
        2 * count_subsets(rest)
    }
}

/// Packs the members of `mask` that `value` holds into the low bits of a
/// number.
pub fn extract_bits(value: u64, mask: u64) -> (index: usize)
    requires
        subset_count(mask) <= 0x10000,
    ensures
        index == extract_spec(value, mask),
        index < subset_count(mask),
    decreases mask,
{
    proof {
        lemma_extract_bound(value, mask);
    }
    if mask == 0 {
        0
    } else {
        let mut rest: u64 = mask;
        let t: u8 = pop_lowest(&mut rest);
        let high: usize = extract_bits(value, rest);
        proof {
            lemma_bit_test(value, t as int);
        }
        let low: usize = if value & (1u64 << (t as u64)) != 0 {
            1
        } else {
            0
        };
        low + 2 * high
    }
}

/// The subset of `mask` that the low bits of `index` select.
pub fn deposit_bits(index: usize, mask: u64) -> (subset: u64)
    ensures
        subset == deposit_spec(index as nat, mask),
    decreases mask,
{
    if mask == 0 {
        0
    } else {
        let mut rest: u64 = mask;
        let t: u8 = pop_lowest(&mut rest);
        let low: u64 = if index % 2 == 1 {
            1u64 << (t as u64)
        } else {
            0
        };
        low | deposit_bits(index / 2, rest)
    }
}

/// The word whose members below `n` are the positions that satisfy `pred`.
pub open spec fn word_of_below(pred: spec_fn(int) -> bool, n: int) -> u64
    decreases n,
{
    if n <= 0 {
        0
    } else if pred(n - 1) {
        word_of_below(pred, n - 1) | (1u64 << ((n - 1) as u64))
    } else {
        word_of_below(pred, n - 1)
    }
}

/// The word whose members are the positions of `0..64` that satisfy `pred`.
pub open spec fn word_of(pred: spec_fn(int) -> bool) -> u64 {
    word_of_below(pred, 64)
}

proof fn lemma_word_of_below(pred: spec_fn(int) -> bool, n: int)
    requires
        0 <= n <= 64,
    ensures
        forall|i: int| #[trigger] bit(word_of_below(pred, n), i) == (0 <= i < n && pred(i)),
    decreases n,
{
    lemma_bit_zero();
    if n > 0 {
        lemma_word_of_below(pred, n - 1);
        lemma_bit_single(n - 1);
        lemma_bit_or(word_of_below(pred, n - 1), 1u64 << ((n - 1) as u64));
    }
}

/// `word_of(pred)` holds the positions of `0..64` that satisfy `pred`.
pub proof fn lemma_word_of(pred: spec_fn(int) -> bool)
    ensures
        forall|i: int| #[trigger] bit(word_of(pred), i) == (0 <= i < 64 && pred(i)),
{
    lemma_word_of_below(pred, 64);
}

/// A word that holds the positions of `0..64` that satisfy `pred` is
/// `word_of(pred)`.
pub proof fn lemma_is_word_of(b: u64, pred: spec_fn(int) -> bool)
    requires
        forall|i: int| 0 <= i < 64 ==> bit(b, i) == pred(i),
    ensures
        b == word_of(pred),
{
    lemma_word_of_below(pred, 64);
    lemma_bits_equal(b, word_of(pred));
}

} // verus!
