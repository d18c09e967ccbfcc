//! Bit-per-frame maps stored in bytes: a set bit marks a used frame.
use vstd::prelude::*;

verus! {

/// Bit `k` of byte `b` is set.
pub open spec fn byte_bit(b: u8, k: u8) -> bool {
    b & (1u8 << k) != 0
}

/// Frame `f` is marked used in the byte map `bm`.
pub open spec fn frame_used(bm: Seq<u8>, f: int) -> bool {
    byte_bit(bm[f / 8], (f % 8) as u8)
}

/// Number of free (clear) frames among frames `0 .. n`.
pub open spec fn count_free(bm: Seq<u8>, n: nat) -> nat
    decreases n,
{
    if n == 0 {
        0
    } else {
        count_free(bm, (n - 1) as nat) + if frame_used(bm, n - 1) {
            0nat
        } else {
            1nat
        }
    }
}

/// Setting bit `k` of a byte sets that bit and keeps all others.
pub proof fn lemma_set_bit(b: u8, k: u8, j: u8)
    requires
        k < 8,
        j < 8,
    ensures
        byte_bit(b | (1u8 << k), j) == (j == k || byte_bit(b, j)),
{
    assert(((b | (1u8 << k)) & (1u8 << j) != 0) == (j == k || b & (1u8 << j) != 0))
        by (bit_vector)
        requires
            k < 8,
            j < 8,
    ;
}

/// Clearing bit `k` of a byte clears that bit and keeps all others.
pub proof fn lemma_clear_bit(b: u8, k: u8, j: u8)
    requires
        k < 8,
        j < 8,
    ensures
        byte_bit(b & !(1u8 << k), j) == (j != k && byte_bit(b, j)),
{
    assert(((b & !(1u8 << k)) & (1u8 << j) != 0) == (j != k && b & (1u8 << j) != 0))
        by (bit_vector)
        requires
            k < 8,
            j < 8,
    ;
}

/// A byte is 0xFF exactly when all its eight bits are set.
pub proof fn lemma_full_byte(b: u8)
    ensures
        (b == 0xFF) == (byte_bit(b, 0) && byte_bit(b, 1) && byte_bit(b, 2) && byte_bit(b, 3)
            && byte_bit(b, 4) && byte_bit(b, 5) && byte_bit(b, 6) && byte_bit(b, 7)),
{
    assert((b == 0xFF) == (b & (1u8 << 0u8) != 0 && b & (1u8 << 1u8) != 0 && b & (1u8 << 2u8)
        != 0 && b & (1u8 << 3u8) != 0 && b & (1u8 << 4u8) != 0 && b & (1u8 << 5u8) != 0 && b & (
    1u8 << 6u8) != 0 && b & (1u8 << 7u8) != 0)) by (bit_vector);
}

/// All bits of 0xFF are set.
pub proof fn lemma_ff_bits(j: u8)
    requires
        j < 8,
    ensures
        byte_bit(0xFFu8, j),
{
    assert(0xFFu8 & (1u8 << j) != 0) by (bit_vector)
        requires
            j < 8,
    ;
}

/// The free count never exceeds the number of frames counted.
pub proof fn lemma_count_free_le(bm: Seq<u8>, n: nat)
    ensures
        count_free(bm, n) <= n,
    decreases n,
{
    if n > 0 {
        lemma_count_free_le(bm, (n - 1) as nat);
    }
}

/// When every frame below `n` is used, none is free.
pub proof fn lemma_count_free_all_used(bm: Seq<u8>, n: nat)
    requires
        forall|f: int| 0 <= f < n ==> frame_used(bm, f),
    ensures
        count_free(bm, n) == 0,
    decreases n,
{
    if n > 0 {
        lemma_count_free_all_used(bm, (n - 1) as nat);
    }
}

/// Two maps that agree on all frames below `n` except `g` have free counts
/// that differ by the change at `g`.
pub proof fn lemma_count_free_one_change(bm: Seq<u8>, bm2: Seq<u8>, n: nat, g: int)
    requires
        forall|f: int| 0 <= f < n && f != g ==> frame_used(bm2, f) == frame_used(bm, f),
    ensures
        count_free(bm2, n) + (if 0 <= g < n && !frame_used(bm, g) {
            1int
        } else {
            0int
        }) == count_free(bm, n) + (if 0 <= g < n && !frame_used(bm2, g) {
            1int
        } else {
            0int
        }),
    decreases n,
{
    if n > 0 {
        lemma_count_free_one_change(bm, bm2, (n - 1) as nat, g);
    }
}

/// Two maps that agree on all frames below `n` have the same free count.
pub proof fn lemma_count_free_same(bm: Seq<u8>, bm2: Seq<u8>, n: nat)
    requires
        forall|f: int| 0 <= f < n ==> frame_used(bm2, f) == frame_used(bm, f),
    ensures
        count_free(bm2, n) == count_free(bm, n),
    decreases n,
{
    if n > 0 {
        lemma_count_free_same(bm, bm2, (n - 1) as nat);
    }
}

/// A run of `c` free frames starting at `s` below `n` contributes at least `c`
/// to the free count.
pub proof fn lemma_count_free_run(bm: Seq<u8>, n: nat, s: int, c: int)
    requires
        0 <= s,
        0 <= c,
        s + c <= n,
        forall|f: int| s <= f < s + c ==> !frame_used(bm, f),
    ensures
        count_free(bm, n) >= c,
    decreases n,
{
    if n > 0 {
        if s + c == n && c > 0 {
            lemma_count_free_run(bm, (n - 1) as nat, s, c - 1);
        } else if s + c < n {
            lemma_count_free_run(bm, (n - 1) as nat, s, c);
        }
    }
}

/// Setting the bit of frame `f` marks `f` used and keeps every other frame.
pub proof fn lemma_frame_set(bm: Seq<u8>, f: int)
    requires
        0 <= f,
        f / 8 < bm.len(),
    ensures
        forall|g: int|
            0 <= g && g / 8 < bm.len() ==> #[trigger] frame_used(
                bm.update(f / 8, bm[f / 8] | (1u8 << ((f % 8) as u8))),
                g,
            ) == (g == f || frame_used(bm, g)),
{
    let bm2 = bm.update(f / 8, bm[f / 8] | (1u8 << ((f % 8) as u8)));
    assert forall|g: int| 0 <= g && g / 8 < bm.len() implies #[trigger] frame_used(bm2, g) == (g
        == f || frame_used(bm, g)) by {
        if g / 8 == f / 8 {
            lemma_set_bit(bm[f / 8], (f % 8) as u8, (g % 8) as u8);
        }
    }
}

/// Clearing the bit of frame `f` marks `f` free and keeps every other frame.
pub proof fn lemma_frame_clear(bm: Seq<u8>, f: int)
    requires
        0 <= f,
        f / 8 < bm.len(),
    ensures
        forall|g: int|
            0 <= g && g / 8 < bm.len() ==> #[trigger] frame_used(
                bm.update(f / 8, bm[f / 8] & !(1u8 << ((f % 8) as u8))),
                g,
            ) == (g != f && frame_used(bm, g)),
{
    let bm2 = bm.update(f / 8, bm[f / 8] & !(1u8 << ((f % 8) as u8)));
    assert forall|g: int| 0 <= g && g / 8 < bm.len() implies #[trigger] frame_used(bm2, g) == (g
        != f && frame_used(bm, g)) by {
        if g / 8 == f / 8 {
            lemma_clear_bit(bm[f / 8], (f % 8) as u8, (g % 8) as u8);
        }
    }
}

} // verus!
