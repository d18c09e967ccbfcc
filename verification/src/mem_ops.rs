//! Byte-buffer routines: fill, copy, compare and overlapping move.
use vstd::prelude::*;

verus! {

/// Fill the first `n` bytes of `dest` with the low byte of `c`.
pub fn memset(dest: &mut Vec<u8>, c: i32, n: usize)
    requires
        n <= old(dest).len(),
    ensures
        final(dest).len() == old(dest).len(),
        forall|k: int| 0 <= k < n ==> #[trigger] final(dest)@[k] == (c as u8),
        forall|k: int| n <= k < old(dest).len() ==> #[trigger] final(dest)@[k] == old(dest)@[k],
{
    let byte = c as u8;
    let mut i: usize = 0;
    while i < n
        invariant
            i <= n,
            n <= dest.len(),
            dest.len() == old(dest).len(),
            byte == (c as u8),
            forall|k: int| 0 <= k < i ==> #[trigger] dest@[k] == byte,
            forall|k: int| i <= k < dest.len() ==> #[trigger] dest@[k] == old(dest)@[k],
        decreases n - i,
    {
        dest.set(i, byte);
        i = i + 1;
    }
}

/// Copy the first `n` bytes of `src` to the start of `dest`.
pub fn memcpy(dest: &mut Vec<u8>, src: &[u8], n: usize)
    requires
        n <= old(dest).len(),
        n <= src.len(),
    ensures
        final(dest).len() == old(dest).len(),
        forall|k: int| 0 <= k < n ==> #[trigger] final(dest)@[k] == src@[k],
        forall|k: int| n <= k < old(dest).len() ==> #[trigger] final(dest)@[k] == old(dest)@[k],
{
    let mut i: usize = 0;
    while i < n
        invariant
            i <= n,
            n <= dest.len(),
            n <= src.len(),
            dest.len() == old(dest).len(),
            forall|k: int| 0 <= k < i ==> #[trigger] dest@[k] == src@[k],
            forall|k: int| i <= k < dest.len() ==> #[trigger] dest@[k] == old(dest)@[k],
        decreases n - i,
    {
        dest.set(i, src[i]);
        i = i + 1;
    }
}

/// The answer of comparing the first `n` bytes of `a` and `b`: the
/// difference of the first pair of bytes that differ, 0 when none do.
pub open spec fn compare_bytes(a: Seq<u8>, b: Seq<u8>, n: int) -> int
    decreases n,
{
    if n <= 0 {
        0
    } else if compare_bytes(a, b, n - 1) != 0 {
        compare_bytes(a, b, n - 1)
    } else {
        a[n - 1] - b[n - 1]
    }
}

/// `compare_bytes` over a prefix length given as a `usize`.
pub open spec fn compare_prefix(a: Seq<u8>, b: Seq<u8>, n: usize) -> int {
    compare_bytes(a, b, n as int)
}

/// The difference of the first bytes at which `s1` and `s2` differ among
/// their first `n`, or 0.
fn first_difference(s1: &[u8], s2: &[u8], n: usize) -> (r: i32)
    requires
        n <= s1.len(),
        n <= s2.len(),
    ensures
        r == compare_prefix(s1@, s2@, n),
{
    let mut i: usize = 0;
    while i < n
        invariant
            i <= n,
            n <= s1.len(),
            n <= s2.len(),
            compare_bytes(s1@, s2@, i as int) == 0,
        decreases n - i,
    {
        let a = s1[i];
        let b = s2[i];
        if a != b {
            proof {
                lemma_compare_stays(s1@, s2@, i as int + 1, n as int);
            }
            return (a as i32) - (b as i32);
        }
        i = i + 1;
    }
    0
}

/// Compare the first `n` bytes of `s1` and `s2`: 0 when equal, else the
/// difference of the first bytes that differ.
pub fn memcmp(s1: &[u8], s2: &[u8], n: usize) -> (r: i32)
    requires
        n <= s1.len(),
        n <= s2.len(),
    ensures
        r == compare_prefix(s1@, s2@, n),
{
    first_difference(s1, s2, n)
}

/// Once two byte sequences differ, later bytes do not change the answer.
proof fn lemma_compare_stays(a: Seq<u8>, b: Seq<u8>, m: int, n: int)
    requires
        0 < m <= n,
        compare_bytes(a, b, m) != 0,
    ensures
        compare_bytes(a, b, n) == compare_bytes(a, b, m),
    decreases n - m,
{
    if m < n {
        lemma_compare_stays(a, b, m, n - 1);
    }
}

/// Compare the first `n` bytes of `s1` and `s2`, answering as `memcmp`.
pub fn bcmp(s1: &[u8], s2: &[u8], n: usize) -> (r: i32)
    requires
        n <= s1.len(),
        n <= s2.len(),
    ensures
        r == compare_prefix(s1@, s2@, n),
{
    first_difference(s1, s2, n)
}

/// Move `n` bytes of `buf` from offset `src` to offset `dest`; the two
/// ranges may overlap, and the bytes land as they were before the move.
pub fn memmove(buf: &mut Vec<u8>, dest: usize, src: usize, n: usize)
    requires
        dest + n <= old(buf).len(),
        src + n <= old(buf).len(),
    ensures
        final(buf).len() == old(buf).len(),
        forall|k: int| 0 <= k < n ==> #[trigger] final(buf)@[dest + k] == old(buf)@[src + k],
        forall|p: int| 0 <= p < old(buf).len() && !(dest <= p < dest + n) ==> #[trigger] final(buf)@[p] == old(
            buf,
        )@[p],
{
    if dest < src {
        let mut i: usize = 0;
        while i < n
            invariant
                dest < src,
                i <= n,
                dest + n <= buf.len(),
                src + n <= buf.len(),
                buf.len() == old(buf).len(),
                forall|k: int| 0 <= k < i ==> #[trigger] buf@[dest + k] == old(buf)@[src + k],
                forall|p: int| 0 <= p < buf.len() && !(dest <= p < dest + i) ==> #[trigger] buf@[p] == old(buf)@[p],
            decreases n - i,
        {
            let b = buf[src + i];
            buf.set(dest + i, b);
            i = i + 1;
        }
    } else {
        let mut i: usize = n;
        while i > 0
            invariant
                src <= dest,
                i <= n,
                dest + n <= buf.len(),
                src + n <= buf.len(),
                buf.len() == old(buf).len(),
                forall|k: int| i <= k < n ==> #[trigger] buf@[dest + k] == old(buf)@[src + k],
                forall|p: int| 0 <= p < buf.len() && !(dest + i <= p < dest + n) ==> #[trigger] buf@[p] == old(
                    buf,
                )@[p],
            decreases i,
        {
            i = i - 1;
            let b = buf[src + i];
            buf.set(dest + i, b);
        }
    }
}

} // verus!
