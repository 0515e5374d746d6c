//! Near-duplicate detection over difference hashes: which images are close
//! enough to pair up, and how pairs group into clusters that keep one image
//! each.  Images are named by their index in a list sorted by path, so
//! "the first image" of a cluster is the one with the smallest index.
use vstd::prelude::*;

use crate::image_processor::{invalid_manifest, ToolError};

verus! {

/// Most pairs a similarity scan reports before it refuses to go on.
pub const MAX_SIMILAR_PAIRS: usize = 10000;

/// Most images a similarity scan compares.
pub const MAX_SIMILAR_IMAGES: usize = 5000;

/// Number of set bits of `x`.
pub open spec fn popcount(x: u64) -> nat
    decreases x,
{
    if x == 0 {
        0
    } else {
        (x % 2) as nat + popcount(x / 2)
    }
}

/// `2^k`.
pub open spec fn two_to(k: nat) -> nat
    decreases k,
{
    if k == 0 {
        1
    } else {
        2 * two_to((k - 1) as nat)
    }
}

proof fn lemma_popcount_bits(x: u64, k: nat)
    requires
        x < two_to(k),
    ensures
        popcount(x) <= k,
    decreases k,
{
    if x != 0 && k > 0 {
        lemma_popcount_bits(x / 2, (k - 1) as nat);
    }
}

proof fn lemma_popcount_u64(x: u64)
    ensures
        popcount(x) <= 64,
{
    reveal_with_fuel(two_to, 65);
    assert(two_to(64) == 0x1_0000_0000_0000_0000);
    lemma_popcount_bits(x, 64);
}

/// Width of the grey image a difference hash is taken from.
pub const DHASH_WIDTH: usize = 9;

/// Height of the grey image a difference hash is taken from.
pub const DHASH_HEIGHT: usize = 8;

/// Bit `n` (counted from the top) of the difference hash of a 9 by 8 grey
/// image in row order: set when the pixel is brighter than its right
/// neighbour.
pub open spec fn dhash_bit(gray: Seq<u8>, n: int) -> nat {
    let y = n / 8;
    let x = n % 8;
    if gray[y * 9 + x] > gray[y * 9 + x + 1] {
        1
    } else {
        0
    }
}

/// The first `n` bits of the difference hash, as a number.
pub open spec fn dhash_prefix(gray: Seq<u8>, n: nat) -> nat
    decreases n,
{
    if n == 0 {
        0
    } else {
        2 * dhash_prefix(gray, (n - 1) as nat) + dhash_bit(gray, n - 1)
    }
}

proof fn lemma_dhash_prefix_bound(gray: Seq<u8>, n: nat)
    ensures
        dhash_prefix(gray, n) < two_to(n),
    decreases n,
{
    if n > 0 {
        lemma_dhash_prefix_bound(gray, (n - 1) as nat);
    }
}

/// The 64-bit difference hash of a 9 by 8 grey image given in row order:
/// one bit per horizontally adjacent pair, row by row, the first pair in
/// the highest bit.
pub fn difference_hash_bits(gray: &Vec<u8>) -> (hash: u64)
    requires
        gray@.len() == DHASH_WIDTH * DHASH_HEIGHT,
    ensures
        hash == dhash_prefix(gray@, 64),
{
    proof {
        reveal_with_fuel(two_to, 65);
        assert(two_to(64) == 0x1_0000_0000_0000_0000);
    }
    let mut hash: u64 = 0;
    let mut n: usize = 0;
    while n < 64
        invariant
            n <= 64,
            gray@.len() == 72,
            hash == dhash_prefix(gray@, n as nat),
            two_to(64) == 0x1_0000_0000_0000_0000,
        decreases 64 - n,
    {
        let y = n / 8;
        let x = n % 8;
        assert(y * 9 + x + 1 < 72) by (nonlinear_arith)
            requires
                y == n / 8,
                x == n % 8,
                n < 64,
        ;
        let bit: u64 = if gray[y * 9 + x] > gray[y * 9 + x + 1] {
            1
        } else {
            0
        };
        proof {
            lemma_dhash_prefix_bound(gray@, (n + 1) as nat);
            lemma_two_to_monotone((n + 1) as nat, 64);
        }
        hash = hash * 2 + bit;
        n += 1;
    }
    hash
}

proof fn lemma_two_to_monotone(a: nat, b: nat)
    requires
        a <= b,
    ensures
        two_to(a) <= two_to(b),
    decreases b,
{
    if a < b {
        lemma_two_to_monotone(a, (b - 1) as nat);
    }
}

/// Number of set bits of `x` (`u64::count_ones`).
pub fn count_ones(x: u64) -> (count: u32)
    ensures
        count == popcount(x),
{
    proof {
        lemma_popcount_u64(x);
    }
    let mut rest = x;
    let mut count: u32 = 0;
    while rest != 0
        invariant
            count + popcount(rest) == popcount(x),
            popcount(x) <= 64,
        decreases rest,
    {
        count = count + (rest % 2) as u32;
        rest = rest / 2;
    }
    count
}

/// Hamming distance of two hashes.
pub open spec fn hash_distance(a: u64, b: u64) -> nat {
    popcount(a ^ b)
}

/// The close pairs `(i, k)` of one row, for `k` from `i + 1` up to `j`.
pub open spec fn row_pairs(hashes: Seq<u64>, max_distance: u32, i: int, j: int) -> Seq<(int, int, nat)>
    decreases j - i,
{
    if j <= i + 1 {
        Seq::empty()
    } else {
        let earlier = row_pairs(hashes, max_distance, i, j - 1);
        let d = hash_distance(hashes[i], hashes[j - 1]);
        if d <= max_distance {
            earlier.push((i, j - 1, d))
        } else {
            earlier
        }
    }
}

/// The close pairs of the rows before `i`, row by row.
pub open spec fn pairs_before(hashes: Seq<u64>, max_distance: u32, i: int) -> Seq<(int, int, nat)>
    decreases i,
{
    if i <= 0 {
        Seq::empty()
    } else {
        pairs_before(hashes, max_distance, i - 1) + row_pairs(hashes, max_distance, i - 1, hashes.len() as int)
    }
}

/// All pairs `(i, j)`, `i < j`, of hashes at most `max_distance` apart, in
/// the order `(0, 1), (0, 2), …, (1, 2), …`.
pub open spec fn close_pairs(hashes: Seq<u64>, max_distance: u32) -> Seq<(int, int, nat)> {
    pairs_before(hashes, max_distance, hashes.len() as int)
}

proof fn lemma_row_pairs_grow(hashes: Seq<u64>, max_distance: u32, i: int, j: int, k: int)
    requires
        i < j <= k,
    ensures
        row_pairs(hashes, max_distance, i, j).len() <= row_pairs(hashes, max_distance, i, k).len(),
    decreases k - j,
{
    if j < k {
        lemma_row_pairs_grow(hashes, max_distance, i, j, k - 1);
    }
}

proof fn lemma_pairs_before_grow(hashes: Seq<u64>, max_distance: u32, i: int, k: int)
    requires
        0 <= i <= k,
    ensures
        pairs_before(hashes, max_distance, i).len() <= pairs_before(hashes, max_distance, k).len(),
    decreases k - i,
{
    if i < k {
        lemma_pairs_before_grow(hashes, max_distance, i, k - 1);
    }
}

proof fn lemma_row_pairs_bounds(hashes: Seq<u64>, max_distance: u32, i: int, j: int)
    ensures
        forall|t: int| 0 <= t < row_pairs(hashes, max_distance, i, j).len() ==> {
            let p = #[trigger] row_pairs(hashes, max_distance, i, j)[t];
            p.0 == i && i < p.1 < j
        },
    decreases j - i,
{
    if j > i + 1 {
        lemma_row_pairs_bounds(hashes, max_distance, i, j - 1);
        let earlier = row_pairs(hashes, max_distance, i, j - 1);
        let all = row_pairs(hashes, max_distance, i, j);
        assert forall|t: int| 0 <= t < all.len() implies {
            let p = #[trigger] all[t];
            p.0 == i && i < p.1 < j
        } by {
            if t < earlier.len() {
                assert(all[t] == earlier[t]);
            }
        }
    }
}

/// `2^k - 1`, the number whose lowest `k` bits are set, has `k` set bits.
proof fn lemma_popcount_low_ones(k: nat)
    requires
        k <= 64,
    ensures
        popcount((two_to(k) - 1) as u64) == k,
    decreases k,
{
    reveal_with_fuel(two_to, 65);
    assert(two_to(64) == 0x1_0000_0000_0000_0000);
    lemma_two_to_monotone(k, 64);
    if k > 0 {
        lemma_popcount_low_ones((k - 1) as nat);
        let x = (two_to(k) - 1) as u64;
        assert(two_to(k) == 2 * two_to((k - 1) as nat));
        assert(two_to((k - 1) as nat) >= 1) by {
            lemma_two_to_monotone(0, (k - 1) as nat);
        }
        assert(x != 0);
        assert(x % 2 == 1);
        assert(x / 2 == (two_to((k - 1) as nat) - 1) as u64);
    }
}

/// Every close pair joins two images of the list, the first before the
/// second.
pub proof fn lemma_close_pairs_bounds(hashes: Seq<u64>, max_distance: u32)
    ensures
        forall|t: int| 0 <= t < close_pairs(hashes, max_distance).len() ==> {
            let p = #[trigger] close_pairs(hashes, max_distance)[t];
            0 <= p.0 < p.1 < hashes.len()
        },
{
    lemma_pairs_before_bounds(hashes, max_distance, hashes.len() as int);
}

proof fn lemma_pairs_before_bounds(hashes: Seq<u64>, max_distance: u32, i: int)
    requires
        i <= hashes.len(),
    ensures
        forall|t: int| 0 <= t < pairs_before(hashes, max_distance, i).len() ==> {
            let p = #[trigger] pairs_before(hashes, max_distance, i)[t];
            0 <= p.0 < p.1 < hashes.len()
        },
    decreases i,
{
    if i > 0 {
        lemma_pairs_before_bounds(hashes, max_distance, i - 1);
        lemma_row_pairs_bounds(hashes, max_distance, i - 1, hashes.len() as int);
        let a = pairs_before(hashes, max_distance, i - 1);
        let b = row_pairs(hashes, max_distance, i - 1, hashes.len() as int);
        assert forall|t: int| 0 <= t < (a + b).len() implies {
            let p = #[trigger] (a + b)[t];
            0 <= p.0 < p.1 < hashes.len()
        } by {
            if t >= a.len() {
                assert((a + b)[t] == b[t - a.len()]);
            } else {
                assert((a + b)[t] == a[t]);
            }
        }
    }
}

/// The error of a scan that finds too many close pairs.
pub open spec fn too_many_pairs_message() -> Seq<char> {
    "近似候选超过 10000 对，请缩小图库范围或降低距离阈值"@
}

/// The close pairs of a list of difference hashes (see [`close_pairs`]);
/// refused when there are more than 10000.
pub fn similar_index_pairs(hashes: &Vec<u64>, max_distance: u32) -> (result: Result<Vec<(usize, usize, u32)>, ToolError>)
    ensures
        match result {
            Ok(pairs) => close_pairs(hashes@, max_distance).len() <= MAX_SIMILAR_PAIRS && pairs@.len()
                == close_pairs(hashes@, max_distance).len() && forall|t: int|
                0 <= t < pairs@.len() ==> {
                    let p = #[trigger] pairs@[t];
                    let q = close_pairs(hashes@, max_distance)[t];
                    p.0 as int == q.0 && p.1 as int == q.1 && p.2 as nat == q.2
                },
            Err(e) => close_pairs(hashes@, max_distance).len() > MAX_SIMILAR_PAIRS && invalid_manifest(
                e,
                too_many_pairs_message(),
            ),
        },
{
    let ghost h = hashes@;
    let n = hashes.len();
    let ghost views = |pairs: Seq<(usize, usize, u32)>| pairs.map_values(|p: (usize, usize, u32)| (p.0 as int, p.1 as int, p.2 as nat));
    let mut pairs: Vec<(usize, usize, u32)> = Vec::new();
    let mut i: usize = 0;
    assert(views(pairs@) =~= pairs_before(h, max_distance, 0));
    while i < n
        invariant
            n == hashes.len(),
            h == hashes@,
            i <= n,
            views == (|pairs: Seq<(usize, usize, u32)>| pairs.map_values(|p: (usize, usize, u32)| (p.0 as int, p.1 as int, p.2 as nat))),
            views(pairs@) == pairs_before(h, max_distance, i as int),
            pairs@.len() <= MAX_SIMILAR_PAIRS,
        decreases n - i,
    {
        let mut j: usize = i + 1;
        assert(views(pairs@) =~= pairs_before(h, max_distance, i as int) + row_pairs(h, max_distance, i as int, j as int));
        while j < n
            invariant
                n == hashes.len(),
                h == hashes@,
                i < n,
                i + 1 <= j <= n,
                views == (|pairs: Seq<(usize, usize, u32)>| pairs.map_values(|p: (usize, usize, u32)| (p.0 as int, p.1 as int, p.2 as nat))),
                views(pairs@) == pairs_before(h, max_distance, i as int) + row_pairs(h, max_distance, i as int, j as int),
                pairs@.len() <= MAX_SIMILAR_PAIRS,
            decreases n - j,
        {
            let distance = count_ones(hashes[i] ^ hashes[j]);
            assert(distance as nat == hash_distance(h[i as int], h[j as int]));
            assert(row_pairs(h, max_distance, i as int, j + 1) == if distance <= max_distance {
                row_pairs(h, max_distance, i as int, j as int).push((i as int, j as int, distance as nat))
            } else {
                row_pairs(h, max_distance, i as int, j as int)
            });
            if distance <= max_distance {
                if pairs.len() == MAX_SIMILAR_PAIRS {
                    proof {
                        let grown = pairs_before(h, max_distance, i as int) + row_pairs(h, max_distance, i as int, j + 1);
                        assert(views(pairs@).len() == pairs@.len());
                        assert(grown.len() == MAX_SIMILAR_PAIRS + 1);
                        lemma_row_pairs_grow(h, max_distance, i as int, j + 1, n as int);
                        lemma_pairs_before_grow(h, max_distance, i + 1, n as int);
                        assert(pairs_before(h, max_distance, i + 1) == pairs_before(h, max_distance, i as int)
                            + row_pairs(h, max_distance, i as int, n as int));
                    }
                    return Err(
                        ToolError::InvalidManifest(
                            crate::text::owned("近似候选超过 10000 对，请缩小图库范围或降低距离阈值"),
                        ),
                    );
                }
                let ghost before = views(pairs@);
                pairs.push((i, j, distance));
                assert(views(pairs@) =~= before.push((i as int, j as int, distance as nat)));
            }
            j += 1;
            assert(views(pairs@) =~= pairs_before(h, max_distance, i as int) + row_pairs(h, max_distance, i as int, j as int));
        }
        i += 1;
        assert(views(pairs@) =~= pairs_before(h, max_distance, i as int));
    }
    assert forall|t: int| 0 <= t < pairs@.len() implies {
        let p = #[trigger] pairs@[t];
        let q = close_pairs(hashes@, max_distance)[t];
        p.0 as int == q.0 && p.1 as int == q.1 && p.2 as nat == q.2
    } by {
        assert(views(pairs@)[t] == (pairs@[t].0 as int, pairs@[t].1 as int, pairs@[t].2 as nat));
    }
    Ok(pairs)
}

/// The number of bit positions, among the lowest `k`, in which `a` and `b`
/// differ.
pub open spec fn differing_bits(a: u64, b: u64, k: nat) -> nat
    decreases k,
{
    if k == 0 {
        0
    } else {
        (if a % 2 != b % 2 {
            1nat
        } else {
            0nat
        }) + differing_bits(a / 2, b / 2, (k - 1) as nat)
    }
}

proof fn lemma_xor_halves(a: u64, b: u64)
    ensures
        ((a ^ b) % 2 == 1) == (a % 2 != b % 2),
        (a ^ b) / 2 == (a / 2) ^ (b / 2),
        (a ^ b == 0) == (a == b),
{
    assert(((a ^ b) % 2 == 1) == (a % 2 != b % 2)) by (bit_vector);
    assert((a ^ b) / 2 == (a / 2) ^ (b / 2)) by (bit_vector);
    assert((a ^ b == 0) == (a == b)) by (bit_vector);
}

proof fn lemma_popcount_counts_differences(a: u64, b: u64, k: nat)
    requires
        a < two_to(k),
        b < two_to(k),
    ensures
        popcount(a ^ b) == differing_bits(a, b, k),
    decreases k,
{
    lemma_xor_halves(a, b);
    if k == 0 {
        assert(a == 0 && b == 0);
        assert(a ^ b == 0);
    } else {
        assert(a / 2 < two_to((k - 1) as nat));
        assert(b / 2 < two_to((k - 1) as nat));
        lemma_popcount_counts_differences(a / 2, b / 2, (k - 1) as nat);
        if a ^ b == 0 {
            assert(a == b);
            assert((a / 2) ^ (b / 2) == 0);
        }
    }
}

/// The Hamming distance of two hashes is the number of their 64 bit
/// positions that differ.
pub proof fn lemma_hash_distance_counts_differences(a: u64, b: u64)
    ensures
        hash_distance(a, b) == differing_bits(a, b, 64),
        (hash_distance(a, b) == 0) == (a == b),
{
    reveal_with_fuel(two_to, 65);
    assert(two_to(64) == 0x1_0000_0000_0000_0000);
    lemma_popcount_counts_differences(a, b, 64);
    lemma_xor_halves(a, b);
    lemma_popcount_zero(a ^ b);
}

proof fn lemma_popcount_zero(x: u64)
    ensures
        (popcount(x) == 0) == (x == 0),
    decreases x,
{
    if x != 0 {
        lemma_popcount_zero(x / 2);
    }
}

/// `p` joins two hashes of the list, the first before the second, whose
/// bits differ in at most `max_distance` positions, and `p.2` counts them.
pub open spec fn is_close_pair(hashes: Seq<u64>, max_distance: u32, p: (int, int, nat)) -> bool {
    &&& 0 <= p.0 < p.1 < hashes.len()
    &&& p.2 == differing_bits(hashes[p.0], hashes[p.1], 64)
    &&& p.2 <= max_distance
}

proof fn lemma_row_pairs_close(hashes: Seq<u64>, max_distance: u32, i: int, j: int)
    requires
        0 <= i,
        j <= hashes.len(),
    ensures
        forall|t: int| 0 <= t < row_pairs(hashes, max_distance, i, j).len() ==> is_close_pair(
            hashes,
            max_distance,
            #[trigger] row_pairs(hashes, max_distance, i, j)[t],
        ),
        forall|k: int| i < k < j && differing_bits(hashes[i], hashes[k], 64) <= max_distance ==> #[trigger] row_pairs(
            hashes,
            max_distance,
            i,
            j,
        ).contains((i, k, differing_bits(hashes[i], hashes[k], 64))),
    decreases j - i,
{
    if j > i + 1 {
        lemma_row_pairs_close(hashes, max_distance, i, j - 1);
        lemma_hash_distance_counts_differences(hashes[i], hashes[j - 1]);
        let earlier = row_pairs(hashes, max_distance, i, j - 1);
        let all = row_pairs(hashes, max_distance, i, j);
        assert forall|t: int| 0 <= t < all.len() implies is_close_pair(hashes, max_distance, #[trigger] all[t]) by {
            if t < earlier.len() {
                assert(all[t] == earlier[t]);
            }
        }
        assert forall|k: int| i < k < j && differing_bits(hashes[i], hashes[k], 64) <= max_distance implies #[trigger] all.contains(
            (i, k, differing_bits(hashes[i], hashes[k], 64)),
        ) by {
            let q = (i, k, differing_bits(hashes[i], hashes[k], 64));
            if k < j - 1 {
                assert(earlier.contains(q));
                let t = choose|t: int| 0 <= t < earlier.len() && earlier[t] == q;
                assert(all[t] == q);
            } else {
                assert(all[all.len() - 1] == q);
            }
        }
    }
}

proof fn lemma_pairs_before_close(hashes: Seq<u64>, max_distance: u32, i: int)
    requires
        0 <= i <= hashes.len(),
    ensures
        forall|t: int| 0 <= t < pairs_before(hashes, max_distance, i).len() ==> is_close_pair(
            hashes,
            max_distance,
            #[trigger] pairs_before(hashes, max_distance, i)[t],
        ),
        forall|a: int, b: int| 0 <= a < i && a < b < hashes.len() && differing_bits(hashes[a], hashes[b], 64) <= max_distance
            ==> #[trigger] pairs_before(hashes, max_distance, i).contains((a, b, differing_bits(hashes[a], hashes[b], 64))),
    decreases i,
{
    if i > 0 {
        lemma_pairs_before_close(hashes, max_distance, i - 1);
        lemma_row_pairs_close(hashes, max_distance, i - 1, hashes.len() as int);
        let x = pairs_before(hashes, max_distance, i - 1);
        let y = row_pairs(hashes, max_distance, i - 1, hashes.len() as int);
        let all = pairs_before(hashes, max_distance, i);
        assert(all == x + y);
        assert forall|t: int| 0 <= t < all.len() implies is_close_pair(hashes, max_distance, #[trigger] all[t]) by {
            if t < x.len() {
                assert(all[t] == x[t]);
            } else {
                assert(all[t] == y[t - x.len()]);
            }
        }
        assert forall|a: int, b: int| 0 <= a < i && a < b < hashes.len() && differing_bits(hashes[a], hashes[b], 64)
            <= max_distance implies #[trigger] all.contains((a, b, differing_bits(hashes[a], hashes[b], 64))) by {
            let q = (a, b, differing_bits(hashes[a], hashes[b], 64));
            if a < i - 1 {
                assert(x.contains(q));
                let t = choose|t: int| 0 <= t < x.len() && x[t] == q;
                assert(all[t] == q);
            } else {
                assert(y.contains(q));
                let t = choose|t: int| 0 <= t < y.len() && y[t] == q;
                assert(all[x.len() + t] == q);
            }
        }
    }
}

/// `p` comes before `q` in row-major order.
pub open spec fn pair_precedes(p: (int, int, nat), q: (int, int, nat)) -> bool {
    p.0 < q.0 || (p.0 == q.0 && p.1 < q.1)
}

proof fn lemma_row_pairs_ordered(hashes: Seq<u64>, max_distance: u32, i: int, j: int)
    ensures
        forall|t: int, u: int| 0 <= t < u < row_pairs(hashes, max_distance, i, j).len() ==> pair_precedes(
            #[trigger] row_pairs(hashes, max_distance, i, j)[t],
            #[trigger] row_pairs(hashes, max_distance, i, j)[u],
        ),
    decreases j - i,
{
    lemma_row_pairs_bounds(hashes, max_distance, i, j);
    if j > i + 1 {
        lemma_row_pairs_ordered(hashes, max_distance, i, j - 1);
        lemma_row_pairs_bounds(hashes, max_distance, i, j - 1);
        let earlier = row_pairs(hashes, max_distance, i, j - 1);
        let all = row_pairs(hashes, max_distance, i, j);
        assert forall|t: int, u: int| 0 <= t < u < all.len() implies pair_precedes(#[trigger] all[t], #[trigger] all[u]) by {
            assert(all[t] == earlier[t]);
            if u < earlier.len() {
                assert(all[u] == earlier[u]);
            } else {
                assert(all[u].1 == j - 1);
            }
        }
    }
}

proof fn lemma_pairs_before_ordered(hashes: Seq<u64>, max_distance: u32, i: int)
    requires
        0 <= i <= hashes.len(),
    ensures
        forall|t: int, u: int| 0 <= t < u < pairs_before(hashes, max_distance, i).len() ==> pair_precedes(
            #[trigger] pairs_before(hashes, max_distance, i)[t],
            #[trigger] pairs_before(hashes, max_distance, i)[u],
        ),
        forall|t: int| 0 <= t < pairs_before(hashes, max_distance, i).len() ==> (#[trigger] pairs_before(
            hashes,
            max_distance,
            i,
        )[t]).0 < i,
    decreases i,
{
    if i > 0 {
        lemma_pairs_before_ordered(hashes, max_distance, i - 1);
        lemma_row_pairs_ordered(hashes, max_distance, i - 1, hashes.len() as int);
        lemma_row_pairs_bounds(hashes, max_distance, i - 1, hashes.len() as int);
        let x = pairs_before(hashes, max_distance, i - 1);
        let y = row_pairs(hashes, max_distance, i - 1, hashes.len() as int);
        let all = pairs_before(hashes, max_distance, i);
        assert(all == x + y);
        assert forall|t: int| 0 <= t < all.len() implies (#[trigger] all[t]).0 < i by {
            if t < x.len() {
                assert(all[t] == x[t]);
            } else {
                assert(all[t] == y[t - x.len()]);
            }
        }
        assert forall|t: int, u: int| 0 <= t < u < all.len() implies pair_precedes(#[trigger] all[t], #[trigger] all[u]) by {
            if u < x.len() {
                assert(all[t] == x[t] && all[u] == x[u]);
            } else if t < x.len() {
                assert(all[t] == x[t] && all[u] == y[u - x.len()]);
            } else {
                assert(all[t] == y[t - x.len()] && all[u] == y[u - x.len()]);
            }
        }
    }
}

/// The close pairs are exactly the pairs `(i, j)`, `i < j`, of hashes that
/// differ in at most `max_distance` of their 64 bit positions, each with
/// that number of differing positions as its distance: two equal hashes
/// are at distance 0, and hashes that differ in every bit at distance 64.
/// They come in row-major order `(0, 1), (0, 2), …, (1, 2), …`, so each
/// pair is listed once.
pub proof fn law_close_pairs_count_differing_bits(hashes: Seq<u64>, max_distance: u32)
    ensures
        forall|t: int| 0 <= t < close_pairs(hashes, max_distance).len() ==> is_close_pair(
            hashes,
            max_distance,
            #[trigger] close_pairs(hashes, max_distance)[t],
        ),
        forall|a: int, b: int| 0 <= a < b < hashes.len() && differing_bits(hashes[a], hashes[b], 64) <= max_distance
            ==> #[trigger] close_pairs(hashes, max_distance).contains((a, b, differing_bits(hashes[a], hashes[b], 64))),
        forall|a: u64, b: u64| #[trigger] differing_bits(a, b, 64) == 0 <==> a == b,
        forall|a: u64| #[trigger] differing_bits(a, !a, 64) == 64,
        forall|t: int, u: int| 0 <= t < u < close_pairs(hashes, max_distance).len() ==> pair_precedes(
            #[trigger] close_pairs(hashes, max_distance)[t],
            #[trigger] close_pairs(hashes, max_distance)[u],
        ),
{
    lemma_pairs_before_close(hashes, max_distance, hashes.len() as int);
    lemma_pairs_before_ordered(hashes, max_distance, hashes.len() as int);
    assert forall|a: u64, b: u64| #[trigger] differing_bits(a, b, 64) == 0 <==> a == b by {
        lemma_hash_distance_counts_differences(a, b);
    }
    assert forall|a: u64| #[trigger] differing_bits(a, !a, 64) == 64 by {
        lemma_hash_distance_counts_differences(a, !a);
        assert(a ^ !a == 0xFFFF_FFFF_FFFF_FFFFu64) by (bit_vector);
        lemma_popcount_low_ones(64);
        reveal_with_fuel(two_to, 65);
        assert(two_to(64) == 0x1_0000_0000_0000_0000);
    }
}

// ---------------------------------------------------------------------
// Clusters
// ---------------------------------------------------------------------

/// The edges of a list of close pairs.
pub open spec fn pair_edges(pairs: Seq<(usize, usize, u32)>) -> Seq<(int, int)> {
    pairs.map_values(|p: (usize, usize, u32)| (p.0 as int, p.1 as int))
}

/// Whether an edge joins `a` and `b`.
pub open spec fn linked(edges: Seq<(int, int)>, a: int, b: int) -> bool {
    exists|k: int| 0 <= k < edges.len() && ((#[trigger] edges[k]) == (a, b) || edges[k] == (b, a))
}

/// The `k`-th step of `w` follows an edge.
pub open spec fn step_ok(edges: Seq<(int, int)>, w: Seq<int>, k: int) -> bool {
    linked(edges, w[k], w[k + 1])
}

/// `w` is a walk along the edges.
pub open spec fn is_walk(edges: Seq<(int, int)>, w: Seq<int>) -> bool {
    w.len() >= 1 && forall|k: int| 0 <= k < w.len() - 1 ==> #[trigger] step_ok(edges, w, k)
}

/// `b` can be reached from `a` along the edges.
pub open spec fn reachable(edges: Seq<(int, int)>, a: int, b: int) -> bool {
    exists|w: Seq<int>| #[trigger] is_walk(edges, w) && w[0] == a && w.last() == b
}

/// `k` is the smallest image reachable from `i`: the image its cluster
/// keeps.
pub open spec fn is_cluster_keeper(edges: Seq<(int, int)>, i: int, k: int) -> bool {
    reachable(edges, i, k) && forall|j: int| #[trigger] reachable(edges, i, j) ==> k <= j
}

proof fn lemma_reach_self(edges: Seq<(int, int)>, a: int)
    ensures
        reachable(edges, a, a),
{
    let w = seq![a];
    assert(is_walk(edges, w));
}

proof fn lemma_reach_prepend(edges: Seq<(int, int)>, a: int, b: int, c: int)
    requires
        linked(edges, a, b),
        reachable(edges, b, c),
    ensures
        reachable(edges, a, c),
{
    let w = choose|w: Seq<int>| #[trigger] is_walk(edges, w) && w[0] == b && w.last() == c;
    let v = seq![a] + w;
    assert forall|k: int| 0 <= k < v.len() - 1 implies #[trigger] step_ok(edges, v, k) by {
        if k == 0 {
            assert(v[0] == a && v[1] == b);
        } else {
            assert(v[k] == w[k - 1] && v[k + 1] == w[k]);
            assert(step_ok(edges, w, k - 1));
        }
    }
    assert(is_walk(edges, v));
    assert(v.last() == c);
}

/// Every edge joins two images of the same label.
pub open spec fn labels_agree(edges: Seq<(int, int)>, labels: Seq<usize>) -> bool {
    forall|k: int| 0 <= k < edges.len() ==> labels[(#[trigger] edges[k]).0] == labels[edges[k].1]
}

proof fn lemma_walk_keeps_label(edges: Seq<(int, int)>, labels: Seq<usize>, w: Seq<int>)
    requires
        labels_agree(edges, labels),
        is_walk(edges, w),
    ensures
        labels[w[0]] == labels[w.last()],
    decreases w.len(),
{
    if w.len() > 1 {
        let rest = w.drop_first();
        assert forall|k: int| 0 <= k < rest.len() - 1 implies #[trigger] step_ok(edges, rest, k) by {
            assert(step_ok(edges, w, k + 1));
            assert(rest[k] == w[k + 1] && rest[k + 1] == w[k + 2]);
        }
        lemma_walk_keeps_label(edges, labels, rest);
        assert(step_ok(edges, w, 0));
        let k = choose|k: int| 0 <= k < edges.len() && ((#[trigger] edges[k]) == (w[0], w[1]) || edges[k] == (
            w[1],
            w[0],
        ));
        assert(labels[edges[k].0] == labels[edges[k].1]);
    }
}

/// Sum of the labels.
pub open spec fn label_sum(labels: Seq<usize>) -> int
    decreases labels.len(),
{
    if labels.len() == 0 {
        0
    } else {
        label_sum(labels.drop_last()) + labels.last()
    }
}

proof fn lemma_label_sum_update(labels: Seq<usize>, i: int, v: usize)
    requires
        0 <= i < labels.len(),
    ensures
        label_sum(labels.update(i, v)) == label_sum(labels) - labels[i] + v,
    decreases labels.len(),
{
    if i < labels.len() - 1 {
        lemma_label_sum_update(labels.drop_last(), i, v);
        assert(labels.update(i, v).drop_last() =~= labels.drop_last().update(i, v));
    } else {
        assert(labels.update(i, v).drop_last() =~= labels.drop_last());
    }
}

proof fn lemma_label_sum_nonnegative(labels: Seq<usize>)
    ensures
        label_sum(labels) >= 0,
    decreases labels.len(),
{
    if labels.len() > 0 {
        lemma_label_sum_nonnegative(labels.drop_last());
    }
}

/// Some smaller image can be reached from `i`.
pub open spec fn reaches_smaller(edges: Seq<(int, int)>, i: int) -> bool {
    exists|j: int| j < i && #[trigger] reachable(edges, i, j)
}

/// Some member entry is for image `i`.
pub open spec fn lists_member(members: Seq<(usize, usize)>, i: int) -> bool {
    exists|t: int| 0 <= t < members.len() && (#[trigger] members[t]).0 == i
}

/// Each label is at most its image and reachable from it.
pub open spec fn labels_sound(edges: Seq<(int, int)>, labels: Seq<usize>) -> bool {
    forall|i: int| 0 <= i < labels.len() ==> #[trigger] labels[i] <= i && reachable(edges, i, labels[i] as int)
}

/// The images that a cluster does not keep, each with its cluster's keeper,
/// in image order: every image that can reach a smaller one (through
/// chains of close pairs) appears, with the smallest image it can reach.
pub fn near_duplicate_members(count: usize, pairs: &Vec<(usize, usize, u32)>) -> (members: Vec<(usize, usize)>)
    requires
        forall|k: int| 0 <= k < pairs@.len() ==> (#[trigger] pairs@[k]).0 < count && pairs@[k].1 < count,
    ensures
        forall|t: int| 0 <= t < members@.len() ==> {
            let m = #[trigger] members@[t];
            m.0 < count && m.1 < m.0 && is_cluster_keeper(pair_edges(pairs@), m.0 as int, m.1 as int)
        },
        forall|t: int, u: int| 0 <= t < u < members@.len() ==> (#[trigger] members@[t]).0 < (#[trigger] members@[u]).0,
        forall|i: int| 0 <= i < count && #[trigger] reaches_smaller(pair_edges(pairs@), i) ==> lists_member(
            members@,
            i,
        ),
{
    let ghost edges = pair_edges(pairs@);
    let mut labels: Vec<usize> = Vec::new();
    let mut i: usize = 0;
    while i < count
        invariant
            i <= count,
            edges == pair_edges(pairs@),
            labels@.len() == i,
            forall|j: int| 0 <= j < i ==> #[trigger] labels@[j] == j,
        decreases count - i,
    {
        labels.push(i);
        i += 1;
    }
    assert forall|j: int| 0 <= j < labels@.len() implies #[trigger] labels@[j] <= j && reachable(
        edges,
        j,
        labels@[j] as int,
    ) by {
        lemma_reach_self(edges, j);
    }
    loop
        invariant_except_break
            labels@.len() == count,
            edges == pair_edges(pairs@),
            forall|k: int| 0 <= k < pairs@.len() ==> (#[trigger] pairs@[k]).0 < count && pairs@[k].1 < count,
            labels_sound(edges, labels@),
        ensures
            labels@.len() == count,
            labels_sound(edges, labels@),
            labels_agree(edges, labels@),
        decreases label_sum(labels@),
    {
        let ghost round_start = labels@;
        let mut changed = false;
        let mut k: usize = 0;
        while k < pairs.len()
            invariant
                k <= pairs.len(),
                labels@.len() == count,
                edges == pair_edges(pairs@),
                forall|q: int| 0 <= q < pairs@.len() ==> (#[trigger] pairs@[q]).0 < count && pairs@[q].1 < count,
                labels_sound(edges, labels@),
                !changed ==> labels@ == round_start,
                !changed ==> forall|q: int| 0 <= q < k ==> labels@[(#[trigger] edges[q]).0] == labels@[edges[q].1],
                changed ==> label_sum(labels@) < label_sum(round_start),
                label_sum(labels@) <= label_sum(round_start),
            decreases pairs.len() - k,
        {
            let a = pairs[k].0;
            let b = pairs[k].1;
            assert(edges[k as int] == (a as int, b as int));
            let la = labels[a];
            let lb = labels[b];
            if la < lb {
                proof {
                    assert(linked(edges, b as int, a as int));
                    lemma_reach_prepend(edges, b as int, a as int, la as int);
                    lemma_label_sum_update(labels@, b as int, la);
                }
                labels.set(b, la);
                changed = true;
            } else if lb < la {
                proof {
                    assert(linked(edges, a as int, b as int));
                    lemma_reach_prepend(edges, a as int, b as int, lb as int);
                    lemma_label_sum_update(labels@, a as int, lb);
                }
                labels.set(a, lb);
                changed = true;
            }
            k += 1;
        }
        if !changed {
            break;
        }
        proof {
            lemma_label_sum_nonnegative(labels@);
        }
    }
    let ghost final_labels = labels@;
    let mut members: Vec<(usize, usize)> = Vec::new();
    let mut i: usize = 0;
    while i < count
        invariant
            i <= count,
            labels@ == final_labels,
            final_labels.len() == count,
            edges == pair_edges(pairs@),
            labels_sound(edges, final_labels),
            labels_agree(edges, final_labels),
            forall|t: int| 0 <= t < members@.len() ==> {
                let m = #[trigger] members@[t];
                m.0 < i && m.1 < m.0 && m.1 == final_labels[m.0 as int]
            },
            forall|t: int, u: int| 0 <= t < u < members@.len() ==> (#[trigger] members@[t]).0 < (#[trigger] members@[u]).0,
            forall|j: int| 0 <= j < i && #[trigger] final_labels[j] < j ==> lists_member(members@, j),
        decreases count - i,
    {
        if labels[i] < i {
            let ghost before = members@;
            members.push((i, labels[i]));
            assert(members@[members@.len() - 1].0 == i);
            assert forall|j: int| 0 <= j < i + 1 && #[trigger] final_labels[j] < j implies lists_member(members@, j) by {
                if j < i {
                    let t = choose|t: int| 0 <= t < before.len() && (#[trigger] before[t]).0 == j;
                    assert(members@[t] == before[t]);
                } else {
                    assert(members@[members@.len() - 1].0 == j);
                }
            }
        }
        i += 1;
    }
    proof {
        assert forall|t: int| 0 <= t < members@.len() implies {
            let m = #[trigger] members@[t];
            m.0 < count && m.1 < m.0 && is_cluster_keeper(edges, m.0 as int, m.1 as int)
        } by {
            let m = members@[t];
            let x = m.0 as int;
            assert(final_labels[x] <= x && reachable(edges, x, final_labels[x] as int));
            assert forall|j: int| #[trigger] reachable(edges, x, j) implies m.1 <= j by {
                let w = choose|w: Seq<int>| #[trigger] is_walk(edges, w) && w[0] == x && w.last() == j;
                lemma_walk_keeps_label(edges, final_labels, w);
                lemma_walk_in_range(edges, w, count as int);
                assert(final_labels[j] <= j);
            }
        }
        assert forall|x: int| 0 <= x < count && #[trigger] reaches_smaller(edges, x) implies lists_member(
            members@,
            x,
        ) by {
            let j = choose|j: int| j < x && #[trigger] reachable(edges, x, j);
            let w = choose|w: Seq<int>| #[trigger] is_walk(edges, w) && w[0] == x && w.last() == j;
            lemma_walk_keeps_label(edges, final_labels, w);
            lemma_walk_in_range(edges, w, count as int);
            assert(final_labels[j] <= j);
            assert(final_labels[x] < x);
        }
    }
    members
}

proof fn lemma_walk_in_range(edges: Seq<(int, int)>, w: Seq<int>, n: int)
    requires
        is_walk(edges, w),
        w.len() > 1 || (0 <= w[0] < n),
        forall|k: int| 0 <= k < edges.len() ==> 0 <= (#[trigger] edges[k]).0 < n && 0 <= edges[k].1 < n,
    ensures
        0 <= w.last() < n,
{
    if w.len() > 1 {
        let k = w.len() - 2;
        assert(step_ok(edges, w, k));
        let e = choose|e: int| 0 <= e < edges.len() && ((#[trigger] edges[e]) == (w[k], w[k + 1]) || edges[e] == (
            w[k + 1],
            w[k],
        ));
        assert(edges[e].0 < n && edges[e].1 < n);
    }
}

} // verus!
