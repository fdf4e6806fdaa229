use vstd::prelude::*;

verus! {

/// A set of pressed keys: one bit per key, zero when no key is pressed.
pub type Button = u16;

/// The named key bits of a telephone-style 4x4 keypad.
pub struct Buttons {
    _p: (),
}

#[allow(non_upper_case_globals)]
impl Buttons {
    pub const NoKey: Button = 0;

    pub const One: Button = 0x0001;
    pub const Two: Button = 0x0002;
    pub const Three: Button = 0x0004;
    pub const A: Button = 0x0008;

    pub const Four: Button = 0x0010;
    pub const Five: Button = 0x0020;
    pub const Six: Button = 0x0040;
    pub const B: Button = 0x0080;

    pub const Seven: Button = 0x0100;
    pub const Eight: Button = 0x0200;
    pub const Nine: Button = 0x0400;
    pub const C: Button = 0x0800;

    pub const Star: Button = 0x1000;
    pub const Zero: Button = 0x2000;
    pub const Hash: Button = 0x4000;
    pub const D: Button = 0x8000;
}

/// Key bits by position: `layout[row][col]` is the key at that intersection.
pub type Layout = [[Button; 4]; 4];

/// The standard keypad legend, row by row.
pub const LAYOUT: Layout = [
    [Buttons::One, Buttons::Two, Buttons::Three, Buttons::A],
    [Buttons::Four, Buttons::Five, Buttons::Six, Buttons::B],
    [Buttons::Seven, Buttons::Eight, Buttons::Nine, Buttons::C],
    [Buttons::Star, Buttons::Zero, Buttons::Hash, Buttons::D],
];

/// The key bit contributed by one intersection: its key if it was seen high.
pub open spec fn pick(key: Button, hit: bool) -> Button {
    if hit {
        key
    } else {
        0
    }
}

/// The keys of one row seen high among its first `n` columns, OR-ed together.
pub open spec fn row_bits(keys: [Button; 4], hits: Seq<bool>, n: int) -> Button
    decreases n,
{
    if n <= 0 {
        0
    } else {
        row_bits(keys, hits, n - 1) | pick(keys[n - 1], hits[n - 1])
    }
}

/// The keys seen high in the first `n` rows, where `hits[r][c]` says that
/// column `c` read high while row `r` was asserted.
pub open spec fn scan_bits(layout: Layout, hits: Seq<Seq<bool>>, n: int) -> Button
    decreases n,
{
    if n <= 0 {
        0
    } else {
        scan_bits(layout, hits, n - 1) | row_bits(layout[n - 1], hits[n - 1], 4)
    }
}

/// The mask a full scan reports for the intersections seen high.
pub open spec fn scan_mask(layout: Layout, hits: Seq<Seq<bool>>) -> Button {
    scan_bits(layout, hits, 4)
}

/// A row none of whose first `n` columns was seen high contributes no key.
pub proof fn lemma_row_quiet(keys: [Button; 4], hits: Seq<bool>, n: int)
    requires
        n <= hits.len(),
        forall|c: int| 0 <= c < n ==> !#[trigger] hits[c],
    ensures
        row_bits(keys, hits, n) == 0,
    decreases n,
{
    if n > 0 {
        lemma_row_quiet(keys, hits, n - 1);
        assert(0u16 | 0u16 == 0u16) by (bit_vector);
    }
}

/// `hits` is a 4x4 grid of intersections.
pub open spec fn is_grid(hits: Seq<Seq<bool>>) -> bool {
    &&& hits.len() == 4
    &&& forall|r: int| 0 <= r < 4 ==> #[trigger] hits[r].len() == 4
}

/// Of the first `n` columns of a row, only columns `c1` and `c2` (possibly the
/// same) were seen high: the row reports exactly their keys.
proof fn lemma_row_pair(keys: [Button; 4], hits: Seq<bool>, c1: int, c2: int, n: int)
    requires
        0 <= n <= hits.len(),
        n <= 4,
        0 <= c1 < 4,
        0 <= c2 < 4,
        forall|c: int| 0 <= c < n ==> #[trigger] hits[c] == (c == c1 || c == c2),
    ensures
        row_bits(keys, hits, n) == (if n > c1 {
            keys[c1]
        } else {
            0
        }) | (if n > c2 {
            keys[c2]
        } else {
            0
        }),
    decreases n,
{
    if n > 0 {
        lemma_row_pair(keys, hits, c1, c2, n - 1);
        let k1 = keys[c1];
        let k2 = keys[c2];
        assert(0u16 | 0u16 == 0u16) by (bit_vector);
        assert(k1 | 0u16 == k1) by (bit_vector);
        assert(0u16 | k2 == k2) by (bit_vector);
        assert((0u16 | 0u16) | k1 == k1 | 0u16) by (bit_vector);
        assert((0u16 | 0u16) | k1 == k1) by (bit_vector);
        assert((0u16 | k2) | k1 == k1 | k2) by (bit_vector);
        assert((k1 | 0u16) | k2 == k1 | k2) by (bit_vector);
        assert((k1 | k2) | 0u16 == k1 | k2) by (bit_vector);
        assert((k1 | 0u16) | 0u16 == k1 | 0u16) by (bit_vector);
        assert((0u16 | k2) | 0u16 == 0u16 | k2) by (bit_vector);
        assert((0u16 | 0u16) | k2 == 0u16 | k2) by (bit_vector);
        assert(k1 | k1 == k1) by (bit_vector);
        assert((k1 | 0u16) | k1 == k1 | k1) by (bit_vector);
    } else {
        assert(0u16 | 0u16 == 0u16) by (bit_vector);
    }
}

/// When no row but `r` saw a key, the first `n` rows report row `r`'s keys,
/// or nothing if `r` is not among them.
proof fn lemma_scan_one_row(layout: Layout, hits: Seq<Seq<bool>>, r: int, n: int)
    requires
        is_grid(hits),
        0 <= r < 4,
        n <= 4,
        forall|k: int, c: int| 0 <= k < 4 && 0 <= c < 4 && k != r ==> !#[trigger] hits[k][c],
    ensures
        scan_bits(layout, hits, n) == if n > r {
            row_bits(layout[r], hits[r], 4)
        } else {
            0
        },
    decreases n,
{
    if n > 0 {
        lemma_scan_one_row(layout, hits, r, n - 1);
        let row = row_bits(layout[r], hits[r], 4);
        if n - 1 != r {
            lemma_row_quiet(layout[n - 1], hits[n - 1], 4);
        }
        assert(0u16 | 0u16 == 0u16) by (bit_vector);
        assert(0u16 | row == row) by (bit_vector);
        assert(row | 0u16 == row) by (bit_vector);
    }
}

/// Row isolation: a key seen only while row `r` was asserted is attributed to
/// row `r` alone, so the scan reports exactly that row's keys.
pub proof fn law_row_isolation(layout: Layout, hits: Seq<Seq<bool>>, r: int)
    requires
        is_grid(hits),
        0 <= r < 4,
        forall|k: int, c: int| 0 <= k < 4 && 0 <= c < 4 && k != r ==> !#[trigger] hits[k][c],
    ensures
        scan_mask(layout, hits) == row_bits(layout[r], hits[r], 4),
{
    lemma_scan_one_row(layout, hits, r, 4);
}

/// A single key: when only the intersection of row `r` and column `c` was
/// seen high, the scan reports exactly that key's bit.
pub proof fn law_single_key(layout: Layout, hits: Seq<Seq<bool>>, r: int, c: int)
    requires
        is_grid(hits),
        0 <= r < 4,
        0 <= c < 4,
        forall|k: int, j: int| 0 <= k < 4 && 0 <= j < 4 ==> #[trigger] hits[k][j] == (k == r && j == c),
    ensures
        scan_mask(layout, hits) == layout[r][c],
{
    law_row_isolation(layout, hits, r);
    lemma_row_pair(layout[r], hits[r], c, c, 4);
    let key = layout[r][c];
    assert(key | key == key) by (bit_vector);
}

/// Two keys held on one row: when only columns `c1` and `c2` read high under
/// row `r`, the scan reports the OR of their two bits.
pub proof fn law_same_row_pair(layout: Layout, hits: Seq<Seq<bool>>, r: int, c1: int, c2: int)
    requires
        is_grid(hits),
        0 <= r < 4,
        0 <= c1 < 4,
        0 <= c2 < 4,
        forall|k: int, j: int|
            0 <= k < 4 && 0 <= j < 4 ==> #[trigger] hits[k][j] == (k == r && (j == c1 || j == c2)),
    ensures
        scan_mask(layout, hits) == layout[r][c1] | layout[r][c2],
{
    law_row_isolation(layout, hits, r);
    lemma_row_pair(layout[r], hits[r], c1, c2, 4);
}

/// The mask of the first `n` rows reads only the hits of those rows.
pub(crate) proof fn lemma_scan_frame(layout: Layout, h1: Seq<Seq<bool>>, h2: Seq<Seq<bool>>, n: int)
    requires
        forall|r: int| 0 <= r < n ==> #[trigger] h1[r] == h2[r],
    ensures
        scan_bits(layout, h1, n) == scan_bits(layout, h2, n),
    decreases n,
{
    if n > 0 {
        lemma_scan_frame(layout, h1, h2, n - 1);
    }
}

/// Combines the column levels sampled under one row into that row's key mask.
pub fn row_mask(keys: &[Button; 4], levels: &[bool; 4]) -> (m: Button)
    ensures
        m == row_bits(*keys, levels@, 4),
{
    let mut m: Button = Buttons::NoKey;
    let mut c: usize = 0;
    while c < 4
        invariant
            c <= 4,
            m == row_bits(*keys, levels@, c as int),
        decreases 4 - c,
    {
        if levels[c] {
            m = m | keys[c];
        } else {
            proof {
                let x = m;
                assert(x | 0u16 == x) by (bit_vector);
            }
        }
        c = c + 1;
    }
    m
}

} // verus!
