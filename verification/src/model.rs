//! Mathematical model of the range checker trace.
//!
//! The accumulated lookups are modelled as a dense sequence `c` of 65536
//! multiplicities, one per 16-bit value. A value is *present* when it was
//! looked up at least once or is one of the domain endpoints 0 and 65535,
//! which are always emitted. The spec functions here describe, row by row,
//! the 8-bit and 16-bit segments of the trace that materialization emits,
//! together with the 8-bit histogram and the row counts that drive them.

use vstd::prelude::*;

verus! {

/// One trace row, less the segment flag `t` (which is determined by the
/// row's position alone): the two selector bits and the carried value.
pub ghost struct Row {
    pub s0: int,
    pub s1: int,
    pub v: int,
}

/// Number of distinct 16-bit values.
pub const VALUE_COUNT: usize = 65536;

/// Number of distinct 8-bit values.
pub const SLOT_COUNT: usize = 256;

/// Upper bound on the total number of recorded lookups, so that every row
/// count computed here provably fits in a (possibly 32-bit) `usize`.
pub const MAX_TOTAL_LOOKUPS: usize = 0x4000_0000;

/// Rows needed to discharge `n` lookups of one value: as many four-lookup
/// rows as possible, then two-lookup, then one-lookup; one row even when
/// there is no lookup, because both segments must still carry the value.
pub open spec fn l2r(n: int) -> int {
    if n <= 0 {
        1
    } else {
        n / 4 + (n % 4) / 2 + n % 2
    }
}

/// The rows that discharge `n` lookups of value `v`, in emission order:
/// four-lookup rows `(1,1)`, then two-lookup rows `(0,1)`, then one-lookup
/// rows `(1,0)`; a single `(0,0)` row when `n == 0`.
pub open spec fn pack_rows(v: int, n: int) -> Seq<Row> {
    if n <= 0 {
        seq![Row { s0: 0, s1: 0, v }]
    } else {
        Seq::new((n / 4) as nat, |i: int| Row { s0: 1, s1: 1, v })
            + Seq::new(((n % 4) / 2) as nat, |i: int| Row { s0: 0, s1: 1, v })
            + Seq::new((n % 2) as nat, |i: int| Row { s0: 1, s1: 0, v })
    }
}

/// Number of bridge rows inserted before a value whose distance to the
/// previous present value is `delta`: one per multiple of 255 strictly
/// inside the gap.
pub open spec fn nbridges(delta: int) -> int {
    if delta <= 0 {
        0
    } else if delta % 255 == 0 {
        delta / 255 - 1
    } else {
        delta / 255
    }
}

/// The bridge rows spanning the gap from `prev` (exclusive) to `value`
/// (exclusive): zero-lookup rows at `prev + 255`, `prev + 510`, ...
pub open spec fn bridge_rows(prev: int, value: int) -> Seq<Row> {
    Seq::new(nbridges(value - prev) as nat, |i: int| Row { s0: 0, s1: 0, v: prev + 255 * (i + 1) })
}

/// Whether value `v` appears in the 16-bit segment: looked up at least once,
/// or a domain endpoint.
pub open spec fn present(c: Seq<usize>, v: int) -> bool {
    v == 0 || v == VALUE_COUNT - 1 || c[v] > 0
}

/// The largest present value strictly below `w`, for `w >= 1` (0 is always
/// present, so this is well defined).
pub open spec fn prev_present(c: Seq<usize>, w: int) -> int
    decreases w,
{
    if w <= 1 {
        0
    } else if present(c, w - 1) {
        w - 1
    } else {
        prev_present(c, w - 1)
    }
}

/// The gap between value `w` and the present value before it (0 for the
/// first value of the domain).
pub open spec fn delta_at(c: Seq<usize>, w: int) -> int {
    if w <= 0 {
        0
    } else {
        w - prev_present(c, w)
    }
}

/// What one present value with multiplicity `n` at gap `delta` adds to slot
/// `slot` of the 8-bit histogram: zero-deltas between its repeated rows go
/// to slot 0, each full-width bridge to slot 255, and a nonzero remainder of
/// the gap to its own slot.
pub open spec fn slot_share(n: int, delta: int, slot: int) -> int {
    (if slot == 0 {
        l2r(n) - 1
    } else {
        0
    }) + (if slot == 255 {
        delta / 255
    } else {
        0
    }) + (if delta % 255 == slot && slot != 0 {
        1int
    } else {
        0int
    })
}

/// Histogram contributions of the present values in `[0, v)`.
pub open spec fn hist_upto(c: Seq<usize>, v: int, slot: int) -> int
    decreases v,
{
    if v <= 0 {
        0
    } else {
        hist_upto(c, v - 1, slot) + if present(c, v - 1) {
            slot_share(c[v - 1] as int, delta_at(c, v - 1), slot)
        } else {
            0
        }
    }
}

/// The 8-bit histogram: how many lookups the 8-bit segment must discharge
/// for each 8-bit value.
pub open spec fn hist(c: Seq<usize>, slot: int) -> int {
    hist_upto(c, VALUE_COUNT as int, slot)
}

/// Rows of the 16-bit segment devoted to the present values in `[0, v)`:
/// bridges plus packed lookup rows.
pub open spec fn rows16_upto(c: Seq<usize>, v: int) -> int
    decreases v,
{
    if v <= 0 {
        0
    } else {
        rows16_upto(c, v - 1) + if present(c, v - 1) {
            nbridges(delta_at(c, v - 1)) + l2r(c[v - 1] as int)
        } else {
            0
        }
    }
}

/// Total number of rows in the 16-bit segment.
pub open spec fn rows16(c: Seq<usize>) -> int {
    rows16_upto(c, VALUE_COUNT as int)
}

/// The rows of the 16-bit segment devoted to the present values in `[0, v)`.
pub open spec fn seg16_upto(c: Seq<usize>, v: int) -> Seq<Row>
    decreases v,
{
    if v <= 0 {
        Seq::empty()
    } else if present(c, v - 1) {
        seg16_upto(c, v - 1) + bridge_rows(v - 1 - delta_at(c, v - 1), v - 1) + pack_rows(
            v - 1,
            c[v - 1] as int,
        )
    } else {
        seg16_upto(c, v - 1)
    }
}

/// The full 16-bit segment: ascending present values, bridged.
pub open spec fn seg16(c: Seq<usize>) -> Seq<Row> {
    seg16_upto(c, VALUE_COUNT as int)
}

/// Rows of the 8-bit segment devoted to slots `[0, i)`.
pub open spec fn rows8_upto(c: Seq<usize>, i: int) -> int
    decreases i,
{
    if i <= 0 {
        0
    } else {
        rows8_upto(c, i - 1) + l2r(hist(c, i - 1))
    }
}

/// Total number of rows in the 8-bit segment.
pub open spec fn rows8(c: Seq<usize>) -> int {
    rows8_upto(c, SLOT_COUNT as int)
}

/// The rows of the 8-bit segment devoted to slots `[0, i)`: every 8-bit
/// value in ascending order, with as many rows as its histogram count packs
/// into.
pub open spec fn seg8_upto(c: Seq<usize>, i: int) -> Seq<Row>
    decreases i,
{
    if i <= 0 {
        Seq::empty()
    } else {
        seg8_upto(c, i - 1) + pack_rows(i - 1, hist(c, i - 1))
    }
}

/// The full 8-bit segment.
pub open spec fn seg8(c: Seq<usize>) -> Seq<Row> {
    seg8_upto(c, SLOT_COUNT as int)
}

/// Rows the 8-bit and 16-bit segments together occupy, before padding and
/// before the random tail.
pub open spec fn projected(c: Seq<usize>) -> int {
    rows8(c) + rows16(c)
}

/// Sum of the multiplicities of the values in `[0, v)`.
pub open spec fn total_upto(c: Seq<usize>, v: int) -> int
    decreases v,
{
    if v <= 0 {
        0
    } else {
        total_upto(c, v - 1) + c[v - 1]
    }
}

/// Total number of recorded lookups.
pub open spec fn total_lookups(c: Seq<usize>) -> int {
    total_upto(c, VALUE_COUNT as int)
}

/// Well-formedness of an accumulator state: one multiplicity per 16-bit
/// value, with a bounded total so every row count fits in `usize`.
pub open spec fn wf(c: Seq<usize>) -> bool {
    &&& c.len() == VALUE_COUNT
    &&& total_lookups(c) <= MAX_TOTAL_LOOKUPS
}

/// The ordered `(value, multiplicity)` pairs of the present values in
/// `[0, v)`, as surrendered in the auxiliary trace hints.
pub open spec fn pairs_upto(c: Seq<usize>, v: int) -> Seq<(u16, usize)>
    decreases v,
{
    if v <= 0 {
        Seq::empty()
    } else if present(c, v - 1) {
        pairs_upto(c, v - 1).push(((v - 1) as u16, c[v - 1]))
    } else {
        pairs_upto(c, v - 1)
    }
}

/// The ordered `(value, multiplicity)` pairs of all present values.
pub open spec fn pairs(c: Seq<usize>) -> Seq<(u16, usize)> {
    pairs_upto(c, VALUE_COUNT as int)
}

/// Whether `n` is a power of two.
pub open spec fn is_pow2(n: int) -> bool
    decreases n,
{
    if n <= 0 {
        false
    } else if n == 1 {
        true
    } else {
        n % 2 == 0 && is_pow2(n / 2)
    }
}

/// The row a given offset into `pack_rows(v, n)` carries: four-lookup rows
/// first, then two-lookup, then one-lookup.
pub open spec fn pack_row_ix(v: int, n: int, i: int) -> Row {
    if n <= 0 {
        Row { s0: 0, s1: 0, v }
    } else if i < n / 4 {
        Row { s0: 1, s1: 1, v }
    } else if i < n / 4 + (n % 4) / 2 {
        Row { s0: 0, s1: 1, v }
    } else {
        Row { s0: 1, s1: 0, v }
    }
}

/// The packed rows of one value, described offset by offset.
pub proof fn lemma_pack_rows(v: int, n: int)
    requires
        n >= 0,
    ensures
        pack_rows(v, n).len() == l2r(n),
        forall|i: int| 0 <= i < l2r(n) ==> #[trigger] pack_rows(v, n)[i] == pack_row_ix(v, n, i),
{
    lemma_l2r_bounds(n);
    if n > 0 {
        lemma_mod_bound(n, 4);
        lemma_mod_bound(n, 2);
        lemma_mod_bound(n % 4, 2);
        vstd::arithmetic::div_mod::lemma_div_pos_is_pos(n, 4);
        vstd::arithmetic::div_mod::lemma_div_pos_is_pos(n % 4, 2);
    }
}

/// Number of padding rows of a materialized trace.
pub open spec fn pad_len(c: Seq<usize>, target_len: int, num_rand_rows: int) -> int {
    target_len - num_rand_rows - projected(c)
}

/// First row of the 16-bit segment: the first row whose segment flag is 1.
pub open spec fn seg16_start(c: Seq<usize>, target_len: int, num_rand_rows: int) -> int {
    pad_len(c, target_len, num_rand_rows) + rows8(c)
}

/// First row of the random tail.
pub open spec fn body_end(target_len: int, num_rand_rows: int) -> int {
    target_len - num_rand_rows
}

/// The segment flag of row `j` of a materialized trace: 0 through the
/// padding and the 8-bit segment, 1 from the 16-bit segment on, random tail
/// included.
pub open spec fn spec_t_at(c: Seq<usize>, target_len: int, num_rand_rows: int, j: int) -> int {
    if j < seg16_start(c, target_len, num_rand_rows) {
        0
    } else {
        1
    }
}

/// The selector/value cells of row `j` of a materialized trace: zeros over
/// the padding, the 8-bit segment, the 16-bit segment, and zeros (to be
/// overwritten by the trace assembler) over the random tail.
pub open spec fn spec_row_at(c: Seq<usize>, target_len: int, num_rand_rows: int, j: int) -> Row {
    if j < pad_len(c, target_len, num_rand_rows) {
        Row { s0: 0, s1: 0, v: 0 }
    } else if j < seg16_start(c, target_len, num_rand_rows) {
        seg8(c)[j - pad_len(c, target_len, num_rand_rows)]
    } else if j < body_end(target_len, num_rand_rows) {
        seg16(c)[j - seg16_start(c, target_len, num_rand_rows)]
    } else {
        Row { s0: 0, s1: 0, v: 0 }
    }
}

/// Some row of `rows` carries the value `s`.
pub open spec fn seg_covers(rows: Seq<Row>, s: int) -> bool {
    exists|k: int| 0 <= k < rows.len() && (#[trigger] rows[k]).v == s
}

/// Shape of the 8-bit segment: one block of rows per 8-bit value, in
/// ascending order, selector bits 0 or 1, every value of `[0, i)` covered.
pub proof fn lemma_seg8_props(c: Seq<usize>, i: int)
    requires
        c.len() == VALUE_COUNT,
        0 <= i <= SLOT_COUNT,
    ensures
        seg8_upto(c, i).len() == rows8_upto(c, i),
        forall|k: int|
            0 <= k < rows8_upto(c, i) ==> {
                let row = #[trigger] seg8_upto(c, i)[k];
                0 <= row.s0 <= 1 && 0 <= row.s1 <= 1 && 0 <= row.v < i
            },
        forall|k1: int, k2: int|
            0 <= k1 <= k2 < rows8_upto(c, i) ==> #[trigger] seg8_upto(c, i)[k1].v
                <= #[trigger] seg8_upto(c, i)[k2].v,
        forall|s: int| 0 <= s < i ==> #[trigger] seg_covers(seg8_upto(c, i), s),
    decreases i,
{
    if i > 0 {
        lemma_seg8_props(c, i - 1);
        lemma_hist_upto_bounds(c, VALUE_COUNT as int, i - 1);
        lemma_l2r_bounds(hist(c, i - 1));
        lemma_pack_rows(i - 1, hist(c, i - 1));
        let prior = seg8_upto(c, i - 1);
        let block = pack_rows(i - 1, hist(c, i - 1));
        let cur = seg8_upto(c, i);
        assert(cur == prior + block);
        assert(cur.len() == rows8_upto(c, i));
        assert forall|k: int| 0 <= k < rows8_upto(c, i) implies {
            let row = #[trigger] cur[k];
            0 <= row.s0 <= 1 && 0 <= row.s1 <= 1 && 0 <= row.v < i
        } by {
            if k < prior.len() {
                assert(cur[k] == prior[k]);
            } else {
                assert(cur[k] == block[k - prior.len()]);
                assert(block[k - prior.len()] == pack_row_ix(i - 1, hist(c, i - 1), k
                    - prior.len()));
            }
        }
        assert forall|s: int| 0 <= s < i implies #[trigger] seg_covers(cur, s) by {
            if s < i - 1 {
                assert(seg_covers(prior, s));
                let k = choose|k: int| 0 <= k < prior.len() && (#[trigger] prior[k]).v == s;
                assert(cur[k] == prior[k]);
                assert(0 <= k < cur.len() && cur[k].v == s);
            } else {
                let k = prior.len() as int;
                assert(cur[k] == block[0]);
                assert(block[0] == pack_row_ix(i - 1, hist(c, i - 1), 0));
                assert(0 <= k < cur.len() && cur[k].v == s);
            }
        }
    }
}

/// Shape of the 16-bit segment over the present values below `v`: selector
/// bits 0 or 1, values ascending from 0 in steps of at most 255, ending at
/// the last present value.
pub proof fn lemma_seg16_props(c: Seq<usize>, v: int)
    requires
        c.len() == VALUE_COUNT,
        0 <= v <= VALUE_COUNT,
    ensures
        seg16_upto(c, v).len() == rows16_upto(c, v),
        forall|k: int|
            0 <= k < rows16_upto(c, v) ==> {
                let row = #[trigger] seg16_upto(c, v)[k];
                0 <= row.s0 <= 1 && 0 <= row.s1 <= 1 && 0 <= row.v < v
            },
        forall|k: int|
            0 <= k && k + 1 < rows16_upto(c, v) ==> 0 <= (#[trigger] seg16_upto(c, v)[k + 1]).v
                - seg16_upto(c, v)[k].v <= 255,
        v >= 1 ==> rows16_upto(c, v) >= 1 && seg16_upto(c, v)[0].v == 0 && seg16_upto(c, v)[
            rows16_upto(c, v) - 1].v == prev_present(c, v),
    decreases v,
{
    if v > 0 {
        lemma_seg16_props(c, v - 1);
        let w = v - 1;
        if present(c, w) {
            let n = c[w] as int;
            let delta = delta_at(c, w);
            let prev = w - delta;
            lemma_delta_at_bounds(c, w);
            lemma_nbridges_bounds(delta);
            lemma_l2r_bounds(n);
            lemma_pack_rows(w, n);
            if w >= 1 {
                lemma_prev_present_bounds(c, w);
            }
            let prior = seg16_upto(c, w);
            let bridges = bridge_rows(prev, w);
            let block = pack_rows(w, n);
            let cur = seg16_upto(c, v);
            let pl = prior.len() as int;
            let bl = bridges.len() as int;
            assert(cur == prior + bridges + block);
            assert(bl == nbridges(delta));
            assert(cur.len() == rows16_upto(c, v));
            // Every row of the two appended pieces: selector bits 0 or 1,
            // value above `prev`, value at most `w`.
            assert forall|k: int| 0 <= k < cur.len() implies {
                let row = #[trigger] cur[k];
                0 <= row.s0 <= 1 && 0 <= row.s1 <= 1 && 0 <= row.v < v
            } by {
                if k < pl {
                    assert(cur[k] == prior[k]);
                } else if k < pl + bl {
                    assert(cur[k] == bridges[k - pl]);
                    assert(255 * (k - pl + 1) <= 255 * nbridges(delta)) by (nonlinear_arith)
                        requires
                            k - pl + 1 <= nbridges(delta),
                    ;
                } else {
                    assert(cur[k] == block[k - pl - bl]);
                    assert(block[k - pl - bl] == pack_row_ix(w, n, k - pl - bl));
                }
            }
            // Junctions and steps.
            assert forall|k: int| 0 <= k && k + 1 < cur.len() implies 0 <= (#[trigger] cur[k
                + 1]).v - cur[k].v <= 255 by {
                if k + 1 < pl {
                    assert(cur[k] == prior[k] && cur[k + 1] == prior[k + 1]);
                } else if k < pl {
                    // k + 1 is the first appended row; the last prior row
                    // carries prev_present(c, w) == prev
                    assert(w >= 1);
                    assert(cur[k] == prior[k] && prior[k].v == prev_present(c, w));
                    assert(prev == prev_present(c, w));
                    if bl > 0 {
                        assert(cur[k + 1] == bridges[0]);
                        assert(bridges[0].v == prev + 255);
                    } else {
                        assert(cur[k + 1] == block[0]);
                        assert(block[0] == pack_row_ix(w, n, 0));
                        assert(delta <= 255 * (nbridges(delta) + 1));
                    }
                } else if k + 1 < pl + bl {
                    assert(cur[k] == bridges[k - pl] && cur[k + 1] == bridges[k + 1 - pl]);
                } else if k < pl + bl {
                    // k + 1 is the first packed row, k the last bridge
                    assert(cur[k] == bridges[k - pl]);
                    assert(k - pl == nbridges(delta) - 1);
                    assert(cur[k].v == prev + 255 * nbridges(delta));
                    assert(cur[k + 1] == block[0]);
                    assert(block[0] == pack_row_ix(w, n, 0));
                    assert(delta >= 1);
                } else {
                    assert(cur[k] == block[k - pl - bl] && cur[k + 1] == block[k + 1 - pl
                        - bl]);
                    assert(block[k - pl - bl] == pack_row_ix(w, n, k - pl - bl));
                    assert(block[k + 1 - pl - bl] == pack_row_ix(w, n, k + 1 - pl - bl));
                }
            }
            // Endpoints.
            if w == 0 {
                assert(cur[0] == block[0]);
                assert(block[0] == pack_row_ix(w, n, 0));
            } else {
                assert(cur[0] == prior[0]);
            }
            assert(cur[cur.len() - 1] == block[block.len() - 1]);
            assert(block[block.len() - 1] == pack_row_ix(w, n, block.len() - 1));
            assert(prev_present(c, v) == w);
        } else {
            assert(seg16_upto(c, v) == seg16_upto(c, v - 1));
            if v >= 2 {
                assert(prev_present(c, v) == prev_present(c, v - 1));
            }
        }
    }
}

// Bounds on the row counts, so materialization provably fits in `usize`
// arithmetic.

/// Packing `n` lookups always takes at least one row, at most `n` (one, when
/// there is nothing to pack).
pub proof fn lemma_l2r_bounds(n: int)
    ensures
        1 <= l2r(n),
        n >= 1 ==> l2r(n) <= n,
        n >= 0 ==> l2r(n) <= n + 1,
{
    if n >= 1 {
        lemma_fundamental_div_mod(n, 4);
        lemma_fundamental_div_mod(n % 4, 2);
        lemma_mod_bound(n, 4);
        lemma_mod_bound(n, 2);
        lemma_mod_bound(n % 4, 2);
        assert(n % 2 == (n % 4) % 2) by {
            lemma_mod_mod(n, 2, 2);
        }
    }
}

proof fn lemma_mod_mod(x: int, a: int, b: int)
    requires
        a > 0,
        b > 0,
    ensures
        (x % (a * b)) % a == x % a,
{
    vstd::arithmetic::div_mod::lemma_mod_mod(x, a, b);
}

proof fn lemma_mod_bound(x: int, d: int)
    requires
        x >= 0,
        d > 0,
    ensures
        0 <= x % d < d,
{
    vstd::arithmetic::div_mod::lemma_mod_division_less_than_divisor(x, d);
}

proof fn lemma_fundamental_div_mod(x: int, d: int)
    requires
        d != 0,
    ensures
        x == d * (x / d) + x % d,
{
    vstd::arithmetic::div_mod::lemma_fundamental_div_mod(x, d);
}

/// Sums of multiplicities are non-negative and monotone in the prefix, and
/// bound each single multiplicity.
pub proof fn lemma_total_upto_mono(c: Seq<usize>, v1: int, v2: int)
    requires
        v1 <= v2,
    ensures
        0 <= total_upto(c, v1) || v1 < 0,
        total_upto(c, v1) <= total_upto(c, v2),
    decreases v2 - v1,
{
    if v1 < v2 {
        lemma_total_upto_mono(c, v1, v2 - 1);
    }
    lemma_total_upto_nonneg(c, v1);
}

pub proof fn lemma_total_upto_nonneg(c: Seq<usize>, v: int)
    ensures
        0 <= total_upto(c, v),
    decreases v,
{
    if v > 0 {
        lemma_total_upto_nonneg(c, v - 1);
    }
}

/// A sequence of zero multiplicities has a zero total.
pub proof fn lemma_total_upto_all_zero(c: Seq<usize>, v: int)
    requires
        forall|j: int| 0 <= j < v ==> c[j] == 0,
    ensures
        total_upto(c, v) == 0,
    decreases v,
{
    if v > 0 {
        lemma_total_upto_all_zero(c, v - 1);
    }
}

pub proof fn lemma_elem_le_total(c: Seq<usize>, i: int, v: int)
    requires
        0 <= i < v,
    ensures
        c[i] <= total_upto(c, v),
    decreases v,
{
    if i == v - 1 {
        lemma_total_upto_nonneg(c, v - 1);
    } else {
        lemma_elem_le_total(c, i, v - 1);
    }
}

/// How a single increment of one multiplicity moves the prefix sums.
pub proof fn lemma_total_upto_update(c: Seq<usize>, i: int, x: usize, v: int)
    requires
        0 <= i < c.len(),
        v <= c.len(),
    ensures
        i < v ==> total_upto(c.update(i, x), v) == total_upto(c, v) - c[i] + x,
        i >= v ==> total_upto(c.update(i, x), v) == total_upto(c, v),
    decreases v,
{
    if v > 0 {
        lemma_total_upto_update(c, i, x, v - 1);
    }
}

/// The previous present value is a present value, and lies strictly below.
pub proof fn lemma_prev_present_bounds(c: Seq<usize>, w: int)
    requires
        w >= 1,
    ensures
        0 <= prev_present(c, w) < w,
        present(c, prev_present(c, w)),
    decreases w,
{
    if w > 1 && !present(c, w - 1) {
        lemma_prev_present_bounds(c, w - 1);
    }
}

/// The gap before a value is non-negative and no larger than the value.
pub proof fn lemma_delta_at_bounds(c: Seq<usize>, w: int)
    requires
        0 <= w,
    ensures
        0 <= delta_at(c, w) <= w,
{
    if w >= 1 {
        lemma_prev_present_bounds(c, w);
    }
}

/// The number of bridges over a gap `delta`, and where they stand: the last
/// bridge is strictly inside the gap, and one more step of 255 would reach
/// or pass its end.
pub proof fn lemma_nbridges_bounds(delta: int)
    requires
        0 <= delta <= 65535,
    ensures
        0 <= nbridges(delta) <= 257,
        255 * nbridges(delta) <= delta,
        delta <= 255 * (nbridges(delta) + 1),
        delta >= 1 ==> 255 * nbridges(delta) < delta,
{
    if delta >= 1 {
        lemma_fundamental_div_mod(delta, 255);
        lemma_mod_bound(delta, 255);
        vstd::arithmetic::div_mod::lemma_div_is_ordered(delta, 65535, 255);
        vstd::arithmetic::div_mod::lemma_div_pos_is_pos(delta, 255);
    }
}

/// What one present value can add to each histogram slot.
pub proof fn lemma_slot_share_bounds(n: int, delta: int, slot: int)
    requires
        0 <= n,
        0 <= delta <= 65535,
    ensures
        0 <= slot_share(n, delta, slot),
        slot == 0 ==> slot_share(n, delta, slot) <= n,
        1 <= slot <= 254 ==> slot_share(n, delta, slot) <= 1,
        slot == 255 ==> slot_share(n, delta, slot) <= 257,
{
    lemma_l2r_bounds(n);
    if delta >= 1 {
        lemma_mod_bound(delta, 255);
        vstd::arithmetic::div_mod::lemma_div_is_ordered(delta, 65535, 255);
        vstd::arithmetic::div_mod::lemma_div_pos_is_pos(delta, 255);
    }
}

/// Per-slot bounds on the 8-bit histogram: slot 0 is paid for by lookups,
/// each other slot by gaps, of which there are few.
pub proof fn lemma_hist_upto_bounds(c: Seq<usize>, v: int, slot: int)
    requires
        c.len() == VALUE_COUNT,
        0 <= v <= VALUE_COUNT,
    ensures
        0 <= hist_upto(c, v, slot),
        slot == 0 ==> hist_upto(c, v, slot) <= total_upto(c, v),
        1 <= slot <= 254 ==> hist_upto(c, v, slot) <= v,
        slot == 255 ==> hist_upto(c, v, slot) <= 257 * v,
    decreases v,
{
    if v > 0 {
        lemma_hist_upto_bounds(c, v - 1, slot);
        if present(c, v - 1) {
            lemma_delta_at_bounds(c, v - 1);
            lemma_slot_share_bounds(c[v - 1] as int, delta_at(c, v - 1), slot);
        }
        lemma_total_upto_nonneg(c, v - 1);
    }
}

/// The 16-bit segment never takes more rows than the total number of
/// lookups plus a constant share per value of the domain.
pub proof fn lemma_rows16_upto_bounds(c: Seq<usize>, v: int)
    requires
        c.len() == VALUE_COUNT,
        0 <= v <= VALUE_COUNT,
    ensures
        0 <= rows16_upto(c, v) <= total_upto(c, v) + 258 * v,
    decreases v,
{
    if v > 0 {
        lemma_rows16_upto_bounds(c, v - 1);
        if present(c, v - 1) {
            lemma_delta_at_bounds(c, v - 1);
            lemma_nbridges_bounds(delta_at(c, v - 1));
            lemma_l2r_bounds(c[v - 1] as int);
        }
    }
}

/// Prefixes of the 16-bit row count are monotone.
pub proof fn lemma_rows16_upto_mono(c: Seq<usize>, v1: int, v2: int)
    requires
        c.len() == VALUE_COUNT,
        0 <= v1 <= v2 <= VALUE_COUNT,
    ensures
        rows16_upto(c, v1) <= rows16_upto(c, v2),
    decreases v2 - v1,
{
    if v1 < v2 {
        lemma_rows16_upto_mono(c, v1, v2 - 1);
        if present(c, v2 - 1) {
            lemma_delta_at_bounds(c, v2 - 1);
            lemma_nbridges_bounds(delta_at(c, v2 - 1));
            lemma_l2r_bounds(c[v2 - 1] as int);
        }
    }
}

/// Prefixes of the 8-bit row count are monotone.
pub proof fn lemma_rows8_upto_mono(c: Seq<usize>, i1: int, i2: int)
    requires
        c.len() == VALUE_COUNT,
        0 <= i1 <= i2 <= SLOT_COUNT,
    ensures
        rows8_upto(c, i1) <= rows8_upto(c, i2),
    decreases i2 - i1,
{
    if i1 < i2 {
        lemma_rows8_upto_mono(c, i1, i2 - 1);
        lemma_l2r_bounds(hist(c, i2 - 1));
    }
}

/// The 8-bit segment never takes more rows than the total number of
/// lookups plus a constant: one row per histogram count, plus one spare row
/// per slot, with slot 255 paying for at most 257 bridges per value.
pub proof fn lemma_rows8_upto_bounds(c: Seq<usize>, i: int)
    requires
        c.len() == VALUE_COUNT,
        0 <= i <= SLOT_COUNT,
    ensures
        0 <= rows8_upto(c, i),
        rows8_upto(c, i) <= total_lookups(c) + 1 + 65537 * (if i >= 1 {
            i - 1
        } else {
            0
        }) + (if i == SLOT_COUNT {
            16842753int
        } else {
            0int
        }),
    decreases i,
{
    lemma_total_upto_nonneg(c, VALUE_COUNT as int);
    if i > 0 {
        lemma_rows8_upto_bounds(c, i - 1);
        lemma_hist_upto_bounds(c, VALUE_COUNT as int, i - 1);
        lemma_l2r_bounds(hist(c, i - 1));
    }
}

/// Rows needed to describe slots `[0, i)` of an 8-bit lookup table held as a
/// sequence of counts.
pub open spec fn sum_l2r(h: Seq<usize>, i: int) -> int
    decreases i,
{
    if i <= 0 {
        0
    } else {
        sum_l2r(h, i - 1) + l2r(h[i - 1] as int)
    }
}

/// Partial row sums are non-negative and monotone.
pub proof fn lemma_sum_l2r_mono(h: Seq<usize>, i1: int, i2: int)
    requires
        0 <= i1 <= i2,
    ensures
        0 <= sum_l2r(h, i1) <= sum_l2r(h, i2),
    decreases i2,
{
    if i2 > 0 {
        lemma_l2r_bounds(h[i2 - 1] as int);
        if i1 < i2 {
            lemma_sum_l2r_mono(h, i1, i2 - 1);
        } else {
            lemma_sum_l2r_mono(h, 0, i2 - 1);
        }
    }
}

/// On the histogram of an accumulator, the row sum is the length of the
/// 8-bit segment.
pub proof fn lemma_sum_l2r_is_rows8(c: Seq<usize>, h: Seq<usize>, i: int)
    requires
        forall|s: int| 0 <= s < i ==> #[trigger] h[s] == hist(c, s),
    ensures
        sum_l2r(h, i) == rows8_upto(c, i),
    decreases i,
{
    if i > 0 {
        lemma_sum_l2r_is_rows8(c, h, i - 1);
    }
}

/// With a well-formed accumulator every row count, padding included, fits
/// comfortably below `u32::MAX`, hence in `usize`.
pub proof fn lemma_projected_bounds(c: Seq<usize>)
    requires
        wf(c),
    ensures
        0 <= rows8(c),
        0 <= rows16(c),
        projected(c) < 0xFFFF_FFFF,
{
    lemma_rows8_upto_bounds(c, SLOT_COUNT as int);
    lemma_rows16_upto_bounds(c, VALUE_COUNT as int);
    lemma_rows16_upto_mono(c, 0, VALUE_COUNT as int);
    lemma_total_upto_nonneg(c, VALUE_COUNT as int);
}

} // verus!
