//! Laws of the materialized trace.
//!
//! These proof functions state, over the spec-level description that
//! [`crate::range::RangeChecker::into_trace`] pins every cell to, the
//! invariants every emitted trace satisfies: padding shape, segment-flag
//! monotonicity, 8-bit coverage, 16-bit endpoints and step bound, and
//! conservation of the recorded multiplicities.

use vstd::prelude::*;

use crate::model::{
    body_end, bridge_rows, l2r, lemma_pack_rows, lemma_seg16_props,
    lemma_seg8_props, pack_row_ix, pack_rows, pad_len, present, prev_present, projected, rows16,
    rows8, seg16, seg16_start, seg16_upto, seg8, seg_covers, spec_row_at, spec_t_at, wf, Row,
    SLOT_COUNT, VALUE_COUNT,
};

verus! {

/// The number of lookups one row discharges: four for selector `(1,1)`, two
/// for `(0,1)`, one for `(1,0)`, none for `(0,0)`.
pub open spec fn row_weight(r: Row) -> int {
    if r.s0 == 1 && r.s1 == 1 {
        4
    } else if r.s0 == 0 && r.s1 == 1 {
        2
    } else if r.s0 == 1 && r.s1 == 0 {
        1
    } else {
        0
    }
}

/// Total lookup weight that the rows of `rows` carrying value `x` discharge.
pub open spec fn weight_sum(rows: Seq<Row>, x: int) -> int
    decreases rows.len(),
{
    if rows.len() == 0 {
        0
    } else {
        weight_sum(rows.drop_last(), x) + if rows.last().v == x {
            row_weight(rows.last())
        } else {
            0
        }
    }
}

proof fn lemma_weight_sum_concat(a: Seq<Row>, b: Seq<Row>, x: int)
    ensures
        weight_sum(a + b, x) == weight_sum(a, x) + weight_sum(b, x),
    decreases b.len(),
{
    if b.len() == 0 {
        assert(a + b =~= a);
    } else {
        assert((a + b).drop_last() =~= a + b.drop_last());
        lemma_weight_sum_concat(a, b.drop_last(), x);
        assert((a + b).last() == b.last());
    }
}

proof fn lemma_weight_sum_uniform(rows: Seq<Row>, r0: Row, x: int)
    requires
        forall|k: int| 0 <= k < rows.len() ==> rows[k] == r0,
    ensures
        weight_sum(rows, x) == rows.len() * (if r0.v == x {
            row_weight(r0)
        } else {
            0
        }),
    decreases rows.len(),
{
    let w = if r0.v == x {
        row_weight(r0)
    } else {
        0
    };
    if rows.len() > 0 {
        lemma_weight_sum_uniform(rows.drop_last(), r0, x);
        assert(rows.len() as int * w == (rows.len() - 1) * w + w) by (nonlinear_arith);
    }
}

proof fn lemma_weight_sum_unselected(rows: Seq<Row>, x: int)
    requires
        forall|k: int| 0 <= k < rows.len() ==> (#[trigger] rows[k]).s0 == 0 && rows[k].s1 == 0,
    ensures
        weight_sum(rows, x) == 0,
    decreases rows.len(),
{
    if rows.len() > 0 {
        lemma_weight_sum_unselected(rows.drop_last(), x);
    }
}

/// The packed rows of value `v` discharge exactly `n` lookups of `v`, and
/// none of any other value.
proof fn lemma_weight_sum_pack(v: int, n: int, x: int)
    requires
        n >= 0,
    ensures
        weight_sum(pack_rows(v, n), x) == if x == v {
            n
        } else {
            0
        },
{
    lemma_pack_rows(v, n);
    if n == 0 {
        lemma_weight_sum_unselected(pack_rows(v, n), x);
    } else {
        let a = Seq::new((n / 4) as nat, |i: int| Row { s0: 1, s1: 1, v });
        let b = Seq::new(((n % 4) / 2) as nat, |i: int| Row { s0: 0, s1: 1, v });
        let d = Seq::new((n % 2) as nat, |i: int| Row { s0: 1, s1: 0, v });
        vstd::arithmetic::div_mod::lemma_mod_bound(n, 4);
        vstd::arithmetic::div_mod::lemma_mod_bound(n, 2);
        vstd::arithmetic::div_mod::lemma_mod_bound(n % 4, 2);
        vstd::arithmetic::div_mod::lemma_div_pos_is_pos(n, 4);
        vstd::arithmetic::div_mod::lemma_div_pos_is_pos(n % 4, 2);
        assert forall|i: int| 0 <= i < l2r(n) implies pack_rows(v, n)[i] == (a + b + d)[i] by {
            assert(pack_rows(v, n)[i] == pack_row_ix(v, n, i));
        }
        assert(pack_rows(v, n) =~= a + b + d);
        lemma_weight_sum_concat(a + b, d, x);
        lemma_weight_sum_concat(a, b, x);
        lemma_weight_sum_uniform(a, Row { s0: 1, s1: 1, v }, x);
        lemma_weight_sum_uniform(b, Row { s0: 0, s1: 1, v }, x);
        lemma_weight_sum_uniform(d, Row { s0: 1, s1: 0, v }, x);
        vstd::arithmetic::div_mod::lemma_fundamental_div_mod(n, 4);
        vstd::arithmetic::div_mod::lemma_fundamental_div_mod(n % 4, 2);
        vstd::arithmetic::div_mod::lemma_mod_mod(n, 2, 2);
        assert(weight_sum(pack_rows(v, n), x) == weight_sum(a, x) + weight_sum(b, x)
            + weight_sum(d, x));
        assert((n % 4) % 2 == n % 2);
        assert(4 * (n / 4) + 2 * ((n % 4) / 2) + (n % 2) == n);
        if x == v {
            assert(weight_sum(a, x) == (n / 4) * 4);
            assert(weight_sum(b, x) == ((n % 4) / 2) * 2);
            assert(weight_sum(d, x) == (n % 2) * 1);
        }
    }
}

proof fn lemma_seg16_weight(c: Seq<usize>, v: int, x: int)
    requires
        c.len() == VALUE_COUNT,
        0 <= v <= VALUE_COUNT,
        0 <= x < VALUE_COUNT,
    ensures
        weight_sum(seg16_upto(c, v), x) == if x < v && present(c, x) {
            c[x] as int
        } else {
            0
        },
    decreases v,
{
    if v > 0 {
        lemma_seg16_weight(c, v - 1, x);
        let w = v - 1;
        if present(c, w) {
            let prior = seg16_upto(c, w);
            let bridges = bridge_rows(w - crate::model::delta_at(c, w), w);
            let block = pack_rows(w, c[w] as int);
            assert(seg16_upto(c, v) == prior + bridges + block);
            lemma_weight_sum_concat(prior + bridges, block, x);
            lemma_weight_sum_concat(prior, bridges, x);
            lemma_weight_sum_unselected(bridges, x);
            lemma_weight_sum_pack(w, c[w] as int, x);
        }
    }
}

/// *Multiplicity conservation.* For every 16-bit value `x`, the lookup
/// weights of the 16-bit-segment rows carrying `x` sum to exactly the
/// multiplicity that accumulation recorded for `x`. Bridge rows and
/// endpoint rows carry selector `(0,0)` and discharge nothing.
pub proof fn lemma_multiplicity_conservation(c: Seq<usize>, x: int)
    requires
        wf(c),
        0 <= x < VALUE_COUNT,
    ensures
        weight_sum(seg16(c), x) == c[x],
{
    lemma_seg16_weight(c, VALUE_COUNT as int, x);
}

/// *Padding.* The first `pad_len` rows of a materialized trace carry all
/// zero selector and value cells, and segment flag 0.
pub proof fn lemma_padding(c: Seq<usize>, target_len: int, num_rand_rows: int)
    requires
        wf(c),
        0 <= num_rand_rows,
        projected(c) + num_rand_rows <= target_len,
    ensures
        forall|j: int|
            0 <= j < pad_len(c, target_len, num_rand_rows) ==> #[trigger] spec_row_at(
                c,
                target_len,
                num_rand_rows,
                j,
            ) == (Row { s0: 0, s1: 0, v: 0 }) && spec_t_at(c, target_len, num_rand_rows, j) == 0,
{
    lemma_seg8_props(c, SLOT_COUNT as int);
    lemma_seg16_props(c, VALUE_COUNT as int);
}

/// *Segment monotonicity.* The segment flag takes only the values 0 and 1,
/// is non-decreasing along the trace, and changes value at most once: once
/// it is 1, it stays 1.
pub proof fn lemma_segment_flag_monotone(c: Seq<usize>, target_len: int, num_rand_rows: int)
    ensures
        forall|j: int|
            spec_t_at(c, target_len, num_rand_rows, j) == 0 || #[trigger] spec_t_at(
                c,
                target_len,
                num_rand_rows,
                j,
            ) == 1,
        forall|j: int, k: int|
            j <= k ==> #[trigger] spec_t_at(c, target_len, num_rand_rows, j) <= #[trigger] spec_t_at(
                c,
                target_len,
                num_rand_rows,
                k,
            ),
{
}

/// *8-bit coverage.* The 8-bit segment's values stay within `[0, 255]`, are
/// non-decreasing, and every 8-bit value is carried by at least one row.
pub proof fn lemma_eight_bit_coverage(c: Seq<usize>)
    requires
        wf(c),
    ensures
        seg8(c).len() == rows8(c),
        forall|k: int|
            0 <= k < seg8(c).len() ==> 0 <= (#[trigger] seg8(c)[k]).v < 256,
        forall|k1: int, k2: int|
            0 <= k1 <= k2 < seg8(c).len() ==> #[trigger] seg8(c)[k1].v <= #[trigger] seg8(c)[k2].v,
        forall|s: int| 0 <= s < 256 ==> #[trigger] seg_covers(seg8(c), s),
{
    lemma_seg8_props(c, SLOT_COUNT as int);
}

/// *16-bit endpoints.* The 16-bit segment is never empty; its first row
/// carries value 0 and its last row (the last non-random row of the trace)
/// carries value 65535.
pub proof fn lemma_sixteen_bit_endpoints(c: Seq<usize>, target_len: int, num_rand_rows: int)
    requires
        wf(c),
        0 <= num_rand_rows,
        projected(c) + num_rand_rows <= target_len,
    ensures
        seg16(c).len() == rows16(c),
        rows16(c) >= 1,
        seg16(c)[0].v == 0,
        seg16(c)[seg16(c).len() - 1].v == 65535,
        spec_row_at(c, target_len, num_rand_rows, seg16_start(c, target_len, num_rand_rows)).v
            == 0,
        spec_row_at(c, target_len, num_rand_rows, body_end(target_len, num_rand_rows) - 1).v
            == 65535,
{
    lemma_seg16_props(c, VALUE_COUNT as int);
    lemma_seg8_props(c, SLOT_COUNT as int);
    assert(prev_present(c, VALUE_COUNT as int) == 65535);
}

/// *16-bit step bound.* Between consecutive non-random rows of the 16-bit
/// segment, the value never decreases and never grows by more than 255.
pub proof fn lemma_sixteen_bit_step_bound(c: Seq<usize>, target_len: int, num_rand_rows: int)
    requires
        wf(c),
        0 <= num_rand_rows,
        projected(c) + num_rand_rows <= target_len,
    ensures
        forall|j: int|
            seg16_start(c, target_len, num_rand_rows) <= j && j + 1 < body_end(
                target_len,
                num_rand_rows,
            ) ==> 0 <= (#[trigger] spec_row_at(c, target_len, num_rand_rows, j + 1)).v
                - spec_row_at(c, target_len, num_rand_rows, j).v <= 255,
{
    lemma_seg16_props(c, VALUE_COUNT as int);
    lemma_seg8_props(c, SLOT_COUNT as int);
    assert forall|j: int|
        seg16_start(c, target_len, num_rand_rows) <= j && j + 1 < body_end(
            target_len,
            num_rand_rows,
        ) implies 0 <= (#[trigger] spec_row_at(c, target_len, num_rand_rows, j + 1)).v
        - spec_row_at(c, target_len, num_rand_rows, j).v <= 255 by {
        let k = j - seg16_start(c, target_len, num_rand_rows);
        assert(spec_row_at(c, target_len, num_rand_rows, j) == seg16(c)[k]);
        assert(spec_row_at(c, target_len, num_rand_rows, j + 1) == seg16(c)[k + 1]);
    }
}

} // verus!
