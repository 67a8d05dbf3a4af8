//! The range checker: accumulation of 16-bit lookups and materialization of
//! the four-column execution trace.
//!
//! The checker does not verify that a value fits in 16 bits (the caller
//! guarantees this by type); it records how many times each value was looked
//! up, and is then consumed to emit a trace whose 8-bit segment enumerates
//! every 8-bit value in ascending order and whose 16-bit segment walks the
//! looked-up values in ascending order, at most 255 apart, discharging each
//! recorded lookup through the selector bits `(s0, s1)`.

use vstd::prelude::*;

use crate::felt::{felt_from_u64, felt_val, FELT_MODULUS};
use crate::model::{
    body_end, bridge_rows, delta_at, hist, hist_upto, is_pow2, l2r, lemma_seg16_props,
    lemma_seg8_props, lemma_sum_l2r_is_rows8, lemma_sum_l2r_mono, pad_len, seg16_start,
    spec_row_at, spec_t_at, sum_l2r,
    lemma_delta_at_bounds, lemma_elem_le_total, lemma_hist_upto_bounds, lemma_l2r_bounds,
    lemma_nbridges_bounds, lemma_pack_rows, lemma_prev_present_bounds, lemma_projected_bounds,
    lemma_rows16_upto_bounds, lemma_rows16_upto_mono, lemma_rows8_upto_bounds,
    lemma_rows8_upto_mono, lemma_slot_share_bounds, lemma_total_upto_all_zero,
    lemma_total_upto_mono, lemma_total_upto_update, nbridges,
    pack_row_ix, pack_rows, pairs, pairs_upto, present, prev_present, projected, rows16,
    rows16_upto, rows8, rows8_upto, seg16, seg16_upto, seg8, seg8_upto,
    total_lookups, wf, Row, MAX_TOTAL_LOOKUPS, SLOT_COUNT, VALUE_COUNT,
};

verus! {

/// Returns quotient and remainder of dividing the provided value by the
/// divisor.
pub fn div_rem(value: usize, divisor: usize) -> (r: (usize, usize))
    requires
        divisor != 0,
    ensures
        r.0 == value as int / divisor as int,
        r.1 == value as int % divisor as int,
{
    let q = value / divisor;
    let r = value % divisor;
    (q, r)
}

/// Returns the number of rows needed to perform the specified number of
/// lookups for a value: rows of four lookups first, then two, then one.
/// Even zero lookups take one row, because both segments must still carry
/// every value they enumerate.
pub fn lookups_to_rows(num_lookups: usize) -> (r: usize)
    ensures
        r == l2r(num_lookups as int),
{
    if num_lookups == 0 {
        1
    } else {
        proof {
            lemma_l2r_bounds(num_lookups as int);
        }
        let (num_rows4, rem4) = div_rem(num_lookups, 4);
        let (num_rows2, num_rows1) = div_rem(rem4, 2);
        num_rows4 + num_rows2 + num_rows1
    }
}

/// The four working columns of the trace, holding the integer values that
/// are converted into field elements once materialization is complete.
pub struct TraceColumns {
    pub t: Vec<u64>,
    pub s0: Vec<u64>,
    pub s1: Vec<u64>,
    pub v: Vec<u64>,
}

/// All four columns have length `n`.
pub open spec fn cols_wf(tc: TraceColumns, n: int) -> bool {
    &&& tc.t@.len() == n
    &&& tc.s0@.len() == n
    &&& tc.s1@.len() == n
    &&& tc.v@.len() == n
}

/// The selector/value rows carried by the half-open row range `[lo, hi)`.
pub open spec fn rows_of(tc: TraceColumns, lo: int, hi: int) -> Seq<Row> {
    Seq::new(
        (hi - lo) as nat,
        |i: int|
            Row {
                s0: tc.s0@[lo + i] as int,
                s1: tc.s1@[lo + i] as int,
                v: tc.v@[lo + i] as int,
            },
    )
}

/// The selector and value cells of `a` agree with those of `b` everywhere
/// outside the row range `[lo, hi)`.
pub open spec fn cols_eq_outside(a: TraceColumns, b: TraceColumns, lo: int, hi: int) -> bool {
    &&& forall|j: int|
        0 <= j < b.s0@.len() && !(lo <= j < hi) ==> #[trigger] a.s0@[j] == b.s0@[j]
    &&& forall|j: int|
        0 <= j < b.s1@.len() && !(lo <= j < hi) ==> #[trigger] a.s1@[j] == b.s1@[j]
    &&& forall|j: int| 0 <= j < b.v@.len() && !(lo <= j < hi) ==> #[trigger] a.v@[j] == b.v@[j]
}

/// Populates a single row at the specified step in the trace table. This
/// does not write the first column of the trace (the segment flag), because
/// that column is written in bulk.
pub fn write_trace_row(trace: &mut TraceColumns, step: &mut usize, s0: u64, s1: u64, value: u64)
    requires
        old(trace).s0@.len() == old(trace).t@.len(),
        old(trace).s1@.len() == old(trace).t@.len(),
        old(trace).v@.len() == old(trace).t@.len(),
        *old(step) < old(trace).t@.len(),
    ensures
        cols_wf(*final(trace), old(trace).t@.len() as int),
        final(trace).t@ == old(trace).t@,
        final(trace).s0@ == old(trace).s0@.update(*old(step) as int, s0),
        final(trace).s1@ == old(trace).s1@.update(*old(step) as int, s1),
        final(trace).v@ == old(trace).v@.update(*old(step) as int, value),
        *final(step) == *old(step) + 1,
{
    let i = *step;
    trace.s0[i] = s0;
    trace.s1[i] = s1;
    trace.v[i] = value;
    proof {
        assert(i < trace.v.len());
    }
    *step = i + 1;
}

/// Populates the trace with the rows needed to support the specified number
/// of lookups against the specified value: the rows of `pack_rows`, at the
/// moving cursor `step`.
pub fn write_value(trace: &mut TraceColumns, step: &mut usize, num_lookups: usize, value: u64)
    requires
        old(trace).s0@.len() == old(trace).t@.len(),
        old(trace).s1@.len() == old(trace).t@.len(),
        old(trace).v@.len() == old(trace).t@.len(),
        *old(step) + l2r(num_lookups as int) <= old(trace).t@.len(),
    ensures
        cols_wf(*final(trace), old(trace).t@.len() as int),
        final(trace).t@ == old(trace).t@,
        *final(step) == *old(step) + l2r(num_lookups as int),
        cols_eq_outside(*final(trace), *old(trace), *old(step) as int, *final(step) as int),
        rows_of(*final(trace), *old(step) as int, *final(step) as int) == pack_rows(
            value as int,
            num_lookups as int,
        ),
{
    let ghost t0 = *trace;
    let ghost step0 = *old(step) as int;
    let ghost n = num_lookups as int;
    proof {
        lemma_l2r_bounds(n);
        lemma_pack_rows(value as int, n);
    }
    if num_lookups == 0 {
        write_trace_row(trace, step, 0, 0, value);
        proof {
            assert(rows_of(*trace, step0, *step as int) =~= pack_rows(value as int, n));
        }
        return ;
    }
    let (num_rows4, rem4) = div_rem(num_lookups, 4);
    let (num_rows2, num_rows1) = div_rem(rem4, 2);
    proof {
        vstd::arithmetic::div_mod::lemma_mod_mod(n, 2, 2);
        assert(num_rows1 == n % 2);
    }
    let ghost r4end = step0 + n / 4;
    let ghost r2end = step0 + n / 4 + (n % 4) / 2;
    let mut k: usize = 0;
    while k < num_rows4
        invariant
            num_lookups >= 1,
            n == num_lookups as int,
            num_rows4 == n / 4,
            k <= num_rows4,
            0 <= step0,
            *step == step0 + k,
            step0 + l2r(n) <= t0.t@.len(),
            l2r(n) == n / 4 + (n % 4) / 2 + n % 2,
            cols_wf(*trace, t0.t@.len() as int),
            cols_wf(t0, t0.t@.len() as int),
            trace.t@ == t0.t@,
            cols_eq_outside(*trace, t0, step0, *step as int),
            forall|j: int| #![trigger trace.s0@[j]] step0 <= j < *step ==> trace.s0@[j] == 1u64,
            forall|j: int| #![trigger trace.s1@[j]] step0 <= j < *step ==> trace.s1@[j] == 1u64,
            forall|j: int| #![trigger trace.v@[j]] step0 <= j < *step ==> trace.v@[j] == value,
        decreases num_rows4 - k,
    {
        write_trace_row(trace, step, 1, 1, value);
        k += 1;
    }
    let mut k: usize = 0;
    while k < num_rows2
        invariant
            num_lookups >= 1,
            n == num_lookups as int,
            num_rows2 == (n % 4) / 2,
            k <= num_rows2,
            0 <= step0,
            *step == r4end + k,
            r4end == step0 + n / 4,
            step0 + l2r(n) <= t0.t@.len(),
            l2r(n) == n / 4 + (n % 4) / 2 + n % 2,
            cols_wf(*trace, t0.t@.len() as int),
            cols_wf(t0, t0.t@.len() as int),
            trace.t@ == t0.t@,
            cols_eq_outside(*trace, t0, step0, *step as int),
            forall|j: int| #![trigger trace.s0@[j]] step0 <= j < r4end ==> trace.s0@[j] == 1u64,
            forall|j: int| #![trigger trace.s1@[j]] step0 <= j < r4end ==> trace.s1@[j] == 1u64,
            forall|j: int| #![trigger trace.v@[j]] step0 <= j < r4end ==> trace.v@[j] == value,
            forall|j: int| #![trigger trace.s0@[j]] r4end <= j < *step ==> trace.s0@[j] == 0u64,
            forall|j: int| #![trigger trace.s1@[j]] r4end <= j < *step ==> trace.s1@[j] == 1u64,
            forall|j: int| #![trigger trace.v@[j]] r4end <= j < *step ==> trace.v@[j] == value,
        decreases num_rows2 - k,
    {
        write_trace_row(trace, step, 0, 1, value);
        k += 1;
    }
    let mut k: usize = 0;
    while k < num_rows1
        invariant
            num_lookups >= 1,
            n == num_lookups as int,
            num_rows1 == n % 2,
            k <= num_rows1,
            0 <= step0,
            *step == r2end + k,
            r4end == step0 + n / 4,
            r2end == step0 + n / 4 + (n % 4) / 2,
            step0 + l2r(n) <= t0.t@.len(),
            l2r(n) == n / 4 + (n % 4) / 2 + n % 2,
            cols_wf(*trace, t0.t@.len() as int),
            cols_wf(t0, t0.t@.len() as int),
            trace.t@ == t0.t@,
            cols_eq_outside(*trace, t0, step0, *step as int),
            forall|j: int| #![trigger trace.s0@[j]] step0 <= j < r4end ==> trace.s0@[j] == 1u64,
            forall|j: int| #![trigger trace.s1@[j]] step0 <= j < r4end ==> trace.s1@[j] == 1u64,
            forall|j: int| #![trigger trace.v@[j]] step0 <= j < r4end ==> trace.v@[j] == value,
            forall|j: int| #![trigger trace.s0@[j]] r4end <= j < r2end ==> trace.s0@[j] == 0u64,
            forall|j: int| #![trigger trace.s1@[j]] r4end <= j < r2end ==> trace.s1@[j] == 1u64,
            forall|j: int| #![trigger trace.v@[j]] r4end <= j < r2end ==> trace.v@[j] == value,
            forall|j: int| #![trigger trace.s0@[j]] r2end <= j < *step ==> trace.s0@[j] == 1u64,
            forall|j: int| #![trigger trace.s1@[j]] r2end <= j < *step ==> trace.s1@[j] == 0u64,
            forall|j: int| #![trigger trace.v@[j]] r2end <= j < *step ==> trace.v@[j] == value,
        decreases num_rows1 - k,
    {
        write_trace_row(trace, step, 1, 0, value);
        k += 1;
    }
    proof {
        assert forall|i: int| 0 <= i < l2r(n) implies rows_of(*trace, step0, *step as int)[i]
            == pack_rows(value as int, n)[i] by {
            assert(pack_rows(value as int, n)[i] == pack_row_ix(value as int, n, i));
        }
        assert(rows_of(*trace, step0, *step as int) =~= pack_rows(value as int, n));
    }
}

/// Range checker for the VM.
///
/// Tracks the lookup count of each 16-bit value the VM reports, as a dense
/// table of multiplicities. The entries for 0 and 65535 are conceptually
/// always present (a zero count means "endpoint, never looked up"), so the
/// 16-bit segment of the emitted trace always spans the full domain.
pub struct RangeChecker {
    /// Lookup count for each of the 65536 checkable values.
    lookups: Vec<usize>,
}

impl View for RangeChecker {
    type V = Seq<usize>;

    closed spec fn view(&self) -> Seq<usize> {
        self.lookups@
    }
}

impl RangeChecker {
    /// Returns a new [`RangeChecker`] with an empty lookup table: every
    /// multiplicity zero, the domain endpoints present by construction.
    pub fn new() -> (r: Self)
        ensures
            wf(r@),
            total_lookups(r@) == 0,
            forall|i: int| 0 <= i < VALUE_COUNT ==> r@[i] == 0,
    {
        let mut lookups: Vec<usize> = Vec::with_capacity(VALUE_COUNT);
        let mut i: usize = 0;
        while i < VALUE_COUNT
            invariant
                i <= VALUE_COUNT,
                lookups@.len() == i,
                forall|j: int| 0 <= j < i ==> lookups@[j] == 0,
            decreases VALUE_COUNT - i,
        {
            lookups.push(0);
            i += 1;
        }
        proof {
            lemma_total_upto_all_zero(lookups@, VALUE_COUNT as int);
        }
        Self { lookups }
    }

    /// Adds the specified value to the trace of this range checker: its
    /// multiplicity rises by one, every other multiplicity is unchanged.
    /// The bound on the total keeps all later row arithmetic inside `usize`.
    pub fn add_value(&mut self, value: u16)
        requires
            wf(old(self)@),
            total_lookups(old(self)@) < MAX_TOTAL_LOOKUPS,
        ensures
            wf(final(self)@),
            final(self)@ == old(self)@.update(
                value as int,
                (old(self)@[value as int] + 1) as usize,
            ),
            total_lookups(final(self)@) == total_lookups(old(self)@) + 1,
    {
        let idx = value as usize;
        proof {
            lemma_elem_le_total(self@, idx as int, VALUE_COUNT as int);
        }
        let cur = self.lookups[idx];
        self.lookups[idx] = cur + 1;
        proof {
            lemma_total_upto_update(old(self)@, idx as int, (cur + 1) as usize, VALUE_COUNT as int);
        }
    }

    /// Returns the length of the execution trace required to describe all
    /// 16-bit range checks performed so far: the rows of the 8-bit segment
    /// plus the rows of the 16-bit segment, before padding and before the
    /// random tail.
    pub fn trace_len(&self) -> (r: usize)
        requires
            wf(self@),
        ensures
            r == projected(self@),
    {
        let (lookups_8bit, num_16bit_rows) = self.build_8bit_lookup();
        proof {
            lemma_sum_l2r_is_rows8(self@, lookups_8bit@, SLOT_COUNT as int);
            lemma_projected_bounds(self@);
        }
        let num_8bit_rows = get_num_8bit_rows(&lookups_8bit);
        num_8bit_rows + num_16bit_rows
    }

    /// Builds the 8-bit lookup table required to support all 16-bit lookups
    /// currently recorded, and returns it together with the number of
    /// 16-bit table rows needed to support those lookups.
    fn build_8bit_lookup(&self) -> (r: (Vec<usize>, usize))
        requires
            wf(self@),
        ensures
            r.0@.len() == SLOT_COUNT,
            forall|s: int| 0 <= s < SLOT_COUNT ==> r.0@[s] == hist(self@, s),
            r.1 == rows16(self@),
    {
        let ghost c = self@;
        let mut result: Vec<usize> = Vec::with_capacity(SLOT_COUNT);
        let mut i: usize = 0;
        while i < SLOT_COUNT
            invariant
                i <= SLOT_COUNT,
                result@.len() == i,
                forall|j: int| 0 <= j < i ==> result@[j] == 0,
            decreases SLOT_COUNT - i,
        {
            result.push(0);
            i += 1;
        }
        let mut num_16bit_rows: usize = 0;
        let mut prev_value: usize = 0;
        let mut value: usize = 0;
        while value < VALUE_COUNT
            invariant
                wf(c),
                c == self@,
                value <= VALUE_COUNT,
                prev_value <= value,
                prev_value < VALUE_COUNT,
                value == 0 ==> prev_value == 0,
                value >= 1 ==> prev_value == prev_present(c, value as int),
                result@.len() == SLOT_COUNT,
                forall|s: int|
                    0 <= s < SLOT_COUNT ==> #[trigger] result@[s] == hist_upto(c, value as int, s),
                num_16bit_rows == rows16_upto(c, value as int),
            decreases VALUE_COUNT - value,
        {
            let ghost v = value as int;
            let count = self.lookups[value];
            if value == 0 || value == VALUE_COUNT - 1 || count > 0 {
                proof {
                    assert(present(c, v));
                    if v >= 1 {
                        lemma_prev_present_bounds(c, v);
                    }
                    assert(delta_at(c, v) == value - prev_value);
                    lemma_delta_at_bounds(c, v);
                    lemma_l2r_bounds(count as int);
                    lemma_total_upto_mono(c, v + 1, VALUE_COUNT as int);
                    lemma_hist_upto_bounds(c, v + 1, 0);
                    lemma_hist_upto_bounds(c, v + 1, 255);
                    lemma_hist_upto_bounds(c, v + 1, delta_at(c, v) % 255);
                    lemma_rows16_upto_bounds(c, v + 1);
                    lemma_slot_share_bounds(count as int, delta_at(c, v), 0);
                    lemma_slot_share_bounds(count as int, delta_at(c, v), 255);
                    lemma_slot_share_bounds(count as int, delta_at(c, v), delta_at(c, v) % 255);
                }
                let num_rows = lookups_to_rows(count);
                let r0 = result[0];
                result[0] = r0 + (num_rows - 1);
                num_16bit_rows = num_16bit_rows + num_rows;
                let delta = value - prev_value;
                let (delta_q, delta_r) = div_rem(delta, 255);
                if delta_q != 0 {
                    let r255 = result[255];
                    result[255] = r255 + delta_q;
                    let num_bridge_rows = if delta_r == 0 {
                        delta_q - 1
                    } else {
                        delta_q
                    };
                    num_16bit_rows = num_16bit_rows + num_bridge_rows;
                }
                if delta_r != 0 {
                    let rr = result[delta_r];
                    result[delta_r] = rr + 1;
                }
                prev_value = value;
                proof {
                    assert(num_16bit_rows == rows16_upto(c, v + 1));
                    assert forall|s: int| 0 <= s < SLOT_COUNT implies #[trigger] result@[s]
                        == hist_upto(c, v + 1, s) by {
                        lemma_slot_share_bounds(count as int, delta_at(c, v), s);
                    }
                }
            }
            value += 1;
        }
        (result, num_16bit_rows)
    }
}

impl Default for RangeChecker {
    /// An empty range checker, as [`RangeChecker::new`] returns.
    fn default() -> (r: Self)
        ensures
            wf(r@),
            total_lookups(r@) == 0,
            forall|i: int| 0 <= i < VALUE_COUNT ==> r@[i] == 0,
    {
        Self::new()
    }
}

/// Returns the number of trace rows needed to describe the specified 8-bit
/// lookup table: one packed run of rows per slot.
pub fn get_num_8bit_rows(lookups: &Vec<usize>) -> (r: usize)
    requires
        lookups@.len() == SLOT_COUNT,
        sum_l2r(lookups@, SLOT_COUNT as int) <= usize::MAX,
    ensures
        r == sum_l2r(lookups@, SLOT_COUNT as int),
{
    let mut result: usize = 0;
    let mut i: usize = 0;
    while i < SLOT_COUNT
        invariant
            lookups@.len() == SLOT_COUNT,
            sum_l2r(lookups@, SLOT_COUNT as int) <= usize::MAX,
            i <= SLOT_COUNT,
            result == sum_l2r(lookups@, i as int),
        decreases SLOT_COUNT - i,
    {
        proof {
            lemma_sum_l2r_mono(lookups@, i + 1, SLOT_COUNT as int);
            lemma_l2r_bounds(lookups@[i as int] as int);
        }
        let num_lookups = lookups[i];
        result = result + lookups_to_rows(num_lookups);
        i += 1;
    }
    result
}

/// A frame rule for `rows_of`: rows below the written region are unchanged.
proof fn lemma_rows_frame(a: TraceColumns, b: TraceColumns, lo: int, mid: int, x: int, y: int)
    requires
        0 <= lo <= mid <= x <= y,
        mid <= a.s0@.len(),
        a.s0@.len() == a.t@.len(),
        a.s1@.len() == a.t@.len(),
        a.v@.len() == a.t@.len(),
        cols_wf(b, a.t@.len() as int),
        cols_eq_outside(b, a, x, y),
    ensures
        rows_of(b, lo, mid) == rows_of(a, lo, mid),
{
    assert(rows_of(b, lo, mid) =~= rows_of(a, lo, mid));
}

/// Concatenation rule for `rows_of`: splitting a row range at `mid` splits
/// its rows.
proof fn lemma_rows_splice(
    a: TraceColumns,
    b: TraceColumns,
    lo: int,
    mid: int,
    hi: int,
    s: Seq<Row>,
    p: Seq<Row>,
)
    requires
        0 <= lo <= mid <= hi,
        hi <= a.t@.len(),
        a.s0@.len() == a.t@.len(),
        a.s1@.len() == a.t@.len(),
        a.v@.len() == a.t@.len(),
        cols_wf(b, a.t@.len() as int),
        cols_eq_outside(b, a, mid, hi),
        rows_of(a, lo, mid) == s,
        rows_of(b, mid, hi) == p,
    ensures
        rows_of(b, lo, hi) == s + p,
{
    lemma_rows_frame(a, b, lo, mid, mid, hi);
    assert forall|idx: int| 0 <= idx < hi - lo implies rows_of(b, lo, hi)[idx] == (s + p)[idx] by {
        if idx < mid - lo {
            assert(rows_of(b, lo, mid)[idx] == s[idx]);
        } else {
            assert(rows_of(b, mid, hi)[idx - (mid - lo)] == p[idx - (mid - lo)]);
        }
    }
    assert(rows_of(b, lo, hi) =~= s + p);
}

/// Returns a column of `len` zero cells.
fn zero_column(len: usize) -> (r: Vec<u64>)
    ensures
        r@.len() == len,
        forall|j: int| 0 <= j < len ==> r@[j] == 0u64,
{
    let mut col: Vec<u64> = Vec::with_capacity(len);
    let mut i: usize = 0;
    while i < len
        invariant
            i <= len,
            col@.len() == i,
            forall|j: int| 0 <= j < i ==> col@[j] == 0u64,
        decreases len - i,
    {
        col.push(0);
        i += 1;
    }
    col
}

/// Converts a column of integer cells into field elements, one for one.
fn to_felt_column(col: &Vec<u64>) -> (r: Vec<miden_core::Felt>)
    requires
        forall|j: int| 0 <= j < col@.len() ==> col@[j] < FELT_MODULUS,
    ensures
        r@.len() == col@.len(),
        forall|j: int| 0 <= j < col@.len() ==> felt_val(#[trigger] r@[j]) == col@[j],
{
    let mut out: Vec<miden_core::Felt> = Vec::with_capacity(col.len());
    let mut i: usize = 0;
    while i < col.len()
        invariant
            i <= col@.len(),
            out@.len() == i,
            forall|j: int| 0 <= j < col@.len() ==> col@[j] < FELT_MODULUS,
            forall|j: int| 0 <= j < i ==> felt_val(#[trigger] out@[j]) == col@[j],
        decreases col@.len() - i,
    {
        let f = felt_from_u64(col[i]);
        out.push(f);
        i += 1;
    }
    out
}

/// Auxiliary hints surrendered with the trace, used by a later stage to
/// build the running-product columns: the ordered `(value, multiplicity)`
/// pairs of the 16-bit segment.
pub struct AuxTraceHints {
    pub lookup_values: Vec<(u16, usize)>,
}

/// The materialized range checker trace: four columns of field elements,
/// every cell's canonical value pinned by the contract of
/// [`RangeChecker::into_trace`], together with the auxiliary hints.
pub struct RangeCheckTrace {
    pub t: Vec<miden_core::Felt>,
    pub s0: Vec<miden_core::Felt>,
    pub s1: Vec<miden_core::Felt>,
    pub v: Vec<miden_core::Felt>,
    pub aux_trace_hints: AuxTraceHints,
}

impl RangeChecker {
    /// Converts this [`RangeChecker`] into an execution trace with 4 columns
    /// and `target_len` rows.
    ///
    /// Rows are laid out as: padding (all-zero cells, as many as needed),
    /// the 8-bit segment, the 16-bit segment, and a reserved tail of
    /// `num_rand_rows` rows that the surrounding trace assembler overwrites
    /// with random values (left zero here). The segment flag `t` is 0 before
    /// the 16-bit segment and 1 from there on. The caller must pick
    /// `target_len` as a power of two no smaller than the projected length
    /// plus the random tail.
    #[verifier::rlimit(60)]
    pub fn into_trace(self, target_len: usize, num_rand_rows: usize) -> (r: RangeCheckTrace)
        requires
            wf(self@),
            is_pow2(target_len as int),
            projected(self@) + num_rand_rows <= target_len,
        ensures
            r.t@.len() == target_len,
            r.s0@.len() == target_len,
            r.s1@.len() == target_len,
            r.v@.len() == target_len,
            forall|j: int|
                0 <= j < target_len ==> felt_val(#[trigger] r.t@[j]) == spec_t_at(
                    self@,
                    target_len as int,
                    num_rand_rows as int,
                    j,
                ),
            forall|j: int|
                0 <= j < target_len ==> felt_val(#[trigger] r.s0@[j]) == spec_row_at(
                    self@,
                    target_len as int,
                    num_rand_rows as int,
                    j,
                ).s0,
            forall|j: int|
                0 <= j < target_len ==> felt_val(#[trigger] r.s1@[j]) == spec_row_at(
                    self@,
                    target_len as int,
                    num_rand_rows as int,
                    j,
                ).s1,
            forall|j: int|
                0 <= j < target_len ==> felt_val(#[trigger] r.v@[j]) == spec_row_at(
                    self@,
                    target_len as int,
                    num_rand_rows as int,
                    j,
                ).v,
            r.aux_trace_hints.lookup_values@ == pairs(self@),
    {
        let ghost c = self@;
        // determine the length of the trace required to support all the
        // lookups in this range checker; the lookup table is reused below, so
        // both derivations agree by construction.
        let (lookups_8bit, num_16bit_rows) = self.build_8bit_lookup();
        proof {
            lemma_sum_l2r_is_rows8(c, lookups_8bit@, SLOT_COUNT as int);
            lemma_projected_bounds(c);
        }
        let num_8bit_rows = get_num_8bit_rows(&lookups_8bit);
        let trace_len = num_8bit_rows + num_16bit_rows;
        let num_padding_rows = target_len - trace_len - num_rand_rows;
        let ghost pad = num_padding_rows as int;
        let mut cols = TraceColumns {
            t: zero_column(target_len),
            s0: zero_column(target_len),
            s1: zero_column(target_len),
            v: zero_column(target_len),
        };
        let mut i = num_padding_rows;
        // build the 8-bit segment of the trace table
        let mut value8: usize = 0;
        while value8 < SLOT_COUNT
            invariant
                wf(c),
                c == self@,
                lookups_8bit@.len() == SLOT_COUNT,
                forall|s: int| 0 <= s < SLOT_COUNT ==> lookups_8bit@[s] == hist(c, s),
                0 <= pad,
                pad + projected(c) + num_rand_rows == target_len,
                value8 <= SLOT_COUNT,
                i == pad + rows8_upto(c, value8 as int),
                cols_wf(cols, target_len as int),
                forall|m: int| 0 <= m < target_len ==> cols.t@[m] == 0u64,
                forall|j: int| #![trigger cols.s0@[j]]
                    0 <= j < target_len && !(pad <= j < i) ==> cols.s0@[j] == 0u64,
                forall|j: int| #![trigger cols.s1@[j]]
                    0 <= j < target_len && !(pad <= j < i) ==> cols.s1@[j] == 0u64,
                forall|j: int| #![trigger cols.v@[j]]
                    0 <= j < target_len && !(pad <= j < i) ==> cols.v@[j] == 0u64,
                rows_of(cols, pad, i as int) == seg8_upto(c, value8 as int),
            decreases SLOT_COUNT - value8,
        {
            let ghost pre = cols;
            let ghost i0 = i as int;
            proof {
                lemma_rows8_upto_mono(c, 0, value8 as int);
                lemma_rows8_upto_mono(c, value8 as int + 1, SLOT_COUNT as int);
                lemma_rows16_upto_bounds(c, VALUE_COUNT as int);
                lemma_hist_upto_bounds(c, VALUE_COUNT as int, value8 as int);
                lemma_l2r_bounds(hist(c, value8 as int));
            }
            let num_lookups = lookups_8bit[value8];
            write_value(&mut cols, &mut i, num_lookups, value8 as u64);
            value8 += 1;
            proof {
                lemma_rows_splice(
                    pre,
                    cols,
                    pad,
                    i0,
                    i as int,
                    seg8_upto(c, value8 as int - 1),
                    pack_rows(value8 as int - 1, hist(c, value8 as int - 1)),
                );
            }
        }
        let boundary = i;
        let ghost bend = target_len as int - num_rand_rows as int;
        proof {
            lemma_rows8_upto_bounds(c, SLOT_COUNT as int);
            lemma_rows16_upto_bounds(c, VALUE_COUNT as int);
        }
        // fill in the first column: 0 through the 8-bit segment, 1 from the
        // start of the 16-bit segment on
        let mut m = i;
        while m < target_len
            invariant
                wf(c),
                c == self@,
                0 <= pad,
                pad + projected(c) + num_rand_rows == target_len,
                boundary as int == pad + rows8(c),
                i == boundary,
                boundary <= m <= target_len,
                cols_wf(cols, target_len as int),
                forall|mm: int| #![trigger cols.t@[mm]] 0 <= mm < boundary ==> cols.t@[mm] == 0u64,
                forall|mm: int| #![trigger cols.t@[mm]] boundary <= mm < m ==> cols.t@[mm] == 1u64,
                forall|mm: int| #![trigger cols.t@[mm]] m <= mm < target_len ==> cols.t@[mm] == 0u64,
                forall|j: int| #![trigger cols.s0@[j]]
                    0 <= j < target_len && !(pad <= j < i) ==> cols.s0@[j] == 0u64,
                forall|j: int| #![trigger cols.s1@[j]]
                    0 <= j < target_len && !(pad <= j < i) ==> cols.s1@[j] == 0u64,
                forall|j: int| #![trigger cols.v@[j]]
                    0 <= j < target_len && !(pad <= j < i) ==> cols.v@[j] == 0u64,
                rows_of(cols, pad, boundary as int) == seg8(c),
            decreases target_len - m,
        {
            let ghost pre = cols;
            cols.t[m] = 1;
            m += 1;
            proof {
                assert(rows_of(cols, pad, boundary as int) =~= rows_of(pre, pad, boundary as int));
            }
        }
        // build the 16-bit segment of the trace table
        let mut prev_value: usize = 0;
        let mut hints: Vec<(u16, usize)> = Vec::new();
        let mut value: usize = 0;
        while value < VALUE_COUNT
            invariant
                wf(c),
                c == self@,
                0 <= pad,
                pad + projected(c) + num_rand_rows == target_len,
                boundary as int == pad + rows8(c),
                bend == target_len as int - num_rand_rows as int,
                value <= VALUE_COUNT,
                prev_value <= value,
                prev_value < VALUE_COUNT,
                value == 0 ==> prev_value == 0,
                value >= 1 ==> prev_value == prev_present(c, value as int),
                pad <= boundary as int,
                bend == boundary as int + rows16(c),
                boundary as int <= i as int <= bend <= target_len as int,
                i as int == boundary as int + rows16_upto(c, value as int),
                cols_wf(cols, target_len as int),
                forall|mm: int| #![trigger cols.t@[mm]]
                    0 <= mm < target_len ==> cols.t@[mm] == (if mm < boundary as int {
                        0u64
                    } else {
                        1u64
                    }),
                forall|j: int| #![trigger cols.s0@[j]]
                    0 <= j < target_len && !(pad <= j < i) ==> cols.s0@[j] == 0u64,
                forall|j: int| #![trigger cols.s1@[j]]
                    0 <= j < target_len && !(pad <= j < i) ==> cols.s1@[j] == 0u64,
                forall|j: int| #![trigger cols.v@[j]]
                    0 <= j < target_len && !(pad <= j < i) ==> cols.v@[j] == 0u64,
                rows_of(cols, pad, boundary as int) == seg8(c),
                rows_of(cols, boundary as int, i as int) == seg16_upto(c, value as int),
                hints@ == pairs_upto(c, value as int),
            decreases VALUE_COUNT - value,
        {
            let ghost v_ = value as int;
            let count = self.lookups[value];
            if value == 0 || value == VALUE_COUNT - 1 || count > 0 {
                proof {
                    assert(present(c, v_));
                    if v_ >= 1 {
                        lemma_prev_present_bounds(c, v_);
                    }
                    assert(prev_value as int == v_ - delta_at(c, v_));
                    lemma_delta_at_bounds(c, v_);
                    lemma_nbridges_bounds(delta_at(c, v_));
                    lemma_l2r_bounds(count as int);
                    lemma_rows16_upto_mono(c, v_ + 1, VALUE_COUNT as int);
                    assert(rows16_upto(c, v_ + 1) == rows16_upto(c, v_) + nbridges(
                        delta_at(c, v_),
                    ) + l2r(count as int));
                }
                // when the delta between two values is greater than 255,
                // insert "bridge" rows
                let delta = value - prev_value;
                let (delta_q, delta_r) = div_rem(delta, 255);
                let num_bridges = if delta_q == 0 {
                    0
                } else if delta_r == 0 {
                    delta_q - 1
                } else {
                    delta_q
                };
                proof {
                    assert(num_bridges == nbridges(delta as int));
                }
                let ghost i_v = i as int;
                let mut k: usize = 0;
                while k < num_bridges
                    invariant
                        wf(c),
                        c == self@,
                        0 <= pad,
                        pad + projected(c) + num_rand_rows == target_len,
                        boundary as int == pad + rows8(c),
                        value < VALUE_COUNT,
                        v_ == value as int,
                        present(c, v_),
                        prev_value <= value,
                        prev_value as int == v_ - delta_at(c, v_),
                        delta == delta_at(c, v_),
                        0 <= delta <= 65535,
                        num_bridges == nbridges(delta as int),
                        num_bridges <= 257,
                        count == c[v_],
                        rows16_upto(c, v_ + 1) == rows16_upto(c, v_) + nbridges(delta as int)
                            + l2r(count as int),
                        rows16_upto(c, v_ + 1) <= rows16(c),
                        1 <= l2r(count as int),
                        k <= num_bridges,
                        pad <= boundary as int,
                        bend == boundary as int + rows16(c),
                        bend <= target_len as int,
                        boundary as int <= i_v,
                        i_v == boundary as int + rows16_upto(c, v_),
                        i as int == i_v + k,
                        cols_wf(cols, target_len as int),
                        forall|mm: int| #![trigger cols.t@[mm]]
                            0 <= mm < target_len ==> cols.t@[mm] == (if mm < boundary as int {
                                0u64
                            } else {
                                1u64
                            }),
                        forall|j: int| #![trigger cols.s0@[j]]
                            0 <= j < target_len && !(pad <= j < i) ==> cols.s0@[j] == 0u64,
                        forall|j: int| #![trigger cols.s1@[j]]
                            0 <= j < target_len && !(pad <= j < i) ==> cols.s1@[j] == 0u64,
                        forall|j: int| #![trigger cols.v@[j]]
                            0 <= j < target_len && !(pad <= j < i) ==> cols.v@[j] == 0u64,
                        rows_of(cols, pad, boundary as int) == seg8(c),
                        rows_of(cols, boundary as int, i as int) == seg16_upto(c, v_)
                            + bridge_rows(prev_value as int, v_).subrange(0, k as int),
                    decreases num_bridges - k,
                {
                    proof {
                        lemma_nbridges_bounds(delta as int);
                    }
                    let bval = prev_value + 255 * (k + 1);
                    proof {
                        assert(255 * (k + 1) <= 255 * num_bridges);
                        assert(bval < value);
                    }
                    let ghost pre = cols;
                    let ghost i0 = i as int;
                    write_value(&mut cols, &mut i, 0, bval as u64);
                    k += 1;
                    proof {
                        lemma_rows_frame(pre, cols, pad, boundary as int, i0, i as int);
                        lemma_rows_splice(
                            pre,
                            cols,
                            boundary as int,
                            i0,
                            i as int,
                            seg16_upto(c, v_) + bridge_rows(prev_value as int, v_).subrange(
                                0,
                                k as int - 1,
                            ),
                            pack_rows(bval as int, 0),
                        );
                        let br = bridge_rows(prev_value as int, v_);
                        assert(br[k as int - 1] == Row { s0: 0, s1: 0, v: bval as int });
                        assert(pack_rows(bval as int, 0) =~= seq![
                            Row { s0: 0, s1: 0, v: bval as int },
                        ]);
                        assert((seg16_upto(c, v_) + br.subrange(0, k as int - 1)) + pack_rows(
                            bval as int,
                            0,
                        ) =~= seg16_upto(c, v_) + br.subrange(0, k as int));
                    }
                }
                let ghost pre = cols;
                let ghost i0 = i as int;
                write_value(&mut cols, &mut i, count, value as u64);
                hints.push((value as u16, count));
                prev_value = value;
                proof {
                    lemma_rows_frame(pre, cols, pad, boundary as int, i0, i as int);
                    let br = bridge_rows(value as int - delta_at(c, v_), v_);
                    assert(br.subrange(0, num_bridges as int) =~= br);
                    lemma_rows_splice(
                        pre,
                        cols,
                        boundary as int,
                        i0,
                        i as int,
                        seg16_upto(c, v_) + br,
                        pack_rows(v_, count as int),
                    );
                    assert(seg16_upto(c, v_ + 1) == seg16_upto(c, v_) + br + pack_rows(
                        v_,
                        c[v_] as int,
                    ));
                }
            } else {
                proof {
                    assert(seg16_upto(c, v_ + 1) == seg16_upto(c, v_));
                    assert(rows16_upto(c, v_ + 1) == rows16_upto(c, v_));
                    assert(pairs_upto(c, v_ + 1) == pairs_upto(c, v_));
                }
            }
            value += 1;
        }
        // convert the columns into field elements; every cell is at most
        // 65535, far below the modulus
        proof {
            assert(i as int == bend);
            lemma_seg8_props(c, SLOT_COUNT as int);
            lemma_seg16_props(c, VALUE_COUNT as int);
            assert forall|j: int| 0 <= j < target_len implies cols.t@[j] < FELT_MODULUS by {}
            assert forall|j: int| 0 <= j < target_len implies cols.s0@[j] < FELT_MODULUS
                && cols.s1@[j] < FELT_MODULUS && cols.v@[j] < FELT_MODULUS by {
                if pad <= j < boundary as int {
                    let idx = j - pad;
                    assert(rows_of(cols, pad, boundary as int)[idx] == seg8(c)[idx]);
                } else if boundary as int <= j < bend {
                    let idx = j - boundary as int;
                    assert(rows_of(cols, boundary as int, i as int)[idx] == seg16(c)[idx]);
                }
            }
        }
        let tcol = to_felt_column(&cols.t);
        let s0col = to_felt_column(&cols.s0);
        let s1col = to_felt_column(&cols.s1);
        let vcol = to_felt_column(&cols.v);
        let r = RangeCheckTrace {
            t: tcol,
            s0: s0col,
            s1: s1col,
            v: vcol,
            aux_trace_hints: AuxTraceHints { lookup_values: hints },
        };
        proof {
            let tl = target_len as int;
            let nrr = num_rand_rows as int;
            assert(pad == pad_len(c, tl, nrr));
            assert(boundary as int == seg16_start(c, tl, nrr));
            assert(bend == body_end(tl, nrr));
            assert forall|j: int| 0 <= j < target_len implies felt_val(#[trigger] r.t@[j])
                == spec_t_at(c, tl, nrr, j) by {
                assert(felt_val(r.t@[j]) == cols.t@[j]);
            }
            assert forall|j: int| 0 <= j < target_len implies felt_val(#[trigger] r.s0@[j])
                == spec_row_at(c, tl, nrr, j).s0 && felt_val(#[trigger] r.s1@[j]) == spec_row_at(
                c,
                tl,
                nrr,
                j,
            ).s1 && felt_val(#[trigger] r.v@[j]) == spec_row_at(c, tl, nrr, j).v by {
                assert(felt_val(r.s0@[j]) == cols.s0@[j]);
                assert(felt_val(r.s1@[j]) == cols.s1@[j]);
                assert(felt_val(r.v@[j]) == cols.v@[j]);
                if pad <= j < boundary as int {
                    let idx = j - pad;
                    assert(rows_of(cols, pad, boundary as int)[idx] == seg8(c)[idx]);
                } else if boundary as int <= j < bend {
                    let idx = j - boundary as int;
                    assert(rows_of(cols, boundary as int, bend)[idx] == seg16(c)[idx]);
                }
            }
        }
        r
    }
}


} // verus!
