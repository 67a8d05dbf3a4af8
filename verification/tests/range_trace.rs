//! End-to-end tests of the range checker: accumulation, projected length,
//! and the shape of the materialized trace.

use miden_core::StarkField;
use range_checker::felt::felt_to_u64;
use range_checker::range::RangeChecker;
use range_checker::range::RangeCheckTrace;

/// Reads a column of field elements back as canonical integers.
fn col(v: &Vec<miden_core::Felt>) -> Vec<u64> {
    v.iter().map(felt_to_u64).collect()
}

/// Reads the four columns of a trace back as integers: `(t, s0, s1, v)`.
fn cols(tr: &RangeCheckTrace) -> (Vec<u64>, Vec<u64>, Vec<u64>, Vec<u64>) {
    (col(&tr.t), col(&tr.s0), col(&tr.s1), col(&tr.v))
}

/// The lookup weight a row discharges, by its selector bits.
fn weight(s0: u64, s1: u64) -> u64 {
    match (s0, s1) {
        (1, 1) => 4,
        (0, 1) => 2,
        (1, 0) => 1,
        _ => 0,
    }
}

/// Checks the universal trace invariants: length, segment monotonicity,
/// 8-bit coverage, 16-bit endpoints and step bound, multiplicity
/// conservation against `counts`, and padding shape.
fn check_invariants(
    tr: &RangeCheckTrace,
    target_len: usize,
    num_rand_rows: usize,
    projected: usize,
    counts: &[u64],
) {
    let (t, s0, s1, v) = cols(tr);
    // length
    assert_eq!(t.len(), target_len);
    assert_eq!(s0.len(), target_len);
    assert_eq!(s1.len(), target_len);
    assert_eq!(v.len(), target_len);
    // segment flag: only 0/1, non-decreasing, changes at most once
    let mut flips = 0;
    for j in 0..target_len {
        assert!(t[j] == 0 || t[j] == 1);
        if j > 0 {
            assert!(t[j] >= t[j - 1]);
            if t[j] != t[j - 1] {
                flips += 1;
            }
        }
    }
    assert!(flips <= 1);
    let boundary = t.iter().position(|&x| x == 1).unwrap_or(target_len);
    // the padding length follows from the projected length
    let pad = target_len - num_rand_rows - projected;
    assert!(pad <= boundary);
    // padding rows are all-zero with t == 0
    for j in 0..pad {
        assert_eq!(t[j], 0);
        assert_eq!(s0[j], 0);
        assert_eq!(s1[j], 0);
        assert_eq!(v[j], 0);
    }
    let mut seen = [false; 256];
    for j in pad..boundary {
        assert!(v[j] <= 255);
        if j > pad {
            assert!(v[j] >= v[j - 1]);
        }
        seen[v[j] as usize] = true;
    }
    for s in 0..256 {
        assert!(seen[s], "8-bit value {} missing", s);
    }
    // 16-bit segment: endpoints and step bound, random tail excluded
    let body_end = target_len - num_rand_rows;
    assert!(boundary < body_end);
    assert_eq!(v[boundary], 0);
    assert_eq!(v[body_end - 1], 65535);
    for j in boundary..body_end - 1 {
        assert!(v[j + 1] >= v[j]);
        assert!(v[j + 1] - v[j] <= 255);
    }
    // multiplicity conservation over the 16-bit segment
    let mut got = vec![0u64; 65536];
    for j in boundary..body_end {
        got[v[j] as usize] += weight(s0[j], s1[j]);
    }
    for x in 0..65536 {
        assert_eq!(got[x], counts[x], "weight sum for value {}", x);
    }
}

#[test]
fn empty_accumulator_trace() {
    let checker = RangeChecker::new();
    // 8-bit segment: 255 slots of one row plus 65 rows for slot 255
    // (257 bridging deltas pack as 64 rows of four lookups and one of one);
    // 16-bit segment: value 0, 256 bridges, value 65535.
    assert_eq!(checker.trace_len(), 320 + 258);
    let projected = checker.trace_len();
    let trace = checker.into_trace(1024, 0);
    let (t, s0, s1, v) = cols(&trace);
    // 16-bit segment holds exactly 258 rows
    let seg16: Vec<usize> = (0..1024).filter(|&j| t[j] == 1).collect();
    assert_eq!(seg16.len(), 258);
    let first = seg16[0];
    assert_eq!((s0[first], s1[first], v[first]), (0, 0, 0));
    let last = seg16[seg16.len() - 1];
    assert_eq!((s0[last], s1[last], v[last]), (0, 0, 65535));
    // bridges spaced by 255
    for (i, &j) in seg16.iter().enumerate() {
        assert_eq!(v[j], 255 * i as u64);
    }
    // 8-bit segment devotes 65 rows to the value 255
    let rows_255 = (0..1024).filter(|&j| t[j] == 0 && v[j] == 255 && j >= first - 320).count();
    assert_eq!(rows_255, 65);
    let counts = vec![0u64; 65536];
    check_invariants(&trace, 1024, 0, projected, &counts);
}

#[test]
fn single_lookup_of_100() {
    let mut checker = RangeChecker::new();
    checker.add_value(100);
    let projected = checker.trace_len();
    let trace = checker.into_trace(1024, 0);
    let (t, s0, s1, v) = cols(&trace);
    // the multiset is {0 -> 0, 100 -> 1, 65535 -> 0}: one row carries 100,
    // with selector (1, 0)
    let rows_100: Vec<usize> = (0..1024).filter(|&j| t[j] == 1 && v[j] == 100).collect();
    assert_eq!(rows_100.len(), 1);
    assert_eq!((s0[rows_100[0]], s1[rows_100[0]]), (1, 0));
    // bridges between 100 and 65535 spaced by 255
    let seg16: Vec<usize> = (0..1024).filter(|&j| t[j] == 1).collect();
    for w in seg16.windows(2) {
        assert!(v[w[1]] - v[w[0]] <= 255);
    }
    let mut counts = vec![0u64; 65536];
    counts[100] = 1;
    check_invariants(&trace, 1024, 0, projected, &counts);
}

#[test]
fn five_lookups_of_1000() {
    let mut checker = RangeChecker::new();
    for _ in 0..5 {
        checker.add_value(1000);
    }
    let projected = checker.trace_len();
    let trace = checker.into_trace(1024, 0);
    let (t, s0, s1, v) = cols(&trace);
    // row packing for five lookups: one row (1,1) of four lookups, one row
    // (1,0) of one lookup; both carry v = 1000
    let rows_1000: Vec<usize> = (0..1024).filter(|&j| t[j] == 1 && v[j] == 1000).collect();
    assert_eq!(rows_1000.len(), 2);
    assert_eq!((s0[rows_1000[0]], s1[rows_1000[0]]), (1, 1));
    assert_eq!((s0[rows_1000[1]], s1[rows_1000[1]]), (1, 0));
    assert_eq!(rows_1000[1], rows_1000[0] + 1);
    let mut counts = vec![0u64; 65536];
    counts[1000] = 5;
    check_invariants(&trace, 1024, 0, projected, &counts);
}

#[test]
fn endpoint_lookups() {
    let mut checker = RangeChecker::new();
    checker.add_value(0);
    checker.add_value(65535);
    let projected = checker.trace_len();
    let trace = checker.into_trace(1024, 0);
    let (t, s0, s1, v) = cols(&trace);
    // each endpoint now carries a single lookup: selector (1, 0)
    let rows_0: Vec<usize> = (0..1024).filter(|&j| t[j] == 1 && v[j] == 0).collect();
    assert_eq!(rows_0.len(), 1);
    assert_eq!((s0[rows_0[0]], s1[rows_0[0]]), (1, 0));
    let rows_max: Vec<usize> = (0..1024).filter(|&j| t[j] == 1 && v[j] == 65535).collect();
    assert_eq!(rows_max.len(), 1);
    assert_eq!((s0[rows_max[0]], s1[rows_max[0]]), (1, 0));
    let mut counts = vec![0u64; 65536];
    counts[0] = 1;
    counts[65535] = 1;
    check_invariants(&trace, 1024, 0, projected, &counts);
}

#[test]
fn stepped_values_bridge_the_tail() {
    let mut checker = RangeChecker::new();
    for k in [0u16, 255, 510] {
        checker.add_value(k);
    }
    let projected = checker.trace_len();
    let trace = checker.into_trace(1024, 0);
    let (t, _s0, _s1, v) = cols(&trace);
    // bridges between 510 and 65535 at multiples of 255
    let seg16: Vec<usize> = (0..1024).filter(|&j| t[j] == 1).collect();
    for &j in &seg16 {
        if v[j] >= 510 {
            assert_eq!(v[j] % 255, 0);
        }
    }
    let mut counts = vec![0u64; 65536];
    counts[0] = 1;
    counts[255] = 1;
    counts[510] = 1;
    check_invariants(&trace, 1024, 0, projected, &counts);
}

#[test]
fn target_length_too_small_is_rejected_by_the_sizing() {
    let mut checker = RangeChecker::new();
    // a thousand distinct values need more rows than 1024 leaves room for
    for k in 0..1000u16 {
        checker.add_value(k * 3);
    }
    let num_rand_rows = 1;
    // the materialization precondition demands
    // trace_len() + num_rand_rows <= target_len; this accumulator fails it
    // for target_len = 1024, so the caller must size up before converting
    assert!(checker.trace_len() + num_rand_rows > 1024);
    let target_len = (checker.trace_len() + num_rand_rows).next_power_of_two();
    assert_eq!(target_len, 2048);
    let projected = checker.trace_len();
    let trace = checker.into_trace(target_len, num_rand_rows);
    let mut counts = vec![0u64; 65536];
    for k in 0..1000u64 {
        counts[(k * 3) as usize] = 1;
    }
    check_invariants(&trace, target_len, num_rand_rows, projected, &counts);
}

#[test]
fn pseudo_random_multiset_invariants() {
    let mut checker = RangeChecker::new();
    let mut counts = vec![0u64; 65536];
    // a fixed linear congruential sequence stands in for random lookups
    let mut x: u64 = 0x2545_F491;
    for _ in 0..300 {
        x = x.wrapping_mul(6364136223846793005).wrapping_add(1442695040888963407);
        let value = (x >> 33) as u16;
        checker.add_value(value);
        counts[value as usize] += 1;
    }
    let num_rand_rows = 1;
    let target_len = (checker.trace_len() + num_rand_rows).next_power_of_two();
    let projected = checker.trace_len();
    let trace = checker.into_trace(target_len, num_rand_rows);
    check_invariants(&trace, target_len, num_rand_rows, projected, &counts);
}

#[test]
fn projected_length_agrees_with_emission() {
    let mut checker = RangeChecker::new();
    for k in [7u16, 7, 7, 7, 7, 7, 7, 300, 9000, 9000, 65000] {
        checker.add_value(k);
    }
    let projected = checker.trace_len();
    let trace = checker.into_trace(2048, 3);
    let (t, s0, s1, v) = cols(&trace);
    // the trace holds exactly `projected` segment rows: everything from the
    // end of the padding to the start of the random tail
    let boundary = t.iter().position(|&x| x == 1).unwrap();
    let pad = (0..boundary).take_while(|&j| s0[j] == 0 && s1[j] == 0 && v[j] == 0).count();
    // the 8-bit segment begins with value 0 rows, so the padding cannot be
    // told apart from leading zero-value rows by cell content alone; the
    // projected length still accounts for every row between padding and tail
    assert!(pad >= 2048 - 3 - projected);
    let mut counts = vec![0u64; 65536];
    counts[7] = 7;
    counts[300] = 1;
    counts[9000] = 2;
    counts[65000] = 1;
    check_invariants(&trace, 2048, 3, projected, &counts);
}

#[test]
fn default_is_empty() {
    let checker = RangeChecker::default();
    assert_eq!(checker.trace_len(), RangeChecker::new().trace_len());
}

#[test]
fn aux_hints_list_values_in_ascending_order() {
    let mut checker = RangeChecker::new();
    checker.add_value(500);
    checker.add_value(20);
    checker.add_value(500);
    let trace = checker.into_trace(1024, 0);
    let hints = &trace.aux_trace_hints.lookup_values;
    assert_eq!(hints.as_slice(), &[(0, 0), (20, 1), (500, 2), (65535, 0)]);
}

#[test]
fn cells_are_true_field_elements() {
    let mut checker = RangeChecker::new();
    checker.add_value(12345);
    let trace = checker.into_trace(1024, 0);
    // compare cells against field elements built directly, so a conversion
    // that skipped the Montgomery encoding would be caught
    let last = trace.v.len() - 1;
    assert_eq!(trace.v[last], miden_core::Felt::new(65535));
    assert_eq!(trace.t[last], miden_core::Felt::new(1));
    assert!(trace.v.iter().any(|f| *f == miden_core::Felt::new(12345)));
    // and the canonical value round-trips
    assert_eq!(trace.v[last].as_int(), 65535);
}
