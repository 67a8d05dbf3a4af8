//! Tests of the row-packing helpers and of trace fragments.

use miden_core::Felt;
use miden_core::StarkField;
use range_checker::range::{div_rem, lookups_to_rows, write_trace_row, write_value, TraceColumns};
use range_checker::trace::TraceFragment;

fn zeroed(len: usize) -> TraceColumns {
    TraceColumns { t: vec![0; len], s0: vec![0; len], s1: vec![0; len], v: vec![0; len] }
}

#[test]
fn div_rem_splits_exactly() {
    assert_eq!(div_rem(13, 4), (3, 1));
    assert_eq!(div_rem(65535, 255), (257, 0));
    assert_eq!(div_rem(3, 7), (0, 3));
}

#[test]
fn lookups_to_rows_packs_greedily() {
    // zero lookups still take one row; otherwise rows of four, two, one
    let expected = [1, 1, 1, 2, 1, 2, 2, 3, 2, 3];
    for (n, &rows) in expected.iter().enumerate() {
        assert_eq!(lookups_to_rows(n), rows, "lookups {}", n);
    }
    assert_eq!(lookups_to_rows(257), 65);
    assert_eq!(lookups_to_rows(1024), 256);
}

#[test]
fn write_trace_row_fills_one_row() {
    let mut cols = zeroed(4);
    let mut step = 1;
    write_trace_row(&mut cols, &mut step, 1, 0, 42);
    assert_eq!(step, 2);
    assert_eq!(cols.s0, vec![0, 1, 0, 0]);
    assert_eq!(cols.s1, vec![0, 0, 0, 0]);
    assert_eq!(cols.v, vec![0, 42, 0, 0]);
}

#[test]
fn write_value_emits_packed_selectors() {
    // seven lookups: one row of four, one of two, one of one
    let mut cols = zeroed(5);
    let mut step = 0;
    write_value(&mut cols, &mut step, 7, 9);
    assert_eq!(step, 3);
    assert_eq!(cols.s0[..3], [1, 0, 1]);
    assert_eq!(cols.s1[..3], [1, 1, 0]);
    assert_eq!(cols.v[..3], [9, 9, 9]);
    // zero lookups: a single unselected row still carries the value
    let mut cols = zeroed(2);
    let mut step = 0;
    write_value(&mut cols, &mut step, 0, 5);
    assert_eq!(step, 1);
    assert_eq!((cols.s0[0], cols.s1[0], cols.v[0]), (0, 0, 5));
}

#[test]
fn fragment_starts_empty() {
    let frag = TraceFragment::new(8);
    assert_eq!(frag.width(), 0);
}

#[test]
fn fragment_set_updates_one_cell() {
    let mut frag = TraceFragment::trace_to_fragment(vec![
        vec![Felt::new(0); 4],
        vec![Felt::new(0); 4],
    ]);
    assert_eq!(frag.width(), 2);
    assert_eq!(frag.len(), 4);
    frag.set(3, 1, Felt::new(77));
    let data = frag.columns();
    assert_eq!(data[1][3].as_int(), 77);
    assert_eq!(data[1][2].as_int(), 0);
    assert_eq!(data[0][3].as_int(), 0);
}

#[test]
fn fragment_push_column_slice_splits() {
    let mut frag = TraceFragment::new(2);
    let column: Vec<Felt> = (0..6).map(Felt::new).collect();
    let rest = frag.push_column_slice(column, 4);
    assert_eq!(frag.width(), 1);
    assert_eq!(frag.len(), 4);
    let taken: Vec<u64> = frag.columns()[0].iter().map(|f| f.as_int()).collect();
    assert_eq!(taken, vec![0, 1, 2, 3]);
    let rest: Vec<u64> = rest.iter().map(|f| f.as_int()).collect();
    assert_eq!(rest, vec![4, 5]);
}
