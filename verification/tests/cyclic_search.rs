use topola::math::{cbps_brute_force, cyclic_breadth_partition_search as cbps};

fn cbps_assert_eq<T, PF>(list: &[T], partition: PF) -> (Option<usize>, Option<usize>)
where
    PF: Fn(&T) -> bool,
    T: Eq + core::fmt::Debug,
{
    let eval = &|i: usize| partition(&list[i]);
    let res_expected = cbps_brute_force(0..list.len(), eval);
    assert_eq!(cbps(0..list.len(), eval), res_expected);
    res_expected
}

#[test]
fn cbps_bpw3_simple00() {
    let list = &[false, false, false, true, true];
    assert_eq!(cbps_assert_eq(list, |i| *i), (Some(2), Some(4)));
}

#[test]
fn cbps_bpw3_cont_false() {
    let list = &[false, false, false];
    assert_eq!(cbps_assert_eq(list, |i| *i), (Some(2), None));
}

#[test]
fn cbps_bpw3_cont_true() {
    let list = &[true, true];
    assert_eq!(cbps_assert_eq(list, |i| *i), (None, Some(1)));
}

#[test]
fn cbps_bpw3_simple01() {
    let list = &[true, false, false, false, true, true];
    assert_eq!(cbps_assert_eq(list, |i| *i), (Some(3), Some(0)));
}

#[test]
fn cbps_bpw3_1exception() {
    let list = &[true, false, true, true, true, true];
    assert_eq!(cbps_assert_eq(list, |i| *i), (Some(1), Some(0)));
}

/// Every cyclic partition of lengths up to 40, with the `true` run at every offset
/// and of every length, gives the linear scan's answer.
#[test]
fn cbps_all_small_cyclic_partitions() {
    for len in 1..40usize {
        for offset in 0..len {
            for amount_true in 0..len {
                let mut list = vec![false; len];
                for i in offset..(offset + amount_true) {
                    list[i % len] = true;
                }
                let eval = &|i: usize| list[i];
                assert_eq!(cbps(0..len, eval), cbps_brute_force(0..len, eval));
            }
        }
    }
}

#[test]
fn cbps_empty_bounds() {
    let eval = |_: usize| true;
    assert_eq!(cbps(3..3, eval), (None, None));
    assert_eq!(cbps(5..2, eval), (None, None));
    assert_eq!(cbps_brute_force(5..2, &eval), (None, None));
}

#[test]
fn cbps_offset_bounds() {
    // positions are reported in the coordinates of `bounds`
    let list = [true, true, false, false, false, true, true, true];
    let eval = |i: usize| list[i - 10];
    assert_eq!(cbps(10..18, eval), (Some(14), Some(11)));
    assert_eq!(cbps_brute_force(10..18, &eval), (Some(14), Some(11)));
}
