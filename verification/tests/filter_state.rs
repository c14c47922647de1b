use dsppipeline::delay_line::DelayLine;
use dsppipeline::shutdown::terminated;
use std::sync::atomic::{AtomicBool, Ordering};

#[test]
fn new_line_holds_zeros() {
    let line = DelayLine::new(4, 0i32);
    assert_eq!(line.num_taps(), 4);
    assert_eq!(line.window(&[]), vec![0, 0, 0]);
}

#[test]
fn window_prepends_history() {
    let line = DelayLine::new(3, 0i32);
    assert_eq!(line.window(&[5, 6, 7]), vec![0, 0, 5, 6, 7]);
}

#[test]
fn advance_keeps_the_tail() {
    let mut line = DelayLine::new(3, 0i32);
    line.advance(&[1, 2, 3, 4]);
    assert_eq!(line.window(&[9]), vec![3, 4, 9]);
    line.advance(&[8, 9]);
    assert_eq!(line.window(&[]), vec![8, 9]);
}

#[test]
fn advance_with_a_short_block_keeps_the_old_history() {
    let mut line = DelayLine::new(4, 0i32);
    line.advance(&[1, 2, 3]);
    line.advance(&[7, 8]);
    assert_eq!(line.window(&[]), vec![1, 2, 3]);
}

#[test]
fn single_tap_line_has_no_history() {
    let mut line = DelayLine::new(1, 0i32);
    line.advance(&[1, 2]);
    assert_eq!(line.window(&[4]), vec![4]);
}

#[test]
fn terminated_reads_the_flag() {
    let flag = AtomicBool::new(false);
    assert!(!terminated(&flag));
    flag.store(true, Ordering::Relaxed);
    assert!(terminated(&flag));
}
