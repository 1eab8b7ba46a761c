use zk4log::progress_bar::ProgressBar;

#[test]
fn new_bar_has_nothing_done() {
    let bar = ProgressBar::new(7);
    assert_eq!(bar.total_steps, 7);
    assert_eq!(bar.current_step, 0);
    assert!(!bar.is_complete());
}

#[test]
fn progress_fills_one_cell_for_every_ten_percent() {
    let mut bar = ProgressBar::new(4);
    assert_eq!(bar.progress(), 2);
    assert_eq!(bar.progress(), 5);
    assert_eq!(bar.progress(), 7);
    assert!(!bar.is_complete());
    assert_eq!(bar.progress(), 10);
    assert!(bar.is_complete());
    assert_eq!(bar.current_step, 4);
}

#[test]
fn progress_beyond_the_total_is_not_capped() {
    let mut bar = ProgressBar::new(1);
    assert_eq!(bar.progress(), 10);
    assert_eq!(bar.progress(), 20);
}

#[test]
fn progress_with_no_steps_saturates() {
    let mut bar = ProgressBar::new(0);
    assert_eq!(bar.progress(), u64::MAX / 10);
}

#[test]
fn progress_with_a_huge_quotient_saturates() {
    let mut bar = ProgressBar { total_steps: 1, current_step: u64::MAX - 1 };
    assert_eq!(bar.progress(), u64::MAX / 10);
}
