use midi_player::thread_boost::ThreadBoost;

#[test]
fn boost_keeps_what_the_system_returned() {
    let boost = ThreadBoost::new(0x1234, 7);
    assert_eq!(boost.handle(), 0x1234);
    assert_eq!(boost.task_index(), 7);
}

#[test]
fn failed_boost_has_a_null_handle() {
    let boost = ThreadBoost::new(0, 0);
    assert_eq!(boost.handle(), 0);
    assert_eq!(boost.task_index(), 0);
}

#[test]
fn boost_keeps_the_extremes() {
    let boost = ThreadBoost::new(isize::MIN, u32::MAX);
    assert_eq!(boost.handle(), isize::MIN);
    assert_eq!(boost.task_index(), u32::MAX);
}
