use midi_player::driver::{
    InflightRequest, LongStep, PortError, SendPlan, ShortStep, Teardown, WinMidiPort, MHDR_DONE,
    MIDIERR_NOTREADY, MIDIERR_STILLPLAYING, MMSYSERR_BADDEVICEID, MMSYSERR_NOERROR,
};
use midi_player::inflight::Completion;

/// A driver that keeps, for each buffer it was given, the flags of its header and
/// whether it still plays it.
struct FakeDriver {
    buffers: Vec<(u32, bool)>,
}

impl FakeDriver {
    fn observe(&self) -> Vec<Completion> {
        self.buffers
            .iter()
            .map(|&(flags, playing)| {
                let status = if Completion::is_done(flags) && playing {
                    MIDIERR_STILLPLAYING
                } else {
                    MMSYSERR_NOERROR
                };
                Completion { flags, status }
            })
            .collect()
    }

    fn forget(&mut self, reclaimed: &[usize]) {
        for &position in reclaimed.iter().rev() {
            self.buffers.remove(position);
        }
    }
}

fn open() -> WinMidiPort {
    WinMidiPort::connect(MMSYSERR_NOERROR).unwrap()
}

fn long_request(port: &WinMidiPort, bytes: &[u8]) -> InflightRequest {
    match port.send(bytes) {
        SendPlan::Long(request) => request,
        other => panic!("not a long message: {:?}", other),
    }
}

fn submit(port: &mut WinMidiPort, bytes: &[u8]) {
    let request = long_request(port, bytes);
    let request = port.prepared(request, MMSYSERR_NOERROR).unwrap();
    assert_eq!(port.long_sent(request, MMSYSERR_NOERROR), LongStep::Submitted);
}

fn in_flight(port: &WinMidiPort) -> Vec<Vec<u8>> {
    port.requests().iter().map(|r| r.message().clone()).collect()
}

#[test]
fn status_words_have_the_driver_values() {
    assert_eq!(MMSYSERR_NOERROR, 0);
    assert_eq!(MMSYSERR_BADDEVICEID, 2);
    assert_eq!(MIDIERR_STILLPLAYING, 65);
    assert_eq!(MIDIERR_NOTREADY, 67);
    assert_eq!(MHDR_DONE, 1);
}

#[test]
fn connect_succeeds_on_no_error() {
    let port = WinMidiPort::connect(0).unwrap();
    assert!(!port.have_inflight());
    assert!(port.requests().is_empty());
}

#[test]
fn connect_reports_a_bad_device_id() {
    assert_eq!(WinMidiPort::connect(2).unwrap_err(), PortError::BadDeviceId);
}

#[test]
fn connect_reports_other_statuses_with_their_code() {
    assert_eq!(WinMidiPort::connect(4).unwrap_err(), PortError::DeviceError(4));
    assert_eq!(WinMidiPort::connect(7).unwrap_err(), PortError::DeviceError(7));
    assert_eq!(WinMidiPort::connect(67).unwrap_err(), PortError::DeviceError(67));
    assert_eq!(WinMidiPort::connect(u32::MAX).unwrap_err(), PortError::DeviceError(u32::MAX));
}

#[test]
fn empty_message_is_not_sent() {
    assert_eq!(open().send(&[]), SendPlan::Nothing);
}

#[test]
fn short_message_packs_byte_zero_lowest() {
    assert_eq!(open().send(&[0x90, 0x40, 0x7F]), SendPlan::Short(0x007F4090));
}

#[test]
fn shorter_messages_leave_the_high_bytes_zero() {
    let port = open();
    assert_eq!(port.send(&[0xF8]), SendPlan::Short(0x0000_00F8));
    assert_eq!(port.send(&[0xC5, 0x07]), SendPlan::Short(0x0000_07C5));
    assert_eq!(port.send(&[0xFF, 0xFF, 0xFF]), SendPlan::Short(0x00FF_FFFF));
    assert_eq!(port.send(&[0x00, 0x00, 0x01]), SendPlan::Short(0x0001_0000));
}

#[test]
fn long_message_gets_storage_of_its_own() {
    let bytes = [0xF0, 0x7E, 0x7F, 0xF7];
    let request = long_request(&open(), &bytes);
    assert_eq!(request.message(), &bytes.to_vec());
    let sysex = [0xF0, 0x41, 0x10, 0x42, 0x12, 0x40, 0x00, 0x7F, 0x00, 0x41, 0xF7];
    assert_eq!(long_request(&open(), &sysex).message(), &sysex.to_vec());
}

#[test]
fn short_send_retries_while_the_device_is_busy() {
    let port = open();
    assert_eq!(port.short_sent(MIDIERR_NOTREADY), ShortStep::Retry);
    assert_eq!(port.short_sent(MMSYSERR_NOERROR), ShortStep::Sent);
}

#[test]
fn short_send_fails_on_any_other_status() {
    let port = open();
    assert_eq!(port.short_sent(5), ShortStep::Failed(PortError::DeviceError(5)));
    assert_eq!(port.short_sent(2), ShortStep::Failed(PortError::DeviceError(2)));
    assert_eq!(port.short_sent(65), ShortStep::Failed(PortError::DeviceError(65)));
}

#[test]
fn failed_prepare_discards_the_request() {
    let port = open();
    let request = long_request(&port, &[1, 2, 3, 4]);
    assert_eq!(port.prepared(request, 7), Err(PortError::DeviceError(7)));
    let request = long_request(&port, &[1, 2, 3, 4]);
    assert_eq!(port.prepared(request, MIDIERR_NOTREADY), Err(PortError::DeviceError(67)));
    assert!(!port.have_inflight());
}

#[test]
fn prepare_hands_the_request_back() {
    let port = open();
    let request = long_request(&port, &[1, 2, 3, 4]);
    let ready = port.prepared(request, MMSYSERR_NOERROR).unwrap();
    assert_eq!(ready.message(), &vec![1, 2, 3, 4]);
}

#[test]
fn busy_long_send_hands_the_request_back() {
    let mut port = open();
    let request = long_request(&port, &[1, 2, 3, 4]);
    match port.long_sent(request, MIDIERR_NOTREADY) {
        LongStep::Retry(again) => assert_eq!(again.message(), &vec![1, 2, 3, 4]),
        other => panic!("not a retry: {:?}", other),
    }
    assert!(!port.have_inflight());
}

#[test]
fn failed_long_send_discards_the_request() {
    let mut port = open();
    submit(&mut port, &[9, 9, 9, 9]);
    let request = long_request(&port, &[1, 2, 3, 4]);
    assert_eq!(port.long_sent(request, 11), LongStep::Failed(PortError::DeviceError(11)));
    assert_eq!(in_flight(&port), vec![vec![9, 9, 9, 9]]);
}

#[test]
fn submitted_requests_queue_in_order() {
    let mut port = open();
    assert!(!port.have_inflight());
    submit(&mut port, &[1, 1, 1, 1]);
    assert!(port.have_inflight());
    submit(&mut port, &[2, 2, 2, 2, 2]);
    submit(&mut port, &[3, 3, 3, 3]);
    assert_eq!(in_flight(&port), vec![vec![1, 1, 1, 1], vec![2, 2, 2, 2, 2], vec![3, 3, 3, 3]]);
}

#[test]
fn done_flag_is_the_lowest_bit() {
    assert!(!Completion::is_done(0));
    assert!(Completion::is_done(1));
    assert!(!Completion::is_done(2));
    assert!(Completion::is_done(3));
    assert!(!Completion::is_done(6));
    assert!(Completion::is_done(7));
    assert!(Completion::is_done(u32::MAX));
}

#[test]
fn release_needs_done_and_not_still_playing() {
    assert!(!Completion { flags: 0, status: 0 }.is_released());
    assert!(!Completion { flags: 2, status: 0 }.is_released());
    assert!(!Completion { flags: 1, status: MIDIERR_STILLPLAYING }.is_released());
    assert!(Completion { flags: 1, status: 0 }.is_released());
    assert!(Completion { flags: 3, status: 0 }.is_released());
    assert!(Completion { flags: 1, status: 5 }.is_released());
}

#[test]
fn long_message_stays_until_the_driver_releases_it() {
    let mut port = open();
    let mut driver = FakeDriver { buffers: Vec::new() };
    submit(&mut port, &[0xF0, 1, 2, 3, 0xF7]);
    driver.buffers.push((2, true));

    // not done yet
    for _ in 0..3 {
        assert_eq!(port.check_inflight(&driver.observe()), Vec::<usize>::new());
        assert_eq!(in_flight(&port), vec![vec![0xF0, 1, 2, 3, 0xF7]]);
    }
    // done, but still playing
    driver.buffers[0] = (2 | MHDR_DONE, true);
    for _ in 0..5 {
        assert_eq!(port.check_inflight(&driver.observe()), Vec::<usize>::new());
        assert!(port.have_inflight());
        assert_eq!(in_flight(&port), vec![vec![0xF0, 1, 2, 3, 0xF7]]);
    }
    // released
    driver.buffers[0] = (2 | MHDR_DONE, false);
    let reclaimed = port.check_inflight(&driver.observe());
    assert_eq!(reclaimed, vec![0]);
    driver.forget(&reclaimed);
    assert!(!port.have_inflight());
    assert_eq!(port.check_inflight(&driver.observe()), Vec::<usize>::new());
}

#[test]
fn poll_takes_exactly_the_released_requests() {
    let mut port = open();
    let mut driver = FakeDriver { buffers: Vec::new() };
    for n in 0..6u8 {
        submit(&mut port, &[n, n, n, n]);
    }
    driver.buffers = vec![
        (MHDR_DONE, false),
        (0, false),
        (MHDR_DONE, true),
        (MHDR_DONE, false),
        (MHDR_DONE, false),
        (2, true),
    ];
    let reclaimed = port.check_inflight(&driver.observe());
    assert_eq!(reclaimed, vec![0, 3, 4]);
    driver.forget(&reclaimed);
    assert_eq!(in_flight(&port), vec![vec![1, 1, 1, 1], vec![2, 2, 2, 2], vec![5, 5, 5, 5]]);
    assert_eq!(driver.buffers, vec![(0, false), (MHDR_DONE, true), (2, true)]);

    driver.buffers[1] = (MHDR_DONE, false);
    driver.buffers[2] = (MHDR_DONE, false);
    let reclaimed = port.check_inflight(&driver.observe());
    assert_eq!(reclaimed, vec![1, 2]);
    assert_eq!(in_flight(&port), vec![vec![1, 1, 1, 1]]);
}

#[test]
fn poll_that_releases_everything_empties_the_port() {
    let mut port = open();
    for n in 0..4u8 {
        submit(&mut port, &[n, n, n, n]);
    }
    let all = vec![Completion { flags: 1, status: 0 }; 4];
    assert_eq!(port.check_inflight(&all), vec![0, 1, 2, 3]);
    assert!(!port.have_inflight());
}

#[test]
fn request_without_an_observation_stays() {
    let mut port = open();
    submit(&mut port, &[1, 1, 1, 1]);
    submit(&mut port, &[2, 2, 2, 2]);
    assert_eq!(port.check_inflight(&Vec::new()), Vec::<usize>::new());
    let one = vec![Completion { flags: 1, status: 0 }];
    assert_eq!(port.check_inflight(&one), vec![0]);
    assert_eq!(in_flight(&port), vec![vec![2, 2, 2, 2]]);
}

#[test]
fn observations_beyond_the_list_are_ignored() {
    let mut port = open();
    submit(&mut port, &[1, 1, 1, 1]);
    let many = vec![Completion { flags: 0, status: 0 }, Completion { flags: 1, status: 0 }];
    assert_eq!(port.check_inflight(&many), Vec::<usize>::new());
    assert_eq!(in_flight(&port), vec![vec![1, 1, 1, 1]]);
}

#[test]
fn poll_of_an_empty_port_does_nothing() {
    let mut port = open();
    let some = vec![Completion { flags: 1, status: 0 }];
    assert_eq!(port.check_inflight(&some), Vec::<usize>::new());
    assert!(!port.have_inflight());
}

#[test]
fn reset_is_system_on_then_gs_reset() {
    let plans = open().send_reset();
    assert_eq!(plans.len(), 2);
    let bytes: Vec<Vec<u8>> = plans
        .iter()
        .map(|plan| match plan {
            SendPlan::Long(request) => request.message().clone(),
            other => panic!("not a long message: {:?}", other),
        })
        .collect();
    assert_eq!(bytes[0], vec![0xF0, 0x7E, 0x7F, 0x09, 0x01, 0xF7]);
    assert_eq!(bytes[1], vec![0xF0, 0x41, 0x10, 0x42, 0x12, 0x40, 0x00, 0x7F, 0x00, 0x41, 0xF7]);
}

#[test]
fn teardown_reports_failures_and_never_fails() {
    assert_eq!(open().close(0, 0), Teardown { reset_failure: None, close_failure: None });
    assert_eq!(open().close(5, 0), Teardown { reset_failure: Some(5), close_failure: None });
    assert_eq!(open().close(0, 65), Teardown { reset_failure: None, close_failure: Some(65) });
    assert_eq!(open().close(5, 65), Teardown { reset_failure: Some(5), close_failure: Some(65) });
}

fn name_field(text: &str) -> [u16; 32] {
    let mut field = [0u16; 32];
    for (slot, unit) in field.iter_mut().zip(text.encode_utf16()) {
        *slot = unit;
    }
    field
}

#[test]
fn name_ends_at_the_first_zero() {
    assert_eq!(WinMidiPort::name(0, &name_field("Microsoft GS Wavetable Synth")).unwrap(), "Microsoft GS Wavetable Synth");
    let mut field = name_field("Synth");
    field[10] = 'x' as u16;
    assert_eq!(WinMidiPort::name(0, &field).unwrap(), "Synth");
    assert_eq!(WinMidiPort::name(0, &[0u16; 32]).unwrap(), "");
}

#[test]
fn name_without_a_zero_drops_the_last_unit() {
    let field = ['A' as u16; 32];
    assert_eq!(WinMidiPort::name(0, &field).unwrap(), "A".repeat(31));
    let mut field = ['B' as u16; 32];
    field[31] = 0;
    assert_eq!(WinMidiPort::name(0, &field).unwrap(), "B".repeat(31));
}

#[test]
fn name_decodes_utf16() {
    assert_eq!(WinMidiPort::name(0, &name_field("Ger\u{e4}t \u{1F3B5}")).unwrap(), "Ger\u{e4}t \u{1F3B5}");
    let mut field = [0u16; 32];
    field[0] = 0xD800;
    field[1] = 'A' as u16;
    assert_eq!(WinMidiPort::name(0, &field).unwrap(), "\u{FFFD}A");
}

#[test]
fn name_reports_a_bad_device_id() {
    assert_eq!(WinMidiPort::name(2, &name_field("x")), Err(PortError::BadDeviceId));
}

#[test]
fn name_reports_other_statuses_with_their_code() {
    assert_eq!(WinMidiPort::name(6, &name_field("x")), Err(PortError::DeviceError(6)));
    assert_eq!(WinMidiPort::name(11, &[0u16; 32]), Err(PortError::DeviceError(11)));
}
