use respeaker_algo::audio::CaptureBlock;
use respeaker_algo::pipeline_worker::SendOutcome;
use respeaker_algo::wasapi::{
    capture_period, find_device, find_respeaker, init_com, open_failed,
    pick_respeaker_input_device, try_send_capture_block, CaptureSendOutcome, PacketCounter,
    WasapiDeviceInfo, DEVICE_IN_USE,
};
use std::sync::mpsc::{sync_channel, SyncSender, TrySendError};

fn silent_block(sequence: u64) -> CaptureBlock {
    CaptureBlock::from_samples(sequence, sequence, vec![0i16; 6]).unwrap()
}

fn offer(tx: &SyncSender<CaptureBlock>, block: CaptureBlock) -> SendOutcome {
    match tx.try_send(block) {
        Ok(()) => SendOutcome::Sent,
        Err(TrySendError::Full(_)) => SendOutcome::Full,
        Err(TrySendError::Disconnected(_)) => SendOutcome::Disconnected,
    }
}

fn device(name: &str, id: &str) -> WasapiDeviceInfo {
    WasapiDeviceInfo { name: name.into(), id: id.into() }
}

#[test]
fn capture_overrun_remains_fatal() {
    let (tx, _rx) = sync_channel(1);
    let mut stop = false;
    assert_eq!(
        try_send_capture_block(offer(&tx, silent_block(0)), &mut stop).unwrap(),
        CaptureSendOutcome::Sent
    );
    let error = try_send_capture_block(offer(&tx, silent_block(1)), &mut stop).unwrap_err();
    assert!(error.contains("overrun"), "{error}");
    assert!(stop);
}

#[test]
fn unexpected_capture_disconnect_is_an_error() {
    let (tx, rx) = sync_channel(1);
    drop(rx);
    let mut stop = false;
    let error = try_send_capture_block(offer(&tx, silent_block(0)), &mut stop).unwrap_err();
    assert!(error.contains("disconnected"), "{error}");
    assert!(!stop);
}

#[test]
fn capture_disconnect_after_stop_is_normal() {
    let (tx, rx) = sync_channel(1);
    drop(rx);
    let mut stop = true;
    assert_eq!(
        try_send_capture_block(offer(&tx, silent_block(0)), &mut stop).unwrap(),
        CaptureSendOutcome::ConsumerStopped
    );
}

#[test]
fn the_first_array_is_taken_whatever_its_case() {
    let picked = pick_respeaker_input_device(vec![
        device("Headset", "1"),
        device("Line (RESPEAKER 4 Mic)", "2"),
        device("ReSpeaker", "3"),
    ])
    .unwrap();
    assert_eq!(picked.id, "2");
    assert_eq!(
        pick_respeaker_input_device(vec![]).unwrap_err(),
        "未找到任何音频输入设备"
    );
    assert_eq!(
        pick_respeaker_input_device(vec![device("Headset", "1")]).unwrap_err(),
        "未找到名称包含 ReSpeaker 的输入设备；请确认设备已连接"
    );
}

#[test]
fn names_are_compared_in_lower_case() {
    assert_eq!(find_respeaker(&["a".into(), "my respeaker".into()]), Some(1));
    assert_eq!(find_respeaker(&["ReSpeaker".into()]), None);
    assert_eq!(find_respeaker(&[]), None);
}

#[test]
fn com_codes_below_zero_are_failures() {
    assert!(init_com(0).is_ok());
    assert!(init_com(1).is_ok());
    assert_eq!(
        init_com(0x8001_0106u32 as i32).unwrap_err(),
        "COM 初始化失败: HRESULT=0x80010106"
    );
    assert_eq!(init_com(-1).unwrap_err(), format!("COM 初始化失败: HRESULT={:#x}", u32::MAX));
}

#[test]
fn devices_are_found_again_by_id() {
    let ids = [None, Some("a".to_string()), Some("b".to_string()), Some("b".to_string())];
    assert_eq!(find_device(&ids, "b", "Array"), Ok(2));
    assert_eq!(find_device(&ids, "c", "Array").unwrap_err(), "设备 Array 已断开");
}

#[test]
fn the_shortest_period_is_preferred() {
    assert_eq!(capture_period(100_000, 30_000), 30_000);
    assert_eq!(capture_period(100_000, 0), 100_000);
}

#[test]
fn busy_devices_are_told_apart() {
    let busy = open_failed("Array", Some(DEVICE_IN_USE), 16_000, 6, "x");
    assert!(busy.starts_with("设备 Array 正被其它程序占用"), "{busy}");
    let other = open_failed("Array", Some(1), 16_000, 6, "x");
    assert_eq!(
        other,
        "AudioClient 独占初始化失败（16000Hz/6ch）: x\n该设备可能不支持此格式，或需先释放设备占用。"
    );
    assert_eq!(open_failed("Array", None, 16_000, 6, "x"), other);
}

#[test]
fn packets_become_contiguous_blocks() {
    let mut counter = PacketCounter::new();
    let mut data = vec![0u8; 64];
    data[0] = 0x34;
    data[1] = 0x12;
    data[3] = 0x80;
    let first = counter.next_block(2, 6, false, &data).unwrap();
    assert_eq!(first.samples.len(), 12);
    assert_eq!((first.samples[0], first.samples[1]), (0x1234, i16::MIN));
    assert_eq!((first.sequence, first.start_frame, first.frames), (0, 0, 2));
    let second = counter.next_block(3, 6, true, &[]).unwrap();
    assert!(second.samples.iter().all(|s| *s == 0));
    assert_eq!((second.sequence, second.start_frame, second.frames), (1, 2, 3));
    assert_eq!((counter.sequence, counter.total_frames), (2, 5));
    assert_eq!(
        counter.next_block(1, 4, false, &data).unwrap_err(),
        "采样块长度 4 不是 6 的整数倍"
    );
    assert_eq!((counter.sequence, counter.total_frames), (2, 5));
}
