use rqoob::protocol::{
    acquire_status, bus_request, check_device_count, check_transfer, data_report, erase_request,
    erase_status, is_qoob_device, release_status, reset_request, status_request, store_chunk,
    transfer_request, transfer_windows, write_reports, QoobCmd, DATA_TRANSFER_UNIT,
    HID_BUFFER_SIZE, MAX_TRANSFER_SIZE,
};
use rqoob::QoobError;

fn reply_with(index: usize, value: u8) -> [u8; HID_BUFFER_SIZE] {
    let mut r = [0u8; HID_BUFFER_SIZE];
    r[index] = value;
    r
}

#[test]
fn opcodes() {
    assert_eq!(QoobCmd::Reset.opcode(), 1);
    assert_eq!(QoobCmd::Erase.opcode(), 2);
    assert_eq!(QoobCmd::Write.opcode(), 3);
    assert_eq!(QoobCmd::Read.opcode(), 4);
    assert_eq!(QoobCmd::Status.opcode(), 5);
    assert_eq!(QoobCmd::Bus.opcode(), 8);
}

#[test]
fn simple_requests() {
    let s = status_request();
    assert_eq!(s.len(), 65);
    assert_eq!(s[0], 0);
    assert_eq!(s[1], 5);
    assert!(s[2..].iter().all(|&b| b == 0));
    let r = reset_request();
    assert_eq!(r[1], 1);
    assert!(r[2..].iter().all(|&b| b == 0));
}

#[test]
fn bus_requests() {
    let acquire = bus_request(true);
    assert_eq!((acquire[0], acquire[1], acquire[2], acquire[3]), (0, 8, 0, 1));
    let release = bus_request(false);
    assert_eq!((release[0], release[1], release[2], release[3]), (0, 8, 0, 0));
}

#[test]
fn erase_request_names_sector() {
    let e = erase_request(17);
    assert_eq!(&e[..5], &[0, 2, 17, 0, 0]);
    assert!(e[5..].iter().all(|&b| b == 0));
}

#[test]
fn transfer_request_encodes_offset_and_length() {
    let r = transfer_request(QoobCmd::Read, 0x12_3456, 0x7ABC);
    assert_eq!(&r[..7], &[0, 4, 0x12, 0x34, 0x56, 0x7A, 0xBC]);
    assert!(r[7..].iter().all(|&b| b == 0));
    let w = transfer_request(QoobCmd::Write, 0x1F_8000, MAX_TRANSFER_SIZE);
    assert_eq!(&w[..7], &[0, 3, 0x1F, 0x80, 0x00, 0x80, 0x00]);
}

#[test]
fn data_report_places_chunk() {
    let chunk: Vec<u8> = (1..=DATA_TRANSFER_UNIT as u8).collect();
    let r = data_report(&chunk);
    assert_eq!(&r[..2], &[0, 0]);
    assert_eq!(&r[2..], &chunk[..]);
    let short = data_report(&[9, 8, 7]);
    assert_eq!(&short[..6], &[0, 0, 9, 8, 7, 0]);
    assert!(short[5..].iter().all(|&b| b == 0));
}

#[test]
fn transfers_must_be_whole() {
    assert_eq!(check_transfer(65), Ok(()));
    assert_eq!(
        check_transfer(64),
        Err(QoobError::PartialTransfer { transferred: 64, requested: 65 })
    );
    assert_eq!(
        check_transfer(0),
        Err(QoobError::PartialTransfer { transferred: 0, requested: 65 })
    );
}

#[test]
fn acquire_polling() {
    assert_eq!(acquire_status(&reply_with(4, 0)), Some(Ok(())));
    assert_eq!(acquire_status(&reply_with(4, 2)), Some(Err(QoobError::BusBusy)));
    assert_eq!(acquire_status(&reply_with(4, 3)), Some(Err(QoobError::BusBusy)));
    assert_eq!(acquire_status(&reply_with(4, 1)), None);
    assert_eq!(acquire_status(&reply_with(4, 4)), None);
}

#[test]
fn release_and_erase_polling() {
    assert!(release_status(&reply_with(4, 1)));
    assert!(!release_status(&reply_with(4, 0)));
    assert!(!release_status(&reply_with(4, 3)));
    assert!(erase_status(&reply_with(4, 1)));
    assert!(!erase_status(&reply_with(2, 1)));
}

#[test]
fn chunks_are_stored_in_place() {
    let mut dest = vec![0xAAu8; 100];
    let mut reply = [0u8; HID_BUFFER_SIZE];
    for (i, b) in reply.iter_mut().enumerate() {
        *b = i as u8;
    }
    assert_eq!(store_chunk(&mut dest, 0, &reply), 63);
    assert_eq!(&dest[..63], &reply[2..65]);
    assert_eq!(store_chunk(&mut dest, 63, &reply), 37);
    assert_eq!(&dest[63..], &reply[2..39]);
    let mut mid = vec![0xAAu8; 10];
    assert_eq!(store_chunk(&mut mid, 8, &reply), 2);
    assert_eq!(mid, vec![0xAA, 0xAA, 0xAA, 0xAA, 0xAA, 0xAA, 0xAA, 0xAA, 2, 3]);
}

#[test]
fn write_reports_cover_source() {
    let source: Vec<u8> = (0..200u32).map(|i| (i * 7) as u8).collect();
    let reports = write_reports(0x1_0000, &source);
    assert_eq!(reports.len(), 1 + 4);
    assert_eq!(&reports[0][..7], &[0, 3, 0x01, 0x00, 0x00, 0x00, 200]);
    let mut carried = Vec::new();
    for (k, r) in reports[1..].iter().enumerate() {
        assert_eq!(&r[..2], &[0, 0]);
        let n = if k < 3 { 63 } else { 200 - 3 * 63 };
        carried.extend_from_slice(&r[2..2 + n]);
        assert!(r[2 + n..].iter().all(|&b| b == 0));
    }
    assert_eq!(carried, source);
    assert_eq!(write_reports(0, &[]).len(), 1);
}

#[test]
fn windows_split_long_transfers() {
    assert_eq!(
        transfer_windows(0, 70000),
        vec![(0, 32768), (32768, 32768), (65536, 70000 - 65536)]
    );
    assert_eq!(transfer_windows(0x1_0000, 0x8000), vec![(0x1_0000, 0x8000)]);
    assert_eq!(transfer_windows(5, 0), vec![]);
    let all = transfer_windows(0, 0x20_0000);
    assert_eq!(all.len(), 64);
    assert_eq!(all[63], (0x1F_8000, 0x8000));
}

#[test]
fn device_identity() {
    assert!(is_qoob_device(true, 0x03eb, 0x0001, Some("QooB Team"), Some("QOOB Chip Pro")));
    assert!(!is_qoob_device(false, 0x03eb, 0x0001, Some("QooB Team"), Some("QOOB Chip Pro")));
    assert!(!is_qoob_device(true, 0x03ec, 0x0001, Some("QooB Team"), Some("QOOB Chip Pro")));
    assert!(!is_qoob_device(true, 0x03eb, 0x0002, Some("QooB Team"), Some("QOOB Chip Pro")));
    assert!(!is_qoob_device(true, 0x03eb, 0x0001, Some("Qoob Team"), Some("QOOB Chip Pro")));
    assert!(!is_qoob_device(true, 0x03eb, 0x0001, Some("QooB Team"), Some("QOOB Chip")));
    assert!(!is_qoob_device(true, 0x03eb, 0x0001, None, Some("QOOB Chip Pro")));
    assert!(!is_qoob_device(true, 0x03eb, 0x0001, Some("QooB Team"), None));
}

#[test]
fn exactly_one_device() {
    assert_eq!(check_device_count(0), Err(QoobError::NoDev));
    assert_eq!(check_device_count(1), Ok(()));
    assert_eq!(check_device_count(2), Err(QoobError::MultipleDevs));
}
