use rqoob::device::{FLASH_SIZE, SECTOR_COUNT, SECTOR_SIZE};
use rqoob::fs::{verify_readback, FileType, QoobFs, RangeCheck, SectorOccupancy, HEADER_SIZE};
use rqoob::QoobError;

fn header_bytes(magic: &[u8; 4], size: u32) -> [u8; HEADER_SIZE] {
    let mut h = [0u8; HEADER_SIZE];
    h[..4].copy_from_slice(magic);
    h[4..9].copy_from_slice(b"hello");
    h[0xFC..].copy_from_slice(&size.to_be_bytes());
    h
}

fn payload(magic: &[u8; 4], len: usize) -> Vec<u8> {
    let mut data: Vec<u8> = (0..len).map(|i| (i % 251) as u8).collect();
    data[..HEADER_SIZE].copy_from_slice(&header_bytes(magic, len as u32));
    data
}

fn blank_flash() -> Vec<u8> {
    vec![0xFF; FLASH_SIZE]
}

fn put(flash: &mut [u8], offset: usize, bytes: &[u8]) {
    flash[offset..offset + bytes.len()].copy_from_slice(bytes);
}

/// Run a complete scan over an in-memory flash image, as a driver would
/// over the device.
fn scan(fs: &mut QoobFs, flash: &[u8]) {
    fs.begin_scan();
    while let Some(sector) = fs.scan_cursor() {
        let mut header = [0u8; HEADER_SIZE];
        let at = sector * SECTOR_SIZE;
        header.copy_from_slice(&flash[at..at + HEADER_SIZE]);
        fs.inspect_sector(&header);
    }
}

fn scanned(flash: &[u8]) -> QoobFs {
    let mut fs = QoobFs::new();
    scan(&mut fs, flash);
    fs
}

/// Prepare, write to the image and record a file, as a driver would.
fn write_file(fs: &mut QoobFs, flash: &mut [u8], slot: usize, data: &[u8]) -> Vec<u8> {
    let image = fs.prepare_write(slot, data).expect("write accepted");
    put(flash, slot * SECTOR_SIZE, &image);
    fs.commit_write(slot, &image).expect("write recorded");
    image
}

#[test]
fn new_index_is_unscanned() {
    let fs = QoobFs::new();
    assert_eq!(fs.scan_cursor(), Some(0));
    assert!(fs.iter_slots().iter().all(|s| *s == SectorOccupancy::Unknown));
}

#[test]
fn scan_single_config_file() {
    let mut flash = blank_flash();
    put(&mut flash, 0, &header_bytes(b"QCFG", 65536));
    let fs = scanned(&flash);
    assert_eq!(fs.scan_cursor(), None);
    let slots = fs.iter_slots();
    assert_eq!(slots.len(), SECTOR_COUNT);
    assert_eq!(slots[0], SectorOccupancy::Slot(0));
    for s in &slots[1..] {
        assert_eq!(*s, SectorOccupancy::Empty);
    }
    let info = fs.slot_info(0).unwrap();
    assert!(matches!(info.file_type(), FileType::Config));
    assert_eq!(info.size(), 65536);
    for slot in 1..SECTOR_COUNT {
        assert_eq!(fs.slot_info(slot).err(), Some(QoobError::NoSuchFile(slot)));
    }
}

#[test]
fn scan_skips_whole_span() {
    let mut flash = blank_flash();
    put(&mut flash, 2 * SECTOR_SIZE, &header_bytes(b"DOL\0", 3 * 65536));
    // Data inside the span that happens to look like a header is not a file.
    put(&mut flash, 3 * SECTOR_SIZE, &header_bytes(b"QCFG", 65536));
    let mut fs = QoobFs::new();
    fs.begin_scan();
    let mut visited = Vec::new();
    while let Some(sector) = fs.scan_cursor() {
        visited.push(sector);
        let mut header = [0u8; HEADER_SIZE];
        header.copy_from_slice(&flash[sector * SECTOR_SIZE..sector * SECTOR_SIZE + HEADER_SIZE]);
        fs.inspect_sector(&header);
    }
    assert_eq!(&visited[..4], &[0, 1, 2, 5]);
    assert_eq!(visited.len(), SECTOR_COUNT - 2);
    let slots = fs.iter_slots();
    assert_eq!(&slots[2..5], &[SectorOccupancy::Slot(2); 3]);
    assert!(fs.slot_info(3).is_err());
}

#[test]
fn scan_marks_unknown_sectors() {
    let mut flash = blank_flash();
    // Unknown magic
    put(&mut flash, 0, &header_bytes(b"ABCD", 65536));
    // Known magic, size below a header
    put(&mut flash, SECTOR_SIZE, &header_bytes(b"QCFG", 255));
    // Span past the end of flash
    put(&mut flash, 30 * SECTOR_SIZE, &header_bytes(b"ELF\0", 3 * 65536));
    // A single non-blank byte
    flash[5 * SECTOR_SIZE + 100] = 0;
    let fs = scanned(&flash);
    let slots = fs.iter_slots();
    assert_eq!(slots[0], SectorOccupancy::Unknown);
    assert_eq!(slots[1], SectorOccupancy::Unknown);
    assert_eq!(slots[5], SectorOccupancy::Unknown);
    assert_eq!(slots[30], SectorOccupancy::Unknown);
    assert_eq!(slots[31], SectorOccupancy::Empty);
    assert_eq!(slots[2], SectorOccupancy::Empty);
}

#[test]
fn scan_accepts_file_ending_on_last_sector() {
    let mut flash = blank_flash();
    put(&mut flash, 30 * SECTOR_SIZE, &header_bytes(b"ELF\0", 2 * 65536));
    let fs = scanned(&flash);
    assert_eq!(fs.iter_slots()[30], SectorOccupancy::Slot(30));
    assert_eq!(fs.iter_slots()[31], SectorOccupancy::Slot(30));
}

#[test]
fn rescan_forgets_previous_state() {
    let mut flash = blank_flash();
    put(&mut flash, 0, &header_bytes(b"QCFG", 65536));
    let mut fs = scanned(&flash);
    let blank = blank_flash();
    scan(&mut fs, &blank);
    assert!(fs.slot_info(0).is_err());
    assert!(fs.iter_slots().iter().all(|s| *s == SectorOccupancy::Empty));
}

#[test]
fn write_rounds_dol_to_two_sectors() {
    let mut flash = blank_flash();
    let mut fs = scanned(&flash);
    let data = payload(b"DOL\0", 70000);
    let image = write_file(&mut fs, &mut flash, 5, &data);
    assert_eq!(image.len(), 70000);
    assert_eq!(&image[0xFC..0x100], &131072u32.to_be_bytes());
    let slots = fs.iter_slots();
    assert_eq!(slots[5], SectorOccupancy::Slot(5));
    assert_eq!(slots[6], SectorOccupancy::Slot(5));
    assert_eq!(slots[4], SectorOccupancy::Empty);
    assert_eq!(slots[7], SectorOccupancy::Empty);
    let info = fs.slot_info(5).unwrap();
    assert_eq!(info.size(), 131072);
    assert_eq!(info.sector_count(), 2);
}

#[test]
fn write_rejected_when_other_file_continues_into_range() {
    let mut flash = blank_flash();
    put(&mut flash, 3 * SECTOR_SIZE, &header_bytes(b"QPIC", 4 * 65536));
    let fs = scanned(&flash);
    assert_eq!(fs.iter_slots()[6], SectorOccupancy::Slot(3));
    assert_eq!(fs.check_dest_range(5..7), RangeCheck::Overlap);
    let data = payload(b"DOL\0", 70000);
    assert_eq!(fs.prepare_write(5, &data).err(), Some(QoobError::RangeOccupied));
}

#[test]
fn verification_failure_keeps_index_updated() {
    let mut flash = blank_flash();
    let mut fs = scanned(&flash);
    let data = payload(b"DOL\0", 70000);
    let image = write_file(&mut fs, &mut flash, 5, &data);
    let mut readback = flash[5 * SECTOR_SIZE..5 * SECTOR_SIZE + image.len()].to_vec();
    assert_eq!(verify_readback(&image, &readback), Ok(()));
    readback[1234] ^= 0x01;
    assert_eq!(verify_readback(&image, &readback), Err(QoobError::VerificationError));
    // The index is not rolled back ...
    assert_eq!(fs.iter_slots()[5], SectorOccupancy::Slot(5));
    assert_eq!(fs.slot_info(5).unwrap().size(), 131072);
    // ... and a new scan finds the header that was written.
    let rescanned = scanned(&flash);
    assert_eq!(rescanned.iter_slots()[5], SectorOccupancy::Slot(5));
    assert_eq!(rescanned.iter_slots()[6], SectorOccupancy::Slot(5));
    assert_eq!(rescanned.slot_info(5).unwrap().0[..], image[..HEADER_SIZE]);
}

#[test]
fn readback_of_other_length_fails() {
    assert_eq!(verify_readback(&[1, 2, 3], &[1, 2]), Err(QoobError::VerificationError));
    assert_eq!(verify_readback(&[], &[]), Ok(()));
}

#[test]
fn write_then_read_round_trips() {
    let mut flash = blank_flash();
    let mut fs = scanned(&flash);
    let data = payload(b"BIN\0", 100_000);
    write_file(&mut fs, &mut flash, 9, &data);
    let (offset, len) = fs.read_range(9).unwrap();
    assert_eq!(offset, 9 * SECTOR_SIZE);
    assert_eq!(len, 2 * SECTOR_SIZE);
    let back = &flash[offset..offset + len];
    assert_eq!(&back[..0xFC], &data[..0xFC]);
    assert_eq!(&back[0x100..data.len()], &data[0x100..]);
    assert_eq!(&back[0xFC..0x100], &131072u32.to_be_bytes());
}

#[test]
fn read_of_missing_file_fails() {
    let fs = scanned(&blank_flash());
    assert_eq!(fs.read_range(4), Err(QoobError::NoSuchFile(4)));
    assert_eq!(fs.read_range(99), Err(QoobError::NoSuchFile(99)));
}

#[test]
fn remove_then_rescan_is_empty() {
    let mut flash = blank_flash();
    put(&mut flash, 0, &header_bytes(b"QCFG", 65536));
    put(&mut flash, 4 * SECTOR_SIZE, &header_bytes(b"QCHT", 3 * 65536));
    let mut fs = scanned(&flash);
    let range = fs.removal_range(4).unwrap();
    assert_eq!(range, 4..7);
    for sector in range {
        put(&mut flash, sector * SECTOR_SIZE, &vec![0xFF; SECTOR_SIZE]);
    }
    fs.mark_removed(4).unwrap();
    assert!(fs.slot_info(4).is_err());
    assert_eq!(&fs.iter_slots()[4..7], &[SectorOccupancy::Empty; 3]);
    let rescanned = scanned(&flash);
    assert_eq!(&rescanned.iter_slots()[4..7], &[SectorOccupancy::Empty; 3]);
    assert_eq!(rescanned.iter_slots()[0], SectorOccupancy::Slot(0));
}

#[test]
fn remove_of_missing_file_fails() {
    let mut fs = scanned(&blank_flash());
    assert_eq!(fs.removal_range(3), Err(QoobError::NoSuchFile(3)));
    assert_eq!(fs.mark_removed(3), Err(QoobError::NoSuchFile(3)));
}

#[test]
fn range_check_is_stable() {
    let mut flash = blank_flash();
    put(&mut flash, 2 * SECTOR_SIZE, &header_bytes(b"QCFG", 2 * 65536));
    flash[8 * SECTOR_SIZE] = 0;
    let fs = scanned(&flash);
    for (start, end) in [(0, 2), (1, 3), (2, 4), (2, 5), (7, 9), (30, 33), (0, 0)] {
        assert_eq!(fs.check_dest_range(start..end), fs.check_dest_range(start..end));
    }
}

#[test]
fn range_check_outcomes() {
    let mut flash = blank_flash();
    put(&mut flash, 2 * SECTOR_SIZE, &header_bytes(b"QCFG", 2 * 65536));
    flash[8 * SECTOR_SIZE] = 0;
    let fs = scanned(&flash);
    assert_eq!(fs.check_dest_range(0..2), RangeCheck::Empty);
    // Exactly the file that starts there: in-place rewrite allowed
    assert_eq!(fs.check_dest_range(2..4), RangeCheck::Empty);
    // Part of it, or more than it
    assert_eq!(fs.check_dest_range(2..3), RangeCheck::Occupied);
    assert_eq!(fs.check_dest_range(2..5), RangeCheck::Occupied);
    // Another file's start or continuation
    assert_eq!(fs.check_dest_range(1..3), RangeCheck::Overlap);
    assert_eq!(fs.check_dest_range(3..4), RangeCheck::Overlap);
    // Unidentified data
    assert_eq!(fs.check_dest_range(7..9), RangeCheck::Occupied);
    // Past the end of flash
    assert_eq!(fs.check_dest_range(31..33), RangeCheck::Overflow);
    assert_eq!(fs.check_dest_range(30..32), RangeCheck::Empty);
}

#[test]
fn rewrite_in_place_is_accepted() {
    let mut flash = blank_flash();
    let mut fs = scanned(&flash);
    write_file(&mut fs, &mut flash, 10, &payload(b"ELF\0", 3 * 65536));
    let again = payload(b"SWIS", 2 * 65536 + 10);
    assert_eq!(fs.check_dest_range(10..13), RangeCheck::Empty);
    write_file(&mut fs, &mut flash, 10, &again);
    assert!(matches!(fs.slot_info(10).unwrap().file_type(), FileType::Swiss));
    assert_eq!(&fs.iter_slots()[10..13], &[SectorOccupancy::Slot(10); 3]);
}

#[test]
fn write_over_other_file_start_overlaps() {
    let mut flash = blank_flash();
    let mut fs = scanned(&flash);
    write_file(&mut fs, &mut flash, 6, &payload(b"ELF\0", 65536));
    assert_eq!(fs.check_dest_range(5..7), RangeCheck::Overlap);
    assert_eq!(
        fs.prepare_write(5, &payload(b"DOL\0", 70000)).err(),
        Some(QoobError::RangeOccupied)
    );
}

#[test]
fn short_payload_is_invalid() {
    let fs = scanned(&blank_flash());
    let mut data = vec![0u8; 255];
    data[..4].copy_from_slice(b"QCFG");
    assert_eq!(fs.prepare_write(0, &data).err(), Some(QoobError::InvalidHeader));
    assert_eq!(fs.prepare_write(0, &[]).err(), Some(QoobError::InvalidHeader));
}

#[test]
fn invalid_header_is_rejected_before_range_check() {
    let mut flash = blank_flash();
    flash[0] = 0;
    let fs = scanned(&flash);
    let mut data = payload(b"DOL\0", 70000);
    data[0] = b'X';
    assert_eq!(fs.prepare_write(0, &data).err(), Some(QoobError::InvalidHeader));
}

#[test]
fn payload_past_end_is_too_big() {
    let mut flash = blank_flash();
    let mut fs = scanned(&flash);
    let two = payload(b"DOL\0", 70000);
    assert_eq!(fs.prepare_write(31, &two).err(), Some(QoobError::TooBig));
    assert_eq!(fs.prepare_write(40, &two).err(), Some(QoobError::TooBig));
    assert_eq!(fs.prepare_write(usize::MAX, &two).err(), Some(QoobError::TooBig));
    assert_eq!(fs.commit_write(31, &two), Err(QoobError::TooBig));
    // A file that ends on the last sector fits.
    write_file(&mut fs, &mut flash, 30, &two);
    assert_eq!(fs.iter_slots()[31], SectorOccupancy::Slot(30));
}

#[test]
fn commit_checks_like_prepare() {
    let mut fs = scanned(&blank_flash());
    let data = payload(b"DOL\0", 70000);
    let image = fs.prepare_write(3, &data).unwrap();
    assert_eq!(fs.commit_write(3, &image), Ok(()));
    assert_eq!(fs.commit_write(4, &image), Err(QoobError::RangeOccupied));
    assert_eq!(fs.commit_write(4, &image[..100]), Err(QoobError::InvalidHeader));
    assert_eq!(fs.iter_slots()[5], SectorOccupancy::Empty);
}
