//! The device's command protocol: the 65-byte reports it exchanges, the
//! checks on each transfer, the decisions taken while polling its status,
//! and the split of long transfers into windows and chunks.
//!
//! The transport itself lives outside this crate: a driver builds each
//! report here, hands it over, and passes back what came in.
use vstd::prelude::*;

use crate::device::{FLASH_SIZE, SECTOR_COUNT};
use crate::{QoobError, QoobResult};

verus! {

/// Size of every report, report id included
pub const HID_BUFFER_SIZE: usize = 65;

/// Payload bytes carried by one data report
pub const DATA_TRANSFER_UNIT: usize = 63;

/// Largest number of bytes moved by one read or write command
pub const MAX_TRANSFER_SIZE: usize = 0x8000;

/// Manufacturer string of the device
pub const MANUFACTURER: &'static str = "QooB Team";

/// Product string of the device
pub const PRODUCT: &'static str = "QOOB Chip Pro";

/// USB vendor id of the device (Atmel Corp.)
pub const VENDOR_ID: u16 = 0x03eb;

/// USB product id of the device
pub const PRODUCT_ID: u16 = 0x0001;

/// The commands of the device
#[derive(Clone, Copy, Debug, PartialEq, Eq, Structural)]
pub enum QoobCmd {
    Reset,
    Erase,
    Write,
    Read,
    Status,
    Bus,
}

/// The opcode of a command, carried in byte 1 of its report.
pub open spec fn opcode_of(cmd: QoobCmd) -> u8 {
    match cmd {
        QoobCmd::Reset => 1,
        QoobCmd::Erase => 2,
        QoobCmd::Write => 3,
        QoobCmd::Read => 4,
        QoobCmd::Status => 5,
        QoobCmd::Bus => 8,
    }
}

impl QoobCmd {
    /// The opcode of the command
    pub fn opcode(&self) -> (r: u8)
        ensures
            r == opcode_of(*self),
    {
        match self {
            QoobCmd::Reset => 1,
            QoobCmd::Erase => 2,
            QoobCmd::Write => 3,
            QoobCmd::Read => 4,
            QoobCmd::Status => 5,
            QoobCmd::Bus => 8,
        }
    }
}

/// A report of command `cmd` with no argument: report id 0, the opcode,
/// and zeros.
pub open spec fn command_frame(cmd: QoobCmd) -> Seq<u8> {
    Seq::new(HID_BUFFER_SIZE as nat, |i: int| if i == 1 { opcode_of(cmd) } else { 0u8 })
}

/// The header report of a read or write of `len` bytes at `offset`: a
/// 24-bit big-endian offset in bytes 2 to 4, a 16-bit big-endian length in
/// bytes 5 and 6.
pub open spec fn transfer_frame(cmd: QoobCmd, offset: int, len: int) -> Seq<u8> {
    command_frame(cmd).update(2, (offset / 0x1_0000) as u8).update(
        3,
        (offset / 0x100 % 0x100) as u8,
    ).update(4, (offset % 0x100) as u8).update(5, (len / 0x100) as u8).update(
        6,
        (len % 0x100) as u8,
    )
}

/// A data report carrying `chunk` in bytes 2 onwards, zeros elsewhere.
pub open spec fn data_frame(chunk: Seq<u8>) -> Seq<u8> {
    Seq::new(
        HID_BUFFER_SIZE as nat,
        |i: int|
            if 2 <= i < 2 + chunk.len() {
                chunk[i - 2]
            } else {
                0u8
            },
    )
}

/// Number of data reports needed for `len` bytes.
pub open spec fn chunk_count(len: int) -> int {
    (len + DATA_TRANSFER_UNIT - 1) / DATA_TRANSFER_UNIT as int
}

/// The `k`-th chunk of `data`: at most `DATA_TRANSFER_UNIT` bytes.
pub open spec fn chunk_of(data: Seq<u8>, k: int) -> Seq<u8> {
    let start = k * DATA_TRANSFER_UNIT;
    let end = if start + DATA_TRANSFER_UNIT <= data.len() {
        start + DATA_TRANSFER_UNIT
    } else {
        data.len() as int
    };
    data.subrange(start, end)
}

/// Number of windows of at most `MAX_TRANSFER_SIZE` bytes for `len` bytes.
pub open spec fn window_count(len: int) -> int {
    (len + MAX_TRANSFER_SIZE - 1) / MAX_TRANSFER_SIZE as int
}

/// A report with the given opcode and zeros elsewhere.
fn command_report(cmd: QoobCmd) -> (r: [u8; HID_BUFFER_SIZE])
    ensures
        r@ == command_frame(cmd),
{
    let mut buf = [0u8; HID_BUFFER_SIZE];
    buf[1] = cmd.opcode();
    assert(buf@ =~= command_frame(cmd));
    buf
}

/// The report that queries the device's status
pub fn status_request() -> (r: [u8; HID_BUFFER_SIZE])
    ensures
        r@ == command_frame(QoobCmd::Status),
{
    command_report(QoobCmd::Status)
}

/// The report that resets the device
pub fn reset_request() -> (r: [u8; HID_BUFFER_SIZE])
    ensures
        r@ == command_frame(QoobCmd::Reset),
{
    command_report(QoobCmd::Reset)
}

/// The report that asks for the bus lock (`acquire`) or releases it
pub fn bus_request(acquire: bool) -> (r: [u8; HID_BUFFER_SIZE])
    ensures
        r@ == command_frame(QoobCmd::Bus).update(3, if acquire { 1u8 } else { 0u8 }),
{
    let mut buf = command_report(QoobCmd::Bus);
    buf[3] = if acquire { 1 } else { 0 };
    buf
}

/// The report that erases one sector
pub fn erase_request(sector: usize) -> (r: [u8; HID_BUFFER_SIZE])
    requires
        sector < SECTOR_COUNT,
    ensures
        r@ == command_frame(QoobCmd::Erase).update(2, sector as u8),
{
    let mut buf = command_report(QoobCmd::Erase);
    buf[2] = sector as u8;
    // The next two bytes would complete a sector-aligned offset; they stay 0.
    buf[3] = 0;
    buf[4] = 0;
    assert(buf@ =~= command_frame(QoobCmd::Erase).update(2, sector as u8));
    buf
}

/// The header report of a read or write of `len` bytes at `offset`
pub fn transfer_request(cmd: QoobCmd, offset: usize, len: usize) -> (r: [u8; HID_BUFFER_SIZE])
    requires
        cmd == QoobCmd::Read || cmd == QoobCmd::Write,
        len <= MAX_TRANSFER_SIZE,
        offset + len <= FLASH_SIZE,
    ensures
        r@ == transfer_frame(cmd, offset as int, len as int),
{
    let mut buf = command_report(cmd);
    buf[2] = (offset / 0x1_0000) as u8;
    buf[3] = (offset / 0x100 % 0x100) as u8;
    buf[4] = (offset % 0x100) as u8;
    buf[5] = (len / 0x100) as u8;
    buf[6] = (len % 0x100) as u8;
    buf
}

/// A data report carrying `chunk`
pub fn data_report(chunk: &[u8]) -> (r: [u8; HID_BUFFER_SIZE])
    requires
        chunk@.len() <= DATA_TRANSFER_UNIT,
    ensures
        r@ == data_frame(chunk@),
{
    let mut buf = [0u8; HID_BUFFER_SIZE];
    let mut i: usize = 0;
    while i < chunk.len()
        invariant
            chunk@.len() <= DATA_TRANSFER_UNIT,
            0 <= i <= chunk@.len(),
            forall|j: int|
                0 <= j < HID_BUFFER_SIZE ==> #[trigger] buf@[j] == if 2 <= j < 2 + i {
                    chunk@[j - 2]
                } else {
                    0u8
                },
        decreases chunk@.len() - i,
    {
        buf[2 + i] = chunk[i];
        i = i + 1;
    }
    assert(buf@ =~= data_frame(chunk@));
    buf
}

/// Check that a whole report went through
pub fn check_transfer(transferred: usize) -> (r: QoobResult<()>)
    ensures
        r is Ok <==> transferred == HID_BUFFER_SIZE,
        r is Err ==> r == Err::<(), QoobError>(
            QoobError::PartialTransfer { transferred, requested: HID_BUFFER_SIZE },
        ),
{
    if transferred != HID_BUFFER_SIZE {
        Err(QoobError::PartialTransfer { transferred, requested: HID_BUFFER_SIZE })
    } else {
        Ok(())
    }
}

/// What a status reply means while waiting for the bus lock: `Some(Ok)`
/// once it is held (bus byte 0), `Some(Err(BusBusy))` when the other consumer
/// holds it (bus byte with bit value 2 set), `None` to keep polling
pub fn acquire_status(reply: &[u8; HID_BUFFER_SIZE]) -> (r: Option<QoobResult<()>>)
    ensures
        reply[4] == 0 ==> r == Some(Ok::<(), QoobError>(())),
        reply[4] != 0 && reply[4] & 2 != 0 ==> r == Some(Err::<(), QoobError>(QoobError::BusBusy)),
        reply[4] != 0 && reply[4] & 2 == 0 ==> r is None,
{
    let status = reply[4];
    if status == 0 {
        Some(Ok(()))
    } else if status & 2 != 0 {
        Some(Err(QoobError::BusBusy))
    } else {
        None
    }
}

/// Whether a status reply shows the bus lock released (bus byte 1)
pub fn release_status(reply: &[u8; HID_BUFFER_SIZE]) -> (r: bool)
    ensures
        r == (reply[4] == 1),
{
    reply[4] == 1
}

/// Whether a status reply shows the sector erase finished (busy byte 0)
pub fn erase_status(reply: &[u8; HID_BUFFER_SIZE]) -> (r: bool)
    ensures
        r == (reply[2] == 0),
{
    reply[2] == 0
}

/// Copy the payload of a data reply into `dest` at `at`: as many bytes as
/// a chunk holds, or as are left. Returns how many were copied.
pub fn store_chunk(dest: &mut Vec<u8>, at: usize, reply: &[u8; HID_BUFFER_SIZE]) -> (n: usize)
    requires
        at < old(dest)@.len(),
    ensures
        n == if at + DATA_TRANSFER_UNIT <= old(dest)@.len() {
            DATA_TRANSFER_UNIT as int
        } else {
            old(dest)@.len() - at
        },
        final(dest)@ == old(dest)@.take(at as int) + reply@.subrange(2, 2 + n) + old(dest)@.skip(
            at + n,
        ),
{
    let n = if dest.len() - at >= DATA_TRANSFER_UNIT {
        DATA_TRANSFER_UNIT
    } else {
        dest.len() - at
    };
    let ghost d0 = dest@;
    let mut i: usize = 0;
    while i < n
        invariant
            n <= DATA_TRANSFER_UNIT,
            at + n <= d0.len(),
            dest@.len() == d0.len(),
            at + n <= dest.len(),
            0 <= i <= n,
            forall|j: int|
                0 <= j < d0.len() ==> #[trigger] dest@[j] == if at <= j < at + i {
                    reply@[j - at + 2]
                } else {
                    d0[j]
                },
        decreases n - i,
    {
        dest[at + i] = reply[2 + i];
        i = i + 1;
    }
    assert(dest@ =~= d0.take(at as int) + reply@.subrange(2, 2 + n) + d0.skip(at + n));
    n
}

/// All reports of a write of `source` at `offset`: the header report, then
/// one data report per chunk
pub fn write_reports(offset: usize, source: &[u8]) -> (r: Vec<[u8; HID_BUFFER_SIZE]>)
    requires
        source@.len() <= MAX_TRANSFER_SIZE,
        offset + source@.len() <= FLASH_SIZE,
    ensures
        r@.len() == 1 + chunk_count(source@.len() as int),
        r@[0]@ == transfer_frame(QoobCmd::Write, offset as int, source@.len() as int),
        forall|k: int|
            0 <= k < chunk_count(source@.len() as int) ==> (#[trigger] r@[1 + k])@ == data_frame(
                chunk_of(source@, k),
            ),
{
    let len = source.len();
    let mut reports = Vec::new();
    reports.push(transfer_request(QoobCmd::Write, offset, len));
    let mut at: usize = 0;
    let ghost mut k: int = 0;
    while at < len
        invariant
            len == source@.len() <= MAX_TRANSFER_SIZE,
            at == k * DATA_TRANSFER_UNIT,
            at <= len || k == chunk_count(len as int),
            0 <= k <= chunk_count(len as int),
            at < len ==> k < chunk_count(len as int),
            at >= len ==> k == chunk_count(len as int),
            reports@.len() == 1 + k,
            reports@[0]@ == transfer_frame(QoobCmd::Write, offset as int, len as int),
            forall|j: int| 0 <= j < k ==> (#[trigger] reports@[1 + j])@ == data_frame(chunk_of(source@, j)),
        decreases len + DATA_TRANSFER_UNIT - at,
    {
        let end = if len - at >= DATA_TRANSFER_UNIT {
            at + DATA_TRANSFER_UNIT
        } else {
            len
        };
        let chunk = &source[at..end];
        assert(chunk@ == chunk_of(source@, k));
        reports.push(data_report(chunk));
        proof {
            k = k + 1;
        }
        at = at + DATA_TRANSFER_UNIT;
    }
    reports
}

/// Split `len` bytes at `offset` into windows of at most
/// `MAX_TRANSFER_SIZE` bytes, as (offset, length) pairs in order
pub fn transfer_windows(offset: usize, len: usize) -> (r: Vec<(usize, usize)>)
    requires
        offset + len <= FLASH_SIZE,
    ensures
        r@.len() == window_count(len as int),
        forall|k: int|
            0 <= k < r@.len() ==> #[trigger] r@[k] == (
                (offset + k * MAX_TRANSFER_SIZE) as usize,
                if (k + 1) * MAX_TRANSFER_SIZE <= len {
                    MAX_TRANSFER_SIZE
                } else {
                    (len - k * MAX_TRANSFER_SIZE) as usize
                },
            ),
{
    let mut windows = Vec::new();
    let mut done: usize = 0;
    let ghost mut k: int = 0;
    while done < len
        invariant
            offset + len <= FLASH_SIZE,
            done == k * MAX_TRANSFER_SIZE,
            0 <= k <= window_count(len as int),
            done < len ==> k < window_count(len as int),
            done >= len ==> k == window_count(len as int),
            windows@.len() == k,
            forall|j: int|
                0 <= j < k ==> #[trigger] windows@[j] == (
                    (offset + j * MAX_TRANSFER_SIZE) as usize,
                    if (j + 1) * MAX_TRANSFER_SIZE <= len {
                        MAX_TRANSFER_SIZE
                    } else {
                        (len - j * MAX_TRANSFER_SIZE) as usize
                    },
                ),
        decreases len + MAX_TRANSFER_SIZE - done,
    {
        let n = if len - done >= MAX_TRANSFER_SIZE {
            MAX_TRANSFER_SIZE
        } else {
            len - done
        };
        windows.push((offset + done, n));
        proof {
            k = k + 1;
        }
        done = done + MAX_TRANSFER_SIZE;
    }
    windows
}

/// Whether two strings hold the same characters.
fn same_text(a: &str, b: &str) -> (r: bool)
    ensures
        r == (a@ == b@),
{
    let n = a.unicode_len();
    if n != b.unicode_len() {
        return false;
    }
    let mut i: usize = 0;
    while i < n
        invariant
            n == a@.len() == b@.len(),
            0 <= i <= n,
            forall|j: int| 0 <= j < i ==> a@[j] == b@[j],
        decreases n - i,
    {
        if a.get_char(i) != b.get_char(i) {
            return false;
        }
        i = i + 1;
    }
    assert(a@ =~= b@);
    true
}

/// Whether an optional string is present and equal to `expected`.
pub open spec fn names(s: Option<&str>, expected: &str) -> bool {
    match s {
        Some(t) => t@ == expected@,
        None => false,
    }
}

/// Whether an enumerated HID device is a Qoob: on USB, with its vendor and
/// product ids and its manufacturer and product strings
pub fn is_qoob_device(
    usb: bool,
    vendor_id: u16,
    product_id: u16,
    manufacturer: Option<&str>,
    product: Option<&str>,
) -> (r: bool)
    ensures
        r == (usb && vendor_id == VENDOR_ID && product_id == PRODUCT_ID && names(
            manufacturer,
            MANUFACTURER,
        ) && names(product, PRODUCT)),
{
    if !usb || vendor_id != VENDOR_ID || product_id != PRODUCT_ID {
        return false;
    }
    let m = match manufacturer {
        Some(m) => same_text(m, MANUFACTURER),
        None => false,
    };
    let p = match product {
        Some(p) => same_text(p, PRODUCT),
        None => false,
    };
    m && p
}

/// Accept exactly one matching device: `NoDev` when none matched,
/// `MultipleDevs` when more than one did
pub fn check_device_count(matching: usize) -> (r: QoobResult<()>)
    ensures
        matching == 0 ==> r == Err::<(), QoobError>(QoobError::NoDev),
        matching == 1 ==> r is Ok,
        matching > 1 ==> r == Err::<(), QoobError>(QoobError::MultipleDevs),
{
    if matching == 0 {
        Err(QoobError::NoDev)
    } else if matching > 1 {
        Err(QoobError::MultipleDevs)
    } else {
        Ok(())
    }
}

} // verus!
