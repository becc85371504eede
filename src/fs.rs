//! The slot-based file table: an occupancy map of the 32 sectors and the
//! headers of the files that start in them, rebuilt by scanning flash and
//! kept up to date by writes and removals.
use std::collections::HashMap;
use vstd::prelude::*;
use vstd::std_specs::hash::group_hash_axioms;

use crate::device::{SECTOR_COUNT, SECTOR_SIZE};
pub use crate::header::{validate_header, FileType, Header, HEADER_SIZE};
use crate::header::{declared_size, declared_span, known_magic, valid_payload, SIZE_OFFSET};
use crate::{QoobError, QoobResult};

verus! {

broadcast use group_hash_axioms;

/// Describes the contents of a sector
#[derive(Clone, Copy, Debug, PartialEq, Eq, Structural)]
pub enum SectorOccupancy {
    /// Sector is blank
    Empty,
    /// Sector is not blank, but the contents could not be identified
    Unknown,
    /// Sector contains a file starting in a given sector
    Slot(usize),
}

/// The result of a pre-write range check
#[derive(Clone, Copy, Debug, PartialEq, Eq, Structural)]
pub enum RangeCheck {
    /// The destination range is blank, or is exactly the file that starts
    /// where it starts
    Empty,
    /// The destination range holds unidentified data, or only part of the
    /// file that starts where it starts
    Occupied,
    /// The destination range is obstructed by another file
    Overlap,
    /// The destination range overflows flash
    Overflow,
}

/// Whether `h`, found at the start of sector `c`, opens a file: a known
/// type, a size of at least a header, and a span that ends within flash.
pub open spec fn opens_file(h: Seq<u8>, c: int) -> bool {
    &&& known_magic(h)
    &&& declared_size(h) >= HEADER_SIZE
    &&& c + declared_span(h) <= SECTOR_COUNT
}

/// Whether all bytes of `h` are 0xFF, as in an erased sector.
pub open spec fn is_blank(h: Seq<u8>) -> bool {
    forall|i: int| 0 <= i < h.len() ==> h[i] == 0xFF
}

/// What a range check reports for the sectors `start..end` of `sectors`.
pub open spec fn range_status(sectors: Seq<SectorOccupancy>, start: int, end: int) -> RangeCheck {
    if end > SECTOR_COUNT {
        RangeCheck::Overflow
    } else if exists|i: int|
        start <= i < end && (#[trigger] sectors[i]) is Slot && sectors[i]->Slot_0 != start {
        RangeCheck::Overlap
    } else if forall|i: int| start <= i < end ==> #[trigger] sectors[i] == SectorOccupancy::Empty {
        RangeCheck::Empty
    } else if (forall|i: int|
        start <= i < end ==> #[trigger] sectors[i] == SectorOccupancy::Slot(start as usize)) && (end
        == SECTOR_COUNT || sectors[end] != SectorOccupancy::Slot(start as usize)) {
        RangeCheck::Empty
    } else {
        RangeCheck::Occupied
    }
}

/// The big-endian encoding of `n` (below 2^32) in four bytes.
pub open spec fn be32_bytes(n: int) -> Seq<u8> {
    seq![
        (n / 0x100_0000) as u8,
        (n / 0x1_0000 % 0x100) as u8,
        (n / 0x100 % 0x100) as u8,
        (n % 0x100) as u8,
    ]
}

/// The bytes actually stored for a payload: the payload itself, with the
/// size field set to the allocation in bytes, a whole number of sectors.
pub open spec fn prepared_image(data: Seq<u8>) -> Seq<u8> {
    data.take(SIZE_OFFSET as int) + be32_bytes(declared_span(data) * SECTOR_SIZE) + data.skip(
        HEADER_SIZE as int,
    )
}

/// The abstract state of a [`QoobFs`]: the occupancy of each sector, the
/// header of each file by the sector it starts in, and how far the current
/// scan has got.
pub ghost struct FsView {
    pub sectors: Seq<SectorOccupancy>,
    pub toc: Map<usize, Seq<u8>>,
    pub cursor: nat,
}

impl FsView {
    /// The state before a scan: every sector `Unknown`, no file.
    pub open spec fn unscanned() -> FsView {
        FsView {
            sectors: Seq::new(SECTOR_COUNT as nat, |i: int| SectorOccupancy::Unknown),
            toc: Map::empty(),
            cursor: 0,
        }
    }

    /// File `n` is recorded in the table, with a header that opens a file in
    /// sector `n`, and every sector of its span is marked as its own.
    pub open spec fn holds_file(self, n: usize) -> bool {
        &&& n < SECTOR_COUNT
        &&& opens_file(self.toc[n], n as int)
        &&& forall|i: int|
            n <= i < n + declared_span(self.toc[n]) ==> #[trigger] self.sectors[i]
                == SectorOccupancy::Slot(n)
    }

    /// The occupancy map and the table agree: a sector marked `Slot(n)` lies
    /// in the span of file `n`, each file of the table holds its span, and
    /// the sectors that the current scan has not reached yet are `Unknown`.
    pub open spec fn wf(self) -> bool {
        &&& self.sectors.len() == SECTOR_COUNT
        &&& self.cursor <= SECTOR_COUNT
        &&& forall|i: int|
            self.cursor <= i < SECTOR_COUNT ==> #[trigger] self.sectors[i]
                == SectorOccupancy::Unknown
        &&& forall|i: int|
            0 <= i < SECTOR_COUNT && (#[trigger] self.sectors[i]) is Slot ==> {
                let n = self.sectors[i]->Slot_0;
                &&& self.toc.contains_key(n)
                &&& n <= i < n + declared_span(self.toc[n])
            }
        &&& forall|n: usize| #[trigger] self.toc.contains_key(n) ==> self.holds_file(n)
    }

    /// Whether writing `data` at `slot` may go ahead, and if not, why: the
    /// payload must start with a valid header, and the destination range
    /// check for its span must report `Empty`.
    pub open spec fn write_check(self, slot: int, data: Seq<u8>) -> QoobResult<()> {
        if !valid_payload(data) {
            Err(QoobError::InvalidHeader)
        } else {
            match range_status(self.sectors, slot, slot + declared_span(data)) {
                RangeCheck::Empty => Ok(()),
                RangeCheck::Overflow => Err(QoobError::TooBig),
                _ => Err(QoobError::RangeOccupied),
            }
        }
    }

    /// The state after a file whose header bytes are `h` has been recorded
    /// at `slot`.
    pub open spec fn after_write(self, slot: int, h: Seq<u8>) -> FsView {
        FsView {
            sectors: Seq::new(
                SECTOR_COUNT as nat,
                |i: int|
                    if slot <= i < slot + declared_span(h) {
                        SectorOccupancy::Slot(slot as usize)
                    } else {
                        self.sectors[i]
                    },
            ),
            toc: self.toc.insert(slot as usize, h),
            cursor: self.cursor,
        }
    }

    /// The state after file `slot` has been erased: its sectors are blank and
    /// it is gone from the table.
    pub open spec fn after_remove(self, slot: usize) -> FsView {
        let span = declared_span(self.toc[slot]);
        FsView {
            sectors: Seq::new(
                SECTOR_COUNT as nat,
                |i: int|
                    if slot <= i < slot + span {
                        SectorOccupancy::Empty
                    } else {
                        self.sectors[i]
                    },
            ),
            toc: self.toc.remove(slot),
            cursor: self.cursor,
        }
    }

    /// The state after the sector at the cursor, whose first bytes are `h`,
    /// has been classified.
    pub open spec fn after_inspect(self, h: [u8; HEADER_SIZE]) -> FsView {
        let c = self.cursor as int;
        if is_blank(h@) {
            FsView {
                sectors: self.sectors.update(c, SectorOccupancy::Empty),
                cursor: (c + 1) as nat,
                ..self
            }
        } else if opens_file(h@, c) {
            let span = declared_span(h@);
            FsView {
                sectors: Seq::new(
                    SECTOR_COUNT as nat,
                    |i: int|
                        if c <= i < c + span {
                            SectorOccupancy::Slot(c as usize)
                        } else {
                            self.sectors[i]
                        },
                ),
                toc: self.toc.insert(c as usize, h@),
                cursor: (c + span) as nat,
            }
        } else {
            FsView {
                sectors: self.sectors.update(c, SectorOccupancy::Unknown),
                cursor: (c + 1) as nat,
                ..self
            }
        }
    }
}

/// The in-memory index of the files in flash
///
/// This API uses sectors as the addressing unit
pub struct QoobFs {
    sector_map: [SectorOccupancy; SECTOR_COUNT],
    toc: HashMap<usize, Header>,
    cursor: usize,
}

impl View for QoobFs {
    type V = FsView;

    closed spec fn view(&self) -> FsView {
        FsView {
            sectors: self.sector_map@,
            toc: self.toc@.map_values(|h: Header| h@),
            cursor: self.cursor as nat,
        }
    }
}

impl QoobFs {
    /// An index with no sector classified yet, ready for a scan
    pub fn new() -> (r: QoobFs)
        ensures
            r@.wf(),
            r@.cursor == 0,
            r@.toc.is_empty(),
            forall|i: int| 0 <= i < SECTOR_COUNT ==> r@.sectors[i] == SectorOccupancy::Unknown,
    {
        let r = QoobFs {
            sector_map: [SectorOccupancy::Unknown; SECTOR_COUNT],
            toc: HashMap::new(),
            cursor: 0,
        };
        assert(r@.toc =~= Map::<usize, Seq<u8>>::empty());
        r
    }

    /// Occupancy status of every sector, in order
    pub fn iter_slots(&self) -> (r: &[SectorOccupancy])
        ensures
            r@ == self@.sectors,
    {
        self.sector_map.as_slice()
    }

    /// Get the header for a slot
    pub fn slot_info(&self, slot: usize) -> (r: QoobResult<&Header>)
        ensures
            match r {
                Ok(h) => self@.toc.contains_key(slot) && h@ == self@.toc[slot],
                Err(e) => !self@.toc.contains_key(slot) && e == QoobError::NoSuchFile(slot),
            },
    {
        match self.toc.get(&slot) {
            Some(h) => Ok(h),
            None => Err(QoobError::NoSuchFile(slot)),
        }
    }

    /// Check whether it's possible to write to a given range
    pub fn check_dest_range(&self, range: std::ops::Range<usize>) -> (r: RangeCheck)
        requires
            self@.wf(),
        ensures
            r == range_status(self@.sectors, range.start as int, range.end as int),
    {
        if range.end > SECTOR_COUNT {
            return RangeCheck::Overflow;
        }
        let start = range.start;
        let end = range.end;
        let mut all_empty = true;
        let mut all_own = true;
        let mut i = start;
        while i < end
            invariant
                start == range.start,
                end == range.end <= SECTOR_COUNT,
                self@.wf(),
                start <= i <= end || (start > end && i == start),
                forall|j: int|
                    start <= j < i ==> !((#[trigger] self@.sectors[j]) is Slot
                        && self@.sectors[j]->Slot_0 != start),
                all_empty == forall|j: int|
                    start <= j < i ==> #[trigger] self@.sectors[j] == SectorOccupancy::Empty,
                all_own == forall|j: int|
                    start <= j < i ==> #[trigger] self@.sectors[j] == SectorOccupancy::Slot(start),
            decreases end - i,
        {
            match self.sector_map[i] {
                SectorOccupancy::Empty => {
                    all_own = false;
                },
                SectorOccupancy::Unknown => {
                    all_empty = false;
                    all_own = false;
                },
                SectorOccupancy::Slot(n) => {
                    if n != start {
                        assert(self@.sectors[i as int] is Slot);
                        return RangeCheck::Overlap;
                    }
                    all_empty = false;
                },
            }
            i = i + 1;
        }
        if all_empty {
            RangeCheck::Empty
        } else if all_own && (end == SECTOR_COUNT || self.sector_map[end] != SectorOccupancy::Slot(
            start,
        )) {
            RangeCheck::Empty
        } else {
            RangeCheck::Occupied
        }
    }

    /// Start a rescan: forget every classification and every file
    pub fn begin_scan(&mut self)
        ensures
            final(self)@ == FsView::unscanned(),
    {
        let mut i: usize = 0;
        while i < SECTOR_COUNT
            invariant
                0 <= i <= SECTOR_COUNT,
                forall|j: int| 0 <= j < i ==> self.sector_map@[j] == SectorOccupancy::Unknown,
            decreases SECTOR_COUNT - i,
        {
            self.sector_map[i] = SectorOccupancy::Unknown;
            i = i + 1;
        }
        self.toc.clear();
        assert(self@.toc =~= Map::<usize, Seq<u8>>::empty());
        self.cursor = 0;
        assert(self@.sectors =~= FsView::unscanned().sectors);
    }

    /// The sector whose first bytes the scan needs next, or `None` once every
    /// sector is classified
    pub fn scan_cursor(&self) -> (r: Option<usize>)
        ensures
            r == (if self@.cursor < SECTOR_COUNT {
                Some(self@.cursor as usize)
            } else {
                None
            }),
    {
        if self.cursor < SECTOR_COUNT {
            Some(self.cursor)
        } else {
            None
        }
    }

    /// Classify the sector at the scan cursor from its first `HEADER_SIZE`
    /// bytes, and move the cursor past it: past one sector if it is blank or
    /// unidentified, past the whole span if it opens a file
    pub fn inspect_sector(&mut self, header: &[u8; HEADER_SIZE])
        requires
            old(self)@.wf(),
            old(self)@.cursor < SECTOR_COUNT,
        ensures
            final(self)@ == old(self)@.after_inspect(*header),
            final(self)@.wf(),
    {
        let c = self.cursor;
        let ghost v0 = self@;
        proof {
            lemma_inspect_keeps_wf(v0, *header);
        }
        let mut blank = true;
        let mut i: usize = 0;
        while i < HEADER_SIZE
            invariant
                0 <= i <= HEADER_SIZE,
                blank == forall|j: int| 0 <= j < i ==> header@[j] == 0xFF,
            decreases HEADER_SIZE - i,
        {
            if header[i] != 0xFF {
                blank = false;
            }
            i = i + 1;
        }
        if blank {
            self.sector_map[c] = SectorOccupancy::Empty;
            self.cursor = c + 1;
            assert(self@.sectors =~= v0.after_inspect(*header).sectors);
            return;
        }
        let file = Header(*header);
        if file.has_known_type() && file.size() >= HEADER_SIZE && file.sector_count()
            <= SECTOR_COUNT - c {
            let span = file.sector_count();
            assert(span >= 1);
            let mut j = c;
            while j < c + span
                invariant
                    c < SECTOR_COUNT,
                    c <= j <= c + span <= SECTOR_COUNT,
                    self@.toc == v0.toc,
                    self.cursor == c,
                    forall|k: int|
                        0 <= k < SECTOR_COUNT ==> #[trigger] self.sector_map@[k] == if c <= k < j {
                            SectorOccupancy::Slot(c)
                        } else {
                            v0.sectors[k]
                        },
                decreases c + span - j,
            {
                self.sector_map[j] = SectorOccupancy::Slot(c);
                j = j + 1;
            }
            self.toc.insert(c, file);
            assert(self@.toc =~= v0.toc.insert(c, header@));
            self.cursor = c + span;
            assert(self@.sectors =~= v0.after_inspect(*header).sectors);
        } else {
            self.sector_map[c] = SectorOccupancy::Unknown;
            self.cursor = c + 1;
            assert(self@.sectors =~= v0.after_inspect(*header).sectors);
        }
    }

    /// The byte range of flash to read back file `slot`: its whole
    /// allocation, `sector_count` sectors from the start of its slot
    pub fn read_range(&self, slot: usize) -> (r: QoobResult<(usize, usize)>)
        requires
            self@.wf(),
        ensures
            match r {
                Ok((offset, len)) => {
                    &&& self@.toc.contains_key(slot)
                    &&& offset == slot * SECTOR_SIZE
                    &&& len == declared_span(self@.toc[slot]) * SECTOR_SIZE
                },
                Err(e) => !self@.toc.contains_key(slot) && e == QoobError::NoSuchFile(slot),
            },
    {
        let info = self.slot_info(slot)?;
        assert(self@.holds_file(slot));
        Ok((slot * SECTOR_SIZE, info.sector_count() * SECTOR_SIZE))
    }

    /// The sectors to erase to remove file `slot`
    pub fn removal_range(&self, slot: usize) -> (r: QoobResult<std::ops::Range<usize>>)
        requires
            self@.wf(),
        ensures
            match r {
                Ok(range) => {
                    &&& self@.toc.contains_key(slot)
                    &&& range.start == slot
                    &&& range.end == slot + declared_span(self@.toc[slot])
                    &&& range.end <= SECTOR_COUNT
                },
                Err(e) => !self@.toc.contains_key(slot) && e == QoobError::NoSuchFile(slot),
            },
    {
        let info = self.slot_info(slot)?;
        assert(self@.holds_file(slot));
        Ok(slot..slot + info.sector_count())
    }

    /// Record that the sectors of file `slot` have been erased: mark them
    /// `Empty` and drop the file from the table
    pub fn mark_removed(&mut self, slot: usize) -> (r: QoobResult<()>)
        requires
            old(self)@.wf(),
        ensures
            final(self)@.wf(),
            match r {
                Ok(()) => old(self)@.toc.contains_key(slot) && final(self)@ == old(self)@.after_remove(
                    slot,
                ),
                Err(e) => {
                    &&& !old(self)@.toc.contains_key(slot)
                    &&& e == QoobError::NoSuchFile(slot)
                    &&& final(self)@ == old(self)@
                },
            },
    {
        let ghost v0 = self@;
        let range = self.removal_range(slot)?;
        let mut i = range.start;
        while i < range.end
            invariant
                range.start == slot,
                range.end == slot + declared_span(v0.toc[slot]) <= SECTOR_COUNT,
                slot <= i <= range.end,
                self@.toc == v0.toc,
                self.cursor == v0.cursor,
                forall|k: int|
                    0 <= k < SECTOR_COUNT ==> #[trigger] self.sector_map@[k] == if slot <= k < i {
                        SectorOccupancy::Empty
                    } else {
                        v0.sectors[k]
                    },
            decreases range.end - i,
        {
            self.sector_map[i] = SectorOccupancy::Empty;
            i = i + 1;
        }
        self.toc.remove(&slot);
        assert(self@.toc =~= v0.toc.remove(slot));
        assert(self@.sectors =~= v0.after_remove(slot).sectors);
        proof {
            let v = self@;
            assert(v0.holds_file(slot));
            assert forall|n: usize| #[trigger] v.toc.contains_key(n) implies v.holds_file(n) by {
                assert(v0.holds_file(n));
                assert(v0.sectors[n as int] == SectorOccupancy::Slot(n));
                assert forall|k: int| n <= k < n + declared_span(v0.toc[n]) implies #[trigger] v.sectors[k]
                    == SectorOccupancy::Slot(n) by {
                    assert(v0.sectors[k] == SectorOccupancy::Slot(n));
                }
            }
        }
        Ok(())
    }

    /// Validate a payload for slot `slot` and prepare the bytes to transmit:
    /// the payload with its size field set to its allocation in bytes
    pub fn prepare_write(&self, slot: usize, data: &[u8]) -> (r: QoobResult<Vec<u8>>)
        requires
            self@.wf(),
        ensures
            match r {
                Ok(image) => self@.write_check(slot as int, data@) is Ok && image@ == prepared_image(
                    data@,
                ),
                Err(e) => self@.write_check(slot as int, data@) == Err::<(), QoobError>(e),
            },
    {
        let span = self.check_write(slot, data)?;
        let mut image = vstd::slice::slice_to_vec(data);
        let size = span * SECTOR_SIZE;
        image[SIZE_OFFSET] = (size / 0x100_0000) as u8;
        image[SIZE_OFFSET + 1] = (size / 0x1_0000 % 0x100) as u8;
        image[SIZE_OFFSET + 2] = (size / 0x100 % 0x100) as u8;
        image[SIZE_OFFSET + 3] = (size % 0x100) as u8;
        assert(image@ =~= prepared_image(data@));
        Ok(image)
    }

    /// The checks before a write: a valid header and a free destination.
    /// Returns the span of the payload in sectors.
    fn check_write(&self, slot: usize, data: &[u8]) -> (r: QoobResult<usize>)
        requires
            self@.wf(),
        ensures
            match r {
                Ok(span) => {
                    &&& self@.write_check(slot as int, data@) is Ok
                    &&& span == declared_span(data@)
                    &&& slot + span <= SECTOR_COUNT
                },
                Err(e) => self@.write_check(slot as int, data@) == Err::<(), QoobError>(e),
            },
    {
        let header = match validate_header(data) {
            Some(h) => h,
            None => return Err(QoobError::InvalidHeader),
        };
        assert(header@ =~= data@.take(HEADER_SIZE as int));
        let span = header.sector_count();
        if span > SECTOR_COUNT || slot > SECTOR_COUNT - span {
            return Err(QoobError::TooBig);
        }
        match self.check_dest_range(slot..slot + span) {
            RangeCheck::Empty => Ok(span),
            RangeCheck::Overflow => Err(QoobError::TooBig),
            RangeCheck::Occupied | RangeCheck::Overlap => Err(QoobError::RangeOccupied),
        }
    }

    /// Record a file written at `slot`: after the same checks as
    /// [`QoobFs::prepare_write`], mark its span as `Slot(slot)` and enter its
    /// header in the table
    pub fn commit_write(&mut self, slot: usize, image: &[u8]) -> (r: QoobResult<()>)
        requires
            old(self)@.wf(),
        ensures
            final(self)@.wf(),
            match r {
                Ok(()) => {
                    &&& old(self)@.write_check(slot as int, image@) is Ok
                    &&& final(self)@ == old(self)@.after_write(slot as int, image@.take(HEADER_SIZE as int))
                },
                Err(e) => {
                    &&& old(self)@.write_check(slot as int, image@) == Err::<(), QoobError>(e)
                    &&& final(self)@ == old(self)@
                },
            },
    {
        let ghost v0 = self@;
        let span = self.check_write(slot, image)?;
        let header = match validate_header(image) {
            Some(h) => h,
            None => return Err(QoobError::InvalidHeader),
        };
        let ghost h = image@.take(HEADER_SIZE as int);
        assert(header@ == h);
        assert(declared_span(h) == span);
        let mut i = slot;
        while i < slot + span
            invariant
                slot + span <= SECTOR_COUNT,
                slot <= i <= slot + span,
                self@.toc == v0.toc,
                self.cursor == v0.cursor,
                forall|k: int|
                    0 <= k < SECTOR_COUNT ==> #[trigger] self.sector_map@[k] == if slot <= k < i {
                        SectorOccupancy::Slot(slot)
                    } else {
                        v0.sectors[k]
                    },
            decreases slot + span - i,
        {
            self.sector_map[i] = SectorOccupancy::Slot(slot);
            i = i + 1;
        }
        self.toc.insert(slot, header);
        assert(self@.toc =~= v0.toc.insert(slot, h));
        assert(self@.sectors =~= v0.after_write(slot as int, h).sectors);
        assert(self@ == v0.after_write(slot as int, h));
        proof {
            lemma_write_keeps_wf(v0, slot, h, self@);
        }
        Ok(())
    }
}

/// Classifying the sector at the cursor keeps the index well-formed.
pub proof fn lemma_inspect_keeps_wf(v0: FsView, h: [u8; HEADER_SIZE])
    requires
        v0.wf(),
        v0.cursor < SECTOR_COUNT,
    ensures
        v0.after_inspect(h).wf(),
{
    let c = v0.cursor as int;
    let v = v0.after_inspect(h);
    if !is_blank(h@) && opens_file(h@, c) {
        assert(declared_span(h@) >= 1);
        assert forall|i: int|
            0 <= i < SECTOR_COUNT && (#[trigger] v.sectors[i]) is Slot implies {
                let n = v.sectors[i]->Slot_0;
                &&& v.toc.contains_key(n)
                &&& n <= i < n + declared_span(v.toc[n])
            } by {
            if !(c <= i < c + declared_span(h@)) {
                assert(v.sectors[i] == v0.sectors[i]);
            }
        }
        assert forall|n: usize| #[trigger] v.toc.contains_key(n) implies v.holds_file(n) by {
            if n != c {
                assert(v0.holds_file(n));
                assert(v0.sectors[n as int] == SectorOccupancy::Slot(n));
                let sp = declared_span(v0.toc[n]);
                assert forall|k: int| n <= k < n + sp implies k < c && #[trigger] v0.sectors[k]
                    == SectorOccupancy::Slot(n) by {
                    assert(v0.sectors[k] == SectorOccupancy::Slot(n));
                }
                assert forall|k: int| n <= k < n + sp implies #[trigger] v.sectors[k]
                    == SectorOccupancy::Slot(n) by {
                    assert(v0.sectors[k] == SectorOccupancy::Slot(n));
                }
            }
        }
    } else {
        assert forall|n: usize| #[trigger] v.toc.contains_key(n) implies v.holds_file(n) by {
            assert(v0.holds_file(n));
            assert(v0.sectors[n as int] == SectorOccupancy::Slot(n));
            assert forall|k: int| n <= k < n + declared_span(v0.toc[n]) implies #[trigger] v.sectors[k]
                == SectorOccupancy::Slot(n) by {
                assert(v0.sectors[k] == SectorOccupancy::Slot(n));
            }
        }
    }
}

/// A write that passed its checks leaves the index well-formed.
proof fn lemma_write_keeps_wf(v0: FsView, slot: usize, h: Seq<u8>, v: FsView)
    requires
        v0.wf(),
        h.len() == HEADER_SIZE,
        known_magic(h),
        declared_size(h) >= HEADER_SIZE,
        slot + declared_span(h) <= SECTOR_COUNT,
        range_status(v0.sectors, slot as int, slot + declared_span(h)) == RangeCheck::Empty,
        v == v0.after_write(slot as int, h),
        v.toc[slot] == h,
    ensures
        v.wf(),
{
    let span = declared_span(h);
    let end = slot + span;
    assert(span >= 1);
    // No sector of the range is unclassified, and no sector outside it
    // belongs to a file starting at `slot`.
    assert forall|i: int| slot <= i < end implies #[trigger] v0.sectors[i]
        != SectorOccupancy::Unknown && i < v0.cursor by {
        if forall|j: int| slot <= j < end ==> #[trigger] v0.sectors[j] == SectorOccupancy::Empty {
            assert(v0.sectors[i] == SectorOccupancy::Empty);
        } else {
            assert(v0.sectors[i] == SectorOccupancy::Slot(slot));
        }
    }
    assert forall|i: int|
        0 <= i < SECTOR_COUNT && !(slot <= i < end) implies #[trigger] v0.sectors[i]
        != SectorOccupancy::Slot(slot) by {
        if v0.sectors[i] == SectorOccupancy::Slot(slot) {
            assert(v0.toc.contains_key(slot));
            assert(v0.holds_file(slot));
            let old_span = declared_span(v0.toc[slot]);
            assert(v0.sectors[slot as int] == SectorOccupancy::Slot(slot));
            assert(!(forall|j: int| slot <= j < end ==> #[trigger] v0.sectors[j]
                == SectorOccupancy::Empty));
            assert(forall|j: int| slot <= j < end ==> #[trigger] v0.sectors[j]
                == SectorOccupancy::Slot(slot));
            if old_span > span {
                assert(v0.sectors[end] == SectorOccupancy::Slot(slot));
            } else {
                assert(v0.sectors[slot + old_span - 1] == SectorOccupancy::Slot(slot));
            }
        }
    }
    assert forall|i: int|
        0 <= i < SECTOR_COUNT && (#[trigger] v.sectors[i]) is Slot implies {
            let n = v.sectors[i]->Slot_0;
            &&& v.toc.contains_key(n)
            &&& n <= i < n + declared_span(v.toc[n])
        } by {
        if !(slot <= i < end) {
            assert(v.sectors[i] == v0.sectors[i]);
        }
    }
    assert forall|n: usize| #[trigger] v.toc.contains_key(n) implies v.holds_file(n) by {
        if n != slot {
            assert(v0.holds_file(n));
            assert forall|k: int| n <= k < n + declared_span(v0.toc[n]) implies #[trigger] v.sectors[k]
                == SectorOccupancy::Slot(n) by {
                assert(v0.sectors[k] == SectorOccupancy::Slot(n));
                if slot <= k < end {
                    assert(v0.sectors[k] != SectorOccupancy::Unknown);
                }
            }
        }
    }
}

/// Compare what was written with what was read back
pub fn verify_readback(written: &[u8], readback: &[u8]) -> (r: QoobResult<()>)
    ensures
        r is Ok <==> written@ == readback@,
        r is Err ==> r == Err::<(), QoobError>(QoobError::VerificationError),
{
    if written.len() != readback.len() {
        return Err(QoobError::VerificationError);
    }
    let mut i: usize = 0;
    while i < written.len()
        invariant
            written@.len() == readback@.len(),
            0 <= i <= written@.len(),
            forall|j: int| 0 <= j < i ==> written@[j] == readback@[j],
        decreases written@.len() - i,
    {
        if written[i] != readback[i] {
            return Err(QoobError::VerificationError);
        }
        i = i + 1;
    }
    assert(written@ =~= readback@);
    Ok(())
}

} // verus!
