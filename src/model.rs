//! What the index guarantees across calls: a model of a complete scan and
//! of the flash bytes, and the facts proved about them.
use vstd::prelude::*;

use crate::device::{sectors_for, FLASH_SIZE, SECTOR_COUNT, SECTOR_SIZE};
use crate::fs::{
    be32_bytes, is_blank, lemma_inspect_keeps_wf, opens_file, prepared_image, range_status, FsView,
    RangeCheck, SectorOccupancy,
};
use crate::header::{declared_size, declared_span, known_magic, valid_payload, HEADER_SIZE, SIZE_OFFSET};
use crate::QoobError;

verus! {

/// A file whose header declares at least a header's worth of bytes spans at
/// least one sector.
pub proof fn lemma_span_positive(size: int)
    requires
        size >= HEADER_SIZE,
    ensures
        sectors_for(size) >= 1,
{
}

/// The index that a scan reaches from `v` when the first `HEADER_SIZE` bytes
/// of sector `c` are `hs[c]`: each sector at the cursor is inspected in turn
/// until the cursor reaches the end of flash.
pub open spec fn scan_from(hs: Seq<[u8; HEADER_SIZE]>, v: FsView) -> FsView
    decreases SECTOR_COUNT - v.cursor,
    via scan_from_decreases
{
    if v.cursor >= SECTOR_COUNT || v.cursor >= hs.len() {
        v
    } else {
        scan_from(hs, v.after_inspect(hs[v.cursor as int]))
    }
}

#[via_fn]
proof fn scan_from_decreases(hs: Seq<[u8; HEADER_SIZE]>, v: FsView) {
    if !(v.cursor >= SECTOR_COUNT || v.cursor >= hs.len()) {
        let h = hs[v.cursor as int];
        if !is_blank(h@) && opens_file(h@, v.cursor as int) {
            lemma_span_positive(declared_size(h@));
        }
    }
}

/// The index that a complete scan builds from scratch.
pub open spec fn scan_all(hs: Seq<[u8; HEADER_SIZE]>) -> FsView {
    scan_from(hs, FsView::unscanned())
}

/// One inspection moves the cursor forward, and changes no sector before it.
proof fn lemma_inspect_step(v: FsView, h: [u8; HEADER_SIZE])
    requires
        v.sectors.len() == SECTOR_COUNT,
        v.cursor < SECTOR_COUNT,
    ensures
        v.after_inspect(h).sectors.len() == SECTOR_COUNT,
        v.cursor < v.after_inspect(h).cursor <= SECTOR_COUNT,
        forall|i: int| 0 <= i < v.cursor ==> #[trigger] v.after_inspect(h).sectors[i] == v.sectors[i],
{
    if !is_blank(h@) && opens_file(h@, v.cursor as int) {
        lemma_span_positive(declared_size(h@));
    }
}

/// A scan leaves the sectors before its cursor as they are.
proof fn lemma_scan_frame_below(hs: Seq<[u8; HEADER_SIZE]>, v: FsView)
    requires
        hs.len() == SECTOR_COUNT,
        v.sectors.len() == SECTOR_COUNT,
        v.cursor <= SECTOR_COUNT,
    ensures
        scan_from(hs, v).sectors.len() == SECTOR_COUNT,
        forall|i: int| 0 <= i < v.cursor ==> #[trigger] scan_from(hs, v).sectors[i] == v.sectors[i],
    decreases SECTOR_COUNT - v.cursor,
{
    if v.cursor < SECTOR_COUNT {
        let w = v.after_inspect(hs[v.cursor as int]);
        lemma_inspect_step(v, hs[v.cursor as int]);
        lemma_scan_frame_below(hs, w);
    }
}

/// What a scan finds from a cursor on depends on the cursor alone, not on
/// the state it starts from.
proof fn lemma_scan_frame_above(hs: Seq<[u8; HEADER_SIZE]>, v1: FsView, v2: FsView)
    requires
        hs.len() == SECTOR_COUNT,
        v1.sectors.len() == SECTOR_COUNT,
        v2.sectors.len() == SECTOR_COUNT,
        v1.cursor == v2.cursor <= SECTOR_COUNT,
    ensures
        forall|i: int|
            v1.cursor <= i < SECTOR_COUNT ==> #[trigger] scan_from(hs, v1).sectors[i] == scan_from(
                hs,
                v2,
            ).sectors[i],
    decreases SECTOR_COUNT - v1.cursor,
{
    if v1.cursor < SECTOR_COUNT {
        let h = hs[v1.cursor as int];
        let w1 = v1.after_inspect(h);
        let w2 = v2.after_inspect(h);
        lemma_inspect_step(v1, h);
        lemma_inspect_step(v2, h);
        lemma_scan_frame_above(hs, w1, w2);
        lemma_scan_frame_below(hs, w1);
        lemma_scan_frame_below(hs, w2);
        assert forall|i: int| v1.cursor <= i < SECTOR_COUNT implies #[trigger] scan_from(
            hs,
            v1,
        ).sectors[i] == scan_from(hs, v2).sectors[i] by {
            if i < w1.cursor {
                assert(scan_from(hs, w1).sectors[i] == w1.sectors[i]);
                assert(scan_from(hs, w2).sectors[i] == w2.sectors[i]);
            }
        }
    }
}

/// How the step-by-step scan of [`crate::fs::QoobFs`] meets the model:
/// inspecting the sector at the cursor with its header bytes and scanning on
/// reaches the same index as scanning from before the step, and once the
/// cursor has reached the end of flash the scan is done. So after
/// `begin_scan` and one `inspect_sector` per sector that `scan_cursor` names,
/// fed with `hs`, the index is `scan_all(hs)`.
pub proof fn lemma_scan_follows_model(hs: Seq<[u8; HEADER_SIZE]>, v: FsView)
    requires
        hs.len() == SECTOR_COUNT,
    ensures
        v.cursor < SECTOR_COUNT ==> scan_from(hs, v.after_inspect(hs[v.cursor as int])) == scan_from(
            hs,
            v,
        ),
        v.cursor >= SECTOR_COUNT ==> scan_from(hs, v) == v,
{
}

/// A scan from a well-formed state runs to the end of flash and ends in a
/// well-formed state.
proof fn lemma_scan_keeps_wf(hs: Seq<[u8; HEADER_SIZE]>, v: FsView)
    requires
        hs.len() == SECTOR_COUNT,
        v.wf(),
    ensures
        scan_from(hs, v).wf(),
        scan_from(hs, v).cursor == SECTOR_COUNT,
    decreases SECTOR_COUNT - v.cursor,
{
    if v.cursor < SECTOR_COUNT {
        let h = hs[v.cursor as int];
        lemma_inspect_keeps_wf(v, h);
        lemma_inspect_step(v, h);
        lemma_scan_keeps_wf(hs, v.after_inspect(h));
    }
}

/// A complete scan builds a well-formed index, with every sector classified.
pub proof fn lemma_scan_all_wf(hs: Seq<[u8; HEADER_SIZE]>)
    requires
        hs.len() == SECTOR_COUNT,
    ensures
        scan_all(hs).wf(),
        scan_all(hs).cursor == SECTOR_COUNT,
{
    lemma_scan_keeps_wf(hs, FsView::unscanned());
}

/// A scan always runs to the end of flash.
proof fn lemma_scan_ends(hs: Seq<[u8; HEADER_SIZE]>, v: FsView)
    requires
        hs.len() == SECTOR_COUNT,
        v.sectors.len() == SECTOR_COUNT,
        v.cursor <= SECTOR_COUNT,
    ensures
        scan_from(hs, v).cursor == SECTOR_COUNT,
    decreases SECTOR_COUNT - v.cursor,
{
    if v.cursor < SECTOR_COUNT {
        let h = hs[v.cursor as int];
        lemma_inspect_step(v, h);
        lemma_scan_ends(hs, v.after_inspect(h));
    }
}

/// A scan keeps the files of the table that start before its cursor, and
/// adds none there.
proof fn lemma_scan_toc_below(hs: Seq<[u8; HEADER_SIZE]>, v: FsView)
    requires
        hs.len() == SECTOR_COUNT,
        v.sectors.len() == SECTOR_COUNT,
        v.cursor <= SECTOR_COUNT,
    ensures
        forall|k: usize|
            k < v.cursor ==> (#[trigger] scan_from(hs, v).toc.contains_key(k)
                == v.toc.contains_key(k)),
        forall|k: usize|
            k < v.cursor && v.toc.contains_key(k) ==> #[trigger] scan_from(hs, v).toc[k]
                == v.toc[k],
    decreases SECTOR_COUNT - v.cursor,
{
    if v.cursor < SECTOR_COUNT {
        let h = hs[v.cursor as int];
        let w = v.after_inspect(h);
        lemma_inspect_step(v, h);
        lemma_scan_toc_below(hs, w);
        assert(scan_from(hs, v) == scan_from(hs, w));
        assert forall|k: usize| k < v.cursor implies (w.toc.contains_key(k) == v.toc.contains_key(
            k,
        )) && (v.toc.contains_key(k) ==> w.toc[k] == v.toc[k]) by {
            assert(k != v.cursor);
        }
    }
}

/// The files that a scan finds from a cursor on depend on the cursor alone,
/// when neither starting state has a file there yet.
proof fn lemma_scan_toc_above(hs: Seq<[u8; HEADER_SIZE]>, v1: FsView, v2: FsView)
    requires
        hs.len() == SECTOR_COUNT,
        v1.sectors.len() == SECTOR_COUNT,
        v2.sectors.len() == SECTOR_COUNT,
        v1.cursor == v2.cursor <= SECTOR_COUNT,
        forall|k: usize| k >= v1.cursor ==> !(#[trigger] v1.toc.contains_key(k)),
        forall|k: usize| k >= v2.cursor ==> !(#[trigger] v2.toc.contains_key(k)),
    ensures
        forall|k: usize|
            k >= v1.cursor ==> (#[trigger] scan_from(hs, v1).toc.contains_key(k) == scan_from(
                hs,
                v2,
            ).toc.contains_key(k)),
        forall|k: usize|
            k >= v1.cursor && scan_from(hs, v1).toc.contains_key(k) ==> #[trigger] scan_from(
                hs,
                v1,
            ).toc[k] == scan_from(hs, v2).toc[k],
    decreases SECTOR_COUNT - v1.cursor,
{
    if v1.cursor < SECTOR_COUNT {
        let h = hs[v1.cursor as int];
        let w1 = v1.after_inspect(h);
        let w2 = v2.after_inspect(h);
        lemma_inspect_step(v1, h);
        lemma_inspect_step(v2, h);
        lemma_scan_toc_above(hs, w1, w2);
        lemma_scan_toc_below(hs, w1);
        lemma_scan_toc_below(hs, w2);
        assert(scan_from(hs, v1) == scan_from(hs, w1));
        assert(scan_from(hs, v2) == scan_from(hs, w2));
        assert forall|k: usize| k >= v1.cursor && k < w1.cursor implies (w1.toc.contains_key(k)
            == w2.toc.contains_key(k)) && (w1.toc.contains_key(k) ==> w1.toc[k] == w2.toc[k]) by {
            if k == v1.cursor {
            } else {
                assert(!v1.toc.contains_key(k));
                assert(!v2.toc.contains_key(k));
            }
        }
    }
}

/// Scans over headers that agree from the cursor on reach the same index.
proof fn lemma_scan_same_headers(
    hs: Seq<[u8; HEADER_SIZE]>,
    other: Seq<[u8; HEADER_SIZE]>,
    v: FsView,
)
    requires
        hs.len() == SECTOR_COUNT,
        other.len() == SECTOR_COUNT,
        v.sectors.len() == SECTOR_COUNT,
        v.cursor <= SECTOR_COUNT,
        forall|j: int| v.cursor <= j < SECTOR_COUNT ==> #[trigger] other[j] == hs[j],
    ensures
        scan_from(other, v) == scan_from(hs, v),
    decreases SECTOR_COUNT - v.cursor,
{
    if v.cursor < SECTOR_COUNT {
        let h = hs[v.cursor as int];
        assert(other[v.cursor as int] == h);
        lemma_inspect_step(v, h);
        lemma_scan_same_headers(hs, other, v.after_inspect(h));
    }
}

/// The state `v` with the sectors from its cursor to `end` marked `Empty`
/// and the cursor moved to `end`.
spec fn with_blank_run(v: FsView, end: int) -> FsView {
    FsView {
        sectors: Seq::new(
            SECTOR_COUNT as nat,
            |i: int|
                if v.cursor <= i < end {
                    SectorOccupancy::Empty
                } else {
                    v.sectors[i]
                },
        ),
        toc: v.toc,
        cursor: end as nat,
    }
}

/// A scan over a run of blank sectors marks each of them `Empty`, one at a
/// time.
proof fn lemma_scan_blank_run(hs: Seq<[u8; HEADER_SIZE]>, v: FsView, end: int)
    requires
        hs.len() == SECTOR_COUNT,
        v.sectors.len() == SECTOR_COUNT,
        v.cursor <= end <= SECTOR_COUNT,
        forall|j: int| v.cursor <= j < end ==> is_blank((#[trigger] hs[j])@),
    ensures
        scan_from(hs, v) == scan_from(hs, with_blank_run(v, end)),
    decreases end - v.cursor,
{
    if v.cursor == end {
        assert(with_blank_run(v, end).sectors =~= v.sectors);
        assert(with_blank_run(v, end) == v);
    } else {
        let h = hs[v.cursor as int];
        assert(is_blank(h@));
        let w = v.after_inspect(h);
        lemma_scan_blank_run(hs, w, end);
        assert(with_blank_run(w, end).sectors =~= with_blank_run(v, end).sectors);
        assert(with_blank_run(w, end) == with_blank_run(v, end));
    }
}

/// If a scan of `hs` from `v` finds a file starting at `s` and spanning up to
/// `end`, a scan from `v` of `erased`, which agrees with `hs` but is blank
/// from `s` to `end`, builds the same index with that file removed.
proof fn lemma_scan_without_file(
    hs: Seq<[u8; HEADER_SIZE]>,
    erased: Seq<[u8; HEADER_SIZE]>,
    v: FsView,
    s: usize,
    end: int,
)
    requires
        hs.len() == SECTOR_COUNT,
        erased.len() == SECTOR_COUNT,
        v.wf(),
        v.cursor <= s < end <= SECTOR_COUNT,
        forall|j: int|
            v.cursor <= j < SECTOR_COUNT && !(s <= j < end) ==> #[trigger] erased[j] == hs[j],
        forall|j: int| s <= j < end ==> is_blank((#[trigger] erased[j])@),
        scan_from(hs, v).sectors[s as int] == SectorOccupancy::Slot(s),
        scan_from(hs, v).toc.contains_key(s),
        end == s + declared_span(scan_from(hs, v).toc[s]),
    ensures
        scan_from(erased, v) == scan_from(hs, v).after_remove(s),
    decreases s - v.cursor,
{
    let c = v.cursor as int;
    let h = hs[c];
    let w1 = v.after_inspect(h);
    lemma_inspect_step(v, h);
    lemma_scan_frame_below(hs, w1);
    if c < s {
        assert(erased[c] == h);
        if w1.cursor > s {
            assert(w1.sectors[s as int] == SectorOccupancy::Slot(c as usize));
            assert(false);
        }
        lemma_inspect_keeps_wf(v, h);
        lemma_scan_without_file(hs, erased, w1, s, end);
    } else {
        // The sector at `s` opens the file.
        if is_blank(h@) || !opens_file(h@, c) {
            assert(w1.sectors[c] != SectorOccupancy::Slot(s));
            assert(false);
        }
        let span = declared_span(h@);
        lemma_span_positive(declared_size(h@));
        lemma_scan_toc_below(hs, w1);
        assert(w1.toc[s] == h@);
        assert(end == s + span);
        // The files of `v` all start before its cursor.
        assert forall|k: usize| k >= c implies !(#[trigger] v.toc.contains_key(k)) by {
            if v.toc.contains_key(k) {
                assert(v.holds_file(k));
                assert(v.sectors[k as int] == SectorOccupancy::Slot(k));
            }
        }
        let w2 = with_blank_run(v, end);
        lemma_scan_blank_run(erased, v, end);
        lemma_scan_same_headers(hs, erased, w2);
        let x = scan_from(hs, w2);
        let y = scan_from(hs, w1).after_remove(s);
        lemma_scan_frame_below(hs, w2);
        lemma_scan_frame_above(hs, w1, w2);
        lemma_scan_toc_below(hs, w2);
        lemma_scan_toc_above(hs, w1, w2);
        lemma_scan_ends(hs, w1);
        lemma_scan_ends(hs, w2);
        assert(x.sectors =~= y.sectors);
        assert(x.toc =~= y.toc);
        assert(x == y);
    }
}

/// Removing a file and scanning again: once the sectors of file `slot` read
/// back blank, and the other sectors are unchanged, a new complete scan
/// classifies every sector of its former span as `Empty`; indeed it builds
/// exactly the index that the removal left.
pub proof fn lemma_rescan_after_remove(
    hs: Seq<[u8; HEADER_SIZE]>,
    erased: Seq<[u8; HEADER_SIZE]>,
    slot: usize,
)
    requires
        hs.len() == SECTOR_COUNT,
        erased.len() == SECTOR_COUNT,
        scan_all(hs).toc.contains_key(slot),
        forall|j: int|
            slot <= j < slot + declared_span(scan_all(hs).toc[slot]) ==> is_blank(
                (#[trigger] erased[j])@,
            ),
        forall|j: int|
            0 <= j < SECTOR_COUNT && !(slot <= j < slot + declared_span(scan_all(hs).toc[slot]))
                ==> #[trigger] erased[j] == hs[j],
    ensures
        scan_all(erased) == scan_all(hs).after_remove(slot),
        forall|j: int|
            slot <= j < slot + declared_span(scan_all(hs).toc[slot]) ==> #[trigger] scan_all(
                erased,
            ).sectors[j] == SectorOccupancy::Empty,
{
    let v = scan_all(hs);
    let span = declared_span(v.toc[slot]);
    lemma_scan_all_wf(hs);
    assert(v.holds_file(slot));
    lemma_span_positive(declared_size(v.toc[slot]));
    assert(v.sectors[slot as int] == SectorOccupancy::Slot(slot));
    assert(FsView::unscanned().wf());
    lemma_scan_without_file(hs, erased, FsView::unscanned(), slot, slot + span);
}

/// The flash contents after `bytes` have been written at `offset`.
pub open spec fn flash_after_write(flash: Seq<u8>, offset: int, bytes: Seq<u8>) -> Seq<u8> {
    flash.take(offset) + bytes + flash.skip(offset + bytes.len())
}

/// A whole number of sectors, counted back in sectors.
proof fn lemma_sectors_for_whole(k: int)
    requires
        k >= 0,
    ensures
        sectors_for(k * SECTOR_SIZE) == k,
{
    assert((k * 0x1_0000 + 0x1_0000 - 1) / 0x1_0000 == k) by (nonlinear_arith)
        requires
            k >= 0,
    ;
}

/// Rounding up to whole sectors never loses bytes.
proof fn lemma_sectors_for_covers(len: int)
    requires
        len >= 0,
    ensures
        sectors_for(len) * SECTOR_SIZE >= len,
        sectors_for(len) >= 0,
{
    assert(((len + 0x1_0000 - 1) / 0x1_0000) * 0x1_0000 >= len) by (nonlinear_arith)
        requires
            len >= 0,
    ;
}

/// The four bytes of a size up to 32 sectors read back as that size.
proof fn lemma_be32_round_trip(span: int)
    requires
        0 <= span <= SECTOR_COUNT,
    ensures
        ({
            let b = be32_bytes(span * SECTOR_SIZE);
            b[0] * 0x100_0000 + b[1] * 0x1_0000 + b[2] * 0x100 + b[3] == span * SECTOR_SIZE
        }),
{
    let n = span * SECTOR_SIZE;
    assert(n / 0x100_0000 == 0);
    assert(n / 0x1_0000 % 0x100 == span);
    assert(n / 0x100 % 0x100 == 0);
    assert(n % 0x100 == 0);
}

/// Writing a file and reading it back: for a payload that passes the checks
/// of a write at `slot`, the prepared image passes them too, the file is then
/// recorded at `slot`, and reading its whole allocation from flash where the
/// image was written gives back the payload byte for byte, but for the size
/// field, which reads as the allocation in bytes, a multiple of the sector
/// size.
pub proof fn lemma_write_read_round_trip(v: FsView, slot: usize, data: Seq<u8>, flash: Seq<u8>)
    requires
        v.wf(),
        flash.len() == FLASH_SIZE,
        v.write_check(slot as int, data) is Ok,
    ensures
        ({
            let image = prepared_image(data);
            let after = v.after_write(slot as int, image.take(HEADER_SIZE as int));
            let offset = slot * SECTOR_SIZE;
            let len = declared_span(after.toc[slot]) * SECTOR_SIZE;
            let back = flash_after_write(flash, offset, image).subrange(offset, offset + len);
            &&& v.write_check(slot as int, image) is Ok
            &&& after.toc.contains_key(slot)
            &&& offset + len <= FLASH_SIZE
            &&& data.len() <= len
            &&& forall|i: int|
                0 <= i < data.len() && !(SIZE_OFFSET <= i < HEADER_SIZE) ==> back[i] == data[i]
            &&& declared_size(back) == declared_span(data) * SECTOR_SIZE
        }),
{
    let span = declared_span(data);
    let len = data.len() as int;
    let image = prepared_image(data);
    lemma_sectors_for_covers(len);
    lemma_sectors_for_whole(sectors_for(len));
    // Either form of the declared size spans the same sectors.
    assert(span == sectors_for(len));
    assert(slot + span <= SECTOR_COUNT);
    lemma_be32_round_trip(span);
    assert(image.len() == len);
    assert(declared_size(image) == span * SECTOR_SIZE);
    lemma_sectors_for_whole(span);
    assert(declared_span(image) == span);
    assert(image[0] == data[0] && image[1] == data[1] && image[2] == data[2] && image[3] == data[3]);
    assert(known_magic(image));
    assert(valid_payload(image));
    let head = image.take(HEADER_SIZE as int);
    assert(declared_size(head) == declared_size(image));
    let after = v.after_write(slot as int, head);
    assert(after.toc[slot] == head);
    let offset = slot * SECTOR_SIZE;
    assert(offset + span * SECTOR_SIZE <= FLASH_SIZE) by (nonlinear_arith)
        requires
            slot + span <= SECTOR_COUNT,
            offset == slot * SECTOR_SIZE,
    ;
    let written = flash_after_write(flash, offset, image);
    let back = written.subrange(offset, offset + span * SECTOR_SIZE);
    assert forall|i: int| 0 <= i < len implies back[i] == image[i] by {}
    assert(back[SIZE_OFFSET as int] == image[SIZE_OFFSET as int]);
    assert(back[SIZE_OFFSET + 1] == image[SIZE_OFFSET + 1]);
    assert(back[SIZE_OFFSET + 2] == image[SIZE_OFFSET + 2]);
    assert(back[SIZE_OFFSET + 3] == image[SIZE_OFFSET + 3]);
}

/// The range check depends on the occupancy map alone: asked twice of the
/// same map, it answers the same.
pub proof fn lemma_range_check_stable(v1: FsView, v2: FsView, start: int, end: int)
    requires
        v1.sectors == v2.sectors,
    ensures
        range_status(v1.sectors, start, end) == range_status(v2.sectors, start, end),
{
}

/// Rewriting a file in place: the range that is exactly the span of the file
/// starting at `slot` passes the range check as `Empty`.
pub proof fn lemma_same_file_range_empty(v: FsView, slot: usize)
    requires
        v.wf(),
        v.toc.contains_key(slot),
    ensures
        range_status(v.sectors, slot as int, slot + declared_span(v.toc[slot])) == RangeCheck::Empty,
{
    let end = slot + declared_span(v.toc[slot]);
    assert(v.holds_file(slot));
    assert(forall|i: int| slot <= i < end ==> #[trigger] v.sectors[i] == SectorOccupancy::Slot(slot));
    if end < SECTOR_COUNT && v.sectors[end] == SectorOccupancy::Slot(slot) {
        assert(v.sectors[end] is Slot);
    }
}

/// A range that holds the first sector of another file fails the range
/// check as `Overlap`.
pub proof fn lemma_other_file_start_overlaps(v: FsView, start: int, end: int, other: usize)
    requires
        v.wf(),
        v.toc.contains_key(other),
        other != start,
        start <= other < end <= SECTOR_COUNT,
    ensures
        range_status(v.sectors, start, end) == RangeCheck::Overlap,
{
    assert(v.holds_file(other));
    lemma_span_positive(declared_size(v.toc[other]));
    assert(v.sectors[other as int] == SectorOccupancy::Slot(other));
}

/// A payload shorter than a header is refused as `InvalidHeader`, by the
/// checks that run before anything is sent to the device.
pub proof fn lemma_short_payload_invalid(v: FsView, slot: int, data: Seq<u8>)
    requires
        data.len() < HEADER_SIZE,
    ensures
        v.write_check(slot, data) == Err::<(), QoobError>(QoobError::InvalidHeader),
{
}

/// A valid payload whose span would run past the last sector is refused as
/// `TooBig`, by the checks that run before anything is sent to the device.
pub proof fn lemma_overflowing_payload_too_big(v: FsView, slot: int, data: Seq<u8>)
    requires
        valid_payload(data),
        slot + declared_span(data) > SECTOR_COUNT,
    ensures
        v.write_check(slot, data) == Err::<(), QoobError>(QoobError::TooBig),
{
}

} // verus!
