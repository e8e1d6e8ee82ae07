//! The double-buffered frame region shared with a reader process.
//!
//! Layout of the region, byte for byte:
//!
//! ```text
//! [0..8)    write index, little-endian, counts published frames
//! [8..12)   width of the latest frame, little-endian
//! [12..16)  height of the latest frame, little-endian
//! [16..64)  reserved
//! [64 .. 64 + MAX_FRAME_SIZE)                    frame slot 0
//! [64 + MAX_FRAME_SIZE .. 64 + 2 * MAX_FRAME_SIZE)   frame slot 1
//! ```
//!
//! The writer fills the slot named by the parity of the write index, stores
//! the dimensions, and only then advances the index. A reader looks at the
//! slot before the index, which the writer does not touch while it fills the
//! other one.

use vstd::prelude::*;

verus! {

/// Size of the header in front of the two frame slots.
pub const FRAME_HEADER_SIZE: usize = 64;

/// Largest frame width that fits a slot.
pub const MAX_WIDTH: usize = 1920;

/// Largest frame height that fits a slot.
pub const MAX_HEIGHT: usize = 1080;

/// Size of one frame slot: a full-resolution luma plane and its half-size
/// interleaved chroma plane.
pub const MAX_FRAME_SIZE: usize = 3110400;

/// Size of the whole region: the header and two slots.
pub const FRAME_SHM_SIZE: usize = 6220864;

/// Offset of the write index in the header.
pub const WRITE_INDEX_OFFSET: usize = 0;

/// Offset of the frame width in the header.
pub const WIDTH_OFFSET: usize = 8;

/// Offset of the frame height in the header.
pub const HEIGHT_OFFSET: usize = 12;

/// The sizes hang together: a slot holds a full-resolution frame, and the
/// region holds the header and two slots.
pub proof fn lemma_layout()
    ensures
        MAX_FRAME_SIZE == MAX_WIDTH * MAX_HEIGHT * 3 / 2,
        FRAME_SHM_SIZE == FRAME_HEADER_SIZE + 2 * MAX_FRAME_SIZE,
{
}

/// One image plane as the decoder hands it over: rows of `stride` bytes, of
/// which the first `width` of the frame are pixels and the rest is padding.
/// `data` is `None` where the decoder exposes no memory for the plane.
pub struct Plane<'a> {
    pub data: Option<&'a [u8]>,
    pub stride: usize,
    pub rows: usize,
}

/// Mathematical content of a [`Plane`].
pub struct PlaneView {
    pub data: Option<Seq<u8>>,
    pub stride: nat,
    pub rows: nat,
}

impl<'a> View for Plane<'a> {
    type V = PlaneView;

    open spec fn view(&self) -> PlaneView {
        PlaneView {
            data: match self.data {
                Some(bytes) => Some(bytes@),
                None => None,
            },
            stride: self.stride as nat,
            rows: self.rows as nat,
        }
    }
}

/// A decoded frame: its dimensions, its luma plane and its interleaved chroma
/// plane.
pub struct DecodedFrame<'a> {
    pub width: usize,
    pub height: usize,
    pub luma: Plane<'a>,
    pub chroma: Plane<'a>,
}

/// Mathematical content of a [`DecodedFrame`].
pub struct FrameView {
    pub width: nat,
    pub height: nat,
    pub luma: PlaneView,
    pub chroma: PlaneView,
}

impl<'a> View for DecodedFrame<'a> {
    type V = FrameView;

    open spec fn view(&self) -> FrameView {
        FrameView {
            width: self.width as nat,
            height: self.height as nat,
            luma: self.luma@,
            chroma: self.chroma@,
        }
    }
}

/// What became of a frame handed to the publisher.
#[derive(Debug, Clone, Copy, PartialEq, Eq, Structural)]
pub enum PublishOutcome {
    /// The frame stands in its slot and the write index has moved on.
    Published,
    /// The frame is wider or higher than a slot allows; nothing was written.
    TooLarge,
    /// The planes do not fit the slot, or a plane holds fewer bytes than its
    /// rows need; nothing was written.
    BadPlanes,
    /// The region does not have the size of the layout; nothing was written.
    BadRegion,
}

/// The first `width` bytes of each of the first `rows` rows of `src`, one
/// row after the other: the plane without its padding.
pub open spec fn packed_rows(src: Seq<u8>, stride: nat, width: nat, rows: nat) -> Seq<u8>
    decreases rows,
{
    if rows == 0 {
        Seq::empty()
    } else {
        packed_rows(src, stride, width, (rows - 1) as nat) + src.subrange(
            (rows - 1) * stride,
            (rows - 1) * stride + width,
        )
    }
}

/// Whether every row of the plane lies inside its data.
pub open spec fn plane_readable(plane: PlaneView, width: nat) -> bool {
    plane.data matches Some(bytes) ==> plane.rows == 0 || (plane.rows - 1) * plane.stride + width
        <= bytes.len()
}

/// Whether the frame is within the largest resolution.
pub open spec fn within_max_resolution(frame: FrameView) -> bool {
    frame.width <= MAX_WIDTH && frame.height <= MAX_HEIGHT
}

/// The number of bytes the packed planes of a frame take.
pub open spec fn frame_size(frame: FrameView) -> int {
    (frame.width * (frame.luma.rows + frame.chroma.rows)) as int
}

/// Whether the planes fit one slot and can be read in full.
pub open spec fn planes_fit(frame: FrameView) -> bool {
    &&& frame_size(frame) <= MAX_FRAME_SIZE
    &&& plane_readable(frame.luma, frame.width)
    &&& plane_readable(frame.chroma, frame.width)
}

/// `region` with the bytes from `at` on replaced by `data`.
pub open spec fn with_bytes(region: Seq<u8>, at: int, data: Seq<u8>) -> Seq<u8> {
    region.subrange(0, at) + data + region.subrange(at + data.len(), region.len() as int)
}

/// `region` after copying a plane to `at`: its packed rows stand there, or
/// nothing changed where the plane has no data.
pub open spec fn with_plane(region: Seq<u8>, at: int, plane: PlaneView, width: nat) -> Seq<u8> {
    match plane.data {
        Some(bytes) => with_bytes(region, at, packed_rows(bytes, plane.stride, width, plane.rows)),
        None => region,
    }
}

/// The four bytes of `value`, least significant first.
pub open spec fn u32_le_bytes(value: u32) -> Seq<u8> {
    seq![
        (value % 256) as u8,
        (value / 256 % 256) as u8,
        (value / 65536 % 256) as u8,
        (value / 16777216) as u8,
    ]
}

/// The eight bytes of `value`, least significant first: the four of its low
/// half, then the four of its high half.
pub open spec fn u64_le_bytes(value: u64) -> Seq<u8> {
    u32_le_bytes((value % 4294967296) as u32) + u32_le_bytes((value / 4294967296) as u32)
}

/// The little-endian 32-bit value at `at`.
pub open spec fn u32_le_at(region: Seq<u8>, at: int) -> int {
    region[at] + region[at + 1] * 256 + region[at + 2] * 65536 + region[at + 3] * 16777216
}

/// The little-endian 64-bit value at `at`.
pub open spec fn u64_le_at(region: Seq<u8>, at: int) -> int {
    u32_le_at(region, at) + u32_le_at(region, at + 4) * 4294967296
}

/// The write index in the header of `region`.
pub open spec fn write_index_of(region: Seq<u8>) -> int {
    u64_le_at(region, WRITE_INDEX_OFFSET as int)
}

/// The frame width in the header of `region`.
pub open spec fn width_of(region: Seq<u8>) -> int {
    u32_le_at(region, WIDTH_OFFSET as int)
}

/// The frame height in the header of `region`.
pub open spec fn height_of(region: Seq<u8>) -> int {
    u32_le_at(region, HEIGHT_OFFSET as int)
}

/// Offset of a frame slot in the region.
pub open spec fn slot_offset(slot: int) -> int {
    FRAME_HEADER_SIZE + slot * MAX_FRAME_SIZE
}

/// The bytes of a frame slot.
pub open spec fn slot_bytes(region: Seq<u8>, slot: int) -> Seq<u8> {
    region.subrange(slot_offset(slot), slot_offset(slot) + MAX_FRAME_SIZE)
}

/// The write index after one more frame: it wraps at 64 bits.
pub open spec fn next_index(index: int) -> u64 {
    if index == u64::MAX {
        0
    } else {
        (index + 1) as u64
    }
}

/// The region after the planes of `frame` were copied into the slot the write
/// index names: the luma rows from the start of the slot, the chroma rows
/// right behind them.
pub open spec fn with_frame_planes(region: Seq<u8>, frame: FrameView) -> Seq<u8> {
    let base = slot_offset(write_index_of(region) % 2);
    let luma_done = with_plane(region, base, frame.luma, frame.width);
    with_plane(luma_done, base + frame.width * frame.luma.rows, frame.chroma, frame.width)
}

/// The region with new dimensions in its header.
pub open spec fn with_dimensions(region: Seq<u8>, width: u32, height: u32) -> Seq<u8> {
    with_bytes(
        with_bytes(region, WIDTH_OFFSET as int, u32_le_bytes(width)),
        HEIGHT_OFFSET as int,
        u32_le_bytes(height),
    )
}

/// The region after `frame` was staged: its planes in the write slot and its
/// dimensions in the header, the write index not yet moved.
pub open spec fn staged(region: Seq<u8>, frame: FrameView) -> Seq<u8> {
    with_dimensions(with_frame_planes(region, frame), frame.width as u32, frame.height as u32)
}

/// The region after the staged frame was committed: the write index one
/// further, nothing else changed.
pub open spec fn committed(region: Seq<u8>) -> Seq<u8> {
    with_bytes(
        region,
        WRITE_INDEX_OFFSET as int,
        u64_le_bytes(next_index(write_index_of(region))),
    )
}

/// The region after `frame` was published: staged, then committed.
pub open spec fn published(region: Seq<u8>, frame: FrameView) -> Seq<u8> {
    committed(staged(region, frame))
}

/// What the publisher does with `frame` on `region`.
pub open spec fn publish_outcome(region: Seq<u8>, frame: FrameView) -> PublishOutcome {
    if region.len() != FRAME_SHM_SIZE {
        PublishOutcome::BadRegion
    } else if !within_max_resolution(frame) {
        PublishOutcome::TooLarge
    } else if !planes_fit(frame) {
        PublishOutcome::BadPlanes
    } else {
        PublishOutcome::Published
    }
}

/// Replacing bytes keeps the length of the region.
pub proof fn lemma_with_bytes_len(region: Seq<u8>, at: int, data: Seq<u8>)
    requires
        0 <= at,
        at + data.len() <= region.len(),
    ensures
        with_bytes(region, at, data).len() == region.len(),
        forall|i: int| 0 <= i < at ==> with_bytes(region, at, data)[i] == region[i],
        forall|i: int| at <= i < at + data.len() ==> with_bytes(region, at, data)[i] == data[i - at],
        forall|i: int|
            at + data.len() <= i < region.len() ==> with_bytes(region, at, data)[i] == region[i],
{
}

/// Writing one run of bytes and then another right behind it is writing
/// both at once.
pub proof fn lemma_with_bytes_append(region: Seq<u8>, at: int, first: Seq<u8>, second: Seq<u8>)
    requires
        0 <= at,
        at + first.len() + second.len() <= region.len(),
    ensures
        with_bytes(with_bytes(region, at, first), at + first.len(), second) == with_bytes(
            region,
            at,
            first + second,
        ),
{
    assert(with_bytes(with_bytes(region, at, first), at + first.len(), second) =~= with_bytes(
        region,
        at,
        first + second,
    ));
}

/// The packed rows of a readable plane take `width` bytes per row.
pub proof fn lemma_packed_rows_len(src: Seq<u8>, stride: nat, width: nat, rows: nat)
    requires
        rows == 0 || (rows - 1) * stride + width <= src.len(),
    ensures
        packed_rows(src, stride, width, rows).len() == width * rows,
    decreases rows,
{
    if rows > 0 {
        if rows > 1 {
            assert((rows - 2) * stride + width <= (rows - 1) * stride + width) by (nonlinear_arith);
        }
        lemma_packed_rows_len(src, stride, width, (rows - 1) as nat);
        assert(width * (rows - 1) + width == width * rows) by (nonlinear_arith);
    }
}

/// A plane without padding is packed already: its rows are the leading bytes
/// of its data.
pub proof fn lemma_packed_rows_contiguous(src: Seq<u8>, width: nat, rows: nat)
    requires
        width * rows <= src.len(),
    ensures
        packed_rows(src, width, width, rows) == src.subrange(0, (width * rows) as int),
    decreases rows,
{
    if rows == 0 {
        assert(width * rows == 0) by (nonlinear_arith)
            requires
                rows == 0,
        ;
        assert(src.subrange(0, 0) =~= Seq::<u8>::empty());
    } else {
        assert((rows - 1) * width + width == width * rows && width * (rows - 1) == (rows - 1)
            * width) by (nonlinear_arith);
        lemma_packed_rows_contiguous(src, width, (rows - 1) as nat);
        assert(src.subrange(0, (width * rows) as int) =~= src.subrange(
            0,
            (width * (rows - 1)) as int,
        ) + src.subrange((rows - 1) * width, (rows - 1) * width + width));
    }
}

/// Copies `len` bytes of `src`, from `from` on, into `region` at `at`.
fn store_bytes(region: &mut [u8], at: usize, src: &[u8], from: usize, len: usize)
    requires
        at + len <= old(region)@.len(),
        from + len <= src@.len(),
    ensures
        final(region)@ == with_bytes(
            old(region)@,
            at as int,
            src@.subrange(from as int, from + len),
        ),
{
    let ghost before = region@;
    let region_len: usize = region.len();
    let src_len: usize = src.len();
    let mut k: usize = 0;
    assert(region@ =~= with_bytes(before, at as int, src@.subrange(from as int, from + k)));
    while k < len
        invariant
            k <= len,
            region@.len() == before.len(),
            at + len <= before.len() == region_len,
            from + len <= src@.len() == src_len,
            region@ == with_bytes(before, at as int, src@.subrange(from as int, from + k)),
        decreases len - k,
    {
        let byte: u8 = src[from + k];
        region[at + k] = byte;
        k = k + 1;
        assert(region@ =~= with_bytes(before, at as int, src@.subrange(from as int, from + k)));
    }
}

/// Copies a plane into `region` at `at` without its row padding: in one run
/// where the plane has none, row by row otherwise.
fn copy_plane(region: &mut [u8], at: usize, plane: &Plane, width: usize)
    requires
        plane_readable(plane@, width as nat),
        at + width * plane.rows <= old(region)@.len(),
    ensures
        final(region)@ == with_plane(old(region)@, at as int, plane@, width as nat),
        final(region)@.len() == old(region)@.len(),
{
    let ghost before = region@;
    let region_len: usize = region.len();
    match plane.data {
        None => {},
        Some(data) => {
            let data_len: usize = data.len();
            proof {
                lemma_packed_rows_len(data@, plane.stride as nat, width as nat, plane.rows as nat);
                lemma_with_bytes_len(
                    before,
                    at as int,
                    packed_rows(data@, plane.stride as nat, width as nat, plane.rows as nat),
                );
            }
            if plane.stride == width {
                let total: usize = width * plane.rows;
                assert(total <= data@.len()) by (nonlinear_arith)
                    requires
                        plane.rows == 0 || (plane.rows - 1) * width + width <= data@.len(),
                        total == width * plane.rows,
                ;
                proof {
                    lemma_packed_rows_contiguous(data@, width as nat, plane.rows as nat);
                }
                store_bytes(region, at, data, 0, total);
            } else {
                let mut row: usize = 0;
                assert(region@ =~= with_bytes(
                    before,
                    at as int,
                    packed_rows(data@, plane.stride as nat, width as nat, 0),
                ));
                while row < plane.rows
                    invariant
                        row <= plane.rows,
                        region@.len() == before.len(),
                        plane.data == Some(data),
                        plane_readable(plane@, width as nat),
                        at + width * plane.rows <= before.len() == region_len,
                        data@.len() == data_len,
                        region@ == with_bytes(
                            before,
                            at as int,
                            packed_rows(data@, plane.stride as nat, width as nat, row as nat),
                        ),
                    decreases plane.rows - row,
                {
                    let ghost done = packed_rows(
                        data@,
                        plane.stride as nat,
                        width as nat,
                        row as nat,
                    );
                    proof {
                        assert(row * plane.stride <= (plane.rows - 1) * plane.stride
                            && row * width + width <= width * plane.rows && (row == 0 || (row - 1)
                            * plane.stride <= (plane.rows - 1) * plane.stride))
                            by (nonlinear_arith)
                            requires
                                row < plane.rows,
                        ;
                        lemma_packed_rows_len(
                            data@,
                            plane.stride as nat,
                            width as nat,
                            row as nat,
                        );
                        assert(width * row == row * width) by (nonlinear_arith);
                        lemma_with_bytes_append(
                            before,
                            at as int,
                            done,
                            data@.subrange(row * plane.stride, row * plane.stride + width),
                        );
                    }
                    store_bytes(region, at + row * width, data, row * plane.stride, width);
                    row = row + 1;
                }
            }
        },
    }
}

/// Reads the little-endian 32-bit value at `at`.
fn load_u32_le(region: &[u8], at: usize) -> (value: u32)
    requires
        at + 4 <= region@.len(),
    ensures
        value == u32_le_at(region@, at as int),
{
    let region_len: usize = region.len();
    let b0: u32 = region[at] as u32;
    let b1: u32 = region[at + 1] as u32;
    let b2: u32 = region[at + 2] as u32;
    let b3: u32 = region[at + 3] as u32;
    b0 + b1 * 256 + b2 * 65536 + b3 * 16777216
}

/// Reads the little-endian 64-bit value at `at`.
fn load_u64_le(region: &[u8], at: usize) -> (value: u64)
    requires
        at + 8 <= region@.len(),
    ensures
        value == u64_le_at(region@, at as int),
{
    let region_len: usize = region.len();
    let low: u64 = load_u32_le(region, at) as u64;
    let high: u64 = load_u32_le(region, at + 4) as u64;
    low + high * 4294967296
}

/// Stores `value` at `at`, least significant byte first.
fn store_u32_le(region: &mut [u8], at: usize, value: u32)
    requires
        at + 4 <= old(region)@.len(),
    ensures
        final(region)@ == with_bytes(old(region)@, at as int, u32_le_bytes(value)),
        final(region)@.len() == old(region)@.len(),
{
    let ghost before = region@;
    let region_len: usize = region.len();
    region[at] = (value % 256) as u8;
    region[at + 1] = (value / 256 % 256) as u8;
    region[at + 2] = (value / 65536 % 256) as u8;
    region[at + 3] = (value / 16777216) as u8;
    assert(region@ =~= with_bytes(before, at as int, u32_le_bytes(value)));
}

/// Stores `value` at `at`, least significant byte first.
fn store_u64_le(region: &mut [u8], at: usize, value: u64)
    requires
        at + 8 <= old(region)@.len(),
    ensures
        final(region)@ == with_bytes(old(region)@, at as int, u64_le_bytes(value)),
        final(region)@.len() == old(region)@.len(),
{
    let ghost before = region@;
    let region_len: usize = region.len();
    let low: u32 = (value % 4294967296) as u32;
    let high: u32 = (value / 4294967296) as u32;
    store_u32_le(region, at, low);
    store_u32_le(region, at + 4, high);
    proof {
        lemma_with_bytes_append(before, at as int, u32_le_bytes(low), u32_le_bytes(high));
    }
}

/// Whether every row of the plane lies inside its data.
fn plane_is_readable(plane: &Plane, width: usize) -> (readable: bool)
    ensures
        readable == plane_readable(plane@, width as nat),
{
    match plane.data {
        None => true,
        Some(data) => {
            let data_len: usize = data.len();
            if plane.rows == 0 {
                true
            } else {
                let before_last: usize = plane.rows - 1;
                match before_last.checked_mul(plane.stride) {
                    None => {
                        assert(before_last * plane.stride > data_len);
                        false
                    },
                    Some(last_row) => match last_row.checked_add(width) {
                        None => {
                            assert(last_row + width > data_len);
                            false
                        },
                        Some(end) => end <= data_len,
                    },
                }
            }
        },
    }
}

/// Whether the planes fit one slot and can be read in full.
fn planes_do_fit(frame: &DecodedFrame) -> (fit: bool)
    requires
        frame.width <= MAX_WIDTH,
    ensures
        fit == planes_fit(frame@),
{
    let rows_fit: bool = if frame.width == 0 {
        assert(frame.width * (frame.luma.rows + frame.chroma.rows) == 0) by (nonlinear_arith)
            requires
                frame.width == 0,
        ;
        true
    } else if frame.luma.rows > MAX_FRAME_SIZE || frame.chroma.rows > MAX_FRAME_SIZE {
        assert(frame.width * (frame.luma.rows + frame.chroma.rows) > MAX_FRAME_SIZE)
            by (nonlinear_arith)
            requires
                frame.width >= 1,
                frame.luma.rows > MAX_FRAME_SIZE || frame.chroma.rows > MAX_FRAME_SIZE,
        ;
        false
    } else {
        let rows: u64 = frame.luma.rows as u64 + frame.chroma.rows as u64;
        assert(frame.width * rows <= 1920 * 6220800) by (nonlinear_arith)
            requires
                frame.width <= 1920,
                rows <= 6220800,
        ;
        (frame.width as u64) * rows <= MAX_FRAME_SIZE as u64
    };
    rows_fit && plane_is_readable(&frame.luma, frame.width) && plane_is_readable(
        &frame.chroma,
        frame.width,
    )
}

/// Stages one decoded frame in `region`: copies its planes into the slot
/// named by the parity of the write index and stores its dimensions in the
/// header. The write index stays, so a reader does not see the frame yet. A
/// frame that is larger than a slot, or whose planes are shorter than their
/// rows, is dropped and the region stays as it was.
pub fn stage_frame(region: &mut [u8], frame: &DecodedFrame) -> (outcome: PublishOutcome)
    ensures
        outcome == publish_outcome(old(region)@, frame@),
        outcome == PublishOutcome::Published ==> final(region)@ == staged(old(region)@, frame@),
        outcome != PublishOutcome::Published ==> final(region)@ == old(region)@,
        final(region)@.len() == old(region)@.len(),
{
    if region.len() != FRAME_SHM_SIZE {
        return PublishOutcome::BadRegion;
    }
    if frame.width > MAX_WIDTH || frame.height > MAX_HEIGHT {
        return PublishOutcome::TooLarge;
    }
    if !planes_do_fit(frame) {
        return PublishOutcome::BadPlanes;
    }
    let write_index: u64 = load_u64_le(region, WRITE_INDEX_OFFSET);
    let slot: usize = (write_index % 2) as usize;
    let base: usize = FRAME_HEADER_SIZE + slot * MAX_FRAME_SIZE;
    assert(frame.width * frame.luma.rows + frame.width * frame.chroma.rows == frame.width * (
    frame.luma.rows + frame.chroma.rows)) by (nonlinear_arith);
    assert(0 <= frame.width * frame.luma.rows && 0 <= frame.width * frame.chroma.rows)
        by (nonlinear_arith);
    copy_plane(region, base, &frame.luma, frame.width);
    copy_plane(region, base + frame.width * frame.luma.rows, &frame.chroma, frame.width);
    store_u32_le(region, WIDTH_OFFSET, frame.width as u32);
    store_u32_le(region, HEIGHT_OFFSET, frame.height as u32);
    PublishOutcome::Published
}

/// Commits the staged frame: moves the write index on by one. This is the
/// last step of publishing and the only signal to a reader that a whole
/// frame is there. Returns whether the region has the size of the layout;
/// one that does not is left as it was.
pub fn commit_frame(region: &mut [u8]) -> (done: bool)
    ensures
        done == (old(region)@.len() == FRAME_SHM_SIZE),
        done ==> final(region)@ == committed(old(region)@),
        !done ==> final(region)@ == old(region)@,
        final(region)@.len() == old(region)@.len(),
{
    if region.len() != FRAME_SHM_SIZE {
        return false;
    }
    let write_index: u64 = load_u64_le(region, WRITE_INDEX_OFFSET);
    store_u64_le(region, WRITE_INDEX_OFFSET, write_index.wrapping_add(1));
    true
}

/// Publishes one decoded frame into `region`.
///
/// The planes go into the slot named by the parity of the write index, the
/// dimensions into the header, and last of all the write index moves on by
/// one: a reader that sees the new index finds the whole frame. A frame that
/// is larger than a slot, or whose planes are shorter than their rows, is
/// dropped and the region stays as it was.
pub fn publish_into(region: &mut [u8], frame: &DecodedFrame) -> (outcome: PublishOutcome)
    ensures
        outcome == publish_outcome(old(region)@, frame@),
        outcome == PublishOutcome::Published ==> final(region)@ == published(
            old(region)@,
            frame@,
        ),
        outcome != PublishOutcome::Published ==> final(region)@ == old(region)@,
        final(region)@.len() == old(region)@.len(),
{
    let outcome: PublishOutcome = stage_frame(region, frame);
    if outcome == PublishOutcome::Published {
        commit_frame(region);
    }
    outcome
}

/// The pixels of a frame as a reader finds them: the packed luma rows, then
/// the packed chroma rows. Meaningful for a frame whose planes both have data.
pub open spec fn frame_pixels(frame: FrameView) -> Seq<u8> {
    packed_rows(frame.luma.data->0, frame.luma.stride, frame.width, frame.luma.rows) + packed_rows(
        frame.chroma.data->0,
        frame.chroma.stride,
        frame.width,
        frame.chroma.rows,
    )
}

/// What a reader finds in `region`: nothing before the first frame or where
/// the header is out of range; else the dimensions the header gives and, from
/// the slot before the write index, as many bytes as a frame of those
/// dimensions takes.
pub open spec fn latest_frame_of(region: Seq<u8>) -> Option<(int, int, Seq<u8>)> {
    if region.len() != FRAME_SHM_SIZE || write_index_of(region) == 0 || width_of(region)
        > MAX_WIDTH || height_of(region) > MAX_HEIGHT {
        None
    } else {
        Some(
            (
                width_of(region),
                height_of(region),
                slot_bytes(region, (write_index_of(region) - 1) % 2).subrange(
                    0,
                    width_of(region) * height_of(region) * 3 / 2,
                ),
            ),
        )
    }
}

/// The four base-256 digits of a 32-bit value add up to it.
pub proof fn lemma_u32_digits(value: u32)
    ensures
        value % 256 + (value / 256 % 256) * 256 + (value / 65536 % 256) * 65536 + (value
            / 16777216) * 16777216 == value,
        value / 16777216 < 256,
{
    assert(value % 256 + (value / 256 % 256) * 256 + (value / 65536 % 256) * 65536 + (value
        / 16777216) * 16777216 == value) by (bit_vector);
    assert(value / 16777216 < 256) by (bit_vector);
}

/// A stored 32-bit value reads back as itself.
pub proof fn lemma_u32_le_roundtrip(region: Seq<u8>, at: int, value: u32)
    requires
        0 <= at,
        at + 4 <= region.len(),
    ensures
        u32_le_at(with_bytes(region, at, u32_le_bytes(value)), at) == value,
{
    let bytes = u32_le_bytes(value);
    let after = with_bytes(region, at, bytes);
    lemma_with_bytes_len(region, at, bytes);
    lemma_u32_digits(value);
    assert(after[at] == bytes[0] && after[at + 1] == bytes[1] && after[at + 2] == bytes[2]
        && after[at + 3] == bytes[3]);
    assert(bytes[0] == value % 256);
    assert(bytes[1] == value / 256 % 256);
    assert(bytes[2] == value / 65536 % 256);
    assert(bytes[3] == value / 16777216);
}

/// A 32-bit field is not changed by a write that does not reach it.
pub proof fn lemma_u32_le_untouched(region: Seq<u8>, at: int, written_at: int, data: Seq<u8>)
    requires
        0 <= at,
        at + 4 <= region.len(),
        0 <= written_at,
        written_at + data.len() <= region.len(),
        at + 4 <= written_at || written_at + data.len() <= at,
    ensures
        u32_le_at(with_bytes(region, written_at, data), at) == u32_le_at(region, at),
{
    lemma_with_bytes_len(region, written_at, data);
}

/// A stored 64-bit value reads back as itself.
pub proof fn lemma_u64_le_roundtrip(region: Seq<u8>, at: int, value: u64)
    requires
        0 <= at,
        at + 8 <= region.len(),
    ensures
        u64_le_at(with_bytes(region, at, u64_le_bytes(value)), at) == value,
{
    let low = (value % 4294967296) as u32;
    let high = (value / 4294967296) as u32;
    let low_done = with_bytes(region, at, u32_le_bytes(low));
    lemma_with_bytes_len(region, at, u32_le_bytes(low));
    lemma_with_bytes_append(region, at, u32_le_bytes(low), u32_le_bytes(high));
    lemma_u32_le_roundtrip(region, at, low);
    lemma_u32_le_roundtrip(low_done, at + 4, high);
    lemma_u32_le_untouched(low_done, at, at + 4, u32_le_bytes(high));
}

/// New dimensions read back as they were written, and nothing else in the
/// region changes: not the write index, not a slot.
pub proof fn lemma_with_dimensions(region: Seq<u8>, width: u32, height: u32)
    requires
        region.len() >= FRAME_HEADER_SIZE,
    ensures
        ({
            let after = with_dimensions(region, width, height);
            &&& after.len() == region.len()
            &&& write_index_of(after) == write_index_of(region)
            &&& width_of(after) == width
            &&& height_of(after) == height
            &&& forall|i: int| 0 <= i < 8 || 16 <= i < region.len() ==> after[i] == region[i]
        }),
{
    let width_done = with_bytes(region, WIDTH_OFFSET as int, u32_le_bytes(width));
    lemma_with_bytes_len(region, WIDTH_OFFSET as int, u32_le_bytes(width));
    lemma_with_bytes_len(width_done, HEIGHT_OFFSET as int, u32_le_bytes(height));
    lemma_u32_le_roundtrip(region, WIDTH_OFFSET as int, width);
    lemma_u32_le_roundtrip(width_done, HEIGHT_OFFSET as int, height);
    lemma_u32_le_untouched(width_done, WIDTH_OFFSET as int, HEIGHT_OFFSET as int, u32_le_bytes(height));
}

/// Committing moves the write index on by one and changes nothing behind it.
pub proof fn lemma_committed(region: Seq<u8>)
    requires
        region.len() >= FRAME_HEADER_SIZE,
    ensures
        ({
            let after = committed(region);
            &&& after.len() == region.len()
            &&& write_index_of(after) == next_index(write_index_of(region))
            &&& width_of(after) == width_of(region)
            &&& height_of(after) == height_of(region)
            &&& forall|i: int| 8 <= i < region.len() ==> after[i] == region[i]
        }),
{
    let index = next_index(write_index_of(region));
    lemma_with_bytes_len(region, WRITE_INDEX_OFFSET as int, u64_le_bytes(index));
    lemma_u64_le_roundtrip(region, WRITE_INDEX_OFFSET as int, index);
    lemma_u32_le_untouched(region, WIDTH_OFFSET as int, WRITE_INDEX_OFFSET as int, u64_le_bytes(index));
    lemma_u32_le_untouched(region, HEIGHT_OFFSET as int, WRITE_INDEX_OFFSET as int, u64_le_bytes(index));
}

/// Copying a plane changes nothing outside the bytes its rows take, and puts
/// its packed rows there.
pub proof fn lemma_with_plane(region: Seq<u8>, at: int, plane: PlaneView, width: nat)
    requires
        plane_readable(plane, width),
        0 <= at,
        at + width * plane.rows <= region.len(),
    ensures
        with_plane(region, at, plane, width).len() == region.len(),
        forall|i: int| 0 <= i < at ==> with_plane(region, at, plane, width)[i] == region[i],
        forall|i: int|
            at + width * plane.rows <= i < region.len() ==> with_plane(region, at, plane, width)[i]
                == region[i],
        plane.data matches Some(bytes) ==> with_plane(region, at, plane, width).subrange(
            at,
            at + width * plane.rows,
        ) == packed_rows(bytes, plane.stride, width, plane.rows),
{
    match plane.data {
        Some(bytes) => {
            let rows = packed_rows(bytes, plane.stride, width, plane.rows);
            lemma_packed_rows_len(bytes, plane.stride, width, plane.rows);
            lemma_with_bytes_len(region, at, rows);
            assert(with_plane(region, at, plane, width).subrange(at, at + width * plane.rows)
                =~= rows);
        },
        None => {},
    }
}

/// Copying the planes of a frame changes nothing outside the bytes they take
/// at the start of the write slot, and puts the frame's pixels there.
pub proof fn lemma_with_frame_planes(region: Seq<u8>, frame: FrameView)
    requires
        publish_outcome(region, frame) == PublishOutcome::Published,
    ensures
        ({
            let after = with_frame_planes(region, frame);
            let base = slot_offset(write_index_of(region) % 2);
            let size = frame_size(frame);
            &&& after.len() == region.len()
            &&& 0 <= size <= MAX_FRAME_SIZE
            &&& forall|i: int| 0 <= i < base ==> after[i] == region[i]
            &&& forall|i: int| base + size <= i < region.len() ==> after[i] == region[i]
            &&& frame.luma.data is Some && frame.chroma.data is Some ==> after.subrange(
                base,
                base + size,
            ) == frame_pixels(frame)
        }),
{
    let base = slot_offset(write_index_of(region) % 2);
    let luma_size = frame.width * frame.luma.rows;
    let chroma_size = frame.width * frame.chroma.rows;
    assert(luma_size + chroma_size == frame.width * (frame.luma.rows + frame.chroma.rows)
        && luma_size >= 0 && chroma_size >= 0) by (nonlinear_arith)
        requires
            luma_size == frame.width * frame.luma.rows,
            chroma_size == frame.width * frame.chroma.rows,
    ;
    let luma_done = with_plane(region, base, frame.luma, frame.width);
    lemma_with_plane(region, base, frame.luma, frame.width);
    let after = with_plane(luma_done, base + luma_size, frame.chroma, frame.width);
    lemma_with_plane(luma_done, base + luma_size, frame.chroma, frame.width);
    if frame.luma.data is Some && frame.chroma.data is Some {
        let luma = luma_done.subrange(base, base + luma_size);
        let chroma = after.subrange(base + luma_size, base + luma_size + chroma_size);
        assert forall|i: int| 0 <= i < luma_size implies after[base + i] == luma[i] by {
            assert(luma[i] == luma_done[base + i]);
        }
        assert forall|i: int| 0 <= i < chroma_size implies after[base + luma_size + i]
            == chroma[i] by {}
        assert(after.subrange(base, base + luma_size + chroma_size) =~= luma + chroma);
    }
}

/// Staging a frame leaves the write index where it was and the slot that a
/// reader looks at untouched; only the commit that follows makes the frame
/// visible.
pub proof fn lemma_staged_region(region: Seq<u8>, frame: FrameView)
    requires
        publish_outcome(region, frame) == PublishOutcome::Published,
    ensures
        ({
            let after = staged(region, frame);
            let slot = write_index_of(region) % 2;
            &&& after.len() == region.len()
            &&& write_index_of(after) == write_index_of(region)
            &&& width_of(after) == frame.width
            &&& height_of(after) == frame.height
            &&& slot_bytes(after, 1 - slot) == slot_bytes(region, 1 - slot)
        }),
{
    let slot = write_index_of(region) % 2;
    let planes_done = with_frame_planes(region, frame);
    lemma_with_frame_planes(region, frame);
    lemma_with_dimensions(planes_done, frame.width as u32, frame.height as u32);
    assert(write_index_of(planes_done) == write_index_of(region));
    assert(slot_bytes(staged(region, frame), 1 - slot) =~= slot_bytes(region, 1 - slot));
}

/// What publishing a frame does to the region, field by field: the write
/// index moves on by one, the header gives the frame's dimensions, the slot
/// that the old index names holds the frame's pixels, and the other slot and
/// the reserved part of the header are as they were.
pub proof fn lemma_published_region(region: Seq<u8>, frame: FrameView)
    requires
        publish_outcome(region, frame) == PublishOutcome::Published,
    ensures
        ({
            let after = published(region, frame);
            let slot = write_index_of(region) % 2;
            let size = frame_size(frame);
            &&& after.len() == region.len()
            &&& write_index_of(after) == next_index(write_index_of(region))
            &&& width_of(after) == frame.width
            &&& height_of(after) == frame.height
            &&& after.subrange(16, FRAME_HEADER_SIZE as int) == region.subrange(
                16,
                FRAME_HEADER_SIZE as int,
            )
            &&& slot_bytes(after, 1 - slot) == slot_bytes(region, 1 - slot)
            &&& 0 <= size <= MAX_FRAME_SIZE
            &&& slot_bytes(after, slot).subrange(size, MAX_FRAME_SIZE as int) == slot_bytes(
                region,
                slot,
            ).subrange(size, MAX_FRAME_SIZE as int)
            &&& frame.luma.data is Some && frame.chroma.data is Some ==> slot_bytes(
                after,
                slot,
            ).subrange(0, size) == frame_pixels(frame)
        }),
{
    let slot = write_index_of(region) % 2;
    let base = slot_offset(slot);
    let size = frame_size(frame);
    let planes_done = with_frame_planes(region, frame);
    let after = published(region, frame);
    lemma_with_frame_planes(region, frame);
    lemma_with_dimensions(planes_done, frame.width as u32, frame.height as u32);
    lemma_committed(staged(region, frame));
    assert(write_index_of(planes_done) == write_index_of(region));
    assert(after.subrange(16, FRAME_HEADER_SIZE as int) =~= region.subrange(
        16,
        FRAME_HEADER_SIZE as int,
    ));
    assert(slot_bytes(after, 1 - slot) =~= slot_bytes(region, 1 - slot));
    assert(slot_bytes(after, slot).subrange(size, MAX_FRAME_SIZE as int) =~= slot_bytes(
        region,
        slot,
    ).subrange(size, MAX_FRAME_SIZE as int));
    if frame.luma.data is Some && frame.chroma.data is Some {
        assert(slot_bytes(after, slot).subrange(0, size) =~= planes_done.subrange(
            base,
            base + size,
        ));
    }
}

/// While the planes of the next frame are being copied, a reader finds what
/// it found before: the copy touches neither the header nor the slot that
/// the reader looks at.
pub proof fn lemma_reader_undisturbed_by_copy(region: Seq<u8>, frame: FrameView)
    requires
        publish_outcome(region, frame) == PublishOutcome::Published,
    ensures
        latest_frame_of(with_frame_planes(region, frame)) == latest_frame_of(region),
{
    let after = with_frame_planes(region, frame);
    lemma_with_frame_planes(region, frame);
    let index = write_index_of(region);
    if index != 0 {
        let slot = (index - 1) % 2;
        assert(slot == 1 - index % 2);
        assert(slot_bytes(after, slot) =~= slot_bytes(region, slot));
    }
}

/// After a frame is published, a reader finds that frame: its dimensions and
/// its pixels, for a frame whose planes hold as many bytes as its dimensions
/// call for.
pub proof fn lemma_reader_sees_published(region: Seq<u8>, frame: FrameView)
    requires
        publish_outcome(region, frame) == PublishOutcome::Published,
        write_index_of(region) < u64::MAX,
        frame.luma.data is Some,
        frame.chroma.data is Some,
        frame_size(frame) == frame.width * frame.height * 3 / 2,
    ensures
        latest_frame_of(published(region, frame)) == Some(
            (frame.width as int, frame.height as int, frame_pixels(frame)),
        ),
{
    lemma_published_region(region, frame);
    let after = published(region, frame);
    assert(0 <= u32_le_at(region, 0) && 0 <= u32_le_at(region, 4));
    assert((write_index_of(after) - 1) % 2 == write_index_of(region) % 2);
}

/// The region after a run of frames was published, in order.
pub open spec fn published_all(region: Seq<u8>, frames: Seq<FrameView>) -> Seq<u8>
    decreases frames.len(),
{
    if frames.len() == 0 {
        region
    } else {
        published(published_all(region, frames.drop_last()), frames.last())
    }
}

/// Whether a frame is one that the publisher accepts.
pub open spec fn publishable(frame: FrameView) -> bool {
    within_max_resolution(frame) && planes_fit(frame)
}

/// After a run of accepted frames was published into a fresh region, the
/// write index equals their number, the header gives the dimensions of the
/// last one, and the slot before the write index holds its pixels.
pub proof fn lemma_after_publishes(region: Seq<u8>, frames: Seq<FrameView>)
    requires
        region.len() == FRAME_SHM_SIZE,
        write_index_of(region) == 0,
        frames.len() <= u64::MAX,
        forall|i: int| 0 <= i < frames.len() ==> publishable(#[trigger] frames[i]),
    ensures
        ({
            let after = published_all(region, frames);
            &&& after.len() == FRAME_SHM_SIZE
            &&& write_index_of(after) == frames.len()
            &&& frames.len() > 0 ==> {
                let last = frames.last();
                &&& width_of(after) == last.width
                &&& height_of(after) == last.height
                &&& last.luma.data is Some && last.chroma.data is Some ==> slot_bytes(
                    after,
                    (frames.len() - 1) % 2,
                ).subrange(0, frame_size(last)) == frame_pixels(last)
            }
        }),
    decreases frames.len(),
{
    if frames.len() > 0 {
        let earlier = frames.drop_last();
        assert forall|i: int| 0 <= i < earlier.len() implies publishable(
            #[trigger] earlier[i],
        ) by {
            assert(earlier[i] == frames[i]);
        }
        lemma_after_publishes(region, earlier);
        assert(publishable(frames[frames.len() - 1]));
        lemma_published_region(published_all(region, earlier), frames.last());
    }
}

/// The latest frame as a reader finds it.
pub struct LatestFrame<'a> {
    pub width: u32,
    pub height: u32,
    /// The packed luma plane, then the packed chroma plane.
    pub pixels: &'a [u8],
}

/// The header of a region.
#[derive(Debug, Clone, Copy, PartialEq, Eq, Structural)]
pub struct FrameHeader {
    pub write_index: u64,
    pub width: u32,
    pub height: u32,
}

/// Reads the header of `region`, or nothing from a region that does not have
/// the size of the layout.
pub fn read_header(region: &[u8]) -> (header: Option<FrameHeader>)
    ensures
        header is Some <==> region@.len() == FRAME_SHM_SIZE,
        header matches Some(h) ==> {
            &&& h.write_index == write_index_of(region@)
            &&& h.width == width_of(region@)
            &&& h.height == height_of(region@)
        },
{
    if region.len() != FRAME_SHM_SIZE {
        return None;
    }
    Some(
        FrameHeader {
            write_index: load_u64_le(region, WRITE_INDEX_OFFSET),
            width: load_u32_le(region, WIDTH_OFFSET),
            height: load_u32_le(region, HEIGHT_OFFSET),
        },
    )
}

/// Reads the latest frame of `region` the way a reader process does: the
/// dimensions come from the header on every read, and the pixels from the
/// slot before the write index.
pub fn latest_frame<'a>(region: &'a [u8]) -> (latest: Option<LatestFrame<'a>>)
    ensures
        match latest_frame_of(region@) {
            None => latest is None,
            Some((width, height, pixels)) => latest matches Some(found) && found.width == width
                && found.height == height && found.pixels@ == pixels,
        },
{
    let header: FrameHeader = match read_header(region) {
        None => {
            return None;
        },
        Some(header) => header,
    };
    if header.write_index == 0 || header.width as usize > MAX_WIDTH || header.height as usize
        > MAX_HEIGHT {
        return None;
    }
    let slot: usize = ((header.write_index - 1) % 2) as usize;
    let base: usize = FRAME_HEADER_SIZE + slot * MAX_FRAME_SIZE;
    assert(header.width * header.height <= 1920 * 1080) by (nonlinear_arith)
        requires
            header.width <= 1920,
            header.height <= 1080,
    ;
    let size: usize = (header.width as usize) * (header.height as usize) * 3 / 2;
    let pixels: &[u8] = vstd::slice::slice_subrange(region, base, base + size);
    assert(pixels@ =~= slot_bytes(region@, slot as int).subrange(0, size as int));
    Some(LatestFrame { width: header.width, height: header.height, pixels })
}

/// A frame region held in this process's memory.
pub struct SharedFrameBuffer {
    region: Vec<u8>,
}

impl View for SharedFrameBuffer {
    type V = Seq<u8>;

    closed spec fn view(&self) -> Seq<u8> {
        self.region@
    }
}

impl SharedFrameBuffer {
    /// The region has the size of the layout.
    pub open spec fn wf(&self) -> bool {
        self@.len() == FRAME_SHM_SIZE
    }

    /// A fresh region: every byte zero, so no frame published yet.
    pub fn create() -> (buffer: SharedFrameBuffer)
        ensures
            buffer.wf(),
            buffer@ == Seq::new(FRAME_SHM_SIZE as nat, |i: int| 0u8),
            write_index_of(buffer@) == 0,
            latest_frame_of(buffer@) is None,
    {
        let region: Vec<u8> = vec![0u8; FRAME_SHM_SIZE];
        assert(region@ =~= Seq::new(FRAME_SHM_SIZE as nat, |i: int| 0u8));
        SharedFrameBuffer { region }
    }

    /// The bytes of the region, laid out as the reader process expects them.
    pub fn as_bytes(&self) -> (bytes: &[u8])
        ensures
            bytes@ == self@,
    {
        self.region.as_slice()
    }

    /// Publishes one decoded frame; see [`publish_into`].
    pub fn publish(&mut self, frame: &DecodedFrame) -> (outcome: PublishOutcome)
        requires
            old(self).wf(),
        ensures
            final(self).wf(),
            outcome == publish_outcome(old(self)@, frame@),
            outcome != PublishOutcome::BadRegion,
            outcome == PublishOutcome::Published ==> final(self)@ == published(old(self)@, frame@),
            outcome != PublishOutcome::Published ==> final(self)@ == old(self)@,
    {
        publish_into(self.region.as_mut_slice(), frame)
    }

    /// The number of frames published so far, modulo 2^64.
    pub fn write_index(&self) -> (index: u64)
        requires
            self.wf(),
        ensures
            index == write_index_of(self@),
    {
        load_u64_le(self.region.as_slice(), WRITE_INDEX_OFFSET)
    }

    /// The latest frame; see [`latest_frame`].
    pub fn latest(&self) -> (latest: Option<LatestFrame<'_>>)
        ensures
            match latest_frame_of(self@) {
                None => latest is None,
                Some((width, height, pixels)) => latest matches Some(found) && found.width
                    == width && found.height == height && found.pixels@ == pixels,
            },
    {
        latest_frame(self.region.as_slice())
    }
}

} // verus!
