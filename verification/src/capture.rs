//! Frames read back from the game's render target: row-padding arithmetic
//! of the readback buffer, and the one-frame slot through which the newest
//! frame reaches the viewport.
use vstd::prelude::*;

verus! {

/// Width of the game's capture target, in pixels.
pub const CAPTURE_WIDTH: u32 = 1280;

/// Height of the game's capture target, in pixels.
pub const CAPTURE_HEIGHT: u32 = 720;

/// Bytes per row of a readback buffer must be a multiple of this.
pub const ROW_ALIGNMENT: u32 = 256;

// ─── alignment ─────────────────────────────────────────────────────────────

/// `alignment` is a power of two.
pub open spec fn is_pow2(alignment: u32) -> bool {
    alignment != 0 && alignment & ((alignment - 1) as u32) == 0
}

/// Rounds `value` up with the mask `!(alignment - 1)`. For a power of two
/// this is the least multiple of `alignment` that is not below `value`.
pub fn align_to(value: u32, alignment: u32) -> (r: u32)
    requires
        alignment >= 1,
        value + alignment - 1 <= u32::MAX,
    ensures
        r == (value + alignment - 1) as u32 & !((alignment - 1) as u32),
        is_pow2(alignment) ==> r % alignment == 0 && value <= r && r < value + alignment,
{
    let r = (value + (alignment - 1)) & !(alignment - 1);
    proof {
        if is_pow2(alignment) {
            lemma_align_pow2(value, alignment);
        }
    }
    r
}

proof fn lemma_align_pow2(value: u32, a: u32)
    requires
        a != 0,
        a & ((a - 1) as u32) == 0,
        value + a - 1 <= u32::MAX,
    ensures
        ((value + a - 1) as u32 & !((a - 1) as u32)) % a == 0,
        value <= ((value + a - 1) as u32 & !((a - 1) as u32)),
        ((value + a - 1) as u32 & !((a - 1) as u32)) < value + a,
{
    assert(((value + a - 1) as u32 & !((a - 1) as u32)) % a == 0 && value <= ((value + a - 1) as u32 & !((a - 1) as u32))
        && ((value + a - 1) as u32 & !((a - 1) as u32)) < value + a) by (bit_vector)
        requires
            a != 0,
            a & ((a - 1) as u32) == 0,
            value + a - 1 <= u32::MAX,
    ;
}

/// Bytes of one padded row of a `width`-pixel RGBA readback.
pub open spec fn padded_row(width: u32) -> int {
    ((width * 4 + 255) as u32 & !255u32) as int
}

/// Size in bytes of a readback buffer for a `width`×`height` RGBA frame:
/// each row padded to a multiple of 256 bytes.
pub fn readback_buffer_size(width: u32, height: u32) -> (r: u64)
    requires
        width * 4 + 255 <= u32::MAX,
        padded_row(width) * height <= u32::MAX,
    ensures
        r == padded_row(width) * height,
{
    let stride = align_to(width * 4, 256);
    assert(((256u32 - 1) as u32) == 255u32) by (bit_vector);
    (stride * height) as u64
}

/// Drops the padding at the end of each row: row `k` of the result is the
/// first `width * 4` bytes of row `k` of the padded buffer (the last row
/// need not be padded).
#[verifier::spinoff_prover]
#[verifier::rlimit(40)]
pub fn strip_row_padding(padded: &[u8], width: u32, height: u32) -> (out: Vec<u8>)
    requires
        width * 4 + 255 <= u32::MAX,
        height > 0 ==> padded_row(width) * (height - 1) + width * 4 <= padded@.len(),
        width * 4 * height <= usize::MAX,
    ensures
        out@.len() == width * 4 * height,
        forall|row: int, col: int|
            0 <= row < height && 0 <= col < width * 4 ==> #[trigger] out@[row * (width * 4) + col]
                == padded@[row * padded_row(width) + col],
{
    let pixel_stride = (width * 4) as usize;
    assert(is_pow2(256u32)) by (bit_vector);
    let padded_stride = align_to(width * 4, 256) as usize;
    assert(((256u32 - 1) as u32) == 255u32) by (bit_vector);
    assert(padded_stride >= pixel_stride);
    assert(padded@.len() == padded.len());
    let mut out: Vec<u8> = Vec::new();
    let mut row: usize = 0;
    while row < height as usize
        invariant
            pixel_stride == width * 4,
            padded_stride == padded_row(width),
            padded_stride >= pixel_stride,
            height > 0 ==> padded_row(width) * (height - 1) + pixel_stride <= padded@.len(),
            padded@.len() <= usize::MAX,
            width * 4 * height <= usize::MAX,
            row <= height,
            out@.len() == row * pixel_stride,
            forall|r: int, c: int|
                0 <= r < row && 0 <= c < pixel_stride ==> #[trigger] out@[r * pixel_stride + c]
                    == padded@[r * padded_stride + c],
        decreases height - row,
    {
        proof {
            lemma_row_bounds(row as int, height as int, pixel_stride as int, padded_stride as int);
        }
        let src = row * padded_stride;
        let ghost before = out@;
        let mut col: usize = 0;
        while col < pixel_stride
            invariant
                row < height,
                pixel_stride == width * 4,
                padded_stride >= pixel_stride,
                src == row * padded_stride,
                src + pixel_stride <= padded@.len(),
                padded@.len() <= usize::MAX,
                before.len() == row * pixel_stride,
                out@.len() == before.len() + col,
                col <= pixel_stride,
                forall|k: int| 0 <= k < before.len() ==> out@[k] == before[k],
                forall|c: int| 0 <= c < col ==> #[trigger] out@[before.len() + c] == padded@[src + c],
            decreases pixel_stride - col,
        {
            out.push(padded[src + col]);
            col += 1;
        }
        proof {
            assert forall|r: int, c: int|
                0 <= r < row + 1 && 0 <= c < pixel_stride implies #[trigger] out@[r * pixel_stride + c]
                    == padded@[r * padded_stride + c] by {
                lemma_row_index(r, row as int, c, pixel_stride as int);
                if r < row {
                    assert(out@[r * pixel_stride + c] == before[r * pixel_stride + c]);
                } else {
                    assert(r * pixel_stride + c == before.len() + c);
                }
            }
            assert(out@.len() == (row + 1) * pixel_stride) by (nonlinear_arith)
                requires
                    out@.len() == before.len() + pixel_stride,
                    before.len() == row * pixel_stride,
            ;
        }
        row += 1;
    }
    proof {
        assert(out@.len() == width * 4 * height) by (nonlinear_arith)
            requires
                out@.len() == row * pixel_stride,
                row == height,
                pixel_stride == width * 4,
        ;
    }
    out
}

proof fn lemma_row_bounds(row: int, height: int, ps: int, pad: int)
    requires
        0 <= row < height,
        0 <= ps <= pad,
    ensures
        row * pad + ps <= pad * (height - 1) + ps,
        row * ps + ps <= ps * height,
        0 <= row * pad,
{
    assert(row * pad + ps <= pad * (height - 1) + ps) by (nonlinear_arith)
        requires
            0 <= row < height,
            0 <= ps <= pad,
    ;
    assert(row * ps + ps <= ps * height) by (nonlinear_arith)
        requires
            0 <= row < height,
            0 <= ps,
    ;
    assert(0 <= row * pad) by (nonlinear_arith)
        requires
            0 <= row,
            0 <= pad,
    ;
}

proof fn lemma_row_index(r: int, row: int, c: int, ps: int)
    requires
        0 <= r <= row,
        0 <= c < ps,
    ensures
        r < row ==> r * ps + c < row * ps,
        r == row ==> r * ps + c == row * ps + c,
        0 <= r * ps + c,
{
    assert(r < row ==> r * ps + c < row * ps) by (nonlinear_arith)
        requires
            0 <= r <= row,
            0 <= c < ps,
    ;
    assert(0 <= r * ps) by (nonlinear_arith)
        requires
            0 <= r,
            0 <= ps,
    ;
}

// ─── the newest-frame slot ─────────────────────────────────────────────────

/// One captured frame: RGBA bytes, row after row.
pub struct Frame {
    pub width: u32,
    pub height: u32,
    pub rgba: Vec<u8>,
}

/// Model of a frame.
pub struct FrameView {
    pub width: u32,
    pub height: u32,
    pub rgba: Seq<u8>,
}

impl View for Frame {
    type V = FrameView;

    open spec fn view(&self) -> FrameView {
        FrameView { width: self.width, height: self.height, rgba: self.rgba@ }
    }
}

/// Model of the slot.
pub open spec fn slot_view(slot: Option<Frame>) -> Option<FrameView> {
    match slot {
        Some(f) => Some(f@),
        None => None,
    }
}

/// The slot after a push: holding the pushed frame.
pub open spec fn pushed(f: FrameView) -> Option<FrameView> {
    Some(f)
}

/// What a take answers and the slot it leaves: the frame held, and an empty
/// slot.
pub open spec fn taken(slot: Option<FrameView>) -> (Option<FrameView>, Option<FrameView>) {
    (slot, None)
}

/// Publishes a frame, replacing any frame not taken yet.
pub fn push_frame(slot: &mut Option<Frame>, width: u32, height: u32, rgba: Vec<u8>)
    ensures
        slot_view(*final(slot)) == pushed(FrameView { width, height, rgba: rgba@ }),
{
    *slot = Some(Frame { width, height, rgba });
}

/// Takes the newest frame, leaving the slot empty; `None` when no frame
/// arrived since the last take.
pub fn take_latest_frame(slot: &mut Option<Frame>) -> (r: Option<Frame>)
    ensures
        slot_view(r) == taken(slot_view(*old(slot))).0,
        slot_view(*final(slot)) == taken(slot_view(*old(slot))).1,
{
    slot.take()
}

/// Forgets any frame not taken yet.
pub fn clear_latest_frame(slot: &mut Option<Frame>)
    ensures
        slot_view(*final(slot)) is None,
{
    *slot = None;
}

/// A take after a push answers the pushed frame (the newest one wins over
/// any earlier push), and a second take answers nothing.
pub proof fn lemma_take_after_push(earlier: Option<FrameView>, f: FrameView)
    ensures
        taken(pushed(f)).0 == Some(f),
        taken(taken(pushed(f)).1).0 is None,
{
}

} // verus!
