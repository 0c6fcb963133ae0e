//! Captured frames, regions of interest and cropping.

use vstd::prelude::*;
use crate::device::PixelFormat;
use crate::mjpeg::{decode_to_rgb24, decoder_view, spec_decode_to_rgb24, DecoderOutput, DecoderOutputView};

verus! {

/// One frame as delivered by a capture backend.
#[derive(Debug, Clone)]
pub struct CaptureFrame {
    pub sequence: u64,
    pub width: u32,
    pub height: u32,
    pub format: PixelFormat,
    pub data: Vec<u8>,
    pub timestamp_us: u64,
    pub is_cropped: bool,
}

/// The abstract content of a frame.
pub struct FrameView {
    pub sequence: u64,
    pub width: u32,
    pub height: u32,
    pub format: PixelFormat,
    pub data: Seq<u8>,
    pub timestamp_us: u64,
    pub is_cropped: bool,
}

impl View for CaptureFrame {
    type V = FrameView;

    open spec fn view(&self) -> FrameView {
        FrameView {
            sequence: self.sequence,
            width: self.width,
            height: self.height,
            format: self.format,
            data: self.data@,
            timestamp_us: self.timestamp_us,
            is_cropped: self.is_cropped,
        }
    }
}

/// Bytes a raw frame occupies; 0 for MJPEG, whose size is not predictable.
pub open spec fn spec_expected_size(width: int, height: int, format: PixelFormat) -> int {
    let pixels = width * height;
    match format {
        PixelFormat::Rgb24 | PixelFormat::Bgr24 => pixels * 3,
        PixelFormat::Nv12 => pixels * 3 / 2,
        PixelFormat::Yuyv => pixels * 2,
        PixelFormat::Mjpeg => 0,
    }
}

impl CaptureFrame {
    /// Microseconds since the Unix epoch by the system clock (0 if the clock
    /// is before the epoch). Nothing is stated of the value: it is the time.
    #[verifier::external_body]
    pub fn now_us() -> u64 {
        std::time::SystemTime::now()
            .duration_since(std::time::UNIX_EPOCH)
            .unwrap_or_default()
            .as_micros() as u64
    }

    pub fn size_bytes(&self) -> (n: usize)
        ensures
            n == self.data@.len(),
    {
        self.data.len()
    }

    /// Bytes a raw frame of `format` occupies at `width` x `height`.
    ///
    /// Returns 0 for MJPEG: a compressed frame's size cannot be derived from
    /// its dimensions, so 0 means "not predictable", not "empty".
    pub fn expected_size(width: u32, height: u32, format: PixelFormat) -> (n: usize)
        requires
            width * height <= u32::MAX,
            width * height * 3 <= usize::MAX,
        ensures
            n == spec_expected_size(width as int, height as int, format),
    {
        let pixels: usize = (width * height) as usize;
        match format {
            PixelFormat::Rgb24 | PixelFormat::Bgr24 => pixels * 3,
            PixelFormat::Nv12 => pixels * 3 / 2,
            PixelFormat::Yuyv => pixels * 2,
            PixelFormat::Mjpeg => 0,
        }
    }
}

/// A rectangular region of interest, in pixels.
#[derive(Debug, Clone, Copy, PartialEq, Eq, Structural)]
pub struct Roi {
    pub x: u32,
    pub y: u32,
    pub width: u32,
    pub height: u32,
}

pub open spec fn spec_roi_valid(roi: Roi, frame_width: int, frame_height: int) -> bool {
    &&& roi.width > 0
    &&& roi.height > 0
    &&& roi.x + roi.width <= frame_width
    &&& roi.y + roi.height <= frame_height
}

impl Roi {
    /// Non-empty and entirely inside a `frame_width` x `frame_height` frame.
    pub fn validate(&self, frame_width: u32, frame_height: u32) -> (b: bool)
        requires
            self.x + self.width <= u32::MAX,
            self.y + self.height <= u32::MAX,
        ensures
            b == spec_roi_valid(*self, frame_width as int, frame_height as int),
    {
        self.width > 0 && self.height > 0 && self.x + self.width <= frame_width && self.y
            + self.height <= frame_height
    }
}

/// Rows `y0 .. y0 + rows` of a plane starting at byte `base`, each row
/// contributing `row_len` bytes from column offset `x_off`. A row whose end
/// would pass `limit` is left out.
pub open spec fn crop_rows(
    data: Seq<u8>,
    base: int,
    stride: int,
    x_off: int,
    row_len: int,
    y0: int,
    rows: nat,
    limit: int,
) -> Seq<u8>
    decreases rows,
{
    if rows == 0 {
        Seq::empty()
    } else {
        let prev = crop_rows(data, base, stride, x_off, row_len, y0, (rows - 1) as nat, limit);
        let start = base + (y0 + rows - 1) * stride + x_off;
        let end = start + row_len;
        if end <= limit {
            prev + data.subrange(start, end)
        } else {
            prev
        }
    }
}

/// Index arithmetic of a crop on a `width` x `height` raw frame stays in `usize`.
pub open spec fn roi_fits(width: int, height: int, roi: Roi) -> bool {
    (width + 1) * (height + roi.y + roi.height + 1) * 3 + (roi.x + roi.width) * 3 <= usize::MAX
}

/// Whether `roi_fits` holds, for callers outside the proofs.
pub fn roi_fits_exec(width: u32, height: u32, roi: Roi) -> (b: bool)
    ensures
        b == roi_fits(width as int, height as int, roi),
{
    let (w, h): (u128, u128) = (width as u128, height as u128);
    assert((w + 1) * (h + roi.y + roi.height + 1) <= 0x1_0000_0000 * 0x4_0000_0000) by (nonlinear_arith)
        requires
            w <= 0xffff_ffff,
            h <= 0xffff_ffff,
            roi.y <= 0xffff_ffff,
            roi.height <= 0xffff_ffff,
    ;
    let need: u128 = (w + 1) * (h + roi.y as u128 + roi.height as u128 + 1) * 3 + (roi.x as u128
        + roi.width as u128) * 3;
    need <= usize::MAX as u128
}

pub open spec fn even_down(v: int) -> int {
    v - v % 2
}

pub open spec fn min_int(a: int, b: int) -> int {
    if a <= b {
        a
    } else {
        b
    }
}

/// A packed (single plane) crop with `bpp` bytes per pixel.
pub open spec fn spec_crop_packed(f: FrameView, roi: Roi, bpp: int) -> FrameView {
    FrameView {
        data: crop_rows(
            f.data,
            0,
            f.width * bpp,
            roi.x * bpp,
            roi.width * bpp,
            roi.y as int,
            roi.height as nat,
            f.data.len() as int,
        ),
        width: roi.width,
        height: roi.height,
        is_cropped: true,
        ..f
    }
}

/// NV12: the region is rounded down to even offsets and sizes (2x2 chroma),
/// clamped to the frame, and the Y and interleaved UV planes cropped alike.
pub open spec fn spec_crop_nv12(f: FrameView, roi: Roi) -> FrameView {
    let w = f.width as int;
    let h = f.height as int;
    let adj_x = even_down(roi.x as int);
    let adj_y = even_down(roi.y as int);
    let adj_w0 = even_down(roi.width as int);
    let adj_h0 = even_down(roi.height as int);
    if adj_x >= w || adj_y >= h {
        FrameView { is_cropped: false, ..f }
    } else {
        let adj_w = if adj_x + adj_w0 > w {
            even_down(w - adj_x)
        } else {
            adj_w0
        };
        let adj_h = if adj_y + adj_h0 > h {
            even_down(h - adj_y)
        } else {
            adj_h0
        };
        if adj_w == 0 || adj_h == 0 {
            FrameView { is_cropped: false, ..f }
        } else {
            let y_size = w * h;
            let y_plane = crop_rows(
                f.data,
                0,
                w,
                adj_x,
                adj_w,
                adj_y,
                adj_h as nat,
                min_int(y_size, f.data.len() as int),
            );
            let uv_plane = crop_rows(
                f.data,
                y_size,
                w,
                adj_x,
                adj_w,
                adj_y / 2,
                (adj_h / 2) as nat,
                f.data.len() as int,
            );
            FrameView {
                data: y_plane + uv_plane,
                width: adj_w as u32,
                height: adj_h as u32,
                is_cropped: true,
                ..f
            }
        }
    }
}

/// Rows that all end within `limit` are taken whole: the crop holds
/// `rows * row_len` bytes, byte `c` of output row `r` being byte `c` of
/// source row `y0 + r` from column offset `x_off`.
proof fn lemma_crop_rows_content(
    data: Seq<u8>,
    base: int,
    stride: int,
    x_off: int,
    row_len: int,
    y0: int,
    rows: nat,
    limit: int,
)
    requires
        0 <= base,
        0 <= stride,
        0 <= x_off,
        0 <= row_len,
        0 <= y0,
        limit <= data.len(),
        rows > 0 ==> base + (y0 + rows - 1) * stride + x_off + row_len <= limit,
    ensures
        crop_rows(data, base, stride, x_off, row_len, y0, rows, limit).len() == rows * row_len,
        forall|r: int, c: int|
            0 <= r < rows && 0 <= c < row_len ==> #[trigger] crop_rows(
                data,
                base,
                stride,
                x_off,
                row_len,
                y0,
                rows,
                limit,
            )[r * row_len + c] == data[base + (y0 + r) * stride + x_off + c],
    decreases rows,
{
    if rows > 0 {
        let k = (rows - 1) as nat;
        if k > 0 {
            assert((y0 + k - 1) * stride <= (y0 + rows - 1) * stride) by (nonlinear_arith)
                requires
                    stride >= 0,
                    k == rows - 1,
            ;
        }
        lemma_crop_rows_content(data, base, stride, x_off, row_len, y0, k, limit);
        let prev = crop_rows(data, base, stride, x_off, row_len, y0, k, limit);
        let start = base + (y0 + k) * stride + x_off;
        assert(0 <= (y0 + k) * stride) by (nonlinear_arith)
            requires
                y0 >= 0,
                stride >= 0,
        ;
        let out = crop_rows(data, base, stride, x_off, row_len, y0, rows, limit);
        assert(out == prev + data.subrange(start, start + row_len));
        assert(rows * row_len == k * row_len + row_len) by (nonlinear_arith)
            requires
                k == rows - 1,
        ;
        assert forall|r: int, c: int| 0 <= r < rows && 0 <= c < row_len implies #[trigger] out[r
            * row_len + c] == data[base + (y0 + r) * stride + x_off + c] by {
            if r < k {
                assert(r * row_len + c < k * row_len) by (nonlinear_arith)
                    requires
                        0 <= r < k,
                        0 <= c < row_len,
                ;
                assert(0 <= r * row_len) by (nonlinear_arith)
                    requires
                        0 <= r,
                        0 <= row_len,
                ;
                assert(out[r * row_len + c] == prev[r * row_len + c]);
            } else {
                assert(r == k);
                assert(out[r * row_len + c] == data[start + c]);
            }
        }
    }
}

/// Cropping a whole packed frame (RGB24 and BGR24 at 3 bytes a pixel, YUYV
/// at 2) to a region inside it: the output is the region's rows, each the
/// `roi.width` pixels from column `roi.x`, and has the region's size.
pub proof fn lemma_packed_crop(f: FrameView, roi: Roi, jpeg: DecoderOutputView, bpp: int)
    requires
        f.format is Rgb24 || f.format is Bgr24 || f.format is Yuyv,
        bpp == (if f.format is Yuyv { 2int } else { 3int }),
        spec_roi_valid(roi, f.width as int, f.height as int),
        f.data.len() >= (f.width as int) * (f.height as int) * bpp,
    ensures
        ({
            let g = spec_apply_roi(f, roi, jpeg);
            let w = f.width as int;
            let rl = roi.width * bpp;
            &&& g.format == f.format
            &&& g.sequence == f.sequence
            &&& g.timestamp_us == f.timestamp_us
            &&& g.is_cropped
            &&& g.width == roi.width
            &&& g.height == roi.height
            &&& g.data.len() == roi.height * rl
            &&& forall|r: int, c: int|
                0 <= r < roi.height && 0 <= c < rl ==> #[trigger] g.data[r * rl + c] == f.data[(
                roi.y + r) * (w * bpp) + roi.x * bpp + c]
        }),
{
    let w = f.width as int;
    let h = f.height as int;
    assert(0 <= w * bpp) by (nonlinear_arith)
        requires
            w >= 0,
            bpp >= 0,
    ;
    assert((roi.y + roi.height - 1) * (w * bpp) + roi.x * bpp + roi.width * bpp <= w * h * bpp)
        by (nonlinear_arith)
        requires
            roi.y + roi.height <= h,
            roi.x + roi.width <= w,
            roi.height >= 1,
            bpp >= 0,
            w >= 0,
    ;
    assert(0 <= roi.x * bpp && 0 <= roi.width * bpp) by (nonlinear_arith)
        requires
            bpp >= 0,
    ;
    lemma_crop_rows_content(
        f.data,
        0,
        w * bpp,
        roi.x * bpp,
        roi.width * bpp,
        roi.y as int,
        roi.height as nat,
        f.data.len() as int,
    );
}

/// Cropping a whole NV12 frame to a region inside it: the region is rounded
/// down to even offsets and sizes; when some of it is left, the output holds
/// the Y rows `adj_y ..` then the interleaved UV rows `adj_y / 2 ..` (one UV
/// row per two image rows), each cut to columns `adj_x .. adj_x + adj_w`.
/// When nothing is left the frame is returned as it was, uncropped.
pub proof fn lemma_nv12_crop(f: FrameView, roi: Roi, jpeg: DecoderOutputView)
    requires
        f.format is Nv12,
        spec_roi_valid(roi, f.width as int, f.height as int),
        f.data.len() >= (f.width as int) * (f.height as int) + (f.width as int) * ((f.height as int) / 2),
    ensures
        ({
            let g = spec_apply_roi(f, roi, jpeg);
            let w = f.width as int;
            let h = f.height as int;
            let ax = roi.x - roi.x % 2;
            let ay = roi.y - roi.y % 2;
            let aw = roi.width - roi.width % 2;
            let ah = roi.height - roi.height % 2;
            &&& g.format == f.format
            &&& g.sequence == f.sequence
            &&& g.timestamp_us == f.timestamp_us
            &&& g.is_cropped == (aw > 0 && ah > 0)
            &&& !g.is_cropped ==> g.data == f.data && g.width == f.width && g.height == f.height
            &&& g.is_cropped ==> {
                &&& g.width == aw
                &&& g.height == ah
                &&& g.data.len() == aw * ah + aw * (ah / 2)
                &&& forall|r: int, c: int|
                    0 <= r < ah && 0 <= c < aw ==> #[trigger] g.data[r * aw + c] == f.data[(ay + r)
                        * w + ax + c]
                &&& forall|r: int, c: int|
                    0 <= r < ah / 2 && 0 <= c < aw ==> #[trigger] g.data[aw * ah + r * aw + c]
                        == f.data[w * h + (ay / 2 + r) * w + ax + c]
            }
        }),
{
    let w = f.width as int;
    let h = f.height as int;
    let ax = roi.x - roi.x % 2;
    let ay = roi.y - roi.y % 2;
    let aw = roi.width - roi.width % 2;
    let ah = roi.height - roi.height % 2;
    assert(ax + aw <= w && ay + ah <= h && ax < w && ay < h);
    if aw > 0 && ah > 0 {
        let ysz = w * h;
        assert(0 <= ysz) by (nonlinear_arith)
            requires
                w >= 0,
                h >= 0,
                ysz == w * h,
        ;
        assert((ay + ah - 1) * w + ax + aw <= ysz) by (nonlinear_arith)
            requires
                ay + ah <= h,
                ax + aw <= w,
                ysz == w * h,
                ah >= 1,
                w >= 0,
        ;
        assert(ay / 2 + ah / 2 <= h / 2);
        assert((ay / 2 + ah / 2 - 1) * w + ax + aw <= w * (h / 2)) by (nonlinear_arith)
            requires
                ay / 2 + ah / 2 <= h / 2,
                ax + aw <= w,
                ah / 2 >= 1,
                w >= 0,
        ;
        assert(min_int(ysz, f.data.len() as int) == ysz);
        lemma_crop_rows_content(f.data, 0, w, ax, aw, ay, ah as nat, ysz);
        lemma_crop_rows_content(f.data, ysz, w, ax, aw, ay / 2, (ah / 2) as nat, f.data.len() as int);
        let g = spec_apply_roi(f, roi, jpeg);
        let yp = crop_rows(f.data, 0, w, ax, aw, ay, ah as nat, ysz);
        let uv = crop_rows(f.data, ysz, w, ax, aw, ay / 2, (ah / 2) as nat, f.data.len() as int);
        assert(g.data == yp + uv);
        assert(ah * aw == aw * ah) by (nonlinear_arith);
        assert forall|r: int, c: int| 0 <= r < ah && 0 <= c < aw implies #[trigger] g.data[r * aw
            + c] == f.data[(ay + r) * w + ax + c] by {
            assert(r * aw + c < ah * aw) by (nonlinear_arith)
                requires
                    0 <= r < ah,
                    0 <= c < aw,
            ;
            assert(0 <= r * aw) by (nonlinear_arith)
                requires
                    0 <= r,
                    0 <= aw,
            ;
            assert(g.data[r * aw + c] == yp[r * aw + c]);
        }
        assert forall|r: int, c: int| 0 <= r < ah / 2 && 0 <= c < aw implies #[trigger] g.data[aw
            * ah + r * aw + c] == f.data[ysz + (ay / 2 + r) * w + ax + c] by {
            assert(0 <= r * aw) by (nonlinear_arith)
                requires
                    0 <= r,
                    0 <= aw,
            ;
            assert(r * aw + c < (ah / 2) * aw) by (nonlinear_arith)
                requires
                    0 <= r < ah / 2,
                    0 <= c < aw,
            ;
            assert(uv[r * aw + c] == f.data[ysz + (ay / 2 + r) * w + ax + c]);
            assert(g.data[aw * ah + r * aw + c] == uv[r * aw + c]);
        }
    }
}

/// Cropping a frame that already holds raw pixels.
pub open spec fn spec_crop_raw(f: FrameView, roi: Roi) -> FrameView {
    match f.format {
        PixelFormat::Rgb24 | PixelFormat::Bgr24 => spec_crop_packed(f, roi, 3),
        PixelFormat::Yuyv => spec_crop_packed(f, roi, 2),
        PixelFormat::Nv12 => spec_crop_nv12(f, roi),
        PixelFormat::Mjpeg => f,
    }
}

/// What applying a region of interest does to a frame. MJPEG is decoded to
/// RGB24 first and cropped as such; if the decode fails, or the decoded frame
/// is too large to index within `usize`, the frame keeps its bytes, geometry
/// and format and is reported uncropped. `jpeg` is what the JPEG decoder gave
/// for the frame's bytes; only an MJPEG frame reads it.
pub open spec fn spec_apply_roi(f: FrameView, roi: Roi, jpeg: DecoderOutputView) -> FrameView {
    match f.format {
        PixelFormat::Mjpeg => match spec_decode_to_rgb24(f.data, jpeg) {
            Ok((w, h, rgb)) => if roi_fits(w as int, h as int, roi) {
                spec_crop_raw(
                    FrameView { data: rgb, width: w, height: h, format: PixelFormat::Rgb24, ..f },
                    roi,
                )
            } else {
                FrameView { is_cropped: false, ..f }
            },
            Err(_) => FrameView { is_cropped: false, ..f },
        },
        _ => spec_crop_raw(f, roi),
    }
}

/// Requirement under which cropping a raw frame cannot overflow index
/// arithmetic. An MJPEG frame is checked once decoded, at its decoded size.
pub open spec fn apply_roi_fits(f: FrameView, roi: Roi) -> bool {
    f.format is Mjpeg || roi_fits(f.width as int, f.height as int, roi)
}

pub(crate) fn append_range(out: &mut Vec<u8>, data: &Vec<u8>, start: usize, end: usize)
    requires
        start <= end <= data@.len(),
    ensures
        final(out)@ == old(out)@ + data@.subrange(start as int, end as int),
{
    let mut i = start;
    while i < end
        invariant
            start <= i <= end,
            end <= data@.len(),
            out@ == old(out)@ + data@.subrange(start as int, i as int),
        decreases end - i,
    {
        out.push(data[i]);
        i = i + 1;
        assert(out@ =~= old(out)@ + data@.subrange(start as int, i as int));
    }
}

proof fn lemma_row_offset_bound(y0: int, r: int, rows: int, stride: int)
    requires
        0 <= y0,
        0 <= r < rows,
        0 <= stride,
    ensures
        (y0 + r) * stride + stride <= (y0 + rows) * stride,
{
    assert((y0 + r + 1) * stride <= (y0 + rows) * stride) by (nonlinear_arith)
        requires
            0 <= stride,
            y0 + r + 1 <= y0 + rows,
    ;
    assert((y0 + r + 1) * stride == (y0 + r) * stride + stride) by (nonlinear_arith);
}

fn crop_rows_exec(
    data: &Vec<u8>,
    base: usize,
    stride: usize,
    x_off: usize,
    row_len: usize,
    y0: usize,
    rows: usize,
    limit: usize,
) -> (out: Vec<u8>)
    requires
        limit <= data@.len(),
        y0 + rows <= usize::MAX,
        base + (y0 + rows) * stride + x_off + row_len <= usize::MAX,
    ensures
        out@ == crop_rows(
            data@,
            base as int,
            stride as int,
            x_off as int,
            row_len as int,
            y0 as int,
            rows as nat,
            limit as int,
        ),
{
    let mut out: Vec<u8> = Vec::new();
    let mut r: usize = 0;
    while r < rows
        invariant
            r <= rows,
            limit <= data@.len(),
            y0 + rows <= usize::MAX,
            base + (y0 + rows) * stride + x_off + row_len <= usize::MAX,
            out@ == crop_rows(
                data@,
                base as int,
                stride as int,
                x_off as int,
                row_len as int,
                y0 as int,
                r as nat,
                limit as int,
            ),
        decreases rows - r,
    {
        proof {
            lemma_row_offset_bound(y0 as int, r as int, rows as int, stride as int);
        }
        let start = base + (y0 + r) * stride + x_off;
        let end = start + row_len;
        if end <= limit {
            append_range(&mut out, data, start, end);
        }
        r = r + 1;
    }
    out
}

proof fn lemma_packed_bounds(w: int, h: int, roi: Roi, bpp: int)
    requires
        0 <= w,
        0 <= h,
        2 <= bpp <= 3,
        roi_fits(w, h, roi),
    ensures
        w * bpp <= usize::MAX,
        roi.x * bpp + roi.width * bpp <= usize::MAX,
        roi.y + roi.height <= usize::MAX,
        (roi.y + roi.height) * (w * bpp) + roi.x * bpp + roi.width * bpp <= usize::MAX,
{
    let r = roi.y + roi.height;
    assert(r * (w * bpp) + w * bpp <= (w + 1) * (h + r + 1) * 3) by (nonlinear_arith)
        requires
            0 <= w,
            0 <= h,
            0 <= r,
            2 <= bpp <= 3,
    ;
    assert(r <= (w + 1) * (h + r + 1) * 3) by (nonlinear_arith)
        requires
            0 <= w,
            0 <= h,
            0 <= r,
    ;
    assert(roi.x * bpp + roi.width * bpp <= (roi.x + roi.width) * 3) by (nonlinear_arith)
        requires
            0 <= roi.x,
            0 <= roi.width,
            2 <= bpp <= 3,
    ;
}

proof fn lemma_nv12_bounds(w: int, h: int, roi: Roi)
    requires
        0 <= w,
        0 <= h,
        roi_fits(w, h, roi),
    ensures
        w * h <= usize::MAX,
        roi.y + roi.height <= usize::MAX,
        w * h + (roi.y + roi.height) * w + roi.x + roi.width <= usize::MAX,
{
    let r = roi.y + roi.height;
    assert(w * h + r * w + r <= (w + 1) * (h + r + 1) * 3) by (nonlinear_arith)
        requires
            0 <= w,
            0 <= h,
            0 <= r,
    ;
}

fn crop_packed(frame: &mut CaptureFrame, roi: Roi, bpp: usize)
    requires
        2 <= bpp <= 3,
        roi_fits(old(frame).width as int, old(frame).height as int, roi),
    ensures
        final(frame)@ == spec_crop_packed(old(frame)@, roi, bpp as int),
{
    proof {
        lemma_packed_bounds(frame.width as int, frame.height as int, roi, bpp as int);
    }
    let stride: usize = (frame.width as usize) * bpp;
    let x_off: usize = (roi.x as usize) * bpp;
    let row_len: usize = (roi.width as usize) * bpp;
    let len = frame.data.len();
    let out = crop_rows_exec(&frame.data, 0, stride, x_off, row_len, roi.y as usize, roi.height as usize, len);
    frame.data = out;
    frame.width = roi.width;
    frame.height = roi.height;
    frame.is_cropped = true;
}

fn crop_nv12(frame: &mut CaptureFrame, roi: Roi)
    requires
        roi_fits(old(frame).width as int, old(frame).height as int, roi),
    ensures
        final(frame)@ == spec_crop_nv12(old(frame)@, roi),
{
    proof {
        lemma_nv12_bounds(frame.width as int, frame.height as int, roi);
    }
    let src_w = frame.width as usize;
    let src_h = frame.height as usize;
    let adj_x: usize = (roi.x - roi.x % 2) as usize;
    let adj_y: usize = (roi.y - roi.y % 2) as usize;
    let mut adj_w: usize = (roi.width - roi.width % 2) as usize;
    let mut adj_h: usize = (roi.height - roi.height % 2) as usize;
    if adj_x >= src_w {
        frame.is_cropped = false;
        return;
    }
    if adj_y >= src_h {
        frame.is_cropped = false;
        return;
    }
    if adj_x + adj_w > src_w {
        let room = src_w - adj_x;
        adj_w = room - room % 2;
    }
    if adj_y + adj_h > src_h {
        let room = src_h - adj_y;
        adj_h = room - room % 2;
    }
    if adj_w == 0 || adj_h == 0 {
        frame.is_cropped = false;
        return;
    }
    let y_plane_size: usize = src_w * src_h;
    let len = frame.data.len();
    let y_limit = if y_plane_size <= len {
        y_plane_size
    } else {
        len
    };
    assert((adj_y + adj_h) * src_w <= (roi.y + roi.height) * src_w) by (nonlinear_arith)
        requires
            adj_y + adj_h <= roi.y + roi.height,
    ;
    assert((adj_y / 2 + adj_h / 2) * src_w <= (roi.y + roi.height) * src_w) by (nonlinear_arith)
        requires
            adj_y / 2 + adj_h / 2 <= roi.y + roi.height,
    ;
    let mut out = crop_rows_exec(&frame.data, 0, src_w, adj_x, adj_w, adj_y, adj_h, y_limit);
    let mut uv = crop_rows_exec(&frame.data, y_plane_size, src_w, adj_x, adj_w, adj_y / 2, adj_h / 2, len);
    out.append(&mut uv);
    frame.data = out;
    frame.width = adj_w as u32;
    frame.height = adj_h as u32;
    frame.is_cropped = true;
}

fn crop_raw(frame: &mut CaptureFrame, roi: Roi)
    requires
        roi_fits(old(frame).width as int, old(frame).height as int, roi),
    ensures
        final(frame)@ == spec_crop_raw(old(frame)@, roi),
{
    match frame.format {
        PixelFormat::Rgb24 | PixelFormat::Bgr24 => crop_packed(frame, roi, 3),
        PixelFormat::Yuyv => crop_packed(frame, roi, 2),
        PixelFormat::Nv12 => crop_nv12(frame, roi),
        PixelFormat::Mjpeg => {},
    }
}

/// Crop a frame to `roi` in place.
///
/// Packed formats (RGB24, BGR24, YUYV) keep the rows of the region that lie in
/// the buffer. NV12 rounds the region down to even offsets and sizes and crops
/// both planes. MJPEG has no pixel grid, so it is decoded to RGB24 and cropped
/// as such; if it does not decode, or decodes too large to index, it is left
/// as it was and marked uncropped. `jpeg` is what the JPEG decoder gave for
/// the frame's bytes; it is read only for an MJPEG frame.
pub fn apply_roi(frame: &mut CaptureFrame, roi: Roi, jpeg: DecoderOutput)
    requires
        apply_roi_fits(old(frame)@, roi),
    ensures
        final(frame)@ == spec_apply_roi(old(frame)@, roi, decoder_view(jpeg)),
{
    match frame.format {
        PixelFormat::Mjpeg => {
            match decode_to_rgb24(frame.data.as_slice(), jpeg) {
                Ok(decoded) => {
                    if roi_fits_exec(decoded.width, decoded.height, roi) {
                        frame.data = decoded.rgb24;
                        frame.width = decoded.width;
                        frame.height = decoded.height;
                        frame.format = PixelFormat::Rgb24;
                        crop_raw(frame, roi);
                    } else {
                        frame.is_cropped = false;
                    }
                },
                Err(_) => {
                    frame.is_cropped = false;
                },
            }
        },
        _ => crop_raw(frame, roi),
    }
}

// ---- desktop duplication frames ---------------------------------------------

/// The byte a desktop-duplication frame gives for colour `c` (0 red, 1 green,
/// 2 blue) of pixel (`row`, `col`): BGRA rows of `row_pitch` bytes, so blue
/// comes first in each source pixel and alpha last.
pub open spec fn bgra_channel(src: Seq<u8>, row_pitch: int, row: int, col: int, c: int) -> u8 {
    src[row * row_pitch + 4 * col + (2 - c)]
}

proof fn lemma_pixel_before(r: int, k: int, row: int, col: int, w: int)
    requires
        0 <= r,
        0 <= k < w,
        0 <= col,
        r < row,
    ensures
        r * w + k < row * w + col,
{
    assert(r * w + w <= row * w) by (nonlinear_arith)
        requires
            r + 1 <= row,
            0 <= w,
    ;
}

/// A duplicated desktop frame (BGRA, `row_pitch` bytes per row, `width` x
/// `height` pixels) as tightly packed three-byte pixels: red, green, blue for
/// each pixel, row by row, alpha and row padding dropped.
pub fn bgra_rows_to_rgb(src: &[u8], row_pitch: usize, width: u32, height: u32) -> (out: Vec<u8>)
    requires
        width > 0 && height > 0 ==> (height - 1) * row_pitch + 4 * width <= src@.len(),
    ensures
        out@.len() == 3 * (height * width),
        forall|r: int, k: int, c: int|
            0 <= r < height && 0 <= k < width && 0 <= c < 3 ==> #[trigger] out@[3 * (r * width + k) + c]
                == bgra_channel(src@, row_pitch as int, r, k, c),
{
    let w = width as usize;
    let h = height as usize;
    let n = src.len();
    let mut out: Vec<u8> = Vec::new();
    let mut row: usize = 0;
    while row < h
        invariant
            n == src@.len(),
            w == width,
            h == height,
            row <= h,
            w > 0 && h > 0 ==> (h - 1) * row_pitch + 4 * w <= src@.len(),
            out@.len() == 3 * (row * w),
            forall|r: int, k: int, c: int|
                0 <= r < row && 0 <= k < w && 0 <= c < 3 ==> #[trigger] out@[3 * (r * w + k) + c]
                    == bgra_channel(src@, row_pitch as int, r, k, c),
        decreases h - row,
    {
        assert(row * row_pitch <= (h - 1) * row_pitch) by (nonlinear_arith)
            requires
                row + 1 <= h,
        ;
        let base: usize = if w == 0 {
            0
        } else {
            row * row_pitch
        };
        let mut col: usize = 0;
        while col < w
            invariant
                n == src@.len(),
                w == width,
                h == height,
                row < h,
                w > 0 ==> (h - 1) * row_pitch + 4 * w <= src@.len(),
                w > 0 ==> base == row * row_pitch,
                w > 0 ==> row * row_pitch <= (h - 1) * row_pitch,
                col <= w,
                out@.len() == 3 * (row * w + col),
                forall|r: int, k: int, c: int|
                    0 <= r < row && 0 <= k < w && 0 <= c < 3 ==> #[trigger] out@[3 * (r * w + k) + c]
                        == bgra_channel(src@, row_pitch as int, r, k, c),
                forall|k: int, c: int|
                    0 <= k < col && 0 <= c < 3 ==> #[trigger] out@[3 * (row * w + k) + c]
                        == bgra_channel(src@, row_pitch as int, row as int, k, c),
            decreases w - col,
        {
            let off = base + col * 4;
            let ghost before = out@;
            let ghost at = 3 * (row * w + col);
            out.push(src[off + 2]);
            out.push(src[off + 1]);
            out.push(src[off]);
            proof {
                assert(out@ == before.push(src@[off + 2]).push(src@[off + 1]).push(src@[off as int]));
                assert forall|r: int, k: int, c: int|
                    0 <= r < row && 0 <= k < w && 0 <= c < 3 implies #[trigger] out@[3 * (r * w + k) + c]
                        == bgra_channel(src@, row_pitch as int, r, k, c) by {
                    lemma_pixel_before(r, k, row as int, col as int, w as int);
                    assert(3 * (r * w + k) + c < at);
                    assert(out@[3 * (r * w + k) + c] == before[3 * (r * w + k) + c]);
                }
                assert forall|k: int, c: int|
                    0 <= k < col + 1 && 0 <= c < 3 implies #[trigger] out@[3 * (row * w + k) + c]
                        == bgra_channel(src@, row_pitch as int, row as int, k, c) by {
                    if k < col {
                        assert(out@[3 * (row * w + k) + c] == before[3 * (row * w + k) + c]);
                    } else {
                        assert(3 * (row * w + k) + c == at + c);
                    }
                }
            }
            col = col + 1;
        }
        proof {
            assert forall|r: int, k: int, c: int|
                0 <= r < row + 1 && 0 <= k < w && 0 <= c < 3 implies #[trigger] out@[3 * (r * w + k) + c]
                    == bgra_channel(src@, row_pitch as int, r, k, c) by {
                if r == row {
                    assert(out@[3 * (row * w + k) + c] == bgra_channel(src@, row_pitch as int, row as int, k, c));
                }
            }
            assert(3 * (row * w + w) == 3 * ((row + 1) * w)) by (nonlinear_arith);
        }
        row = row + 1;
    }
    assert(row * w == height * width);
    out
}

/// A byte-for-byte copy of a buffer.
pub fn copy_bytes(v: &Vec<u8>) -> (r: Vec<u8>)
    ensures
        r@ == v@,
{
    let mut r: Vec<u8> = Vec::new();
    append_range(&mut r, v, 0, v.len());
    assert(v@.subrange(0, v@.len() as int) =~= v@);
    r
}

} // verus!
