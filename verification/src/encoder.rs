//! The frame encoder: from a raw top-down RGBA buffer to a headered,
//! bottom-up, BGRA-ordered image.

use crate::layout::{
    check_frame_fits, frame_fits, lemma_header_round_trip, pixel_bytes, FrameHeader,
    BMP_HEADER_SIZE, MAGIC_FIRST, MAGIC_SECOND, PIXEL_BYTE_SIZE,
};
use vstd::arithmetic::div_mod::{lemma_fundamental_div_mod, lemma_fundamental_div_mod_converse};
use vstd::prelude::*;

verus! {

/// Why a sample could not be encoded.
#[derive(Clone, Copy, Debug, PartialEq, Eq, Structural)]
pub enum EncodeError {
    /// The raw buffer holds fewer bytes than the dimensions ask for.
    BufferTooShort,
    /// The dimensions are beyond what the header's 32-bit size fields can say.
    FrameTooLarge,
}

/// The channel of a raw pixel that channel `c` of an encoded pixel is taken
/// from: the first and the third change places.
pub open spec fn swap_channel(c: int) -> int {
    if c == 0 {
        2
    } else if c == 2 {
        0
    } else {
        c
    }
}

/// The raw pixel that pixel `q` of the encoded frame is taken from: the same
/// column of the row mirrored top to bottom.
pub open spec fn source_pixel(q: int, width: int, height: int) -> int {
    (height - 1 - q / width) * width + q % width
}

/// The raw byte that byte `k` of the encoded pixel data is taken from.
pub open spec fn source_index(k: int, width: int, height: int) -> int {
    4 * source_pixel(k / 4, width, height) + swap_channel(k % 4)
}

/// The pixel data of the encoded frame: the rows of `raw` from the last to
/// the first, each pixel with its first and third byte exchanged.
pub open spec fn flip_and_swap(raw: Seq<u8>, width: u32, height: u32) -> Seq<u8> {
    Seq::new(
        pixel_bytes(width, height) as nat,
        |k: int| raw[source_index(k, width as int, height as int)],
    )
}

/// The encoded frame: the header for the dimensions, then the pixel data.
pub open spec fn encoded_frame(raw: Seq<u8>, width: u32, height: u32) -> Seq<u8> {
    FrameHeader::spec_for_dimensions(width, height).bytes() + flip_and_swap(raw, width, height)
}

/// The buffer that stands for a frame source that has not rendered yet:
/// zeros, as many as the dimensions ask for.
pub open spec fn sentinel(width: u32, height: u32) -> Seq<u8> {
    Seq::new(pixel_bytes(width, height) as nat, |k: int| 0u8)
}

/// The bytes that an optional buffer holds.
pub open spec fn bytes_of(buffer: Option<&[u8]>) -> Option<Seq<u8>> {
    match buffer {
        Some(bytes) => Some(bytes@),
        None => None,
    }
}

/// What a sample of the frame source is encoded to. An absent sample is
/// replaced by the sentinel; the first `pixel_bytes` bytes of a present one
/// are used.
pub open spec fn frame_of_sample(sample: Option<Seq<u8>>, width: u32, height: u32) -> Result<
    Seq<u8>,
    EncodeError,
> {
    if !frame_fits(width, height) {
        Err(EncodeError::FrameTooLarge)
    } else {
        match sample {
            None => Ok(encoded_frame(sentinel(width, height), width, height)),
            Some(raw) => if raw.len() < pixel_bytes(width, height) {
                Err(EncodeError::BufferTooShort)
            } else {
                Ok(encoded_frame(raw, width, height))
            },
        }
    }
}

/// Within the frame, the source of a pixel lies within the frame, in the
/// mirrored row and the same column.
pub proof fn lemma_source_pixel(q: int, width: int, height: int)
    requires
        0 <= width,
        0 <= height,
        0 <= q < width * height,
    ensures
        0 <= q / width < height,
        0 <= q % width < width,
        0 <= source_pixel(q, width, height) < width * height,
        source_pixel(q, width, height) / width == height - 1 - q / width,
        source_pixel(q, width, height) % width == q % width,
{
    assert(width > 0 && height > 0) by (nonlinear_arith)
        requires
            0 <= width,
            0 <= height,
            0 <= q < width * height,
    ;
    let row = q / width;
    let col = q % width;
    assert(q == width * row + col && 0 <= col < width) by (nonlinear_arith)
        requires
            row == q / width,
            col == q % width,
            width > 0,
    ;
    assert(0 <= row < height) by (nonlinear_arith)
        requires
            q == width * row + col,
            0 <= col < width,
            0 <= q < width * height,
    ;
    let mirrored = height - 1 - row;
    let p = source_pixel(q, width, height);
    assert(p == mirrored * width + col);
    assert(0 <= p < width * height) by (nonlinear_arith)
        requires
            p == mirrored * width + col,
            0 <= mirrored < height,
            0 <= col < width,
    ;
    lemma_fundamental_div_mod_converse(p, width, mirrored, col);
}

/// Within the pixel data, the source of a byte lies within the raw frame, and
/// the source of that source is the byte itself.
pub proof fn lemma_source_index(k: int, width: int, height: int)
    requires
        0 <= width,
        0 <= height,
        0 <= k < width * height * 4,
    ensures
        0 <= source_index(k, width, height) < width * height * 4,
        source_index(source_index(k, width, height), width, height) == k,
{
    let q = k / 4;
    lemma_source_pixel(q, width, height);
    let p = source_pixel(q, width, height);
    lemma_source_pixel(p, width, height);
    let j = source_index(k, width, height);
    assert(j / 4 == p && j % 4 == swap_channel(k % 4));
    lemma_fundamental_div_mod(q, width);
    assert(source_pixel(p, width, height) == q) by (nonlinear_arith)
        requires
            p / width == height - 1 - q / width,
            p % width == q % width,
            q == width * (q / width) + q % width,
            source_pixel(p, width, height) == (height - 1 - p / width) * width + p % width,
    ;
}

/// Flipping the rows and exchanging the channels twice gives back the raw
/// frame, in its row order and its channel order.
pub proof fn lemma_flip_and_swap_twice(raw: Seq<u8>, width: u32, height: u32)
    requires
        raw.len() >= pixel_bytes(width, height),
    ensures
        flip_and_swap(flip_and_swap(raw, width, height), width, height) == raw.subrange(
            0,
            pixel_bytes(width, height),
        ),
{
    let n = pixel_bytes(width, height);
    assert(n >= 0) by (nonlinear_arith)
        requires
            n == width * height * 4,
    ;
    let once = flip_and_swap(raw, width, height);
    let twice = flip_and_swap(once, width, height);
    assert forall|k: int| 0 <= k < n implies twice[k] == raw[k] by {
        lemma_source_index(k, width as int, height as int);
    }
    assert(twice =~= raw.subrange(0, n));
}

/// An encoded frame is as long as the header and the pixels together. Its
/// header, read back, is the header for the dimensions it was encoded for,
/// whatever the pixels hold: it declares these dimensions and sizes, and
/// every other field has the value that the format fixes.
pub proof fn lemma_encoded_frame_header(raw: Seq<u8>, width: u32, height: u32)
    requires
        frame_fits(width, height),
    ensures
        encoded_frame(raw, width, height).len() == BMP_HEADER_SIZE + pixel_bytes(width, height),
        encoded_frame(raw, width, height)[0] == MAGIC_FIRST,
        encoded_frame(raw, width, height)[1] == MAGIC_SECOND,
        FrameHeader::spec_decode(encoded_frame(raw, width, height)) == Some(
            FrameHeader::spec_for_dimensions(width, height),
        ),
        FrameHeader::spec_for_dimensions(width, height) == (FrameHeader {
            file_size: (BMP_HEADER_SIZE + pixel_bytes(width, height)) as u32,
            reserved: 0,
            data_offset: 54,
            info_size: 40,
            width,
            height,
            planes: 1,
            bits_per_pixel: 32,
            compression: 0,
            image_size: pixel_bytes(width, height) as u32,
            x_resolution: 2835,
            y_resolution: 2835,
            palette_colors: 0,
            important_colors: 0,
        }),
        FrameHeader::spec_for_dimensions(width, height).image_size == pixel_bytes(width, height),
        FrameHeader::spec_for_dimensions(width, height).file_size == BMP_HEADER_SIZE + pixel_bytes(
            width,
            height,
        ),
{
    assert(pixel_bytes(width, height) >= 0) by (nonlinear_arith)
        requires
            pixel_bytes(width, height) == width * height * 4,
    ;
    lemma_header_round_trip(
        FrameHeader::spec_for_dimensions(width, height),
        flip_and_swap(raw, width, height),
    );
}

/// Appends the pixel data of `raw` to `out`: rows bottom-up, pixels as BGRA.
fn push_pixels(out: &mut Vec<u8>, raw: &[u8], width: u32, height: u32)
    requires
        raw@.len() >= pixel_bytes(width, height),
    ensures
        final(out)@ == old(out)@ + flip_and_swap(raw@, width, height),
{
    let ghost before = out@;
    let ghost w = width as int;
    let ghost h = height as int;
    let ghost n = pixel_bytes(width, height);
    assert(w * h >= 0 && n == w * h * 4) by (nonlinear_arith)
        requires
            w >= 0,
            h >= 0,
            n == w * h * 4,
    ;
    assert(n <= raw.len() <= usize::MAX);
    if width == 0 || height == 0 {
        assert(n == 0) by (nonlinear_arith)
            requires
                n == w * h * 4,
                w == 0 || h == 0,
        ;
        assert(out@ =~= before + flip_and_swap(raw@, width, height));
        return ;
    }
    assert(w * 4 <= n) by (nonlinear_arith)
        requires
            n == w * h * 4,
            w >= 1,
            h >= 1,
    ;
    let row_stride: usize = width as usize * PIXEL_BYTE_SIZE;
    let mut rows_left: usize = height as usize;
    assert((h - rows_left) * row_stride == 0) by (nonlinear_arith)
        requires
            rows_left == h,
    ;
    while rows_left > 0
        invariant
            raw@.len() >= n,
            w == width,
            h == height,
            n == w * h * 4,
            n == pixel_bytes(width, height),
            row_stride == w * 4,
            n <= usize::MAX,
            rows_left <= h,
            out@.len() == before.len() + (h - rows_left) * row_stride,
            out@.subrange(0, before.len() as int) == before,
            forall|k: int|
                0 <= k < (h - rows_left) * row_stride ==> #[trigger] out@[before.len() + k]
                    == raw@[source_index(k, w, h)],
        decreases rows_left,
    {
        let ghost done = (h - rows_left) * row_stride;
        rows_left = rows_left - 1;
        assert(rows_left * row_stride + row_stride <= n && done + row_stride <= n
            && (h - rows_left) * row_stride == done + row_stride) by (nonlinear_arith)
            requires
                0 <= rows_left < h,
                row_stride == w * 4,
                n == w * h * 4,
                done == (h - rows_left - 1) * row_stride,
                w >= 0,
        ;
        let start: usize = rows_left * row_stride;
        let mut col: usize = 0;
        while col < width as usize
            invariant
                raw@.len() >= n,
                w == width,
                h == height,
                n == w * h * 4,
                row_stride == w * 4,
                rows_left < h,
                n <= usize::MAX,
                start == rows_left * row_stride,
                start + row_stride <= n,
                done == (h - rows_left - 1) * row_stride,
                done + row_stride <= n,
                col <= w,
                out@.len() == before.len() + done + col * 4,
                out@.subrange(0, before.len() as int) == before,
                forall|k: int|
                    0 <= k < done + col * 4 ==> #[trigger] out@[before.len() + k]
                        == raw@[source_index(k, w, h)],
            decreases width - col,
        {
            assert(col * 4 + 4 <= row_stride);
            let at: usize = start + col * PIXEL_BYTE_SIZE;
            let ghost base = done + col * 4;
            let ghost prev = out@;
            proof {
                let q = (h - rows_left - 1) * w + col;
                assert(base == 4 * q && start == 4 * (rows_left * w)) by (nonlinear_arith)
                    requires
                        base == done + col * 4,
                        done == (h - rows_left - 1) * row_stride,
                        start == rows_left * row_stride,
                        row_stride == w * 4,
                        q == (h - rows_left - 1) * w + col,
                ;
                lemma_fundamental_div_mod_converse(q, w, h - rows_left - 1, col as int);
                assert(source_pixel(q, w, h) == rows_left * w + col) by (nonlinear_arith)
                    requires
                        q / w == h - rows_left - 1,
                        q % w == col,
                        source_pixel(q, w, h) == (h - 1 - q / w) * w + q % w,
                ;
                assert(source_index(base, w, h) == at + 2);
                assert(source_index(base + 1, w, h) == at + 1);
                assert(source_index(base + 2, w, h) == at);
                assert(source_index(base + 3, w, h) == at + 3);
            }
            out.push(raw[at + 2]);
            out.push(raw[at + 1]);
            out.push(raw[at]);
            out.push(raw[at + 3]);
            col = col + 1;
            proof {
                assert(out@.subrange(0, before.len() as int) =~= prev.subrange(
                    0,
                    before.len() as int,
                ));
                assert forall|k: int| 0 <= k < done + col * 4 implies #[trigger] out@[before.len()
                    + k] == raw@[source_index(k, w, h)] by {
                    if k < base {
                        assert(out@[before.len() + k] == prev[before.len() + k]);
                    }
                }
            }
        }
    }
    proof {
        let pixels = flip_and_swap(raw@, width, height);
        assert(h * row_stride == n) by (nonlinear_arith)
            requires
                row_stride == w * 4,
                n == w * h * 4,
        ;
        assert forall|i: int| 0 <= i < out@.len() implies out@[i] == (before + pixels)[i] by {
            if i < before.len() {
                assert(out@[i] == out@.subrange(0, before.len() as int)[i]);
            } else {
                let k = i - before.len();
                assert(out@[before.len() + k] == raw@[source_index(k, w, h)]);
            }
        }
        assert(out@ =~= before + pixels);
    }
}

/// The pixel data of the encoded frame alone: the rows of `raw` bottom-up,
/// each pixel as BGRA.
pub fn transform_pixels(raw: &[u8], width: u32, height: u32) -> (pixels: Vec<u8>)
    requires
        raw@.len() >= pixel_bytes(width, height),
    ensures
        pixels@ == flip_and_swap(raw@, width, height),
        pixels@.len() == pixel_bytes(width, height),
{
    assert(pixel_bytes(width, height) >= 0) by (nonlinear_arith)
        requires
            pixel_bytes(width, height) == width * height * 4,
    ;
    let mut pixels: Vec<u8> = Vec::new();
    push_pixels(&mut pixels, raw, width, height);
    assert(pixels@ =~= flip_and_swap(raw@, width, height));
    pixels
}

/// Encodes a raw frame: the header for the dimensions, then the pixel data.
///
/// The header that the result starts with declares `width`, `height` and the
/// number of pixel bytes, and the result is as long as it declares.
pub fn encode(raw: &[u8], width: u32, height: u32) -> (frame: Vec<u8>)
    requires
        frame_fits(width, height),
        raw@.len() >= pixel_bytes(width, height),
    ensures
        frame@ == encoded_frame(raw@, width, height),
        frame@.len() == BMP_HEADER_SIZE + pixel_bytes(width, height),
        FrameHeader::spec_decode(frame@) matches Some(header) && header
            == FrameHeader::spec_for_dimensions(width, height) && header.width == width
            && header.height == height && header.image_size == pixel_bytes(width, height)
            && header.file_size == frame@.len(),
{
    proof {
        lemma_encoded_frame_header(raw@, width, height);
    }
    let header: FrameHeader = FrameHeader::for_dimensions(width, height);
    let mut frame: Vec<u8> = Vec::with_capacity(header.file_size as usize);
    header.write_to(&mut frame);
    push_pixels(&mut frame, raw, width, height);
    assert(frame@ =~= encoded_frame(raw@, width, height));
    frame
}

/// A buffer of zeros, as long as a raw frame of these dimensions.
pub fn sentinel_frame(width: u32, height: u32) -> (raw: Vec<u8>)
    requires
        pixel_bytes(width, height) <= usize::MAX,
    ensures
        raw@ == sentinel(width, height),
{
    assert(pixel_bytes(width, height) >= 0 && width * height >= 0) by (nonlinear_arith)
        requires
            pixel_bytes(width, height) == width * height * 4,
    ;
    let len: usize = width as usize * height as usize * PIXEL_BYTE_SIZE;
    let mut raw: Vec<u8> = Vec::with_capacity(len);
    let mut i: usize = 0;
    while i < len
        invariant
            i <= len,
            raw@.len() == i,
            forall|k: int| 0 <= k < i ==> raw@[k] == 0u8,
        decreases len - i,
    {
        raw.push(0u8);
        i = i + 1;
    }
    assert(raw@ =~= sentinel(width, height));
    raw
}

/// Encodes one sample of the frame source. Where the source has nothing
/// rendered (`None`), a frame of zeros is encoded in its place.
///
/// Fails with `FrameTooLarge` where the dimensions do not fit the header, and
/// with `BufferTooShort` where a sample holds fewer bytes than the dimensions
/// ask for; it succeeds on every other input.
pub fn generate_bitmap(sample: Option<&[u8]>, width: u32, height: u32) -> (result: Result<
    Vec<u8>,
    EncodeError,
>)
    ensures
        result is Ok ==> frame_of_sample(bytes_of(sample), width, height) == Ok::<
            Seq<u8>,
            EncodeError,
        >(result.unwrap()@),
        result is Err ==> frame_of_sample(bytes_of(sample), width, height) == Err::<
            Seq<u8>,
            EncodeError,
        >(result.unwrap_err()),
{
    if !check_frame_fits(width, height) {
        return Err(EncodeError::FrameTooLarge);
    }
    assert(pixel_bytes(width, height) >= 0 && width * height >= 0) by (nonlinear_arith)
        requires
            pixel_bytes(width, height) == width * height * 4,
    ;
    match sample {
        None => {
            let zeros: Vec<u8> = sentinel_frame(width, height);
            assert(zeros@.len() == pixel_bytes(width, height));
            Ok(encode(zeros.as_slice(), width, height))
        },
        Some(raw) => {
            let needed: usize = width as usize * height as usize * PIXEL_BYTE_SIZE;
            if raw.len() < needed {
                Err(EncodeError::BufferTooShort)
            } else {
                Ok(encode(raw, width, height))
            }
        },
    }
}

} // verus!
