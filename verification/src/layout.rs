//! The fixed header of an encoded frame: its constants, its fields, and how
//! the fields are laid out as little-endian bytes.

use vstd::prelude::*;

verus! {

/// Bytes of the file header and the info header together.
pub const BMP_HEADER_SIZE: usize = 54;

/// Bytes of one pixel, in the raw frame and in the encoded one.
pub const PIXEL_BYTE_SIZE: usize = 4;

/// Bytes of the info header, which follows the 14 bytes of the file header.
pub const DIB_HEADER_SIZE: usize = 40;

/// Resolution written into both resolution fields.
pub const PIXELS_PER_METER: u32 = 2835;

/// Bit depth of a pixel.
pub const BITS_PER_PIXEL: u16 = 32;

/// Number of colour planes.
pub const COLOR_PLANES: u16 = 1;

/// Compression mode: none.
pub const COMPRESSION: u32 = 0;

/// First byte of the magic tag.
pub const MAGIC_FIRST: u8 = 0x42;

/// Second byte of the magic tag.
pub const MAGIC_SECOND: u8 = 0x4D;

/// Number of bytes that `width` by `height` pixels take.
pub open spec fn pixel_bytes(width: u32, height: u32) -> int {
    width * height * 4
}

/// The 32-bit size fields of the header can describe a frame of these dimensions.
pub open spec fn frame_fits(width: u32, height: u32) -> bool {
    BMP_HEADER_SIZE + pixel_bytes(width, height) <= u32::MAX
}

/// The two bytes of `v`, low byte first.
pub open spec fn le16(v: u16) -> Seq<u8> {
    seq![(v % 256) as u8, (v / 256) as u8]
}

/// The four bytes of `v`, low byte first.
pub open spec fn le32(v: u32) -> Seq<u8> {
    seq![(v % 256) as u8, (v / 256 % 256) as u8, (v / 65536 % 256) as u8, (v / 16777216) as u8]
}

/// The 16-bit value whose low byte stands at `at`.
pub open spec fn field16(bytes: Seq<u8>, at: int) -> u16 {
    (bytes[at] + 256 * bytes[at + 1]) as u16
}

/// The 32-bit value whose low byte stands at `at`.
pub open spec fn field32(bytes: Seq<u8>, at: int) -> u32 {
    (bytes[at] + 256 * bytes[at + 1] + 65536 * bytes[at + 2] + 16777216 * bytes[at + 3]) as u32
}

/// The fields of a frame header, in the order in which they are laid out
/// after the magic tag.
#[derive(Clone, Copy, Debug, PartialEq, Eq, Structural)]
pub struct FrameHeader {
    pub file_size: u32,
    pub reserved: u32,
    pub data_offset: u32,
    pub info_size: u32,
    pub width: u32,
    pub height: u32,
    pub planes: u16,
    pub bits_per_pixel: u16,
    pub compression: u32,
    pub image_size: u32,
    pub x_resolution: u32,
    pub y_resolution: u32,
    pub palette_colors: u32,
    pub important_colors: u32,
}

impl FrameHeader {
    /// The header that describes an uncompressed 32-bit frame of `width` by `height` pixels.
    pub open spec fn spec_for_dimensions(width: u32, height: u32) -> FrameHeader {
        FrameHeader {
            file_size: (BMP_HEADER_SIZE + pixel_bytes(width, height)) as u32,
            reserved: 0,
            data_offset: BMP_HEADER_SIZE as u32,
            info_size: DIB_HEADER_SIZE as u32,
            width,
            height,
            planes: COLOR_PLANES,
            bits_per_pixel: BITS_PER_PIXEL,
            compression: COMPRESSION,
            image_size: pixel_bytes(width, height) as u32,
            x_resolution: PIXELS_PER_METER,
            y_resolution: PIXELS_PER_METER,
            palette_colors: 0,
            important_colors: 0,
        }
    }

    /// The 54 bytes of this header: the magic tag, then each field, low byte first.
    pub open spec fn bytes(self) -> Seq<u8> {
        seq![MAGIC_FIRST, MAGIC_SECOND] + le32(self.file_size) + le32(self.reserved) + le32(
            self.data_offset,
        ) + le32(self.info_size) + le32(self.width) + le32(self.height) + le16(self.planes) + le16(
            self.bits_per_pixel,
        ) + le32(self.compression) + le32(self.image_size) + le32(self.x_resolution) + le32(
            self.y_resolution,
        ) + le32(self.palette_colors) + le32(self.important_colors)
    }

    /// What `bytes` starts with, read as a header: `None` where it is shorter
    /// than a header or does not start with the magic tag.
    pub open spec fn spec_decode(bytes: Seq<u8>) -> Option<FrameHeader> {
        if bytes.len() >= BMP_HEADER_SIZE && bytes[0] == MAGIC_FIRST && bytes[1] == MAGIC_SECOND {
            Some(
                FrameHeader {
                    file_size: field32(bytes, 2),
                    reserved: field32(bytes, 6),
                    data_offset: field32(bytes, 10),
                    info_size: field32(bytes, 14),
                    width: field32(bytes, 18),
                    height: field32(bytes, 22),
                    planes: field16(bytes, 26),
                    bits_per_pixel: field16(bytes, 28),
                    compression: field32(bytes, 30),
                    image_size: field32(bytes, 34),
                    x_resolution: field32(bytes, 38),
                    y_resolution: field32(bytes, 42),
                    palette_colors: field32(bytes, 46),
                    important_colors: field32(bytes, 50),
                },
            )
        } else {
            None
        }
    }

    /// Builds the header of a frame of `width` by `height` pixels.
    pub fn for_dimensions(width: u32, height: u32) -> (header: FrameHeader)
        requires
            frame_fits(width, height),
        ensures
            header == FrameHeader::spec_for_dimensions(width, height),
            header.width == width,
            header.height == height,
            header.image_size == pixel_bytes(width, height),
            header.file_size == BMP_HEADER_SIZE + pixel_bytes(width, height),
    {
        assert(width * height >= 0) by (nonlinear_arith);
        let image_size: u32 = width * height * 4;
        FrameHeader {
            file_size: BMP_HEADER_SIZE as u32 + image_size,
            reserved: 0,
            data_offset: BMP_HEADER_SIZE as u32,
            info_size: DIB_HEADER_SIZE as u32,
            width,
            height,
            planes: COLOR_PLANES,
            bits_per_pixel: BITS_PER_PIXEL,
            compression: COMPRESSION,
            image_size,
            x_resolution: PIXELS_PER_METER,
            y_resolution: PIXELS_PER_METER,
            palette_colors: 0,
            important_colors: 0,
        }
    }

    /// Appends the 54 bytes of this header to `out`.
    pub fn write_to(&self, out: &mut Vec<u8>)
        ensures
            final(out)@ == old(out)@ + self.bytes(),
            self.bytes().len() == BMP_HEADER_SIZE,
    {
        let ghost before = out@;
        out.push(MAGIC_FIRST);
        out.push(MAGIC_SECOND);
        let ghost first_2 = seq![MAGIC_FIRST, MAGIC_SECOND];
        assert(out@ =~= before + first_2);
        push_le32(out, self.file_size);
        let ghost first_6 = first_2 + le32(self.file_size);
        assert(out@ =~= before + first_6);
        push_le32(out, self.reserved);
        let ghost first_10 = first_6 + le32(self.reserved);
        assert(out@ =~= before + first_10);
        push_le32(out, self.data_offset);
        let ghost first_14 = first_10 + le32(self.data_offset);
        assert(out@ =~= before + first_14);
        push_le32(out, self.info_size);
        let ghost first_18 = first_14 + le32(self.info_size);
        assert(out@ =~= before + first_18);
        push_le32(out, self.width);
        let ghost first_22 = first_18 + le32(self.width);
        assert(out@ =~= before + first_22);
        push_le32(out, self.height);
        let ghost first_26 = first_22 + le32(self.height);
        assert(out@ =~= before + first_26);
        push_le16(out, self.planes);
        let ghost first_28 = first_26 + le16(self.planes);
        assert(out@ =~= before + first_28);
        push_le16(out, self.bits_per_pixel);
        let ghost first_30 = first_28 + le16(self.bits_per_pixel);
        assert(out@ =~= before + first_30);
        push_le32(out, self.compression);
        let ghost first_34 = first_30 + le32(self.compression);
        assert(out@ =~= before + first_34);
        push_le32(out, self.image_size);
        let ghost first_38 = first_34 + le32(self.image_size);
        assert(out@ =~= before + first_38);
        push_le32(out, self.x_resolution);
        let ghost first_42 = first_38 + le32(self.x_resolution);
        assert(out@ =~= before + first_42);
        push_le32(out, self.y_resolution);
        let ghost first_46 = first_42 + le32(self.y_resolution);
        assert(out@ =~= before + first_46);
        push_le32(out, self.palette_colors);
        let ghost first_50 = first_46 + le32(self.palette_colors);
        assert(out@ =~= before + first_50);
        push_le32(out, self.important_colors);
        let ghost first_54 = first_50 + le32(self.important_colors);
        assert(out@ =~= before + first_54);
        assert(first_54 == self.bytes());
        proof {
            lemma_layout(*self);
        }
    }

    /// Reads the header that `bytes` starts with.
    pub fn decode(bytes: &[u8]) -> (header: Option<FrameHeader>)
        ensures
            header == FrameHeader::spec_decode(bytes@),
    {
        if bytes.len() < BMP_HEADER_SIZE || bytes[0] != MAGIC_FIRST || bytes[1] != MAGIC_SECOND {
            return None;
        }
        Some(
            FrameHeader {
                file_size: read_le32(bytes, 2),
                reserved: read_le32(bytes, 6),
                data_offset: read_le32(bytes, 10),
                info_size: read_le32(bytes, 14),
                width: read_le32(bytes, 18),
                height: read_le32(bytes, 22),
                planes: read_le16(bytes, 26),
                bits_per_pixel: read_le16(bytes, 28),
                compression: read_le32(bytes, 30),
                image_size: read_le32(bytes, 34),
                x_resolution: read_le32(bytes, 38),
                y_resolution: read_le32(bytes, 42),
                palette_colors: read_le32(bytes, 46),
                important_colors: read_le32(bytes, 50),
            },
        )
    }
}

/// Decides `frame_fits` without overflowing.
pub fn check_frame_fits(width: u32, height: u32) -> (fits: bool)
    ensures
        fits == frame_fits(width, height),
{
    let w: u64 = width as u64;
    let h: u64 = height as u64;
    assert(w * h <= 0xFFFF_FFFF * 0xFFFF_FFFF) by (nonlinear_arith)
        requires
            0 <= w <= 0xFFFF_FFFF,
            0 <= h <= 0xFFFF_FFFF,
    ;
    let pixels: u64 = w * h;
    let limit: u64 = (u32::MAX as u64 - BMP_HEADER_SIZE as u64) / 4;
    pixels <= limit
}

fn push_le16(out: &mut Vec<u8>, v: u16)
    ensures
        final(out)@ == old(out)@ + le16(v),
{
    assert(v & 0xFF == v % 256 && v >> 8 == v / 256) by (bit_vector);
    out.push((v & 0xFF) as u8);
    out.push((v >> 8) as u8);
}

fn push_le32(out: &mut Vec<u8>, v: u32)
    ensures
        final(out)@ == old(out)@ + le32(v),
{
    assert(v & 0xFF == v % 256 && (v >> 8) & 0xFF == v / 256 % 256 && (v >> 16) & 0xFF == v / 65536
        % 256 && (v >> 24) & 0xFF == v / 16777216) by (bit_vector);
    out.push((v & 0xFF) as u8);
    out.push(((v >> 8) & 0xFF) as u8);
    out.push(((v >> 16) & 0xFF) as u8);
    out.push(((v >> 24) & 0xFF) as u8);
}

fn read_le16(bytes: &[u8], at: usize) -> (v: u16)
    requires
        at + 2 <= bytes@.len(),
    ensures
        v == field16(bytes@, at as int),
{
    bytes[at] as u16 + 256 * (bytes[at + 1] as u16)
}

fn read_le32(bytes: &[u8], at: usize) -> (v: u32)
    requires
        at + 4 <= bytes@.len(),
    ensures
        v == field32(bytes@, at as int),
{
    bytes[at] as u32 + 256 * (bytes[at + 1] as u32) + 65536 * (bytes[at + 2] as u32) + 16777216 * (
    bytes[at + 3] as u32)
}

/// A header that is written out and read back is the header that was written,
/// whatever bytes follow it.
pub proof fn lemma_header_round_trip(header: FrameHeader, rest: Seq<u8>)
    ensures
        header.bytes().len() == BMP_HEADER_SIZE,
        FrameHeader::spec_decode(header.bytes() + rest) == Some(header),
{
    lemma_layout(header);
    let all = header.bytes() + rest;
    assert forall|i: int| 0 <= i < 54 implies all[i] == byte_at(header, i) by {
        assert(all[i] == header.bytes()[i]);
    }
    let decoded = FrameHeader::spec_decode(all).unwrap();
    assert(decoded.file_size == header.file_size) by {
        lemma_field32_spells(all, 2, header.file_size);
    }
    assert(decoded.reserved == header.reserved) by {
        lemma_field32_spells(all, 6, header.reserved);
    }
    assert(decoded.data_offset == header.data_offset) by {
        lemma_field32_spells(all, 10, header.data_offset);
    }
    assert(decoded.info_size == header.info_size) by {
        lemma_field32_spells(all, 14, header.info_size);
    }
    assert(decoded.width == header.width) by {
        lemma_field32_spells(all, 18, header.width);
    }
    assert(decoded.height == header.height) by {
        lemma_field32_spells(all, 22, header.height);
    }
    assert(decoded.planes == header.planes) by {
        lemma_field16_spells(all, 26, header.planes);
    }
    assert(decoded.bits_per_pixel == header.bits_per_pixel) by {
        lemma_field16_spells(all, 28, header.bits_per_pixel);
    }
    assert(decoded.compression == header.compression) by {
        lemma_field32_spells(all, 30, header.compression);
    }
    assert(decoded.image_size == header.image_size) by {
        lemma_field32_spells(all, 34, header.image_size);
    }
    assert(decoded.x_resolution == header.x_resolution) by {
        lemma_field32_spells(all, 38, header.x_resolution);
    }
    assert(decoded.y_resolution == header.y_resolution) by {
        lemma_field32_spells(all, 42, header.y_resolution);
    }
    assert(decoded.palette_colors == header.palette_colors) by {
        lemma_field32_spells(all, 46, header.palette_colors);
    }
    assert(decoded.important_colors == header.important_colors) by {
        lemma_field32_spells(all, 50, header.important_colors);
    }
}

/// The first 54 bytes of anything that decodes are the bytes of the header
/// that it decodes to.
pub proof fn lemma_decode_then_bytes(bytes: Seq<u8>)
    requires
        FrameHeader::spec_decode(bytes) is Some,
    ensures
        FrameHeader::spec_decode(bytes).unwrap().bytes() == bytes.subrange(
            0,
            BMP_HEADER_SIZE as int,
        ),
{
    let header = FrameHeader::spec_decode(bytes).unwrap();
    lemma_layout(header);
    assert forall|i: int| 0 <= i < 54 implies byte_at(header, i) == bytes[i] by {
        if 2 <= i < 6 {
            lemma_le32_bytes(bytes, 2, i - 2);
        } else if 6 <= i < 10 {
            lemma_le32_bytes(bytes, 6, i - 6);
        } else if 10 <= i < 14 {
            lemma_le32_bytes(bytes, 10, i - 10);
        } else if 14 <= i < 18 {
            lemma_le32_bytes(bytes, 14, i - 14);
        } else if 18 <= i < 22 {
            lemma_le32_bytes(bytes, 18, i - 18);
        } else if 22 <= i < 26 {
            lemma_le32_bytes(bytes, 22, i - 22);
        } else if 26 <= i < 28 {
            lemma_le16_bytes(bytes, 26, i - 26);
        } else if 28 <= i < 30 {
            lemma_le16_bytes(bytes, 28, i - 28);
        } else if 30 <= i < 34 {
            lemma_le32_bytes(bytes, 30, i - 30);
        } else if 34 <= i < 38 {
            lemma_le32_bytes(bytes, 34, i - 34);
        } else if 38 <= i < 42 {
            lemma_le32_bytes(bytes, 38, i - 38);
        } else if 42 <= i < 46 {
            lemma_le32_bytes(bytes, 42, i - 42);
        } else if 46 <= i < 50 {
            lemma_le32_bytes(bytes, 46, i - 46);
        } else if 50 <= i {
            lemma_le32_bytes(bytes, 50, i - 50);
        }
    }
    assert(header.bytes() =~= bytes.subrange(0, BMP_HEADER_SIZE as int));
}

/// The byte that stands at offset `i` of the header.
spec fn byte_at(header: FrameHeader, i: int) -> u8 {
    if i == 0 {
        MAGIC_FIRST
    } else if i == 1 {
        MAGIC_SECOND
    } else if i < 6 {
        le32(header.file_size)[i - 2]
    } else if i < 10 {
        le32(header.reserved)[i - 6]
    } else if i < 14 {
        le32(header.data_offset)[i - 10]
    } else if i < 18 {
        le32(header.info_size)[i - 14]
    } else if i < 22 {
        le32(header.width)[i - 18]
    } else if i < 26 {
        le32(header.height)[i - 22]
    } else if i < 28 {
        le16(header.planes)[i - 26]
    } else if i < 30 {
        le16(header.bits_per_pixel)[i - 28]
    } else if i < 34 {
        le32(header.compression)[i - 30]
    } else if i < 38 {
        le32(header.image_size)[i - 34]
    } else if i < 42 {
        le32(header.x_resolution)[i - 38]
    } else if i < 46 {
        le32(header.y_resolution)[i - 42]
    } else if i < 50 {
        le32(header.palette_colors)[i - 46]
    } else {
        le32(header.important_colors)[i - 50]
    }
}

proof fn lemma_layout(header: FrameHeader)
    ensures
        header.bytes().len() == 54,
        forall|i: int| 0 <= i < 54 ==> header.bytes()[i] == byte_at(header, i),
{
    let first_2 = seq![MAGIC_FIRST, MAGIC_SECOND];
    let first_6 = first_2 + le32(header.file_size);
    assert(first_6 =~= Seq::new(6, |i: int| byte_at(header, i)));
    let first_10 = first_6 + le32(header.reserved);
    assert(first_10 =~= Seq::new(10, |i: int| byte_at(header, i)));
    let first_14 = first_10 + le32(header.data_offset);
    assert(first_14 =~= Seq::new(14, |i: int| byte_at(header, i)));
    let first_18 = first_14 + le32(header.info_size);
    assert(first_18 =~= Seq::new(18, |i: int| byte_at(header, i)));
    let first_22 = first_18 + le32(header.width);
    assert(first_22 =~= Seq::new(22, |i: int| byte_at(header, i)));
    let first_26 = first_22 + le32(header.height);
    assert(first_26 =~= Seq::new(26, |i: int| byte_at(header, i)));
    let first_28 = first_26 + le16(header.planes);
    assert(first_28 =~= Seq::new(28, |i: int| byte_at(header, i)));
    let first_30 = first_28 + le16(header.bits_per_pixel);
    assert(first_30 =~= Seq::new(30, |i: int| byte_at(header, i)));
    let first_34 = first_30 + le32(header.compression);
    assert(first_34 =~= Seq::new(34, |i: int| byte_at(header, i)));
    let first_38 = first_34 + le32(header.image_size);
    assert(first_38 =~= Seq::new(38, |i: int| byte_at(header, i)));
    let first_42 = first_38 + le32(header.x_resolution);
    assert(first_42 =~= Seq::new(42, |i: int| byte_at(header, i)));
    let first_46 = first_42 + le32(header.y_resolution);
    assert(first_46 =~= Seq::new(46, |i: int| byte_at(header, i)));
    let first_50 = first_46 + le32(header.palette_colors);
    assert(first_50 =~= Seq::new(50, |i: int| byte_at(header, i)));
    let first_54 = first_50 + le32(header.important_colors);
    assert(first_54 =~= Seq::new(54, |i: int| byte_at(header, i)));
    assert(header.bytes() == first_54);
}

/// A value below 2^32 is the sum of its four base-256 digits, each weighted
/// by its place.
proof fn lemma_four_digits(v: int)
    requires
        0 <= v < 0x1_0000_0000,
    ensures
        v % 256 + 256 * (v / 256 % 256) + 65536 * (v / 65536 % 256) + 16777216 * (v / 16777216)
            == v,
        0 <= v / 16777216 < 256,
{
    let q1 = v / 256;
    let q2 = q1 / 256;
    let q3 = q2 / 256;
    assert(v == 256 * q1 + v % 256);
    assert(q1 == 256 * q2 + q1 % 256);
    assert(q2 == 256 * q3 + q2 % 256);
    assert(v / 65536 == q2);
    assert(v / 16777216 == q3);
}

/// Four digits below 256, weighted by their place, are the digits of their
/// sum.
proof fn lemma_digits_of_sum(b0: int, b1: int, b2: int, b3: int)
    requires
        0 <= b0 < 256,
        0 <= b1 < 256,
        0 <= b2 < 256,
        0 <= b3 < 256,
    ensures
        ({
            let v = b0 + 256 * b1 + 65536 * b2 + 16777216 * b3;
            &&& 0 <= v < 0x1_0000_0000
            &&& v % 256 == b0
            &&& v / 256 % 256 == b1
            &&& v / 65536 % 256 == b2
            &&& v / 16777216 == b3
        }),
{
    let v = b0 + 256 * b1 + 65536 * b2 + 16777216 * b3;
    assert(v % 256 == b0 && v / 256 == b1 + 256 * b2 + 65536 * b3);
    assert(v / 256 % 256 == b1 && v / 65536 == b2 + 256 * b3);
    assert(v / 65536 % 256 == b2 && v / 16777216 == b3);
}

/// Where the two bytes at `at` are those of `v`, the field at `at` is `v`.
proof fn lemma_field16_spells(all: Seq<u8>, at: int, v: u16)
    requires
        all[at] == le16(v)[0],
        all[at + 1] == le16(v)[1],
    ensures
        field16(all, at) == v,
{
    let n = v as int;
    assert(n == 256 * (n / 256) + n % 256);
}

/// Where the four bytes at `at` are those of `v`, the field at `at` is `v`.
proof fn lemma_field32_spells(all: Seq<u8>, at: int, v: u32)
    requires
        all[at] == le32(v)[0],
        all[at + 1] == le32(v)[1],
        all[at + 2] == le32(v)[2],
        all[at + 3] == le32(v)[3],
    ensures
        field32(all, at) == v,
{
    lemma_four_digits(v as int);
}

/// The two bytes of the value that two bytes spell are these bytes.
proof fn lemma_le16_bytes(bytes: Seq<u8>, at: int, j: int)
    requires
        0 <= at,
        at + 2 <= bytes.len(),
        0 <= j < 2,
    ensures
        le16(field16(bytes, at))[j] == bytes[at + j],
{
    let b0 = bytes[at] as int;
    let b1 = bytes[at + 1] as int;
    let v = b0 + 256 * b1;
    assert(v % 256 == b0 && v / 256 == b1);
}

/// The four bytes of the value that four bytes spell are these bytes.
proof fn lemma_le32_bytes(bytes: Seq<u8>, at: int, j: int)
    requires
        0 <= at,
        at + 4 <= bytes.len(),
        0 <= j < 4,
    ensures
        le32(field32(bytes, at))[j] == bytes[at + j],
{
    lemma_digits_of_sum(
        bytes[at] as int,
        bytes[at + 1] as int,
        bytes[at + 2] as int,
        bytes[at + 3] as int,
    );
}

} // verus!
