//! Bitmap file encoding of a quantised image.
//!
//! The file is a 140 byte header followed by the pixel rows. Each pixel takes
//! three bytes, blue first, and each row is padded to a multiple of four bytes.

use crate::graphics::Image;
use vstd::prelude::*;

verus! {

/// A quantised pixel.
#[derive(Copy, Clone, Debug, PartialEq, Eq, Structural)]
pub struct Rgb {
    pub red: u8,
    pub green: u8,
    pub blue: u8,
}

/// The length of the file header in bytes.
pub const HEADER_SIZE: usize = 140;

/// The four bytes that store `value` least significant byte first.
pub open spec fn le_bytes(value: u32) -> Seq<u8> {
    seq![
        (value % 256) as u8,
        (value / 256 % 256) as u8,
        (value / 65536 % 256) as u8,
        (value / 16777216) as u8,
    ]
}

/// The number that four bytes store least significant byte first.
pub open spec fn le_value(bytes: Seq<u8>) -> int
    recommends
        bytes.len() == 4,
{
    bytes[0] + 256 * bytes[1] + 65536 * bytes[2] + 16777216 * bytes[3]
}

/// Reading back what `le_bytes` stores gives the number that went in.
pub proof fn lemma_le_round_trip(value: u32)
    ensures
        le_bytes(value).len() == 4,
        le_value(le_bytes(value)) == value,
{
}

/// Writes `value` into `arr[ind..ind + 4]`, least significant byte first, and
/// leaves every other byte as it was.
pub fn set_u32(arr: &mut [u8], ind: usize, value: u32)
    requires
        ind + 4 <= old(arr)@.len(),
    ensures
        final(arr)@.len() == old(arr)@.len(),
        final(arr)@.subrange(ind as int, ind + 4) == le_bytes(value),
        forall|i: int|
            0 <= i < old(arr)@.len() && !(ind <= i < ind + 4) ==> final(arr)@[i] == old(arr)@[i],
{
    assert(value & 0xFF == value % 256) by (bit_vector);
    assert((value >> 8) & 0xFF == value / 256 % 256) by (bit_vector);
    assert((value >> 16) & 0xFF == value / 65536 % 256) by (bit_vector);
    assert((value >> 24) & 0xFF == value / 16777216) by (bit_vector);
    arr[ind] = (value & 0xFF) as u8;
    arr[ind + 1] = ((value >> 8) & 0xFF) as u8;
    arr[ind + 2] = ((value >> 16) & 0xFF) as u8;
    arr[ind + 3] = ((value >> 24) & 0xFF) as u8;
}

/// The low 32 bits of a size, which is what a header field keeps of it.
pub open spec fn low32(n: int) -> u32 {
    (n % 0x1_0000_0000) as u32
}

/// The bytes that one row of `width` pixels takes in the file, padding
/// included.
pub open spec fn line_bytes(width: int) -> int {
    width * 3 + width % 4
}

/// Every row starts on a four byte boundary.
pub proof fn lemma_line_bytes_aligned(width: int)
    requires
        0 <= width,
    ensures
        line_bytes(width) % 4 == 0,
        width * 3 <= line_bytes(width) <= width * 3 + 3,
{
}

/// The bytes that the pixel rows of a `width` by `height` image take.
pub open spec fn data_size(width: int, height: int) -> int {
    line_bytes(width) * height
}

/// The header of the file for a `width` by `height` image: the signature
/// `BM`, the file size, the offset of the pixel rows, the size of the
/// information block, the dimensions, one colour plane and 24 bits per pixel.
/// Every other byte is zero.
pub open spec fn header_bytes(width: int, height: int) -> Seq<u8> {
    Seq::new(
        HEADER_SIZE as nat,
        |i: int|
            if i == 0 {
                0x42u8
            } else if i == 1 {
                0x4Du8
            } else if 2 <= i < 6 {
                le_bytes(low32(HEADER_SIZE + data_size(width, height)))[i - 2]
            } else if 10 <= i < 14 {
                le_bytes(HEADER_SIZE as u32)[i - 10]
            } else if 14 <= i < 18 {
                le_bytes(0x7c)[i - 14]
            } else if 18 <= i < 22 {
                le_bytes(low32(width))[i - 18]
            } else if 22 <= i < 26 {
                le_bytes(low32(height))[i - 22]
            } else if i == 26 {
                1u8
            } else if i == 28 {
                24u8
            } else {
                0u8
            },
    )
}

/// One of the three bytes of a pixel, in the order of the file.
pub open spec fn channel(pixel: Rgb, k: int) -> u8 {
    if k == 0 {
        pixel.blue
    } else if k == 1 {
        pixel.green
    } else {
        pixel.red
    }
}

/// One row as it stands in the file: blue, green, red for each pixel in turn,
/// then zero padding up to the row's length.
pub open spec fn row_bytes(row: Seq<Rgb>) -> Seq<u8> {
    Seq::new(
        line_bytes(row.len() as int) as nat,
        |j: int|
            if j < 3 * row.len() {
                channel(row[j / 3], j % 3)
            } else {
                0u8
            },
    )
}

/// The pixel rows as they stand in the file: each row's bytes, first row
/// first.
pub open spec fn data_bytes(rows: Seq<Seq<Rgb>>) -> Seq<u8>
    decreases rows.len(),
{
    if rows.len() == 0 {
        Seq::empty()
    } else {
        data_bytes(rows.drop_last()) + row_bytes(rows.last())
    }
}

/// The whole file for an image with the given rows, each `width` long.
pub open spec fn file_bytes(rows: Seq<Seq<Rgb>>, width: int) -> Seq<u8> {
    header_bytes(width, rows.len() as int) + data_bytes(rows)
}

/// Where a pixel's bytes stand among the pixel rows: row `y` starts at
/// `y * line_bytes(width)`, and its bytes are those of `row_bytes`.
pub proof fn lemma_data_bytes_layout(rows: Seq<Seq<Rgb>>, width: int, y: int, j: int)
    requires
        forall|r: int| 0 <= r < rows.len() ==> (#[trigger] rows[r]).len() == width,
        0 <= y < rows.len(),
        0 <= j < line_bytes(width),
    ensures
        data_bytes(rows).len() == data_size(width, rows.len() as int),
        0 <= y * line_bytes(width) + j < data_bytes(rows).len(),
        data_bytes(rows)[y * line_bytes(width) + j] == row_bytes(rows[y])[j],
    decreases rows.len(),
{
    let line = line_bytes(width);
    let front = rows.drop_last();
    let n = rows.len() as int;
    assert(data_size(width, n) == data_size(width, n - 1) + line) by (nonlinear_arith)
        requires
            line == line_bytes(width),
    ;
    lemma_data_bytes_len(front, width);
    if y < n - 1 {
        lemma_data_bytes_layout(front, width, y, j);
    } else {
        assert(y * line == data_size(width, n - 1)) by (nonlinear_arith)
            requires
                y == n - 1,
                line == line_bytes(width),
        ;
    }
}

/// The pixel rows of `height` rows of `width` pixels take
/// `data_size(width, height)` bytes.
pub proof fn lemma_data_bytes_len(rows: Seq<Seq<Rgb>>, width: int)
    requires
        forall|r: int| 0 <= r < rows.len() ==> (#[trigger] rows[r]).len() == width,
    ensures
        data_bytes(rows).len() == data_size(width, rows.len() as int),
    decreases rows.len(),
{
    let line = line_bytes(width);
    let n = rows.len() as int;
    if n == 0 {
        assert(data_size(width, 0) == 0) by (nonlinear_arith);
    } else {
        lemma_data_bytes_len(rows.drop_last(), width);
        assert(data_size(width, n) == data_size(width, n - 1) + line) by (nonlinear_arith)
            requires
                line == line_bytes(width),
        ;
    }
}

/// The low 32 bits of a size.
fn truncate(n: usize) -> (low: u32)
    ensures
        low == low32(n as int),
{
    let wide: u64 = n as u64;
    ((wide % 0x1_0000_0000) as u32)
}

/// The low 32 bits of the file size of a `width` by `height` image, computed
/// without leaving 64 bits.
fn size_field(width: usize, height: usize) -> (low: u32)
    ensures
        low == low32(HEADER_SIZE + data_size(width as int, height as int)),
{
    let w: u64 = (width as u64) % 0x1_0000_0000;
    let h: u64 = (height as u64) % 0x1_0000_0000;
    let padding: u64 = (width % 4) as u64;
    let line: u64 = (w * 3 + padding) % 0x1_0000_0000;
    assert(line * h <= 0xFFFF_FFFF * 0xFFFF_FFFF) by (nonlinear_arith)
        requires
            line <= 0xFFFF_FFFF,
            h <= 0xFFFF_FFFF,
    ;
    let size: u64 = (line * h + 140) % 0x1_0000_0000;
    proof {
        let m = 0x1_0000_0000int;
        let full_line = line_bytes(width as int);
        vstd::arithmetic::div_mod::lemma_mul_mod_noop_general(width as int, 3, m);
        vstd::arithmetic::div_mod::lemma_add_mod_noop(width * 3, padding as int, m);
        vstd::arithmetic::div_mod::lemma_add_mod_noop(w * 3, padding as int, m);
        assert(line == full_line % m);
        vstd::arithmetic::div_mod::lemma_mul_mod_noop_general(full_line, height as int, m);
        vstd::arithmetic::div_mod::lemma_add_mod_noop(full_line * height, 140, m);
        vstd::arithmetic::div_mod::lemma_add_mod_noop(line * h, 140, m);
        assert(size == (full_line * height + 140) % m);
    }
    size as u32
}

/// Builds the header of the file for a `width` by `height` image.
pub fn header(width: usize, height: usize) -> (bytes: Vec<u8>)
    ensures
        bytes@ == header_bytes(width as int, height as int),
{
    let mut bytes: Vec<u8> = Vec::new();
    while bytes.len() < HEADER_SIZE
        invariant
            bytes@.len() <= HEADER_SIZE,
            forall|i: int| 0 <= i < bytes@.len() ==> bytes@[i] == 0,
        decreases HEADER_SIZE - bytes@.len(),
    {
        bytes.push(0);
    }
    bytes[0] = 0x42;
    bytes[1] = 0x4D;
    set_u32(bytes.as_mut_slice(), 2, size_field(width, height));
    set_u32(bytes.as_mut_slice(), 10, HEADER_SIZE as u32);
    set_u32(bytes.as_mut_slice(), 14, 0x7c);
    set_u32(bytes.as_mut_slice(), 18, truncate(width));
    set_u32(bytes.as_mut_slice(), 22, truncate(height));
    bytes[26] = 1;
    bytes[28] = 24;
    proof {
        let target = header_bytes(width as int, height as int);
        assert forall|i: int| 0 <= i < HEADER_SIZE implies bytes@[i] == target[i] by {
            let a = bytes@.subrange(2, 6);
            let b = bytes@.subrange(10, 14);
            let c = bytes@.subrange(14, 18);
            let d = bytes@.subrange(18, 22);
            let e = bytes@.subrange(22, 26);
            if 2 <= i < 6 {
                assert(bytes@[i] == a[i - 2]);
            } else if 10 <= i < 14 {
                assert(bytes@[i] == b[i - 10]);
            } else if 14 <= i < 18 {
                assert(bytes@[i] == c[i - 14]);
            } else if 18 <= i < 22 {
                assert(bytes@[i] == d[i - 18]);
            } else if 22 <= i < 26 {
                assert(bytes@[i] == e[i - 22]);
            }
        }
        assert(bytes@ =~= target);
    }
    bytes
}

/// Lays out the pixel rows of `image` as they stand in the file.
pub fn pixel_data(image: &Image<Rgb>) -> (bytes: Vec<u8>)
    ensures
        bytes@ == data_bytes(image@),
{
    let width = image.width();
    let height = image.height();
    let mut bytes: Vec<u8> = Vec::new();
    let mut y: usize = 0;
    while y < height
        invariant
            y <= height,
            width == image.width(),
            height == image.height(),
            image.wf(),
            bytes@ == data_bytes(image@.take(y as int)),
        decreases height - y,
    {
        let ghost done = bytes@;
        let ghost row = image@[y as int];
        let mut x: usize = 0;
        while x < width
            invariant
                x <= width,
                y < height,
                width == image.width(),
                height == image.height(),
                image.wf(),
                row == image@[y as int],
                bytes@ == done + row_bytes(row).take(3 * x),
            decreases width - x,
        {
            let pixel = *image.get(x, y);
            bytes.push(pixel.blue);
            bytes.push(pixel.green);
            bytes.push(pixel.red);
            x = x + 1;
            assert(bytes@ =~= done + row_bytes(row).take(3 * x));
        }
        let padding: usize = width % 4;
        let mut k: usize = 0;
        while k < padding
            invariant
                k <= padding,
                padding == width % 4,
                row.len() == width,
                bytes@ == done + row_bytes(row).take(3 * width + k),
            decreases padding - k,
        {
            bytes.push(0);
            k = k + 1;
            assert(bytes@ =~= done + row_bytes(row).take(3 * width + k));
        }
        y = y + 1;
        proof {
            assert(row_bytes(row).take(3 * width + padding) =~= row_bytes(row));
            assert(image@.take(y as int).drop_last() =~= image@.take(y - 1));
            assert(image@.take(y as int).last() == row);
        }
    }
    proof {
        assert(image@.take(height as int) =~= image@);
    }
    bytes
}

/// Encodes `image` as a bitmap file: the header, then the pixel rows.
pub fn encode(image: &Image<Rgb>) -> (bytes: Vec<u8>)
    ensures
        bytes@ == file_bytes(image@, image.width() as int),
{
    let mut bytes = header(image.width(), image.height());
    let mut data = pixel_data(image);
    bytes.append(&mut data);
    bytes
}

} // verus!
