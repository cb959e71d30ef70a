//! The layout of an image buffer and of the square chunks it divides into.
//!
//! An image buffer is a header of eight bytes, the width and the height as
//! big-endian numbers of four bytes each, and after it four bytes for each
//! pixel, row by row. The image divides into chunks of `CHUNK_SIZE` by
//! `CHUNK_SIZE` pixels, counted from the top left; what is left over at the
//! right and at the bottom belongs to no chunk. A chunk is named by its row
//! and its column among the chunks.
//!
//! This module says which bytes of a buffer belong to which chunk, what it is
//! to take the bytes of some chunks out of an image and to put them back, and
//! proves that putting back what was taken out gives the image again.

use crate::field::be_value;
use vstd::arithmetic::div_mod::{
    lemma_fundamental_div_mod, lemma_fundamental_div_mod_converse_div,
    lemma_fundamental_div_mod_converse_mod,
};
use vstd::arithmetic::mul::{lemma_mul_inequality, lemma_mul_is_commutative};
use vstd::prelude::*;

verus! {

/// The side of a chunk, in pixels.
pub const CHUNK_SIZE: usize = 100;

/// The bytes of one row of pixels of a chunk.
pub const CHUNK_ROW_BYTES: usize = 400;

/// The bytes of a chunk.
pub const CHUNK_BYTES: usize = 40_000;

/// The bytes of the header of an image buffer.
pub const HEADER_LENGTH: usize = 8;

/// The width that the header of `data` declares.
pub open spec fn header_width(data: Seq<u8>) -> int {
    be_value(data.subrange(0, 4)) as int
}

/// The height that the header of `data` declares.
pub open spec fn header_height(data: Seq<u8>) -> int {
    be_value(data.subrange(4, 8)) as int
}

/// Whether `data` is an image buffer: a header and as many pixels as the
/// header declares.
pub open spec fn is_image(data: Seq<u8>) -> bool {
    data.len() >= 8 && data.len() == 8 + 4 * (header_height(data) * header_width(data))
}

/// The position in the buffer of the byte `channel` of the pixel at `row` and
/// `col` of an image `width` pixels wide.
pub open spec fn byte_index(width: int, row: int, col: int, channel: int) -> int {
    8 + 4 * (row * width + col) + channel
}

/// The row of the pixel that the byte at position `k` belongs to.
pub open spec fn pixel_row(width: int, k: int) -> int {
    ((k - 8) / 4) / width
}

/// The column of the pixel that the byte at position `k` belongs to.
pub open spec fn pixel_col(width: int, k: int) -> int {
    ((k - 8) / 4) % width
}

/// Which of the four bytes of its pixel the byte at position `k` is.
pub open spec fn pixel_channel(k: int) -> int {
    (k - 8) % 4
}

/// Whether the chunk lies within an image of the given width and height.
pub open spec fn chunk_in_range(width: int, height: int, chunk: (usize, usize)) -> bool {
    (chunk.0 + 1) * CHUNK_SIZE <= height && (chunk.1 + 1) * CHUNK_SIZE <= width
}

/// Whether all the chunks lie within the image.
pub open spec fn chunks_in_range(width: int, height: int, chunks: Seq<(usize, usize)>) -> bool {
    forall|n: int| 0 <= n < chunks.len() ==> chunk_in_range(width, height, #[trigger] chunks[n])
}

/// Whether the byte at position `k` belongs to a pixel of the chunk.
pub open spec fn in_chunk(width: int, chunk: (usize, usize), k: int) -> bool {
    &&& k >= 8
    &&& chunk.0 * CHUNK_SIZE <= pixel_row(width, k) < (chunk.0 + 1) * CHUNK_SIZE
    &&& chunk.1 * CHUNK_SIZE <= pixel_col(width, k) < (chunk.1 + 1) * CHUNK_SIZE
}

/// The place of the byte at position `k` among the bytes of its chunk, which
/// are counted pixel by pixel and row by row.
pub open spec fn offset_in_chunk(width: int, chunk: (usize, usize), k: int) -> int {
    ((pixel_row(width, k) - chunk.0 * CHUNK_SIZE) * CHUNK_SIZE + (pixel_col(width, k) - chunk.1
        * CHUNK_SIZE)) * 4 + pixel_channel(k)
}

/// The position in the buffer of the byte at place `t` of the chunk.
pub open spec fn chunk_byte_index(width: int, chunk: (usize, usize), t: int) -> int {
    byte_index(
        width,
        chunk.0 * CHUNK_SIZE + (t / 4) / (CHUNK_SIZE as int),
        chunk.1 * CHUNK_SIZE + (t / 4) % (CHUNK_SIZE as int),
        t % 4,
    )
}

/// The position in the buffer at which row `r` of the chunk begins.
pub open spec fn chunk_row_start(width: int, chunk: (usize, usize), r: int) -> int {
    byte_index(width, chunk.0 * CHUNK_SIZE + r, chunk.1 * CHUNK_SIZE, 0)
}

/// The bytes of the chunk, in the order of their places.
pub open spec fn chunk_values(data: Seq<u8>, width: int, chunk: (usize, usize)) -> Seq<u8> {
    Seq::new(CHUNK_BYTES as nat, |t: int| data[chunk_byte_index(width, chunk, t)])
}

/// The buffer with the bytes of the chunk set to zero.
pub open spec fn clear_chunk(data: Seq<u8>, width: int, chunk: (usize, usize)) -> Seq<u8> {
    Seq::new(
        data.len(),
        |k: int|
            if in_chunk(width, chunk, k) {
                0u8
            } else {
                data[k]
            },
    )
}

/// The buffer with the bytes of the chunk taken from `values`, which holds
/// them in the order of their places.
pub open spec fn fill_chunk(
    data: Seq<u8>,
    width: int,
    chunk: (usize, usize),
    values: Seq<u8>,
) -> Seq<u8> {
    Seq::new(
        data.len(),
        |k: int|
            if in_chunk(width, chunk, k) {
                values[offset_in_chunk(width, chunk, k)]
            } else {
                data[k]
            },
    )
}

/// Whether the byte at position `k` belongs to one of the chunks.
pub open spec fn covered(width: int, chunks: Seq<(usize, usize)>, k: int) -> bool
    decreases chunks.len(),
{
    chunks.len() > 0 && (in_chunk(width, chunks.last(), k) || covered(
        width,
        chunks.drop_last(),
        k,
    ))
}

/// The bytes of the chunks, one chunk after another in the order of the list.
pub open spec fn selected_values(data: Seq<u8>, width: int, chunks: Seq<(usize, usize)>) -> Seq<u8>
    decreases chunks.len(),
{
    if chunks.len() == 0 {
        Seq::empty()
    } else {
        selected_values(data, width, chunks.drop_last()) + chunk_values(
            data,
            width,
            chunks.last(),
        )
    }
}

/// The buffer with the bytes of all the chunks set to zero.
pub open spec fn obfuscated(data: Seq<u8>, width: int, chunks: Seq<(usize, usize)>) -> Seq<u8>
    decreases chunks.len(),
{
    if chunks.len() == 0 {
        data
    } else {
        clear_chunk(obfuscated(data, width, chunks.drop_last()), width, chunks.last())
    }
}

/// The buffer with the bytes of the chunks taken from `values`, which holds
/// `CHUNK_BYTES` bytes for each chunk, in the order of the list. Where two
/// chunks of the list are the same, the later one decides.
pub open spec fn restored(
    data: Seq<u8>,
    width: int,
    chunks: Seq<(usize, usize)>,
    values: Seq<u8>,
) -> Seq<u8>
    decreases chunks.len(),
{
    if chunks.len() == 0 {
        data
    } else {
        let before = (chunks.len() - 1) * CHUNK_BYTES;
        fill_chunk(
            restored(data, width, chunks.drop_last(), values.subrange(0, before)),
            width,
            chunks.last(),
            values.subrange(before, before + CHUNK_BYTES),
        )
    }
}

/// A byte position determines its pixel and channel: the byte `channel` of
/// the pixel at `row` and `col` sits where `pixel_row`, `pixel_col` and
/// `pixel_channel` find these three again.
pub proof fn lemma_byte_index_coordinates(width: int, row: int, col: int, channel: int)
    requires
        0 <= row,
        0 <= col < width,
        0 <= channel < 4,
    ensures
        byte_index(width, row, col, channel) >= 8,
        pixel_row(width, byte_index(width, row, col, channel)) == row,
        pixel_col(width, byte_index(width, row, col, channel)) == col,
        pixel_channel(byte_index(width, row, col, channel)) == channel,
{
    let p = row * width + col;
    assert(0 <= row * width) by (nonlinear_arith)
        requires
            0 <= row,
            0 <= width,
    ;
    let k = byte_index(width, row, col, channel);
    assert((k - 8) / 4 == p);
    lemma_fundamental_div_mod_converse_div(p, width, row, col);
    lemma_fundamental_div_mod_converse_mod(p, width, row, col);
}

/// Pixel and channel determine the byte position.
pub proof fn lemma_coordinates_byte_index(width: int, k: int)
    requires
        width > 0,
        k >= 8,
    ensures
        byte_index(width, pixel_row(width, k), pixel_col(width, k), pixel_channel(k)) == k,
        0 <= pixel_row(width, k),
        0 <= pixel_col(width, k) < width,
        0 <= pixel_channel(k) < 4,
{
    let p = (k - 8) / 4;
    lemma_fundamental_div_mod(p, width);
    lemma_mul_is_commutative(width, p / width);
    assert(0 <= p / width) by (nonlinear_arith)
        requires
            0 <= p,
            0 < width,
    ;
}

/// The bytes of a row of a chunk lie side by side: the byte at place
/// `r * CHUNK_ROW_BYTES + x` of the chunk sits `x` bytes after the start of
/// row `r`, and it belongs to the chunk.
pub proof fn lemma_chunk_row(width: int, chunk: (usize, usize), r: int, x: int)
    requires
        (chunk.1 + 1) * CHUNK_SIZE <= width,
        0 <= r < CHUNK_SIZE,
        0 <= x < CHUNK_ROW_BYTES,
    ensures
        chunk_byte_index(width, chunk, r * CHUNK_ROW_BYTES + x) == chunk_row_start(width, chunk, r)
            + x,
        in_chunk(width, chunk, chunk_row_start(width, chunk, r) + x),
        pixel_row(width, chunk_row_start(width, chunk, r) + x) == chunk.0 * CHUNK_SIZE + r,
        offset_in_chunk(width, chunk, chunk_row_start(width, chunk, r) + x) == r * CHUNK_ROW_BYTES
            + x,
{
    let t = r * CHUNK_ROW_BYTES + x;
    let row = chunk.0 * CHUNK_SIZE + r;
    let col = chunk.1 * CHUNK_SIZE + x / 4;
    assert((t / 4) / (CHUNK_SIZE as int) == r);
    assert((t / 4) % (CHUNK_SIZE as int) == x / 4);
    assert(t % 4 == x % 4);
    assert(chunk_byte_index(width, chunk, t) == byte_index(width, row, col, x % 4));
    assert(byte_index(width, row, col, x % 4) == chunk_row_start(width, chunk, r) + x);
    lemma_byte_index_coordinates(width, row, col, x % 4);
}

/// A row of a chunk in range lies within the buffer.
pub proof fn lemma_chunk_row_in_buffer(width: int, height: int, chunk: (usize, usize), r: int)
    requires
        0 <= height,
        chunk_in_range(width, height, chunk),
        0 <= r < CHUNK_SIZE,
    ensures
        8 <= chunk_row_start(width, chunk, r),
        chunk_row_start(width, chunk, r) + CHUNK_ROW_BYTES <= 8 + 4 * (height * width),
        0 <= (chunk.0 * CHUNK_SIZE + r) * width <= height * width,
{
    let row = chunk.0 * CHUNK_SIZE + r;
    assert(row + 1 <= height);
    lemma_mul_inequality(row + 1, height, width);
    assert((row + 1) * width == row * width + width) by (nonlinear_arith);
    assert(0 <= row * width) by (nonlinear_arith)
        requires
            0 <= row,
            0 <= width,
    ;
}

/// A byte that belongs to a chunk is found again from its place in the
/// chunk.
pub proof fn lemma_offset_in_chunk(width: int, chunk: (usize, usize), k: int)
    requires
        width > 0,
        in_chunk(width, chunk, k),
    ensures
        0 <= offset_in_chunk(width, chunk, k) < CHUNK_BYTES,
        chunk_byte_index(width, chunk, offset_in_chunk(width, chunk, k)) == k,
{
    lemma_coordinates_byte_index(width, k);
    let dr = pixel_row(width, k) - chunk.0 * CHUNK_SIZE;
    let dc = pixel_col(width, k) - chunk.1 * CHUNK_SIZE;
    let t = offset_in_chunk(width, chunk, k);
    assert(t == (dr * CHUNK_SIZE + dc) * 4 + pixel_channel(k));
    assert(t / 4 == dr * CHUNK_SIZE + dc);
    assert((t / 4) / (CHUNK_SIZE as int) == dr);
    assert((t / 4) % (CHUNK_SIZE as int) == dc);
    assert(t % 4 == pixel_channel(k));
}

/// A byte of row `r` of a chunk lies in the stretch of `CHUNK_ROW_BYTES`
/// bytes that begins at the start of that row.
pub proof fn lemma_chunk_row_members(width: int, chunk: (usize, usize), r: int, k: int)
    requires
        width > 0,
        in_chunk(width, chunk, k),
        pixel_row(width, k) == chunk.0 * CHUNK_SIZE + r,
    ensures
        chunk_row_start(width, chunk, r) <= k < chunk_row_start(width, chunk, r) + CHUNK_ROW_BYTES,
{
    lemma_coordinates_byte_index(width, k);
}

/// The chunks of an image, taken together, have no more bytes than the
/// image has pixel bytes.
pub proof fn lemma_grid_fits(width: int, height: int, count: int)
    requires
        0 <= width,
        0 <= height,
        count <= (height / (CHUNK_SIZE as int)) * (width / (CHUNK_SIZE as int)),
    ensures
        count * CHUNK_BYTES <= 4 * (height * width),
{
    let rows = height / (CHUNK_SIZE as int);
    let cols = width / (CHUNK_SIZE as int);
    assert((rows * 100) * (cols * 100) <= height * width) by (nonlinear_arith)
        requires
            0 <= rows * 100 <= height,
            0 <= cols * 100 <= width,
    ;
    assert((rows * 100) * (cols * 100) == (rows * cols) * 10_000) by (nonlinear_arith);
}

/// The values of `n` chunks are `n * CHUNK_BYTES` bytes.
pub proof fn lemma_selected_values_len(data: Seq<u8>, width: int, chunks: Seq<(usize, usize)>)
    ensures
        selected_values(data, width, chunks).len() == chunks.len() * CHUNK_BYTES,
    decreases chunks.len(),
{
    if chunks.len() > 0 {
        lemma_selected_values_len(data, width, chunks.drop_last());
    }
}

/// Clearing and filling keep the length of the buffer.
pub proof fn lemma_lengths(
    data: Seq<u8>,
    width: int,
    chunks: Seq<(usize, usize)>,
    values: Seq<u8>,
)
    ensures
        obfuscated(data, width, chunks).len() == data.len(),
        restored(data, width, chunks, values).len() == data.len(),
    decreases chunks.len(),
{
    if chunks.len() > 0 {
        let before = (chunks.len() - 1) * CHUNK_BYTES;
        lemma_lengths(data, width, chunks.drop_last(), values);
        lemma_lengths(data, width, chunks.drop_last(), values.subrange(0, before));
    }
}

/// In the obfuscated buffer the bytes of the chunks are zero and all others
/// are as they were.
pub proof fn lemma_obfuscated_byte(data: Seq<u8>, width: int, chunks: Seq<(usize, usize)>, k: int)
    requires
        0 <= k < data.len(),
    ensures
        obfuscated(data, width, chunks)[k] == (if covered(width, chunks, k) {
            0u8
        } else {
            data[k]
        }),
    decreases chunks.len(),
{
    if chunks.len() > 0 {
        lemma_obfuscated_byte(data, width, chunks.drop_last(), k);
        lemma_lengths(data, width, chunks.drop_last(), Seq::empty());
    }
}

/// The header belongs to no chunk.
pub proof fn lemma_header_not_covered(width: int, chunks: Seq<(usize, usize)>, k: int)
    requires
        k < 8,
    ensures
        !covered(width, chunks, k),
    decreases chunks.len(),
{
    if chunks.len() > 0 {
        lemma_header_not_covered(width, chunks.drop_last(), k);
    }
}

/// Obfuscation leaves the header as it is, so the obfuscated image is an
/// image buffer of the same width and height.
pub proof fn lemma_obfuscation_keeps_header(
    data: Seq<u8>,
    width: int,
    chunks: Seq<(usize, usize)>,
)
    requires
        data.len() >= 8,
    ensures
        obfuscated(data, width, chunks).len() == data.len(),
        header_width(obfuscated(data, width, chunks)) == header_width(data),
        header_height(obfuscated(data, width, chunks)) == header_height(data),
        is_image(data) ==> is_image(obfuscated(data, width, chunks)),
{
    let hidden = obfuscated(data, width, chunks);
    lemma_lengths(data, width, chunks, Seq::empty());
    assert forall|k: int| 0 <= k < 8 implies hidden[k] == data[k] by {
        lemma_header_not_covered(width, chunks, k);
        lemma_obfuscated_byte(data, width, chunks, k);
    }
    assert(hidden.subrange(0, 4) =~= data.subrange(0, 4));
    assert(hidden.subrange(4, 8) =~= data.subrange(4, 8));
}

/// Where the values put back are those of `original`, the restored buffer has
/// the bytes of `original` in the chunks and is unchanged elsewhere.
pub proof fn lemma_restored_byte(
    data: Seq<u8>,
    original: Seq<u8>,
    width: int,
    chunks: Seq<(usize, usize)>,
    k: int,
)
    requires
        width > 0,
        0 <= k < data.len(),
    ensures
        restored(data, width, chunks, selected_values(original, width, chunks))[k] == (if covered(
            width,
            chunks,
            k,
        ) {
            original[k]
        } else {
            data[k]
        }),
    decreases chunks.len(),
{
    if chunks.len() > 0 {
        let values = selected_values(original, width, chunks);
        let earlier = selected_values(original, width, chunks.drop_last());
        let before = (chunks.len() - 1) * CHUNK_BYTES;
        lemma_selected_values_len(original, width, chunks.drop_last());
        assert(values.subrange(0, before) =~= earlier);
        assert(values.subrange(before, before + CHUNK_BYTES) =~= chunk_values(
            original,
            width,
            chunks.last(),
        ));
        lemma_restored_byte(data, original, width, chunks.drop_last(), k);
        lemma_lengths(data, width, chunks.drop_last(), earlier);
        if in_chunk(width, chunks.last(), k) {
            lemma_offset_in_chunk(width, chunks.last(), k);
        }
    }
}

/// Putting back what was taken out gives the image again: the obfuscated
/// image, restored with the values that were selected from the original, is
/// the original.
pub proof fn lemma_restore_inverts_obfuscation(
    data: Seq<u8>,
    width: int,
    chunks: Seq<(usize, usize)>,
)
    requires
        width > 0,
    ensures
        restored(
            obfuscated(data, width, chunks),
            width,
            chunks,
            selected_values(data, width, chunks),
        ) == data,
{
    let hidden = obfuscated(data, width, chunks);
    let values = selected_values(data, width, chunks);
    let back = restored(hidden, width, chunks, values);
    lemma_lengths(data, width, chunks, values);
    lemma_lengths(hidden, width, chunks, values);
    assert forall|k: int| 0 <= k < data.len() implies back[k] == data[k] by {
        lemma_obfuscated_byte(data, width, chunks, k);
        lemma_restored_byte(hidden, data, width, chunks, k);
    }
    assert(back =~= data);
}

} // verus!
