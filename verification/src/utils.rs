//! Images and the cipher that hides parts of them.
//!
//! Some chunks of an image are selected at random. Their bytes are taken out
//! and encrypted under a key that is derived from the master key; in the
//! image they are replaced by zeros, which gives the obfuscated image that
//! everybody may see. Whoever recovers the master key decrypts the bytes and
//! puts them back.

use crate::backend::{
    aes_gcm_decrypt, aes_gcm_encrypt, aes_gcm_opened, aes_gcm_sealed, aes_key_from_seed,
    blake2b256, blake2b256_digest, random_below, random_nonce, seeded_aes_key, MAX_PLAINTEXT_LEN,
};
use crate::bytes::{
    append, lemma_u32_be_bytes_value, u32_be_bytes, u32_from_be_bytes, u32_to_be_bytes,
};
use crate::chunks::{
    chunk_in_range, chunk_row_start, chunk_values, chunks_in_range, clear_chunk, fill_chunk,
    header_height, header_width, in_chunk, is_image, lemma_chunk_row, lemma_chunk_row_in_buffer,
    lemma_chunk_row_members, lemma_grid_fits, lemma_lengths, lemma_obfuscation_keeps_header,
    lemma_offset_in_chunk, lemma_restore_inverts_obfuscation, lemma_selected_values_len,
    obfuscated, offset_in_chunk, pixel_row, restored, selected_values, CHUNK_BYTES,
    CHUNK_ROW_BYTES, CHUNK_SIZE, HEADER_LENGTH,
};
use crate::error::EnftError;
use crate::group::GroupElement;
use crate::FullCipherText;
use rand::rngs::StdRng;
use vstd::prelude::*;
use vstd::slice::{slice_subrange, slice_to_vec};

verus! {

/// One chunk in this many is selected, on average.
pub const SAMPLING_RATE: u32 = 5;

/// An image as a buffer: the header and the pixels.
#[derive(Clone, Debug, PartialEq, Eq)]
pub struct LoadedImage {
    width: u32,
    height: u32,
    /// The header of eight bytes and after it four bytes for each pixel.
    pub data: Vec<u8>,
}

/// What sampling makes of an image.
#[derive(Clone, Debug, PartialEq, Eq)]
pub struct PreprocessedImage {
    /// The chunks that were selected, each by its row and column.
    pub selected_coordinates: Vec<(usize, usize)>,
    /// The bytes of the selected chunks, chunk after chunk.
    pub selected_values: Vec<u8>,
    /// The image with the bytes of the selected chunks set to zero.
    pub obfuscated_image: Vec<u8>,
}

/// The cipher that belongs to a master key: AES-256-GCM with nonces of 12
/// bytes, under a key that the master key determines.
pub struct Aes256GcmCipher {
    key: [u8; 32],
}

/// The key of the cipher that belongs to the master key with the given
/// encoding: the key that the digest of the encoding seeds.
pub open spec fn cipher_key(master_key: Seq<u8>) -> Seq<u8> {
    seeded_aes_key(blake2b256_digest(master_key))
}

/// What restoring makes of an obfuscated image, a list of chunks and the
/// bytes that belong into them. It fails unless the image is an image
/// buffer, the chunks lie within it and there are `CHUNK_BYTES` bytes for
/// each chunk.
pub open spec fn restore_result(
    obfuscated_image: Seq<u8>,
    pixels: Seq<(usize, usize)>,
    values: Seq<u8>,
) -> Result<Seq<u8>, EnftError> {
    let width = header_width(obfuscated_image);
    let height = header_height(obfuscated_image);
    if is_image(obfuscated_image) && chunks_in_range(width, height, pixels) && values.len()
        == pixels.len() * CHUNK_BYTES {
        Ok(restored(obfuscated_image, width, pixels, values))
    } else {
        Err(EnftError::DimensionMismatch)
    }
}

/// What recovering makes of an obfuscated image and a ciphertext under the
/// cipher key `key`. The ciphertext is opened first: if that fails, nothing
/// else is looked at.
pub open spec fn recover_result(
    obfuscated_image: Seq<u8>,
    pixels: Seq<(usize, usize)>,
    iv: Seq<u8>,
    data: Seq<u8>,
    key: Seq<u8>,
) -> Result<Seq<u8>, EnftError> {
    match aes_gcm_opened(key, iv, data) {
        Some(values) => restore_result(obfuscated_image, pixels, values),
        None => Err(EnftError::AuthenticationFailed),
    }
}

/// Whether the chunks are listed row by row and, within a row, from left to
/// right, each once.
pub open spec fn in_raster_order(chunks: Seq<(usize, usize)>) -> bool {
    forall|a: int, b: int|
        0 <= a < b < chunks.len() ==> (#[trigger] chunks[a]).0 < (#[trigger] chunks[b]).0 || (
        chunks[a].0 == chunks[b].0 && chunks[a].1 < chunks[b].1)
}

impl LoadedImage {
    /// The buffer is an image buffer whose header declares the width and the
    /// height of this image.
    pub open spec fn wf(self) -> bool {
        &&& is_image(self.buffer())
        &&& header_width(self.buffer()) == self.spec_width()
        &&& header_height(self.buffer()) == self.spec_height()
    }

    /// The bytes of the buffer.
    pub closed spec fn buffer(self) -> Seq<u8> {
        self.data@
    }

    /// The width in pixels.
    pub closed spec fn spec_width(&self) -> u32 {
        self.width
    }

    /// The height in pixels.
    pub closed spec fn spec_height(&self) -> u32 {
        self.height
    }

    /// The width in pixels.
    #[verifier::when_used_as_spec(spec_width)]
    pub fn width(&self) -> (width: u32)
        ensures
            width == self.spec_width(),
    {
        self.width
    }

    /// The height in pixels.
    #[verifier::when_used_as_spec(spec_height)]
    pub fn height(&self) -> (height: u32)
        ensures
            height == self.spec_height(),
    {
        self.height
    }
}

impl PreprocessedImage {
    /// Whether this is what sampling makes of the image `data`, for the
    /// chunks that it lists.
    pub open spec fn is_sample_of(self, data: Seq<u8>) -> bool {
        let width = header_width(data);
        &&& chunks_in_range(width, header_height(data), self.selected_coordinates@)
        &&& self.selected_values@ == selected_values(data, width, self.selected_coordinates@)
        &&& self.obfuscated_image@ == obfuscated(data, width, self.selected_coordinates@)
    }
}

impl Aes256GcmCipher {
    /// The key.
    pub closed spec fn key(self) -> Seq<u8> {
        self.key@
    }

    /// Encrypts `plaintext` under the nonce `iv`. The result is 16 bytes
    /// longer than the plaintext, and `decrypt` opens it to the plaintext
    /// again.
    pub fn encrypt(&self, iv: &[u8; 12], plaintext: &[u8]) -> (sealed: Vec<u8>)
        requires
            plaintext.len() <= MAX_PLAINTEXT_LEN,
        ensures
            sealed@ == aes_gcm_sealed(self.key(), iv@, plaintext@),
            sealed.len() == plaintext.len() + 16,
            aes_gcm_opened(self.key(), iv@, sealed@) == Some(plaintext@),
    {
        aes_gcm_encrypt(&self.key, iv, plaintext)
    }

    /// Opens `sealed` under the nonce `iv`. It fails unless the bytes carry
    /// the tag that this key and nonce give them.
    pub fn decrypt(&self, iv: &[u8; 12], sealed: &[u8]) -> (r: Result<Vec<u8>, EnftError>)
        ensures
            match aes_gcm_opened(self.key(), iv@, sealed@) {
                Some(plaintext) => r matches Ok(p) && p@ == plaintext,
                None => r matches Err(e) && e == EnftError::AuthenticationFailed,
            },
    {
        match aes_gcm_decrypt(&self.key, iv, sealed) {
            Ok(plaintext) => Ok(plaintext),
            Err(_) => Err(EnftError::AuthenticationFailed),
        }
    }
}

/// Convert the master key to a cipher, whose key is derived from the master
/// key. The cipher can be used for encryption and decryption. Two parties
/// that hold the same master key get the same cipher.
pub fn msk_to_cipher(msk: &GroupElement) -> (cipher: Aes256GcmCipher)
    ensures
        cipher.key() == cipher_key(msk.encoding()),
{
    let encoding = msk.to_bytes();
    let seed = blake2b256(encoding.as_slice());
    Aes256GcmCipher { key: aes_key_from_seed(&seed) }
}

/// The width and the height that the header of an image buffer declares, or
/// nothing where `data` is no image buffer.
pub fn image_dimensions(data: &[u8]) -> (dimensions: Option<(u32, u32)>)
    ensures
        dimensions is Some <==> is_image(data@),
        dimensions matches Some((width, height)) ==> width == header_width(data@) && height
            == header_height(data@),
{
    if data.len() < HEADER_LENGTH {
        return None;
    }
    let width = u32_from_be_bytes(slice_subrange(data, 0, 4));
    let height = u32_from_be_bytes(slice_subrange(data, 4, 8));
    assert(height * width <= 0xffff_ffff * 0xffff_ffff) by (nonlinear_arith)
        requires
            0 <= height <= 0xffff_ffff,
            0 <= width <= 0xffff_ffff,
    ;
    let pixels: u64 = (height as u64) * (width as u64);
    let body: u64 = (data.len() - HEADER_LENGTH) as u64;
    if body % 4 == 0 && body / 4 == pixels {
        Some((width, height))
    } else {
        None
    }
}

/// Puts an image into a buffer: the header made of `width` and `height`, and
/// after it the pixels `rgba`, four bytes each and row by row. It fails
/// unless there are as many pixels as `width` and `height` ask for.
pub fn load_image(width: u32, height: u32, rgba: &[u8]) -> (r: Result<LoadedImage, EnftError>)
    ensures
        r is Ok <==> rgba.len() == 4 * (height * width),
        r matches Ok(image) ==> {
            &&& image.wf()
            &&& image.width() == width
            &&& image.height() == height
            &&& image.buffer() == u32_be_bytes(width) + u32_be_bytes(height) + rgba@
        },
        r matches Err(e) ==> e == EnftError::DimensionMismatch,
{
    assert(height * width <= 0xffff_ffff * 0xffff_ffff) by (nonlinear_arith)
        requires
            0 <= height <= 0xffff_ffff,
            0 <= width <= 0xffff_ffff,
    ;
    let pixels: u64 = (height as u64) * (width as u64);
    let body: u64 = rgba.len() as u64;
    if !(body % 4 == 0 && body / 4 == pixels) {
        return Err(EnftError::DimensionMismatch);
    }
    let mut data: Vec<u8> = Vec::new();
    append(&mut data, u32_to_be_bytes(width).as_slice());
    append(&mut data, u32_to_be_bytes(height).as_slice());
    append(&mut data, rgba);
    proof {
        lemma_u32_be_bytes_value(width);
        lemma_u32_be_bytes_value(height);
        assert(data@.subrange(0, 4) =~= u32_be_bytes(width));
        assert(data@.subrange(4, 8) =~= u32_be_bytes(height));
    }
    Ok(LoadedImage { width, height, data })
}

/// Where row `r` of the chunk begins in the buffer.
fn row_start(width: usize, height: usize, chunk: (usize, usize), r: usize) -> (start: usize)
    requires
        chunk_in_range(width as int, height as int, chunk),
        r < CHUNK_SIZE,
        8 + 4 * (height * width) <= usize::MAX,
    ensures
        start == chunk_row_start(width as int, chunk, r as int),
        start + CHUNK_ROW_BYTES <= 8 + 4 * (height * width),
{
    proof {
        lemma_chunk_row_in_buffer(width as int, height as int, chunk, r as int);
    }
    let row = chunk.0 * CHUNK_SIZE + r;
    8 + 4 * (row * width + chunk.1 * CHUNK_SIZE)
}

/// Appends the bytes of the chunk to `values`.
fn read_chunk(
    data: &[u8],
    width: usize,
    height: usize,
    chunk: (usize, usize),
    values: &mut Vec<u8>,
)
    requires
        data.len() == 8 + 4 * (height * width),
        chunk_in_range(width as int, height as int, chunk),
    ensures
        final(values)@ == old(values)@ + chunk_values(data@, width as int, chunk),
{
    let ghost all = chunk_values(data@, width as int, chunk);
    let mut r: usize = 0;
    assert(all.subrange(0, 0) =~= Seq::<u8>::empty());
    while r < CHUNK_SIZE
        invariant
            r <= CHUNK_SIZE,
            data.len() == 8 + 4 * (height * width),
            chunk_in_range(width as int, height as int, chunk),
            all == chunk_values(data@, width as int, chunk),
            values@ == old(values)@ + all.subrange(0, r * CHUNK_ROW_BYTES),
        decreases CHUNK_SIZE - r,
    {
        let start = row_start(width, height, chunk, r);
        let row = slice_subrange(data, start, start + CHUNK_ROW_BYTES);
        append(values, row);
        proof {
            assert forall|x: int| 0 <= x < CHUNK_ROW_BYTES implies row@[x] == all[r
                * CHUNK_ROW_BYTES + x] by {
                lemma_chunk_row(width as int, chunk, r as int, x);
            }
            assert(all.subrange(0, (r + 1) * CHUNK_ROW_BYTES) =~= all.subrange(
                0,
                r * CHUNK_ROW_BYTES,
            ) + row@);
        }
        r += 1;
    }
    assert(all.subrange(0, CHUNK_SIZE * CHUNK_ROW_BYTES) =~= all);
}

/// Writes `source` over the bytes of `buffer` from position `start` on.
fn write_range(buffer: &mut Vec<u8>, start: usize, source: &[u8])
    requires
        start + source.len() <= old(buffer).len(),
    ensures
        final(buffer).len() == old(buffer).len(),
        forall|k: int|
            0 <= k < old(buffer).len() ==> #[trigger] final(buffer)@[k] == (if start <= k < start
                + source.len() {
                source@[k - start]
            } else {
                old(buffer)@[k]
            }),
{
    let mut i: usize = 0;
    while i < source.len()
        invariant
            i <= source.len(),
            start + source.len() <= buffer.len(),
            buffer.len() == old(buffer).len(),
            forall|k: int|
                0 <= k < buffer.len() ==> #[trigger] buffer@[k] == (if start <= k < start + i {
                    source@[k - start]
                } else {
                    old(buffer)@[k]
                }),
        decreases source.len() - i,
    {
        buffer[start + i] = source[i];
        i += 1;
    }
}

/// Whether the byte at position `k` belongs to one of the first `rows` rows
/// of the chunk.
spec fn in_chunk_rows(width: int, chunk: (usize, usize), rows: int, k: int) -> bool {
    in_chunk(width, chunk, k) && pixel_row(width, k) < chunk.0 * CHUNK_SIZE + rows
}

/// Writes `values` into the chunk.
fn write_chunk(
    buffer: &mut Vec<u8>,
    width: usize,
    height: usize,
    chunk: (usize, usize),
    values: &[u8],
)
    requires
        old(buffer).len() == 8 + 4 * (height * width),
        chunk_in_range(width as int, height as int, chunk),
        values.len() == CHUNK_BYTES,
    ensures
        final(buffer)@ == fill_chunk(old(buffer)@, width as int, chunk, values@),
{
    let ghost w = width as int;
    let mut r: usize = 0;
    while r < CHUNK_SIZE
        invariant
            r <= CHUNK_SIZE,
            w == width,
            w > 0,
            buffer.len() == old(buffer).len(),
            buffer.len() == 8 + 4 * (height * width),
            chunk_in_range(w, height as int, chunk),
            values.len() == CHUNK_BYTES,
            forall|k: int|
                0 <= k < buffer.len() ==> #[trigger] buffer@[k] == (if in_chunk_rows(
                    w,
                    chunk,
                    r as int,
                    k,
                ) {
                    values@[offset_in_chunk(w, chunk, k)]
                } else {
                    old(buffer)@[k]
                }),
        decreases CHUNK_SIZE - r,
    {
        let start = row_start(width, height, chunk, r);
        let row = slice_subrange(values, r * CHUNK_ROW_BYTES, (r + 1) * CHUNK_ROW_BYTES);
        let ghost before = buffer@;
        write_range(buffer, start, row);
        proof {
            assert forall|k: int| 0 <= k < buffer.len() implies #[trigger] buffer@[k] == (
            if in_chunk_rows(w, chunk, r + 1, k) {
                values@[offset_in_chunk(w, chunk, k)]
            } else {
                old(buffer)@[k]
            }) by {
                assert(before[k] == (if in_chunk_rows(w, chunk, r as int, k) {
                    values@[offset_in_chunk(w, chunk, k)]
                } else {
                    old(buffer)@[k]
                }));
                if start <= k < start + CHUNK_ROW_BYTES {
                    lemma_chunk_row(w, chunk, r as int, k - start);
                } else if in_chunk(w, chunk, k) && pixel_row(w, k) == chunk.0 * CHUNK_SIZE + r {
                    lemma_chunk_row_members(w, chunk, r as int, k);
                }
            }
        }
        r += 1;
    }
    assert(buffer@ =~= fill_chunk(old(buffer)@, w, chunk, values@));
}

/// Whether all the chunks lie within an image of the given width and height.
fn all_chunks_in_range(width: usize, height: usize, chunks: &[(usize, usize)]) -> (all: bool)
    ensures
        all == chunks_in_range(width as int, height as int, chunks@),
{
    let rows = height / CHUNK_SIZE;
    let cols = width / CHUNK_SIZE;
    let mut n: usize = 0;
    while n < chunks.len()
        invariant
            n <= chunks.len(),
            rows == height / CHUNK_SIZE,
            cols == width / CHUNK_SIZE,
            forall|m: int| 0 <= m < n ==> chunk_in_range(width as int, height as int, chunks@[m]),
        decreases chunks.len() - n,
    {
        if chunks[n].0 >= rows || chunks[n].1 >= cols {
            assert(!chunk_in_range(width as int, height as int, chunks@[n as int]));
            return false;
        }
        n += 1;
    }
    true
}

/// Takes the given chunks out of an image: collects their bytes and sets
/// them to zero in a copy of the image. It fails unless `data` is an image
/// buffer and all the chunks lie within it.
pub fn sample_image(data: &[u8], selected: &[(usize, usize)]) -> (r: Result<
    PreprocessedImage,
    EnftError,
>)
    ensures
        r is Ok <==> is_image(data@) && chunks_in_range(
            header_width(data@),
            header_height(data@),
            selected@,
        ),
        r matches Ok(sample) ==> sample.selected_coordinates@ == selected@ && sample.is_sample_of(
            data@,
        ),
        r matches Err(e) ==> e == EnftError::DimensionMismatch,
{
    let (width, height) = match image_dimensions(data) {
        Some((width, height)) => (width as usize, height as usize),
        None => {
            return Err(EnftError::DimensionMismatch);
        },
    };
    if !all_chunks_in_range(width, height, selected) {
        return Err(EnftError::DimensionMismatch);
    }
    let mut zeros: Vec<u8> = Vec::new();
    while zeros.len() < CHUNK_BYTES
        invariant
            zeros.len() <= CHUNK_BYTES,
            forall|t: int| 0 <= t < zeros.len() ==> zeros@[t] == 0,
        decreases CHUNK_BYTES - zeros.len(),
    {
        zeros.push(0);
    }
    let mut obfuscated_image = slice_to_vec(data);
    let mut values: Vec<u8> = Vec::new();
    let mut coordinates: Vec<(usize, usize)> = Vec::new();
    let ghost w = width as int;
    let mut n: usize = 0;
    assert(selected@.subrange(0, 0) =~= Seq::<(usize, usize)>::empty());
    while n < selected.len()
        invariant
            n <= selected.len(),
            w == width,
            data.len() == 8 + 4 * (height * width),
            chunks_in_range(w, height as int, selected@),
            zeros.len() == CHUNK_BYTES,
            forall|t: int| 0 <= t < zeros.len() ==> zeros@[t] == 0,
            coordinates@ == selected@.subrange(0, n as int),
            values@ == selected_values(data@, w, selected@.subrange(0, n as int)),
            obfuscated_image@ == obfuscated(data@, w, selected@.subrange(0, n as int)),
        decreases selected.len() - n,
    {
        let chunk = selected[n];
        proof {
            lemma_lengths(
                data@,
                w,
                selected@.subrange(0, n as int),
                Seq::empty(),
            );
        }
        let ghost before = obfuscated_image@;
        read_chunk(data, width, height, chunk, &mut values);
        write_chunk(&mut obfuscated_image, width, height, chunk, zeros.as_slice());
        coordinates.push(chunk);
        n += 1;
        proof {
            let prefix = selected@.subrange(0, n as int);
            assert(prefix.drop_last() =~= selected@.subrange(0, n - 1));
            assert(prefix.last() == chunk);
            assert(coordinates@ =~= prefix);
            assert(fill_chunk(before, w, chunk, zeros@) =~= clear_chunk(before, w, chunk)) by {
                assert forall|k: int|
                    0 <= k < before.len() && in_chunk(w, chunk, k) implies zeros@[offset_in_chunk(
                    w,
                    chunk,
                    k,
                )] == 0 by {
                    lemma_offset_in_chunk(w, chunk, k);
                }
            }
        }
    }
    assert(selected@.subrange(0, n as int) =~= selected@);
    Ok(
        PreprocessedImage {
            selected_coordinates: coordinates,
            selected_values: values,
            obfuscated_image,
        },
    )
}

/// Selects chunks at random from a grid of `rows` by `cols` chunks: a number
/// below `SAMPLING_RATE` is drawn for each chunk, row by row, and the chunks
/// are those that `select_chunks` takes for these draws.
pub fn choose_chunks(rows: usize, cols: usize, rng: &mut StdRng) -> (chunks: Vec<(usize, usize)>)
    ensures
        exists|draws: Seq<u32>|
            #[trigger] are_draws(draws, rows as int, cols as int) && chunks@ == selected_chunks(
                cols as int,
                draws,
            ),
        forall|n: int|
            0 <= n < chunks.len() ==> (#[trigger] chunks[n]).0 < rows && chunks[n].1 < cols,
        in_raster_order(chunks@),
        chunks.len() <= rows * cols,
{
    let mut draws: Vec<u32> = Vec::new();
    let mut i: usize = 0;
    while i < rows
        invariant
            i <= rows,
            draws.len() == i * cols,
            forall|k: int| 0 <= k < draws.len() ==> draws[k] < SAMPLING_RATE,
        decreases rows - i,
    {
        let mut j: usize = 0;
        while j < cols
            invariant
                i < rows,
                j <= cols,
                draws.len() == i * cols + j,
                forall|k: int| 0 <= k < draws.len() ==> draws[k] < SAMPLING_RATE,
            decreases cols - j,
        {
            let draw = random_below(rng, SAMPLING_RATE);
            draws.push(draw);
            j += 1;
        }
        assert(i * cols + cols == (i + 1) * cols) by (nonlinear_arith);
        i += 1;
    }
    assert(i * cols == rows * cols);
    let chunks = select_chunks(cols, draws.as_slice());
    proof {
        assert(are_draws(draws@, rows as int, cols as int));
        assert forall|n: int| 0 <= n < chunks.len() implies (#[trigger] chunks[n]).0 < rows by {
            let row = chunks[n].0 as int;
            let col = chunks[n].1 as int;
            assert(row < rows) by (nonlinear_arith)
                requires
                    row * cols + col < rows * cols,
                    0 <= col,
                    0 <= cols,
            ;
        }
    }
    chunks
}

/// Whether `draws` holds one number below `SAMPLING_RATE` for each chunk of a
/// grid of `rows` by `cols` chunks.
pub open spec fn are_draws(draws: Seq<u32>, rows: int, cols: int) -> bool {
    &&& draws.len() == rows * cols
    &&& forall|k: int| 0 <= k < draws.len() ==> draws[k] < SAMPLING_RATE
}

/// The chunks that `draws` select from a grid `cols` chunks wide. The draws
/// belong to the chunks row by row and, within a row, from left to right:
/// the draw at place `k` to the chunk in row `k / cols` and column
/// `k % cols`. A chunk is selected where its draw is 0, and the selected
/// chunks come in the order of their draws.
pub open spec fn selected_chunks(cols: int, draws: Seq<u32>) -> Seq<(usize, usize)>
    decreases draws.len(),
{
    if draws.len() == 0 || cols <= 0 {
        Seq::empty()
    } else {
        let earlier = selected_chunks(cols, draws.drop_last());
        let place = draws.len() - 1;
        if draws.last() == 0 {
            earlier.push(((place / cols) as usize, (place % cols) as usize))
        } else {
            earlier
        }
    }
}

/// Selects the chunks of a grid `cols` chunks wide whose draw is 0. There is
/// one draw for each chunk, row by row; a grid without columns has no
/// chunks.
pub fn select_chunks(cols: usize, draws: &[u32]) -> (chunks: Vec<(usize, usize)>)
    ensures
        chunks@ == selected_chunks(cols as int, draws@),
        forall|n: int|
            0 <= n < chunks.len() ==> (#[trigger] chunks[n]).1 < cols && chunks[n].0 * cols
                + chunks[n].1 < draws.len(),
        in_raster_order(chunks@),
        chunks.len() <= draws.len(),
{
    let mut chunks: Vec<(usize, usize)> = Vec::new();
    if cols == 0 {
        return chunks;
    }
    let mut place: usize = 0;
    let mut i: usize = 0;
    let mut j: usize = 0;
    assert(draws@.subrange(0, 0) =~= Seq::<u32>::empty());
    while place < draws.len()
        invariant
            cols > 0,
            place <= draws.len(),
            place == i * cols + j,
            j < cols,
            chunks@ == selected_chunks(cols as int, draws@.subrange(0, place as int)),
            forall|n: int|
                0 <= n < chunks.len() ==> (#[trigger] chunks[n]).1 < cols && chunks[n].0 * cols
                    + chunks[n].1 < place,
            forall|n: int|
                0 <= n < chunks.len() ==> (#[trigger] chunks[n]).0 < i || (chunks[n].0 == i
                    && chunks[n].1 < j),
            in_raster_order(chunks@),
            chunks.len() <= place,
        decreases draws.len() - place,
    {
        proof {
            let upto = draws@.subrange(0, place + 1);
            assert(upto.drop_last() =~= draws@.subrange(0, place as int));
            assert(upto.last() == draws@[place as int]);
            vstd::arithmetic::div_mod::lemma_fundamental_div_mod_converse_div(
                place as int,
                cols as int,
                i as int,
                j as int,
            );
            vstd::arithmetic::div_mod::lemma_fundamental_div_mod_converse_mod(
                place as int,
                cols as int,
                i as int,
                j as int,
            );
            assert((i + 1) * cols == i * cols + cols) by (nonlinear_arith);
        }
        if draws[place] == 0 {
            chunks.push((i, j));
        }
        place += 1;
        if j + 1 == cols {
            j = 0;
            i += 1;
        } else {
            j += 1;
        }
    }
    assert(draws@.subrange(0, place as int) =~= draws@);
    chunks
}

/// Puts an image into a buffer and takes chunks selected at random out of
/// it. It fails unless there are as many pixels as `width` and `height` ask
/// for. Which chunks are selected is up to `rng`; for those that are, the
/// result is what `sample_image` makes of them.
pub fn load_and_sample_image(
    width: u32,
    height: u32,
    rgba: &[u8],
    rng: &mut StdRng,
) -> (r: Result<PreprocessedImage, EnftError>)
    ensures
        r is Ok <==> rgba.len() == 4 * (height * width),
        r matches Ok(sample) ==> {
            &&& sample.is_sample_of(u32_be_bytes(width) + u32_be_bytes(height) + rgba@)
            &&& in_raster_order(sample.selected_coordinates@)
            &&& sample.selected_values.len() <= rgba.len()
        },
        r matches Err(e) ==> e == EnftError::DimensionMismatch,
{
    let loaded_image = match load_image(width, height, rgba) {
        Ok(image) => image,
        Err(e) => {
            return Err(e);
        },
    };
    let rows = height as usize / CHUNK_SIZE;
    let cols = width as usize / CHUNK_SIZE;
    let selected = choose_chunks(rows, cols, rng);
    proof {
        lemma_grid_fits(width as int, height as int, selected.len() as int);
        lemma_selected_values_len(loaded_image.data@, width as int, selected@);
    }
    sample_image(loaded_image.data.as_slice(), selected.as_slice())
}

/// Puts `values` back into the chunks `pixels` of an obfuscated image:
/// `CHUNK_BYTES` bytes into each chunk, in the order of the list. It fails
/// unless the image is an image buffer, the chunks lie within it and the
/// values are as many as the chunks take.
pub fn restore_image(obfuscated_image: &[u8], pixels: &[(usize, usize)], values: &[u8]) -> (r:
    Result<Vec<u8>, EnftError>)
    ensures
        match restore_result(obfuscated_image@, pixels@, values@) {
            Ok(image) => r matches Ok(v) && v@ == image,
            Err(e) => r matches Err(f) && f == e,
        },
{
    let (width, height) = match image_dimensions(obfuscated_image) {
        Some((width, height)) => (width as usize, height as usize),
        None => {
            return Err(EnftError::DimensionMismatch);
        },
    };
    if !all_chunks_in_range(width, height, pixels) {
        return Err(EnftError::DimensionMismatch);
    }
    if values.len() / CHUNK_BYTES != pixels.len() || values.len() % CHUNK_BYTES != 0 {
        return Err(EnftError::DimensionMismatch);
    }
    let mut recovered = slice_to_vec(obfuscated_image);
    let ghost w = width as int;
    let mut n: usize = 0;
    assert(pixels@.subrange(0, 0) =~= Seq::<(usize, usize)>::empty());
    while n < pixels.len()
        invariant
            n <= pixels.len(),
            w == width,
            obfuscated_image.len() == 8 + 4 * (height * width),
            chunks_in_range(w, height as int, pixels@),
            values.len() == pixels.len() * CHUNK_BYTES,
            recovered@ == restored(
                obfuscated_image@,
                w,
                pixels@.subrange(0, n as int),
                values@.subrange(0, n * CHUNK_BYTES),
            ),
        decreases pixels.len() - n,
    {
        let chunk = pixels[n];
        proof {
            lemma_lengths(
                obfuscated_image@,
                w,
                pixels@.subrange(0, n as int),
                values@.subrange(0, n * CHUNK_BYTES),
            );
        }
        let chunk_values = slice_subrange(values, n * CHUNK_BYTES, (n + 1) * CHUNK_BYTES);
        write_chunk(&mut recovered, width, height, chunk, chunk_values);
        n += 1;
        proof {
            let prefix = pixels@.subrange(0, n as int);
            let sofar = values@.subrange(0, n * CHUNK_BYTES);
            assert(prefix.drop_last() =~= pixels@.subrange(0, n - 1));
            assert(prefix.last() == chunk);
            assert(sofar.subrange(0, (n - 1) * CHUNK_BYTES) =~= values@.subrange(
                0,
                (n - 1) * CHUNK_BYTES,
            ));
            assert(sofar.subrange((n - 1) * CHUNK_BYTES, (n - 1) * CHUNK_BYTES + CHUNK_BYTES)
                =~= chunk_values@);
        }
    }
    assert(pixels@.subrange(0, n as int) =~= pixels@);
    assert(values@.subrange(0, n * CHUNK_BYTES) =~= values@);
    Ok(recovered)
}

/// Encrypts the bytes selected from an image under the cipher, with a nonce
/// drawn from `rng`, and puts them together with the list of their chunks.
pub fn encrypt_selection(
    cipher: &Aes256GcmCipher,
    selected_coordinates: Vec<(usize, usize)>,
    selected_values: &[u8],
    rng: &mut StdRng,
) -> (ciphertext: FullCipherText)
    requires
        selected_values.len() <= MAX_PLAINTEXT_LEN,
    ensures
        ciphertext.pixels@ == selected_coordinates@,
        ciphertext.data@ == aes_gcm_sealed(cipher.key(), ciphertext.iv@, selected_values@),
        aes_gcm_opened(cipher.key(), ciphertext.iv@, ciphertext.data@) == Some(selected_values@),
{
    let iv = random_nonce(rng);
    let data = cipher.encrypt(&iv, selected_values);
    FullCipherText { pixels: selected_coordinates, iv, data }
}

/// Hides parts of an image under a master key. Chunks of the image are
/// selected at random; the result is the obfuscated image, in which they are
/// zero, and the ciphertext that holds them, encrypted under the cipher of
/// the master key. It fails unless there are as many pixels as `width` and
/// `height` ask for. Whoever holds the master key recovers the image from
/// the two.
pub fn encrypt_image(
    width: u32,
    height: u32,
    rgba: &[u8],
    master_key: &GroupElement,
    rng: &mut StdRng,
) -> (r: Result<(Vec<u8>, FullCipherText), EnftError>)
    requires
        rgba.len() <= MAX_PLAINTEXT_LEN,
    ensures
        r is Ok <==> rgba.len() == 4 * (height * width),
        r matches Ok((obfuscated_image, ciphertext)) ==> {
            let image = u32_be_bytes(width) + u32_be_bytes(height) + rgba@;
            let key = cipher_key(master_key.encoding());
            &&& chunks_in_range(width as int, height as int, ciphertext.pixels@)
            &&& in_raster_order(ciphertext.pixels@)
            &&& obfuscated_image@ == obfuscated(image, width as int, ciphertext.pixels@)
            &&& ciphertext.data@ == aes_gcm_sealed(
                key,
                ciphertext.iv@,
                selected_values(image, width as int, ciphertext.pixels@),
            )
            &&& recover_result(
                obfuscated_image@,
                ciphertext.pixels@,
                ciphertext.iv@,
                ciphertext.data@,
                key,
            ) == Ok::<Seq<u8>, EnftError>(image)
        },
        r matches Err(e) ==> e == EnftError::DimensionMismatch,
{
    let sample = match load_and_sample_image(width, height, rgba, rng) {
        Ok(sample) => sample,
        Err(e) => {
            return Err(e);
        },
    };
    let cipher = msk_to_cipher(master_key);
    let ciphertext = encrypt_selection(
        &cipher,
        sample.selected_coordinates,
        sample.selected_values.as_slice(),
        rng,
    );
    proof {
        let image = u32_be_bytes(width) + u32_be_bytes(height) + rgba@;
        lemma_u32_be_bytes_value(width);
        lemma_u32_be_bytes_value(height);
        assert(image.subrange(0, 4) =~= u32_be_bytes(width));
        assert(image.subrange(4, 8) =~= u32_be_bytes(height));
        lemma_recover_inverts_sampling(
            image,
            ciphertext.pixels@,
            ciphertext.iv@,
            ciphertext.data@,
            cipher.key(),
        );
    }
    Ok((sample.obfuscated_image, ciphertext))
}

/// Take the obfuscated image, ciphertext and master key, and recover the
/// original image. The ciphertext is opened with the cipher of the master
/// key, and the bytes that come out are put back into their chunks. Nothing
/// is returned unless the ciphertext is authentic.
pub fn recover_image(
    obfuscated_image: &[u8],
    ciphertext: FullCipherText,
    master_key: GroupElement,
) -> (r: Result<Vec<u8>, EnftError>)
    ensures
        match recover_result(
            obfuscated_image@,
            ciphertext.pixels@,
            ciphertext.iv@,
            ciphertext.data@,
            cipher_key(master_key.encoding()),
        ) {
            Ok(image) => r matches Ok(v) && v@ == image,
            Err(e) => r matches Err(f) && f == e,
        },
{
    let cipher = msk_to_cipher(&master_key);
    let plaintext = match cipher.decrypt(&ciphertext.iv, ciphertext.data.as_slice()) {
        Ok(plaintext) => plaintext,
        Err(e) => {
            return Err(e);
        },
    };
    restore_image(obfuscated_image, ciphertext.pixels.as_slice(), plaintext.as_slice())
}

/// Recovering undoes sampling and encryption: from the obfuscated image and
/// a ciphertext that opens to the selected bytes, as every ciphertext does
/// that `encrypt_selection` makes of them, recovery with the same key gives
/// the original image, byte for byte.
pub proof fn lemma_recover_inverts_sampling(
    image: Seq<u8>,
    pixels: Seq<(usize, usize)>,
    iv: Seq<u8>,
    data: Seq<u8>,
    key: Seq<u8>,
)
    requires
        is_image(image),
        chunks_in_range(header_width(image), header_height(image), pixels),
        aes_gcm_opened(key, iv, data) == Some(
            selected_values(image, header_width(image), pixels),
        ),
    ensures
        recover_result(obfuscated(image, header_width(image), pixels), pixels, iv, data, key)
            == Ok::<Seq<u8>, EnftError>(image),
{
    let width = header_width(image);
    let hidden = obfuscated(image, width, pixels);
    let values = selected_values(image, width, pixels);
    lemma_obfuscation_keeps_header(image, width, pixels);
    lemma_selected_values_len(image, width, pixels);
    if pixels.len() == 0 {
        assert(restored(hidden, width, pixels, values) == image);
    } else {
        assert(chunk_in_range(width, header_height(image), pixels[0]));
        lemma_restore_inverts_obfuscation(image, width, pixels);
    }
}

} // verus!
