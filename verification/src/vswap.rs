//! VSWAP: the page file whose first chunks are the 64x64 wall textures.

use vstd::prelude::*;
use crate::bytes::{read_u16, read_u32, u16_at, u32_at};
use crate::data::{DataError, FormatError, WallTexture};

verus! {

/// Bytes in one wall page (64 x 64 texels).
pub const WALL_PAGE_BYTES: usize = 4096;

/// Byte at which the chunk offset table starts.
pub const OFFSET_TABLE_START: usize = 6;

/// What chunk `i` contributes when the file holds `chunk_count` chunks: nothing (an
/// empty slot, or a chunk shorter than a page), its first page, or an error.
pub open spec fn wall_chunk(vswap: Seq<u8>, chunk_count: int, i: int) -> Result<
    Option<Seq<u8>>,
    FormatError,
> {
    let offset = u32_at(vswap, OFFSET_TABLE_START + 4 * i) as int;
    let length = u16_at(vswap, OFFSET_TABLE_START + 4 * chunk_count + 2 * i) as int;
    if offset == 0 || length == 0 {
        Ok(None)
    } else if offset + length > usize::MAX {
        Err(FormatError::ChunkBoundsOverflow)
    } else if offset + length > vswap.len() {
        Err(FormatError::WallChunkOutOfBounds(i as usize))
    } else if length < WALL_PAGE_BYTES {
        Ok(None)
    } else {
        Ok(Some(vswap.subrange(offset, offset + WALL_PAGE_BYTES)))
    }
}

/// The wall pages among the first `n` chunks, or the first error among them.
pub open spec fn wall_pages_upto(vswap: Seq<u8>, chunk_count: int, n: nat) -> Result<
    Seq<Seq<u8>>,
    FormatError,
>
    decreases n,
{
    if n == 0 {
        Ok(Seq::empty())
    } else {
        match wall_pages_upto(vswap, chunk_count, (n - 1) as nat) {
            Err(kind) => Err(kind),
            Ok(pages) => match wall_chunk(vswap, chunk_count, n - 1) {
                Err(kind) => Err(kind),
                Ok(None) => Ok(pages),
                Ok(Some(page)) => Ok(pages.push(page)),
            },
        }
    }
}

/// The wall pages of a VSWAP file: those among the chunks before the first sprite.
pub open spec fn wall_pages(vswap: Seq<u8>) -> Result<Seq<Seq<u8>>, FormatError> {
    if vswap.len() < OFFSET_TABLE_START {
        Err(FormatError::VswapHeaderTooShort)
    } else {
        let chunk_count = u16_at(vswap, 0) as int;
        let sprite_start = u16_at(vswap, 2) as int;
        if OFFSET_TABLE_START + 6 * chunk_count > vswap.len() {
            Err(FormatError::VswapTablesTooLarge)
        } else {
            let wall_count = if sprite_start < chunk_count {
                sprite_start
            } else {
                chunk_count
            };
            wall_pages_upto(vswap, chunk_count, wall_count as nat)
        }
    }
}

/// The texels of each texture, in order.
pub open spec fn texels_of(textures: Seq<WallTexture>) -> Seq<Seq<u8>> {
    textures.map_values(|texture: WallTexture| texture.texels@)
}

/// Once an error occurs among the first `i` chunks, it is the error for any longer prefix.
pub proof fn lemma_wall_error_persists(vswap: Seq<u8>, chunk_count: int, i: nat, n: nat)
    requires
        i <= n,
        wall_pages_upto(vswap, chunk_count, i) is Err,
    ensures
        wall_pages_upto(vswap, chunk_count, n) == wall_pages_upto(vswap, chunk_count, i),
    decreases n - i,
{
    if i < n {
        lemma_wall_error_persists(vswap, chunk_count, i, (n - 1) as nat);
    }
}

/// How many of the first `i` chunks hold a wall page.
pub open spec fn pages_before(vswap: Seq<u8>, chunk_count: int, i: nat) -> nat
    decreases i,
{
    if i == 0 {
        0
    } else {
        pages_before(vswap, chunk_count, (i - 1) as nat) + if wall_chunk(
            vswap,
            chunk_count,
            i - 1,
        ) matches Ok(Some(_)) {
            1nat
        } else {
            0nat
        }
    }
}

/// Wall pages keep chunk order: the result holds one page per chunk that has one, and
/// the page of chunk `i` comes after exactly the pages of the chunks before it.
pub proof fn lemma_wall_pages_in_chunk_order(vswap: Seq<u8>, chunk_count: int, n: nat)
    ensures
        wall_pages_upto(vswap, chunk_count, n) matches Ok(pages) ==> {
            &&& pages.len() == pages_before(vswap, chunk_count, n)
            &&& forall|i: nat|
                i < n ==> (#[trigger] wall_chunk(vswap, chunk_count, i as int) matches Ok(
                    Some(page),
                ) ==> pages_before(vswap, chunk_count, i) < pages.len() && pages[pages_before(
                    vswap,
                    chunk_count,
                    i,
                ) as int] == page)
        },
    decreases n,
{
    if n > 0 {
        let m = (n - 1) as nat;
        lemma_wall_pages_in_chunk_order(vswap, chunk_count, m);
        if let Ok(pages) = wall_pages_upto(vswap, chunk_count, n) {
            let prev = wall_pages_upto(vswap, chunk_count, m)->Ok_0;
            assert(wall_pages_upto(vswap, chunk_count, m) is Ok);
            assert forall|i: nat|
                i < n && (#[trigger] wall_chunk(vswap, chunk_count, i as int) matches Ok(
                    Some(page),
                )) implies pages_before(vswap, chunk_count, i) < pages.len() && pages[pages_before(
                vswap,
                chunk_count,
                i,
            ) as int] == wall_chunk(vswap, chunk_count, i as int)->Ok_0->Some_0 by {
                if i < m {
                    assert(wall_chunk(vswap, chunk_count, i as int) matches Ok(Some(_)));
                }
            }
        }
    }
}

/// When every chunk before the sprites is a full wall page, wall page `i` is chunk `i`'s.
pub proof fn lemma_full_wall_pages(vswap: Seq<u8>, chunk_count: int, n: nat)
    requires
        forall|i: int| 0 <= i < n ==> #[trigger] wall_chunk(vswap, chunk_count, i) is Ok
            && wall_chunk(vswap, chunk_count, i)->Ok_0 is Some,
    ensures
        wall_pages_upto(vswap, chunk_count, n) matches Ok(pages) && pages.len() == n && forall|
            i: int,
        |
            0 <= i < n ==> #[trigger] pages[i] == wall_chunk(vswap, chunk_count, i)->Ok_0->Some_0,
    decreases n,
{
    if n > 0 {
        lemma_full_wall_pages(vswap, chunk_count, (n - 1) as nat);
        assert(wall_chunk(vswap, chunk_count, n - 1) is Ok);
    }
}

/// Byte `r` (least significant first) of `value`.
pub open spec fn le_byte(value: int, r: int) -> u8 {
    if r == 0 {
        (value % 256) as u8
    } else if r == 1 {
        ((value / 256) % 256) as u8
    } else if r == 2 {
        ((value / 65536) % 256) as u8
    } else {
        ((value / 16777216) % 256) as u8
    }
}

/// Where the data of a VSWAP file holding `n` chunks starts: after the six header
/// bytes, the offset table and the length table.
pub open spec fn image_data_start(n: int) -> int {
    6 + 6 * n
}

/// Byte `p` of the VSWAP file a writer makes from full wall pages `pages`: the chunk
/// count and first sprite chunk (both the number of pages, so there are no sprites),
/// the offset of each page, the length of each page, then the pages one after another.
pub open spec fn image_byte(pages: Seq<Seq<u8>>, p: int) -> u8 {
    let n = pages.len() as int;
    if p < 6 {
        le_byte(n, p % 2)
    } else if p < 6 + 4 * n {
        le_byte(image_data_start(n) + WALL_PAGE_BYTES * ((p - 6) / 4), (p - 6) % 4)
    } else if p < image_data_start(n) {
        le_byte(WALL_PAGE_BYTES as int, (p - 6 - 4 * n) % 2)
    } else {
        let q = p - image_data_start(n);
        pages[q / WALL_PAGE_BYTES as int][q % WALL_PAGE_BYTES as int]
    }
}

/// The VSWAP file a writer makes from full wall pages.
pub open spec fn vswap_image(pages: Seq<Seq<u8>>) -> Seq<u8> {
    Seq::new(
        (image_data_start(pages.len() as int) + WALL_PAGE_BYTES * pages.len()) as nat,
        |p: int| image_byte(pages, p),
    )
}

proof fn lemma_le16(v: int)
    requires
        0 <= v < 65536,
    ensures
        le_byte(v, 0) + 256 * le_byte(v, 1) == v,
{
}

proof fn lemma_le32(v: int)
    requires
        0 <= v < 0x1_0000_0000,
    ensures
        le_byte(v, 0) + 256 * le_byte(v, 1) + 65536 * le_byte(v, 2) + 16777216 * le_byte(v, 3)
            == v,
{
}

/// Reading a VSWAP file gives back the wall pages it was written from, in order.
pub proof fn lemma_vswap_round_trip(pages: Seq<Seq<u8>>)
    requires
        pages.len() < 65536,
        forall|i: int| 0 <= i < pages.len() ==> (#[trigger] pages[i]).len() == WALL_PAGE_BYTES,
    ensures
        wall_pages(vswap_image(pages)) == Ok::<Seq<Seq<u8>>, FormatError>(pages),
{
    let n = pages.len() as int;
    let img = vswap_image(pages);
    let start = image_data_start(n);
    lemma_le16(n);
    lemma_le16(WALL_PAGE_BYTES as int);
    assert(img.len() == start + 4096 * n);
    assert(u16_at(img, 0) == n) by {
        assert(img[0] == le_byte(n, 0));
        assert(img[1] == le_byte(n, 1));
    }
    assert(u16_at(img, 2) == n) by {
        assert(img[2] == le_byte(n, 0));
        assert(img[3] == le_byte(n, 1));
    }
    assert forall|i: int| 0 <= i < n implies #[trigger] wall_chunk(img, n, i) == Ok::<
        Option<Seq<u8>>,
        FormatError,
    >(Some(pages[i])) by {
        let offset = start + 4096 * i;
        assert(offset + 4096 <= img.len()) by (nonlinear_arith)
            requires
                0 <= i < n,
                offset == start + 4096 * i,
                img.len() == start + 4096 * n,
        ;
        assert(offset < 0x1_0000_0000) by (nonlinear_arith)
            requires
                0 <= i < n,
                n < 65536,
                offset == 6 + 6 * n + 4096 * i,
        ;
        lemma_le32(offset);
        let o = 6 + 4 * i;
        assert forall|r: int| 0 <= r < 4 implies #[trigger] img[o + r] == le_byte(offset, r) by {
            assert((o + r - 6) / 4 == i && (o + r - 6) % 4 == r);
        }
        assert(u32_at(img, o) == offset) by {
            assert(img[o] == le_byte(offset, 0));
            assert(img[o + 1] == le_byte(offset, 1));
            assert(img[o + 2] == le_byte(offset, 2));
            assert(img[o + 3] == le_byte(offset, 3));
        }
        let l = 6 + 4 * n + 2 * i;
        assert(img[l] == le_byte(4096, 0)) by {
            assert((l - 6 - 4 * n) % 2 == 0);
        }
        assert(img[l + 1] == le_byte(4096, 1)) by {
            assert((l + 1 - 6 - 4 * n) % 2 == 1);
        }
        assert(u16_at(img, l) == 4096);
        assert(img.subrange(offset, offset + 4096) =~= pages[i]) by {
            assert forall|q: int| 0 <= q < 4096 implies #[trigger] img.subrange(
                offset,
                offset + 4096,
            )[q] == pages[i][q] by {
                assert((4096 * i + q) / 4096 == i && (4096 * i + q) % 4096 == q) by (nonlinear_arith)
                    requires
                        0 <= q < 4096,
                        0 <= i,
                ;
                assert(img[offset + q] == image_byte(pages, offset + q));
            }
        }
    }
    lemma_full_wall_pages(img, n, n as nat);
    if let Ok(found) = wall_pages_upto(img, n, n as nat) {
        assert(found =~= pages);
    }
}

/// Reads the wall textures out of the bytes of a VSWAP file.
pub fn load_wall_textures(vswap: &[u8]) -> (r: Result<Vec<WallTexture>, DataError>)
    ensures
        match wall_pages(vswap@) {
            Ok(pages) => r matches Ok(walls) && texels_of(walls@) == pages,
            Err(kind) => r == Err::<Vec<WallTexture>, DataError>(DataError::InvalidFormat(kind)),
        },
{
    let total = vswap.len();
    if total < 6 {
        return Err(DataError::InvalidFormat(FormatError::VswapHeaderTooShort));
    }

    let chunk_count = match read_u16(vswap, 0) {
        Ok(value) => value as usize,
        Err(error) => return Err(error),
    };
    let sprite_start = match read_u16(vswap, 2) {
        Ok(value) => value as usize,
        Err(error) => return Err(error),
    };

    let offset_table_start = OFFSET_TABLE_START;
    let offset_table_size = chunk_count * 4;
    let length_table_start = offset_table_start + offset_table_size;
    let length_table_size = chunk_count * 2;

    if length_table_start + length_table_size > total {
        return Err(DataError::InvalidFormat(FormatError::VswapTablesTooLarge));
    }

    let wall_chunk_count = if sprite_start < chunk_count {
        sprite_start
    } else {
        chunk_count
    };
    let mut walls: Vec<WallTexture> = Vec::with_capacity(wall_chunk_count);
    let ghost cc = chunk_count as int;
    assert(texels_of(walls@) =~= Seq::<Seq<u8>>::empty());
    assert(wall_pages(vswap@) == wall_pages_upto(vswap@, cc, wall_chunk_count as nat));

    for i in 0..wall_chunk_count
        invariant
            total == vswap@.len(),
            cc == chunk_count,
            wall_pages(vswap@) == wall_pages_upto(vswap@, cc, wall_chunk_count as nat),
            offset_table_start == OFFSET_TABLE_START,
            chunk_count == u16_at(vswap@, 0),
            wall_chunk_count <= chunk_count,
            length_table_start == OFFSET_TABLE_START + 4 * chunk_count,
            OFFSET_TABLE_START + 6 * chunk_count <= total,
            wall_pages_upto(vswap@, cc, i as nat) == Ok::<Seq<Seq<u8>>, FormatError>(
                texels_of(walls@),
            ),
    {
        assert(i < chunk_count);
        assert(offset_table_start + i * 4 + 4 <= total);
        let offset = match read_u32(vswap, offset_table_start + i * 4) {
            Ok(value) => value as usize,
            Err(error) => return Err(error),
        };
        let length = match read_u16(vswap, length_table_start + i * 2) {
            Ok(value) => value as usize,
            Err(error) => return Err(error),
        };

        if offset != 0 && length != 0 {
            let end = match offset.checked_add(length) {
                Some(end) => end,
                None => {
                    proof {
                        lemma_wall_error_persists(
                            vswap@,
                            cc,
                            (i + 1) as nat,
                            wall_chunk_count as nat,
                        );
                    }
                    return Err(DataError::InvalidFormat(FormatError::ChunkBoundsOverflow));
                },
            };

            if end > total {
                proof {
                    lemma_wall_error_persists(
                        vswap@,
                        cc,
                        (i + 1) as nat,
                        wall_chunk_count as nat,
                    );
                }
                return Err(DataError::InvalidFormat(FormatError::WallChunkOutOfBounds(i)));
            }

            if length >= WALL_PAGE_BYTES {
                let page = vstd::slice::slice_subrange(vswap, offset, offset + WALL_PAGE_BYTES);
                let texels = vstd::slice::slice_to_vec(page);
                let ghost before = walls@;
                walls.push(WallTexture { texels });
                assert(texels_of(walls@) =~= texels_of(before).push(texels@));
            }
        }
    }

    Ok(walls)
}

} // verus!
