//! Checksums of image files.
use vstd::prelude::*;
use crate::model::{Image, ImageEntry, ImageView, entries_view, keys_distinct};

verus! {

/// One step of the bitwise CRC-32 (IEEE) division on the reflected
/// register: shift right by one bit, and add the reflected polynomial
/// 0xEDB88320 when the bit shifted out was set.
pub open spec fn crc32_shift(c: u32) -> u32 {
    if c & 1 == 1 {
        (c >> 1u32) ^ 0xEDB8_8320u32
    } else {
        c >> 1u32
    }
}

/// The register after the byte `b`: the byte is added into the low bits
/// and followed by eight steps of the division.
pub open spec fn crc32_byte(c: u32, b: u8) -> u32 {
    crc32_shift(crc32_shift(crc32_shift(crc32_shift(crc32_shift(crc32_shift(crc32_shift(
        crc32_shift(c ^ (b as u32)),
    )))))))
}

/// The register after the bytes of `data`, from the all-ones start.
pub open spec fn crc32_register(data: Seq<u8>) -> u32
    decreases data.len(),
{
    if data.len() == 0 {
        0xFFFF_FFFFu32
    } else {
        crc32_byte(crc32_register(data.drop_last()), data.last())
    }
}

/// The CRC-32 (IEEE) checksum of `data`: the register after `data`, with
/// all its bits inverted.
pub open spec fn crc32(data: Seq<u8>) -> u32 {
    crc32_register(data) ^ 0xFFFF_FFFFu32
}

proof fn lemma_register_take(d: Seq<u8>, k: int)
    requires
        0 <= k < d.len(),
    ensures
        crc32_register(d.take(k + 1)) == crc32_byte(crc32_register(d.take(k)), d[k]),
{
    assert(d.take(k + 1).drop_last() =~= d.take(k));
}

/// The checksum of the nine bytes of "123456789" is 0xCBF43926, the check
/// value by which CRC-32 (IEEE) is known.
pub proof fn crc32_check_value()
    ensures
        crc32(seq![0x31u8, 0x32u8, 0x33u8, 0x34u8, 0x35u8, 0x36u8, 0x37u8, 0x38u8, 0x39u8])
            == 0xCBF4_3926u32,
{
    let d = seq![0x31u8, 0x32u8, 0x33u8, 0x34u8, 0x35u8, 0x36u8, 0x37u8, 0x38u8, 0x39u8];
    assert(crc32_byte(0xFFFF_FFFFu32, 0x31u8) == 0x7c231048u32) by (bit_vector);
    assert(crc32_byte(0x7c231048u32, 0x32u8) == 0xb0acbb32u32) by (bit_vector);
    assert(crc32_byte(0xb0acbb32u32, 0x33u8) == 0x77b79c2du32) by (bit_vector);
    assert(crc32_byte(0x77b79c2du32, 0x34u8) == 0x641c1f5cu32) by (bit_vector);
    assert(crc32_byte(0x641c1f5cu32, 0x35u8) == 0x340ac5e3u32) by (bit_vector);
    assert(crc32_byte(0x340ac5e3u32, 0x36u8) == 0xf68d2c9eu32) by (bit_vector);
    assert(crc32_byte(0xf68d2c9eu32, 0x37u8) == 0xaffc9660u32) by (bit_vector);
    assert(crc32_byte(0xaffc9660u32, 0x38u8) == 0x651f2550u32) by (bit_vector);
    assert(crc32_byte(0x651f2550u32, 0x39u8) == 0x340bc6d9u32) by (bit_vector);
    assert(d.take(0) =~= Seq::<u8>::empty());
    lemma_register_take(d, 0);
    lemma_register_take(d, 1);
    lemma_register_take(d, 2);
    lemma_register_take(d, 3);
    lemma_register_take(d, 4);
    lemma_register_take(d, 5);
    lemma_register_take(d, 6);
    lemma_register_take(d, 7);
    lemma_register_take(d, 8);
    assert(d.take(9) =~= d);
    assert(0x340bc6d9u32 ^ 0xFFFF_FFFFu32 == 0xCBF4_3926u32) by (bit_vector);
}

/// Trusted: calls `crc32fast::hash`, which feeds `buf` to a new
/// `crc32fast::Hasher` and returns its checksum. Claimed: the result is the
/// CRC-32 (IEEE) checksum of the bytes of `buf`, which the crate's
/// documentation names as what it computes.
#[verifier::external_body]
fn crc32_hash(buf: &[u8]) -> (r: u32)
    ensures
        r == crc32(buf@),
{
    crc32fast::hash(buf)
}

/// The checksum of the contents of an image file.
pub fn hash_contents(contents: &[u8]) -> (r: u32)
    ensures
        r == crc32(contents@),
{
    crc32_hash(contents)
}

/// An image after its file was read: with the checksum of `contents` when
/// the file could be read, else as it was.
pub open spec fn hashed_image(img: ImageView, contents: Option<Seq<u8>>) -> ImageView {
    match contents {
        Some(c) => ImageView { hash: Some(crc32(c)), ..img },
        None => img,
    }
}

/// Reading a file records the CRC-32 checksum of its contents, whatever
/// checksum the image had, and changes nothing else; a file that could not
/// be read leaves the image as it was.
pub proof fn law_hashed_image_records_the_checksum(img: ImageView, c: Seq<u8>)
    ensures
        hashed_image(img, Some(c)).hash == Some(crc32(c)),
        hashed_image(img, Some(c)).media_type == img.media_type,
        hashed_image(img, Some(c)).comment == img.comment,
        hashed_image(img, Some(c)).image_path == img.image_path,
        hashed_image(img, Some(c)).original_path == img.original_path,
        hashed_image(img, None) == img,
{
}

/// Records the checksum of the contents of the image's file, when the file
/// could be read (`contents` is `Some`); leaves the image as it was when it
/// could not.
pub fn record_image_hash(image: &mut Image, contents: Option<&[u8]>)
    ensures
        final(image)@ == hashed_image(
            old(image)@,
            match contents {
                Some(c) => Some(c@),
                None => None,
            },
        ),
{
    match contents {
        Some(c) => {
            image.hash = Some(hash_contents(c));
        },
        None => {},
    }
}

/// The contents of a file as a plain value: `None` when it could not be read.
pub open spec fn contents_view(c: Option<Vec<u8>>) -> Option<Seq<u8>> {
    match c {
        Some(v) => Some(v@),
        None => None,
    }
}

/// Records, for each entry of the master image map in turn, the checksum of
/// the contents of its image's file. `read` is called once for each entry,
/// with the path of its image, and gives the contents of that file, or
/// `None` when it could not be read; the entry then stays as it was. Keys
/// and order are kept.
pub fn generate_image_hash<F: Fn(&String) -> Option<Vec<u8>>>(
    master_image_map: &mut Vec<ImageEntry>,
    read: F,
)
    requires
        forall|p: &String| call_requires(read, (p,)),
    ensures
        final(master_image_map)@.len() == old(master_image_map)@.len(),
        forall|i: int|
            0 <= i < old(master_image_map)@.len() ==> {
                &&& (#[trigger] final(master_image_map)@[i])@.key == old(master_image_map)@[i]@.key
                &&& exists|c: Option<Vec<u8>>|
                    {
                        &&& call_ensures(read, (&old(master_image_map)@[i].image.image_path,), c)
                        &&& final(master_image_map)@[i]@.image == hashed_image(
                            old(master_image_map)@[i]@.image,
                            contents_view(c),
                        )
                    }
            },
        keys_distinct(entries_view(old(master_image_map)@)) ==> keys_distinct(
            entries_view(final(master_image_map)@),
        ),
{
    let mut all: Vec<ImageEntry> = Vec::new();
    std::mem::swap(master_image_map, &mut all);
    let ghost orig = all@;
    for entry in it: all
        invariant
            it.seq() == orig,
            forall|p: &String| call_requires(read, (p,)),
            master_image_map@.len() == it.index(),
            forall|j: int|
                0 <= j < it.index() ==> {
                    &&& (#[trigger] master_image_map@[j])@.key == orig[j]@.key
                    &&& exists|c: Option<Vec<u8>>|
                        {
                            &&& call_ensures(read, (&orig[j].image.image_path,), c)
                            &&& master_image_map@[j]@.image == hashed_image(
                                orig[j]@.image,
                                contents_view(c),
                            )
                        }
                },
    {
        proof {
            assert(entry == orig[it.index()]);
        }
        let ImageEntry { key, mut image } = entry;
        let contents = read(&image.image_path);
        let ghost before = image@;
        match &contents {
            Some(c) => record_image_hash(&mut image, Some(c.as_slice())),
            None => record_image_hash(&mut image, None),
        }
        proof {
            assert(image@ == hashed_image(before, contents_view(contents)));
        }
        master_image_map.push(ImageEntry { key, image });
    }
    proof {
        let o = entries_view(orig);
        let n = entries_view(master_image_map@);
        if keys_distinct(o) {
            assert forall|i: int, j: int| 0 <= i < j < n.len() implies #[trigger] n[i].key
                != #[trigger] n[j].key by {
                assert(n[i].key == o[i].key);
                assert(n[j].key == o[j].key);
            }
        }
    }
}

} // verus!
