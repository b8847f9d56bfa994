//! The decisions of the export: where each album and image goes, how many
//! images are copied, and what the checks after a copy conclude.
use vstd::prelude::*;
use crate::model::{Album, Image, str_eq};
use crate::paths::{joined_path, path_join};
use crate::text::push_char;

verus! {

/// Whether `c` cannot stand in a folder name: '*' or '/'.
pub open spec fn is_char_to_fix(c: char) -> bool {
    c == '*' || c == '/'
}

/// The folder name of an album: its name with each '*' and '/' replaced by '-'.
pub open spec fn album_folder_name(name: Seq<char>) -> Seq<char> {
    name.map_values(|c: char| if is_char_to_fix(c) { '-' } else { c })
}

/// The folder name of an album named `name`: `name` with each '*' and '/'
/// replaced by '-'.
pub fn fix_album_name(name: &str) -> (r: String)
    ensures
        r@ == album_folder_name(name@),
{
    let mut r = String::new();
    let ghost s = name@;
    for c in it: name.chars()
        invariant
            it.seq() == s,
            r@ == album_folder_name(s.take(it.index())),
    {
        if c == '*' || c == '/' {
            push_char(&mut r, '-');
        } else {
            push_char(&mut r, c);
        }
        proof {
            assert(r@ =~= album_folder_name(s.take(it.index() + 1)));
        }
    }
    proof {
        assert(s.take(s.len() as int) =~= s);
    }
    r
}

/// A folder name is as long as the album name and holds neither '*' nor '/'.
pub proof fn law_album_folder_name_is_clean(name: Seq<char>)
    ensures
        album_folder_name(name).len() == name.len(),
        forall|i: int|
            0 <= i < name.len() ==> !is_char_to_fix(#[trigger] album_folder_name(name)[i]),
        forall|i: int|
            0 <= i < name.len() && !is_char_to_fix(name[i]) ==> #[trigger] album_folder_name(name)[i]
                == name[i],
{
}

/// The folder into which the images of the album named `album_name` are
/// copied: the album's folder name below `stage_path`.
pub fn album_path(stage_path: &str, album_name: &str) -> (r: String)
    ensures
        r@ == joined_path(stage_path@, album_folder_name(album_name@)),
{
    let folder = fix_album_name(album_name);
    path_join(stage_path, folder.as_str())
}

/// The number of keys that the albums list, counted with repetition.
pub open spec fn total_keys(albums: Seq<Album>) -> nat
    decreases albums.len(),
{
    if albums.len() == 0 {
        0
    } else {
        total_keys(albums.drop_last()) + albums.last().key_list@.len()
    }
}

/// The number of images that the export copies: the number of keys that the
/// albums list.
pub fn total_photos_to_copy(albums: &Vec<Album>) -> (r: usize)
    requires
        total_keys(albums@) <= usize::MAX,
    ensures
        r == total_keys(albums@),
{
    let mut total: usize = 0;
    let mut i: usize = 0;
    while i < albums.len()
        invariant
            i <= albums.len(),
            total == total_keys(albums@.take(i as int)),
            total_keys(albums@) <= usize::MAX,
        decreases albums.len() - i,
    {
        proof {
            assert(albums@.take(i + 1).drop_last() =~= albums@.take(i as int));
            lemma_total_keys_prefix(albums@, i + 1);
        }
        total = total + albums[i].key_list.len();
        i = i + 1;
    }
    proof {
        assert(albums@.take(albums.len() as int) =~= albums@);
    }
    total
}

proof fn lemma_total_keys_prefix(albums: Seq<Album>, n: int)
    requires
        0 <= n <= albums.len(),
    ensures
        total_keys(albums.take(n)) <= total_keys(albums),
    decreases albums.len(),
{
    if n < albums.len() {
        assert(albums.drop_last().take(n) =~= albums.take(n));
        lemma_total_keys_prefix(albums.drop_last(), n);
    } else {
        assert(albums.take(n) =~= albums);
    }
}

/// The name that the copy of an image takes: its key, '_' and the file name
/// of the image.
pub open spec fn copy_file_name(id: Seq<char>, file_name: Seq<char>) -> Seq<char> {
    id + "_"@ + file_name
}

/// The path of the copy of the image with key `id` and file name
/// `file_name` in the folder `album_path`.
pub fn copy_destination(album_path: &str, id: &str, file_name: &str) -> (r: String)
    ensures
        r@ == joined_path(album_path@, copy_file_name(id@, file_name@)),
{
    let mut name = String::from_str(id);
    name.append("_");
    name.append(file_name);
    path_join(album_path, name.as_str())
}

/// What the check after a copy concludes.
pub enum CopyCheck {
    /// The checksum of the file matches the one recorded for the image.
    Matches,
    /// The checksum of the file differs from the one recorded for the image.
    Mismatch,
    /// No checksum was recorded for the image.
    NoChecksum,
}

/// Compares the checksum of a copied file with the one recorded for its
/// image.
pub fn check_copy(copy_hash: u32, image_hash: Option<u32>) -> (r: CopyCheck)
    ensures
        match image_hash {
            Some(h) => if h == copy_hash {
                r is Matches
            } else {
                r is Mismatch
            },
            None => r is NoChecksum,
        },
{
    match image_hash {
        Some(h) => if h == copy_hash {
            CopyCheck::Matches
        } else {
            CopyCheck::Mismatch
        },
        None => CopyCheck::NoChecksum,
    }
}

/// Whether the comment of an image is written into the metadata of its copy:
/// the image is a still image ("Image") with a comment that is not empty.
pub fn needs_comment(image: &Image) -> (r: bool)
    ensures
        r == (image.media_type@ == "Image"@ && image.comment@.len() > 0),
{
    str_eq(&image.media_type, "Image") && !image.comment.as_str().is_empty()
}

/// The count of a list of albums made of two lists is the sum of their
/// counts.
pub proof fn law_total_keys_adds_up(a: Seq<Album>, b: Seq<Album>)
    ensures
        total_keys(a + b) == total_keys(a) + total_keys(b),
    decreases b.len(),
{
    if b.len() == 0 {
        assert(a + b =~= a);
    } else {
        assert((a + b).drop_last() =~= a + b.drop_last());
        assert((a + b).last() == b.last());
        law_total_keys_adds_up(a, b.drop_last());
    }
}

/// No album counts nothing, and one album counts the keys it lists.
pub proof fn law_total_keys_of_one_album(x: Album)
    ensures
        total_keys(Seq::<Album>::empty()) == 0,
        total_keys(seq![x]) == x.key_list@.len(),
{
    assert(seq![x].drop_last() =~= Seq::<Album>::empty());
}

/// In a folder name, each '*' and each '/' of the album name becomes '-',
/// and every other character stays as it is.
pub proof fn law_album_folder_name_replaces_star_and_slash(name: Seq<char>, i: int)
    requires
        0 <= i < name.len(),
    ensures
        album_folder_name(name).len() == name.len(),
        (name[i] == '*' || name[i] == '/') ==> album_folder_name(name)[i] == '-',
        (name[i] != '*' && name[i] != '/') ==> album_folder_name(name)[i] == name[i],
{
}

} // verus!
