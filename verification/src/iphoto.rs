//! Turning the master image list of `AlbumData.xml` into the library's
//! model, and rebasing its image paths.
use vstd::prelude::*;
use crate::model::{
    Album, AlbumData, Image, ImageEntry, ImageView, ImageEntryView, entries_view, keys_distinct,
    opt_view, str_eq,
};
use crate::paths::{fix_path, fixed_path};

verus! {

/// The value of one entry of a property-list dictionary: a string, or a
/// value of any other kind.
pub enum FieldValue {
    Text(String),
    Other,
}

/// One entry of a property-list dictionary.
pub struct Field {
    pub key: String,
    pub value: FieldValue,
}

/// The value that the master image list holds for an image: a dictionary of
/// fields, or a value of any other kind.
pub enum ImageRecord {
    Dictionary(Vec<Field>),
    Other,
}

/// One entry of the master image list as `AlbumData.xml` stores it.
pub struct ImageListEntry {
    pub key: String,
    pub record: ImageRecord,
}

/// The data of `AlbumData.xml` as it is read: its archive id, its list of
/// albums and its master image list.
pub struct AlbumDataInternal {
    pub archive_id: String,
    pub list_of_albums: Vec<Album>,
    pub master_image_list: Vec<ImageListEntry>,
}

/// What the dictionary `fields` holds under `key`: nothing, a string
/// (`Some(Some(..))`) or a value of another kind (`Some(None)`).
pub open spec fn field_text(fields: Seq<Field>, key: Seq<char>) -> Option<Option<Seq<char>>>
    decreases fields.len(),
{
    if fields.len() == 0 {
        None
    } else if fields[0].key@ == key {
        match fields[0].value {
            FieldValue::Text(t) => Some(Some(t@)),
            FieldValue::Other => Some(None),
        }
    } else {
        field_text(fields.drop_first(), key)
    }
}

/// Whether an image record can be read: it is a dictionary whose
/// "MediaType", "Comment" and "ImagePath" are strings and whose
/// "OriginalPath", if there is one, is a string.
pub open spec fn is_readable_record(r: ImageRecord) -> bool {
    match r {
        ImageRecord::Dictionary(fields) => {
            &&& field_text(fields@, "MediaType"@) matches Some(Some(_))
            &&& field_text(fields@, "Comment"@) matches Some(Some(_))
            &&& field_text(fields@, "ImagePath"@) matches Some(Some(_))
            &&& field_text(fields@, "OriginalPath"@) != Some(None::<Seq<char>>)
        },
        ImageRecord::Other => false,
    }
}

/// Why an image record cannot be read.
pub enum RecordError {
    /// The record is not a dictionary.
    NotADictionary,
    /// The dictionary lacks the named field.
    MissingField(String),
    /// The named field holds a value that is not a string.
    NotAString(String),
}

/// The mathematical value of a [`RecordError`].
pub ghost enum RecordErrorView {
    NotADictionary,
    MissingField(Seq<char>),
    NotAString(Seq<char>),
}

impl View for RecordError {
    type V = RecordErrorView;

    open spec fn view(&self) -> RecordErrorView {
        match self {
            RecordError::NotADictionary => RecordErrorView::NotADictionary,
            RecordError::MissingField(f) => RecordErrorView::MissingField(f@),
            RecordError::NotAString(f) => RecordErrorView::NotAString(f@),
        }
    }
}

/// What is wrong with a required field of a dictionary, if anything.
pub open spec fn required_field_error(fields: Seq<Field>, key: Seq<char>) -> Option<RecordErrorView> {
    match field_text(fields, key) {
        None => Some(RecordErrorView::MissingField(key)),
        Some(None) => Some(RecordErrorView::NotAString(key)),
        Some(Some(_)) => None,
    }
}

/// The first thing wrong with an image record, in the order in which it is
/// read: its kind, then "MediaType", "Comment" and "ImagePath", which must be
/// strings, then "OriginalPath", which must be a string if it is there.
pub open spec fn record_error(r: ImageRecord) -> Option<RecordErrorView> {
    match r {
        ImageRecord::Dictionary(fields) => {
            if required_field_error(fields@, "MediaType"@) is Some {
                required_field_error(fields@, "MediaType"@)
            } else if required_field_error(fields@, "Comment"@) is Some {
                required_field_error(fields@, "Comment"@)
            } else if required_field_error(fields@, "ImagePath"@) is Some {
                required_field_error(fields@, "ImagePath"@)
            } else if field_text(fields@, "OriginalPath"@) == Some(None::<Seq<char>>) {
                Some(RecordErrorView::NotAString("OriginalPath"@))
            } else {
                None
            }
        },
        ImageRecord::Other => Some(RecordErrorView::NotADictionary),
    }
}

fn lookup_field(fields: &Vec<Field>, key: &str) -> (r: Option<Option<String>>)
    ensures
        match field_text(fields@, key@) {
            None => r is None,
            Some(None) => r == Some(None::<String>),
            Some(Some(t)) => r matches Some(Some(s)) && s@ == t,
        },
{
    let mut i: usize = 0;
    proof {
        assert(fields@.skip(0) =~= fields@);
    }
    while i < fields.len()
        invariant
            i <= fields.len(),
            field_text(fields@, key@) == field_text(fields@.skip(i as int), key@),
        decreases fields.len() - i,
    {
        let f = &fields[i];
        proof {
            assert(fields@.skip(i as int)[0] == fields@[i as int]);
            assert(fields@.skip(i as int).drop_first() =~= fields@.skip(i + 1));
        }
        if str_eq(&f.key, key) {
            return match &f.value {
                FieldValue::Text(t) => Some(Some(t.clone())),
                FieldValue::Other => Some(None),
            };
        }
        i = i + 1;
    }
    None
}

fn check_required(fields: &Vec<Field>, key: &str) -> (r: Result<(), RecordError>)
    ensures
        match required_field_error(fields@, key@) {
            None => r is Ok,
            Some(e) => r matches Err(x) && x@ == e,
        },
{
    match lookup_field(fields, key) {
        None => Err(RecordError::MissingField(String::from_str(key))),
        Some(None) => Err(RecordError::NotAString(String::from_str(key))),
        Some(Some(_)) => Ok(()),
    }
}

/// Checks that an image record can be read, and says what is first wrong
/// with it when it cannot.
pub fn check_record(record: &ImageRecord) -> (r: Result<(), RecordError>)
    ensures
        r is Ok <==> is_readable_record(*record),
        match record_error(*record) {
            None => r is Ok,
            Some(e) => r matches Err(x) && x@ == e,
        },
{
    match record {
        ImageRecord::Dictionary(fields) => {
            check_required(fields, "MediaType")?;
            check_required(fields, "Comment")?;
            check_required(fields, "ImagePath")?;
            match lookup_field(fields, "OriginalPath") {
                Some(None) => Err(RecordError::NotAString(String::from_str("OriginalPath"))),
                _ => Ok(()),
            }
        },
        ImageRecord::Other => Err(RecordError::NotADictionary),
    }
}

/// The image that a readable record describes; it has no checksum yet.
pub open spec fn record_image(r: ImageRecord) -> ImageView {
    let fields = match r {
        ImageRecord::Dictionary(fields) => fields@,
        ImageRecord::Other => Seq::empty(),
    };
    ImageView {
        media_type: field_text(fields, "MediaType"@)->0->0,
        comment: field_text(fields, "Comment"@)->0->0,
        image_path: field_text(fields, "ImagePath"@)->0->0,
        original_path: match field_text(fields, "OriginalPath"@) {
            Some(Some(p)) => Some(p),
            _ => None,
        },
        hash: None,
    }
}

/// The entry of the library's master image map that an entry of the master
/// image list becomes.
pub open spec fn list_entry_image(e: ImageListEntry) -> ImageEntryView {
    ImageEntryView { key: e.key@, image: record_image(e.record) }
}

/// Whether no two entries of the master image list carry the same key, as
/// in the dictionary that the file holds.
pub open spec fn list_keys_distinct(list: Seq<ImageListEntry>) -> bool {
    forall|i: int, j: int| 0 <= i < j < list.len() ==> #[trigger] list[i].key@ != #[trigger] list[j].key@
}

/// The string that `fields` holds under `key`, if it holds a string there.
fn take_text(fields: &Vec<Field>, key: &str) -> (r: Option<String>)
    ensures
        match field_text(fields@, key@) {
            Some(Some(t)) => r matches Some(s) && s@ == t,
            _ => r is None,
        },
{
    match lookup_field(fields, key) {
        Some(Some(t)) => Some(t),
        _ => None,
    }
}

/// The image that a readable record describes.
fn image_from_record(record: &ImageRecord) -> (img: Image)
    requires
        is_readable_record(*record),
    ensures
        img@ == record_image(*record),
{
    match record {
        ImageRecord::Dictionary(fields) => {
            let media_type = take_text(fields, "MediaType").unwrap();
            let comment = take_text(fields, "Comment").unwrap();
            let image_path = take_text(fields, "ImagePath").unwrap();
            let original_path = take_text(fields, "OriginalPath");
            Image { media_type, comment, image_path, original_path, hash: None }
        },
        ImageRecord::Other => {
            proof {
                assert(false);
            }
            Image {
                media_type: String::new(),
                comment: String::new(),
                image_path: String::new(),
                original_path: None,
                hash: None,
            }
        },
    }
}

/// A record that can be read becomes the image whose media type, comment
/// and image path are the strings that it holds under "MediaType",
/// "Comment" and "ImagePath", whose original path is the string under
/// "OriginalPath" when it has one, and which has no checksum yet.
pub proof fn law_record_image_takes_the_named_fields(r: ImageRecord)
    requires
        is_readable_record(r),
    ensures
        r matches ImageRecord::Dictionary(fields) && {
            &&& field_text(fields@, "MediaType"@) == Some(Some(record_image(r).media_type))
            &&& field_text(fields@, "Comment"@) == Some(Some(record_image(r).comment))
            &&& field_text(fields@, "ImagePath"@) == Some(Some(record_image(r).image_path))
            &&& (field_text(fields@, "OriginalPath"@) is None ==> record_image(r).original_path is None)
            &&& (field_text(fields@, "OriginalPath"@) matches Some(Some(p)) ==> record_image(
                r,
            ).original_path == Some(p))
        },
        record_image(r).hash is None,
{
}

/// A record is refused exactly when it is not a dictionary, when one of
/// "MediaType", "Comment" and "ImagePath" is missing or not a string, or when
/// "OriginalPath" is there and not a string.
pub proof fn law_record_error_exactly_when_unreadable(r: ImageRecord)
    ensures
        (record_error(r) is None) <==> is_readable_record(r),
        r is Other ==> record_error(r) == Some(RecordErrorView::NotADictionary),
{
}

/// The library's model of `AlbumData.xml`: its archive id and albums as they
/// were read, and a master image map with, in the order of the master image
/// list, each key and the image that its record describes.
pub fn from_album_data_internal(album_data_internal: AlbumDataInternal) -> (r: AlbumData)
    requires
        forall|i: int|
            0 <= i < album_data_internal.master_image_list@.len() ==> is_readable_record(
                (#[trigger] album_data_internal.master_image_list@[i]).record,
            ),
    ensures
        r.archive_id == album_data_internal.archive_id,
        r.albums == album_data_internal.list_of_albums,
        entries_view(r.master_image_map@) == album_data_internal.master_image_list@.map_values(
            |e: ImageListEntry| list_entry_image(e),
        ),
        list_keys_distinct(album_data_internal.master_image_list@) ==> r.has_distinct_keys(),
{
    let AlbumDataInternal { archive_id, list_of_albums, master_image_list } = album_data_internal;
    let ghost list = master_image_list@;
    let mut master_image_map: Vec<ImageEntry> = Vec::new();
    for entry in it: master_image_list
        invariant
            it.seq() == list,
            forall|i: int| 0 <= i < list.len() ==> is_readable_record((#[trigger] list[i]).record),
            entries_view(master_image_map@) == list.take(it.index()).map_values(
                |e: ImageListEntry| list_entry_image(e),
            ),
    {
        proof {
            assert(entry == list[it.index()]);
        }
        let image = image_from_record(&entry.record);
        let ghost before = master_image_map@;
        master_image_map.push(ImageEntry { key: entry.key, image });
        proof {
            let f = |e: ImageListEntry| list_entry_image(e);
            assert(list.take(it.index() + 1).map_values(f) =~= list.take(it.index()).map_values(
                f,
            ).push(f(list[it.index()])));
            assert(entries_view(master_image_map@) =~= entries_view(before).push(
                master_image_map@.last()@,
            ));
        }
    }
    proof {
        assert(list.take(list.len() as int) =~= list);
        if list_keys_distinct(list) {
            let es = entries_view(master_image_map@);
            assert forall|i: int, j: int| 0 <= i < j < es.len() implies #[trigger] es[i].key
                != #[trigger] es[j].key by {
                assert(es[i] == list_entry_image(list[i]));
                assert(es[j] == list_entry_image(list[j]));
            }
        }
    }
    AlbumData { archive_id, albums: list_of_albums, master_image_map }
}

/// An image with its paths rebased onto the folder `base`.
pub open spec fn rebased_image(base: Seq<char>, img: ImageView) -> ImageView {
    ImageView {
        media_type: img.media_type,
        comment: img.comment,
        image_path: fixed_path(base, img.image_path),
        original_path: match img.original_path {
            Some(p) => Some(fixed_path(base, p)),
            None => None,
        },
        hash: img.hash,
    }
}

/// An entry of the master image map with its paths rebased onto `base`.
pub open spec fn rebased_entry(base: Seq<char>, e: ImageEntryView) -> ImageEntryView {
    ImageEntryView { key: e.key, image: rebased_image(base, e.image) }
}

/// Rebases the image path and original path of every image onto the folder
/// `base_dir` that holds the library, with [`fix_path`].
pub fn fix_paths(album_data: &mut AlbumData, base_dir: &str)
    ensures
        final(album_data).archive_id == old(album_data).archive_id,
        final(album_data).albums == old(album_data).albums,
        entries_view(final(album_data).master_image_map@) == entries_view(
            old(album_data).master_image_map@,
        ).map_values(|e: ImageEntryView| rebased_entry(base_dir@, e)),
        old(album_data).has_distinct_keys() ==> final(album_data).has_distinct_keys(),
{
    let mut all: Vec<ImageEntry> = Vec::new();
    std::mem::swap(&mut album_data.master_image_map, &mut all);
    let ghost orig = all@;
    let ghost archive_id = album_data.archive_id;
    let ghost albums = album_data.albums;
    for entry in it: all
        invariant
            it.seq() == orig,
            album_data.archive_id == archive_id,
            album_data.albums == albums,
            entries_view(album_data.master_image_map@) == entries_view(orig.take(it.index())).map_values(
                |e: ImageEntryView| rebased_entry(base_dir@, e),
            ),
    {
        proof {
            assert(entry == orig[it.index()]);
        }
        let ImageEntry { key, image } = entry;
        let Image { media_type, comment, image_path, original_path, hash } = image;
        let image_path = fix_path(base_dir, image_path.as_str());
        let original_path = match original_path {
            Some(p) => Some(fix_path(base_dir, p.as_str())),
            None => None,
        };
        let ghost before = album_data.master_image_map@;
        album_data.master_image_map.push(
            ImageEntry { key, image: Image { media_type, comment, image_path, original_path, hash } },
        );
        proof {
            let f = |e: ImageEntryView| rebased_entry(base_dir@, e);
            let t = orig.take(it.index() + 1);
            assert(entries_view(t) =~= entries_view(orig.take(it.index())).push(orig[it.index()]@));
            assert(entries_view(t).map_values(f) =~= entries_view(orig.take(it.index())).map_values(
                f,
            ).push(f(orig[it.index()]@)));
            assert(entries_view(album_data.master_image_map@) =~= entries_view(before).push(
                album_data.master_image_map@.last()@,
            ));
        }
    }
    proof {
        assert(orig.take(orig.len() as int) =~= orig);
        let o = entries_view(orig);
        let n = entries_view(album_data.master_image_map@);
        if keys_distinct(o) {
            assert forall|i: int, j: int| 0 <= i < j < n.len() implies #[trigger] n[i].key
                != #[trigger] n[j].key by {
                assert(n[i].key == o[i].key);
                assert(n[j].key == o[j].key);
            }
        }
    }
}

} // verus!
