//! The library's model of an iPhoto library: albums, images and the data
//! read from `AlbumData.xml`.
use vstd::prelude::*;
use vstd::hash_map::StringHashMap;
use vstd::hash_set::StringHashSet;

verus! {

/// An album as the library lists it: its name, its optional album type
/// (such as "Book" or "Regular") and the keys of the images it holds.
pub struct Album {
    pub name: String,
    pub album_type: Option<String>,
    pub key_list: Vec<String>,
}

/// The mathematical value of an [`Album`].
pub ghost struct AlbumView {
    pub name: Seq<char>,
    pub album_type: Option<Seq<char>>,
    pub key_list: Seq<Seq<char>>,
}

/// The view of an optional string.
pub open spec fn opt_view(o: Option<String>) -> Option<Seq<char>> {
    match o {
        Some(s) => Some(s@),
        None => None,
    }
}

/// The views of a list of strings.
pub open spec fn strings_view(v: Seq<String>) -> Seq<Seq<char>> {
    v.map_values(|s: String| s@)
}

impl View for Album {
    type V = AlbumView;

    open spec fn view(&self) -> AlbumView {
        AlbumView {
            name: self.name@,
            album_type: opt_view(self.album_type),
            key_list: strings_view(self.key_list@),
        }
    }
}

/// An image of the library's master image list.
pub struct Image {
    pub media_type: String,
    pub comment: String,
    pub image_path: String,
    pub original_path: Option<String>,
    pub hash: Option<u32>,
}

/// The mathematical value of an [`Image`].
pub ghost struct ImageView {
    pub media_type: Seq<char>,
    pub comment: Seq<char>,
    pub image_path: Seq<char>,
    pub original_path: Option<Seq<char>>,
    pub hash: Option<u32>,
}

impl View for Image {
    type V = ImageView;

    open spec fn view(&self) -> ImageView {
        ImageView {
            media_type: self.media_type@,
            comment: self.comment@,
            image_path: self.image_path@,
            original_path: opt_view(self.original_path),
            hash: self.hash,
        }
    }
}

/// One entry of the master image list: an image and the key that albums use
/// to refer to it.
pub struct ImageEntry {
    pub key: String,
    pub image: Image,
}

/// The mathematical value of an [`ImageEntry`].
pub ghost struct ImageEntryView {
    pub key: Seq<char>,
    pub image: ImageView,
}

impl View for ImageEntry {
    type V = ImageEntryView;

    open spec fn view(&self) -> ImageEntryView {
        ImageEntryView { key: self.key@, image: self.image@ }
    }
}

/// The views of a list of image entries.
pub open spec fn entries_view(v: Seq<ImageEntry>) -> Seq<ImageEntryView> {
    v.map_values(|e: ImageEntry| e@)
}

/// The data of an iPhoto library: its archive id, its albums and its master
/// image list.
pub struct AlbumData {
    pub archive_id: String,
    pub albums: Vec<Album>,
    pub master_image_map: Vec<ImageEntry>,
}

impl AlbumData {
    /// Whether the master image map holds each key once, as a map does.
    pub open spec fn has_distinct_keys(self) -> bool {
        keys_distinct(entries_view(self.master_image_map@))
    }
}

/// The position of the last entry of `es` with the key `key`, if any: the
/// entry that a map built from `es` in order keeps for that key.
pub open spec fn last_with_key(es: Seq<ImageEntryView>, key: Seq<char>) -> Option<int>
    decreases es.len(),
{
    if es.len() == 0 {
        None
    } else if es.last().key == key {
        Some(es.len() - 1)
    } else {
        last_with_key(es.drop_last(), key)
    }
}

/// The entry that a lookup finds carries the key looked up, and no later
/// entry carries it.
pub proof fn law_last_with_key_finds_key(es: Seq<ImageEntryView>, key: Seq<char>)
    ensures
        last_with_key(es, key) matches Some(i) ==> {
            &&& 0 <= i < es.len()
            &&& es[i].key == key
            &&& forall|j: int| i < j < es.len() ==> es[j].key != key
        },
        last_with_key(es, key) is None ==> forall|j: int| 0 <= j < es.len() ==> es[j].key != key,
    decreases es.len(),
{
    if es.len() > 0 {
        law_last_with_key_finds_key(es.drop_last(), key);
        assert forall|j: int| 0 <= j < es.len() - 1 implies es[j] == es.drop_last()[j] by {}
    }
}

/// What a filter keeps comes from the sequence and meets the predicate.
pub(crate) proof fn lemma_filter_member<A>(s: Seq<A>, pred: spec_fn(A) -> bool, x: A)
    requires
        s.filter(pred).contains(x),
    ensures
        s.contains(x),
        pred(x),
{
    s.lemma_filter_contains_rev(pred, x);
    let i = choose|i: int| 0 <= i < s.filter(pred).len() && s.filter(pred)[i] == x;
    s.lemma_filter_pred(pred, i);
}

/// Whether no two entries of `es` carry the same key, as in a map from keys
/// to images.
pub open spec fn keys_distinct(es: Seq<ImageEntryView>) -> bool {
    forall|i: int, j: int| 0 <= i < j < es.len() ==> #[trigger] es[i].key != #[trigger] es[j].key
}

/// Whether no two entries of the master image map carry the same key.
pub fn keys_are_distinct(es: &Vec<ImageEntry>) -> (r: bool)
    ensures
        r == keys_distinct(entries_view(es@)),
{
    let ghost v = entries_view(es@);
    let mut seen = StringHashSet::new();
    let mut i: usize = 0;
    while i < es.len()
        invariant
            i <= es.len(),
            v == entries_view(es@),
            keys_distinct(v.take(i as int)),
            forall|k: Seq<char>|
                #[trigger] seen@.contains(k) <==> exists|j: int| 0 <= j < i && v[j].key == k,
        decreases es.len() - i,
    {
        let key = es[i].key.clone();
        proof {
            assert(v[i as int].key == key@);
        }
        let ghost before = seen@;
        if !seen.insert(key) {
            proof {
                assert(seen@.contains(v[i as int].key));
                let j = choose|j: int| 0 <= j < i && v[j].key == v[i as int].key;
                assert(v[j].key == v[i as int].key);
            }
            return false;
        }
        proof {
            let t = v.take(i + 1);
            assert forall|a: int, b: int| 0 <= a < b < t.len() implies #[trigger] t[a].key
                != #[trigger] t[b].key by {
                assert(t[a] == v[a]);
                assert(t[b] == v[b]);
                if b < i {
                    assert(v.take(i as int)[a] == v[a]);
                    assert(v.take(i as int)[b] == v[b]);
                } else if v[a].key == v[b].key {
                    assert(before.contains(v[a].key));
                }
            }
            assert forall|k: Seq<char>| #[trigger] seen@.contains(k) <==> exists|j: int|
                0 <= j < i + 1 && v[j].key == k by {
                if k == v[i as int].key {
                    assert(0 <= i < i + 1 && v[i as int].key == k);
                }
            }
        }
        i = i + 1;
    }
    proof {
        assert(v.take(v.len() as int) =~= v);
    }
    true
}

/// Where no two entries carry the same key, a lookup of an entry's key finds
/// that entry.
pub proof fn law_distinct_keys_find_their_entry(es: Seq<ImageEntryView>, i: int)
    requires
        keys_distinct(es),
        0 <= i < es.len(),
    ensures
        last_with_key(es, es[i].key) == Some(i),
{
    law_last_with_key_finds_key(es, es[i].key);
    match last_with_key(es, es[i].key) {
        Some(j) => {
            if j < i {
                assert(es[j].key != es[i].key);
            }
        },
        None => {},
    }
}

/// A lookup table from the keys of a master image map to the positions of
/// their entries.
pub struct ImageIndex {
    positions: StringHashMap<usize>,
    entries: Ghost<Seq<ImageEntryView>>,
}

impl ImageIndex {
    #[verifier::type_invariant]
    spec fn positions_match(self) -> bool {
        forall|k: Seq<char>|
            #[trigger] self.positions@.contains_key(k) == (last_with_key(self.entries@, k) is Some)
                && (self.positions@.contains_key(k) ==> self.positions@[k] == last_with_key(
                self.entries@,
                k,
            )->0)
    }

    /// The entries that the table was built from.
    pub closed spec fn entries(self) -> Seq<ImageEntryView> {
        self.entries@
    }

    /// The lookup table of the master image map `master_image_map`.
    pub fn new(master_image_map: &Vec<ImageEntry>) -> (r: ImageIndex)
        ensures
            r.entries() == entries_view(master_image_map@),
    {
        let ghost all = entries_view(master_image_map@);
        let mut positions: StringHashMap<usize> = StringHashMap::new();
        let mut i: usize = 0;
        while i < master_image_map.len()
            invariant
                i <= master_image_map.len(),
                all == entries_view(master_image_map@),
                forall|k: Seq<char>|
                    #[trigger] positions@.contains_key(k) == (last_with_key(all.take(i as int), k) is Some)
                        && (positions@.contains_key(k) ==> positions@[k] == last_with_key(
                        all.take(i as int),
                        k,
                    )->0),
            decreases master_image_map.len() - i,
        {
            positions.insert(master_image_map[i].key.clone(), i);
            proof {
                assert(all.take(i + 1).drop_last() =~= all.take(i as int));
                assert(all.take(i + 1).last() == all[i as int]);
            }
            i = i + 1;
        }
        proof {
            assert(all.take(all.len() as int) =~= all);
        }
        ImageIndex { positions, entries: Ghost(all) }
    }

    /// The position of the entry with the key `key`: the last one when
    /// several entries have that key; `None` when none has.
    pub fn find(&self, key: &str) -> (r: Option<usize>)
        ensures
            match r {
                Some(i) => last_with_key(self.entries(), key@) == Some(i as int),
                None => last_with_key(self.entries(), key@) is None,
            },
    {
        proof {
            use_type_invariant(self);
        }
        match self.positions.get(key) {
            Some(i) => Some(*i),
            None => None,
        }
    }
}

/// Whether `s` holds the same characters as `lit`.
pub fn str_eq(s: &String, lit: &str) -> (r: bool)
    ensures
        r == (s@ == lit@),
{
    let other = String::from_str(lit);
    *s == other
}

} // verus!
