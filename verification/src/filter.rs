//! Choosing the albums to export.
use vstd::prelude::*;
use crate::model::{Album, AlbumView, lemma_filter_member, str_eq, strings_view};
use vstd::hash_set::StringHashSet;

verus! {

/// Whether an album type is one that the export leaves out: "Book",
/// "Shelf", "Slideshow" or "Special Roll". An album without a type is kept.
pub open spec fn is_ignored_type(t: Option<Seq<char>>) -> bool {
    match t {
        Some(t) => t == "Book"@ || t == "Shelf"@ || t == "Slideshow"@ || t == "Special Roll"@,
        None => false,
    }
}

/// Whether `a` is kept when no album is named.
pub open spec fn keeps_type(a: Album) -> bool {
    !is_ignored_type(a@.album_type)
}

fn ignored_type(t: &Option<String>) -> (r: bool)
    ensures
        r == is_ignored_type(crate::model::opt_view(*t)),
{
    match t {
        Some(t) => str_eq(t, "Book") || str_eq(t, "Shelf") || str_eq(t, "Slideshow") || str_eq(
            t,
            "Special Roll",
        ),
        None => false,
    }
}

/// Whether an album has a type that the export ignores.
pub open spec fn has_ignored_type(a: Album) -> bool {
    is_ignored_type(a@.album_type)
}

/// The names, in order, of the albums whose type the export ignores; they
/// are reported as ignored whether or not an album is named.
pub fn ignored_album_names(albums: &Vec<Album>) -> (r: Vec<String>)
    ensures
        strings_view(r@) == albums@.filter(|a: Album| has_ignored_type(a)).map_values(
            |a: Album| a@.name,
        ),
{
    let mut r: Vec<String> = Vec::new();
    let mut i: usize = 0;
    while i < albums.len()
        invariant
            i <= albums.len(),
            strings_view(r@) == albums@.take(i as int).filter(|a: Album| has_ignored_type(a)).map_values(
                |a: Album| a@.name,
            ),
        decreases albums.len() - i,
    {
        let ghost before = r@;
        let a = &albums[i];
        if ignored_type(&a.album_type) {
            r.push(a.name.clone());
            proof {
                assert(strings_view(r@) =~= strings_view(before).push(a@.name));
            }
        }
        proof {
            reveal(Seq::filter);
            assert(albums@.take(i + 1).drop_last() =~= albums@.take(i as int));
            assert(albums@.take(i + 1).last() == *a);
            let f = albums@.take(i as int).filter(|a: Album| has_ignored_type(a));
            if has_ignored_type(*a) {
                assert(f.push(*a).map_values(|a: Album| a@.name) =~= f.map_values(|a: Album| a@.name).push(a@.name));
            }
        }
        i = i + 1;
    }
    proof {
        assert(albums@.take(albums.len() as int) =~= albums@);
    }
    r
}

/// Whether `a` stays in the list: with a name given, an album of that
/// name; without one, an album whose type is not one to ignore.
pub open spec fn is_selected(album: Option<String>, a: Album) -> bool {
    match album {
        Some(n) => a@.name == n@,
        None => keeps_type(a),
    }
}

/// Keeps, in their order, the albums named `album` when a name is given,
/// else the albums whose type is not one to ignore. Returns, in order, the
/// names of the albums whose type is one to ignore, which are reported as
/// ignored whether or not a name is given.
pub fn filter_albums(albums: &mut Vec<Album>, album: Option<String>) -> (ignored: Vec<String>)
    ensures
        final(albums)@ == old(albums)@.filter(|a: Album| is_selected(album, a)),
        strings_view(ignored@) == old(albums)@.filter(|a: Album| has_ignored_type(a)).map_values(
            |a: Album| a@.name,
        ),
{
    let ignored = ignored_album_names(albums);
    let mut all: Vec<Album> = Vec::new();
    std::mem::swap(albums, &mut all);
    let ghost orig = all@;
    for a in it: all
        invariant
            it.seq() == orig,
            albums@ == orig.take(it.index()).filter(|a: Album| is_selected(album, a)),
    {
        let keep = match &album {
            Some(n) => a.name == *n,
            None => !ignored_type(&a.album_type),
        };
        proof {
            assert(a == orig[it.index()]);
            reveal(Seq::filter);
            assert(orig.take(it.index() + 1).drop_last() =~= orig.take(it.index()));
        }
        if keep {
            albums.push(a);
        }
    }
    proof {
        assert(orig.take(orig.len() as int) =~= orig);
    }
    ignored
}

/// Whether `a` is the album of all photos, the one named "Photos".
pub open spec fn is_photos(a: Album) -> bool {
    a@.name == "Photos"@
}

/// Whether `p` is the position of the first "Photos" album of `albums`.
pub open spec fn is_first_photos(albums: Seq<Album>, p: int) -> bool {
    &&& 0 <= p < albums.len()
    &&& is_photos(albums[p])
    &&& forall|j: int| 0 <= j < p ==> !is_photos(#[trigger] albums[j])
}

/// Whether `albums` holds an album named "Photos".
pub open spec fn has_photos(albums: Seq<Album>) -> bool {
    exists|p: int| 0 <= p < albums.len() && is_photos(#[trigger] albums[p])
}

/// The first "Photos" album is the one position that `is_first_photos`
/// allows, so it is the one that `choose` picks.
pub proof fn lemma_first_photos_chosen(albums: Seq<Album>, p: int)
    requires
        is_first_photos(albums, p),
    ensures
        (choose|q: int| is_first_photos(albums, q)) == p,
        forall|q: int| is_first_photos(albums, q) ==> q == p,
{
    assert forall|q: int| is_first_photos(albums, q) implies q == p by {
        if q < p {
            assert(!is_photos(albums[q]));
        }
        if p < q {
            assert(!is_photos(albums[p]));
        }
    }
}

/// The position of the first "Photos" album.
pub fn first_photos(albums: &Vec<Album>) -> (p: usize)
    requires
        has_photos(albums@),
    ensures
        is_first_photos(albums@, p as int),
{
    let mut p: usize = 0;
    while !str_eq(&albums[p].name, "Photos")
        invariant
            p < albums.len(),
            has_photos(albums@),
            forall|j: int| 0 <= j < p ==> !is_photos(#[trigger] albums@[j]),
        decreases albums.len() - p,
    {
        p = p + 1;
        proof {
            if p == albums.len() {
                let w = choose|w: int| 0 <= w < albums@.len() && is_photos(#[trigger] albums@[w]);
                assert(!is_photos(albums@[w]));
            }
        }
    }
    p
}

/// Whether an album other than a "Photos" album lists the key `k`.
pub open spec fn in_other_album(albums: Seq<Album>, k: Seq<char>) -> bool {
    exists|j: int|
        0 <= j < albums.len() && !is_photos(albums[j]) && (#[trigger] albums[j]@.key_list).contains(
            k,
        )
}

/// The keys of the first "Photos" album, in order, that no other album lists.
pub open spec fn keys_not_in_an_album(albums: Seq<Album>) -> Seq<Seq<char>> {
    let p = choose|p: int| is_first_photos(albums, p);
    albums[p]@.key_list.filter(|k: Seq<char>| !in_other_album(albums, k))
}

/// The album that takes the place of the "Photos" albums: "Not in an
/// Album", of type "Regular", with the keys of the first "Photos" album that
/// no other album lists.
pub open spec fn not_in_an_album(albums: Seq<Album>) -> AlbumView {
    AlbumView {
        name: "Not in an Album"@,
        album_type: Some("Regular"@),
        key_list: keys_not_in_an_album(albums),
    }
}

/// Removes every "Photos" album, keeping the others in their order.
fn remove_photos_albums(albums: &mut Vec<Album>)
    ensures
        final(albums)@ == old(albums)@.filter(|a: Album| !is_photos(a)),
{
    let mut all: Vec<Album> = Vec::new();
    std::mem::swap(albums, &mut all);
    let ghost orig = all@;
    for a in it: all
        invariant
            it.seq() == orig,
            albums@ == orig.take(it.index()).filter(|a: Album| !is_photos(a)),
    {
        let keep = !str_eq(&a.name, "Photos");
        proof {
            assert(a == orig[it.index()]);
            reveal(Seq::filter);
            assert(orig.take(it.index() + 1).drop_last() =~= orig.take(it.index()));
        }
        if keep {
            albums.push(a);
        }
    }
    proof {
        assert(orig.take(orig.len() as int) =~= orig);
    }
}

/// The keys that the albums other than "Photos" albums list.
fn keys_in_albums(albums: &Vec<Album>) -> (keys: StringHashSet)
    ensures
        forall|k: Seq<char>| #[trigger] keys@.contains(k) <==> in_other_album(albums@, k),
{
    let mut keys = StringHashSet::new();
    let mut i: usize = 0;
    while i < albums.len()
        invariant
            i <= albums.len(),
            forall|k: Seq<char>|
                #[trigger] keys@.contains(k) <==> in_other_album(albums@.take(i as int), k),
        decreases albums.len() - i,
    {
        let ghost before = keys@;
        let album = &albums[i];
        if !str_eq(&album.name, "Photos") {
            let mut m: usize = 0;
            while m < album.key_list.len()
                invariant
                    m <= album.key_list.len(),
                    album == albums@[i as int],
                    !is_photos(*album),
                    i < albums.len(),
                    forall|k: Seq<char>|
                        #[trigger] keys@.contains(k) <==> (before.contains(k) || strings_view(
                            album.key_list@.take(m as int),
                        ).contains(k)),
                decreases album.key_list.len() - m,
            {
                let ghost kp = keys@;
                let k = album.key_list[m].clone();
                keys.insert(k);
                assert(keys@ == kp.insert(album.key_list@[m as int]@));
                m = m + 1;
                proof {
                    assert forall|k: Seq<char>|
                        #[trigger] keys@.contains(k) <==> (before.contains(k) || strings_view(
                            album.key_list@.take(m as int),
                        ).contains(k)) by {
                        let s = strings_view(album.key_list@.take(m as int));
                        let t = strings_view(album.key_list@.take(m - 1));
                        assert(s =~= t.push(album.key_list@[m - 1]@));
                        assert(kp.contains(k) <==> (before.contains(k) || t.contains(k)));
                        assert(s[s.len() - 1] == album.key_list@[m - 1]@);
                        if t.contains(k) {
                            let w = choose|w: int| 0 <= w < t.len() && t[w] == k;
                            assert(s[w] == k);
                        }
                        if s.contains(k) && k != album.key_list@[m - 1]@ {
                            let w = choose|w: int| 0 <= w < s.len() && s[w] == k;
                            assert(t[w] == k);
                        }
                    }
                }
            }
            proof {
                assert(album.key_list@.take(album.key_list.len() as int) =~= album.key_list@);
            }
        }
        i = i + 1;
        proof {
            let prev = albums@.take(i - 1);
            let cur = albums@.take(i as int);
            assert forall|k: Seq<char>|
                #[trigger] keys@.contains(k) <==> in_other_album(cur, k) by {
                if in_other_album(prev, k) {
                    let j = choose|j: int|
                        0 <= j < prev.len() && !is_photos(prev[j]) && (#[trigger] prev[j]@.key_list).contains(k);
                    assert(cur[j] == prev[j]);
                }
                if in_other_album(cur, k) {
                    let j = choose|j: int|
                        0 <= j < cur.len() && !is_photos(cur[j]) && (#[trigger] cur[j]@.key_list).contains(k);
                    if j < i - 1 {
                        assert(cur[j] == prev[j]);
                    } else {
                        assert(cur[j] == albums@[i - 1]);
                    }
                }
                if !is_photos(albums@[i - 1]) && albums@[i - 1]@.key_list.contains(k) {
                    assert(cur[i - 1] == albums@[i - 1]);
                }
            }
        }
    }
    proof {
        assert(albums@.take(albums.len() as int) =~= albums@);
    }
    keys
}

/// Replaces the "Photos" albums, the album of every photo of the library, by
/// an album named "Not in an Album", of type "Regular", that lists the keys of
/// the first "Photos" album, in order, that no other album lists.
pub fn handle_non_album_photos(albums: &mut Vec<Album>)
    requires
        has_photos(old(albums)@),
    ensures
        final(albums)@.len() >= 1,
        final(albums)@.drop_last() == old(albums)@.filter(|a: Album| !is_photos(a)),
        final(albums)@.last()@ == not_in_an_album(old(albums)@),
{
    let keys = keys_in_albums(albums);
    let p = first_photos(albums);
    let ghost orig = albums@;
    let photos = &albums[p];
    let mut not_in_an_album: Vec<String> = Vec::new();
    let mut m: usize = 0;
    while m < photos.key_list.len()
        invariant
            m <= photos.key_list.len(),
            photos == orig[p as int],
            forall|k: Seq<char>| #[trigger] keys@.contains(k) <==> in_other_album(orig, k),
            strings_view(not_in_an_album@) == strings_view(photos.key_list@.take(m as int)).filter(
                |k: Seq<char>| !in_other_album(orig, k),
            ),
        decreases photos.key_list.len() - m,
    {
        let k = &photos.key_list[m];
        let ghost prev = not_in_an_album@;
        if !keys.contains(k.as_str()) {
            not_in_an_album.push(k.clone());
        }
        m = m + 1;
        proof {
            reveal(Seq::filter);
            assert(strings_view(photos.key_list@.take(m as int)).drop_last() =~= strings_view(
                photos.key_list@.take(m - 1),
            ));
            if !keys@.contains(k@) {
                assert(strings_view(not_in_an_album@) =~= strings_view(prev).push(k@));
            }
        }
    }
    proof {
        assert(photos.key_list@.take(photos.key_list.len() as int) =~= photos.key_list@);
        lemma_first_photos_chosen(orig, p as int);
    }
    remove_photos_albums(albums);
    let ghost kept = albums@;
    albums.push(
        Album {
            name: String::from_str("Not in an Album"),
            album_type: Some(String::from_str("Regular")),
            key_list: not_in_an_album,
        },
    );
    proof {
        assert(albums@.drop_last() =~= kept);
    }
}

/// Whether the albums hold an album named "Photos", which
/// [`handle_non_album_photos`] needs.
pub fn has_photos_album(albums: &Vec<Album>) -> (r: bool)
    ensures
        r == has_photos(albums@),
{
    let mut i: usize = 0;
    while i < albums.len()
        invariant
            i <= albums.len(),
            forall|j: int| 0 <= j < i ==> !is_photos(#[trigger] albums@[j]),
        decreases albums.len() - i,
    {
        if str_eq(&albums[i].name, "Photos") {
            return true;
        }
        i = i + 1;
    }
    false
}

proof fn lemma_filter_idempotent(s: Seq<Album>, pred: spec_fn(Album) -> bool)
    ensures
        s.filter(pred).filter(pred) == s.filter(pred),
    decreases s.len(),
{
    reveal(Seq::filter);
    if s.len() > 0 {
        lemma_filter_idempotent(s.drop_last(), pred);
        let f = s.drop_last().filter(pred);
        if pred(s.last()) {
            assert(f.push(s.last()).drop_last() =~= f);
        }
    }
}

/// Choosing the albums twice with the same album name, or the same absence
/// of one, keeps what the first choice kept.
pub proof fn law_filter_albums_idempotent(albums: Seq<Album>, album: Option<String>)
    ensures
        albums.filter(|a: Album| is_selected(album, a)).filter(|a: Album| is_selected(album, a))
            == albums.filter(|a: Album| is_selected(album, a)),
{
    lemma_filter_idempotent(albums, |a: Album| is_selected(album, a));
}

/// Every album that the choice keeps is one of the albums it was given and
/// meets the choice: it has the name asked for, or, without a name, a type
/// that is not ignored.
pub proof fn law_filter_albums_keeps_only_selected(albums: Seq<Album>, album: Option<String>, a: Album)
    requires
        albums.filter(|a: Album| is_selected(album, a)).contains(a),
    ensures
        albums.contains(a),
        match album {
            Some(n) => a@.name == n@,
            None => !is_ignored_type(a@.album_type),
        },
{
    lemma_filter_member(albums, |a: Album| is_selected(album, a), a);
}

/// No photo is lost when the "Photos" albums are replaced: every key of the
/// first "Photos" album is listed by an album of the result, either one of
/// the albums that stay or the new "Not in an Album" album.
pub proof fn law_no_photo_lost(before: Seq<Album>, after: Seq<Album>, p: int, k: Seq<char>)
    requires
        is_first_photos(before, p),
        before[p]@.key_list.contains(k),
        after.len() >= 1,
        after.drop_last() == before.filter(|a: Album| !is_photos(a)),
        after.last()@ == not_in_an_album(before),
    ensures
        exists|j: int| 0 <= j < after.len() && (#[trigger] after[j])@.key_list.contains(k),
{
    lemma_first_photos_chosen(before, p);
    if in_other_album(before, k) {
        let j = choose|j: int|
            0 <= j < before.len() && !is_photos(before[j]) && (#[trigger] before[j]@.key_list).contains(k);
        before.lemma_filter_contains(|a: Album| !is_photos(a), j);
        let i = choose|i: int| 0 <= i < after.drop_last().len() && after.drop_last()[i] == before[j];
        assert(after[i] == before[j]);
    } else {
        let pred = |x: Seq<char>| !in_other_album(before, x);
        let w = choose|w: int| 0 <= w < before[p]@.key_list.len() && before[p]@.key_list[w] == k;
        before[p]@.key_list.lemma_filter_contains(pred, w);
        assert(after[after.len() - 1]@.key_list.contains(k));
    }
}

/// The "Not in an Album" album lists only keys of the first "Photos" album,
/// and none that another album lists.
pub proof fn law_not_in_an_album_keys(albums: Seq<Album>, p: int, k: Seq<char>)
    requires
        is_first_photos(albums, p),
        not_in_an_album(albums).key_list.contains(k),
    ensures
        albums[p]@.key_list.contains(k),
        !in_other_album(albums, k),
{
    lemma_first_photos_chosen(albums, p);
    let pred = |x: Seq<char>| !in_other_album(albums, x);
    lemma_filter_member(albums[p]@.key_list, pred, k);
}

/// With no album named, an album is exported exactly when its type is none
/// of "Book", "Shelf", "Slideshow" and "Special Roll" (an album without a
/// type is exported), and reported as ignored exactly when it is one of
/// them.
pub proof fn law_filter_albums_ignores_exactly_four_types(albums: Seq<Album>, a: Album)
    requires
        albums.contains(a),
    ensures
        albums.filter(|x: Album| is_selected(None, x)).contains(a) <==> !(a@.album_type == Some(
            "Book"@,
        ) || a@.album_type == Some("Shelf"@) || a@.album_type == Some("Slideshow"@)
            || a@.album_type == Some("Special Roll"@)),
        albums.filter(|x: Album| has_ignored_type(x)).contains(a) <==> (a@.album_type == Some(
            "Book"@,
        ) || a@.album_type == Some("Shelf"@) || a@.album_type == Some("Slideshow"@)
            || a@.album_type == Some("Special Roll"@)),
{
    let i = choose|i: int| 0 <= i < albums.len() && albums[i] == a;
    let sel = |x: Album| is_selected(None, x);
    let ign = |x: Album| has_ignored_type(x);
    if albums.filter(sel).contains(a) {
        lemma_filter_member(albums, sel, a);
    }
    if sel(a) {
        albums.lemma_filter_contains(sel, i);
    }
    if albums.filter(ign).contains(a) {
        lemma_filter_member(albums, ign, a);
    }
    if ign(a) {
        albums.lemma_filter_contains(ign, i);
    }
}

/// No key that an album other than a "Photos" album lists, whatever that
/// album's type, goes into the "Not in an Album" album.
pub proof fn law_listed_keys_stay_out_of_not_in_an_album(albums: Seq<Album>, j: int, k: Seq<char>)
    requires
        0 <= j < albums.len(),
        albums[j]@.name != "Photos"@,
        albums[j]@.key_list.contains(k),
    ensures
        !not_in_an_album(albums).key_list.contains(k),
{
    let p = choose|p: int| is_first_photos(albums, p);
    let pred = |x: Seq<char>| !in_other_album(albums, x);
    if not_in_an_album(albums).key_list.contains(k) {
        lemma_filter_member(albums[p]@.key_list, pred, k);
        assert(!is_photos(albums[j]));
        assert(in_other_album(albums, k));
    }
}

/// With an album named, an album is exported exactly when it has that name,
/// whatever its type.
pub proof fn law_filter_albums_keeps_every_album_of_the_name(
    albums: Seq<Album>,
    n: String,
    a: Album,
)
    requires
        albums.contains(a),
    ensures
        albums.filter(|x: Album| is_selected(Some(n), x)).contains(a) <==> a@.name == n@,
{
    let i = choose|i: int| 0 <= i < albums.len() && albums[i] == a;
    let sel = |x: Album| is_selected(Some(n), x);
    if albums.filter(sel).contains(a) {
        lemma_filter_member(albums, sel, a);
    }
    if sel(a) {
        albums.lemma_filter_contains(sel, i);
    }
}

/// The albums that stay beside "Not in an Album" are exactly those not named
/// "Photos", whatever their type.
pub proof fn law_only_photos_albums_are_replaced(albums: Seq<Album>, a: Album)
    requires
        albums.contains(a),
    ensures
        albums.filter(|x: Album| !is_photos(x)).contains(a) <==> a@.name != "Photos"@,
{
    let i = choose|i: int| 0 <= i < albums.len() && albums[i] == a;
    let keep = |x: Album| !is_photos(x);
    if albums.filter(keep).contains(a) {
        lemma_filter_member(albums, keep, a);
    }
    if keep(a) {
        albums.lemma_filter_contains(keep, i);
    }
}

/// "Not in an Album" is a "Regular" album whose keys are exactly those of
/// the first album named "Photos" that no album of another name lists.
pub proof fn law_not_in_an_album_is_the_rest_of_the_first_photos(
    albums: Seq<Album>,
    p: int,
    k: Seq<char>,
)
    requires
        0 <= p < albums.len(),
        albums[p]@.name == "Photos"@,
        forall|q: int| 0 <= q < p ==> (#[trigger] albums[q])@.name != "Photos"@,
    ensures
        not_in_an_album(albums).name == "Not in an Album"@,
        not_in_an_album(albums).album_type == Some("Regular"@),
        not_in_an_album(albums).key_list.contains(k) <==> (albums[p]@.key_list.contains(k)
            && forall|j: int|
            0 <= j < albums.len() && (#[trigger] albums[j])@.name != "Photos"@
                ==> !albums[j]@.key_list.contains(k)),
{
    assert(is_first_photos(albums, p));
    lemma_first_photos_chosen(albums, p);
    let ks = albums[p]@.key_list;
    let pred = |x: Seq<char>| !in_other_album(albums, x);
    if not_in_an_album(albums).key_list.contains(k) {
        lemma_filter_member(ks, pred, k);
        assert forall|j: int|
            0 <= j < albums.len() && (#[trigger] albums[j])@.name != "Photos"@ implies !albums[j]@.key_list.contains(k) by {
            if albums[j]@.key_list.contains(k) {
                assert(!is_photos(albums[j]));
            }
        }
    }
    if ks.contains(k) && forall|j: int|
        0 <= j < albums.len() && (#[trigger] albums[j])@.name != "Photos"@
            ==> !albums[j]@.key_list.contains(k) {
        let w = choose|w: int| 0 <= w < ks.len() && ks[w] == k;
        assert(pred(ks[w]));
        ks.lemma_filter_contains(pred, w);
    }
}

} // verus!
