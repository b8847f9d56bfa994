//! Figures about the library: how many images it lists, and which images
//! share a checksum.
use vstd::prelude::*;
use vstd::hash_map::HashMapWithView;
use crate::model::{
    AlbumData, ImageEntry, ImageEntryView, entries_view, lemma_filter_member, strings_view, str_eq,
};
use crate::filter::{first_photos, has_photos, is_first_photos, lemma_first_photos_chosen};
use crate::text::{decimal, push_char, push_decimal};

verus! {

/// The two counts that the library logs before the export: the number of
/// images in the master image map and the number of keys that the first
/// "Photos" album lists.
pub struct PhotoCounts {
    pub master_image_map_count: usize,
    pub master_album_image_count: usize,
}

/// The number of images in the master image map and the number of keys of
/// the first "Photos" album, the album of every photo.
pub fn log_photo_counts(album_data: &AlbumData) -> (r: PhotoCounts)
    requires
        has_photos(album_data.albums@),
        album_data.has_distinct_keys(),
    ensures
        r.master_image_map_count == album_data.master_image_map@.len(),
        forall|p: int|
            is_first_photos(album_data.albums@, p) ==> r.master_album_image_count
                == album_data.albums@[p].key_list@.len(),
{
    let albums = &album_data.albums;
    let p = first_photos(albums);
    proof {
        lemma_first_photos_chosen(albums@, p as int);
    }
    PhotoCounts {
        master_image_map_count: album_data.master_image_map.len(),
        master_album_image_count: albums[p].key_list.len(),
    }
}

/// The checksums that the images of `es` carry, each once, in the order in
/// which they first appear.
pub open spec fn first_seen_hashes(es: Seq<ImageEntryView>) -> Seq<u32>
    decreases es.len(),
{
    if es.len() == 0 {
        Seq::empty()
    } else {
        let prev = first_seen_hashes(es.drop_last());
        match es.last().image.hash {
            Some(h) => if prev.contains(h) {
                prev
            } else {
                prev.push(h)
            },
            None => prev,
        }
    }
}

/// The entries of `es`, in order, whose image carries the checksum `h`.
pub open spec fn entries_with_hash(es: Seq<ImageEntryView>, h: u32) -> Seq<ImageEntryView> {
    es.filter(|e: ImageEntryView| e.image.hash == Some(h))
}

/// The images that share one checksum: the checksum, their keys and their
/// image paths, in the order of the master image map.
pub struct HashGroup {
    pub hash: u32,
    pub keys: Vec<String>,
    pub image_paths: Vec<String>,
}

/// The mathematical value of a [`HashGroup`].
pub ghost struct HashGroupView {
    pub hash: u32,
    pub keys: Seq<Seq<char>>,
    pub image_paths: Seq<Seq<char>>,
}

impl View for HashGroup {
    type V = HashGroupView;

    open spec fn view(&self) -> HashGroupView {
        HashGroupView {
            hash: self.hash,
            keys: strings_view(self.keys@),
            image_paths: strings_view(self.image_paths@),
        }
    }
}

/// The group of the entries of `es` whose image carries the checksum `h`.
pub open spec fn hash_group(es: Seq<ImageEntryView>, h: u32) -> HashGroupView {
    HashGroupView {
        hash: h,
        keys: entries_with_hash(es, h).map_values(|e: ImageEntryView| e.key),
        image_paths: entries_with_hash(es, h).map_values(|e: ImageEntryView| e.image.image_path),
    }
}

/// One group for each checksum that the images of `es` carry, in the order
/// in which the checksums first appear.
pub open spec fn hash_groups(es: Seq<ImageEntryView>) -> Seq<HashGroupView> {
    first_seen_hashes(es).map_values(|h: u32| hash_group(es, h))
}

/// The views of a list of groups.
pub open spec fn groups_view(gs: Seq<HashGroup>) -> Seq<HashGroupView> {
    gs.map_values(|g: HashGroup| g@)
}

/// What the library reports about checksums: how many checksums only one
/// image carries, and the groups of images that share a checksum.
pub struct DuplicateReport {
    pub unique_count: usize,
    pub duplicates: Vec<HashGroup>,
}

proof fn lemma_first_seen_contains(es: Seq<ImageEntryView>, h: u32)
    ensures
        first_seen_hashes(es).contains(h) <==> exists|i: int|
            0 <= i < es.len() && (#[trigger] es[i]).image.hash == Some(h),
    decreases es.len(),
{
    if es.len() > 0 {
        let init = es.drop_last();
        lemma_first_seen_contains(init, h);
        let prev = first_seen_hashes(init);
        if exists|i: int| 0 <= i < init.len() && (#[trigger] init[i]).image.hash == Some(h) {
            let i = choose|i: int| 0 <= i < init.len() && (#[trigger] init[i]).image.hash == Some(h);
            assert(es[i] == init[i]);
            if let Some(g) = es.last().image.hash {
                if !prev.contains(g) {
                    let k = choose|k: int| 0 <= k < prev.len() && prev[k] == h;
                    assert(prev.push(g)[k] == h);
                }
            }
        }
        if exists|i: int| 0 <= i < es.len() && (#[trigger] es[i]).image.hash == Some(h) {
            let i = choose|i: int| 0 <= i < es.len() && (#[trigger] es[i]).image.hash == Some(h);
            if i < es.len() - 1 {
                assert(init[i] == es[i]);
            } else {
                if !prev.contains(h) {
                    assert(prev.push(h)[prev.len() as int] == h);
                }
            }
        }
        if first_seen_hashes(es).contains(h) && !prev.contains(h) {
            let k = choose|k: int| 0 <= k < first_seen_hashes(es).len() && first_seen_hashes(es)[k] == h;
            match es.last().image.hash {
                Some(g) => {
                    if !prev.contains(g) && k < prev.len() {
                        assert(prev[k] == h);
                    }
                },
                None => {},
            }
            assert(es[es.len() - 1].image.hash == Some(h));
        }
    }
}

proof fn lemma_first_seen_distinct(es: Seq<ImageEntryView>)
    ensures
        first_seen_hashes(es).no_duplicates(),
    decreases es.len(),
{
    if es.len() > 0 {
        lemma_first_seen_distinct(es.drop_last());
    }
}

proof fn lemma_group_push(es: Seq<ImageEntryView>, e: ImageEntryView, h: u32)
    ensures
        hash_group(es.push(e), h) == (if e.image.hash == Some(h) {
            HashGroupView {
                hash: h,
                keys: hash_group(es, h).keys.push(e.key),
                image_paths: hash_group(es, h).image_paths.push(e.image.image_path),
            }
        } else {
            hash_group(es, h)
        }),
{
    reveal(Seq::filter);
    assert(es.push(e).drop_last() =~= es);
    let pred = |x: ImageEntryView| x.image.hash == Some(h);
    if e.image.hash == Some(h) {
        assert(es.push(e).filter(pred) == es.filter(pred).push(e));
        assert(hash_group(es.push(e), h).keys =~= hash_group(es, h).keys.push(e.key));
        assert(hash_group(es.push(e), h).image_paths =~= hash_group(es, h).image_paths.push(
            e.image.image_path,
        ));
    } else {
        assert(es.push(e).filter(pred) == es.filter(pred));
    }
}

proof fn lemma_group_absent(es: Seq<ImageEntryView>, h: u32)
    requires
        !first_seen_hashes(es).contains(h),
    ensures
        hash_group(es, h).keys == Seq::<Seq<char>>::empty(),
        hash_group(es, h).image_paths == Seq::<Seq<char>>::empty(),
{
    lemma_first_seen_contains(es, h);
    let pred = |x: ImageEntryView| x.image.hash == Some(h);
    let f = es.filter(pred);
    if f.len() > 0 {
        assert(f.contains(f[0]));
        lemma_filter_member(es, pred, f[0]);
        let i = choose|i: int| 0 <= i < es.len() && es[i] == f[0];
        assert(es[i].image.hash == Some(h));
    }
    assert(hash_group(es, h).keys =~= Seq::<Seq<char>>::empty());
    assert(hash_group(es, h).image_paths =~= Seq::<Seq<char>>::empty());
}

/// The groups of entries of the master image map that share a checksum,
/// one for each checksum, in the order in which the checksums first appear.
pub fn group_by_hash(master_image_map: &Vec<ImageEntry>) -> (r: Vec<HashGroup>)
    ensures
        groups_view(r@) == hash_groups(entries_view(master_image_map@)),
{
    broadcast use vstd::std_specs::hash::axiom_u32_obeys_hash_table_key_model;

    let ghost all = entries_view(master_image_map@);
    let mut groups: Vec<HashGroup> = Vec::new();
    let mut index: HashMapWithView<u32, usize> = HashMapWithView::new();
    let mut i: usize = 0;
    while i < master_image_map.len()
        invariant
            i <= master_image_map.len(),
            all == entries_view(master_image_map@),
            groups_view(groups@) == hash_groups(all.take(i as int)),
            forall|h: u32|
                #[trigger] index@.contains_key(h) <==> first_seen_hashes(all.take(i as int)).contains(h),
            forall|h: u32|
                #[trigger] index@.contains_key(h) ==> index@[h] < groups@.len()
                    && first_seen_hashes(all.take(i as int))[index@[h] as int] == h,
        decreases master_image_map.len() - i,
    {
        let e = &master_image_map[i];
        let ghost es = all.take(i as int);
        let ghost es2 = all.take(i + 1);
        let ghost ev = e@;
        proof {
            assert(es2 =~= es.push(ev));
            assert(es2.drop_last() =~= es);
            assert(ev == all[i as int]);
            lemma_first_seen_distinct(es);
            assert forall|h: u32| h != ev.image.hash->0 || ev.image.hash is None implies #[trigger] hash_group(
                es2,
                h,
            ) == hash_group(es, h) by {
                lemma_group_push(es, ev, h);
            }
        }
        let ghost before = groups@;
        match e.image.hash {
            None => {
                proof {
                    assert(first_seen_hashes(es2) == first_seen_hashes(es));
                    assert(groups_view(groups@) =~= hash_groups(es2));
                }
            },
            Some(h) => {
                proof {
                    lemma_group_push(es, ev, h);
                }
                match index.get(&h) {
                    Some(gi) => {
                        let gi = *gi;
                        let mut g = HashGroup { hash: 0, keys: Vec::new(), image_paths: Vec::new() };
                        groups.set_and_swap(gi, &mut g);
                        g.keys.push(e.key.clone());
                        g.image_paths.push(e.image.image_path.clone());
                        groups.set_and_swap(gi, &mut g);
                        proof {
                            let fs = first_seen_hashes(es);
                            assert(index@.contains_key(h));
                            assert(fs[gi as int] == h);
                            assert(groups_view(before).len() == hash_groups(es).len());
                            assert(gi < before.len());
                            assert(first_seen_hashes(es2) == fs);
                            assert(before[gi as int]@ == hash_group(es, h)) by {
                                assert(groups_view(before)[gi as int] == hash_groups(es)[gi as int]);
                            }
                            assert(groups@[gi as int]@.keys =~= hash_group(es2, h).keys);
                            assert(groups@[gi as int]@.image_paths =~= hash_group(es2, h).image_paths);
                            assert forall|k: int| 0 <= k < groups@.len() implies #[trigger] groups_view(groups@)[k]
                                == hash_groups(es2)[k] by {
                                assert(groups_view(before)[k] == hash_groups(es)[k]);
                                if k != gi {
                                    assert(fs[k] != h);
                                    assert(groups@[k] == before[k]);
                                }
                            }
                            assert(groups_view(groups@) =~= hash_groups(es2));
                        }
                    },
                    None => {
                        let mut keys: Vec<String> = Vec::new();
                        keys.push(e.key.clone());
                        let mut image_paths: Vec<String> = Vec::new();
                        image_paths.push(e.image.image_path.clone());
                        let n = groups.len();
                        groups.push(HashGroup { hash: h, keys, image_paths });
                        index.insert(h, n);
                        proof {
                            let fs = first_seen_hashes(es);
                            assert(!fs.contains(h));
                            assert(groups_view(before).len() == hash_groups(es).len());
                            lemma_group_absent(es, h);
                            assert(first_seen_hashes(es2) == fs.push(h));
                            assert(groups@[n as int]@.keys =~= hash_group(es2, h).keys);
                            assert(groups@[n as int]@.image_paths =~= hash_group(es2, h).image_paths);
                            assert forall|k: int| 0 <= k < groups@.len() implies #[trigger] groups_view(groups@)[k]
                                == hash_groups(es2)[k] by {
                                if k < n {
                                    assert(groups_view(before)[k] == hash_groups(es)[k]);
                                    if fs[k] == h {
                                        assert(fs.contains(h));
                                    }
                                    assert(groups@[k] == before[k]);
                                } else {
                                    assert(groups@[k]@ == hash_group(es2, h));
                                }
                            }
                            assert(groups_view(groups@) =~= hash_groups(es2));
                            assert forall|x: u32| #[trigger] index@.contains_key(x) <==> fs.push(h).contains(x) by {
                                if fs.contains(x) {
                                    let w = choose|w: int| 0 <= w < fs.len() && fs[w] == x;
                                    assert(fs.push(h)[w] == x);
                                }
                                if fs.push(h).contains(x) && x != h {
                                    let w = choose|w: int| 0 <= w < fs.push(h).len() && fs.push(h)[w] == x;
                                    assert(fs[w] == x);
                                }
                                if x == h {
                                    assert(fs.push(h)[fs.len() as int] == h);
                                }
                            }
                        }
                    },
                }
            },
        }
        i = i + 1;
    }
    proof {
        assert(all.take(all.len() as int) =~= all);
    }
    groups
}

/// The number of keys that the groups hold together.
pub open spec fn total_group_size(gs: Seq<HashGroupView>) -> nat
    decreases gs.len(),
{
    if gs.len() == 0 {
        0
    } else {
        total_group_size(gs.drop_last()) + gs.last().keys.len()
    }
}

/// The number of entries of `es` whose image carries a checksum.
pub open spec fn hashed_count(es: Seq<ImageEntryView>) -> nat {
    es.filter(|e: ImageEntryView| e.image.hash is Some).len()
}

proof fn lemma_total_update(gs: Seq<HashGroupView>, g: int, x: HashGroupView)
    requires
        0 <= g < gs.len(),
    ensures
        total_group_size(gs.update(g, x)) + gs[g].keys.len() == total_group_size(gs) + x.keys.len(),
    decreases gs.len(),
{
    let u = gs.update(g, x);
    if g == gs.len() - 1 {
        assert(u.drop_last() =~= gs.drop_last());
    } else {
        assert(u.drop_last() =~= gs.drop_last().update(g, x));
        lemma_total_update(gs.drop_last(), g, x);
    }
}

/// Grouping by checksum loses and repeats no image: the groups hold, in all,
/// as many keys as there are images that carry a checksum.
pub proof fn law_groups_partition_hashed_images(es: Seq<ImageEntryView>)
    ensures
        total_group_size(hash_groups(es)) == hashed_count(es),
    decreases es.len(),
{
    reveal(Seq::filter);
    if es.len() > 0 {
        let init = es.drop_last();
        let e = es.last();
        assert(init.push(e) =~= es);
        law_groups_partition_hashed_images(init);
        lemma_first_seen_distinct(init);
        let fs = first_seen_hashes(init);
        let gs = hash_groups(init);
        assert forall|h: u32| e.image.hash != Some(h) implies #[trigger] hash_group(es, h)
            == hash_group(init, h) by {
            lemma_group_push(init, e, h);
        }
        match e.image.hash {
            None => {
                assert(hash_groups(es) =~= gs);
            },
            Some(h) => {
                lemma_group_push(init, e, h);
                if fs.contains(h) {
                    let g = choose|g: int| 0 <= g < fs.len() && fs[g] == h;
                    assert(hash_groups(es) =~= gs.update(g, hash_group(es, h))) by {
                        assert forall|k: int| 0 <= k < fs.len() && k != g implies fs[k] != h by {}
                    }
                    lemma_total_update(gs, g, hash_group(es, h));
                } else {
                    lemma_group_absent(init, h);
                    assert(hash_groups(es) =~= gs.push(hash_group(es, h))) by {
                        assert forall|k: int| 0 <= k < fs.len() implies fs[k] != h by {
                            if fs[k] == h {
                                assert(fs.contains(h));
                            }
                        }
                    }
                    assert(hash_groups(es).drop_last() =~= gs);
                }
            },
        }
    }
}

/// The groups carry distinct checksums.
pub proof fn law_groups_have_distinct_hashes(es: Seq<ImageEntryView>, i: int, j: int)
    requires
        0 <= i < hash_groups(es).len(),
        0 <= j < hash_groups(es).len(),
        i != j,
    ensures
        hash_groups(es)[i].hash != hash_groups(es)[j].hash,
{
    lemma_first_seen_distinct(es);
}

/// Whether the image of an entry carries a checksum.
pub open spec fn is_hashed(e: ImageEntryView) -> bool {
    e.image.hash is Some
}

proof fn lemma_first_seen_ignores_unhashed(es: Seq<ImageEntryView>)
    ensures
        first_seen_hashes(es) == first_seen_hashes(es.filter(|e: ImageEntryView| is_hashed(e))),
    decreases es.len(),
{
    reveal(Seq::filter);
    if es.len() > 0 {
        let init = es.drop_last();
        let e = es.last();
        let f = init.filter(|e: ImageEntryView| is_hashed(e));
        lemma_first_seen_ignores_unhashed(init);
        if is_hashed(e) {
            assert(es.filter(|e: ImageEntryView| is_hashed(e)) == f.push(e));
            assert(f.push(e).drop_last() =~= f);
        } else {
            assert(es.filter(|e: ImageEntryView| is_hashed(e)) == f);
        }
    }
}

proof fn lemma_entries_with_hash_ignore_unhashed(es: Seq<ImageEntryView>, h: u32)
    ensures
        entries_with_hash(es, h) == entries_with_hash(
            es.filter(|e: ImageEntryView| is_hashed(e)),
            h,
        ),
    decreases es.len(),
{
    reveal(Seq::filter);
    if es.len() > 0 {
        let init = es.drop_last();
        let e = es.last();
        let f = init.filter(|e: ImageEntryView| is_hashed(e));
        let q = |x: ImageEntryView| x.image.hash == Some(h);
        lemma_entries_with_hash_ignore_unhashed(init, h);
        if is_hashed(e) {
            assert(es.filter(|e: ImageEntryView| is_hashed(e)) == f.push(e));
            assert(f.push(e).drop_last() =~= f);
            if q(e) {
                assert(f.push(e).filter(q) == f.filter(q).push(e));
            } else {
                assert(f.push(e).filter(q) == f.filter(q));
            }
        } else {
            assert(es.filter(|e: ImageEntryView| is_hashed(e)) == f);
        }
    }
}

/// Images without a checksum play no part in the grouping: two master image
/// maps whose images with a checksum are the same, in the same order, give
/// the same groups, so the same count of unique checksums and the same
/// groups of duplicates.
pub proof fn law_unhashed_images_change_no_group(es1: Seq<ImageEntryView>, es2: Seq<ImageEntryView>)
    requires
        es1.filter(|e: ImageEntryView| is_hashed(e)) == es2.filter(|e: ImageEntryView| is_hashed(e)),
    ensures
        hash_groups(es1) == hash_groups(es2),
        hash_groups(es1).filter(|g: HashGroupView| is_unique(g)).len() == hash_groups(es2).filter(
            |g: HashGroupView| is_unique(g),
        ).len(),
        hash_groups(es1).filter(|g: HashGroupView| is_duplicate(g)) == hash_groups(es2).filter(
            |g: HashGroupView| is_duplicate(g),
        ),
{
    lemma_first_seen_ignores_unhashed(es1);
    lemma_first_seen_ignores_unhashed(es2);
    assert forall|h: u32| #[trigger] hash_group(es1, h) == hash_group(es2, h) by {
        lemma_entries_with_hash_ignore_unhashed(es1, h);
        lemma_entries_with_hash_ignore_unhashed(es2, h);
    }
    assert(hash_groups(es1) =~= hash_groups(es2));
}

/// Whether one image alone carries the checksum of a group.
pub open spec fn is_unique(g: HashGroupView) -> bool {
    g.keys.len() == 1
}

/// Whether several images carry the checksum of a group.
pub open spec fn is_duplicate(g: HashGroupView) -> bool {
    g.keys.len() > 1
}

/// The groups reported as duplicates are exactly the groups of two or more
/// images, and those counted as unique exactly the groups of one image.
pub proof fn law_duplicates_are_shared_checksums(es: Seq<ImageEntryView>, g: HashGroupView)
    ensures
        hash_groups(es).filter(|g: HashGroupView| is_duplicate(g)).contains(g) <==> (hash_groups(
            es,
        ).contains(g) && g.keys.len() >= 2),
        hash_groups(es).filter(|g: HashGroupView| is_unique(g)).contains(g) <==> (hash_groups(
            es,
        ).contains(g) && g.keys.len() == 1),
{
    let gs = hash_groups(es);
    let dup = |x: HashGroupView| is_duplicate(x);
    let uni = |x: HashGroupView| is_unique(x);
    if gs.filter(dup).contains(g) {
        lemma_filter_member(gs, dup, g);
    }
    if gs.filter(uni).contains(g) {
        lemma_filter_member(gs, uni, g);
    }
    if gs.contains(g) {
        let i = choose|i: int| 0 <= i < gs.len() && gs[i] == g;
        if g.keys.len() >= 2 {
            gs.lemma_filter_contains(dup, i);
        }
        if g.keys.len() == 1 {
            gs.lemma_filter_contains(uni, i);
        }
    }
}

/// What the library logs about checksums: the number of checksums that one
/// image alone carries, and the groups of images, in the order in which
/// their checksums first appear, that share a checksum.
pub fn log_duplicates(album_data: &AlbumData) -> (r: DuplicateReport)
    requires
        album_data.has_distinct_keys(),
    ensures
        r.unique_count == hash_groups(entries_view(album_data.master_image_map@)).filter(
            |g: HashGroupView| is_unique(g),
        ).len(),
        groups_view(r.duplicates@) == hash_groups(entries_view(album_data.master_image_map@)).filter(
            |g: HashGroupView| is_duplicate(g),
        ),
{
    let groups = group_by_hash(&album_data.master_image_map);
    let ghost gs = groups_view(groups@);
    let ghost orig = groups@;
    let n_groups = groups.len();
    let mut unique_count: usize = 0;
    let mut duplicates: Vec<HashGroup> = Vec::new();
    for g in it: groups
        invariant
            it.seq() == orig,
            orig.len() == n_groups,
            gs == groups_view(orig),
            unique_count == gs.take(it.index()).filter(|g: HashGroupView| is_unique(g)).len(),
            unique_count <= it.index(),
            groups_view(duplicates@) == gs.take(it.index()).filter(|g: HashGroupView| is_duplicate(g)),
    {
        proof {
            reveal(Seq::filter);
            assert(g == orig[it.index()]);
            assert(it.index() < n_groups);
            assert(gs.take(it.index() + 1).drop_last() =~= gs.take(it.index()));
            assert(gs[it.index()] == g@);
            gs.take(it.index()).lemma_filter_len(|g: HashGroupView| is_unique(g));
        }
        let n = g.keys.len();
        if n == 1 {
            unique_count = unique_count + 1;
        } else if n > 1 {
            let ghost before = duplicates@;
            duplicates.push(g);
            proof {
                assert(groups_view(duplicates@) =~= groups_view(before).push(g@));
            }
        }
    }
    proof {
        assert(gs.take(gs.len() as int) =~= gs);
    }
    DuplicateReport { unique_count, duplicates }
}

/// The image paths, each followed by a line break.
pub open spec fn path_lines(ps: Seq<Seq<char>>) -> Seq<char>
    decreases ps.len(),
{
    if ps.len() == 0 {
        Seq::empty()
    } else {
        path_lines(ps.drop_last()) + ps.last() + "\n"@
    }
}

/// The text that the library logs about a group of images that share a
/// checksum: "Duplicates for <checksum>:" and then the path of each image,
/// each on a line of its own.
pub open spec fn duplicate_details(g: HashGroupView) -> Seq<char> {
    "Duplicates for "@ + decimal(g.hash as nat) + ":\n"@ + path_lines(g.image_paths)
}

impl HashGroup {
    /// The text that the library logs about this group.
    pub fn details(&self) -> (r: String)
        ensures
            r@ == duplicate_details(self@),
    {
        let mut r = String::from_str("Duplicates for ");
        push_decimal(&mut r, self.hash as u64);
        r.append(":\n");
        let ghost head = r@;
        let ghost ps = strings_view(self.image_paths@);
        let mut i: usize = 0;
        while i < self.image_paths.len()
            invariant
                i <= self.image_paths.len(),
                ps == strings_view(self.image_paths@),
                r@ == head + path_lines(ps.take(i as int)),
            decreases self.image_paths.len() - i,
        {
            r.append(self.image_paths[i].as_str());
            r.append("\n");
            proof {
                assert(ps.take(i + 1).drop_last() =~= ps.take(i as int));
                assert(ps.take(i + 1).last() == self.image_paths@[i as int]@);
            }
            i = i + 1;
            proof {
                assert(r@ =~= head + path_lines(ps.take(i as int)));
            }
        }
        proof {
            assert(ps.take(ps.len() as int) =~= ps);
            assert(head =~= "Duplicates for "@ + decimal(self.hash as nat) + ":\n"@);
        }
        r
    }
}

} // verus!
