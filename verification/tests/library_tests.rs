use iphoto_exporter::details::{album_dump, image_dump, log_details};
use iphoto_exporter::exiv2::{add_comment, comment_bytes, escape_comment, script_header};
use iphoto_exporter::export::{
    album_path, check_copy, copy_destination, fix_album_name, needs_comment, total_photos_to_copy,
    CopyCheck,
};
use iphoto_exporter::filter::{
    filter_albums, handle_non_album_photos, has_photos_album, ignored_album_names,
};
use iphoto_exporter::hash::{generate_image_hash, hash_contents, record_image_hash};
use iphoto_exporter::info::{group_by_hash, log_duplicates, log_photo_counts};
use iphoto_exporter::iphoto::{
    check_record, fix_paths, from_album_data_internal, AlbumDataInternal, Field, FieldValue,
    ImageListEntry, ImageRecord, RecordError,
};
use iphoto_exporter::model::{keys_are_distinct, Album, AlbumData, Image, ImageEntry, ImageIndex};
use iphoto_exporter::opts::Opts;
use iphoto_exporter::progress::progress_step;
use iphoto_exporter::paths::{fix_path, image_file_name, path_join};
use iphoto_exporter::text::to_decimal;

fn album(name: &str, album_type: Option<&str>, keys: &[&str]) -> Album {
    Album {
        name: name.to_string(),
        album_type: album_type.map(|t| t.to_string()),
        key_list: keys.iter().map(|k| k.to_string()).collect(),
    }
}

fn image(path: &str, hash: Option<u32>) -> Image {
    Image {
        media_type: "Image".to_string(),
        comment: String::new(),
        image_path: path.to_string(),
        original_path: None,
        hash,
    }
}

fn entry(key: &str, img: Image) -> ImageEntry {
    ImageEntry { key: key.to_string(), image: img }
}

fn names(albums: &[Album]) -> Vec<String> {
    albums.iter().map(|a| a.name.clone()).collect()
}

#[test]
fn filter_drops_every_ignored_type_and_keeps_order() {
    let mut albums = vec![
        album("a", Some("Shelf"), &[]),
        album("b", Some("Regular"), &[]),
        album("c", Some("Slideshow"), &[]),
        album("d", None, &[]),
        album("e", Some("Special Roll"), &[]),
        album("f", Some(""), &[]),
        album("g", Some("Book"), &[]),
    ];
    filter_albums(&mut albums, None);
    assert_eq!(names(&albums), vec!["b", "d", "f"]);
}

#[test]
fn filter_by_name_keeps_every_album_of_that_name() {
    let mut albums = vec![
        album("x", Some("Book"), &[]),
        album("y", None, &[]),
        album("x", None, &["1"]),
    ];
    filter_albums(&mut albums, Some("x".to_string()));
    assert_eq!(names(&albums), vec!["x", "x"]);
    assert_eq!(albums[0].album_type, Some("Book".to_string()));
    filter_albums(&mut albums, Some("nothing".to_string()));
    assert!(albums.is_empty());
}

#[test]
fn filter_twice_keeps_what_the_first_kept() {
    let mut albums = vec![
        album("a", Some("Book"), &[]),
        album("b", None, &[]),
        album("c", Some("Regular"), &[]),
    ];
    filter_albums(&mut albums, None);
    let once = names(&albums);
    filter_albums(&mut albums, None);
    assert_eq!(names(&albums), once);
}

#[test]
fn non_album_photos_uses_the_first_photos_album_only() {
    let mut albums = vec![
        album("Photos", None, &["1", "2", "3", "3", "4"]),
        album("Trip", None, &["2"]),
        album("Photos", None, &["4"]),
        album("Other", None, &["9", "3"]),
    ];
    handle_non_album_photos(&mut albums);
    assert_eq!(names(&albums), vec!["Trip", "Other", "Not in an Album"]);
    let last = &albums[2];
    assert_eq!(last.album_type, Some("Regular".to_string()));
    assert_eq!(last.key_list, vec!["1".to_string(), "4".to_string()]);
}

#[test]
fn no_photo_is_lost() {
    let mut albums = vec![
        album("Trip", None, &["5", "2"]),
        album("Photos", None, &["1", "2", "5", "7"]),
    ];
    handle_non_album_photos(&mut albums);
    for k in ["1", "2", "5", "7"] {
        assert!(albums.iter().any(|a| a.key_list.iter().any(|x| x == k)));
    }
}

#[test]
fn photos_album_presence() {
    assert!(has_photos_album(&vec![album("a", None, &[]), album("Photos", None, &[])]));
    assert!(!has_photos_album(&vec![album("photos", None, &[])]));
    assert!(!has_photos_album(&vec![]));
}

#[test]
fn checking_image_records() {
    let good = ImageRecord::Dictionary(vec![
        text("MediaType", "Image"),
        text("Comment", ""),
        text("ImagePath", "/a"),
    ]);
    assert!(check_record(&good).is_ok());
    assert!(matches!(check_record(&ImageRecord::Other), Err(RecordError::NotADictionary)));
    let missing = ImageRecord::Dictionary(vec![text("MediaType", "Image"), text("ImagePath", "/a")]);
    assert!(matches!(check_record(&missing), Err(RecordError::MissingField(f)) if f == "Comment"));
    let not_text = ImageRecord::Dictionary(vec![
        Field { key: "MediaType".to_string(), value: FieldValue::Other },
        text("Comment", ""),
        text("ImagePath", "/a"),
    ]);
    assert!(matches!(check_record(&not_text), Err(RecordError::NotAString(f)) if f == "MediaType"));
    let bad_original = ImageRecord::Dictionary(vec![
        text("MediaType", "Image"),
        text("Comment", ""),
        text("ImagePath", "/a"),
        Field { key: "OriginalPath".to_string(), value: FieldValue::Other },
    ]);
    assert!(matches!(check_record(&bad_original), Err(RecordError::NotAString(f)) if f == "OriginalPath"));
}

#[test]
fn fix_path_edge_cases() {
    assert_eq!(fix_path("/base", "/a/b/c.jpg"), "/base");
    assert_eq!(fix_path("/base/", "x/Modified/2001/a.jpg"), "/base/Modified/2001/a.jpg");
    assert_eq!(fix_path("", "Originals/a.jpg"), "Originals/a.jpg");
    assert_eq!(fix_path("/b", "/x//Originals/./y//z.jpg"), "/b/Originals/y/z.jpg");
    assert_eq!(fix_path("/b", "/Originals/../Modified/z"), "/b/Originals/../Modified/z");
    assert_eq!(fix_path("/b", "/x/OriginalsX/Originals"), "/b/Originals");
    assert_eq!(fix_path("/b", "/x/Originals/"), "/b/Originals");
}

#[test]
fn rebased_path_starts_with_the_base() {
    let base = "/library/root";
    for p in ["/a/Originals/b.jpg", "no/anchor", "", "Modified"] {
        assert!(fix_path(base, p).starts_with(base));
    }
}

#[test]
fn path_join_follows_pathbuf_push() {
    assert_eq!(path_join("/a", "b"), "/a/b");
    assert_eq!(path_join("/a/", "b"), "/a/b");
    assert_eq!(path_join("", "b"), "b");
    assert_eq!(path_join("/a", "/c"), "/c");
    assert_eq!(path_join("/a", ""), "/a/");
}

#[test]
fn image_file_name_follows_path_file_name() {
    assert_eq!(image_file_name("/a/b.jpg"), Some("b.jpg".to_string()));
    assert_eq!(image_file_name("a/b/."), Some("b".to_string()));
    assert_eq!(image_file_name("a/b//"), Some("b".to_string()));
    assert_eq!(image_file_name("a/.."), None);
    assert_eq!(image_file_name("/"), None);
    assert_eq!(image_file_name(""), None);
    assert_eq!(image_file_name("."), None);
}

#[test]
fn album_names_are_made_safe_for_folders() {
    assert_eq!(fix_album_name("a*b/c"), "a-b-c");
    assert_eq!(fix_album_name("plain"), "plain");
    assert_eq!(album_path("/stage", "2005/06 *best*"), "/stage/2005-06 -best-");
    assert_eq!(album_path("/stage/", ""), "/stage/");
}

#[test]
fn total_photos_counts_repeated_keys() {
    let albums = vec![album("a", None, &["1", "2"]), album("b", None, &["2"]), album("c", None, &[])];
    assert_eq!(total_photos_to_copy(&albums), 3);
    assert_eq!(total_photos_to_copy(&vec![]), 0);
}

#[test]
fn copy_destination_prefixes_the_key() {
    assert_eq!(copy_destination("/stage/Trip", "42", "DCP_1.jpg"), "/stage/Trip/42_DCP_1.jpg");
}

#[test]
fn check_copy_outcomes() {
    assert!(matches!(check_copy(5, Some(5)), CopyCheck::Matches));
    assert!(matches!(check_copy(5, Some(6)), CopyCheck::Mismatch));
    assert!(matches!(check_copy(5, None), CopyCheck::NoChecksum));
}

#[test]
fn comments_only_for_still_images_with_text() {
    let mut img = image("/a.jpg", None);
    assert!(!needs_comment(&img));
    img.comment = "hi".to_string();
    assert!(needs_comment(&img));
    img.media_type = "Movie".to_string();
    assert!(!needs_comment(&img));
}

#[test]
fn decimal_notation() {
    assert_eq!(to_decimal(0), "0");
    assert_eq!(to_decimal(7), "7");
    assert_eq!(to_decimal(10), "10");
    assert_eq!(to_decimal(4294967295), "4294967295");
}

#[test]
fn crc32_of_known_inputs() {
    assert_eq!(hash_contents(b"123456789"), 0xCBF4_3926);
    assert_eq!(hash_contents(b""), 0);
    assert_eq!(hash_contents(b"The quick brown fox jumps over the lazy dog"), 0x414F_A339);
}

#[test]
fn recording_hashes() {
    let mut img = image("/a.jpg", Some(1));
    record_image_hash(&mut img, None);
    assert_eq!(img.hash, Some(1));
    record_image_hash(&mut img, Some(b"123456789"));
    assert_eq!(img.hash, Some(0xCBF4_3926));

    let mut map = vec![entry("1", image("/a", None)), entry("2", image("/b", Some(3)))];
    let seen = std::cell::RefCell::new(Vec::<String>::new());
    generate_image_hash(&mut map, |p: &String| {
        seen.borrow_mut().push(p.clone());
        if p == "/a" {
            Some(b"123456789".to_vec())
        } else {
            None
        }
    });
    assert_eq!(seen.into_inner(), vec!["/a".to_string(), "/b".to_string()]);
    assert_eq!(map[0].key, "1");
    assert_eq!(map[0].image.hash, Some(0xCBF4_3926));
    assert_eq!(map[1].image.hash, Some(3));
    assert_eq!(map[1].image.image_path, "/b");
}

fn text(key: &str, value: &str) -> Field {
    Field { key: key.to_string(), value: FieldValue::Text(value.to_string()) }
}

#[test]
fn reading_the_master_image_list() {
    let internal = AlbumDataInternal {
        archive_id: "archive".to_string(),
        list_of_albums: vec![album("Photos", None, &["7", "8"])],
        master_image_list: vec![
            ImageListEntry {
                key: "7".to_string(),
                record: ImageRecord::Dictionary(vec![
                    Field { key: "Rating".to_string(), value: FieldValue::Other },
                    text("ImagePath", "/old/Originals/a.jpg"),
                    text("Comment", "nice"),
                    text("MediaType", "Image"),
                    text("OriginalPath", "/old/Originals/a0.jpg"),
                ]),
            },
            ImageListEntry {
                key: "8".to_string(),
                record: ImageRecord::Dictionary(vec![
                    text("MediaType", "Movie"),
                    text("Comment", ""),
                    text("ImagePath", "/old/Modified/b.mov"),
                ]),
            },
        ],
    };
    let mut data = from_album_data_internal(internal);
    assert_eq!(data.archive_id, "archive");
    assert_eq!(data.albums.len(), 1);
    assert_eq!(data.master_image_map.len(), 2);
    let first = &data.master_image_map[0];
    assert_eq!(first.key, "7");
    assert_eq!(first.image.media_type, "Image");
    assert_eq!(first.image.comment, "nice");
    assert_eq!(first.image.image_path, "/old/Originals/a.jpg");
    assert_eq!(first.image.original_path, Some("/old/Originals/a0.jpg".to_string()));
    assert_eq!(first.image.hash, None);
    assert_eq!(data.master_image_map[1].image.original_path, None);

    fix_paths(&mut data, "/new");
    assert_eq!(data.master_image_map[0].image.image_path, "/new/Originals/a.jpg");
    assert_eq!(data.master_image_map[0].image.original_path, Some("/new/Originals/a0.jpg".to_string()));
    assert_eq!(data.master_image_map[1].image.image_path, "/new/Modified/b.mov");
    assert_eq!(data.master_image_map[1].key, "8");
}

fn sample_data() -> AlbumData {
    AlbumData {
        archive_id: "id-1".to_string(),
        albums: vec![album("Trip", None, &["1"]), album("Photos", None, &["1", "2", "3"])],
        master_image_map: vec![
            entry("1", image("/p/1.jpg", Some(10))),
            entry("2", image("/p/2.jpg", Some(20))),
            entry("3", image("/p/3.jpg", Some(10))),
            entry("4", image("/p/4.jpg", None)),
            entry("5", image("/p/5.jpg", Some(30))),
        ],
    }
}

#[test]
fn photo_counts() {
    let counts = log_photo_counts(&sample_data());
    assert_eq!(counts.master_image_map_count, 5);
    assert_eq!(counts.master_album_image_count, 3);
}

#[test]
fn duplicates_are_grouped_by_checksum() {
    let data = sample_data();
    let groups = group_by_hash(&data.master_image_map);
    let hashes: Vec<u32> = groups.iter().map(|g| g.hash).collect();
    assert_eq!(hashes, vec![10, 20, 30]);
    let total: usize = groups.iter().map(|g| g.keys.len()).sum();
    assert_eq!(total, 4);

    let report = log_duplicates(&data);
    assert_eq!(report.unique_count, 2);
    assert_eq!(report.duplicates.len(), 1);
    let dup = &report.duplicates[0];
    assert_eq!(dup.hash, 10);
    assert_eq!(dup.keys, vec!["1".to_string(), "3".to_string()]);
    assert_eq!(dup.details(), "Duplicates for 10:\n/p/1.jpg\n/p/3.jpg\n");
}

#[test]
fn image_index_finds_the_last_entry_of_a_key() {
    let map = vec![
        entry("1", image("/a", None)),
        entry("2", image("/b", None)),
        entry("1", image("/c", None)),
    ];
    let index = ImageIndex::new(&map);
    assert_eq!(index.find("1"), Some(2));
    assert_eq!(index.find("2"), Some(1));
    assert_eq!(index.find("3"), None);
}

#[test]
fn exiv2_script_lines() {
    assert_eq!(script_header(), "#!/bin/sh -e\n");
    assert_eq!(escape_comment("say \"hi\""), "say \\\"hi\\\"");
    assert_eq!(comment_bytes("Aé"), "65 0 195 0 169 0 ");
    let lines = add_comment("a\"b", "/x/1_a.jpg");
    let expected = [
        "exiv2 -q -M \"set Exif.Image.ImageDescription Ascii a\\\"b\" \"/x/1_a.jpg\"\n",
        "exiv2 -q -M \"set Exif.Image.XPComment Byte 97 0 34 0 98 0 \" \"/x/1_a.jpg\"\n",
        "exiv2 -q -M \"set Iptc.Application2.Caption String a\\\"b\" \"/x/1_a.jpg\"\n",
        "exiv2 -q -M \"set Xmp.dc.description LangAlt lang=en-US a\\\"b\" \"/x/1_a.jpg\"\n",
    ]
    .join("");
    assert_eq!(lines, expected);
}

#[test]
fn details_lines() {
    let data = AlbumData {
        archive_id: "A1".to_string(),
        albums: vec![album("Tr\"ip", Some("Regular"), &["1"]), album("E", None, &[])],
        master_image_map: vec![entry("1", image("/p/1.jpg", Some(10)))],
    };
    let lines = log_details(&data);
    assert_eq!(lines.len(), 7);
    assert_eq!(lines[0], "Total albums: 2");
    assert_eq!(lines[1], "Archive Id: A1");
    assert_eq!(lines[2], "== Albums ==");
    assert_eq!(
        lines[3],
        "Album {\n    name: \"Tr\\\"ip\",\n    type: Some(\n        \"Regular\",\n    ),\n    key_list: [\n        \"1\",\n    ],\n}"
    );
    assert_eq!(lines[4], album_dump(&data.albums[1]));
    assert_eq!(lines[4], "Album {\n    name: \"E\",\n    type: None,\n    key_list: [],\n}");
    assert_eq!(lines[5], "== Images ==");
    assert_eq!(
        lines[6],
        format!("id: 1, {}", image_dump(&data.master_image_map[0].image))
    );
    assert_eq!(
        image_dump(&data.master_image_map[0].image),
        "Image {\n    media_type: \"Image\",\n    comment: \"\",\n    image_path: \"/p/1.jpg\",\n    original_path: None,\n    hash: Some(\n        10,\n    ),\n}"
    );
}

#[test]
fn options_keep_their_values() {
    let o = Opts::new("lib/AlbumData.xml".to_string(), "out".to_string(), true, Some("Trip".to_string()));
    assert_eq!(o.iphoto_library_plist, "lib/AlbumData.xml");
    assert_eq!(o.album_export, "out");
    assert!(o.dry_run);
    assert_eq!(o.album, Some("Trip".to_string()));
}

#[test]
fn ignored_albums_are_named_in_order() {
    let make = || {
        vec![
            album("B1", Some("Book"), &[]),
            album("Trip", Some("Regular"), &["1"]),
            album("S1", Some("Slideshow"), &[]),
            album("N", None, &[]),
            album("R", Some("Special Roll"), &[]),
            album("Sh", Some("Shelf"), &[]),
            album("book", Some("book"), &[]),
        ]
    };
    assert_eq!(ignored_album_names(&make()), vec!["B1", "S1", "R", "Sh"]);
    assert!(ignored_album_names(&vec![album("Trip", Some("Regular"), &[])]).is_empty());

    let mut all = make();
    assert_eq!(filter_albums(&mut all, None), vec!["B1", "S1", "R", "Sh"]);
    assert_eq!(names(&all), vec!["Trip", "N", "book"]);
    let mut named = make();
    assert_eq!(filter_albums(&mut named, Some("S1".to_string())), vec!["B1", "S1", "R", "Sh"]);
    assert_eq!(names(&named), vec!["S1"]);
}

#[test]
fn dumps_escape_as_the_debug_format_does() {
    assert_eq!(
        album_dump(&album("a\u{7}b", None, &[])),
        "Album {\n    name: \"a\\u{7}b\",\n    type: None,\n    key_list: [],\n}"
    );
    let names = [
        "bell\u{7}", "\u{1b}[0m", "del\u{7f}", "tab\tnl\ncr\r", "nul\0", "q\"b\\",
        "caf\u{e9}", "e\u{301}", "zw\u{200b}", "\u{85}", "\u{1f600}", "plain text",
    ];
    for name in names {
        let expected = format!(
            "Album {{\n    name: {:?},\n    type: None,\n    key_list: [\n        {:?},\n    ],\n}}",
            name, name
        );
        assert_eq!(album_dump(&album(name, None, &[name])), expected);
    }
}

#[test]
fn rebasing_a_rebased_path_again() {
    let paths = [
        "/Users/darlene/Pictures/iPhoto Library/Originals/2005/a.jpg",
        "x/Modified/2001/b.jpg",
        "/no/anchor/c.jpg",
        "/x//Originals/./y//z.jpg",
        "",
    ];
    for b2 in ["/tmp", "/tmp/", "", "relative/dir", "/"] {
        for p in paths {
            for b in ["/new", "/new/", ""] {
                assert_eq!(fix_path(b, &fix_path(b2, p)), fix_path(b, p));
            }
            assert_eq!(fix_path(b2, &fix_path(b2, p)), fix_path(b2, p));
        }
    }
}

#[test]
fn images_without_checksum_change_no_duplicate_report() {
    let data = sample_data();
    let mut more = sample_data();
    more.master_image_map.insert(1, entry("6", image("/p/6.jpg", None)));
    more.master_image_map.push(entry("7", image("/p/7.jpg", None)));
    let a = log_duplicates(&data);
    let b = log_duplicates(&more);
    assert_eq!(a.unique_count, b.unique_count);
    assert_eq!(a.duplicates.len(), b.duplicates.len());
    for (x, y) in a.duplicates.iter().zip(b.duplicates.iter()) {
        assert_eq!(x.hash, y.hash);
        assert_eq!(x.keys, y.keys);
        assert_eq!(x.details(), y.details());
    }
}

#[test]
fn image_index_finds_each_entry_when_keys_are_distinct() {
    let map: Vec<ImageEntry> = (0..20)
        .map(|i| entry(&format!("k{}", i), image(&format!("/p/{}.jpg", i), None)))
        .collect();
    let index = ImageIndex::new(&map);
    for (i, e) in map.iter().enumerate() {
        assert_eq!(index.find(&e.key), Some(i));
    }
    assert_eq!(index.find("k20"), None);
}

#[test]
fn distinct_keys_are_recognised() {
    assert!(keys_are_distinct(&sample_data().master_image_map));
    assert!(keys_are_distinct(&Vec::new()));
    let dup = vec![
        entry("1", image("/a", None)),
        entry("2", image("/b", None)),
        entry("1", image("/c", None)),
    ];
    assert!(!keys_are_distinct(&dup));
}

#[test]
fn progress_ends_when_the_count_reaches_the_goal() {
    assert_eq!(progress_step(0, 1, 3), (1, false));
    assert_eq!(progress_step(2, 1, 3), (3, true));
    assert_eq!(progress_step(0, 5, 5), (5, true));
    assert_eq!(progress_step(4, 2, 5), (6, false));
}
