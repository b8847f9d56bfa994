use iphoto_exporter::filter::{filter_albums, handle_non_album_photos};
use iphoto_exporter::model::Album;
use iphoto_exporter::paths::fix_path;

#[test]
fn test_filter_albums() {
    let a1 = Album {
        name: "Whatever".to_string(),
        album_type: Some("Book".to_string()),
        key_list: vec![],
    };
    let a2 = Album {
        name: "Some Album".to_string(),
        album_type: None,
        key_list: vec![],
    };
    let mut albums = vec![a1, a2];

    filter_albums(&mut albums, None);

    assert_eq!(1, albums.len());
    assert_eq!("Some Album", albums[0].name);
}

#[test]
fn test_filter_albums_specific_album() {
    let a1 = Album {
        name: "Whatever".to_string(),
        album_type: None,
        key_list: vec![],
    };
    let a2 = Album {
        name: "Some Album".to_string(),
        album_type: None,
        key_list: vec![],
    };
    let mut albums = vec![a1, a2];

    filter_albums(&mut albums, Some("Whatever".to_string()));

    assert_eq!(1, albums.len());
    assert_eq!("Whatever", albums[0].name);
}

#[test]
fn test_handle_non_album_photos() {
    let a1 = Album {
        name: "Photos".to_string(),
        album_type: None,
        key_list: vec!["1".to_string(), "2".to_string()],
    };
    let a2 = Album {
        name: "Some Album".to_string(),
        album_type: None,
        key_list: vec!["2".to_string()],
    };

    let mut albums = vec![a1, a2];
    handle_non_album_photos(&mut albums);
    assert_eq!(2, albums.len());
    assert_eq!("Some Album".to_string(), albums[0].name);
    assert_eq!("Not in an Album".to_string(), albums[1].name);
    assert_eq!(1, albums[1].key_list.len());
    assert_eq!("1".to_string(), albums[1].key_list[0]);
}

#[test]
fn test_fix_path() {
    assert_eq!(
        "/tmp/Originals/2005/2005-10-05 Hannah at Play/DCP_1934.jpg".to_string(),
        fix_path(
            "/tmp",
            "/Users/darlene/Pictures/iPhoto Library/Originals/2005/2005-10-05 Hannah at Play/DCP_1934.jpg"
        )
    );
}
