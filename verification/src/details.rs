//! The text that the library logs about the data it read: the number of
//! albums, the archive id, and a dump of each album and image in the layout
//! of Rust's pretty `{:#?}` debug format.
use vstd::prelude::*;
use crate::model::{Album, AlbumData, AlbumView, Image, ImageView, entries_view, strings_view};
use crate::text::{decimal, push_char, push_decimal};

verus! {

/// What std's `char::escape_debug` gives for `c`.
pub uninterp spec fn char_escape_debug(c: char) -> Seq<char>;

/// The characters of `c.escape_debug()`.
///
/// Trusted: std's `char::escape_debug` is a function of the character
/// alone; the contract names its result and says nothing more of it. The
/// library calls it only for characters outside ASCII, where it escapes
/// exactly as the debug format of a string does.
#[verifier::external_body]
fn escape_debug(c: char) -> (r: String)
    ensures
        r@ == char_escape_debug(c),
{
    format!("{}", c.escape_debug())
}

/// The lowercase hexadecimal digit of `d`.
pub open spec fn hex_digit_char(d: nat) -> char {
    if d < 10 {
        crate::text::digit_char(d)
    } else if d == 10 { 'a' }
    else if d == 11 { 'b' }
    else if d == 12 { 'c' }
    else if d == 13 { 'd' }
    else if d == 14 { 'e' }
    else { 'f' }
}

/// The lowercase hexadecimal notation of `n`, without leading zeros.
pub open spec fn hex(n: nat) -> Seq<char>
    decreases n,
{
    if n < 16 {
        seq![hex_digit_char(n)]
    } else {
        hex(n / 16).push(hex_digit_char(n % 16))
    }
}

/// How a character stands inside a quoted string of the debug format:
/// double quote, backslash, line feed, carriage return, tab and NUL are
/// written with a backslash escape; the other ASCII control characters
/// and DEL as `\u{..}` with the code in lowercase hexadecimal; the other
/// ASCII characters as they are; a character outside ASCII as
/// `char::escape_debug` writes it.
pub open spec fn debug_char(c: char) -> Seq<char> {
    if c == '"' {
        seq!['\\', '"']
    } else if c == '\\' {
        seq!['\\', '\\']
    } else if c == '\n' {
        seq!['\\', 'n']
    } else if c == '\r' {
        seq!['\\', 'r']
    } else if c == '\t' {
        seq!['\\', 't']
    } else if c == '\0' {
        seq!['\\', '0']
    } else if (c as u32) < 0x20 || (c as u32) == 0x7f {
        seq!['\\', 'u', '{'] + hex(c as u32 as nat) + seq!['}']
    } else if (c as u32) < 0x80 {
        seq![c]
    } else {
        char_escape_debug(c)
    }
}

/// The number that a lowercase hexadecimal digit stands for.
pub open spec fn hex_digit_value(c: char) -> int {
    if (c as u32) <= 57 {
        (c as u32) as int - 48
    } else {
        (c as u32) as int - 87
    }
}

/// The number that a string of hexadecimal digits stands for, read in base
/// 16.
pub open spec fn hex_value(s: Seq<char>) -> int
    decreases s.len(),
{
    if s.len() == 0 {
        0
    } else {
        hex_value(s.drop_last()) * 16 + hex_digit_value(s.last())
    }
}

proof fn lemma_hex_digit(d: nat)
    requires
        d < 16,
    ensures
        hex_digit_value(hex_digit_char(d)) == d,
        (48 <= (hex_digit_char(d) as u32) <= 57) || (97 <= (hex_digit_char(d) as u32) <= 102),
        d > 0 ==> hex_digit_char(d) != '0',
{
    assert(('0' as u32) == 48);
    assert(('1' as u32) == 49);
    assert(('2' as u32) == 50);
    assert(('3' as u32) == 51);
    assert(('4' as u32) == 52);
    assert(('5' as u32) == 53);
    assert(('6' as u32) == 54);
    assert(('7' as u32) == 55);
    assert(('8' as u32) == 56);
    assert(('9' as u32) == 57);
    assert(('a' as u32) == 97);
    assert(('b' as u32) == 98);
    assert(('c' as u32) == 99);
    assert(('d' as u32) == 100);
    assert(('e' as u32) == 101);
    assert(('f' as u32) == 102);
}

/// The hexadecimal notation of `n` is made of the digits '0' to '9' and 'a'
/// to 'f', reads back to `n` in base 16, and starts with a '0' only when
/// `n` is zero.
pub proof fn law_hex_reads_back(n: nat)
    ensures
        hex(n).len() >= 1,
        forall|i: int|
            0 <= i < hex(n).len() ==> (48 <= #[trigger] (hex(n)[i] as u32) <= 57) || (97 <= (
            hex(n)[i] as u32) <= 102),
        hex_value(hex(n)) == n,
        n > 0 ==> hex(n)[0] != '0',
    decreases n,
{
    if n < 16 {
        lemma_hex_digit(n);
        assert(hex(n) =~= seq![hex_digit_char(n)]);
        assert(hex(n).drop_last() =~= Seq::<char>::empty());
        assert(hex_value(Seq::<char>::empty()) == 0);
        assert(hex_value(hex(n)) == hex_value(hex(n).drop_last()) * 16 + hex_digit_value(
            hex(n).last(),
        ));
    } else {
        let m = n / 16;
        let d = n % 16;
        law_hex_reads_back(m);
        lemma_hex_digit(d);
        vstd::arithmetic::div_mod::lemma_fundamental_div_mod(n as int, 16);
        let s = hex(m).push(hex_digit_char(d));
        assert(s.drop_last() =~= hex(m));
        assert(s[0] == hex(m)[0]);
        assert(hex(n) == s);
        assert(hex_value(s) == hex_value(hex(m)) * 16 + hex_digit_value(hex_digit_char(d)));
        assert(hex_value(s) == m * 16 + d);
        assert forall|i: int| 0 <= i < s.len() implies (48 <= #[trigger] (s[i] as u32) <= 57) || (
        97 <= (s[i] as u32) <= 102) by {
            if i < s.len() - 1 {
                assert(s[i] == hex(m)[i]);
            }
        }
    }
}

/// Inside a quoted string, an ASCII character stands as it is exactly when
/// it is printable (from ' ' to '~') and neither a double quote nor a
/// backslash; the others are written with a backslash escape.
pub proof fn law_debug_char_ascii(c: char)
    requires
        (c as u32) < 0x80,
    ensures
        (debug_char(c) == seq![c]) <==> (0x20 <= (c as u32) < 0x7f && c != '"' && c != '\\'),
        !(0x20 <= (c as u32) < 0x7f && c != '"' && c != '\\') ==> debug_char(c).len() >= 2
            && debug_char(c)[0] == '\\',
{
    assert(('"' as u32) == 34);
    assert(('\\' as u32) == 92);
    assert(('\n' as u32) == 10);
    assert(('\r' as u32) == 13);
    assert(('\t' as u32) == 9);
    assert(('\0' as u32) == 0);
    if debug_char(c) == seq![c] {
        assert(debug_char(c).len() == 1);
    }
}

/// The other ASCII control characters and DEL are written as a backslash,
/// 'u', '{', their code in lowercase hexadecimal, and '}'.
pub proof fn law_debug_char_control(c: char)
    requires
        (c as u32) < 0x20 || (c as u32) == 0x7f,
        c != '\n',
        c != '\r',
        c != '\t',
        c != '\0',
    ensures
        debug_char(c).len() >= 5,
        debug_char(c).subrange(0, 3) == seq!['\\', 'u', '{'],
        debug_char(c).last() == '}',
        hex_value(debug_char(c).subrange(3, debug_char(c).len() - 1)) == (c as u32) as int,
{
    assert(('"' as u32) == 34);
    assert(('\\' as u32) == 92);
    law_hex_reads_back((c as u32) as nat);
    let h = hex((c as u32) as nat);
    let e = seq!['\\', 'u', '{'] + h + seq!['}'];
    assert(debug_char(c) == e);
    assert(e.subrange(0, 3) =~= seq!['\\', 'u', '{']);
    assert(e.subrange(3, e.len() - 1) =~= h);
}

fn hex_digit(d: u32) -> (c: char)
    requires
        d < 16,
    ensures
        c == hex_digit_char(d as nat),
{
    match d {
        0 => '0',
        1 => '1',
        2 => '2',
        3 => '3',
        4 => '4',
        5 => '5',
        6 => '6',
        7 => '7',
        8 => '8',
        9 => '9',
        10 => 'a',
        11 => 'b',
        12 => 'c',
        13 => 'd',
        14 => 'e',
        _ => 'f',
    }
}

/// Appends `c` as it stands inside a quoted string of the debug format.
fn push_debug_char(r: &mut String, c: char)
    ensures
        final(r)@ == old(r)@ + debug_char(c),
{
    let code: u32 = c as u32;
    if c == '"' {
        push_char(r, '\\');
        push_char(r, '"');
    } else if c == '\\' {
        push_char(r, '\\');
        push_char(r, '\\');
    } else if c == '\n' {
        push_char(r, '\\');
        push_char(r, 'n');
    } else if c == '\r' {
        push_char(r, '\\');
        push_char(r, 'r');
    } else if c == '\t' {
        push_char(r, '\\');
        push_char(r, 't');
    } else if c == '\0' {
        push_char(r, '\\');
        push_char(r, '0');
    } else if code < 0x20 || code == 0x7f {
        push_char(r, '\\');
        push_char(r, 'u');
        push_char(r, '{');
        if code >= 16 {
            push_char(r, hex_digit(code / 16));
            proof {
                assert(hex((code / 16) as nat) == seq![hex_digit_char((code / 16) as nat)]);
            }
        }
        push_char(r, hex_digit(code % 16));
        push_char(r, '}');
    } else if code < 0x80 {
        push_char(r, c);
    } else {
        let e = escape_debug(c);
        r.append(e.as_str());
    }
    assert(r@ =~= old(r)@ + debug_char(c));
}

/// The characters of `s` as they stand inside a quoted string.
pub open spec fn debug_escape(s: Seq<char>) -> Seq<char>
    decreases s.len(),
{
    if s.len() == 0 {
        Seq::empty()
    } else {
        debug_escape(s.drop_last()) + debug_char(s.last())
    }
}

/// `s` as the debug format writes a string: escaped, between double quotes.
pub open spec fn debug_quoted(s: Seq<char>) -> Seq<char> {
    "\""@ + debug_escape(s) + "\""@
}

/// An optional string, written at the depth of a field.
pub open spec fn debug_opt_str(o: Option<Seq<char>>) -> Seq<char> {
    match o {
        Some(s) => "Some(\n        "@ + debug_quoted(s) + ",\n    )"@,
        None => "None"@,
    }
}

/// An optional checksum, written at the depth of a field.
pub open spec fn debug_opt_u32(o: Option<u32>) -> Seq<char> {
    match o {
        Some(h) => "Some(\n        "@ + decimal(h as nat) + ",\n    )"@,
        None => "None"@,
    }
}

/// The items of a list of strings, each on a line of its own.
pub open spec fn debug_items(ks: Seq<Seq<char>>) -> Seq<char>
    decreases ks.len(),
{
    if ks.len() == 0 {
        Seq::empty()
    } else {
        debug_items(ks.drop_last()) + "        "@ + debug_quoted(ks.last()) + ",\n"@
    }
}

/// A list of strings, written at the depth of a field.
pub open spec fn debug_list(ks: Seq<Seq<char>>) -> Seq<char> {
    if ks.len() == 0 {
        "[]"@
    } else {
        "[\n"@ + debug_items(ks) + "    ]"@
    }
}

/// The dump of an album.
pub open spec fn album_debug(a: AlbumView) -> Seq<char> {
    "Album {\n    name: "@ + debug_quoted(a.name) + ",\n    type: "@ + debug_opt_str(a.album_type)
        + ",\n    key_list: "@ + debug_list(a.key_list) + ",\n}"@
}

/// The dump of an image.
pub open spec fn image_debug(i: ImageView) -> Seq<char> {
    "Image {\n    media_type: "@ + debug_quoted(i.media_type) + ",\n    comment: "@ + debug_quoted(
        i.comment,
    ) + ",\n    image_path: "@ + debug_quoted(i.image_path) + ",\n    original_path: "@
        + debug_opt_str(i.original_path) + ",\n    hash: "@ + debug_opt_u32(i.hash) + ",\n}"@
}

fn push_quoted(r: &mut String, s: &str)
    ensures
        final(r)@ == old(r)@ + debug_quoted(s@),
{
    push_char(r, '"');
    let ghost start = r@;
    let ghost t = s@;
    proof {
        assert(t.take(0) =~= Seq::<char>::empty());
        assert(start =~= start + debug_escape(t.take(0)));
    }
    for c in it: s.chars()
        invariant
            it.seq() == t,
            r@ == start + debug_escape(t.take(it.index())),
    {
        push_debug_char(r, c);
        proof {
            assert(t.take(it.index() + 1).drop_last() =~= t.take(it.index()));
            assert(t.take(it.index() + 1).last() == c);
            assert(r@ =~= start + debug_escape(t.take(it.index() + 1)));
        }
    }
    push_char(r, '"');
    proof {
        assert(t.take(t.len() as int) =~= t);
        reveal_strlit("\"");
        assert(r@ =~= old(r)@ + debug_quoted(s@));
    }
}

fn push_opt_str(r: &mut String, o: &Option<String>)
    ensures
        final(r)@ == old(r)@ + debug_opt_str(crate::model::opt_view(*o)),
{
    match o {
        Some(s) => {
            r.append("Some(\n        ");
            push_quoted(r, s.as_str());
            r.append(",\n    )");
        },
        None => {
            r.append("None");
        },
    }
    proof {
        assert(r@ =~= old(r)@ + debug_opt_str(crate::model::opt_view(*o)));
    }
}

fn push_opt_u32(r: &mut String, o: Option<u32>)
    ensures
        final(r)@ == old(r)@ + debug_opt_u32(o),
{
    match o {
        Some(h) => {
            r.append("Some(\n        ");
            push_decimal(r, h as u64);
            r.append(",\n    )");
        },
        None => {
            r.append("None");
        },
    }
    proof {
        assert(r@ =~= old(r)@ + debug_opt_u32(o));
    }
}

fn push_list(r: &mut String, ks: &Vec<String>)
    ensures
        final(r)@ == old(r)@ + debug_list(strings_view(ks@)),
{
    let ghost v = strings_view(ks@);
    if ks.len() == 0 {
        r.append("[]");
        proof {
            assert(r@ =~= old(r)@ + debug_list(v));
        }
        return;
    }
    r.append("[\n");
    let ghost start = r@;
    let mut i: usize = 0;
    proof {
        assert(v.take(0) =~= Seq::<Seq<char>>::empty());
        assert(start =~= start + debug_items(v.take(0)));
    }
    while i < ks.len()
        invariant
            i <= ks.len(),
            v == strings_view(ks@),
            r@ == start + debug_items(v.take(i as int)),
        decreases ks.len() - i,
    {
        r.append("        ");
        push_quoted(r, ks[i].as_str());
        r.append(",\n");
        proof {
            assert(v.take(i + 1).drop_last() =~= v.take(i as int));
            assert(v.take(i + 1).last() == ks@[i as int]@);
        }
        i = i + 1;
        proof {
            assert(r@ =~= start + debug_items(v.take(i as int)));
        }
    }
    r.append("    ]");
    proof {
        assert(v.take(v.len() as int) =~= v);
        assert(r@ =~= old(r)@ + debug_list(v));
    }
}

/// The dump of an album, as `{:#?}` lays it out.
pub fn album_dump(a: &Album) -> (r: String)
    ensures
        r@ == album_debug(a@),
{
    let mut r = String::from_str("Album {\n    name: ");
    push_quoted(&mut r, a.name.as_str());
    r.append(",\n    type: ");
    push_opt_str(&mut r, &a.album_type);
    r.append(",\n    key_list: ");
    push_list(&mut r, &a.key_list);
    r.append(",\n}");
    proof {
        assert(r@ =~= album_debug(a@));
    }
    r
}

/// The dump of an image, as `{:#?}` lays it out.
pub fn image_dump(i: &Image) -> (r: String)
    ensures
        r@ == image_debug(i@),
{
    let mut r = String::from_str("Image {\n    media_type: ");
    push_quoted(&mut r, i.media_type.as_str());
    r.append(",\n    comment: ");
    push_quoted(&mut r, i.comment.as_str());
    r.append(",\n    image_path: ");
    push_quoted(&mut r, i.image_path.as_str());
    r.append(",\n    original_path: ");
    push_opt_str(&mut r, &i.original_path);
    r.append(",\n    hash: ");
    push_opt_u32(&mut r, i.hash);
    r.append(",\n}");
    proof {
        assert(r@ =~= image_debug(i@));
    }
    r
}

/// The lines that the library logs about the data it read: the number of
/// albums, the archive id, a heading and the dump of each album, a heading
/// and, for each entry of the master image map, its key and the dump of its
/// image.
pub open spec fn details_lines(d: AlbumData) -> Seq<Seq<char>> {
    seq![
        "Total albums: "@ + decimal(d.albums@.len()),
        "Archive Id: "@ + d.archive_id@,
        "== Albums =="@,
    ] + d.albums@.map_values(|a: Album| album_debug(a@)) + seq!["== Images =="@]
        + entries_view(d.master_image_map@).map_values(
        |e: crate::model::ImageEntryView| "id: "@ + e.key + ", "@ + image_debug(e.image),
    )
}

/// The lines that the library logs about the data it read; the first is
/// logged as information, the others for debugging.
pub fn log_details(album_data: &AlbumData) -> (r: Vec<String>)
    requires
        album_data.has_distinct_keys(),
    ensures
        strings_view(r@) == details_lines(*album_data),
{
    let mut r: Vec<String> = Vec::new();
    let mut total = String::from_str("Total albums: ");
    push_decimal(&mut total, album_data.albums.len() as u64);
    r.push(total);
    let mut archive = String::from_str("Archive Id: ");
    archive.append(album_data.archive_id.as_str());
    r.push(archive);
    r.push(String::from_str("== Albums =="));
    let ghost head = strings_view(r@);
    let ghost albums = album_data.albums@.map_values(|a: Album| album_debug(a@));
    let mut i: usize = 0;
    proof {
        assert(head =~= seq![
            "Total albums: "@ + decimal(album_data.albums@.len()),
            "Archive Id: "@ + album_data.archive_id@,
            "== Albums =="@,
        ]);
    }
    while i < album_data.albums.len()
        invariant
            i <= album_data.albums.len(),
            albums == album_data.albums@.map_values(|a: Album| album_debug(a@)),
            strings_view(r@) == head + albums.take(i as int),
        decreases album_data.albums.len() - i,
    {
        let ghost before = r@;
        r.push(album_dump(&album_data.albums[i]));
        proof {
            assert(strings_view(r@) =~= strings_view(before).push(albums[i as int]));
            assert(albums.take(i + 1) =~= albums.take(i as int).push(albums[i as int]));
        }
        i = i + 1;
    }
    r.push(String::from_str("== Images =="));
    let ghost mid = strings_view(r@);
    let ghost images = entries_view(album_data.master_image_map@).map_values(
        |e: crate::model::ImageEntryView| "id: "@ + e.key + ", "@ + image_debug(e.image),
    );
    proof {
        assert(albums.take(albums.len() as int) =~= albums);
    }
    let mut j: usize = 0;
    while j < album_data.master_image_map.len()
        invariant
            j <= album_data.master_image_map.len(),
            images == entries_view(album_data.master_image_map@).map_values(
                |e: crate::model::ImageEntryView| "id: "@ + e.key + ", "@ + image_debug(e.image),
            ),
            strings_view(r@) == mid + images.take(j as int),
        decreases album_data.master_image_map.len() - j,
    {
        let e = &album_data.master_image_map[j];
        let mut line = String::from_str("id: ");
        line.append(e.key.as_str());
        line.append(", ");
        let dump = image_dump(&e.image);
        line.append(dump.as_str());
        let ghost before = r@;
        r.push(line);
        proof {
            assert(images[j as int] == "id: "@ + e.key@ + ", "@ + image_debug(e.image@));
            assert(strings_view(r@) =~= strings_view(before).push(images[j as int]));
            assert(images.take(j + 1) =~= images.take(j as int).push(images[j as int]));
        }
        j = j + 1;
    }
    proof {
        assert(images.take(images.len() as int) =~= images);
        assert(strings_view(r@) =~= details_lines(*album_data));
    }
    r
}

} // verus!
