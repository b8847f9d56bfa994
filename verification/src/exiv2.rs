//! The shell script that writes the comments of the exported images into
//! their metadata with the `exiv2` tool.
use vstd::prelude::*;
use crate::text::{decimal, push_char, push_decimal};

verus! {

/// `s` with each double quote preceded by a backslash, so that it can stand
/// between double quotes in a shell command.
pub open spec fn escape_quotes(s: Seq<char>) -> Seq<char>
    decreases s.len(),
{
    if s.len() == 0 {
        Seq::empty()
    } else if s.last() == '"' {
        escape_quotes(s.drop_last()).push('\\').push('"')
    } else {
        escape_quotes(s.drop_last()).push(s.last())
    }
}

/// `s` with each backslash that stands right before a double quote taken
/// out, read from the end: the inverse of [`escape_quotes`].
pub open spec fn unescape_quotes(s: Seq<char>) -> Seq<char>
    decreases s.len(),
{
    if s.len() >= 2 && s.last() == '"' && s[s.len() - 2] == '\\' {
        unescape_quotes(s.subrange(0, s.len() - 2)).push('"')
    } else if s.len() == 0 {
        Seq::empty()
    } else {
        unescape_quotes(s.drop_last()).push(s.last())
    }
}

/// Escaping loses nothing: taking the added backslashes out gives the
/// comment back, so two different comments never give the same text.
pub proof fn law_escape_quotes_round_trip(s: Seq<char>)
    ensures
        unescape_quotes(escape_quotes(s)) == s,
    decreases s.len(),
{
    if s.len() > 0 {
        law_escape_quotes_round_trip(s.drop_last());
        let e = escape_quotes(s);
        let prev = escape_quotes(s.drop_last());
        if s.last() == '"' {
            assert(e.subrange(0, e.len() - 2) =~= prev);
        } else {
            assert(e.drop_last() =~= prev);
        }
        assert(s.drop_last().push(s.last()) =~= s);
    }
}

/// Escaping works character by character: the text of two joined strings
/// is the joined texts, a double quote becomes a backslash and a double
/// quote, and any other character stays as it is.
pub proof fn law_escape_quotes_by_character(a: Seq<char>, b: Seq<char>, c: char)
    ensures
        escape_quotes(a + b) == escape_quotes(a) + escape_quotes(b),
        escape_quotes(Seq::<char>::empty()) == Seq::<char>::empty(),
        c == '"' ==> escape_quotes(seq![c]) == seq!['\\', '"'],
        c != '"' ==> escape_quotes(seq![c]) == seq![c],
    decreases b.len(),
{
    assert(seq![c].drop_last() =~= Seq::<char>::empty());
    if c == '"' {
        assert(Seq::<char>::empty().push('\\').push('"') =~= seq!['\\', '"']);
    } else {
        assert(Seq::<char>::empty().push(c) =~= seq![c]);
    }
    if b.len() == 0 {
        assert(a + b =~= a);
        assert(escape_quotes(a) + escape_quotes(b) =~= escape_quotes(a));
    } else {
        law_escape_quotes_by_character(a, b.drop_last(), c);
        assert((a + b).drop_last() =~= a + b.drop_last());
        assert((a + b).last() == b.last());
        if b.last() == '"' {
            assert(escape_quotes(a) + escape_quotes(b) =~= (escape_quotes(a) + escape_quotes(
                b.drop_last(),
            )).push('\\').push('"'));
        } else {
            assert(escape_quotes(a) + escape_quotes(b) =~= (escape_quotes(a) + escape_quotes(
                b.drop_last(),
            )).push(b.last()));
        }
    }
}

/// Each byte in decimal followed by " 0 ": the list of byte values that the
/// `XPComment` tag takes, each byte as the low half of a two-byte unit.
pub open spec fn byte_list(bytes: Seq<u8>) -> Seq<char>
    decreases bytes.len(),
{
    if bytes.len() == 0 {
        Seq::empty()
    } else {
        byte_list(bytes.drop_last()) + decimal(bytes.last() as nat) + " 0 "@
    }
}

/// The byte list works byte by byte: the list of two joined byte strings
/// is the joined lists, and one byte gives its decimal notation and " 0 ".
pub proof fn law_byte_list_by_byte(a: Seq<u8>, b: Seq<u8>, x: u8)
    ensures
        byte_list(a + b) == byte_list(a) + byte_list(b),
        byte_list(Seq::<u8>::empty()) == Seq::<char>::empty(),
        byte_list(seq![x]) == decimal(x as nat) + " 0 "@,
    decreases b.len(),
{
    assert(seq![x].drop_last() =~= Seq::<u8>::empty());
    assert(Seq::<char>::empty() + decimal(x as nat) + " 0 "@ =~= decimal(x as nat) + " 0 "@);
    if b.len() == 0 {
        assert(a + b =~= a);
        assert(byte_list(a) + byte_list(b) =~= byte_list(a));
    } else {
        law_byte_list_by_byte(a, b.drop_last(), x);
        assert((a + b).drop_last() =~= a + b.drop_last());
        assert((a + b).last() == b.last());
        assert(byte_list(a) + byte_list(b) =~= byte_list(a) + byte_list(b.drop_last()) + decimal(
            b.last() as nat,
        ) + " 0 "@);
    }
}

/// The line that sets one tag of `file` with `exiv2`: `exiv2 -q -M "set
/// <tag> <value>" "<file>"`.
pub open spec fn exiv2_line(tag: Seq<char>, value: Seq<char>, file: Seq<char>) -> Seq<char> {
    "exiv2 -q -M \"set "@ + tag + value + "\" \""@ + file + "\"\n"@
}

/// The four lines that write `comment` into the description, the Windows
/// comment, the IPTC caption and the XMP description of `file`.
pub open spec fn comment_lines(comment: Seq<char>, file: Seq<char>) -> Seq<char> {
    let escaped = escape_quotes(comment);
    exiv2_line("Exif.Image.ImageDescription Ascii "@, escaped, file) + exiv2_line(
        "Exif.Image.XPComment Byte "@,
        byte_list(vstd::utf8::encode_utf8(comment)),
        file,
    ) + exiv2_line("Iptc.Application2.Caption String "@, escaped, file) + exiv2_line(
        "Xmp.dc.description LangAlt lang=en-US "@,
        escaped,
        file,
    )
}

/// The first line of the script.
pub open spec fn script_header_line() -> Seq<char> {
    "#!/bin/sh -e\n"@
}

/// The first line of the script: it runs with `sh` and stops at the first
/// command that fails.
pub fn script_header() -> (r: String)
    ensures
        r@ == script_header_line(),
{
    String::from_str("#!/bin/sh -e\n")
}

/// `comment` with each double quote preceded by a backslash.
pub fn escape_comment(comment: &str) -> (r: String)
    ensures
        r@ == escape_quotes(comment@),
{
    let mut r = String::new();
    let ghost s = comment@;
    proof {
        assert(s.take(0) =~= Seq::<char>::empty());
    }
    for c in it: comment.chars()
        invariant
            it.seq() == s,
            r@ == escape_quotes(s.take(it.index())),
    {
        proof {
            assert(s.take(it.index() + 1).drop_last() =~= s.take(it.index()));
            assert(s.take(it.index() + 1).last() == c);
        }
        if c == '"' {
            push_char(&mut r, '\\');
            push_char(&mut r, '"');
        } else {
            push_char(&mut r, c);
        }
    }
    proof {
        assert(s.take(s.len() as int) =~= s);
    }
    r
}

/// Each byte of the UTF-8 encoding of `comment` in decimal, followed by " 0 ".
pub fn comment_bytes(comment: &str) -> (r: String)
    ensures
        r@ == byte_list(vstd::utf8::encode_utf8(comment@)),
{
    let bytes = comment.as_bytes();
    let ghost b = bytes@;
    let mut r = String::new();
    let mut i: usize = 0;
    proof {
        assert(b.take(0) =~= Seq::<u8>::empty());
    }
    while i < bytes.len()
        invariant
            i <= bytes.len(),
            b == bytes@,
            r@ == byte_list(b.take(i as int)),
        decreases bytes.len() - i,
    {
        push_decimal(&mut r, bytes[i] as u64);
        r.append(" 0 ");
        proof {
            assert(b.take(i + 1).drop_last() =~= b.take(i as int));
            assert(b.take(i + 1).last() == b[i as int]);
        }
        i = i + 1;
    }
    proof {
        assert(b.take(b.len() as int) =~= b);
    }
    r
}

fn push_exiv2_line(r: &mut String, tag: &str, value: &str, file: &str)
    ensures
        final(r)@ == old(r)@ + exiv2_line(tag@, value@, file@),
{
    r.append("exiv2 -q -M \"set ");
    r.append(tag);
    r.append(value);
    r.append("\" \"");
    r.append(file);
    r.append("\"\n");
    proof {
        assert(r@ =~= old(r)@ + exiv2_line(tag@, value@, file@));
    }
}

/// The lines of the script that write `comment` into the metadata of
/// `file`: its EXIF description (with double quotes escaped), its Windows
/// comment (as the list of its UTF-8 bytes), its IPTC caption and its XMP
/// description.
pub fn add_comment(comment: &str, file: &str) -> (r: String)
    ensures
        r@ == comment_lines(comment@, file@),
{
    let escaped = escape_comment(comment);
    let bytes = comment_bytes(comment);
    let mut r = String::new();
    push_exiv2_line(&mut r, "Exif.Image.ImageDescription Ascii ", escaped.as_str(), file);
    push_exiv2_line(&mut r, "Exif.Image.XPComment Byte ", bytes.as_str(), file);
    push_exiv2_line(&mut r, "Iptc.Application2.Caption String ", escaped.as_str(), file);
    push_exiv2_line(&mut r, "Xmp.dc.description LangAlt lang=en-US ", escaped.as_str(), file);
    proof {
        assert(r@ =~= comment_lines(comment@, file@));
    }
    r
}

} // verus!
