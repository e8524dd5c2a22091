//! The forms in which the system pasteboards hold **files** (Finder copy / Explorer copy).
//!
//! * **macOS**: a `file://` URL per file.
//! * **Windows**: the `CF_HDROP` format, a `DROPFILES` header plus a double-null-terminated list of
//!   wide paths.
//! * **Linux**: not wired up (X11 selections vary by desktop); file copy is a no-op there.

use crate::text;
use vstd::prelude::*;
use vstd::string::*;
use vstd::utf8;

verus! {

/// What `std::string::String::from_utf8_lossy` makes of a run of bytes.
pub uninterp spec fn lossy_text(b: Seq<u8>) -> Seq<char>;

/// Calls `std::string::String::from_utf8_lossy`. Bytes that are valid UTF-8 are taken for what
/// they encode; how invalid ones are replaced is left open, beyond that it depends on the bytes
/// alone.
#[verifier::external_body]
fn utf8_lossy(b: &Vec<u8>) -> (r: String)
    ensures
        r@ == lossy_text(b@),
        utf8::valid_utf8(b@) ==> r@ == utf8::decode_utf8(b@),
{
    String::from_utf8_lossy(b).into_owned()
}

/// The value of a hexadecimal digit, given as a byte.
pub open spec fn hex_value(c: u8) -> Option<u8> {
    if 48 <= c <= 57 {
        Some((c - 48) as u8)
    } else if 97 <= c <= 102 {
        Some((c - 87) as u8)
    } else if 65 <= c <= 70 {
        Some((c - 55) as u8)
    } else {
        None
    }
}

/// The value of a hexadecimal digit, given as a byte.
pub fn hex(c: u8) -> (r: Option<u8>)
    ensures
        r == hex_value(c),
{
    if 48 <= c && c <= 57 {
        Some(c - 48)
    } else if 97 <= c && c <= 102 {
        Some(c - 87)
    } else if 65 <= c && c <= 70 {
        Some(c - 55)
    } else {
        None
    }
}

/// Whether a byte stands for itself in a URL path: letters, digits, `-`, `_`, `.`, `~` and the
/// separator.
pub open spec fn unreserved(b: u8) -> bool {
    ||| 65 <= b <= 90
    ||| 97 <= b <= 122
    ||| 48 <= b <= 57
    ||| b == 45
    ||| b == 95
    ||| b == 46
    ||| b == 126
    ||| b == 47
}

/// The upper-case hexadecimal digit of a value.
pub open spec fn hex_digit(v: int) -> u8 {
    if v < 10 {
        (48 + v) as u8
    } else {
        (55 + v) as u8
    }
}

/// A run of bytes with everything that does not stand for itself written as `%` and two digits.
pub open spec fn escaped(b: Seq<u8>) -> Seq<u8>
    decreases b.len(),
{
    if b.len() == 0 {
        Seq::empty()
    } else if unreserved(b.last()) {
        escaped(b.drop_last()).push(b.last())
    } else {
        escaped(b.drop_last()) + seq![37, hex_digit(b.last() as int / 16), hex_digit(b.last() as int % 16)]
    }
}

/// A run of bytes with every `%` and two digits read as the byte that they stand for.
pub open spec fn unescaped(b: Seq<u8>) -> Seq<u8>
    decreases b.len(),
{
    if b.len() == 0 {
        Seq::empty()
    } else if b[0] == 37 && b.len() >= 3 && hex_value(b[1]) is Some && hex_value(b[2]) is Some {
        seq![(hex_value(b[1])->0 * 16 + hex_value(b[2])->0) as u8] + unescaped(b.skip(3))
    } else {
        seq![b[0]] + unescaped(b.skip(1))
    }
}

/// ASCII characters as bytes.
pub open spec fn ascii_bytes(s: Seq<char>) -> Seq<u8> {
    Seq::new(s.len(), |i: int| s[i] as u8)
}

/// ASCII bytes as characters.
pub open spec fn ascii_chars(b: Seq<u8>) -> Seq<char> {
    Seq::new(b.len(), |i: int| b[i] as char)
}

/// Whether a run of bytes begins with another.
pub open spec fn begins(b: Seq<u8>, prefix: Seq<u8>) -> bool {
    b.len() >= prefix.len() && b.take(prefix.len() as int) == prefix
}

/// The path that the bytes of a `file://` URL stand for, as bytes.
pub open spec fn url_path(u: Seq<u8>) -> Option<Seq<u8>> {
    if !begins(u, ascii_bytes("file://"@)) {
        None
    } else {
        let rest = u.skip(7);
        if begins(rest, ascii_bytes("localhost"@)) {
            Some(unescaped(rest.skip(9)))
        } else {
            Some(unescaped(rest))
        }
    }
}

/// The `file://` URL of a path.
pub open spec fn url_of(path: Seq<char>) -> Seq<char> {
    "file://"@ + ascii_chars(escaped(utf8::encode_utf8(path)))
}

/// Whether the bytes from `from` on begin with the characters of an ASCII text.
fn starts_at(b: &[u8], from: usize, prefix: &str) -> (r: bool)
    requires
        from <= b@.len(),
        utf8::is_ascii_chars(prefix@),
    ensures
        r == begins(b@.skip(from as int), ascii_bytes(prefix@)),
{
    let p = prefix.as_bytes();
    proof {
        utf8::is_ascii_chars_encode_utf8(prefix@);
        assert(p@ =~= ascii_bytes(prefix@));
    }
    if b.len() - from < p.len() {
        return false;
    }
    let ghost rest = b@.skip(from as int);
    let mut i: usize = 0;
    while i < p.len()
        invariant
            i <= p.len(),
            from + p.len() <= b.len(),
            rest == b@.skip(from as int),
            p@ == ascii_bytes(prefix@),
            forall|k: int| 0 <= k < i ==> rest[k] == p@[k],
        decreases p.len() - i,
    {
        if b[from + i] != p[i] {
            assert(rest.take(p@.len() as int)[i as int] != p@[i as int]);
            return false;
        }
        i += 1;
    }
    assert(rest.take(p@.len() as int) =~= p@);
    true
}

/// The bytes from `from` on, with every `%` and two digits read as the byte that they stand for.
fn unescape(b: &[u8], from: usize) -> (r: Vec<u8>)
    requires
        from <= b@.len(),
    ensures
        r@ == unescaped(b@.skip(from as int)),
{
    let mut out: Vec<u8> = Vec::new();
    let mut i: usize = from;
    assert(out@ + unescaped(b@.skip(i as int)) =~= unescaped(b@.skip(from as int)));
    while i < b.len()
        invariant
            from <= i <= b.len(),
            out@ + unescaped(b@.skip(i as int)) == unescaped(b@.skip(from as int)),
        decreases b.len() - i,
    {
        let ghost was = out@;
        let ghost rest = b@.skip(i as int);
        if b[i] == 37 && b.len() - i >= 3 {
            if let (Some(h), Some(l)) = (hex(b[i + 1]), hex(b[i + 2])) {
                out.push(h * 16 + l);
                assert(rest.skip(3) =~= b@.skip(i as int + 3));
                assert(out@ + unescaped(rest.skip(3)) =~= was + unescaped(rest));
                i += 3;
                continue ;
            }
        }
        out.push(b[i]);
        assert(rest.skip(1) =~= b@.skip(i as int + 1));
        assert(out@ + unescaped(rest.skip(1)) =~= was + unescaped(rest));
        i += 1;
    }
    assert(out@ =~= unescaped(b@.skip(from as int)));
    out
}

/// `file:///Users/a/b%20c.txt` becomes `/Users/a/b c.txt`; what is no `file://` URL is no path. An
/// empty host and `localhost` are both this machine.
pub fn url_to_path(url: &str) -> (r: Option<String>)
    ensures
        match r {
            Some(p) => url_path(utf8::encode_utf8(url@)) matches Some(b) && p@ == lossy_text(b),
            None => url_path(utf8::encode_utf8(url@)) is None,
        },
        r matches Some(p) ==> {
            let b = url_path(utf8::encode_utf8(url@))->0;
            utf8::valid_utf8(b) ==> p@ == utf8::decode_utf8(b)
        },
{
    let b = url.as_bytes();
    proof {
        reveal_strlit("file://");
        reveal_strlit("localhost");
        assert(b@.skip(0) =~= b@);
        assert(b@.len() >= 7 ==> b@.skip(7).len() == b@.len() - 7);
    }
    if !starts_at(b, 0, "file://") {
        return None;
    }
    let bytes = if starts_at(b, 7, "localhost") {
        assert(b@.skip(16) =~= b@.skip(7).skip(9));
        unescape(b, 16)
    } else {
        unescape(b, 7)
    };
    Some(utf8_lossy(&bytes))
}

/// The `file://` URL of a path. The separators and unreserved characters are left alone, everything
/// else is percent-encoded, so spaces and non-ASCII names survive.
pub fn path_to_url(p: &str) -> (r: String)
    ensures
        r@ == url_of(p@),
{
    let b = p.as_bytes();
    let mut out = "file://".to_owned();
    let mut i: usize = 0;
    assert(out@ =~= "file://"@ + ascii_chars(escaped(b@.take(0))));
    while i < b.len()
        invariant
            i <= b.len(),
            out@ == "file://"@ + ascii_chars(escaped(b@.take(i as int))),
        decreases b.len() - i,
    {
        let c: u8 = b[i];
        let ghost e = escaped(b@.take(i as int));
        assert(b@.take(i as int + 1).drop_last() =~= b@.take(i as int));
        assert(b@.take(i as int + 1).last() == c);
        let plain = (65 <= c && c <= 90) || (97 <= c && c <= 122) || (48 <= c && c <= 57) || c == 45
            || c == 95 || c == 46 || c == 126 || c == 47;
        if plain {
            out.push(c as char);
            assert(out@ =~= "file://"@ + ascii_chars(e.push(c)));
        } else {
            let h: u8 = c / 16;
            let l: u8 = c % 16;
            let hd: u8 = if h < 10 { 48 + h } else { 55 + h };
            let ld: u8 = if l < 10 { 48 + l } else { 55 + l };
            out.push('%');
            out.push(hd as char);
            out.push(ld as char);
            assert(out@ =~= "file://"@ + ascii_chars(e + seq![37, hd, ld]));
        }
        i += 1;
    }
    assert(b@.take(i as int) =~= b@);
    out
}

proof fn lemma_escaped_ascii(b: Seq<u8>)
    ensures
        forall|i: int| 0 <= i < escaped(b).len() ==> #[trigger] escaped(b)[i] < 128,
    decreases b.len(),
{
    if b.len() > 0 {
        let t = b.drop_last();
        lemma_escaped_ascii(t);
        let e = escaped(t);
        let c = b.last();
        assert forall|i: int| 0 <= i < escaped(b).len() implies #[trigger] escaped(b)[i] < 128 by {
            if i < e.len() {
                assert(escaped(b)[i] == e[i]);
            } else if !unreserved(c) {
                let three = seq![37u8, hex_digit(c as int / 16), hex_digit(c as int % 16)];
                assert(escaped(b)[i] == three[i - e.len()]);
            }
        }
    }
}

/// Escaping piece by piece is escaping the whole.
proof fn lemma_escaped_first(b: Seq<u8>)
    requires
        b.len() > 0,
    ensures
        escaped(b) == escaped(b.take(1)) + escaped(b.skip(1)),
    decreases b.len(),
{
    if b.len() == 1 {
        assert(b.take(1) =~= b);
        assert(b.skip(1) =~= Seq::<u8>::empty());
        assert(escaped(b) =~= escaped(b.take(1)) + escaped(b.skip(1)));
    } else {
        let t = b.drop_last();
        lemma_escaped_first(t);
        assert(t.take(1) =~= b.take(1));
        assert(t.skip(1) =~= b.skip(1).drop_last());
        assert(b.skip(1).last() == b.last());
        assert(escaped(b) =~= escaped(b.take(1)) + escaped(b.skip(1)));
    }
}

proof fn lemma_unescape_escaped(b: Seq<u8>)
    ensures
        unescaped(escaped(b)) == b,
    decreases b.len(),
{
    if b.len() == 0 {
        assert(unescaped(escaped(b)) =~= b);
    } else {
        lemma_escaped_first(b);
        let rest = b.skip(1);
        lemma_unescape_escaped(rest);
        let one = b.take(1);
        assert(one.drop_last() =~= Seq::<u8>::empty());
        assert(escaped(one.drop_last()) =~= Seq::<u8>::empty());
        let c = b[0];
        let e = escaped(b);
        if unreserved(c) {
            assert(escaped(one) =~= seq![c]);
            assert(e.skip(1) =~= escaped(rest));
            assert(unescaped(e) =~= seq![c] + unescaped(escaped(rest)));
        } else {
            let (h, l) = (hex_digit(c as int / 16), hex_digit(c as int % 16));
            assert(escaped(one) =~= seq![37u8, h, l]);
            assert(e[1] == h && e[2] == l);
            assert(e.skip(3) =~= escaped(rest));
            assert(hex_value(h) == Some((c / 16) as u8));
            assert(hex_value(l) == Some((c % 16) as u8));
            assert(unescaped(e) =~= seq![c] + unescaped(escaped(rest)));
        }
        assert(seq![c] + rest =~= b);
    }
}

/// A path that is written as a URL is read back as it was, whatever characters it holds. (One that
/// is not absolute and begins with `localhost` would be taken for a host name.)
pub proof fn urls_are_read_back(path: Seq<char>)
    requires
        !begins(utf8::encode_utf8(path), ascii_bytes("localhost"@)),
    ensures
        url_path(utf8::encode_utf8(url_of(path))) == Some(utf8::encode_utf8(path)),
        utf8::valid_utf8(utf8::encode_utf8(path)),
        utf8::decode_utf8(utf8::encode_utf8(path)) == path,
{
    let b = utf8::encode_utf8(path);
    let e = escaped(b);
    let url = url_of(path);
    utf8::encode_utf8_valid_utf8(path);
    utf8::encode_utf8_decode_utf8(path);
    lemma_escaped_ascii(b);
    reveal_strlit("file://");
    reveal_strlit("localhost");
    assert(utf8::is_ascii_chars(url));
    utf8::is_ascii_chars_encode_utf8(url);
    let u = utf8::encode_utf8(url);
    assert(u =~= ascii_bytes(url));
    assert(u.take(7) =~= ascii_bytes("file://"@));
    assert(u.skip(7) =~= e);
    lemma_unescape_escaped(b);
    let host = ascii_bytes("localhost"@);
    if begins(e, host) {
        lemma_escaped_plain_prefix(b, host);
    }
}

/// What an escaped text begins with, where that is made of letters only, the text begins with.
proof fn lemma_escaped_plain_prefix(b: Seq<u8>, prefix: Seq<u8>)
    requires
        begins(escaped(b), prefix),
        forall|i: int| 0 <= i < prefix.len() ==> 97 <= #[trigger] prefix[i] <= 122,
    ensures
        begins(b, prefix),
    decreases prefix.len(),
{
    if prefix.len() > 0 {
        let e = escaped(b);
        assert(b.len() > 0) by {
            if b.len() == 0 {
                assert(e =~= Seq::<u8>::empty());
            }
        }
        lemma_escaped_first(b);
        let one = b.take(1);
        assert(escaped(one.drop_last()) =~= Seq::<u8>::empty()) by {
            assert(one.drop_last() =~= Seq::<u8>::empty());
        }
        assert(e.take(prefix.len() as int)[0] == prefix[0]);
        assert(unreserved(b[0])) by {
            if !unreserved(b[0]) {
                assert(escaped(one)[0] == 37);
            }
        }
        assert(escaped(one) =~= seq![b[0]]);
        let rest = b.skip(1);
        assert(e.skip(1) =~= escaped(rest));
        let tail = prefix.skip(1);
        assert(escaped(rest).take(tail.len() as int) =~= e.take(prefix.len() as int).skip(1));
        assert forall|i: int| 0 <= i < tail.len() implies 97 <= #[trigger] tail[i] <= 122 by {
            assert(tail[i] == prefix[i + 1]);
        }
        lemma_escaped_plain_prefix(rest, tail);
        assert(b.take(prefix.len() as int) =~= seq![b[0]] + rest.take(tail.len() as int));
        assert(prefix =~= seq![prefix[0]] + tail);
    } else {
        assert(b.take(0) =~= prefix);
    }
}

// ---- Reading and writing the pasteboard's forms ----

/// The paths among the URLs of a pasteboard, in order.
pub open spec fn paths_in(urls: Seq<Seq<char>>) -> Seq<Seq<char>>
    decreases urls.len(),
{
    if urls.len() == 0 {
        Seq::empty()
    } else {
        let before = paths_in(urls.drop_last());
        match url_path(utf8::encode_utf8(urls.last())) {
            Some(b) => before.push(lossy_text(b)),
            None => before,
        }
    }
}

/// The file paths on a pasteboard that holds the given URLs (empty when it holds text, an image, or
/// nothing).
pub fn read_files(urls: &Vec<String>) -> (r: Vec<String>)
    ensures
        text::string_views(r@) == paths_in(text::string_views(urls@)),
{
    let ghost uv = text::string_views(urls@);
    let mut r: Vec<String> = Vec::new();
    let mut i: usize = 0;
    assert(text::string_views(r@) =~= paths_in(uv.take(0)));
    while i < urls.len()
        invariant
            i <= urls.len(),
            uv == text::string_views(urls@),
            text::string_views(r@) == paths_in(uv.take(i as int)),
        decreases urls.len() - i,
    {
        let ghost was = r@;
        assert(uv.take(i as int + 1).drop_last() =~= uv.take(i as int));
        assert(uv.take(i as int + 1).last() == urls[i as int]@);
        if let Some(p) = url_to_path(urls[i].as_str()) {
            r.push(p);
            assert(text::string_views(r@) =~= text::string_views(was).push(p@));
        }
        i += 1;
    }
    assert(uv.take(i as int) =~= uv);
    r
}

/// The URLs to put on the pasteboard for the given files, in order, so that pasting in Finder
/// pastes them; `None` where there is no file.
pub fn write_files(paths: &Vec<String>) -> (r: Option<Vec<String>>)
    ensures
        match r {
            None => paths@.len() == 0,
            Some(urls) => paths@.len() > 0 && text::string_views(urls@) == text::string_views(
                paths@,
            ).map_values(|p: Seq<char>| url_of(p)),
        },
{
    if paths.len() == 0 {
        return None;
    }
    let ghost f = |p: Seq<char>| url_of(p);
    let ghost pv = text::string_views(paths@);
    let mut r: Vec<String> = Vec::new();
    let mut i: usize = 0;
    assert(text::string_views(r@) =~= pv.take(0).map_values(f));
    while i < paths.len()
        invariant
            i <= paths.len(),
            pv == text::string_views(paths@),
            f == (|p: Seq<char>| url_of(p)),
            text::string_views(r@) == pv.take(i as int).map_values(f),
        decreases paths.len() - i,
    {
        let ghost was = r@;
        assert(pv[i as int] == paths[i as int]@);
        let u = path_to_url(paths[i].as_str());
        r.push(u);
        assert(text::string_views(r@) =~= text::string_views(was).push(u@));
        i += 1;
        assert(text::string_views(r@) =~= pv.take(i as int).map_values(f));
    }
    assert(pv.take(i as int) =~= pv);
    Some(r)
}

/// A character in UTF-16: one unit, or two for one beyond the first 65 536.
pub open spec fn utf16_char(c: char) -> Seq<u16> {
    let n = c as u32;
    if n < 0x1_0000 {
        seq![n as u16]
    } else {
        seq![(0xd800 + (n - 0x1_0000) / 0x400) as u16, (0xdc00 + (n - 0x1_0000) % 0x400) as u16]
    }
}

/// A text in UTF-16.
pub open spec fn utf16(s: Seq<char>) -> Seq<u16>
    decreases s.len(),
{
    if s.len() == 0 {
        Seq::empty()
    } else {
        utf16(s.drop_last()) + utf16_char(s.last())
    }
}

/// A list of texts in UTF-16, a zero after each.
pub open spec fn wide_names(paths: Seq<Seq<char>>) -> Seq<u16>
    decreases paths.len(),
{
    if paths.len() == 0 {
        Seq::empty()
    } else {
        wide_names(paths.drop_last()) + utf16(paths.last()).push(0)
    }
}

/// Appends a text in UTF-16.
fn push_utf16(out: &mut Vec<u16>, s: &str)
    ensures
        final(out)@ == old(out)@ + utf16(s@),
{
    let v = text::chars_of(s);
    let mut i: usize = 0;
    assert(out@ =~= old(out)@ + utf16(v@.take(0)));
    while i < v.len()
        invariant
            i <= v.len(),
            v@ == s@,
            out@ == old(out)@ + utf16(v@.take(i as int)),
        decreases v.len() - i,
    {
        let c = v[i];
        let n: u32 = c as u32;
        proof {
            utf8::char_is_scalar(c);
        }
        let ghost was = out@;
        assert(v@.take(i as int + 1).drop_last() =~= v@.take(i as int));
        if n < 0x1_0000 {
            out.push(n as u16);
            assert(out@ =~= was + utf16_char(c));
        } else {
            let m: u32 = n - 0x1_0000;
            out.push((0xd800 + m / 0x400) as u16);
            out.push((0xdc00 + m % 0x400) as u16);
            assert(out@ =~= was + utf16_char(c));
        }
        i += 1;
        assert(out@ =~= old(out)@ + utf16(v@.take(i as int)));
    }
    assert(v@.take(i as int) =~= v@);
}

/// The double-null-terminated list of wide paths that follows the `DROPFILES` header.
pub fn drop_names(paths: &Vec<String>) -> (r: Vec<u16>)
    ensures
        r@ == wide_names(text::string_views(paths@)).push(0),
{
    let ghost pv = text::string_views(paths@);
    let mut out: Vec<u16> = Vec::new();
    let mut i: usize = 0;
    assert(out@ =~= wide_names(pv.take(0)));
    while i < paths.len()
        invariant
            i <= paths.len(),
            pv == text::string_views(paths@),
            out@ == wide_names(pv.take(i as int)),
        decreases paths.len() - i,
    {
        let ghost was = out@;
        assert(pv.take(i as int + 1).drop_last() =~= pv.take(i as int));
        assert(pv.take(i as int + 1).last() == paths[i as int]@);
        push_utf16(&mut out, paths[i].as_str());
        out.push(0);
        assert(out@ =~= was + utf16(paths[i as int]@).push(0));
        i += 1;
    }
    assert(pv.take(i as int) =~= pv);
    out.push(0);
    out
}

/// Bytes of the `DROPFILES` header: an offset, two coordinates, and two flags, four bytes each.
pub const DROPFILES_BYTES: usize = 20;

/// A list of 16-bit units as bytes, the lower byte first.
pub open spec fn unit_bytes(u: Seq<u16>) -> Seq<u8>
    decreases u.len(),
{
    if u.len() == 0 {
        Seq::empty()
    } else {
        unit_bytes(u.drop_last()) + seq![(u.last() % 256) as u8, (u.last() / 256) as u8]
    }
}

/// The `DROPFILES` header: the names follow it at once, and they are wide.
pub open spec fn drop_header() -> Seq<u8> {
    seq![20, 0, 0, 0, 0, 0, 0, 0, 0, 0, 0, 0, 0, 0, 0, 0, 1, 0, 0, 0]
}

/// The contents of the `CF_HDROP` format for the given files; `None` where there is no file.
pub fn drop_files(paths: &Vec<String>) -> (r: Option<Vec<u8>>)
    ensures
        match r {
            None => paths@.len() == 0,
            Some(b) => paths@.len() > 0 && b@ == drop_header() + unit_bytes(
                wide_names(text::string_views(paths@)).push(0),
            ),
        },
{
    if paths.len() == 0 {
        return None;
    }
    let names = drop_names(paths);
    let mut out: Vec<u8> = Vec::new();
    out.push(DROPFILES_BYTES as u8);
    let mut k: usize = 1;
    while k < DROPFILES_BYTES
        invariant
            1 <= k <= DROPFILES_BYTES,
            out@ == drop_header().take(k as int),
        decreases DROPFILES_BYTES - k,
    {
        out.push(if k == 16 { 1 } else { 0 });
        k += 1;
        assert(out@ =~= drop_header().take(k as int));
    }
    assert(out@ =~= drop_header());
    let mut i: usize = 0;
    assert(out@ =~= drop_header() + unit_bytes(names@.take(0)));
    while i < names.len()
        invariant
            i <= names.len(),
            out@ == drop_header() + unit_bytes(names@.take(i as int)),
        decreases names.len() - i,
    {
        assert(names@.take(i as int + 1).drop_last() =~= names@.take(i as int));
        out.push((names[i] % 256) as u8);
        out.push((names[i] / 256) as u8);
        i += 1;
        assert(out@ =~= drop_header() + unit_bytes(names@.take(i as int)));
    }
    assert(names@.take(i as int) =~= names@);
    Some(out)
}

/// Whether a byte is a letter, a digit, `-`, `_`, `.`, `~` or `/`.
pub open spec fn is_plain(b: u8) -> bool {
    ||| 'a' as u8 <= b <= 'z' as u8
    ||| 'A' as u8 <= b <= 'Z' as u8
    ||| '0' as u8 <= b <= '9' as u8
    ||| b == '-' as u8 || b == '_' as u8 || b == '.' as u8 || b == '~' as u8 || b == '/' as u8
}

/// A URL holds nothing but plain characters and `%`, and plain names stand in it as they are.
pub proof fn urls_hold_plain_characters_only(b: Seq<u8>)
    ensures
        forall|i: int|
            0 <= i < escaped(b).len() ==> is_plain(#[trigger] escaped(b)[i]) || escaped(b)[i]
                == '%' as u8,
        (forall|i: int| 0 <= i < b.len() ==> is_plain(#[trigger] b[i])) ==> escaped(b) == b,
    decreases b.len(),
{
    if b.len() > 0 {
        let t = b.drop_last();
        let c = b.last();
        let before = escaped(t);
        urls_hold_plain_characters_only(t);
        assert(unreserved(c) == is_plain(c));
        let (h, l) = (hex_digit(c as int / 16), hex_digit(c as int % 16));
        assert(is_plain(h) && is_plain(l));
        assert forall|i: int| 0 <= i < escaped(b).len() implies is_plain(#[trigger] escaped(b)[i])
            || escaped(b)[i] == '%' as u8 by {
            if i < before.len() {
                assert(escaped(b)[i] == before[i]);
            }
        }
        if forall|i: int| 0 <= i < b.len() ==> is_plain(#[trigger] b[i]) {
            assert forall|i: int| 0 <= i < t.len() implies is_plain(#[trigger] t[i]) by {
                assert(t[i] == b[i]);
            }
            assert(is_plain(b[b.len() - 1]));
            assert(t.push(c) =~= b);
        }
    }
}

/// Only a URL of a file stands for a path, and one on this machine may say so: `file:///a` and
/// `file://localhost/a` are the same.
pub proof fn a_file_url_stands_for_its_path(rest: Seq<u8>)
    requires
        rest.len() > 0 ==> rest[0] != 'l' as u8,
    ensures
        url_path(ascii_bytes("file://"@) + rest) == Some(unescaped(rest)),
        url_path(ascii_bytes("file://localhost"@) + rest) == Some(unescaped(rest)),
{
    reveal_strlit("file://");
    reveal_strlit("localhost");
    reveal_strlit("file://localhost");
    let a = ascii_bytes("file://"@);
    let h = ascii_bytes("localhost"@);
    let u = a + rest;
    assert(u.take(7) =~= a);
    assert(u.skip(7) =~= rest);
    if begins(rest, h) {
        assert(rest.take(9)[0] == h[0]);
    }
    let v = ascii_bytes("file://localhost"@) + rest;
    assert(v.take(7) =~= a);
    assert(v.skip(7).take(9) =~= h);
    assert(v.skip(7).skip(9) =~= rest);
}

} // verus!
