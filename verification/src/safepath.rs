//! Turning the file names that a peer sends into names that can be created inside one directory.

use crate::text;
use crate::text::{chars_of, join, replace_char, same, split, string_of, to_upper};
use vstd::prelude::*;

verus! {

/// Whether Windows refuses the character in a file name.
pub open spec fn refused_by_windows(c: char) -> bool {
    ||| c == '<'
    ||| c == '>'
    ||| c == ':'
    ||| c == '"'
    ||| c == '/'
    ||| c == '\\'
    ||| c == '|'
    ||| c == '?'
    ||| c == '*'
    ||| (c as u32) < 0x20
}

/// The part of a name before its first dot, in upper case.
pub open spec fn stem(name: Seq<char>) -> Seq<char> {
    text::pieces(name, '.')[0].map_values(|c: char| text::upper(c))
}

/// Whether the name stands for a device on Windows: `CON`, `PRN`, `AUX`, `NUL`, `COM1` to `COM9`
/// and `LPT1` to `LPT9`, in upper or lower case and with whatever extension.
pub open spec fn reserved(name: Seq<char>) -> bool {
    let s = stem(name);
    ||| s == "CON"@
    ||| s == "PRN"@
    ||| s == "AUX"@
    ||| s == "NUL"@
    ||| s.len() == 4 && (s.take(3) == "COM"@ || s.take(3) == "LPT"@) && '1' <= s[3] && s[3] <= '9'
}

/// A name without the dots and spaces at its end.
pub open spec fn trimmed_end(s: Seq<char>) -> Seq<char>
    decreases s.len(),
{
    if s.len() > 0 && (s.last() == '.' || s.last() == ' ') {
        trimmed_end(s.drop_last())
    } else {
        s
    }
}

/// One path component in a form that can be created: as it is, but on Windows with what Windows
/// refuses exchanged for `_`, without the dots and spaces at the end, and with a `_` before the
/// name of a device. Nothing is left empty.
pub open spec fn scrubbed(part: Seq<char>, windows: bool) -> Seq<char> {
    if !windows {
        part
    } else {
        let s = trimmed_end(
            part.map_values(
                |c: char|
                    if refused_by_windows(c) {
                        '_'
                    } else {
                        c
                    },
            ),
        );
        if reserved(s) {
            seq!['_'] + s
        } else if s.len() == 0 {
            seq!['_']
        } else {
            s
        }
    }
}

/// Whether a component begins with a drive letter, as in `C:foo`.
pub open spec fn on_a_drive(part: Seq<char>) -> bool {
    part.len() >= 2 && part[1] == ':' && ('A' <= text::upper(part[0]) && text::upper(part[0]) <= 'Z')
}

/// Whether a component names something inside the directory that it is taken in.
pub open spec fn names_a_child(part: Seq<char>) -> bool {
    part.len() > 0 && part != "."@ && part != ".."@ && !on_a_drive(part)
}

/// The components of a path that stay, in order.
pub open spec fn kept(rel: Seq<char>) -> Seq<Seq<char>> {
    text::pieces(text::exchanged(rel, '\\', '/'), '/').filter(|p: Seq<char>| names_a_child(p))
}

/// The components of a safe path.
pub open spec fn safe(rel: Seq<char>, windows: bool) -> Seq<Seq<char>> {
    let k = kept(rel);
    if k.len() == 0 {
        seq!["unnamed"@]
    } else {
        k.map_values(|p: Seq<char>| scrubbed(p, windows))
    }
}

/// The part of a name before its first dot, in upper case.
fn stem_of(name: &str) -> (r: Vec<char>)
    ensures
        r@ == stem(name@),
{
    let parts = split(name, '.');
    proof {
        text::lemma_pieces(name@, '.');
        assert(text::string_views(parts@)[0] == parts@[0]@);
    }
    let v = chars_of(parts[0].as_str());
    let ghost up = |c: char| text::upper(c);
    let mut r: Vec<char> = Vec::new();
    let mut i: usize = 0;
    while i < v.len()
        invariant
            i <= v.len(),
            up == (|c: char| text::upper(c)),
            r@ == v@.take(i as int).map_values(up),
        decreases v.len() - i,
    {
        r.push(to_upper(v[i]));
        i += 1;
        assert(r@ =~= v@.take(i as int).map_values(up));
    }
    assert(v@.take(i as int) =~= v@);
    r
}

/// `CON`, `PRN`, `AUX`, `NUL`, and `COM1`..`COM9` / `LPT1`..`LPT9`. Matched case-insensitively
/// and ignoring any extension, because Windows does.
pub fn is_windows_reserved(name: &str) -> (r: bool)
    ensures
        r == reserved(name@),
{
    let s = stem_of(name);
    proof {
        reveal_strlit("CON");
        reveal_strlit("PRN");
        reveal_strlit("AUX");
        reveal_strlit("NUL");
        reveal_strlit("COM");
        reveal_strlit("LPT");
    }
    if s.len() == 3 {
        let con = s[0] == 'C' && s[1] == 'O' && s[2] == 'N';
        let prn = s[0] == 'P' && s[1] == 'R' && s[2] == 'N';
        let aux = s[0] == 'A' && s[1] == 'U' && s[2] == 'X';
        let nul = s[0] == 'N' && s[1] == 'U' && s[2] == 'L';
        assert(con ==> s@ =~= "CON"@);
        assert(prn ==> s@ =~= "PRN"@);
        assert(aux ==> s@ =~= "AUX"@);
        assert(nul ==> s@ =~= "NUL"@);
        return con || prn || aux || nul;
    }
    if s.len() == 4 {
        let com = s[0] == 'C' && s[1] == 'O' && s[2] == 'M';
        let lpt = s[0] == 'L' && s[1] == 'P' && s[2] == 'T';
        proof {
            let t = s@.take(3);
            assert(com ==> t =~= "COM"@);
            assert(lpt ==> t =~= "LPT"@);
            assert(t[0] == s@[0] && t[1] == s@[1] && t[2] == s@[2]);
        }
        return (com || lpt) && '1' <= s[3] && s[3] <= '9';
    }
    false
}

/// Make one path component creatable on the current platform.
pub fn scrub_component(part: &str, windows: bool) -> (r: String)
    ensures
        r@ == scrubbed(part@, windows),
{
    if !windows {
        return part.to_owned();
    }
    let v = chars_of(part);
    let ghost f = |c: char|
        if refused_by_windows(c) {
            '_'
        } else {
            c
        };
    let mut s: Vec<char> = Vec::new();
    let mut i: usize = 0;
    while i < v.len()
        invariant
            i <= v.len(),
            f == (|c: char|
                if refused_by_windows(c) {
                    '_'
                } else {
                    c
                }),
            s@ == v@.take(i as int).map_values(f),
        decreases v.len() - i,
    {
        let c = v[i];
        let bad = c == '<' || c == '>' || c == ':' || c == '"' || c == '/' || c == '\\' || c == '|'
            || c == '?' || c == '*' || (c as u32) < 0x20;
        s.push(if bad { '_' } else { c });
        i += 1;
        assert(s@ =~= v@.take(i as int).map_values(f));
    }
    assert(v@.take(i as int) =~= v@);
    let ghost all = s@;
    while s.len() > 0 && (s[s.len() - 1] == '.' || s[s.len() - 1] == ' ')
        invariant
            trimmed_end(s@) == trimmed_end(all),
        decreases s.len(),
    {
        let ghost was = s@;
        let _c = s.pop();
        assert(s@ =~= was.drop_last());
    }
    let name = string_of(&s);
    if is_windows_reserved(name.as_str()) {
        let mut r = String::new();
        r.push('_');
        r.append(name.as_str());
        assert(r@ =~= seq!['_'] + name@);
        return r;
    }
    if s.len() == 0 {
        let mut r = String::new();
        r.push('_');
        assert(r@ =~= seq!['_']);
        return r;
    }
    name
}

/// Whether a component names something inside the directory that it is taken in: it is not empty
/// (a leading or doubled separator), `.`, `..` or a drive designator, which addresses another
/// volume.
fn is_child_name(part: &str) -> (r: bool)
    ensures
        r == names_a_child(part@),
{
    let v = chars_of(part);
    if v.len() == 0 || same(part, ".") || same(part, "..") {
        return false;
    }
    if v.len() >= 2 && v[1] == ':' {
        let c = to_upper(v[0]);
        return !('A' <= c && c <= 'Z');
    }
    true
}

/// The components of a path that is safe to write inside the transfer root.
pub fn safe_components(rel: &str, windows: bool) -> (r: Vec<String>)
    ensures
        text::string_views(r@) == safe(rel@, windows),
{
    let normalised = replace_char(rel, '\\', '/');
    let parts = split(normalised.as_str(), '/');
    let ghost pv = text::string_views(parts@);
    let ghost keep = |p: Seq<char>| names_a_child(p);
    let ghost f = |p: Seq<char>| scrubbed(p, windows);
    let mut out: Vec<String> = Vec::new();
    let mut i: usize = 0;
    assert(text::string_views(out@) =~= pv.take(0).filter(keep).map_values(f)) by {
        reveal(Seq::filter);
    }
    while i < parts.len()
        invariant
            i <= parts.len(),
            pv == text::string_views(parts@),
            keep == (|p: Seq<char>| names_a_child(p)),
            f == (|p: Seq<char>| scrubbed(p, windows)),
            text::string_views(out@) == pv.take(i as int).filter(keep).map_values(f),
        decreases parts.len() - i,
    {
        let ghost was = out@;
        let ghost k = pv.take(i as int).filter(keep);
        assert(pv[i as int] == parts[i as int]@);
        assert(pv.take(i as int + 1).drop_last() =~= pv.take(i as int));
        if is_child_name(parts[i].as_str()) {
            let c = scrub_component(parts[i].as_str(), windows);
            out.push(c);
            assert(text::string_views(out@) =~= text::string_views(was).push(c@));
            assert(k.push(pv[i as int]).map_values(f) =~= k.map_values(f).push(f(pv[i as int])));
        }
        proof {
            reveal(Seq::filter);
        }
        i += 1;
    }
    assert(pv.take(i as int) =~= pv);
    if out.len() == 0 {
        assert(kept(rel@).map_values(f).len() == 0);
        out.push("unnamed".to_owned());
        assert(text::string_views(out@) =~= seq!["unnamed"@]);
    } else {
        assert(kept(rel@).map_values(f).len() > 0);
    }
    out
}

/// Turn a peer-supplied manifest path into a path that is safe to write **inside** the transfer
/// root, `/` between its components.
///
/// A manifest arrives over the network, so it is untrusted input: `../../.ssh/authorized_keys`,
/// a bare `/etc/passwd`, and Windows drive/UNC forms all have to be neutralised before anything
/// touches the filesystem. Every entry is sanitised, never dropped, so the number of files, and
/// therefore the byte accounting the sender relies on, stays exactly in step with the manifest. A
/// path that sanitises away to nothing becomes `unnamed`.
pub fn safe_rel(rel: &str, windows: bool) -> (r: String)
    ensures
        r@ == text::joined(safe(rel@, windows), "/"@),
{
    join(&safe_components(rel, windows), "/")
}

/// A name that can only ever mean something inside the directory that it is taken in.
pub open spec fn stays_inside(c: Seq<char>) -> bool {
    &&& c.len() > 0
    &&& c != "."@
    &&& c != ".."@
    &&& forall|i: int| 0 <= i < c.len() ==> #[trigger] c[i] != '/' && c[i] != '\\'
}

proof fn lemma_trimmed_end(s: Seq<char>)
    ensures
        trimmed_end(s).len() <= s.len(),
        trimmed_end(s) == s.take(trimmed_end(s).len() as int),
        trimmed_end(s).len() > 0 ==> trimmed_end(s).last() != '.' && trimmed_end(s).last() != ' ',
    decreases s.len(),
{
    if s.len() > 0 && (s.last() == '.' || s.last() == ' ') {
        lemma_trimmed_end(s.drop_last());
        assert(trimmed_end(s) =~= s.take(trimmed_end(s).len() as int));
    } else {
        assert(s =~= s.take(s.len() as int));
    }
}

proof fn lemma_scrubbed(part: Seq<char>, windows: bool)
    requires
        names_a_child(part),
        forall|i: int| 0 <= i < part.len() ==> #[trigger] part[i] != '/' && part[i] != '\\',
    ensures
        stays_inside(scrubbed(part, windows)),
        windows ==> {
            let c = scrubbed(part, windows);
            &&& forall|i: int| 0 <= i < c.len() ==> !refused_by_windows(#[trigger] c[i])
            &&& c.last() != '.' && c.last() != ' '
            &&& !reserved(c)
        },
{
    reveal_strlit(".");
    reveal_strlit("..");
    if windows {
        let f = |c: char|
            if refused_by_windows(c) {
                '_'
            } else {
                c
            };
        let m = part.map_values(f);
        let s = trimmed_end(m);
        lemma_trimmed_end(m);
        let c = scrubbed(part, windows);
        assert forall|i: int| 0 <= i < c.len() implies !refused_by_windows(#[trigger] c[i]) by {
            if c == seq!['_'] + s {
                if i > 0 {
                    assert(c[i] == s[i - 1]);
                    assert(s[i - 1] == m[i - 1]);
                }
            } else if s.len() > 0 {
                assert(c[i] == s[i]);
                assert(s[i] == m[i]);
            }
        }
        if c == seq!['_'] + s && s.len() > 0 {
            assert(c.last() == s.last());
        }
        assert(c.last() != '.');
        assert(c != "."@ && c != ".."@);
        if c[0] == '_' {
            lemma_underscore_not_reserved(c);
        }
    }
}

/// The first piece of a text begins as the text does.
proof fn lemma_first_piece(s: Seq<char>, sep: char)
    requires
        s.len() > 0,
        s[0] != sep,
    ensures
        text::pieces(s, sep)[0].len() > 0,
        text::pieces(s, sep)[0][0] == s[0],
    decreases s.len(),
{
    text::lemma_pieces(s.drop_last(), sep);
    if s.len() > 1 {
        lemma_first_piece(s.drop_last(), sep);
    }
}

/// No device has a name that begins with `_`.
proof fn lemma_underscore_not_reserved(c: Seq<char>)
    requires
        c.len() > 0,
        c[0] == '_',
    ensures
        !reserved(c),
{
    lemma_first_piece(c, '.');
    reveal_strlit("CON");
    reveal_strlit("PRN");
    reveal_strlit("AUX");
    reveal_strlit("NUL");
    reveal_strlit("COM");
    reveal_strlit("LPT");
    assert(stem(c)[0] == '_');
    if stem(c).len() == 4 {
        assert(stem(c).take(3)[0] == '_');
    }
}

/// Whatever a peer calls a file, its path stays inside the transfer root: it has at least one
/// component, and every component is the name of something in its directory, never the directory
/// itself, its parent, or a way out by a separator. On Windows every component is also free of the
/// characters that Windows refuses and of dots and spaces at its end, and is not the name of a
/// device.
pub proof fn safe_paths_stay_inside(rel: Seq<char>, windows: bool)
    ensures
        safe(rel, windows).len() > 0,
        forall|i: int|
            0 <= i < safe(rel, windows).len() ==> stays_inside(#[trigger] safe(rel, windows)[i]),
        windows ==> forall|i: int, j: int|
            0 <= i < safe(rel, windows).len() && 0 <= j < safe(rel, windows)[i].len()
                ==> !refused_by_windows(#[trigger] safe(rel, windows)[i][j]),
        windows ==> forall|i: int|
            0 <= i < safe(rel, windows).len() ==> (#[trigger] safe(rel, windows)[i]).last() != '.'
                && safe(rel, windows)[i].last() != ' ' && !reserved(safe(rel, windows)[i]),
{
    let norm = text::exchanged(rel, '\\', '/');
    let all = text::pieces(norm, '/');
    let keep = |p: Seq<char>| names_a_child(p);
    let k = kept(rel);
    let r = safe(rel, windows);
    text::lemma_pieces(norm, '/');
    lemma_pieces_of(norm, '/', '\\');
    reveal_strlit("unnamed");
    reveal_strlit(".");
    reveal_strlit("..");
    assert forall|i: int| 0 <= i < r.len() implies stays_inside(#[trigger] r[i]) && (windows ==> r[i].last()
        != '.' && r[i].last() != ' ' && !reserved(r[i]) && forall|j: int|
        0 <= j < r[i].len() ==> !refused_by_windows(#[trigger] r[i][j])) by {
        if k.len() > 0 {
            all.lemma_filter_pred(keep, i);
            all.lemma_filter_contains_rev(keep, k[i]);
            let n = choose|n: int| 0 <= n < all.len() && all[n] == k[i];
            assert forall|j: int| 0 <= j < k[i].len() implies #[trigger] k[i][j] != '/' && k[i][j]
                != '\\' by {
                assert(all[n][j] != '/');
                assert(all[n][j] != '\\');
            }
            lemma_scrubbed(k[i], windows);
        } else {
            text::lemma_one_piece("unnamed"@, '.');
            reveal_strlit("CON");
            reveal_strlit("PRN");
            reveal_strlit("AUX");
            reveal_strlit("NUL");
            assert(stem("unnamed"@).len() == 7);
        }
    }
}

/// The pieces of a text hold no character that the text does not hold.
proof fn lemma_pieces_of(s: Seq<char>, sep: char, c: char)
    requires
        forall|i: int| 0 <= i < s.len() ==> #[trigger] s[i] != c,
    ensures
        forall|i: int, j: int|
            0 <= i < text::pieces(s, sep).len() && 0 <= j < text::pieces(s, sep)[i].len()
                ==> #[trigger] text::pieces(s, sep)[i][j] != c,
    decreases s.len(),
{
    if s.len() > 0 {
        let t = s.drop_last();
        assert forall|i: int| 0 <= i < t.len() implies #[trigger] t[i] != c by {
            assert(t[i] == s[i]);
        }
        lemma_pieces_of(t, sep, c);
        text::lemma_pieces(t, sep);
        let before = text::pieces(t, sep);
        let all = text::pieces(s, sep);
        assert forall|i: int, j: int| 0 <= i < all.len() && 0 <= j < all[i].len() implies #[trigger] all[i][j]
            != c by {
            if s.last() == sep {
                if i < before.len() {
                    assert(all[i] == before[i]);
                }
            } else if i < before.len() - 1 {
                assert(all[i] == before[i]);
            } else {
                let l = before.len() - 1;
                assert(before[l] == before.last());
                if j < before.last().len() {
                    assert(before[l][j] != c);
                } else {
                    assert(s[s.len() - 1] != c);
                }
            }
        }
    }
}

/// Whether a component of a path names something in the directory that it is taken in: it is neither
/// empty nor one or two dots, nor does it begin with the letter of a drive.
pub open spec fn is_child(p: Seq<char>) -> bool {
    &&& p.len() > 0
    &&& !(p.len() == 1 && p[0] == '.')
    &&& !(p.len() == 2 && p[0] == '.' && p[1] == '.')
    &&& !(p.len() >= 2 && p[1] == ':' && ('a' <= p[0] && p[0] <= 'z' || 'A' <= p[0] && p[0] <= 'Z'))
}

/// Whether a component holds no separator.
pub open spec fn in_one_piece(p: Seq<char>) -> bool {
    forall|i: int| 0 <= i < p.len() ==> #[trigger] p[i] != '/' && p[i] != '\\'
}

/// Whether a component can be created on Windows as it is and is far from the name of a device: it
/// holds nothing that Windows refuses, ends in neither a dot nor a space, and what stands before its
/// first dot has neither three nor four letters, or begins with none of those that a device begins
/// with.
pub open spec fn suits_windows(p: Seq<char>) -> bool {
    &&& forall|i: int|
        0 <= i < p.len() ==> #[trigger] p[i] as u32 >= 0x20 && p[i] != '<' && p[i] != '>' && p[i]
            != ':' && p[i] != '"' && p[i] != '|' && p[i] != '?' && p[i] != '*'
    &&& p.len() > 0 ==> p.last() != '.' && p.last() != ' '
    &&& {
        let before = text::pieces(p, '.')[0];
        ||| before.len() != 3 && before.len() != 4
        ||| !(before[0] == 'C' || before[0] == 'c' || before[0] == 'P' || before[0] == 'p'
            || before[0] == 'A' || before[0] == 'a' || before[0] == 'N' || before[0] == 'n'
            || before[0] == 'L' || before[0] == 'l')
    }
}

proof fn lemma_is_child(p: Seq<char>)
    ensures
        is_child(p) == names_a_child(p),
{
    reveal_strlit(".");
    reveal_strlit("..");
    if p.len() == 1 && p[0] == '.' {
        assert(p =~= "."@);
    }
    if p.len() == 2 && p[0] == '.' && p[1] == '.' {
        assert(p =~= ".."@);
    }
    if p.len() >= 2 {
        lemma_letter(p[0]);
    }
}

proof fn lemma_letter(c: char)
    ensures
        ('a' <= c && c <= 'z' || 'A' <= c && c <= 'Z') == ('A' <= text::upper(c) && text::upper(c)
            <= 'Z'),
{
}

proof fn lemma_joined_is_exchanged(parts: Seq<Seq<char>>)
    requires
        forall|i: int| 0 <= i < parts.len() ==> in_one_piece(#[trigger] parts[i]),
    ensures
        text::exchanged(text::joined(parts, "/"@), '\\', '/') == text::joined(parts, "/"@),
    decreases parts.len(),
{
    reveal_strlit("/");
    let all = text::joined(parts, "/"@);
    assert(forall|i: int| 0 <= i < all.len() ==> #[trigger] all[i] != '\\') by {
        lemma_joined_holds_no(parts);
    }
    assert(text::exchanged(all, '\\', '/') =~= all);
}

proof fn lemma_joined_holds_no(parts: Seq<Seq<char>>)
    requires
        forall|i: int| 0 <= i < parts.len() ==> in_one_piece(#[trigger] parts[i]),
    ensures
        forall|i: int|
            0 <= i < text::joined(parts, "/"@).len() ==> #[trigger] text::joined(parts, "/"@)[i]
                != '\\',
    decreases parts.len(),
{
    reveal_strlit("/");
    let all = text::joined(parts, "/"@);
    if parts.len() == 1 {
        assert(in_one_piece(parts[0]));
    } else if parts.len() > 1 {
        let head = parts.drop_last();
        assert forall|i: int| 0 <= i < head.len() implies in_one_piece(#[trigger] head[i]) by {
            assert(head[i] == parts[i]);
        }
        lemma_joined_holds_no(head);
        let before = text::joined(head, "/"@);
        assert(in_one_piece(parts[parts.len() - 1]));
        assert forall|i: int| 0 <= i < all.len() implies #[trigger] all[i] != '\\' by {
            if i < before.len() {
                assert(all[i] == before[i]);
            } else if i > before.len() {
                assert(all[i] == parts.last()[i - before.len() - 1]);
            }
        }
    }
}

/// The components of a path that stay are exactly those that name something in their directory, as
/// they are and in their order; where none does, the file has no name of its own. On Windows they
/// are made fit for it.
pub proof fn only_ways_out_are_left_out(parts: Seq<Seq<char>>)
    requires
        parts.len() > 0,
        forall|i: int| 0 <= i < parts.len() ==> in_one_piece(#[trigger] parts[i]),
    ensures
        ({
            let stay = parts.filter(|p: Seq<char>| is_child(p));
            let path = text::joined(parts, "/"@);
            &&& stay.len() > 0 ==> safe(path, false) == stay
            &&& stay.len() == 0 ==> safe(path, false) == seq!["unnamed"@]
            &&& stay.len() > 0 ==> safe(path, true).len() == stay.len()
            &&& stay.len() == 0 ==> safe(path, true) == seq!["unnamed"@]
        }),
{
    let path = text::joined(parts, "/"@);
    lemma_joined_is_exchanged(parts);
    assert forall|i: int, j: int| 0 <= i < parts.len() && 0 <= j < parts[i].len() implies #[trigger] parts[i][j]
        != '/' by {
        assert(in_one_piece(parts[i]));
    }
    text::lemma_pieces_of_joined(parts);
    let a = |p: Seq<char>| is_child(p);
    let b = |p: Seq<char>| names_a_child(p);
    assert forall|p: Seq<char>| #[trigger] is_child(p) == names_a_child(p) by {
        lemma_is_child(p);
    }
    assert(a =~= b);
    assert(kept(path) == parts.filter(a));
    assert(safe(path, false) =~= (if parts.filter(a).len() == 0 {
        seq!["unnamed"@]
    } else {
        parts.filter(a)
    }));
}

/// An ordinary path is kept as it is: every component that names something in its directory, and on
/// Windows can be created there. It does not matter which way the separators of the path lean.
pub proof fn ordinary_paths_are_kept(parts: Seq<Seq<char>>, windows: bool, rel: Seq<char>)
    requires
        parts.len() > 0,
        forall|i: int|
            0 <= i < parts.len() ==> in_one_piece(#[trigger] parts[i]) && is_child(parts[i]) && (
            windows ==> suits_windows(parts[i])),
        rel.len() == text::joined(parts, "/"@).len(),
        forall|i: int|
            0 <= i < rel.len() ==> #[trigger] rel[i] == text::joined(parts, "/"@)[i] || (rel[i] == '\\'
                && text::joined(parts, "/"@)[i] == '/'),
    ensures
        safe(rel, windows) == parts,
        text::joined(safe(rel, windows), "/"@) == text::joined(parts, "/"@),
{
    let path = text::joined(parts, "/"@);
    lemma_joined_holds_no(parts);
    assert(text::exchanged(rel, '\\', '/') =~= path);
    assert forall|i: int, j: int| 0 <= i < parts.len() && 0 <= j < parts[i].len() implies #[trigger] parts[i][j]
        != '/' by {
        assert(in_one_piece(parts[i]));
    }
    text::lemma_pieces_of_joined(parts);
    let b = |p: Seq<char>| names_a_child(p);
    assert forall|i: int| 0 <= i < parts.len() implies b(#[trigger] parts[i]) by {
        lemma_is_child(parts[i]);
    }
    crate::network::lemma_filter_all(parts, b);
    assert(kept(rel) == parts);
    assert forall|i: int| 0 <= i < parts.len() implies #[trigger] safe(rel, windows)[i] == parts[i] by {
        assert(in_one_piece(parts[i]));
        if windows {
            lemma_suits_windows(parts[i]);
        }
    }
    assert(safe(rel, windows) =~= parts);
}

proof fn lemma_suits_windows(p: Seq<char>)
    requires
        in_one_piece(p),
        is_child(p),
        suits_windows(p),
    ensures
        scrubbed(p, true) == p,
{
    let clean = p.map_values(
        |c: char|
            if refused_by_windows(c) {
                '_'
            } else {
                c
            },
    );
    assert(clean =~= p);
    assert(trimmed_end(p) == p);
    reveal_strlit("CON");
    reveal_strlit("PRN");
    reveal_strlit("AUX");
    reveal_strlit("NUL");
    reveal_strlit("COM");
    reveal_strlit("LPT");
    let before = text::pieces(p, '.')[0];
    let s = stem(p);
    assert(s.len() == before.len());
    if s.len() == 3 || s.len() == 4 {
        assert(s[0] == text::upper(before[0]));
        assert(s[0] != 'C' && s[0] != 'P' && s[0] != 'A' && s[0] != 'N' && s[0] != 'L');
        if s.len() == 4 {
            assert(s.take(3)[0] == s[0]);
        }
    }
    assert(!reserved(p));
}

} // verus!
