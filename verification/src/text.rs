//! Plain-text building blocks: comparing, taking apart and putting together strings, and writing
//! numbers out in decimal.

use vstd::prelude::*;
use vstd::string::*;
use vstd::utf8::*;

verus! {

/// Stands for `std::string::String::push`: the character is appended at the end of the string and
/// nothing else changes.
pub assume_specification[ String::push ](s: &mut String, c: char)
    ensures
        final(s)@ == old(s)@.push(c),
;

/// Two strings are told apart by their bytes alone.
pub proof fn lemma_same_bytes(a: Seq<char>, b: Seq<char>)
    ensures
        encode_utf8(a) == encode_utf8(b) <==> a == b,
{
    encode_utf8_decode_utf8(a);
    encode_utf8_decode_utf8(b);
}

/// Whether two strings hold the same characters.
pub fn same(a: &str, b: &str) -> (r: bool)
    ensures
        r == (a@ == b@),
{
    let x = a.as_bytes();
    let y = b.as_bytes();
    proof {
        lemma_same_bytes(a@, b@);
    }
    if x.len() != y.len() {
        return false;
    }
    let mut i: usize = 0;
    while i < x.len()
        invariant
            i <= x.len(),
            x.len() == y.len(),
            x@ == encode_utf8(a@),
            y@ == encode_utf8(b@),
            encode_utf8(a@) == encode_utf8(b@) <==> a@ == b@,
            forall|k: int| 0 <= k < i ==> x@[k] == y@[k],
        decreases x.len() - i,
    {
        if x[i] != y[i] {
            return false;
        }
        i += 1;
    }
    assert(x@ =~= y@);
    true
}

/// The characters of a string, as a vector.
pub fn chars_of(s: &str) -> (v: Vec<char>)
    ensures
        v@ == s@,
{
    broadcast use group_string_axioms;

    let mut v: Vec<char> = Vec::new();
    for c in it: s.chars()
        invariant
            v@ == s@.take(it.index() as int),
            it.seq() == s@,
    {
        v.push(c);
        assert(v@ =~= s@.take(it.index() as int + 1));
    }
    assert(v@ =~= s@);
    v
}

/// The string made of the given characters.
pub fn string_of(v: &Vec<char>) -> (s: String)
    ensures
        s@ == v@,
{
    string_of_range(v, 0, v.len())
}

/// The string made of the characters `from..to` of `v`.
pub fn string_of_range(v: &Vec<char>, from: usize, to: usize) -> (s: String)
    requires
        from <= to <= v.len(),
    ensures
        s@ == v@.subrange(from as int, to as int),
{
    let mut s = String::new();
    let mut i: usize = from;
    while i < to
        invariant
            from <= i <= to <= v.len(),
            s@ == v@.subrange(from as int, i as int),
        decreases to - i,
    {
        s.push(v[i]);
        i += 1;
        assert(s@ =~= v@.subrange(from as int, i as int));
    }
    s
}

/// The decimal digit `d`.
pub open spec fn digit(d: nat) -> char {
    (('0' as u32 + d) as u32) as char
}

/// A number in decimal, without leading zeros.
pub open spec fn decimal(n: nat) -> Seq<char>
    decreases n,
{
    if n < 10 {
        seq![digit(n)]
    } else {
        decimal(n / 10).push(digit(n % 10))
    }
}

/// Appends `n` in decimal.
pub fn push_decimal(s: &mut String, n: u64)
    ensures
        final(s)@ == old(s)@ + decimal(n as nat),
    decreases n,
{
    if n >= 10 {
        push_decimal(s, n / 10);
    }
    let d: u8 = (n % 10) as u8;
    s.push((48u8 + d) as char);
    assert(s@ =~= old(s)@ + decimal(n as nat));
}

/// `n` in decimal.
pub fn decimal_string(n: u64) -> (s: String)
    ensures
        s@ == decimal(n as nat),
{
    let mut s = String::new();
    push_decimal(&mut s, n);
    assert(s@ =~= decimal(n as nat));
    s
}

/// `n / d` rounded to a whole number, halves to the even neighbour.
pub open spec fn rounded(n: int, d: int) -> int {
    let q = n / d;
    let r = n % d;
    if 2 * r > d || (2 * r == d && q % 2 == 1) {
        q + 1
    } else {
        q
    }
}

/// `n / d` rounded to a whole number, halves to the even neighbour.
fn round_even(n: u64, d: u64) -> (r: u64)
    requires
        0 < d <= 0x1_0000_0000,
    ensures
        r == rounded(n as int, d as int),
{
    let q: u64 = n / d;
    let rest: u64 = n % d;
    if 2 * rest > d || (2 * rest == d && q % 2 == 1) {
        assert(q < u64::MAX) by (nonlinear_arith)
            requires
                q == n / d,
                rest == n % d,
                rest > 0,
                d > 0,
                n <= u64::MAX,
        ;
        q + 1
    } else {
        q
    }
}

/// A number without its sign.
pub open spec fn magnitude(n: int) -> int {
    if n < 0 {
        -n
    } else {
        n
    }
}

/// The sign of a number that is written out.
pub open spec fn sign(n: int) -> Seq<char> {
    if n < 0 {
        "-"@
    } else {
        Seq::empty()
    }
}

/// The sign of a number, and the number without it.
fn split_sign(n: i64) -> (r: (String, u64))
    ensures
        r.0@ == sign(n as int),
        r.1 == magnitude(n as int),
{
    if n < 0 {
        ("-".to_owned(), (-(n as i128)) as u64)
    } else {
        let s = String::new();
        assert(s@ =~= sign(n as int));
        (s, n as u64)
    }
}

/// `n / d` written out as a whole number.
pub open spec fn rounded_text(n: int, d: int) -> Seq<char> {
    sign(n) + decimal(rounded(magnitude(n), d) as nat)
}

/// A number of hundredths `n / d` written out with two decimals.
pub open spec fn hundredths_text(n: int, d: int) -> Seq<char> {
    let h = rounded(magnitude(n), d);
    sign(n) + decimal((h / 100) as nat) + "."@ + decimal(((h / 10) % 10) as nat) + decimal(
        (h % 10) as nat,
    )
}

/// Appends `n / d` as a whole number, halves rounded to the even neighbour.
pub fn push_rounded(s: &mut String, n: i64, d: u64)
    requires
        0 < d <= 0x1_0000_0000,
    ensures
        final(s)@ == old(s)@ + rounded_text(n as int, d as int),
{
    let (minus, size) = split_sign(n);
    s.append(minus.as_str());
    push_decimal(s, round_even(size, d));
    assert(s@ =~= old(s)@ + rounded_text(n as int, d as int));
}

/// Appends a number of hundredths `n / d` with two decimals.
pub fn push_hundredths(s: &mut String, n: i64, d: u64)
    requires
        0 < d <= 0x1_0000_0000,
    ensures
        final(s)@ == old(s)@ + hundredths_text(n as int, d as int),
{
    let (minus, size) = split_sign(n);
    let h: u64 = round_even(size, d);
    s.append(minus.as_str());
    push_decimal(s, h / 100);
    s.append(".");
    push_decimal(s, (h / 10) % 10);
    push_decimal(s, h % 10);
    assert(s@ =~= old(s)@ + hundredths_text(n as int, d as int));
}

/// The value of a run of decimal digits.
pub open spec fn decimal_value(s: Seq<char>) -> nat
    decreases s.len(),
{
    if s.len() == 0 {
        0
    } else {
        decimal_value(s.drop_last()) * 10 + (s.last() as nat - '0' as nat) as nat
    }
}

/// Every character is a decimal digit.
pub open spec fn all_digits(s: Seq<char>) -> bool {
    forall|i: int| 0 <= i < s.len() ==> '0' <= #[trigger] s[i] && s[i] <= '9'
}

/// Writing a number out and reading it back gives the number, and no two numbers are written alike.
pub proof fn decimal_reads_back(n: nat)
    ensures
        decimal(n).len() > 0,
        all_digits(decimal(n)),
        decimal_value(decimal(n)) == n,
    decreases n,
{
    if n < 10 {
        let s = seq![digit(n)];
        assert(s.drop_last() =~= Seq::<char>::empty());
        assert(decimal_value(s.drop_last()) == 0);
        assert(decimal(n) == s);
    } else {
        decimal_reads_back(n / 10);
        let s = decimal(n);
        assert(s.drop_last() =~= decimal(n / 10));
        assert(s.last() == digit(n % 10));
    }
}

/// The pieces of a text between the separators, empty ones among them.
pub open spec fn pieces(s: Seq<char>, sep: char) -> Seq<Seq<char>>
    decreases s.len(),
{
    if s.len() == 0 {
        seq![Seq::empty()]
    } else {
        let before = pieces(s.drop_last(), sep);
        if s.last() == sep {
            before.push(Seq::empty())
        } else {
            before.drop_last().push(before.last().push(s.last()))
        }
    }
}

/// The texts in a list.
pub open spec fn string_views(v: Seq<String>) -> Seq<Seq<char>> {
    Seq::new(v.len(), |i: int| v[i]@)
}

/// Several texts with a separator between them.
pub open spec fn joined(parts: Seq<Seq<char>>, sep: Seq<char>) -> Seq<char>
    decreases parts.len(),
{
    if parts.len() == 0 {
        Seq::empty()
    } else if parts.len() == 1 {
        parts[0]
    } else {
        joined(parts.drop_last(), sep) + sep + parts.last()
    }
}

/// A text without separators is one piece.
pub proof fn lemma_one_piece(s: Seq<char>, sep: char)
    requires
        forall|i: int| 0 <= i < s.len() ==> #[trigger] s[i] != sep,
    ensures
        pieces(s, sep) == seq![s],
    decreases s.len(),
{
    if s.len() > 0 {
        let t = s.drop_last();
        assert forall|i: int| 0 <= i < t.len() implies #[trigger] t[i] != sep by {
            assert(t[i] == s[i]);
        }
        lemma_one_piece(t, sep);
        assert(s[s.len() - 1] != sep);
        assert(t.push(s.last()) =~= s);
        assert(pieces(s, sep) =~= seq![s]);
    } else {
        assert(s =~= Seq::<char>::empty());
    }
}

proof fn lemma_first_piece_stays(s: Seq<char>, sep: char, more: Seq<char>)
    ensures
        pieces(s + seq![sep] + more, sep).len() >= 2,
        pieces(s + seq![sep] + more, sep)[0] == pieces(s, sep)[0],
    decreases more.len(),
{
    let all = s + seq![sep] + more;
    lemma_pieces(s, sep);
    if more.len() == 0 {
        assert(all.drop_last() =~= s);
        assert(all.last() == sep);
    } else {
        lemma_first_piece_stays(s, sep, more.drop_last());
        assert(all.drop_last() =~= s + seq![sep] + more.drop_last());
    }
}

/// The first piece of several texts that were put together is the first of them, where it holds no
/// separator.
pub proof fn lemma_first_of_joined(parts: Seq<Seq<char>>, sep: char)
    requires
        parts.len() > 0,
        forall|i: int| 0 <= i < parts[0].len() ==> #[trigger] parts[0][i] != sep,
    ensures
        pieces(joined(parts, seq![sep]), sep)[0] == parts[0],
    decreases parts.len(),
{
    if parts.len() == 1 {
        lemma_one_piece(parts[0], sep);
    } else {
        let init = parts.drop_last();
        assert(init[0] == parts[0]);
        lemma_first_of_joined(init, sep);
        lemma_first_piece_stays(joined(init, seq![sep]), sep, parts.last());
    }
}

/// There is at least one piece, and no piece holds the separator.
pub proof fn lemma_pieces(s: Seq<char>, sep: char)
    ensures
        pieces(s, sep).len() > 0,
        forall|i: int, j: int|
            0 <= i < pieces(s, sep).len() && 0 <= j < pieces(s, sep)[i].len()
                ==> #[trigger] pieces(s, sep)[i][j] != sep,
    decreases s.len(),
{
    if s.len() > 0 {
        lemma_pieces(s.drop_last(), sep);
        let before = pieces(s.drop_last(), sep);
        let all = pieces(s, sep);
        assert forall|i: int, j: int| 0 <= i < all.len() && 0 <= j < all[i].len() implies #[trigger] all[i][j] != sep by {
            if s.last() == sep {
                if i < before.len() {
                    assert(all[i] == before[i]);
                }
            } else if i < before.len() - 1 {
                assert(all[i] == before[i]);
            } else {
                let l = before.len() - 1;
                assert(before[l] == before.last());
                if j < before.last().len() {
                    assert(before[l][j] != sep);
                }
            }
        }
    }
}

/// The pieces of a text between the separators, empty ones among them.
pub fn split(s: &str, sep: char) -> (r: Vec<String>)
    ensures
        string_views(r@) == pieces(s@, sep),
{
    let v = chars_of(s);
    let mut out: Vec<String> = Vec::new();
    let mut cur = String::new();
    let mut i: usize = 0;
    assert(string_views(out@).push(cur@) =~= pieces(v@.take(0), sep));
    while i < v.len()
        invariant
            i <= v.len(),
            v@ == s@,
            string_views(out@).push(cur@) == pieces(v@.take(i as int), sep),
        decreases v.len() - i,
    {
        let c = v[i];
        let ghost before = string_views(out@).push(cur@);
        let ghost was = out@;
        assert(v@.take(i as int + 1).drop_last() =~= v@.take(i as int));
        assert(v@.take(i as int + 1).last() == c);
        if c == sep {
            let ghost done = cur@;
            out.push(cur);
            cur = String::new();
            assert(string_views(out@) =~= string_views(was).push(done));
        } else {
            cur.push(c);
            assert(before.drop_last() =~= string_views(out@));
        }
        i += 1;
        assert(string_views(out@).push(cur@) =~= pieces(v@.take(i as int), sep));
    }
    assert(v@.take(i as int) =~= s@);
    let ghost was = out@;
    let ghost done = cur@;
    out.push(cur);
    assert(string_views(out@) =~= string_views(was).push(done));
    out
}

/// The texts in order, with a separator between them.
pub fn join(parts: &Vec<String>, sep: &str) -> (r: String)
    ensures
        r@ == joined(string_views(parts@), sep@),
{
    let ghost pv = string_views(parts@);
    let mut r = String::new();
    let mut i: usize = 0;
    while i < parts.len()
        invariant
            i <= parts.len(),
            pv == string_views(parts@),
            r@ == joined(pv.take(i as int), sep@),
        decreases parts.len() - i,
    {
        if i > 0 {
            r.append(sep);
        }
        r.append(parts[i].as_str());
        assert(pv.take(i as int + 1).drop_last() =~= pv.take(i as int));
        assert(r@ =~= joined(pv.take(i as int + 1), sep@));
        i += 1;
    }
    assert(pv.take(i as int) =~= pv);
    r
}

/// A text with every `from` exchanged for `to`.
pub open spec fn exchanged(s: Seq<char>, from: char, to: char) -> Seq<char> {
    s.map_values(|c: char| if c == from { to } else { c })
}

/// The text with every `from` exchanged for `to`.
pub fn replace_char(s: &str, from: char, to: char) -> (r: String)
    ensures
        r@ == exchanged(s@, from, to),
{
    let v = chars_of(s);
    let mut r = String::new();
    let mut i: usize = 0;
    while i < v.len()
        invariant
            i <= v.len(),
            r@ == exchanged(v@.take(i as int), from, to),
        decreases v.len() - i,
    {
        let c = v[i];
        r.push(if c == from { to } else { c });
        i += 1;
        assert(r@ =~= exchanged(v@.take(i as int), from, to));
    }
    assert(v@.take(i as int) =~= v@);
    r
}

/// The upper-case form of an ASCII letter; any other character as it is.
pub open spec fn upper(c: char) -> char {
    if 'a' <= c && c <= 'z' {
        (c as u32 - 32) as char
    } else {
        c
    }
}

/// The upper-case form of an ASCII letter; any other character as it is.
pub fn to_upper(c: char) -> (r: char)
    ensures
        r == upper(c),
{
    if 'a' <= c && c <= 'z' {
        let d: u8 = c as u8;
        (d - 32) as char
    } else {
        c
    }
}

/// The path of `file` below the directory `dir`.
pub open spec fn beneath(dir: Seq<char>, file: Seq<char>) -> Seq<char> {
    if dir.len() == 0 || dir.last() == '/' {
        dir + file
    } else {
        dir.push('/') + file
    }
}

/// The path of `file` below the directory `dir`.
pub fn path_beneath(dir: &str, file: &str) -> (r: String)
    ensures
        r@ == beneath(dir@, file@),
{
    let v = chars_of(dir);
    let mut r = dir.to_owned();
    if v.len() > 0 && v[v.len() - 1] != '/' {
        r.push('/');
    }
    r.append(file);
    r
}

/// Whether a text holds another one.
pub open spec fn holds(s: Seq<char>, key: Seq<char>) -> bool {
    exists|i: int|
        0 <= i <= s.len() - key.len() && #[trigger] s.subrange(i, i + key.len()) == key
}

/// Whether the characters hold another text.
pub fn contains(s: &Vec<char>, key: &str) -> (r: bool)
    ensures
        r == holds(s@, key@),
{
    let k = chars_of(key);
    if k.len() > s.len() {
        return false;
    }
    let last: usize = s.len() - k.len();
    let mut i: usize = 0;
    while i <= last
        invariant
            last == s.len() - k.len(),
            i <= last + 1,
            k.len() <= s.len(),
            k@ == key@,
            forall|j: int| 0 <= j < i ==> #[trigger] s@.subrange(j, j + k@.len()) != k@,
        decreases last + 1 - i,
    {
        let mut n: usize = 0;
        while n < k.len() && s[i + n] == k[n]
            invariant
                n <= k.len(),
                i <= last,
                last == s.len() - k.len(),
                k.len() <= s.len(),
                forall|m: int| 0 <= m < n ==> s@[i + m] == k@[m],
            decreases k.len() - n,
        {
            n += 1;
        }
        let ghost part = s@.subrange(i as int, i + k@.len());
        if n == k.len() {
            assert(part =~= k@);
            return true;
        }
        assert(part[n as int] != k@[n as int]);
        if i == last {
            return false;
        }
        i += 1;
    }
    false
}

/// A text that ends in a separator and a piece has that piece last.
pub proof fn lemma_last_piece(s: Seq<char>, sep: char, p: Seq<char>)
    requires
        forall|j: int| 0 <= j < p.len() ==> #[trigger] p[j] != sep,
    ensures
        pieces(s.push(sep) + p, sep) == pieces(s, sep).push(p),
    decreases p.len(),
{
    let all = s.push(sep) + p;
    if p.len() == 0 {
        assert(all =~= s.push(sep));
        assert(all.drop_last() =~= s);
        assert(p =~= Seq::<char>::empty());
    } else {
        let head = p.drop_last();
        assert forall|j: int| 0 <= j < head.len() implies #[trigger] head[j] != sep by {
            assert(head[j] == p[j]);
        }
        lemma_last_piece(s, sep, head);
        assert(all.drop_last() =~= s.push(sep) + head);
        assert(all.last() == p[p.len() - 1]);
        let before = pieces(s, sep).push(head);
        assert(before.drop_last() =~= pieces(s, sep));
        assert(head.push(p.last()) =~= p);
        assert(pieces(all, sep) =~= pieces(s, sep).push(p));
    }
}

/// Joining undoes taking apart: texts without separators, joined by one, are its pieces again.
pub proof fn lemma_pieces_of_joined(parts: Seq<Seq<char>>)
    requires
        parts.len() > 0,
        forall|i: int, j: int|
            0 <= i < parts.len() && 0 <= j < parts[i].len() ==> #[trigger] parts[i][j] != '/',
    ensures
        pieces(joined(parts, "/"@), '/') == parts,
    decreases parts.len(),
{
    reveal_strlit("/");
    if parts.len() == 1 {
        lemma_one_piece(parts[0], '/');
        assert(pieces(parts[0], '/') =~= parts);
    } else {
        let head = parts.drop_last();
        let p = parts.last();
        assert forall|i: int, j: int| 0 <= i < head.len() && 0 <= j < head[i].len() implies #[trigger] head[i][j]
            != '/' by {
            assert(head[i] == parts[i]);
        }
        assert forall|j: int| 0 <= j < p.len() implies #[trigger] p[j] != '/' by {
            assert(parts[parts.len() - 1][j] != '/');
        }
        lemma_pieces_of_joined(head);
        lemma_last_piece(joined(head, "/"@), '/', p);
        assert(joined(parts, "/"@) =~= joined(head, "/"@).push('/') + p);
        assert(head.push(p) =~= parts);
    }
}

} // verus!
