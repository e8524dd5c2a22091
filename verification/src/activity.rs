//! The diagnostic log of the cursor hand-off: one line per decision, each with the time at which it
//! was taken, and the list of recent activity that the status page reads back from it.

use crate::text;
use vstd::prelude::*;
use vstd::string::*;

verus! {

/// A line of the log: the time in milliseconds and what happened.
pub open spec fn logged(ms: nat, msg: Seq<char>) -> Seq<char> {
    text::decimal(ms) + " "@ + msg
}

/// One line of the diagnostic log, without the line break.
pub fn log(ms: u64, msg: &str) -> (r: String)
    ensures
        r@ == logged(ms as nat, msg@),
{
    let mut r = text::decimal_string(ms);
    r.append(" ");
    r.append(msg);
    r
}

/// Where the log lives, below the configuration directory `dir` (shown in the GUI so users can find
/// and paste it).
pub fn log_path(dir: &str) -> (r: String)
    ensures
        r@ == text::beneath(dir@, "mouseshare.log"@),
{
    text::path_beneath(dir, "mouseshare.log")
}

/// A line without the carriage return that may stand before its line break.
pub open spec fn without_return(s: Seq<char>) -> Seq<char> {
    if s.len() > 0 && s.last() == '\r' {
        s.drop_last()
    } else {
        s
    }
}

/// The lines of a text. A last line without a line break counts, an empty one does not.
pub open spec fn text_lines(s: Seq<char>) -> Seq<Seq<char>> {
    let p = text::pieces(s, '\n');
    let ended = p.drop_last().map_values(|l: Seq<char>| without_return(l));
    if p.last().len() > 0 {
        ended.push(p.last())
    } else {
        ended
    }
}

/// The number that a text stands for, if it is one that fits: digits, behind at most one plus sign.
pub open spec fn number(s: Seq<char>) -> Option<nat> {
    let d = if s.len() > 0 && s[0] == '+' {
        s.skip(1)
    } else {
        s
    };
    if d.len() > 0 && text::all_digits(d) && text::decimal_value(d) <= u64::MAX {
        Some(text::decimal_value(d))
    } else {
        None
    }
}

/// How serious an entry is, by the log's own vocabulary.
#[derive(Debug, Clone, Copy, PartialEq, Eq, Structural)]
pub enum Tone {
    Error,
    Warning,
    Handoff,
    Normal,
}

/// How serious a message is.
pub open spec fn tone(msg: Seq<char>) -> Tone {
    let up = msg.map_values(|c: char| text::upper(c));
    if text::holds(up, "ERROR"@) || text::holds(up, "FAIL"@) {
        Tone::Error
    } else if text::holds(up, "WARN"@) {
        Tone::Warning
    } else if text::holds(up, "HAND-OFF"@) || text::holds(up, "ENTER"@) || text::holds(up, "RETURN"@) {
        Tone::Handoff
    } else {
        Tone::Normal
    }
}

/// How long ago something happened, in the largest unit that fills at least once.
pub open spec fn age(secs: nat) -> Seq<char> {
    if secs < 60 {
        text::decimal(secs) + "s"@
    } else if secs < 3600 {
        text::decimal(secs / 60) + "m"@
    } else {
        text::decimal(secs / 3600) + "h"@
    }
}

/// An entry of the activity list.
#[derive(Debug, PartialEq)]
pub struct Activity {
    pub age: String,
    pub msg: String,
    pub tone: Tone,
}

/// What an [`Activity`] holds.
#[verifier::ext_equal]
pub struct ActivityView {
    pub age: Seq<char>,
    pub msg: Seq<char>,
    pub tone: Tone,
}

impl View for Activity {
    type V = ActivityView;

    open spec fn view(&self) -> ActivityView {
        ActivityView { age: self.age@, msg: self.msg@, tone: self.tone }
    }
}

/// What a list of entries holds.
pub open spec fn activity_views(v: Seq<Activity>) -> Seq<ActivityView> {
    Seq::new(v.len(), |i: int| v[i]@)
}

/// The seconds from one time in milliseconds to another; none if it has not come yet.
pub open spec fn seconds_since(ms: nat, now: nat) -> nat {
    if now < ms {
        0
    } else {
        ((now - ms) / 1000) as nat
    }
}

/// What a line of the log says at the time `now`. A line that does not start with a time says
/// nothing.
pub open spec fn entry(line: Seq<char>, now: nat) -> Option<ActivityView> {
    let k = crate::geom::first_where(line, |c: char| c == ' ');
    if k == line.len() {
        None
    } else {
        match number(line.take(k)) {
            None => None,
            Some(ms) => Some(
                ActivityView {
                    age: age(seconds_since(ms, now)),
                    msg: line.skip(k + 1),
                    tone: tone(line.skip(k + 1)),
                },
            ),
        }
    }
}

/// What the lines say, in order.
pub open spec fn entries(lines: Seq<Seq<char>>, now: nat) -> Seq<ActivityView>
    decreases lines.len(),
{
    if lines.len() == 0 {
        Seq::empty()
    } else {
        let before = entries(lines.drop_last(), now);
        match entry(lines.last(), now) {
            None => before,
            Some(e) => before.push(e),
        }
    }
}

/// The last `max` entries of a list; the last one in any case.
pub open spec fn latest(all: Seq<ActivityView>, max: nat) -> Seq<ActivityView> {
    let n = if max == 0 {
        1
    } else {
        max as int
    };
    if all.len() <= n {
        all
    } else {
        all.skip(all.len() - n)
    }
}

/// The lines of a text.
fn split_lines(s: &str) -> (r: Vec<String>)
    ensures
        text::string_views(r@) == text_lines(s@),
{
    let parts = text::split(s, '\n');
    let ghost p = text::pieces(s@, '\n');
    proof {
        text::lemma_pieces(s@, '\n');
        assert(text::string_views(parts@).len() == parts@.len());
    }
    let ghost f = |l: Seq<char>| without_return(l);
    let mut r: Vec<String> = Vec::new();
    let mut i: usize = 0;
    assert(text::string_views(r@) =~= p.drop_last().map_values(f).take(0));
    while i < parts.len() - 1
        invariant
            parts@.len() > 0,
            i <= parts@.len() - 1,
            text::string_views(parts@) == p,
            f == (|l: Seq<char>| without_return(l)),
            text::string_views(r@) == p.drop_last().map_values(f).take(i as int),
        decreases parts.len() - i,
    {
        let v = text::chars_of(parts[i].as_str());
        let ghost was = text::string_views(r@);
        let n: usize = v.len();
        let line = if n > 0 && v[n - 1] == '\r' {
            text::string_of_range(&v, 0, n - 1)
        } else {
            text::string_of(&v)
        };
        r.push(line);
        proof {
            assert(p[i as int] == v@);
            assert(line@ =~= f(p[i as int]));
            assert(text::string_views(r@) =~= was.push(line@));
            assert(p.drop_last().map_values(f).take(i as int + 1) =~= was.push(line@));
        }
        i += 1;
    }
    assert(p.drop_last().map_values(f).take(i as int) =~= p.drop_last().map_values(f));
    let last = &parts[parts.len() - 1];
    assert(p.last() == last@);
    if !last.as_str().is_empty() {
        let ghost was = text::string_views(r@);
        r.push(last.clone());
        assert(text::string_views(r@) =~= was.push(last@));
    }
    r
}

proof fn lemma_value_grows(s: Seq<char>, n: int)
    requires
        text::all_digits(s),
        0 <= n <= s.len(),
    ensures
        text::decimal_value(s.take(n)) <= text::decimal_value(s),
    decreases s.len() - n,
{
    if n == s.len() {
        assert(s.take(n) =~= s);
    } else {
        lemma_value_grows(s, n + 1);
        assert(s.take(n + 1).drop_last() =~= s.take(n));
        assert(s.take(n + 1).last() == s[n]);
    }
}

/// The number that the first `to` characters stand for, if it is one that fits.
fn parse_number(v: &Vec<char>, to: usize) -> (r: Option<u64>)
    requires
        to <= v.len(),
    ensures
        (match r {
            None => None,
            Some(n) => Some(n as nat),
        }) == number(v@.take(to as int)),
{
    let ghost whole = v@.take(to as int);
    let from: usize = if to > 0 && v[0] == '+' {
        1
    } else {
        0
    };
    let ghost d = if whole.len() > 0 && whole[0] == '+' {
        whole.skip(1)
    } else {
        whole
    };
    assert(d =~= v@.subrange(from as int, to as int));
    if from == to {
        return None;
    }
    let mut i: usize = from;
    let mut n: u64 = 0;
    while i < to
        invariant
            from <= i <= to <= v.len(),
            from < to,
            whole == v@.take(to as int),
            d == v@.subrange(from as int, to as int),
            d == (if whole.len() > 0 && whole[0] == '+' {
                whole.skip(1)
            } else {
                whole
            }),
            text::all_digits(d.take(i - from)),
            n == text::decimal_value(d.take(i - from)),
        decreases to - i,
    {
        let c = v[i];
        let ghost k = i - from;
        assert(d[k] == c);
        proof {
            assert(d.take(k + 1).drop_last() =~= d.take(k));
            assert(d.take(k + 1).last() == c);
        }
        if c < '0' || c > '9' {
            assert(!text::all_digits(d));
            return None;
        }
        let x: u64 = (c as u32 - 48) as u64;
        proof {
            assert(text::all_digits(d.take(k + 1))) by {
                assert forall|j: int| 0 <= j < k + 1 implies '0' <= #[trigger] d.take(k + 1)[j]
                    && d.take(k + 1)[j] <= '9' by {
                    if j < k {
                        assert(d.take(k)[j] == d.take(k + 1)[j]);
                    }
                }
            }
            if text::all_digits(d) {
                lemma_value_grows(d, k + 1);
            }
        }
        if n > (u64::MAX - x) / 10 {
            return None;
        }
        n = n * 10 + x;
        i += 1;
    }
    assert(d.take(to - from) =~= d);
    Some(n)
}

fn tone_of(v: &Vec<char>, from: usize) -> (r: Tone)
    requires
        from <= v.len(),
    ensures
        r == tone(v@.skip(from as int)),
{
    let mut up: Vec<char> = Vec::new();
    let ghost f = |c: char| text::upper(c);
    let ghost msg = v@.skip(from as int);
    let mut i: usize = from;
    while i < v.len()
        invariant
            from <= i <= v.len(),
            msg == v@.skip(from as int),
            f == (|c: char| text::upper(c)),
            up@ == msg.take(i - from).map_values(f),
        decreases v.len() - i,
    {
        up.push(text::to_upper(v[i]));
        i += 1;
        assert(up@ =~= msg.take(i - from).map_values(f));
    }
    assert(msg.take(i - from) =~= msg);
    if text::contains(&up, "ERROR") || text::contains(&up, "FAIL") {
        Tone::Error
    } else if text::contains(&up, "WARN") {
        Tone::Warning
    } else if text::contains(&up, "HAND-OFF") || text::contains(&up, "ENTER") || text::contains(
        &up,
        "RETURN",
    ) {
        Tone::Handoff
    } else {
        Tone::Normal
    }
}

fn age_of(secs: u64) -> (r: String)
    ensures
        r@ == age(secs as nat),
{
    if secs < 60 {
        let mut r = text::decimal_string(secs);
        r.append("s");
        r
    } else if secs < 3600 {
        let mut r = text::decimal_string(secs / 60);
        r.append("m");
        r
    } else {
        let mut r = text::decimal_string(secs / 3600);
        r.append("h");
        r
    }
}

/// What a line of the log says at the time `now`.
fn read_line(line: &str, now: u64) -> (r: Option<Activity>)
    ensures
        (match r {
            None => None,
            Some(a) => Some(a@),
        }) == entry(line@, now as nat),
{
    let v = text::chars_of(line);
    let ghost space = |c: char| c == ' ';
    let mut k: usize = 0;
    while k < v.len() && v[k] != ' '
        invariant
            k <= v.len(),
            space == (|c: char| c == ' '),
            forall|j: int| 0 <= j < k ==> !space(#[trigger] v@[j]),
        decreases v.len() - k,
    {
        k += 1;
    }
    proof {
        crate::geom::lemma_first_where_unique(v@, space, k as int);
    }
    if k == v.len() {
        return None;
    }
    match parse_number(&v, k) {
        None => None,
        Some(ms) => {
            let secs: u64 = if now < ms {
                0
            } else {
                (now - ms) / 1000
            };
            let msg = text::string_of_range(&v, k + 1, v.len());
            assert(msg@ =~= v@.skip(k + 1));
            Some(Activity { age: age_of(secs), msg, tone: tone_of(&v, k + 1) })
        },
    }
}

/// The latest entries of a log, oldest first: how long ago each was made, what it says and how
/// serious it is. At most `max` of them, but never fewer than the last one.
pub fn read_activity(text: &str, now: u64, max: usize) -> (r: Vec<Activity>)
    ensures
        activity_views(r@) == latest(entries(text_lines(text@), now as nat), max as nat),
{
    let lines = split_lines(text);
    let ghost lv = text_lines(text@);
    let ghost all = entries(lv, now as nat);
    let mut back: Vec<Activity> = Vec::new();
    let mut i: usize = lines.len();
    proof {
        assert(lv.take(lv.len() as int) =~= lv);
        assert(all =~= entries(lv.take(i as int), now as nat) + activity_views(back@).reverse());
    }
    while i > 0 && (back.len() == 0 || back.len() < max)
        invariant
            i <= lines@.len(),
            text::string_views(lines@) == lv,
            all == entries(lv, now as nat),
            all == entries(lv.take(i as int), now as nat) + activity_views(back@).reverse(),
            back@.len() <= 1 || back@.len() <= max,
        decreases i,
    {
        i -= 1;
        let ghost was = activity_views(back@);
        proof {
            assert(lv.take(i as int + 1).drop_last() =~= lv.take(i as int));
            assert(lv.take(i as int + 1).last() == lines@[i as int]@);
        }
        match read_line(lines[i].as_str(), now) {
            None => {},
            Some(a) => {
                back.push(a);
                proof {
                    assert(activity_views(back@) =~= was.push(a@));
                    assert(was.push(a@).reverse() =~= seq![a@] + was.reverse());
                    let e = entries(lv.take(i as int), now as nat);
                    assert(e.push(a@) + was.reverse() =~= e + (seq![a@] + was.reverse()));
                }
            },
        }
    }
    let ghost found = activity_views(back@).reverse();
    proof {
        let rest = entries(lv.take(i as int), now as nat);
        if i == 0 {
            assert(lv.take(0) =~= Seq::empty());
            assert(rest.len() == 0);
            assert(all =~= found);
        } else {
            assert(found =~= all.skip(rest.len() as int));
        }
        assert(found =~= latest(all, max as nat));
    }
    let mut r: Vec<Activity> = Vec::new();
    let mut n: usize = back.len();
    assert(activity_views(r@) =~= found.take(0));
    while n > 0
        invariant
            n == back@.len(),
            r@.len() + n == found.len(),
            activity_views(r@) + activity_views(back@).reverse() == found,
        decreases n,
    {
        let ghost was = r@;
        let ghost left = activity_views(back@);
        match back.pop() {
            Some(a) => {
                r.push(a);
                proof {
                    assert(a@ == left.last());
                    assert(activity_views(r@) =~= activity_views(was).push(a@));
                    assert(activity_views(back@) =~= left.drop_last());
                    assert(left.reverse() =~= seq![left.last()] + left.drop_last().reverse());
                    assert(activity_views(was) + (seq![a@] + left.drop_last().reverse())
                        =~= activity_views(was).push(a@) + left.drop_last().reverse());
                }
            },
            None => {},
        }
        n -= 1;
    }
    assert(activity_views(r@) =~= found);
    r
}

proof fn lemma_pieces_of_line(s: Seq<char>, line: Seq<char>)
    requires
        s.len() > 0 ==> s.last() == '\n',
        forall|i: int| 0 <= i < line.len() ==> #[trigger] line[i] != '\n',
    ensures
        text::pieces(s + line, '\n') == text::pieces(s, '\n').drop_last().push(line),
        text::pieces(s, '\n').last().len() == 0,
        text::pieces(s, '\n').len() > 0,
    decreases line.len(),
{
    text::lemma_pieces(s, '\n');
    let p = text::pieces(s, '\n');
    assert(p.last() =~= Seq::empty());
    if line.len() == 0 {
        assert(s + line =~= s);
        assert(line =~= Seq::empty());
        assert(p =~= p.drop_last().push(line));
    } else {
        let l = line.drop_last();
        assert forall|i: int| 0 <= i < l.len() implies #[trigger] l[i] != '\n' by {
            assert(l[i] == line[i]);
        }
        lemma_pieces_of_line(s, l);
        assert((s + line).drop_last() =~= s + l);
        let before = p.drop_last().push(l);
        assert(before.drop_last() =~= p.drop_last());
        assert(l.push(line.last()) =~= line);
        assert(line[line.len() - 1] != '\n');
    }
}

proof fn lemma_line_added(log: Seq<char>, line: Seq<char>)
    requires
        log.len() > 0 ==> log.last() == '\n',
        forall|i: int| 0 <= i < line.len() ==> #[trigger] line[i] != '\n',
        line.len() > 0 ==> line.last() != '\r',
    ensures
        text_lines(log + line + "\n"@) == text_lines(log).push(line),
{
    reveal_strlit("\n");
    lemma_pieces_of_line(log, line);
    let whole = log + line + "\n"@;
    let p = text::pieces(log, '\n');
    assert(whole.drop_last() =~= log + line);
    assert(whole.last() == '\n');
    let q = p.drop_last().push(line);
    assert(text::pieces(whole, '\n') == q.push(Seq::empty()));
    assert(q.push(Seq::empty()).drop_last() =~= q);
    let f = |l: Seq<char>| without_return(l);
    assert(q.map_values(f) =~= p.drop_last().map_values(f).push(line));
}

proof fn lemma_logged_entry(ms: nat, msg: Seq<char>, now: nat)
    requires
        ms <= u64::MAX,
    ensures
        entry(logged(ms, msg), now) == Some(
            ActivityView { age: age(seconds_since(ms, now)), msg, tone: tone(msg) },
        ),
{
    reveal_strlit(" ");
    text::decimal_reads_back(ms);
    let line = logged(ms, msg);
    let digits = text::decimal(ms);
    let space = |c: char| c == ' ';
    let k = digits.len() as int;
    assert forall|j: int| 0 <= j < k implies !space(#[trigger] line[j]) by {
        assert(line[j] == digits[j]);
    }
    crate::geom::lemma_first_where_unique(line, space, k);
    assert(line.take(k) =~= digits);
    assert(line.skip(k + 1) =~= msg);
    assert('0' <= digits[0]);
}

/// What is logged can be read back: once a line is appended to a log, with its line break, the
/// list of entries has one more, which says when it was logged and what happened.
pub proof fn a_logged_line_is_read_back(log: Seq<char>, ms: nat, msg: Seq<char>, now: nat)
    requires
        log.len() > 0 ==> log.last() == '\n',
        forall|i: int| 0 <= i < msg.len() ==> #[trigger] msg[i] != '\n',
        msg.len() > 0 ==> msg.last() != '\r',
        ms <= u64::MAX,
    ensures
        entries(text_lines(log + logged(ms, msg) + "\n"@), now) == entries(
            text_lines(log),
            now,
        ).push(ActivityView { age: age(seconds_since(ms, now)), msg, tone: tone(msg) }),
{
    reveal_strlit(" ");
    text::decimal_reads_back(ms);
    let line = logged(ms, msg);
    let digits = text::decimal(ms);
    assert forall|i: int| 0 <= i < line.len() implies #[trigger] line[i] != '\n' by {
        if i < digits.len() {
            assert(line[i] == digits[i]);
        } else if i > digits.len() {
            assert(line[i] == msg[i - digits.len() - 1]);
        }
    }
    assert(line.last() != '\r') by {
        if msg.len() > 0 {
            assert(line.last() == msg.last());
        } else {
            assert(line.last() == ' ');
        }
    }
    lemma_line_added(log, line);
    lemma_logged_entry(ms, msg, now);
    assert(text_lines(log).push(line).drop_last() =~= text_lines(log));
}

/// The newest entries are the ones shown, in their order and as many as asked for, one at least.
pub proof fn the_newest_entries_are_shown(all: Seq<ActivityView>, max: nat, i: int)
    ensures
        ({
            let shown = latest(all, max);
            &&& max >= 1 && all.len() >= max ==> shown.len() == max
            &&& max == 0 && all.len() >= 1 ==> shown.len() == 1
            &&& all.len() < max ==> shown.len() == all.len()
            &&& 0 <= i < shown.len() ==> shown[shown.len() - 1 - i] == all[all.len() - 1 - i]
        }),
{
}

/// How long ago something happened is told in whole seconds up to a minute, in whole minutes up to an
/// hour, and in whole hours from then on; what has not happened yet happens now.
pub proof fn ages_are_told_in_the_largest_unit(ms: nat, passed: nat)
    ensures
        passed < 60_000 ==> age(seconds_since(ms, ms + passed)) == text::decimal(passed / 1000)
            + "s"@,
        60_000 <= passed < 3_600_000 ==> age(seconds_since(ms, ms + passed)) == text::decimal(
            passed / 60_000,
        ) + "m"@,
        passed >= 3_600_000 ==> age(seconds_since(ms, ms + passed)) == text::decimal(
            passed / 3_600_000,
        ) + "h"@,
        age(seconds_since(ms + passed, ms)) == text::decimal(0) + "s"@,
{
    assert(passed / 1000 / 60 == passed / 60_000);
    assert(passed / 1000 / 3600 == passed / 3_600_000);
}

} // verus!
