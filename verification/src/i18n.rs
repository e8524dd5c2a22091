//! Minimal i18n: the language, and the texts that are put together at run time.
//!
//! The language is stored in the configuration ("zh" or "en", "zh" by default) and toggled from
//! the title bar. The fixed strings of the window are in [`crate::strings`].

use crate::text;
use crate::text::{chars_of, push_decimal, string_of_range, to_upper};
use vstd::prelude::*;
use vstd::string::*;

verus! {

/// UI language.
#[derive(Debug, Clone, Copy, PartialEq, Eq, Structural)]
pub enum Lang {
    Zh,
    En,
}

/// The language background threads should use for notifications. The GUI thread has the real
/// `Lang`; workers (file transfer) only need "whichever the user picked".
#[derive(Debug, Clone, Copy, PartialEq, Eq, Structural)]
pub struct WorkerLang {
    pub lang: Lang,
}

impl Default for WorkerLang {
    fn default() -> (r: WorkerLang)
        ensures
            r.lang == Lang::Zh,
    {
        WorkerLang { lang: Lang::Zh }
    }
}

/// Note the language that the user picked.
pub fn set_lang(w: &mut WorkerLang, l: Lang)
    ensures
        final(w).lang == l,
{
    w.lang = l;
}

/// The language that the user picked.
pub fn current_lang(w: &WorkerLang) -> (r: Lang)
    ensures
        r == w.lang,
{
    w.lang
}

/// A file copy exceeded the safety cap and was skipped.
pub fn tr_file_too_big(w: &WorkerLang) -> (r: String)
    ensures
        r@ == (match w.lang {
            Lang::Zh => "复制的文件超过 512 MB 上限，已跳过。"@,
            Lang::En => "The copied files exceed the 512 MB limit and were skipped."@,
        }),
{
    match current_lang(w) {
        Lang::Zh => "复制的文件超过 512 MB 上限，已跳过。".to_owned(),
        Lang::En => "The copied files exceed the 512 MB limit and were skipped.".to_owned(),
    }
}

/// `before`, the number `n` in decimal, and `after`.
fn numbered(before: &str, n: u64, after: &str) -> (r: String)
    ensures
        r@ == before@ + text::decimal(n as nat) + after@,
{
    let mut s = before.to_owned();
    push_decimal(&mut s, n);
    s.append(after);
    s
}

/// None of the copied files could be read.
pub fn tr_file_nothing_to_send(w: &WorkerLang) -> (r: String)
    ensures
        r@ == (match w.lang {
            Lang::Zh => "没有可发送的文件：复制的文件无法读取。"@,
            Lang::En => "Nothing to send: none of the copied files could be read."@,
        }),
{
    match current_lang(w) {
        Lang::Zh => "没有可发送的文件：复制的文件无法读取。".to_owned(),
        Lang::En => "Nothing to send: none of the copied files could be read.".to_owned(),
    }
}

/// A file copy arrived, but could not be put on the clipboard.
pub fn tr_file_apply_failed(w: &WorkerLang, n: usize) -> (r: String)
    ensures
        r@ == (match w.lang {
            Lang::Zh => "已接收 "@ + text::decimal(n as nat) + " 个文件，但写入系统剪贴板失败。"@,
            Lang::En => "Received "@ + text::decimal(n as nat)
                + " file(s), but could not write to the system clipboard."@,
        }),
{
    match current_lang(w) {
        Lang::Zh => numbered("已接收 ", n as u64, " 个文件，但写入系统剪贴板失败。"),
        Lang::En => numbered(
            "Received ",
            n as u64,
            " file(s), but could not write to the system clipboard.",
        ),
    }
}

/// A file copy finished arriving from another machine.
pub fn tr_file_received(w: &WorkerLang, n: usize) -> (r: String)
    ensures
        r@ == (match w.lang {
            Lang::Zh => "已接收 "@ + text::decimal(n as nat) + " 个文件，可直接粘贴。"@,
            Lang::En => "Received "@ + text::decimal(n as nat) + " file(s) — ready to paste."@,
        }),
{
    match current_lang(w) {
        Lang::Zh => numbered("已接收 ", n as u64, " 个文件，可直接粘贴。"),
        Lang::En => numbered("Received ", n as u64, " file(s) — ready to paste."),
    }
}

/// A file copy finished being sent to the other machine(s).
pub fn tr_file_sent(w: &WorkerLang, n: usize) -> (r: String)
    ensures
        r@ == (match w.lang {
            Lang::Zh => "已发送 "@ + text::decimal(n as nat) + " 个文件到其他设备。"@,
            Lang::En => "Sent "@ + text::decimal(n as nat) + " file(s) to the other machine(s)."@,
        }),
{
    match current_lang(w) {
        Lang::Zh => numbered("已发送 ", n as u64, " 个文件到其他设备。"),
        Lang::En => numbered("Sent ", n as u64, " file(s) to the other machine(s)."),
    }
}

/// How an activity-feed entry should be coloured.
#[derive(Debug, Clone, Copy, PartialEq, Eq, Structural)]
pub enum Severity {
    Good,
    Info,
    Warn,
    Error,
}

/// The lower-case form of an ASCII letter; any other character as it is.
pub open spec fn lower(c: char) -> char {
    if 'A' <= c && c <= 'Z' {
        (c as u32 + 32) as char
    } else {
        c
    }
}

/// Whether a line holds a keyword, in upper or lower case.
pub open spec fn mentions(line: Seq<char>, key: Seq<char>) -> bool {
    text::holds(line.map_values(|c: char| lower(c)), key)
}

/// An event that the activity feed shows.
#[derive(Debug, Clone, Copy, PartialEq, Eq, Structural)]
pub enum Event {
    CaptureFailed,
    NapDisabled,
    CaptureStarted,
    Started,
    Receiving,
    SendAborted,
    ApplyFailed,
    WindowClicked,
    TapDisabled,
    Crossed,
    Returned,
}

/// The event that a diagnostic line reports: the first one whose keywords it holds.
pub open spec fn event_in(line: Seq<char>) -> Option<Event> {
    if mentions(line, "capture failed"@) {
        Some(Event::CaptureFailed)
    } else if mentions(line, "app nap disabled"@) {
        Some(Event::NapDisabled)
    } else if mentions(line, "capture thread started"@) {
        Some(Event::CaptureStarted)
    } else if mentions(line, "startup mode="@) {
        Some(Event::Started)
    } else if mentions(line, "file-recv-first-chunk"@) || mentions(line, "file-recv token="@) {
        Some(Event::Receiving)
    } else if mentions(line, "file-send aborted"@) {
        Some(Event::SendAborted)
    } else if mentions(line, "file-apply-failed"@) {
        Some(Event::ApplyFailed)
    } else if mentions(line, "click inside ui window"@) {
        Some(Event::WindowClicked)
    } else if mentions(line, "tap disabled"@) {
        Some(Event::TapDisabled)
    } else if mentions(line, "leave"@) && mentions(line, "->"@) {
        Some(Event::Crossed)
    } else if mentions(line, "return <-"@) {
        Some(Event::Returned)
    } else if mentions(line, "hand-off"@) || mentions(line, "enter screen"@) {
        Some(Event::Crossed)
    } else {
        None
    }
}

/// Whether a line reports a problem.
pub open spec fn severe(line: Seq<char>) -> bool {
    ||| mentions(line, "error"@)
    ||| mentions(line, "fail"@)
    ||| mentions(line, "panic"@)
    ||| mentions(line, "refused"@)
    ||| mentions(line, "denied"@)
}

/// How an event is told.
pub open spec fn event_text(lang: Lang, e: Event) -> Seq<char> {
    match lang {
        Lang::Zh => match e {
            Event::CaptureFailed => "输入捕获失败：缺少「辅助功能 / 输入监控」权限"@,
            Event::NapDisabled => "已关闭系统节能休眠，避免后台卡顿"@,
            Event::CaptureStarted => "输入捕获已启动"@,
            Event::Started => "已作为主机启动"@,
            Event::Receiving => "正在接收文件…"@,
            Event::SendAborted => "文件发送已中止"@,
            Event::ApplyFailed => "写入系统剪贴板失败"@,
            Event::WindowClicked => "点击了 MouseShare 窗口，鼠标控制权已收回"@,
            Event::TapDisabled => "系统暂停了输入捕获，已自动恢复"@,
            Event::Crossed => "鼠标已跨到另一台设备"@,
            Event::Returned => "鼠标已回到本机"@,
        },
        Lang::En => match e {
            Event::CaptureFailed => "Input capture failed — Accessibility / Input Monitoring permission missing"@,
            Event::NapDisabled => "Disabled system power nap to prevent stalls"@,
            Event::CaptureStarted => "Input capture started"@,
            Event::Started => "Started as primary"@,
            Event::Receiving => "Receiving files…"@,
            Event::SendAborted => "File send aborted"@,
            Event::ApplyFailed => "Could not write to the system clipboard"@,
            Event::WindowClicked => "Clicked the MouseShare window — mouse control returned"@,
            Event::TapDisabled => "macOS paused input capture — recovered automatically"@,
            Event::Crossed => "Mouse crossed to the other machine"@,
            Event::Returned => "Mouse returned to this machine"@,
        },
    }
}

/// How serious an event is.
pub open spec fn event_severity(e: Event) -> Severity {
    match e {
        Event::CaptureFailed | Event::ApplyFailed => Severity::Error,
        Event::NapDisabled | Event::CaptureStarted => Severity::Good,
        Event::SendAborted | Event::TapDisabled => Severity::Warn,
        _ => Severity::Info,
    }
}

/// The activity-feed entry for a diagnostic line.
pub open spec fn feed_entry(lang: Lang, line: Seq<char>) -> Option<(Seq<char>, Severity)> {
    match event_in(line) {
        Some(e) => Some((event_text(lang, e), event_severity(e))),
        None => if severe(line) {
            Some((if line.len() > 140 { line.take(140) } else { line }, Severity::Error))
        } else {
            None
        },
    }
}

/// A line that reports a problem is always shown.
pub proof fn problems_are_always_shown(lang: Lang, line: Seq<char>)
    requires
        severe(line),
    ensures
        feed_entry(lang, line) is Some,
{
}

/// Both languages show the same lines, equally coloured.
pub proof fn languages_show_the_same_lines(line: Seq<char>)
    ensures
        feed_entry(Lang::Zh, line) is Some <==> feed_entry(Lang::En, line) is Some,
        feed_entry(Lang::Zh, line) matches Some(z) ==> feed_entry(Lang::En, line) matches Some(e)
            && e.1 == z.1,
{
}

/// The characters of a line, in lower case.
fn lowered(line: &str) -> (r: Vec<char>)
    ensures
        r@ == line@.map_values(|c: char| lower(c)),
{
    let v = chars_of(line);
    let ghost f = |c: char| lower(c);
    let mut r: Vec<char> = Vec::new();
    let mut i: usize = 0;
    while i < v.len()
        invariant
            i <= v.len(),
            f == (|c: char| lower(c)),
            r@ == v@.take(i as int).map_values(f),
        decreases v.len() - i,
    {
        let c = v[i];
        if 'A' <= c && c <= 'Z' {
            let d: u8 = c as u8;
            r.push((d + 32) as char);
        } else {
            r.push(c);
        }
        i += 1;
        assert(r@ =~= v@.take(i as int).map_values(f));
    }
    assert(v@.take(i as int) =~= v@);
    r
}

/// The event that a diagnostic line reports.
fn find_event(line: &str) -> (r: Option<Event>)
    ensures
        r == event_in(line@),
{
    let l = lowered(line);
    if text::contains(&l, "capture failed") {
        Some(Event::CaptureFailed)
    } else if text::contains(&l, "app nap disabled") {
        Some(Event::NapDisabled)
    } else if text::contains(&l, "capture thread started") {
        Some(Event::CaptureStarted)
    } else if text::contains(&l, "startup mode=") {
        Some(Event::Started)
    } else if text::contains(&l, "file-recv-first-chunk") || text::contains(&l, "file-recv token=") {
        Some(Event::Receiving)
    } else if text::contains(&l, "file-send aborted") {
        Some(Event::SendAborted)
    } else if text::contains(&l, "file-apply-failed") {
        Some(Event::ApplyFailed)
    } else if text::contains(&l, "click inside ui window") {
        Some(Event::WindowClicked)
    } else if text::contains(&l, "tap disabled") {
        Some(Event::TapDisabled)
    } else if text::contains(&l, "leave") && text::contains(&l, "->") {
        Some(Event::Crossed)
    } else if text::contains(&l, "return <-") {
        Some(Event::Returned)
    } else if text::contains(&l, "hand-off") || text::contains(&l, "enter screen") {
        Some(Event::Crossed)
    } else {
        None
    }
}

/// How an event is told.
fn tell(lang: Lang, e: Event) -> (r: String)
    ensures
        r@ == event_text(lang, e),
{
    match lang {
        Lang::Zh => match e {
            Event::CaptureFailed => "输入捕获失败：缺少「辅助功能 / 输入监控」权限".to_owned(),
            Event::NapDisabled => "已关闭系统节能休眠，避免后台卡顿".to_owned(),
            Event::CaptureStarted => "输入捕获已启动".to_owned(),
            Event::Started => "已作为主机启动".to_owned(),
            Event::Receiving => "正在接收文件…".to_owned(),
            Event::SendAborted => "文件发送已中止".to_owned(),
            Event::ApplyFailed => "写入系统剪贴板失败".to_owned(),
            Event::WindowClicked => "点击了 MouseShare 窗口，鼠标控制权已收回".to_owned(),
            Event::TapDisabled => "系统暂停了输入捕获，已自动恢复".to_owned(),
            Event::Crossed => "鼠标已跨到另一台设备".to_owned(),
            Event::Returned => "鼠标已回到本机".to_owned(),
        },
        Lang::En => match e {
            Event::CaptureFailed => "Input capture failed — Accessibility / Input Monitoring permission missing".to_owned(),
            Event::NapDisabled => "Disabled system power nap to prevent stalls".to_owned(),
            Event::CaptureStarted => "Input capture started".to_owned(),
            Event::Started => "Started as primary".to_owned(),
            Event::Receiving => "Receiving files…".to_owned(),
            Event::SendAborted => "File send aborted".to_owned(),
            Event::ApplyFailed => "Could not write to the system clipboard".to_owned(),
            Event::WindowClicked => "Clicked the MouseShare window — mouse control returned".to_owned(),
            Event::TapDisabled => "macOS paused input capture — recovered automatically".to_owned(),
            Event::Crossed => "Mouse crossed to the other machine".to_owned(),
            Event::Returned => "Mouse returned to this machine".to_owned(),
        },
    }
}

/// Translate one diagnostic-log line into a readable activity-feed entry, or `None` to leave it
/// out of the feed.
///
/// The diagnostic log is written for debugging: a machine name, a port number, a bounding box,
/// a full screen list, all on one line. Anything a user would not act on is dropped here. The
/// trade-off: a newly added diagnostic event stays invisible until it is listed. Unrecognised
/// lines that announce a failure are the exception: those are always surfaced, because a silent
/// failure in a tool whose whole job is invisible background work is the worst possible outcome.
pub fn tr_event(lang: Lang, line: &str) -> (r: Option<(String, Severity)>)
    ensures
        feed_entry(lang, line@) == (match r {
            None => None::<(Seq<char>, Severity)>,
            Some(p) => Some((p.0@, p.1)),
        }),
{
    if let Some(e) = find_event(line) {
        let severity = match e {
            Event::CaptureFailed | Event::ApplyFailed => Severity::Error,
            Event::NapDisabled | Event::CaptureStarted => Severity::Good,
            Event::SendAborted | Event::TapDisabled => Severity::Warn,
            _ => Severity::Info,
        };
        return Some((tell(lang, e), severity));
    }
    let l = lowered(line);
    if text::contains(&l, "error") || text::contains(&l, "fail") || text::contains(&l, "panic")
        || text::contains(&l, "refused") || text::contains(
        &l,
        "denied",
    ) {
        let v = chars_of(line);
        let n: usize = if v.len() > 140 { 140 } else { v.len() };
        let shown = string_of_range(&v, 0, n);
        assert(v@.subrange(0, n as int) =~= v@.take(n as int));
        assert(v@.take(v@.len() as int) =~= v@);
        return Some((shown, Severity::Error));
    }
    None
}

/// The language that a code stands for.
pub open spec fn lang_of(code: Seq<char>) -> Lang {
    if code.len() == 2 && text::upper(code[0]) == 'E' && text::upper(code[1]) == 'N' {
        Lang::En
    } else {
        Lang::Zh
    }
}

/// The code of a language.
pub open spec fn code_of(l: Lang) -> Seq<char> {
    match l {
        Lang::Zh => "zh"@,
        Lang::En => "en"@,
    }
}

/// The other language.
pub open spec fn other(l: Lang) -> Lang {
    match l {
        Lang::Zh => Lang::En,
        Lang::En => Lang::Zh,
    }
}

/// Every language is found again from its code, and toggling twice changes nothing.
pub proof fn languages_are_found_again(l: Lang)
    ensures
        lang_of(code_of(l)) == l,
        other(other(l)) == l,
        other(l) != l,
{
    reveal_strlit("zh");
    reveal_strlit("en");
}

impl Lang {
    /// The language that a code stands for: English for `en` in upper or lower case, Chinese for
    /// anything else.
    pub fn from_code(s: &str) -> (r: Lang)
        ensures
            r == lang_of(s@),
    {
        let v = chars_of(s);
        if v.len() == 2 && to_upper(v[0]) == 'E' && to_upper(v[1]) == 'N' {
            Lang::En
        } else {
            Lang::Zh
        }
    }

    /// The code under which the language is stored.
    pub fn code(self) -> (r: &'static str)
        ensures
            r@ == code_of(self),
    {
        match self {
            Lang::Zh => "zh",
            Lang::En => "en",
        }
    }

    /// The other language.
    pub fn toggled(self) -> (r: Lang)
        ensures
            r == other(self),
    {
        match self {
            Lang::Zh => Lang::En,
            Lang::En => Lang::Zh,
        }
    }

    /// Startup error: the primary could not bind its listen port.
    pub fn listen_fail(self, port: u16, err: &str) -> (r: String)
        ensures
            r@ == (match self {
                Lang::Zh => "无法监听端口 "@ + text::decimal(port as nat) + "（"@ + err@
                    + "）。端口很可能已被另一个正在运行的 MouseShare 占用——请检查 Dock 或活动监视器里是否已有 MouseShare，退出后重新启动。"@,
                Lang::En => "Cannot listen on port "@ + text::decimal(port as nat) + " ("@ + err@
                    + "). The port is most likely taken by another running MouseShare — check the Dock / Activity Monitor, quit it, then start again."@,
            }),
    {
        match self {
            Lang::Zh => {
                let mut s = numbered("无法监听端口 ", port as u64, "（");
                s.append(err);
                s.append("）。端口很可能已被另一个正在运行的 MouseShare 占用——请检查 Dock 或活动监视器里是否已有 MouseShare，退出后重新启动。");
                s
            },
            Lang::En => {
                let mut s = numbered("Cannot listen on port ", port as u64, " (");
                s.append(err);
                s.append("). The port is most likely taken by another running MouseShare — check the Dock / Activity Monitor, quit it, then start again.");
                s
            },
        }
    }

    /// Startup error: a secondary could not reach the primary.
    pub fn connect_fail(self, addr: &str, err: &str) -> (r: String)
        ensures
            r@ == (match self {
                Lang::Zh => "无法连接到主机 "@ + addr@ + "（"@ + err@
                    + "）。请确认主机上的 MouseShare 已启动、地址正确、防火墙未拦截；修改地址后点「连接主机」即可重连。"@,
                Lang::En => "Cannot connect to primary "@ + addr@ + " ("@ + err@
                    + "). Make sure MouseShare is running on the primary, the address is correct, and no firewall is blocking it. Fix the address, then click \"Connect to host\"."@,
            }),
    {
        match self {
            Lang::Zh => {
                let mut s = "无法连接到主机 ".to_owned();
                s.append(addr);
                s.append("（");
                s.append(err);
                s.append("）。请确认主机上的 MouseShare 已启动、地址正确、防火墙未拦截；修改地址后点「连接主机」即可重连。");
                s
            },
            Lang::En => {
                let mut s = "Cannot connect to primary ".to_owned();
                s.append(addr);
                s.append(" (");
                s.append(err);
                s.append("). Make sure MouseShare is running on the primary, the address is correct, and no firewall is blocking it. Fix the address, then click \"Connect to host\".");
                s
            },
        }
    }
}

} // verus!
