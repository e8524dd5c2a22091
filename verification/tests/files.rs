//! Copying files from one machine to another.

use mouseshare::base64::{base64_decode, base64_encode};
use mouseshare::network::MAX_FRAME;
use mouseshare::protocol::{FileEntry, Message, FILE_CHUNK, MAX_FILE_BYTES};
use mouseshare::safepath::{is_windows_reserved, safe_components, safe_rel, scrub_component};
use mouseshare::transfer::{
    fnv1a32, inbox_name, is_abandoned, next_token, plan_send, set_machine_name, total_bytes,
    FileOp, Incoming, Receiver, SendPlan, Sender, Tokens, STALE_MS,
};
use mouseshare::walk::{collect, Found, Walk, MAX_WALK_DEPTH, MAX_WALK_ENTRIES};
use std::collections::HashMap;

fn entry(path: &str, size: u64) -> FileEntry {
    FileEntry { path: path.into(), size }
}

fn receiver() -> Receiver {
    Receiver { active: HashMap::new() }
}

#[test]
fn base64_roundtrip() {
    for len in [0usize, 1, 2, 3, 4, 5, 255, 1000, 4096] {
        let data: Vec<u8> = (0..len).map(|i| (i * 31 + 7) as u8).collect();
        let enc = base64_encode(&data);
        assert_eq!(base64_decode(&enc), data, "len {}", len);
    }
}

#[test]
fn base64_is_the_usual_alphabet() {
    assert_eq!(base64_encode(b""), "");
    assert_eq!(base64_encode(b"f"), "Zg==");
    assert_eq!(base64_encode(b"fo"), "Zm8=");
    assert_eq!(base64_encode(b"foo"), "Zm9v");
    assert_eq!(base64_encode(&[0xfb, 0xff]), "+/8=");
}

#[test]
fn safe_rel_neutralises_traversal_and_absolute_paths() {
    assert_eq!(safe_rel("../../etc/passwd", false), "etc/passwd");
    assert_eq!(safe_rel("/etc/passwd", false), "etc/passwd");
    assert_eq!(safe_rel("a/../b", false), "a/b");
    assert_eq!(safe_rel("..", false), "unnamed");
    assert_eq!(safe_rel("", false), "unnamed");
    assert_eq!(safe_rel("C:\\Windows\\win.ini", false), "Windows/win.ini");
    // A legitimate nested tree keeps its shape.
    assert_eq!(safe_rel("dir/sub/f.txt", false), "dir/sub/f.txt");
    assert_eq!(safe_components("dir/sub/f.txt", false), ["dir", "sub", "f.txt"]);
}

#[test]
fn windows_reserved_names_are_detected() {
    assert!(is_windows_reserved("CON"));
    assert!(is_windows_reserved("con.txt"));
    assert!(is_windows_reserved("COM1"));
    assert!(is_windows_reserved("LPT9.log"));
    assert!(!is_windows_reserved("COM0"));
    assert!(!is_windows_reserved("console.txt"));
    assert!(!is_windows_reserved("null.txt"));
}

#[test]
fn names_are_left_alone_where_windows_is_not_involved() {
    assert_eq!(scrub_component("CON", false), "CON");
    assert_eq!(scrub_component("a:b", false), "a:b");
    assert_ne!(scrub_component("CON", true), "CON");
    assert!(!scrub_component("a:b", true).contains(':'));
}

#[test]
fn tokens_are_namespaced_per_machine() {
    let mut t = Tokens { tag: 0, next: 1 };
    set_machine_name(&mut t, "machine-a");
    let a: Vec<u64> = (0..4).map(|_| next_token(&mut t)).collect();
    set_machine_name(&mut t, "machine-b");
    let b: Vec<u64> = (0..4).map(|_| next_token(&mut t)).collect();

    for x in &a {
        for y in &b {
            assert_ne!(x, y, "token {x} collides across machines");
        }
    }
    // Still a monotonic sequence within one machine, so ordering is preserved.
    assert!(a[0] < a[1] && a[1] < a[2] && a[2] < a[3]);
    assert!(b[0] < b[1]);
    // The machine half is what separates them, and it is a real signature of the name.
    assert_ne!(a[0] >> 32, b[0] >> 32);
    assert_eq!(a[0] >> 32, fnv1a32("machine-a") as u64);
    // A different name gives a different tag, so the namespace is not accidental.
    set_machine_name(&mut t, "machine-c");
    assert_ne!(next_token(&mut t) >> 32, a[0] >> 32);
}

#[test]
fn the_hash_of_a_name_is_fnv() {
    assert_eq!(fnv1a32(""), 0x811c9dc5);
    assert_eq!(fnv1a32("a"), 0xe40c292c);
    assert_eq!(fnv1a32("foobar"), 0xbf9cf968);
}

/// Walks a tree that is given by a function from number to what is found there.
fn walk(selection: &[(&str, u64)], look: fn(u64) -> Found) -> (Vec<String>, bool) {
    let mut w = Walk::new(selection.iter().map(|(n, i)| (n.to_string(), *i)).collect());
    while let Some(at) = w.next() {
        let found = look(at.id);
        collect(&mut w, at, found);
    }
    (w.out.iter().map(|(r, _)| r.clone()).collect(), w.truncated)
}

fn dir(children: &[(&str, u64)]) -> Found {
    Found::Dir(children.iter().map(|(n, i)| (n.to_string(), *i)).collect())
}

#[test]
fn collect_flattens_directories() {
    let (rels, truncated) = walk(&[("root", 0)], |id| match id {
        0 => dir(&[("a.txt", 1), ("sub", 2)]),
        2 => dir(&[("b.txt", 3)]),
        _ => Found::File,
    });
    assert!(rels.iter().any(|r| r.ends_with("a.txt")), "{:?}", rels);
    assert!(rels.iter().any(|r| r.ends_with("b.txt")), "{:?}", rels);
    assert_eq!(rels, ["root/a.txt", "root/sub/b.txt"]);
    assert!(!truncated);
}

#[test]
fn collect_keeps_symlinks_and_empty_files() {
    // A link counts as what it leads to, and a file without bytes is a file.
    let (rels, _) = walk(&[("root", 0)], |id| match id {
        0 => dir(&[("empty.txt", 1), ("link.txt", 2), ("target.txt", 3), ("pipe", 4)]),
        4 => Found::Other,
        _ => Found::File,
    });
    assert!(rels.iter().any(|r| r.ends_with("link.txt")), "{:?}", rels);
    assert!(rels.iter().any(|r| r.ends_with("empty.txt")), "{:?}", rels);
    assert!(!rels.iter().any(|r| r.ends_with("pipe")), "{:?}", rels);
}

#[test]
fn an_endless_tree_ends() {
    // A link that leads back up.
    let (rels, _) = walk(&[("loop", 0)], |id| match id {
        0 => dir(&[("f", 1), ("again", 0)]),
        _ => Found::File,
    });
    assert_eq!(rels.len(), MAX_WALK_DEPTH);
}

#[test]
fn a_huge_tree_is_cut_off() {
    let mut w = Walk::new(vec![("big".to_string(), 0)]);
    while let Some(at) = w.next() {
        let found = if at.id == 0 {
            Found::Dir((1..30_000u64).map(|i| (format!("{i}"), i)).collect())
        } else {
            Found::File
        };
        collect(&mut w, at, found);
    }
    assert_eq!(w.out.len(), MAX_WALK_ENTRIES);
    assert!(w.truncated);
}

#[test]
fn a_directory_is_walked_by_name() {
    // Capitals come first, a name comes before what it begins, and equal names keep their numbers.
    let (rels, _) = walk(&[("d", 0)], |id| match id {
        0 => dir(&[("é", 1), ("b", 2), ("ab", 3), ("Z", 4), ("a", 5), ("a", 6), ("c", 7)]),
        7 => dir(&[("2", 8), ("1", 9)]),
        _ => Found::File,
    });
    assert_eq!(rels, ["d/Z", "d/a", "d/a", "d/ab", "d/b", "d/c/1", "d/c/2", "d/é"]);
}

fn many(id: u64) -> Found {
    match id {
        0 => Found::Dir((2..15_002u64).map(|i| (format!("{i}"), i)).collect()),
        1 => Found::Dir((20_000..32_000u64).map(|i| (format!("{i}"), i)).collect()),
        _ => Found::File,
    }
}

#[test]
fn two_selections_are_walked_in_turn() {
    let (a, _) = walk(&[("a", 0)], many);
    let (b, _) = walk(&[("b", 1)], many);
    let (both, truncated) = walk(&[("a", 0), ("b", 1)], many);
    assert_eq!((a.len(), b.len()), (15_000, 12_000));
    let all: Vec<String> = a.into_iter().chain(b).take(MAX_WALK_ENTRIES).collect();
    assert_eq!(both, all);
    assert!(truncated);
    assert_eq!(walk(&[], many), (Vec::new(), false));
}

#[test]
fn a_full_chunk_fits_a_frame() {
    let mut tx = Sender { token: u64::MAX, seq: u64::MAX };
    match tx.chunk(&vec![0xff; FILE_CHUNK]) {
        Message::FileChunk { data, .. } => {
            assert_eq!(data.len(), 349_528);
            assert!(data.len() + 128 <= MAX_FRAME);
        }
        other => panic!("{other:?}"),
    }
    assert_eq!(tx.seq, 0);
}

#[test]
fn backslashes_in_names_become_slashes() {
    let (rels, _) = walk(&[("a\\b", 0)], |_| Found::File);
    assert_eq!(rels, ["a/b"]);
}

#[test]
fn receiver_confines_manifest_paths_to_the_inbox() {
    let mut rx = receiver();
    let token = 9_000_001;
    let payload = b"pwned";
    rx.handle(
        Message::ClipboardFiles {
            token,
            entries: vec![
                entry("../../../evil.txt", payload.len() as u64),
                entry("/etc/evil.txt", payload.len() as u64),
            ],
        },
        false,
    );
    let ops = rx.handle(
        Message::FileChunk {
            token,
            seq: 0,
            data: base64_encode(&[payload.as_slice(), payload.as_slice()].concat()),
        },
        false,
    );
    assert_eq!(
        ops,
        Incoming::Ops(vec![
            FileOp::Create { index: 0, path: "evil.txt".into() },
            FileOp::Write { data: payload.to_vec() },
            FileOp::Close,
            FileOp::Create { index: 1, path: "etc/evil.txt".into() },
            FileOp::Write { data: payload.to_vec() },
            FileOp::Close,
        ])
    );
    match rx.handle(Message::FileEnd { token }, false) {
        Incoming::Finished(f) => {
            assert_eq!(f.top, ["evil.txt", "etc"], "both entries should land");
        }
        other => panic!("transfer completes: {other:?}"),
    }
}

#[test]
fn receiver_materialises_zero_byte_files() {
    let mut rx = receiver();
    let token = 9_000_002;
    rx.handle(
        Message::ClipboardFiles { token, entries: vec![entry("empty.txt", 0)] },
        false,
    );
    // No chunk follows: a zero-byte file never enters the write loop.
    match rx.handle(Message::FileEnd { token }, false) {
        Incoming::Finished(f) => {
            assert_eq!(f.create, ["empty.txt"], "empty file should still be created");
            assert_eq!(f.top, ["empty.txt"]);
        }
        other => panic!("transfer completes: {other:?}"),
    }
}

#[test]
fn a_lost_chunk_drops_the_copy() {
    let mut rx = receiver();
    rx.handle(Message::ClipboardFiles { token: 5, entries: vec![entry("a", 10)] }, false);
    assert_eq!(
        rx.handle(Message::FileChunk { token: 5, seq: 1, data: base64_encode(b"x") }, false),
        Incoming::OutOfOrder { got: 1, want: 0 }
    );
    // The rest of it is of no interest any more.
    assert_eq!(rx.handle(Message::FileEnd { token: 5 }, false), Incoming::Ignored);
}

#[test]
fn a_copy_that_is_too_large_is_refused() {
    let mut rx = receiver();
    let e = vec![entry("a", MAX_FILE_BYTES), entry("b", 1)];
    assert_eq!(
        rx.handle(Message::ClipboardFiles { token: 5, entries: e }, false),
        Incoming::Refused { total: MAX_FILE_BYTES as u128 + 1 }
    );
    assert_eq!(rx.handle(Message::FileEnd { token: 5 }, false), Incoming::Ignored);
}

#[test]
fn two_copies_at_once_do_not_mix() {
    let mut rx = receiver();
    rx.handle(Message::ClipboardFiles { token: 1, entries: vec![entry("one", 2)] }, false);
    rx.handle(Message::ClipboardFiles { token: 2, entries: vec![entry("two", 2)] }, false);
    assert_eq!(
        rx.handle(Message::FileChunk { token: 2, seq: 0, data: base64_encode(b"22") }, false),
        Incoming::Ops(vec![
            FileOp::Create { index: 0, path: "two".into() },
            FileOp::Write { data: b"22".to_vec() },
            FileOp::Close,
        ])
    );
    assert_eq!(
        rx.handle(Message::FileChunk { token: 1, seq: 0, data: base64_encode(b"11") }, false),
        Incoming::Ops(vec![
            FileOp::Create { index: 0, path: "one".into() },
            FileOp::Write { data: b"11".to_vec() },
            FileOp::Close,
        ])
    );
}

#[test]
fn a_file_spans_several_chunks() {
    let mut rx = receiver();
    let mut tx = Sender { token: 3, seq: 0 };
    rx.handle(Message::ClipboardFiles { token: 3, entries: vec![entry("f", 5)] }, false);
    let c0 = tx.chunk(b"abc");
    let c1 = tx.chunk(b"de");
    assert_eq!(
        rx.handle(c0, false),
        Incoming::Ops(vec![
            FileOp::Create { index: 0, path: "f".into() },
            FileOp::Write { data: b"abc".to_vec() },
        ])
    );
    assert_eq!(
        rx.handle(c1, false),
        Incoming::Ops(vec![FileOp::Write { data: b"de".to_vec() }, FileOp::Close])
    );
    assert_eq!(tx.end(), Message::FileEnd { token: 3 });
}

#[test]
fn a_file_that_cannot_be_created_leaves_the_others() {
    let mut rx = receiver();
    rx.handle(
        Message::ClipboardFiles { token: 4, entries: vec![entry("a", 1), entry("b", 1)] },
        false,
    );
    rx.create_failed(4, 0);
    rx.write_failed(4);
    assert_eq!(rx.handle(Message::FileEnd { token: 4 }, false), Incoming::Ignored);
}

#[test]
fn what_is_sent_is_planned_first() {
    let mut t = Tokens { tag: 7, next: 1 };
    assert_eq!(plan_send(&mut t, Vec::new()), SendPlan::Nothing);
    let over = vec![entry("a", MAX_FILE_BYTES), entry("b", 1)];
    assert_eq!(total_bytes(&over), MAX_FILE_BYTES as u128 + 1);
    assert_eq!(
        plan_send(&mut t, over),
        SendPlan::TooBig { total: MAX_FILE_BYTES as u128 + 1 }
    );
    let token = (7u64 << 32) | 1;
    assert_eq!(
        plan_send(&mut t, vec![entry("a", 1)]),
        SendPlan::Go {
            sender: Sender { token, seq: 0 },
            manifest: Message::ClipboardFiles { token, entries: vec![entry("a", 1)] },
        }
    );
    assert_eq!(FILE_CHUNK, 256 * 1024);
}

#[test]
fn only_old_directories_are_swept() {
    assert_eq!(inbox_name(42), "42");
    assert!(is_abandoned("41", 42, Some(STALE_MS + 1)));
    assert!(!is_abandoned("41", 42, Some(STALE_MS)));
    assert!(!is_abandoned("42", 42, Some(STALE_MS + 1)));
    assert!(!is_abandoned("41", 42, None));
}

#[test]
fn the_end_of_a_copy_names_its_top_once() {
    let mut rx = receiver();
    let entries =
        vec![entry("b/1", 0), entry("../a", 0), entry("b/2", 0), entry("/a/x", 0), entry("c", 0)];
    rx.handle(Message::ClipboardFiles { token: 9, entries }, false);
    match rx.handle(Message::FileEnd { token: 9 }, false) {
        Incoming::Finished(f) => assert_eq!(f.top, ["b", "a", "c"]),
        other => panic!("{other:?}"),
    }
    assert_eq!(rx.handle(Message::FileEnd { token: 9 }, false), Incoming::Ignored);
}
