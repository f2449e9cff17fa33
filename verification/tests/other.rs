use dsh_desktop::logging::{path, LogTarget};
use dsh_desktop::order::order_descending;
use dsh_desktop::panel::{menu_action, MenuAction, PanelMode};
use dsh_desktop::portable::{entry_name, is_safe, parse_record, Entry, Unpacker};
use dsh_desktop::text::{lines, trim, trim_start_matches};
use dsh_desktop::window::window_target;
use std::io::Write;
use std::path::PathBuf;

#[test]
fn panel_modes_from_menu_ids() {
    assert_eq!(PanelMode::from_id("panel-pin"), Some(PanelMode::Pinned));
    assert_eq!(PanelMode::from_id("panel-float"), Some(PanelMode::Floating));
    assert_eq!(PanelMode::from_id("panel-hide"), Some(PanelMode::Hidden));
    assert_eq!(PanelMode::from_id("panel"), None);
    assert_eq!(PanelMode::default(), PanelMode::Pinned);
}

#[test]
fn menu_items_map_to_actions() {
    assert_eq!(menu_action("panel-float"), MenuAction::Panel(PanelMode::Floating));
    assert_eq!(menu_action("open-log"), MenuAction::OpenLog);
    assert_eq!(menu_action("open-log-dir"), MenuAction::OpenLogFolder);
    assert_eq!(menu_action("devtools"), MenuAction::DevTools);
    assert_eq!(menu_action("reload"), MenuAction::Reload);
    assert_eq!(menu_action("quit"), MenuAction::Ignore);
}

#[test]
fn the_first_log_path_stays() {
    let mut t = LogTarget::new();
    assert!(path(&t).is_none());
    assert!(t.record(PathBuf::from("/tmp/a.log")));
    assert!(!t.record(PathBuf::from("/tmp/b.log")));
    for i in 0..5 {
        assert!(!t.record(PathBuf::from(format!("/tmp/{i}.log"))));
    }
    assert_eq!(path(&t), Some(&PathBuf::from("/tmp/a.log")));
}

#[test]
fn window_target_parses_the_announced_url() {
    let u = window_target("http://127.0.0.1:54321").unwrap();
    assert_eq!(u.port(), Some(54321));
    assert!(window_target("not a url").is_err());
}

#[test]
fn stable_descending_order() {
    assert_eq!(order_descending(&vec![1, 3, 2, 3, 0]), vec![1, 3, 2, 0, 4]);
}

#[test]
fn text_helpers() {
    assert_eq!(trim("\u{3000} a b \t\n"), "a b");
    assert_eq!(trim(" \u{85} "), "");
    assert_eq!(trim_start_matches("session-session-x-session-", "session-"), "x-session-");
    let ls: Vec<String> = lines("a\r\nb\n\nc\r").into_iter().map(|l| l.into_iter().collect()).collect();
    assert_eq!(ls, ["a", "b", "", "c\r"]);
    assert!(lines("").is_empty());
    assert_eq!(lines("x\n").len(), 1);
}

#[test]
fn safe_names() {
    assert!(is_safe("backend/node_modules/x.js"));
    assert!(!is_safe(""));
    assert!(!is_safe("/etc/passwd"));
    assert!(!is_safe("a/../b"));
    assert!(is_safe("node"));
    assert!(!is_safe("\\server\\share\\x"));
    assert!(!is_safe("C:\\Windows\\x"));
    assert!(!is_safe("C:x"));
    assert!(is_safe("lib/a:b.js"));
    assert_eq!(entry_name(vec![0xff]).err().as_deref(), Some("the bundled runtime is corrupt"));
    assert_eq!(entry_name(b"node".to_vec()).ok().as_deref(), Some("node"));
}

fn record(out: &mut Vec<u8>, name: &[u8], data: &[u8]) {
    out.extend_from_slice(&(name.len() as u32).to_le_bytes());
    out.extend_from_slice(name);
    out.extend_from_slice(&(data.len() as u64).to_le_bytes());
    out.extend_from_slice(data);
}

fn pack(raw: &[u8]) -> &'static [u8] {
    let mut enc = flate2::write::DeflateEncoder::new(Vec::new(), flate2::Compression::default());
    enc.write_all(raw).unwrap();
    Box::leak(enc.finish().unwrap().into_boxed_slice())
}

#[test]
fn unpacks_records_in_chunks() {
    let big: Vec<u8> = (0..70_000u32).map(|i| (i % 251) as u8).collect();
    let mut raw = Vec::new();
    record(&mut raw, b"node", &big);
    record(&mut raw, b"backend/lib/bin.js", b"console.log(1)");
    let mut u = Unpacker::new(pack(&raw));

    let e: Entry = u.next_entry().unwrap().unwrap();
    assert_eq!((e.name.as_str(), e.size), ("node", 70_000));
    assert!(e.at_top_level());
    let first = u.next_chunk().unwrap().unwrap();
    assert_eq!(first.len(), 65_536);
    let second = u.next_chunk().unwrap().unwrap();
    assert_eq!(second.len(), 70_000 - 65_536);
    assert!(u.next_chunk().unwrap().is_none());
    assert_eq!([first, second].concat(), big);
    assert!(u.file_done().is_none());

    let e = u.next_entry().unwrap().unwrap();
    assert_eq!(e.name, "backend/lib/bin.js");
    assert!(!e.at_top_level());
    assert_eq!(u.next_chunk().unwrap().unwrap(), b"console.log(1)");
    assert_eq!(u.pending(), 0);
    u.file_done();
    assert!(u.next_entry().unwrap().is_none());
    assert_eq!(u.summary(), "unpacked 2 files");
}

#[test]
fn refuses_unsafe_and_corrupt_records() {
    let mut raw = Vec::new();
    record(&mut raw, b"../evil", b"x");
    let mut u = Unpacker::new(pack(&raw));
    assert_eq!(
        u.next_entry().err().as_deref(),
        Some("the bundled runtime contains an unsafe path: ../evil")
    );
    let mut raw = Vec::new();
    record(&mut raw, &[0xc3, 0x28], b"x");
    let mut u = Unpacker::new(pack(&raw));
    assert_eq!(u.next_entry().err().as_deref(), Some("the bundled runtime is corrupt"));
    let mut raw = Vec::new();
    raw.extend_from_slice(&10u32.to_le_bytes());
    raw.extend_from_slice(b"abc");
    let mut u = Unpacker::new(pack(&raw));
    let err = u.next_entry().err().unwrap();
    assert!(err.starts_with("reading the bundled runtime failed: "), "{err}");
}

#[test]
fn progress_every_250_files() {
    let mut raw = Vec::new();
    for i in 0..500 {
        record(&mut raw, format!("f{i}").as_bytes(), b"");
    }
    let mut u = Unpacker::new(pack(&raw));
    let mut reports = Vec::new();
    while let Some(_e) = u.next_entry().unwrap() {
        assert!(u.next_chunk().unwrap().is_none());
        if let Some(m) = u.file_done() {
            reports.push(m);
        }
    }
    assert_eq!(reports, ["unpacked 250 files", "unpacked 500 files"]);
    assert_eq!(u.summary(), "unpacked 500 files");
}

#[test]
fn record_fields_read_into_an_entry() {
    let e = parse_record(&vec![4, 0, 0, 0], &b"node".to_vec(), &vec![7, 1, 0, 0, 0, 0, 0, 0]).unwrap();
    assert_eq!((e.name.as_str(), e.size), ("node", 263));
    assert_eq!(
        parse_record(&vec![4, 0, 0, 0], &b"../x".to_vec(), &vec![0; 8]).err().as_deref(),
        Some("the bundled runtime contains an unsafe path: ../x")
    );
    assert_eq!(
        parse_record(&vec![3, 0, 0, 0], &b"node".to_vec(), &vec![0; 8]).err().as_deref(),
        Some("the bundled runtime is corrupt")
    );
    assert_eq!(
        parse_record(&vec![1, 0, 0, 0], &vec![0xff], &vec![0; 8]).err().as_deref(),
        Some("the bundled runtime is corrupt")
    );
}

#[test]
fn reading_stops_at_the_first_unsafe_record() {
    let mut raw = Vec::new();
    record(&mut raw, b"a.txt", b"one");
    record(&mut raw, b"C:evil", b"two");
    record(&mut raw, b"b.txt", b"three");
    let mut u = Unpacker::new(pack(&raw));
    let e = u.next_entry().unwrap().unwrap();
    assert_eq!(e.name, "a.txt");
    assert_eq!(u.next_chunk().unwrap().unwrap(), b"one");
    assert!(u.next_chunk().unwrap().is_none());
    u.file_done();
    assert_eq!(
        u.next_entry().err().as_deref(),
        Some("the bundled runtime contains an unsafe path: C:evil")
    );
}
