use quarry::internals::{
    command_begin, command_take, resolve, threads, wants_file, CommandPart, CommandRead, MapWalk,
    MemRegion, Query, StringSearch, ThreadRow, MAX_FOUND,
};
use quarry::target::ModuleInfo;

fn query(base: u64, size: u64, state: u32, kind: u32, protect: u32) -> Query {
    Query { base, size, state, kind, protect }
}

fn units(s: &str) -> Vec<u16> {
    s.encode_utf16().collect()
}

#[test]
fn a_memory_map() {
    let mut w = MapWalk::new();
    assert!(w.take(query(0, 0x1000, 0x1_0000, 0, 1), &[]));
    let image = query(0x1000, 0x2000, 0x1000, 0x100_0000, 0x20);
    assert!(wants_file(&image));
    assert!(w.take(image, &units("\\Device\\Volume\\game.exe")));
    assert!(w.take(query(0x3000, 0x1000, 0x1000, 0x2_0000, 0x104), &units("ignored")));
    assert!(w.take(query(0x4000, 0x1000, 0x2000, 0x4_0000, 0), &[]));
    assert!(w.take(query(0x5000, 0x1000, 0x7, 0x9, 0x3), &[]));
    assert_eq!(w.addr, 0x6000);
    // a region that does not lead on ends the walk
    assert!(!w.take(query(0x4000, 0x1000, 0x1_0000, 0, 0), &[]));
    let seen: Vec<(u64, &str, &str, &str, &str)> = w
        .out
        .iter()
        .map(|r| (r.base, r.state, r.protect.as_str(), r.kind, r.detail.as_str()))
        .collect();
    assert_eq!(
        seen,
        vec![
            (0x1000, "commit", "R-X", "image", "game.exe"),
            (0x3000, "commit", "RW- guard", "private", ""),
            (0x4000, "reserve", "-", "mapped", ""),
            (0x5000, "?", "???", "", ""),
        ]
    );
}

#[test]
fn protections() {
    let cases = [
        (0x01, "---"),
        (0x02, "R--"),
        (0x04, "RW-"),
        (0x08, "RWc"),
        (0x10, "--X"),
        (0x20, "R-X"),
        (0x40, "RWX"),
        (0x80, "RcX"),
        (0x140, "RWX guard"),
    ];
    for (protect, text) in cases {
        let mut w = MapWalk::new();
        w.take(query(0, 1, 0x1000, 0, protect), &[]);
        assert_eq!(w.out[0].protect, text);
    }
}

#[test]
fn the_walk_ends_at_the_last_address() {
    let mut w = MapWalk::new();
    assert!(w.take(query(u64::MAX - 1, 100, 0x1000, 0, 2), &[]));
    assert_eq!(w.addr, u64::MAX);
    assert!(!w.take(query(u64::MAX - 1, 100, 0x1000, 0, 2), &[]));
}

#[test]
fn threads_of_a_process() {
    let modules = vec![
        ModuleInfo { name: "a.dll".to_string(), base: 0x1000, size: 0x1000 },
        ModuleInfo { name: "b.dll".to_string(), base: 0x1800, size: 0x1000 },
    ];
    let rows = vec![
        ThreadRow { owner: 7, tid: 1, base_priority: 8, start: 0x1900 },
        ThreadRow { owner: 8, tid: 2, base_priority: 8, start: 0x1900 },
        ThreadRow { owner: 7, tid: 3, base_priority: -2, start: 0x2010 },
        ThreadRow { owner: 7, tid: 4, base_priority: 0, start: 0x9000 },
    ];
    let found: Vec<(u32, i32, u64, String)> = threads(&rows, 7, &modules)
        .into_iter()
        .map(|t| (t.tid, t.base_priority, t.start, t.start_sym))
        .collect();
    assert_eq!(
        found,
        vec![
            (1, 8, 0x1900, "a.dll+0x900".to_string()),
            (3, -2, 0x2010, "b.dll+0x810".to_string()),
            (4, 0, 0x9000, String::new()),
        ]
    );
    assert_eq!(resolve(0, &modules), "");
    assert_eq!(resolve(0x1000, &modules), "a.dll+0x0");
}

#[test]
fn the_command_line() {
    let mut info = vec![0u8; 48];
    info[8..16].copy_from_slice(&0x7000u64.to_le_bytes());
    let (part, read) = command_begin(&info);
    assert!(matches!(read, CommandRead::Bytes { addr: 0x7020, len: 8 }));
    let (part, read) = command_take(part, Some(0x9000u64.to_le_bytes().to_vec()));
    assert!(matches!(read, CommandRead::Bytes { addr: 0x9070, len: 2 }));
    let (part, read) = command_take(part, Some(vec![10, 0]));
    assert!(matches!(read, CommandRead::Bytes { addr: 0x9078, len: 8 }));
    let (part, read) = command_take(part, Some(0xA000u64.to_le_bytes().to_vec()));
    assert!(matches!(read, CommandRead::Bytes { addr: 0xA000, len: 10 }));
    let mut text: Vec<u8> = units("a.exe").iter().flat_map(|u| u.to_le_bytes()).collect();
    text.push(0x41);
    let (part, read) = command_take(part, Some(text));
    assert_eq!(part, CommandPart::Over);
    match read {
        CommandRead::Done(line) => assert_eq!(line.as_deref(), Some("a.exe")),
        other => panic!("{other:?}"),
    }
}

#[test]
fn a_command_line_that_is_not_there() {
    assert!(matches!(command_begin(&[0u8; 48]).1, CommandRead::Done(None)));
    assert!(matches!(command_take(CommandPart::Parameters, None).1, CommandRead::Done(None)));
    assert!(matches!(
        command_take(CommandPart::Parameters, Some(vec![1; 7])).1,
        CommandRead::Done(None)
    ));
    let eight = 5u64.to_le_bytes().to_vec();
    assert!(matches!(command_take(CommandPart::Buffer(0), Some(eight)).1, CommandRead::Done(None)));
    assert!(matches!(
        command_take(CommandPart::Buffer(4), Some(vec![0; 8])).1,
        CommandRead::Done(None)
    ));
}

fn region(base: u64, size: u64, state: &'static str, protect: &str) -> MemRegion {
    MemRegion {
        base,
        size,
        state,
        protect: protect.to_string(),
        kind: "private",
        detail: String::new(),
    }
}

#[test]
fn texts_in_memory() {
    let regions = vec![
        region(0x1000, 0x100, "reserve", "R--"),
        region(0x2000, 0x100, "commit", "--X"),
        region(0x3000, 0x100, "commit", "RW-"),
        region(0x4000, 0x9000_0000, "commit", "R--"),
        region(0x5000, 0x100, "commit", "RWX"),
    ];
    let mut s = StringSearch::new();
    assert_eq!(s.ask(&regions), Some((0x3000, 0x100)));
    let mut bytes = b"\x01abcd\x02xy\x00".to_vec();
    bytes.extend(units("wide").iter().flat_map(|u| u.to_le_bytes()));
    s.take(0x3000, Some(bytes), 4);
    assert_eq!(s.ask(&regions), Some((0x4000, 8 * 1024 * 1024)));
    s.take(0x4000, None, 4);
    assert_eq!(s.ask(&regions), Some((0x5000, 0x100)));
    s.take(0x5000, Some(b"~~~~ ".to_vec()), 4);
    assert_eq!(s.ask(&regions), None);
    let found: Vec<(u64, bool, &str)> =
        s.out.iter().map(|f| (f.addr, f.wide, f.text.as_str())).collect();
    assert_eq!(
        found,
        vec![
            (0x3001, false, "abcd"),
            (0x3007, true, "ywide"),
            (0x5000, false, "~~~~ "),
        ]
    );
}

#[test]
fn a_search_has_a_limit() {
    let regions = vec![region(0, 0x10_0000, "commit", "R--"), region(0, 1, "commit", "R--")];
    let mut s = StringSearch::new();
    s.ask(&regions);
    s.take(0, Some(b"a\0".repeat(30000)), 1);
    assert!(s.full);
    // the narrow search stops at the limit, the wide one adds one run
    assert_eq!(s.out.len(), MAX_FOUND + 1);
    assert_eq!(s.ask(&regions), None);
}
