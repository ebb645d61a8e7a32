use quarry::process::{find_pid, name_of, sort_processes, ProcessInfo};

fn process(pid: u32, name: &str) -> ProcessInfo {
    ProcessInfo { pid, name: name.to_string() }
}

#[test]
fn names_end_at_the_first_zero() {
    let mut units: Vec<u16> = "gäme.exe".encode_utf16().collect();
    units.push(0);
    units.extend("rest".encode_utf16());
    assert_eq!(name_of(&units), "gäme.exe");
    assert_eq!(name_of(&[0x41, 0xDC00]), "A\u{FFFD}");
    assert_eq!(name_of(&[]), "");
}

#[test]
fn processes_are_sorted_by_name_without_case() {
    let sorted = sort_processes(vec![
        process(1, "beta.exe"),
        process(2, "Alpha.exe"),
        process(3, "BETA.EXE"),
        process(4, "alpha.exe"),
        process(5, "Älg.exe"),
        process(6, "zeta.exe"),
    ]);
    let pids: Vec<u32> = sorted.iter().map(|p| p.pid).collect();
    assert_eq!(pids, vec![2, 4, 1, 3, 6, 5]);
    let mut names: Vec<String> = sorted.iter().map(|p| p.name.to_lowercase()).collect();
    let before = names.clone();
    names.sort();
    assert_eq!(names, before);
}

#[test]
fn the_first_process_of_a_name() {
    let list = vec![process(1, "a.exe"), process(2, "League.exe"), process(3, "LEAGUE.EXE")];
    assert_eq!(find_pid(&list, "league.exe"), Some(2));
    assert_eq!(find_pid(&list, "b.exe"), None);
}
