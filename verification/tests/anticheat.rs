use quarry::anticheat::{detect, driver_name, Protection};
use quarry::target::ModuleInfo;

fn module(name: &str) -> ModuleInfo {
    ModuleInfo { name: name.to_string(), base: 0x1000, size: 0x1000 }
}

fn drivers(names: &[&str]) -> Vec<String> {
    names.iter().map(|n| n.to_string()).collect()
}

#[test]
fn a_driver_blocks_injection() {
    let d = detect("game.exe", &vec![], &drivers(&["ntoskrnl.exe", "bedaisy.sys"]));
    assert_eq!(d.protection, Protection::KernelAc("BattlEye".to_string()));
    assert_eq!(d.reasons, vec!["driver kernel 'bedaisy.sys' presente"]);
    assert!(d.protection.blocks_injection());
    assert_eq!(d.protection.ac_name(), Some("BattlEye"));
}

#[test]
fn vanguard_comes_before_other_drivers() {
    let d = detect("rainbowsix.exe", &vec![module("BEClient.dll")], &drivers(&["bedaisy.sys", "vgk.sys"]));
    assert_eq!(d.protection, Protection::KernelAc("Riot Vanguard".to_string()));
}

#[test]
fn a_known_executable_blocks_injection() {
    let d = detect("R5Apex.EXE", &vec![], &vec![]);
    assert_eq!(d.protection, Protection::KernelAc("Easy Anti-Cheat".to_string()));
    assert_eq!(
        d.reasons,
        vec!["executavel 'r5apex.exe' usa AC kernel conhecido (driver ainda nao detectado)"]
    );
}

#[test]
fn a_module_asks_for_care() {
    let d = detect("game.exe", &vec![module("a.dll"), module("My_GameGuard.des")], &vec![]);
    assert_eq!(d.protection, Protection::UsermodeAc("nProtect GameGuard".to_string()));
    assert_eq!(d.reasons, vec!["modulo 'My_GameGuard.des' carregado no processo"]);
    assert!(!d.protection.blocks_injection());
}

#[test]
fn nothing_known_is_unprotected() {
    let d = detect("calc.exe", &vec![module("user32.dll")], &drivers(&["tcpip.sys"]));
    assert_eq!(d.protection, Protection::Unprotected);
    assert!(d.reasons.is_empty());
    assert_eq!(d.protection.ac_name(), None);
}

#[test]
fn names_of_drivers_are_lowered() {
    let units: Vec<u16> = "VGK.Sys".encode_utf16().collect();
    assert_eq!(driver_name(&units), "vgk.sys");
    let umlaut: Vec<u16> = "ÄB\u{1F600}".encode_utf16().collect();
    assert_eq!(driver_name(&umlaut), "äb\u{1F600}");
    assert_eq!(driver_name(&[0xD800, 0x41]), "\u{FFFD}a");
}
