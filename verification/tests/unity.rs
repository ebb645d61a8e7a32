use quarry::target::ModuleInfo;
use quarry::unity::{analyze, find_mono, Engine, ExportReader, Read, SAMPLE_LIMIT};

fn module(name: &str) -> ModuleInfo {
    ModuleInfo { name: name.to_string(), base: 0x18_0000_0000, size: 0x1000 }
}

#[test]
fn engines() {
    let cases: [(&[&str], Engine, &str); 5] = [
        (&["UnityPlayer.dll", "GameAssembly.dll", "MONO.dll"], Engine::Mono, "Unity (Mono)"),
        (&["mono-2.0-bdwgc"], Engine::Mono, "Unity (Mono)"),
        (&["unityplayer.DLL", "gameassembly.dll"], Engine::Il2Cpp, "Unity (IL2CPP)"),
        (&["UnityPlayer.dll"], Engine::Unity, "Unity (backend desconhecido)"),
        (&["kernel32.dll", "monolith.exe"], Engine::NotUnity, "Não-Unity"),
    ];
    for (names, engine, label) in cases {
        let modules: Vec<ModuleInfo> = names.iter().map(|n| module(n)).collect();
        let info = analyze(&modules, &vec![]);
        assert_eq!(info.engine, engine);
        assert_eq!(info.engine.label(), label);
        assert_eq!(info.mono_module.is_some(), engine == Engine::Mono);
        assert_eq!(find_mono(&modules).is_some(), engine == Engine::Mono);
    }
}

#[test]
fn exports_are_counted_and_sampled() {
    let mut exports: Vec<String> = (0..100).map(|i| format!("mono_{i}")).collect();
    exports.push("other".to_string());
    let info = analyze(&vec![module("mono.dll")], &exports);
    assert_eq!(info.mono_export_count, 100);
    assert_eq!(info.mono_exports.len(), SAMPLE_LIMIT);
    assert_eq!(info.mono_exports[59], "mono_59");
    let none = analyze(&vec![module("GameAssembly.dll")], &exports);
    assert_eq!(none.mono_export_count, 0);
    assert!(none.mono_exports.is_empty());
}

/// The memory of a module with two exports.
fn image() -> Vec<u8> {
    let mut b = vec![0u8; 0x800];
    b[0..2].copy_from_slice(b"MZ");
    b[0x3C..0x40].copy_from_slice(&0x80u32.to_le_bytes());
    b[0x80..0x84].copy_from_slice(b"PE\0\0");
    b[0x98..0x9A].copy_from_slice(&0x20Bu16.to_le_bytes());
    b[0x98 + 112..0x98 + 116].copy_from_slice(&0x200u32.to_le_bytes());
    b[0x218..0x21C].copy_from_slice(&3u32.to_le_bytes());
    b[0x220..0x224].copy_from_slice(&0x300u32.to_le_bytes());
    b[0x300..0x304].copy_from_slice(&0x400u32.to_le_bytes());
    b[0x304..0x308].copy_from_slice(&0u32.to_le_bytes());
    b[0x308..0x30C].copy_from_slice(&0x500u32.to_le_bytes());
    b[0x400..0x40A].copy_from_slice(b"mono_first");
    b[0x500..0x50B].copy_from_slice(b"mono_second");
    b
}

fn read_all(image: &[u8]) -> (Vec<String>, usize) {
    let base = 0x18_0000_0000u64;
    let (mut reader, mut ask) = ExportReader::begin(base);
    let mut asked = 0;
    loop {
        match ask {
            Read::Done(names) => return (names, asked),
            Read::Bytes { addr, len } => {
                asked += 1;
                let at = (addr - base) as usize;
                ask = reader.take(image.get(at..at + len).map(|b| b.to_vec()));
            }
        }
    }
}

#[test]
fn exports_are_read_from_memory() {
    let (names, asked) = read_all(&image());
    assert_eq!(names, vec!["mono_first", "mono_second"]);
    assert_eq!(asked, 8);
}

#[test]
fn a_module_that_is_no_image_has_no_exports() {
    let mut b = image();
    b[0] = b'X';
    assert_eq!(read_all(&b), (Vec::new(), 1));
    let mut b = image();
    b[0x80] = b'X';
    assert_eq!(read_all(&b), (Vec::new(), 2));
    let mut b = image();
    b[0x98 + 112..0x98 + 116].copy_from_slice(&0u32.to_le_bytes());
    assert_eq!(read_all(&b), (Vec::new(), 4));
    assert_eq!(read_all(&[]), (Vec::new(), 1));
}

#[test]
fn names_are_read_as_text() {
    let mut b = image();
    b[0x400..0x403].copy_from_slice(&[0xC3, 0xA9, 0xFF]);
    b[0x403] = 0;
    let (names, _) = read_all(&b);
    assert_eq!(names[0], "é\u{FFFD}");
}
