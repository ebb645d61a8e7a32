use quarry::pe::{analyze, build_verdict, PeInfo, PeSection};

#[test]
fn rejects_non_pe() {
    assert!(analyze(b"not a pe at all, just text padding padding").is_err());
}

fn put(b: &mut [u8], at: usize, bytes: &[u8]) {
    b[at..at + bytes.len()].copy_from_slice(bytes);
}

/// A library for 64 bits with two sections, an import table and two exports.
fn image() -> Vec<u8> {
    let mut b = vec![0u8; 0xC00];
    put(&mut b, 0, b"MZ");
    put(&mut b, 0x3C, &0x80u32.to_le_bytes());
    put(&mut b, 0x80, b"PE\0\0");
    put(&mut b, 0x84, &0x8664u16.to_le_bytes());
    put(&mut b, 0x86, &2u16.to_le_bytes());
    put(&mut b, 0x88, &0x5F00_0000u32.to_le_bytes());
    put(&mut b, 0x94, &0xF0u16.to_le_bytes());
    put(&mut b, 0x96, &0x2022u16.to_le_bytes());
    let oh = 0x98;
    put(&mut b, oh, &0x20Bu16.to_le_bytes());
    put(&mut b, oh + 16, &0x1234u32.to_le_bytes());
    put(&mut b, oh + 24, &0x1_8000_0000u64.to_le_bytes());
    put(&mut b, oh + 56, &0x5000u32.to_le_bytes());
    put(&mut b, oh + 68, &3u16.to_le_bytes());
    put(&mut b, oh + 70, &0x4160u16.to_le_bytes());
    put(&mut b, oh + 112, &0x2400u32.to_le_bytes());
    put(&mut b, oh + 120, &0x2000u32.to_le_bytes());
    let sections = oh + 0xF0;
    put(&mut b, sections, b".text\0\0\0");
    put(&mut b, sections + 8, &0x100u32.to_le_bytes());
    put(&mut b, sections + 12, &0x1000u32.to_le_bytes());
    put(&mut b, sections + 16, &0x200u32.to_le_bytes());
    put(&mut b, sections + 20, &0x200u32.to_le_bytes());
    put(&mut b, sections + 36, &0x6000_0020u32.to_le_bytes());
    put(&mut b, sections + 40, b".rdatalg");
    put(&mut b, sections + 48, &0x800u32.to_le_bytes());
    put(&mut b, sections + 52, &0x2000u32.to_le_bytes());
    put(&mut b, sections + 56, &0x800u32.to_le_bytes());
    put(&mut b, sections + 60, &0x400u32.to_le_bytes());
    put(&mut b, sections + 76, &0x4000_0040u32.to_le_bytes());
    // imports: one library, by name and by number
    put(&mut b, 0x400, &0x2100u32.to_le_bytes());
    put(&mut b, 0x40C, &0x2200u32.to_le_bytes());
    put(&mut b, 0x410, &0x2100u32.to_le_bytes());
    put(&mut b, 0x500, &0x2300u64.to_le_bytes());
    put(&mut b, 0x508, &0x8000_0000_0000_0011u64.to_le_bytes());
    put(&mut b, 0x600, b"KERNEL32.dll\0");
    put(&mut b, 0x702, b"Sleep\0");
    // exports
    put(&mut b, 0x810, &10u32.to_le_bytes());
    put(&mut b, 0x814, &2u32.to_le_bytes());
    put(&mut b, 0x818, &2u32.to_le_bytes());
    put(&mut b, 0x81C, &0x2500u32.to_le_bytes());
    put(&mut b, 0x820, &0x2510u32.to_le_bytes());
    put(&mut b, 0x824, &0x2520u32.to_le_bytes());
    put(&mut b, 0x900, &0x1111u32.to_le_bytes());
    put(&mut b, 0x904, &0x2222u32.to_le_bytes());
    put(&mut b, 0x910, &0x2600u32.to_le_bytes());
    put(&mut b, 0x914, &0x2610u32.to_le_bytes());
    put(&mut b, 0x920, &1u16.to_le_bytes());
    put(&mut b, 0xA00, b"first\0");
    b
}

#[test]
fn reads_a_library() {
    let info = analyze(&image()).expect("a library");
    assert!(info.is_64);
    assert!(info.is_dll);
    assert!(!info.is_dotnet);
    assert_eq!(info.machine_str, "x64 (AMD64)");
    assert_eq!(info.subsystem_str, "Windows Console");
    assert_eq!(info.timestamp, 0x5F00_0000);
    assert_eq!(info.entry_point, 0x1234);
    assert_eq!(info.image_base, 0x1_8000_0000);
    assert_eq!(info.size_of_image, 0x5000);
    assert_eq!(info.mitigations(), "ASLR, ASLR-alta-entropia, DEP/NX, CFG");
    let names: Vec<&str> = info.sections.iter().map(|s| s.name.as_str()).collect();
    assert_eq!(names, vec![".text", ".rdatalg"]);
    assert_eq!(info.sections[0].flags(), "XR code");
    assert_eq!(info.sections[1].flags(), "R data");
    assert_eq!(info.sections[0].raw_offset, 0x200);
    assert_eq!(info.sections[0].counts.len(), 256);
    assert_eq!(info.sections[0].counts.iter().sum::<u64>(), 0x200);
    assert_eq!(info.imports.len(), 1);
    assert_eq!(info.imports[0].dll, "KERNEL32.dll");
    assert_eq!(info.imports[0].funcs, vec!["Sleep", "#17"]);
    let exports: Vec<(&str, u16, u32)> =
        info.exports.iter().map(|e| (e.name.as_str(), e.ordinal, e.rva)).collect();
    assert_eq!(exports, vec![("first", 11, 0x2222)]);
    assert!(info.verdict.is_empty());
}

#[test]
fn malformed_files_are_refused() {
    let mut b = image();
    b[0] = b'N';
    assert_eq!(analyze(&b).expect_err("magic"), "não é um PE (assinatura MZ ausente)");
    assert_eq!(analyze(&[]).expect_err("empty"), "não é um PE (assinatura MZ ausente)");
    let mut b = image();
    b[0x80] = b'X';
    assert_eq!(analyze(&b).expect_err("signature"), "assinatura PE ausente");
    let mut b = image();
    put(&mut b, 0x3C, &0xFFFF_FFFFu32.to_le_bytes());
    assert_eq!(analyze(&b).expect_err("offset"), "assinatura PE ausente");
    assert_eq!(analyze(&image()[..0x85]).expect_err("header"), "header truncado");
    assert_eq!(analyze(&image()[..0x98]).expect_err("optional"), "optional header ausente");
    for n in 0x9A..image().len() {
        assert!(analyze(&image()[..n]).is_ok());
    }
}

fn section(name: &str, vsize: u32, raw_size: u32) -> PeSection {
    PeSection {
        name: name.to_string(),
        vaddr: 0x1000,
        vsize,
        raw_offset: 0x200,
        raw_size,
        characteristics: 0,
        counts: vec![0; 256],
    }
}

fn with_sections(sections: Vec<PeSection>) -> PeInfo {
    let mut info = analyze(&image()).expect("a library");
    info.sections = sections;
    info
}

#[test]
fn verdicts() {
    let tiny = "IAT minúscula (1 DLL/2 funções) — típico de packer/protector.";
    let mut info = with_sections(vec![section(".TEXT", 1, 1), section(".rdata", 1, 1)]);
    info.conclude(&vec![false, false]);
    assert_eq!(info.verdict, vec![tiny, "Layout típico de MSVC (.text/.rdata/.data)."]);

    let info = with_sections(vec![section("upx0", 0x2000, 0), section("b", 1, 1)]);
    assert_eq!(
        build_verdict(&info, &vec![true, true]),
        vec![
            "Seção(ões) de alta entropia (upx0, b) — provável compressão/cifra (packer).",
            "Seções UPX — empacotado com UPX.",
            "Seção sem dados crus (vsize ≫ raw) — código descomprimido em runtime.",
            tiny,
        ]
    );

    let mut info = with_sections(vec![section(".rodata", 1, 1)]);
    info.is_dotnet = true;
    assert_eq!(
        build_verdict(&info, &vec![false]),
        vec!["Binário .NET / gerenciado (CLR).", "Layout típico de GCC/MinGW."]
    );

    let mut info = with_sections(vec![]);
    for _ in 0..3 {
        info.imports.push(quarry::pe::PeImport { dll: String::new(), funcs: Vec::new() });
    }
    assert_eq!(
        build_verdict(&info, &vec![]),
        vec!["Nada de anormal — provável binário não-empacotado."]
    );
}

#[test]
fn no_mitigations() {
    let mut info = analyze(&image()).expect("a library");
    info.dll_characteristics = 0;
    assert_eq!(info.mitigations(), "(nenhuma)");
    info.dll_characteristics = 0x0480;
    assert_eq!(info.mitigations(), "sem-SEH, força-integridade");
}

#[test]
fn a_program_for_32_bits() {
    let mut b = image();
    put(&mut b, 0x84, &0x014Cu16.to_le_bytes());
    put(&mut b, 0x98, &0x10Bu16.to_le_bytes());
    put(&mut b, 0x98 + 28, &0x40_0000u32.to_le_bytes());
    put(&mut b, 0x98 + 96, &0u32.to_le_bytes());
    put(&mut b, 0x98 + 104, &0x2000u32.to_le_bytes());
    put(&mut b, 0x500, &0x2300u32.to_le_bytes());
    put(&mut b, 0x504, &0x8000_0022u32.to_le_bytes());
    put(&mut b, 0x508, &[0; 8]);
    let info = analyze(&b).expect("a program");
    assert!(!info.is_64);
    assert_eq!(info.machine_str, "x86 (i386)");
    assert_eq!(info.image_base, 0x40_0000);
    assert_eq!(info.imports[0].funcs, vec!["Sleep", "#34"]);
    assert!(info.exports.is_empty());
}
