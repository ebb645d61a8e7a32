use quarry::asm_x86::parse;
use quarry::assembler::{
    alloc_candidates, module_range, module_regions, parse_command, section_lines, Action, AsmState,
    Command, Emit, Event, Run, Section,
};
use quarry::target::{ModuleInfo, Region};

const SCRIPT: &str = "[ENABLE]
aobscanmodule(inject, jogo.exe, 89 83 A4 00 00 00)
alloc(newmem, 0x1000, inject)

newmem:
  db 89 83 A4 00 00 00   // the replaced instruction
  jmp return

inject:
  jmp newmem
  nop                    // fills the rest
return:

[DISABLE]
inject:
  db 89 83 A4 00 00 00
dealloc(newmem)
";

fn result(a: Action) -> Result<Vec<String>, String> {
    match a {
        Action::Done(r) => r,
        other => panic!("not done: {other:?}"),
    }
}

fn outcome(script: &str, state: &mut AsmState) -> Result<Vec<String>, String> {
    let mut run = Run::begin(script, Section::Enable);
    result(run.step(state, Event::Start))
}

#[test]
fn enable_then_disable() {
    let mut state = AsmState::new();
    let mut run = Run::begin(SCRIPT, Section::Enable);
    match run.step(&mut state, Event::Start) {
        Action::ScanModule { module, pattern } => {
            assert_eq!(module, "jogo.exe");
            assert_eq!(pattern, [0x89, 0x83, 0xA4, 0, 0, 0].map(Some));
        }
        other => panic!("{other:?}"),
    }
    match run.step(&mut state, Event::Address(0x7000_1000)) {
        Action::Alloc { size, near } => {
            assert_eq!(size, 0x1000);
            assert_eq!(near, 0x7000_1000);
        }
        other => panic!("{other:?}"),
    }
    match run.step(&mut state, Event::Address(0x7001_0000)) {
        Action::Write { addr, bytes } => {
            assert_eq!(addr, 0x7001_0000);
            assert_eq!(bytes, vec![0x89, 0x83, 0xA4, 0, 0, 0]);
        }
        other => panic!("{other:?}"),
    }
    match run.step(&mut state, Event::Succeeded) {
        Action::Write { addr, bytes } => {
            assert_eq!(addr, 0x7001_0006);
            // from behind the jump to `return`, which lies behind the patch
            assert_eq!(bytes[0], 0xE9);
            let distance = i32::from_le_bytes([bytes[1], bytes[2], bytes[3], bytes[4]]);
            assert_eq!(0x7001_000Bi64 + distance as i64, 0x7000_1006);
        }
        other => panic!("{other:?}"),
    }
    match run.step(&mut state, Event::Succeeded) {
        Action::Write { addr, bytes } => {
            assert_eq!(addr, 0x7000_1000);
            assert_eq!(bytes, vec![0xE9, 0xFB, 0xEF, 0x00, 0x00]);
        }
        other => panic!("{other:?}"),
    }
    match run.step(&mut state, Event::Succeeded) {
        Action::Write { addr, bytes } => {
            assert_eq!(addr, 0x7000_1005);
            assert_eq!(bytes, vec![0x90]);
        }
        other => panic!("{other:?}"),
    }
    let log = result(run.step(&mut state, Event::Succeeded)).expect("enabled");
    assert_eq!(
        log,
        vec![
            "aobscanmodule inject = 0000000070001000",
            "alloc newmem = 0000000070010000 (4096 bytes)",
            "escrito 6 bytes em 0000000070010000",
            "escrito 5 bytes em 0000000070010006",
            "escrito 5 bytes em 0000000070001000",
            "escrito 1 bytes em 0000000070001005",
        ]
    );
    assert_eq!(state.lookup("return"), Some(0x7000_1006));

    let mut run = Run::begin(SCRIPT, Section::Disable);
    match run.step(&mut state, Event::Start) {
        Action::Write { addr, bytes } => {
            assert_eq!(addr, 0x7000_1000);
            assert_eq!(bytes, vec![0x89, 0x83, 0xA4, 0, 0, 0]);
        }
        other => panic!("{other:?}"),
    }
    match run.step(&mut state, Event::Succeeded) {
        Action::Free { addr } => assert_eq!(addr, 0x7001_0000),
        other => panic!("{other:?}"),
    }
    let log = result(run.step(&mut state, Event::Succeeded)).expect("disabled");
    assert_eq!(
        log,
        vec![
            "escrito 6 bytes em 0000000070001000",
            "dealloc newmem (0000000070010000)",
        ]
    );
    assert_eq!(state.lookup("newmem"), None);
    assert!(state.allocs.is_empty());
}

#[test]
fn an_empty_section_does_nothing() {
    let mut state = AsmState::new();
    assert_eq!(outcome("[DISABLE]\nnop", &mut state), Ok(vec!["(secao vazia)".to_string()]));
}

#[test]
fn sections_are_taken_apart() {
    let script = "nop\n[Enable]\n a // b\n\n// c\n b:\n[DISABLE]\nc\n[enable]\nd";
    assert_eq!(section_lines(script, Section::Enable), vec!["a", "b:", "d"]);
    assert_eq!(section_lines(script, Section::Disable), vec!["c"]);
}

#[test]
fn script_errors() {
    let mut state = AsmState::new();
    state.define("here", 0x1000);
    let cases = [
        ("frob eax, 1", "instrucao nao suportada: 'frob' (use db para bytes crus)"),
        ("mov eax, rbx", "mov: tamanhos de registrador diferentes"),
        ("mov eax, [rax+rsp]", "rsp/esp nao pode ser registrador de indice"),
        ("test (x)", "test: esperados 2 operandos"),
        ("aobscan(a, ZZ)", "aobscan: padrao AOB invalido"),
        ("aobscanmodule(a, g.exe, ZZ)", "aobscanmodule: padrao AOB invalido"),
        ("here:\nmov eax, unknown", "simbolo desconhecido: 'unknown'"),
        ("here:\nje unknown", "simbolo desconhecido: 'unknown'"),
        ("frob(x)", "comando desconhecido: frob"),
        ("db 1 GG", "db: byte invalido 'GG'"),
        ("alloc(x)", "alloc: tamanho invalido"),
        ("alloc(x, 10, nowhere)", "simbolo desconhecido: 'nowhere'"),
        ("aobscanmodule(x)", "aobscanmodule: falta o modulo"),
        ("nop", "instrucao antes de definir onde escrever (falta uma ancora `nome:`)"),
        (
            "lbl:",
            "label 'lbl:' antes de um local de escrita (use newmem: ou o ponto de injecao)",
        ),
        ("here:\njmp unknown", "simbolo desconhecido: 'unknown'"),
    ];
    for (line, message) in cases {
        let script = format!("[ENABLE]\n{line}");
        assert_eq!(outcome(&script, &mut state), Err(message.to_string()), "{line}");
    }
    let mut run = Run::begin("[ENABLE]\nhere:\njmp 0x7fffffffffffffff", Section::Enable);
    let far = result(run.step(&mut state, Event::Start)).expect_err("far");
    assert!(far.starts_with("salto fora do alcance rel32 ("), "{far}");
    assert!(far.ends_with("); use jmp64 ou aloque o cave mais perto"), "{far}");
}

#[test]
fn outside_failures() {
    let cases = [
        ("alloc(m, 16)", Event::Failed, "alloc: VirtualAllocEx falhou"),
        ("aobscan(a, 90)", Event::Failed, "aobscan: padrao nao encontrado"),
        (
            "aobscanmodule(a, g.exe, 90)",
            Event::Failed,
            "aobscanmodule: padrao nao encontrado em g.exe",
        ),
        ("here:\nnop 3", Event::Failed, "falha ao escrever 3 bytes em 0000000000001000"),
    ];
    for (line, event, message) in cases {
        let mut state = AsmState::new();
        state.define("here", 0x1000);
        let mut run = Run::begin(&format!("[ENABLE]\n{line}"), Section::Enable);
        run.step(&mut state, Event::Start);
        assert_eq!(result(run.step(&mut state, event)), Err(message.to_string()), "{line}");
    }
}

#[test]
fn emissions_and_their_sizes() {
    let mut state = AsmState::new();
    state.define("t", 0x1122_3344_5566_7788);
    let emissions = [
        (Emit::Db(vec![1, 2, 3]), vec![1, 2, 3]),
        (Emit::Nop(2), vec![0x90, 0x90]),
        (
            Emit::JmpAbs("t".to_string()),
            vec![0xFF, 0x25, 0, 0, 0, 0, 0x88, 0x77, 0x66, 0x55, 0x44, 0x33, 0x22, 0x11],
        ),
        (
            Emit::Dq("t+0x10".to_string()),
            vec![0x98, 0x77, 0x66, 0x55, 0x44, 0x33, 0x22, 0x11],
        ),
        (Emit::Dd("t-8".to_string()), vec![0x80, 0x77, 0x66, 0x55]),
        (Emit::CallRel("t".to_string()), vec![0xE8, 0xFB, 0xFF, 0xFF, 0xFF]),
        (Emit::JmpRel("t+5".to_string()), vec![0xE9, 0x00, 0x00, 0x00, 0x00]),
        (Emit::Jcc(0x84, "t".to_string()), vec![0x0F, 0x84, 0xFA, 0xFF, 0xFF, 0xFF]),
        (
            Emit::Insn(parse("mov rax, t").expect("known").expect("valid")),
            vec![0x48, 0xB8, 0x88, 0x77, 0x66, 0x55, 0x44, 0x33, 0x22, 0x11],
        ),
    ];
    for (e, bytes) in emissions {
        let got = e.resolve(&state, 0x1122_3344_5566_7788).expect("resolved");
        assert_eq!(got, bytes, "{e:?}");
        assert_eq!(got.len(), e.size(), "{e:?}");
    }
}

fn written(script: &str, state: &mut AsmState) -> Vec<(u64, Vec<u8>)> {
    let mut run = Run::begin(script, Section::Enable);
    let mut event = Event::Start;
    let mut out = Vec::new();
    loop {
        match run.step(state, event) {
            Action::Write { addr, bytes } => out.push((addr, bytes)),
            Action::Done(r) => {
                r.expect("enabled");
                return out;
            }
            other => panic!("{other:?}"),
        }
        event = Event::Succeeded;
    }
}

#[test]
fn scripts_take_instructions() {
    let mut state = AsmState::new();
    state.define("inject", 0x10000);
    assert_eq!(
        written("[ENABLE]\ninject:\nmov eax, 1", &mut state),
        vec![(0x10000, vec![0xB8, 1, 0, 0, 0])]
    );
    let script = "[ENABLE]
inject:
  cmp dword [rbx+10], #100
  jg skip
  mov [rsi+3A8],(float)999999999
  imul eax, ecx
  mov rax, skip+0x10
skip:
  ret";
    assert_eq!(
        written(script, &mut state),
        vec![
            (0x10000, vec![0x81, 0x7B, 0x10, 100, 0, 0, 0]),
            (0x10007, vec![0x0F, 0x8F, 0x17, 0, 0, 0]),
            (0x1000D, vec![0xC7, 0x86, 0xA8, 3, 0, 0, 0x28, 0x6B, 0x6E, 0x4E]),
            (0x10017, vec![0x0F, 0xAF, 0xC1]),
            (0x1001A, vec![0x48, 0xB8, 0x34, 0, 1, 0, 0, 0, 0, 0]),
            (0x10024, vec![0xC3]),
        ]
    );
}

#[test]
fn conditional_jumps() {
    let names = [
        "jo", "jno", "jb", "jae", "je", "jne", "jbe", "ja", "js", "jns", "jp", "jnp", "jl", "jge",
        "jle", "jg",
    ];
    let state = AsmState::new();
    for (i, name) in names.iter().enumerate() {
        match parse_command(&format!("{name} t + 4"), &state) {
            Ok(Command::Emit(Emit::Jcc(code, target))) => {
                assert_eq!(code as usize, 0x80 + i, "{name}");
                assert_eq!(target, "t+4");
            }
            other => panic!("{other:?}"),
        }
    }
    for (a, b) in [("jz", "je"), ("JNZ", "jne"), ("jc", "jb"), ("jnc", "jae"), ("jnle", "jg"), ("jpe", "jp")] {
        let first = format!("{:?}", parse_command(&format!("{a} x"), &state));
        assert_eq!(first, format!("{:?}", parse_command(&format!("{b} x"), &state)));
    }
}

#[test]
fn numbers_without_prefix_are_decimal() {
    let state = AsmState::new();
    match parse_command("nop 10", &state) {
        Ok(Command::Emit(Emit::Nop(n))) => assert_eq!(n, 10),
        other => panic!("{other:?}"),
    }
    match parse_command("alloc(x, $10)", &state) {
        Ok(Command::Alloc { name, size, near }) => {
            assert_eq!(name, "x");
            assert_eq!(size, 16);
            assert_eq!(near, 0);
        }
        other => panic!("{other:?}"),
    }
}

#[test]
fn a_run_unregisters_at_its_end() {
    let mut state = AsmState::new();
    state.define("a", 1);
    state.define("b", 2);
    let log = outcome("[ENABLE]\nunregistersymbol(a)\nregistersymbol(b)\nlabel(c)\ndealloc(b)", &mut state);
    assert_eq!(log, Ok(Vec::new()));
    assert_eq!(state.lookup("a"), None);
    assert_eq!(state.lookup("b"), Some(2));
}

#[test]
fn candidates_near_an_address() {
    let c = alloc_candidates(0x7FF6_1234_5678);
    assert_eq!(c[0], 0x7FF6_1234_0000);
    assert_eq!(c[1], 0x7FF6_1234_0000);
    assert_eq!(c[2], 0x7FF6_1233_0000);
    assert_eq!(c[3], 0x7FF6_1235_0000);
    assert_eq!(c.len(), 0x10000);
    for addr in &c {
        let distance = 0x7FF6_1234_5678i64 - (*addr as i64 + 5);
        assert!(i32::try_from(distance).is_ok());
    }
    assert!(alloc_candidates(0).is_empty());
    assert!(alloc_candidates(0x1_0000).iter().all(|a| *a != 0));
}

#[test]
fn modules_and_their_regions() {
    let modules = vec![
        ModuleInfo { name: "a.dll".to_string(), base: 0x1000, size: 0x1000 },
        ModuleInfo { name: "Game.exe".to_string(), base: 0x4000, size: 0x2000 },
    ];
    assert_eq!(module_range(&modules, "GAME.EXE"), Some((0x4000, 0x6000)));
    assert_eq!(module_range(&modules, "b.dll"), None);
    let regions = vec![
        Region { base: 0x3000, size: 0x2000 },
        Region { base: 0x4000, size: 0x1000 },
        Region { base: 0x5000, size: 0x9000 },
        Region { base: 0x6000, size: 0x1000 },
    ];
    let within = module_regions(&regions, &modules, "game.exe").expect("known");
    let bases: Vec<u64> = within.iter().map(|r| r.base).collect();
    assert_eq!(bases, vec![0x4000, 0x5000]);
    assert!(module_regions(&regions, &modules, "b.dll").is_none());
}
