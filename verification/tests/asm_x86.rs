use quarry::asm_x86::{parse, parse_num};

fn assemble(line: &str) -> Vec<u8> {
    let insn = parse(line).expect("known mnemonic").expect("valid operands");
    let imm = insn.imm_text().and_then(parse_num).unwrap_or(0);
    insn.build(imm).expect("encodable")
}

fn refused(line: &str) -> String {
    parse(line).expect("known mnemonic").expect_err("invalid operands")
}

#[test]
fn mov_reg_imm() {
    assert_eq!(assemble("mov eax, 3E7"), vec![0xB8, 0xE7, 0x03, 0x00, 0x00]);
    assert_eq!(assemble("mov eax, #999"), vec![0xB8, 0xE7, 0x03, 0x00, 0x00]);
    assert_eq!(
        assemble("mov rax, 0x1122334455667788"),
        vec![0x48, 0xB8, 0x88, 0x77, 0x66, 0x55, 0x44, 0x33, 0x22, 0x11]
    );
    assert_eq!(assemble("mov r8d, 1"), vec![0x41, 0xB8, 0x01, 0x00, 0x00, 0x00]);
}

#[test]
fn number_conventions() {
    assert_eq!(parse_num("1F4"), Some(0x1F4));
    assert_eq!(parse_num("$1F4"), Some(0x1F4));
    assert_eq!(parse_num("0x1F4"), Some(0x1F4));
    assert_eq!(parse_num("#500"), Some(500));
    assert_eq!(parse_num("(float)1000000000"), Some(0x4E6E6B28));
}

#[test]
fn mov_reg_reg() {
    assert_eq!(assemble("mov rbx, rax"), vec![0x48, 0x89, 0xC3]);
    assert_eq!(assemble("mov eax, ecx"), vec![0x89, 0xC8]);
}

#[test]
fn mov_mem() {
    assert_eq!(assemble("mov [rbx+0x110], eax"), vec![0x89, 0x83, 0x10, 0x01, 0x00, 0x00]);
    assert_eq!(assemble("mov eax, [rbx+0x110]"), vec![0x8B, 0x83, 0x10, 0x01, 0x00, 0x00]);
    assert_eq!(assemble("mov rax, [rsp]"), vec![0x48, 0x8B, 0x04, 0x24]);
    assert_eq!(assemble("mov rax, [rbp]"), vec![0x48, 0x8B, 0x45, 0x00]);
}

#[test]
fn mem_with_index() {
    assert_eq!(assemble("mov eax, [rbx+rcx*4+8]"), vec![0x8B, 0x44, 0x8B, 0x08]);
}

#[test]
fn mov_mem_imm() {
    assert_eq!(assemble("mov dword [rbx+0x10], 5"), vec![0xC7, 0x43, 0x10, 0x05, 0x00, 0x00, 0x00]);
}

#[test]
fn alu() {
    assert_eq!(assemble("add eax, 1"), vec![0x81, 0xC0, 0x01, 0x00, 0x00, 0x00]);
    assert_eq!(assemble("sub rax, 0x10"), vec![0x48, 0x81, 0xE8, 0x10, 0x00, 0x00, 0x00]);
    assert_eq!(assemble("xor eax, eax"), vec![0x31, 0xC0]);
    assert_eq!(assemble("cmp ebx, #100"), vec![0x81, 0xFB, 0x64, 0x00, 0x00, 0x00]);
    assert_eq!(assemble("add [rbx+0x110], eax"), vec![0x01, 0x83, 0x10, 0x01, 0x00, 0x00]);
}

#[test]
fn sse_moves() {
    assert_eq!(
        assemble("movss xmm1,[rsi+3A8]"),
        vec![0xF3, 0x0F, 0x10, 0x8E, 0xA8, 0x03, 0x00, 0x00]
    );
    assert_eq!(
        assemble("movss [rsi+3A8],xmm1"),
        vec![0xF3, 0x0F, 0x11, 0x8E, 0xA8, 0x03, 0x00, 0x00]
    );
    assert_eq!(assemble("movsd xmm0,xmm1"), vec![0xF2, 0x0F, 0x10, 0xC1]);
    assert_eq!(assemble("movss xmm8,xmm0"), vec![0xF3, 0x44, 0x0F, 0x10, 0xC0]);
}

#[test]
fn sse_arith_and_movd() {
    assert_eq!(assemble("addss xmm0,xmm1"), vec![0xF3, 0x0F, 0x58, 0xC1]);
    assert_eq!(assemble("mulsd xmm2,[rax]"), vec![0xF2, 0x0F, 0x59, 0x10]);
    assert_eq!(assemble("movd xmm0,eax"), vec![0x66, 0x0F, 0x6E, 0xC0]);
    assert_eq!(assemble("movd eax,xmm0"), vec![0x66, 0x0F, 0x7E, 0xC0]);
    assert_eq!(assemble("movq xmm0,rax"), vec![0x66, 0x48, 0x0F, 0x6E, 0xC0]);
}

#[test]
fn mov_mem_float_imm() {
    assert_eq!(
        assemble("mov [rsi+3A8],(float)999999999"),
        vec![0xC7, 0x86, 0xA8, 0x03, 0x00, 0x00, 0x28, 0x6B, 0x6E, 0x4E]
    );
}

#[test]
fn unary_stack_ret() {
    assert_eq!(assemble("inc eax"), vec![0xFF, 0xC0]);
    assert_eq!(assemble("dec rax"), vec![0x48, 0xFF, 0xC8]);
    assert_eq!(assemble("push rax"), vec![0x50]);
    assert_eq!(assemble("push r12"), vec![0x41, 0x54]);
    assert_eq!(assemble("pop rbp"), vec![0x5D]);
    assert_eq!(assemble("ret"), vec![0xC3]);
}

#[test]
fn lea_and_test() {
    assert_eq!(assemble("lea rax, [rbx+0x10]"), vec![0x48, 0x8D, 0x43, 0x10]);
    assert_eq!(assemble("test eax, eax"), vec![0x85, 0xC0]);
}

#[test]
fn unknown_mnemonic_is_none() {
    assert!(parse("frobnicate eax").is_none());
}

#[test]
fn floating_point_immediates() {
    for text in ["0", "1", "-1", "0.1", "3.4028235e38", "1e-45", "1e40", "inf", "-infinity", "16777217"] {
        let single: f32 = text.parse().expect("number");
        let double: f64 = text.parse().expect("number");
        assert_eq!(parse_num(&format!("(float){text}")), Some(single.to_bits() as i64), "{text}");
        assert_eq!(parse_num(&format!("(double){text}")), Some(double.to_bits() as i64), "{text}");
    }
    assert_eq!(parse_num("(FLOAT) 1.5"), Some(0x3FC00000));
    assert_eq!(parse_num("(float)"), None);
    assert_eq!(parse_num("(double)1.2.3"), None);
}

#[test]
fn floating_point_rounding() {
    let mut x: u64 = 0x9E37_79B9_7F4A_7C15;
    for i in 0..400u64 {
        x = x.wrapping_mul(6364136223846793005).wrapping_add(1442695040888963407);
        let text = format!("{}.{}e{}", x >> 40, x % 100000, (x >> 20) as i64 % 60 - (i as i64 % 45));
        let single: f32 = text.parse().expect("number");
        let double: f64 = text.parse().expect("number");
        assert_eq!(parse_num(&format!("(float){text}")), Some(single.to_bits() as i64), "{text}");
        assert_eq!(parse_num(&format!("(double){text}")), Some(double.to_bits() as i64), "{text}");
    }
}

#[test]
fn negative_and_bad_numbers() {
    assert_eq!(parse_num(" -10 "), Some(-16));
    assert_eq!(parse_num("#-5"), Some(-5));
    assert_eq!(parse_num("-#5"), Some(-5));
    assert_eq!(parse_num("0X7fffffffffffffff"), Some(i64::MAX));
    assert_eq!(parse_num("8000000000000000"), None);
    assert_eq!(parse_num("xyz"), None);
    assert_eq!(parse_num(""), None);
    assert_eq!(parse_num("#1F"), None);
}

#[test]
fn size_does_not_depend_on_the_immediate() {
    for line in ["mov eax, 5", "mov rax, 5", "add ecx, 7", "mov [rsi+3A8], 1", "push rax", "imul eax, ecx, 4"] {
        let insn = parse(line).expect("known").expect("valid");
        for imm in [0i64, 1, 0x7fff_ffff] {
            assert_eq!(insn.build(imm).expect("encodable").len(), insn.size(), "{line}");
        }
    }
    let insn = parse("shl eax, 3").expect("known").expect("valid");
    assert_eq!(insn.build(0x7F).expect("encodable").len(), insn.size());
}

#[test]
fn immediates_out_of_range() {
    let insn = parse("add eax, 1").expect("known").expect("valid");
    assert!(insn.build(0x1_0000_0000_0000).is_err());
    assert!(insn.build(-1).is_ok());
}

#[test]
fn operands_are_checked() {
    let cases = [
        ("mov eax", "mov: esperados 2 operandos"),
        ("mov", "mov: esperados 2 operandos"),
        ("mov eax, ebx, ecx", "mov: esperados 2 operandos"),
        ("mov eax, rbx", "mov: tamanhos de registrador diferentes"),
        ("mov [rax], [rbx]", "mov: combinacao de operandos invalida"),
        ("mov xmm0, eax", "mov: combinacao de operandos invalida"),
        ("mov byte [rax], 1", "tamanho de 1 bytes nao suportado (use dword/qword)"),
        ("mov word [rax], 1", "tamanho de 2 bytes nao suportado (use dword/qword)"),
        ("add eax, rbx", "add: tamanhos de registrador diferentes"),
        ("xor 1, 2", "xor: combinacao de operandos invalida"),
        ("test eax, rbx", "test: tamanhos de registrador diferentes"),
        ("test [rax], [rbx]", "test: combinacao de operandos invalida"),
        ("lea rax, rbx", "lea: use 'lea reg, [mem]'"),
        ("inc", "inc: esperado 1 operando"),
        ("neg 5", "neg: operando deve ser registrador ou memoria"),
        ("not byte [rax]", "tamanho de 1 bytes nao suportado (use dword/qword)"),
        ("push eax", "push: use um registrador de 64 bits (rax, rbx, ...)"),
        ("pop [rax]", "pop: operando deve ser um registrador"),
        ("push", "push: esperado 1 operando"),
        ("addss [rax], xmm0", "addss: nao tem forma de store em memoria"),
        ("movss xmm0, eax", "movss: combinacao de operandos invalida"),
        ("movd xmm0, xmm1", "movd: combinacao de operandos invalida"),
        ("mov eax, []", "operando de memoria vazio"),
        ("mov eax, [10]", "operando de memoria sem registrador base"),
        ("mov eax, [rax+foo]", "termo de memoria invalido: 'foo'"),
        ("mov eax, [rax+foo*4]", "indice invalido: 'foo*4'"),
        ("mov eax, [rax+rbx*foo]", "escala invalida: 'rbx*foo'"),
        ("mov eax, [rax+rcx*3]", "escala invalida: 'rcx*3'"),
        ("mov eax, [rax+rcx*104]", "escala invalida: 'rcx*104'"),
        ("mov eax, [rax+0*rcx]", "escala invalida: '0*rcx'"),
        ("cvtsi2ss xmm0, xmm1", "cvtsi2ss: combinacao de operandos invalida"),
        ("cvtsi2sd xmm0, xmm1", "cvtsi2sd: combinacao de operandos invalida"),
        ("cvttss2si xmm0, xmm1", "cvttss2si: combinacao de operandos invalida"),
        ("cvttsd2si xmm0, [rax]", "cvttsd2si: combinacao de operandos invalida"),
        ("imul", "imul: esperados de 1 a 3 operandos"),
        ("imul eax, rcx", "imul: tamanhos de registrador diferentes"),
        ("imul eax, rcx, 4", "imul: tamanhos de registrador diferentes"),
        ("imul [rax], ecx", "imul: combinacao de operandos invalida"),
        ("imul eax, ecx, edx", "imul: combinacao de operandos invalida"),
        ("imul 5", "imul: operando deve ser registrador ou memoria"),
        ("shl eax", "shl: esperados 2 operandos"),
        ("shr eax, ecx", "shr: combinacao de operandos invalida"),
        ("sar word [rax], 1", "tamanho de 2 bytes nao suportado (use dword/qword)"),
        ("movzx eax, ebx", "movzx: combinacao de operandos invalida"),
        ("movzx eax, foo", "movzx: combinacao de operandos invalida"),
        ("movzx eax, [rax]", "movzx: use byte ou word antes de [mem]"),
    ];
    for (line, message) in cases {
        assert_eq!(refused(line), message, "{line}");
    }
}

fn unbuilt(line: &str, imm: i64) -> String {
    parse(line).expect("known").expect("valid").build(imm).expect_err("not encodable")
}

#[test]
fn encodings_that_do_not_exist() {
    assert_eq!(unbuilt("mov eax, [rax+rsp]", 0), "rsp/esp nao pode ser registrador de indice");
    assert_eq!(unbuilt("mov eax, [rax+esp*2]", 0), "rsp/esp nao pode ser registrador de indice");
    assert_eq!(unbuilt("mov eax, [rax+100000000]", 0), "deslocamento fora do alcance: 0x100000000");
    assert_eq!(
        unbuilt("mov eax, [rax-100000000]", 0),
        "deslocamento fora do alcance: 0xFFFFFFFF00000000"
    );
    assert_eq!(unbuilt("mov eax, 1", 0x1_0000_0000), "imediato 0x100000000 nao cabe em 32 bits");
    assert_eq!(unbuilt("shl eax, 1", 0x100), "imediato 0x100 nao cabe em 8 bits");
    let insn = parse("mov eax, [rax+rsp]").expect("known").expect("valid");
    assert_eq!(insn.size(), 0);
}

#[test]
fn more_forms() {
    assert_eq!(assemble("MOV EAX, [RBX - 8]"), vec![0x8B, 0x43, 0xF8]);
    assert_eq!(assemble("mov qword [rax], 1"), vec![0x48, 0xC7, 0x00, 1, 0, 0, 0]);
    assert_eq!(assemble("mov eax, [4*rcx+rbx]"), vec![0x8B, 0x04, 0x8B]);
    assert_eq!(assemble("mov eax, [r13]"), vec![0x41, 0x8B, 0x45, 0x00]);
    assert_eq!(assemble("mov r9, [r12+r10*8-80]"), vec![0x4F, 0x8B, 0x4C, 0xD4, 0x80]);
    assert_eq!(assemble("add rax, [rbx]"), vec![0x48, 0x03, 0x03]);
    assert_eq!(assemble("test [rbx], eax"), vec![0x85, 0x03]);
    assert_eq!(assemble("test rcx, 5"), vec![0x48, 0xF7, 0xC1, 5, 0, 0, 0]);
    assert_eq!(assemble("neg qword [rax]"), vec![0x48, 0xF7, 0x18]);
    assert_eq!(assemble("not r8d"), vec![0x41, 0xF7, 0xD0]);
    assert_eq!(assemble("cvtsi2sd xmm1, rax"), vec![0xF2, 0x48, 0x0F, 0x2A, 0xC8]);
    assert_eq!(assemble("cvttss2si eax, xmm9"), vec![0xF3, 0x41, 0x0F, 0x2C, 0xC1]);
    assert_eq!(assemble("cvttsd2si rax, [rbx]"), vec![0xF2, 0x48, 0x0F, 0x2C, 0x03]);
    assert_eq!(assemble("movq xmm1, xmm2"), vec![0xF3, 0x0F, 0x7E, 0xCA]);
    assert_eq!(assemble("movq [rax], xmm2"), vec![0x66, 0x48, 0x0F, 0x7E, 0x10]);
    assert_eq!(assemble("movaps [rax], xmm2"), vec![0x0F, 0x29, 0x10]);
    assert_eq!(assemble("xorpd xmm3, xmm3"), vec![0x66, 0x0F, 0x57, 0xDB]);
    assert_eq!(assemble("pop r15"), vec![0x41, 0x5F]);
}

#[test]
fn products() {
    assert_eq!(assemble("imul eax, ecx"), vec![0x0F, 0xAF, 0xC1]);
    assert_eq!(assemble("imul r8, [rbx+8]"), vec![0x4C, 0x0F, 0xAF, 0x43, 0x08]);
    assert_eq!(assemble("imul eax, ecx, 4"), vec![0x69, 0xC1, 4, 0, 0, 0]);
    assert_eq!(assemble("imul r9, [rbx], #100"), vec![0x4C, 0x69, 0x0B, 100, 0, 0, 0]);
    assert_eq!(assemble("imul edx, 10"), vec![0x69, 0xD2, 0x10, 0, 0, 0]);
    assert_eq!(assemble("imul rcx"), vec![0x48, 0xF7, 0xE9]);
}

#[test]
fn shifts() {
    assert_eq!(assemble("shl eax, 4"), vec![0xC1, 0xE0, 4]);
    assert_eq!(assemble("sal rax, 1"), vec![0x48, 0xC1, 0xE0, 1]);
    assert_eq!(assemble("shr r9d, #31"), vec![0x41, 0xC1, 0xE9, 31]);
    assert_eq!(assemble("sar qword [rbx], CL"), vec![0x48, 0xD3, 0x3B]);
    assert_eq!(assemble("shr [rbx+4], 2"), vec![0xC1, 0x6B, 0x04, 2]);
}

#[test]
fn zero_extension() {
    assert_eq!(assemble("movzx eax, byte [rbx]"), vec![0x0F, 0xB6, 0x03]);
    assert_eq!(assemble("movzx rax, word [rbx+2]"), vec![0x48, 0x0F, 0xB7, 0x43, 0x02]);
    assert_eq!(assemble("movzx ecx, al"), vec![0x0F, 0xB6, 0xC8]);
    assert_eq!(assemble("movzx ecx, SIL"), vec![0x40, 0x0F, 0xB6, 0xCE]);
    assert_eq!(assemble("movzx r10d, r9b"), vec![0x45, 0x0F, 0xB6, 0xD1]);
    assert_eq!(assemble("movzx eax, r8w"), vec![0x41, 0x0F, 0xB7, 0xC0]);
}

#[test]
fn every_register_but_the_stack_pointer_is_an_index() {
    assert_eq!(assemble("mov eax, [rbx+r12*4]"), vec![0x42, 0x8B, 0x04, 0xA3]);
    for r in ["rax", "rcx", "rdx", "rbx", "rbp", "rsi", "rdi", "r8", "r12", "r15"] {
        let line = format!("mov eax, [rbx+{r}*2]");
        assert!(parse(&line).expect("known").expect("valid").build(0).is_ok(), "{line}");
    }
}

#[test]
fn the_case_of_letters_does_not_matter() {
    let lines = [
        "mov eax, 3e7",
        "lea rax, [rbx+rcx*8-0x1f]",
        "mov dword [r12d+rsi], (float)1.5e3",
        "movss xmm9, [rax+ab]",
        "movzx eax, sil",
        "shl eax, cl",
        "imul eax, ecx, $ff",
        "frobnicate eax",
        "mov eax, [rax+rcx*3]",
    ];
    for line in lines {
        let up = line.to_ascii_uppercase();
        match (parse(line), parse(&up)) {
            (None, None) => {}
            (Some(Err(_)), Some(Err(_))) => {}
            (Some(Ok(i)), Some(Ok(j))) => {
                let (a, b) = (i.imm_text().and_then(parse_num), j.imm_text().and_then(parse_num));
                assert_eq!(a, b, "{line}");
                for v in [0, 1, a.unwrap_or(0)] {
                    assert_eq!(i.build(v), j.build(v), "{line}");
                }
            }
            other => panic!("{line}: {other:?}"),
        }
    }
}

#[test]
fn immediates_keep_their_text() {
    let insn = parse("mov rax, my_symbol").expect("known").expect("valid");
    assert_eq!(insn.imm_text(), Some("my_symbol"));
    assert_eq!(insn.size(), 10);
    assert_eq!(parse("ret").expect("known").expect("valid").imm_text(), None);
}

#[test]
fn distinct_addresses_have_distinct_encodings() {
    let lines = [
        "mov eax, [rax]",
        "mov eax, [rcx]",
        "mov eax, [rsp]",
        "mov eax, [rbp]",
        "mov eax, [r12]",
        "mov eax, [r13]",
        "mov eax, [rax+8]",
        "mov eax, [rax+108]",
        "mov eax, [rax+rcx]",
        "mov eax, [rax+rcx*2]",
        "mov eax, [rcx+rax]",
        "mov eax, [rax+r12]",
    ];
    for i in 0..lines.len() {
        for j in 0..i {
            assert_ne!(assemble(lines[i]), assemble(lines[j]), "{} / {}", lines[i], lines[j]);
        }
    }
}
