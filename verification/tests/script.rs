use quarry::script::{
    address, debug_line, first_hit, module_base, place, read_bytes, read_i16, read_i32, read_i64,
    read_i8, read_len, read_ptr, read_u32, write_bytes, write_i32, write_i64, SAMPLE,
};

#[test]
fn numbers_in_memory() {
    let b = Some(vec![0xFE, 0xFF, 0xFF, 0xFF, 0xFF, 0xFF, 0xFF, 0x7F, 9]);
    assert_eq!(read_i8(&b), -2);
    assert_eq!(read_i16(&b), -2);
    assert_eq!(read_i32(&b), -2);
    assert_eq!(read_u32(&b), 0xFFFF_FFFE);
    assert_eq!(read_i64(&b), 0x7FFF_FFFF_FFFF_FFFE);
    assert_eq!(read_ptr(&b, 4), 0xFFFF_FFFE);
    assert_eq!(read_ptr(&b, 8), 0x7FFF_FFFF_FFFF_FFFE);
    let short = Some(vec![1, 2, 3]);
    assert_eq!(read_i16(&short), 0x201);
    assert_eq!(read_i32(&short), 0);
    assert_eq!(read_i64(&None), 0);
}

#[test]
fn what_is_written_is_read_again() {
    for n in [0i64, 1, -1, 999, i32::MIN as i64, i32::MAX as i64] {
        assert_eq!(read_i32(&Some(write_i32(n))), n);
        assert_eq!(write_i32(n), (n as i32).to_le_bytes().to_vec());
    }
    for n in [0i64, -5, i64::MIN, i64::MAX] {
        assert_eq!(read_i64(&Some(write_i64(n))), n);
        assert_eq!(write_i64(n), n.to_le_bytes().to_vec());
    }
    assert_eq!(write_i32(0x1_2345_6789_ABCDu64 as i64), vec![0xCD, 0xAB, 0x89, 0x67]);
    let values = vec![Some(0), Some(255), Some(0x1FF), Some(-1), None];
    let written = write_bytes(&values);
    assert_eq!(written, vec![0, 255, 255, 255, 0]);
    assert_eq!(read_bytes(&Some(written)), vec![0, 255, 255, 255, 0]);
    assert_eq!(read_bytes(&None), Vec::<i64>::new());
}

#[test]
fn addresses_of_a_script() {
    assert_eq!(address(Some(0xFFFF_8000_0000_0000)), 0xFFFF_8000_0000_0000u64 as i64);
    assert_eq!(address(None), 0);
    assert_eq!(place(-1), u64::MAX);
    assert_eq!(place(5), 5);
    assert_eq!(read_len(-3), 0);
    assert_eq!(read_len(7), 7);
    assert_eq!(first_hit(&vec![]), 0);
    assert_eq!(first_hit(&vec![0x10, 0x20]), 0x10);
}

#[test]
fn bases_of_modules() {
    let bases = vec![("a.dll".to_string(), 1), ("Game.exe".to_string(), 0x14000_0000)];
    assert_eq!(module_base(&bases, "GAME.EXE"), 0x14000_0000);
    assert_eq!(module_base(&bases, "b.dll"), 0);
}

#[test]
fn lines_of_output() {
    assert_eq!(debug_line("1:2", "x"), "[debug 1:2] x");
    assert!(SAMPLE.starts_with("// Exemplo: lê um valor e escreve outro.\n"));
    assert!(SAMPLE.ends_with("// print(\"achei em \" + hit);\n"));
}
