use memdump::dump::{
    dump_be16, dump_be2, dump_be4, dump_be8, dump_in, dump_le2, dump_le4, dump_le8, dump_words,
};
use memdump::memory::{Memory, ReadFailure};
use memdump::variant::Variant;

/// A memory source that holds `words` at `base`, each in little-endian layout.
fn memory_of(base: u64, words: &[u32]) -> Memory {
    let mut bytes = Vec::new();
    for w in words {
        bytes.extend_from_slice(&w.to_le_bytes());
    }
    Memory::new(base, bytes)
}

const STACK: u64 = 0x7ffc_8a4f_e2d0;

#[test]
fn test_dump_be4_short() {
    let s: [u32; 2] = [0x34333231, 0x38373635];
    let ss = STACK;
    let p = memory_of(ss, &s);
    let e = format!(
        r#"Adress          : +0+1+2+3 +4+5+6+7 +8+9+A+B +C+D+E+F 0123456789ABCDEF
{:016x}: 31323334 35363738                   12345678
"#,
        ss
    );
    let mut r = String::new();
    let done = dump_be4(&p, ss, s.len() * 4, &mut r);
    assert_eq!(done, Ok(()));
    assert_eq!(r, e);
}

#[test]
fn test_dump_be16_long() {
    let s: [u32; 8] = [
        0x34333231, 0x38373635, 0x64636261, 0x68676665, 0x34333231, 0x38373635, 0x34333231,
        0x38373635,
    ];
    let ss = STACK;
    let p = memory_of(ss, &s);
    let e = format!(
        r#"Adress          : +0+1+2+3+4+5+6+7+8+9+A+B+C+D+E+F 0123456789ABCDEF
{:016x}: 31323334353637386162636465666768 12345678abcdefgh
{:016x}: 31323334353637383132333435363738 1234567812345678
"#,
        ss,
        ss + 16
    );
    let mut r = String::new();
    let done = dump_be16(&p, ss, s.len() * 4, &mut r);
    assert_eq!(done, Ok(()));
    assert_eq!(r, e);
}

#[test]
fn test_dump_be8_long() {
    let s: [u32; 6] = [0x34333231, 0x38373635, 0x64636261, 0x68676665, 0x34333231, 0x38373635];
    let ss = STACK;
    let p = memory_of(ss, &s);
    let e = format!(
        r#"Adress          : +0+1+2+3+4+5+6+7 +8+9+A+B+C+D+E+F 0123456789ABCDEF
{:016x}: 3132333435363738 6162636465666768 12345678abcdefgh
{:016x}: 3132333435363738                  12345678
"#,
        ss,
        ss + 16
    );
    let mut r = String::new();
    let done = dump_be8(&p, ss, s.len() * 4, &mut r);
    assert_eq!(done, Ok(()));
    assert_eq!(r, e);
}

#[test]
fn test_dump_le8_long() {
    let s: [u32; 6] = [
        u32::swap_bytes(0x34333231),
        u32::swap_bytes(0x38373635),
        u32::swap_bytes(0x64636261),
        u32::swap_bytes(0x68676665),
        u32::swap_bytes(0x34333231),
        u32::swap_bytes(0x38373635),
    ];
    let ss = STACK;
    let p = memory_of(ss, &s);
    let e = format!(
        r#"Adress          : +7+6+5+4+3+2+1+0 +F+E+D+C+B+A+9+8 0123456789ABCDEF
{:016x}: 3536373831323334 6566676861626364 43218765dcbahgfe
{:016x}: 3536373831323334                  43218765
"#,
        ss,
        ss + 16
    );
    let mut r = String::new();
    let done = dump_le8(&p, ss, s.len() * 4, &mut r);
    assert_eq!(done, Ok(()));
    assert_eq!(r, e);
}

#[test]
fn test_dump_be4_long() {
    let s: [u32; 6] = [0x34333231, 0x38373635, 0x64636261, 0x68676665, 0x34333231, 0x38373635];
    let ss = STACK;
    let p = memory_of(ss, &s);
    let e = format!(
        r#"Adress          : +0+1+2+3 +4+5+6+7 +8+9+A+B +C+D+E+F 0123456789ABCDEF
{:016x}: 31323334 35363738 61626364 65666768 12345678abcdefgh
{:016x}: 31323334 35363738                   12345678
"#,
        ss,
        ss + 16
    );
    let mut r = String::new();
    let done = dump_be4(&p, ss, s.len() * 4, &mut r);
    assert_eq!(done, Ok(()));
    assert_eq!(r, e);
}

#[test]
fn test_dump_le4_long() {
    let s: [u32; 6] = [
        u32::swap_bytes(0x34333231),
        u32::swap_bytes(0x38373635),
        u32::swap_bytes(0x64636261),
        u32::swap_bytes(0x68676665),
        u32::swap_bytes(0x34333231),
        u32::swap_bytes(0x38373635),
    ];
    let ss = STACK;
    let p = memory_of(ss, &s);
    let e = format!(
        r#"Adress          : +3+2+1+0 +7+6+5+4 +B+A+9+8 +F+E+D+C 0123456789ABCDEF
{:016x}: 31323334 35363738 61626364 65666768 43218765dcbahgfe
{:016x}: 31323334 35363738                   43218765
"#,
        ss,
        ss + 16
    );
    let mut r = String::new();
    let done = dump_le4(&p, ss, s.len() * 4, &mut r);
    assert_eq!(done, Ok(()));
    assert_eq!(r, e);
}

#[test]
fn test_dump_be2_long() {
    let s: [u32; 6] = [0x34333231, 0x38373635, 0x64636261, 0x68676665, 0x34333231, 0x38373635];
    let ss = STACK;
    let p = memory_of(ss, &s);
    let e = format!(
        r#"Adress          : +0+1 +2+3 +4+5 +6+7 +8+9 +A+B +C+D +E+F 0123456789ABCDEF
{:016x}: 3132 3334 3536 3738 6162 6364 6566 6768 12345678abcdefgh
{:016x}: 3132 3334 3536 3738                     12345678
"#,
        ss,
        ss + 16
    );
    let mut r = String::new();
    let done = dump_be2(&p, ss, s.len() * 4, &mut r);
    assert_eq!(done, Ok(()));
    assert_eq!(r, e);
}

#[test]
fn le2_reverses_the_bytes_of_each_word() {
    let s: [u32; 6] = [0x34333231, 0x38373635, 0x64636261, 0x68676665, 0x34333231, 0x38373635];
    let p = memory_of(STACK, &s);
    let e = format!(
        "Adress          : +1+0 +3+2 +5+4 +7+6 +9+8 +B+A +D+C +F+E 0123456789ABCDEF\n\
         {:016x}: 3231 3433 3635 3837 6261 6463 6665 6867 12345678abcdefgh\n\
         {:016x}: 3231 3433 3635 3837                     12345678\n",
        STACK,
        STACK + 16
    );
    let mut r = String::new();
    assert_eq!(dump_le2(&p, STACK, s.len() * 4, &mut r), Ok(()));
    assert_eq!(r, e);
}

#[test]
fn low_addresses_get_the_eight_digit_column() {
    let p = Memory::new(0x1000, vec![0x31, 0x32, 0x33, 0x34, 0x35, 0x36, 0x37, 0x38]);
    let mut r = String::new();
    assert_eq!(dump_be4(&p, 0x1000, 8, &mut r), Ok(()));
    assert_eq!(
        r,
        "Adress  : +0+1+2+3 +4+5+6+7 +8+9+A+B +C+D+E+F 0123456789ABCDEF\n\
         00001000: 31323334 35363738                   12345678\n"
    );
}

#[test]
fn three_eight_byte_words_fill_a_row_and_a_half() {
    let bytes: Vec<u8> = (0x41u8..0x59).collect();
    let p = Memory::new(0x2000, bytes);
    let mut r = String::new();
    assert_eq!(dump_be8(&p, 0x2000, 24, &mut r), Ok(()));
    assert_eq!(
        r,
        "Adress  : +0+1+2+3+4+5+6+7 +8+9+A+B+C+D+E+F 0123456789ABCDEF\n\
         00002000: 4142434445464748 494a4b4c4d4e4f50 ABCDEFGHIJKLMNOP\n\
         00002010: 5152535455565758                  QRSTUVWX\n"
    );
    let rows: Vec<&str> = r.lines().collect();
    assert_eq!(rows.len(), 3);
    assert_eq!(&rows[1][9..9 + 34], " 4142434445464748 494a4b4c4d4e4f50");
    assert_eq!(&rows[2][9..9 + 34], " 5152535455565758                 ");
    assert_eq!(&rows[1][9 + 34 + 1..], "ABCDEFGHIJKLMNOP");
    assert_eq!(&rows[2][9 + 34 + 1..], "QRSTUVWX");
}

#[test]
fn size_twelve_in_eight_byte_words_is_widened_to_two_words() {
    let bytes: Vec<u8> = (0x41u8..0x59).collect();
    let p = Memory::new(0x2000, bytes);
    let mut r = String::new();
    assert_eq!(dump_be8(&p, 0x2000, 12, &mut r), Ok(()));
    assert_eq!(
        r,
        "Adress  : +0+1+2+3+4+5+6+7 +8+9+A+B+C+D+E+F 0123456789ABCDEF\n\
         00002000: 4142434445464748 494a4b4c4d4e4f50 ABCDEFGHIJKLMNOP\n"
    );
}

#[test]
fn a_start_inside_a_word_is_moved_down_to_its_boundary() {
    let bytes: Vec<u8> = (0x61u8..0x71).collect();
    let p = Memory::new(0x3000, bytes);
    let mut r = String::new();
    assert_eq!(dump_be4(&p, 0x3003, 2, &mut r), Ok(()));
    assert_eq!(
        r,
        "Adress  : +0+1+2+3 +4+5+6+7 +8+9+A+B +C+D+E+F 0123456789ABCDEF\n\
         00003000: 61626364 65666768                   abcdefgh\n"
    );
}

#[test]
fn a_dump_of_no_bytes_is_the_header_alone() {
    let p = Memory::new(0x3000, vec![1, 2, 3, 4]);
    let mut r = String::new();
    assert_eq!(dump_le4(&p, 0x3000, 0, &mut r), Ok(()));
    assert_eq!(r, "Adress  : +3+2+1+0 +7+6+5+4 +B+A+9+8 +F+E+D+C 0123456789ABCDEF\n");
}

#[test]
fn the_address_column_goes_by_the_end_of_the_dump() {
    let p = Memory::new(0xffff_ffe0, vec![0x2e; 32]);
    let mut r = String::new();
    assert_eq!(dump_be16(&p, 0xffff_ffe0, 16, &mut r), Ok(()));
    assert_eq!(
        r,
        "Adress  : +0+1+2+3+4+5+6+7+8+9+A+B+C+D+E+F 0123456789ABCDEF\n\
         ffffffe0: 2e2e2e2e2e2e2e2e2e2e2e2e2e2e2e2e ................\n"
    );
    let mut r = String::new();
    assert_eq!(dump_be16(&p, 0xffff_ffe0, 17, &mut r), Ok(()));
    assert_eq!(
        r,
        "Adress          : +0+1+2+3+4+5+6+7+8+9+A+B+C+D+E+F 0123456789ABCDEF\n\
         00000000ffffffe0: 2e2e2e2e2e2e2e2e2e2e2e2e2e2e2e2e ................\n\
         00000000fffffff0: 2e2e2e2e2e2e2e2e2e2e2e2e2e2e2e2e ................\n"
    );
}

#[test]
fn the_last_bytes_of_the_address_space_can_be_dumped() {
    let p = Memory::new(0xffff_ffff_ffff_fff0, vec![0x00, 0xff, 0x10, 0x7f, 0x80, 0x20, 0x7e, 0x41]);
    let mut r = String::new();
    assert_eq!(dump_le2(&p, 0xffff_ffff_ffff_fff1, 6, &mut r), Ok(()));
    assert_eq!(
        r,
        "Adress          : +1+0 +3+2 +5+4 +7+6 +9+8 +B+A +D+C +F+E 0123456789ABCDEF\n\
         fffffffffffffff0: ff00 7f10 2080 417e                     ..... ~A\n"
    );
}

#[test]
fn a_range_that_runs_past_the_source_fails() {
    let p = Memory::new(0x3000, vec![1, 2, 3, 4, 5, 6, 7, 8]);
    let mut r = String::new();
    assert_eq!(dump_be8(&p, 0x3000, 9, &mut r), Err(ReadFailure {}));
    assert_eq!(dump_be8(&p, 0x2fff, 1, &mut r), Err(ReadFailure {}));
    assert_eq!(dump_be2(&p, 0x3008, 1, &mut r), Err(ReadFailure {}));
    assert_eq!(dump_be2(&p, u64::MAX, usize::MAX, &mut r), Err(ReadFailure {}));
    assert_eq!(r, "");
    assert_eq!(dump_be2(&p, 0x3007, 1, &mut r), Ok(()));
}

#[test]
fn a_dump_is_appended_to_what_the_sink_holds() {
    let p = Memory::new(0x10, vec![0x30, 0x31]);
    let mut r = String::from("> be2\n");
    assert_eq!(dump_in(Variant::Be2, &p, 0x10, 2, &mut r), Ok(()));
    assert_eq!(
        r,
        "> be2\n\
         Adress  : +0+1 +2+3 +4+5 +6+7 +8+9 +A+B +C+D +E+F 0123456789ABCDEF\n\
         00000010: 3031                                    01\n"
    );
}

#[test]
fn dump_words_takes_words_that_were_fetched_elsewhere() {
    let mut r = String::new();
    dump_words(Variant::Le4, 0x1_0000_0000, &[0x34333231, 0x38373635, 0, 0xffff_ffff, 0x41], &mut r);
    assert_eq!(
        r,
        "Adress          : +3+2+1+0 +7+6+5+4 +B+A+9+8 +F+E+D+C 0123456789ABCDEF\n\
         0000000100000000: 34333231 38373635 00000000 ffffffff 12345678........\n\
         0000000100000010: 00000041                            A...\n"
    );
}

#[test]
fn a_failed_read_emits_nothing_in_any_layout() {
    let p = memory_of(STACK, &[0x34333231, 0x38373635]);
    let entries: [fn(&Memory, u64, usize, &mut String) -> Result<(), ReadFailure>; 7] =
        [dump_be16, dump_be8, dump_le8, dump_be4, dump_le4, dump_be2, dump_le2];
    for dump in entries {
        let mut r = String::from("kept");
        assert_eq!(dump(&p, 0, 8, &mut r), Err(ReadFailure {}));
        assert_eq!(r, "kept");
    }
}
