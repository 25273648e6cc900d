use memdump::variant::{ByteOrder, Variant, ROW_BYTES};

const ALL: [Variant; 7] = [
    Variant::Be2,
    Variant::Le2,
    Variant::Be4,
    Variant::Le4,
    Variant::Be8,
    Variant::Le8,
    Variant::Be16,
];

#[test]
fn widths_and_byte_orders() {
    let widths: Vec<usize> = ALL.iter().map(|v| v.width()).collect();
    assert_eq!(widths, [2, 2, 4, 4, 8, 8, 16]);
    let orders: Vec<ByteOrder> = ALL.iter().map(|v| v.byte_order()).collect();
    assert_eq!(
        orders,
        [
            ByteOrder::Big,
            ByteOrder::Little,
            ByteOrder::Big,
            ByteOrder::Little,
            ByteOrder::Big,
            ByteOrder::Little,
            ByteOrder::Big
        ]
    );
}

#[test]
fn a_row_holds_a_whole_number_of_words() {
    for v in ALL {
        assert_eq!(v.words_per_row() * v.width(), ROW_BYTES);
        assert_eq!(ROW_BYTES % v.width(), 0);
    }
    assert_eq!(Variant::Be2.words_per_row(), 8);
    assert_eq!(Variant::Be16.words_per_row(), 1);
}

#[test]
fn headers_for_the_eight_digit_column() {
    assert_eq!(
        Variant::Be2.header_32(),
        "Adress  : +0+1 +2+3 +4+5 +6+7 +8+9 +A+B +C+D +E+F 0123456789ABCDEF\n"
    );
    assert_eq!(
        Variant::Le2.header_32(),
        "Adress  : +1+0 +3+2 +5+4 +7+6 +9+8 +B+A +D+C +F+E 0123456789ABCDEF\n"
    );
    assert_eq!(
        Variant::Be4.header_32(),
        "Adress  : +0+1+2+3 +4+5+6+7 +8+9+A+B +C+D+E+F 0123456789ABCDEF\n"
    );
    assert_eq!(
        Variant::Le4.header_32(),
        "Adress  : +3+2+1+0 +7+6+5+4 +B+A+9+8 +F+E+D+C 0123456789ABCDEF\n"
    );
    assert_eq!(
        Variant::Be8.header_32(),
        "Adress  : +0+1+2+3+4+5+6+7 +8+9+A+B+C+D+E+F 0123456789ABCDEF\n"
    );
    assert_eq!(
        Variant::Le8.header_32(),
        "Adress  : +7+6+5+4+3+2+1+0 +F+E+D+C+B+A+9+8 0123456789ABCDEF\n"
    );
    assert_eq!(
        Variant::Be16.header_32(),
        "Adress  : +0+1+2+3+4+5+6+7+8+9+A+B+C+D+E+F 0123456789ABCDEF\n"
    );
}

#[test]
fn headers_for_the_sixteen_digit_column() {
    assert_eq!(
        Variant::Be2.header_64(),
        "Adress          : +0+1 +2+3 +4+5 +6+7 +8+9 +A+B +C+D +E+F 0123456789ABCDEF\n"
    );
    assert_eq!(
        Variant::Le2.header_64(),
        "Adress          : +1+0 +3+2 +5+4 +7+6 +9+8 +B+A +D+C +F+E 0123456789ABCDEF\n"
    );
    assert_eq!(
        Variant::Be4.header_64(),
        "Adress          : +0+1+2+3 +4+5+6+7 +8+9+A+B +C+D+E+F 0123456789ABCDEF\n"
    );
    assert_eq!(
        Variant::Le4.header_64(),
        "Adress          : +3+2+1+0 +7+6+5+4 +B+A+9+8 +F+E+D+C 0123456789ABCDEF\n"
    );
    assert_eq!(
        Variant::Be8.header_64(),
        "Adress          : +0+1+2+3+4+5+6+7 +8+9+A+B+C+D+E+F 0123456789ABCDEF\n"
    );
    assert_eq!(
        Variant::Le8.header_64(),
        "Adress          : +7+6+5+4+3+2+1+0 +F+E+D+C+B+A+9+8 0123456789ABCDEF\n"
    );
    assert_eq!(
        Variant::Be16.header_64(),
        "Adress          : +0+1+2+3+4+5+6+7+8+9+A+B+C+D+E+F 0123456789ABCDEF\n"
    );
}

#[test]
fn the_two_headers_differ_in_the_address_column_alone() {
    for v in ALL {
        let narrow = v.header_32();
        let wide = v.header_64();
        assert_eq!(&narrow[..6], "Adress");
        assert_eq!(&narrow[8..], &wide[16..]);
        assert_eq!(narrow.len(), 8 + 1 + v.words_per_row() * (1 + 2 * v.width()) + 1 + 16 + 1);
        let mut out = String::new();
        v.dump_header(false, &mut out);
        v.dump_header(true, &mut out);
        assert_eq!(out, format!("{}{}", narrow, wide));
    }
}

#[test]
fn a_word_is_shown_with_two_digits_for_each_byte() {
    let mut out = String::new();
    Variant::Be2.dump_number(0x3132, &mut out);
    assert_eq!(out, "3132");
    let mut out = String::new();
    Variant::Le4.dump_number(0xa, &mut out);
    assert_eq!(out, "0000000a");
    let mut out = String::new();
    Variant::Be8.dump_number(0x0102_0304_0506_0708, &mut out);
    assert_eq!(out, "0102030405060708");
    let mut out = String::new();
    Variant::Be16.dump_number(1 << 127, &mut out);
    assert_eq!(out, "80000000000000000000000000000000");
}

#[test]
fn the_placeholder_is_as_long_as_a_word() {
    for v in ALL {
        let mut blank = String::new();
        v.dump_empty(&mut blank);
        let mut word = String::new();
        v.dump_number(0, &mut word);
        assert_eq!(blank, " ".repeat(2 * v.width()));
        assert_eq!(blank.len(), word.len());
    }
}
