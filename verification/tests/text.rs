use forex_split::text::{chars_of, parse_entry_line, push_decimal, white_space, EntryLine};

fn entry(name: &str, subtotal: &str) -> EntryLine {
    EntryLine::Entry { name: name.to_string(), subtotal: subtotal.to_string() }
}

fn assert_entry(line: &str, expected: EntryLine) {
    match (parse_entry_line(line), expected) {
        (EntryLine::Blank, EntryLine::Blank) => {}
        (EntryLine::Entry { name, subtotal }, EntryLine::Entry { name: n, subtotal: s }) => {
            assert_eq!(name, n);
            assert_eq!(subtotal, s);
        }
        _ => panic!("line {:?} was not split as expected", line),
    }
}

#[test]
fn named_entry_splits_into_name_and_subtotal() {
    assert_entry("Alcohol 6.9", entry("Alcohol", "6.9"));
    assert_entry("Food 17.5\n", entry("Food", "17.5"));
}

#[test]
fn entry_without_name_has_empty_name() {
    assert_entry("6.9", entry("", "6.9"));
    assert_entry("  2.44  \n", entry("", "2.44"));
}

#[test]
fn words_of_a_name_are_joined_by_single_spaces() {
    assert_entry("  Eating   out\tlate  12.5 ", entry("Eating out late", "12.5"));
    assert_entry("1 x Bier 0,4l 6,90", entry("1 x Bier 0,4l", "6,90"));
}

#[test]
fn last_word_is_the_subtotal_even_when_not_a_number() {
    assert_entry("Alcohol foo", entry("Alcohol", "foo"));
}

#[test]
fn blank_lines_have_no_entry() {
    assert_entry("", EntryLine::Blank);
    assert_entry("\n", EntryLine::Blank);
    assert_entry(" \t \r\n", EntryLine::Blank);
    assert_entry("\u{3000}\u{a0}", EntryLine::Blank);
}

#[test]
fn unicode_white_space_separates_words() {
    assert_entry("Kaffee\u{3000}3.2", entry("Kaffee", "3.2"));
    assert_entry("Tee\u{2003}und\u{85}Kuchen\u{a0}4", entry("Tee und Kuchen", "4"));
    assert_entry("Smörgås 12", entry("Smörgås", "12"));
}

#[test]
fn white_space_agrees_with_char_is_whitespace() {
    for u in 0u32..0x3100 {
        if let Some(c) = char::from_u32(u) {
            assert_eq!(white_space(c), c.is_whitespace(), "code point {:#x}", u);
        }
    }
    assert!(!white_space('a'));
    assert!(!white_space('\u{200b}'));
}

#[test]
fn chars_of_lists_the_characters() {
    assert_eq!(chars_of("Öl 6"), vec!['Ö', 'l', ' ', '6']);
    assert_eq!(chars_of(""), Vec::<char>::new());
}

#[test]
fn push_decimal_writes_the_numeral() {
    let mut s = String::from("n=");
    push_decimal(&mut s, 0);
    assert_eq!(s, "n=0");
    let mut s = String::new();
    push_decimal(&mut s, 1024);
    assert_eq!(s, "1024");
    let mut s = String::new();
    push_decimal(&mut s, u64::MAX);
    assert_eq!(s, u64::MAX.to_string());
}
