//! Texts and tables.

use inkdrop::table::Table;
use inkdrop::text::{
    eq_ignore_ascii_case, integer, is_at_most, push_decimal, push_hexadecimal, push_padded,
    push_separated, same, split, trim,
};

const TEXTS: [&str; 9] = ["", "a", "A", "ab", "Ünï", "a,b,,c", " x\t", "\u{2003}é\u{85}", "🖨"];

#[test]
fn texts_compare_as_strings_do() {
    for a in TEXTS {
        for b in TEXTS {
            assert_eq!(same(a, b), a == b, "{a:?} {b:?}");
            assert_eq!(eq_ignore_ascii_case(a, b), a.eq_ignore_ascii_case(b), "{a:?} {b:?}");
            assert_eq!(is_at_most(a, b), a <= b, "{a:?} {b:?}");
        }
    }
    assert!(eq_ignore_ascii_case("Image/URF", "iMAGE/urf"));
    assert!(!eq_ignore_ascii_case("É", "é"), "only ASCII letters");
    assert!(!eq_ignore_ascii_case("@[`{", "`{@["));
}

#[test]
fn texts_are_split_and_trimmed_as_strings_are() {
    for text in TEXTS {
        assert_eq!(trim(text), text.trim(), "{text:?}");
        assert_eq!(split(text, ','), text.split(',').collect::<Vec<_>>(), "{text:?}");
    }
    for c in '\u{0}'..='\u{ffff}' {
        let text = format!("{c}x{c}");
        assert_eq!(trim(&text), text.trim(), "{c:?}");
    }
}

#[test]
fn numbers_are_written_as_format_writes_them() {
    for value in [0, 1, 9, 10, 42, 999, 1000, 12345, -1, -10, -999, -1000, i32::MAX, i32::MIN] {
        assert_eq!(integer(value), value.to_string());
        let mut padded = String::from("#");
        push_padded(&mut padded, value, 4);
        assert_eq!(padded, format!("#{value:04}"));
    }
    for value in [0, 7, 10, 65535, u64::MAX] {
        let mut decimal = String::from("#");
        push_decimal(&mut decimal, value);
        assert_eq!(decimal, format!("#{value}"));
        let mut hexadecimal = String::from("#");
        push_hexadecimal(&mut hexadecimal, value, 16);
        assert_eq!(hexadecimal, format!("#{value:016x}"));
    }
}

#[test]
fn texts_are_joined_as_join_joins_them() {
    for count in 0..TEXTS.len() {
        let strings: Vec<String> = TEXTS[..count].iter().map(|text| (*text).to_owned()).collect();
        let mut joined = String::from("#");
        push_separated(&mut joined, &strings, ", ");
        assert_eq!(joined, format!("#{}", strings.join(", ")));
    }
}

#[test]
fn tables_hold_each_name_once() {
    let mut table: Table<String> = Table::new();
    assert_eq!(table.len(), 0);
    table.insert("a".to_owned(), "1".to_owned());
    table.insert("b".to_owned(), "2".to_owned());
    table.insert("a".to_owned(), "3".to_owned());
    assert_eq!(table.len(), 2);
    assert_eq!(table.get("a").map(String::as_str), Some("3"));
    assert_eq!(table.at(1), "2");
    assert_eq!(table.remove("a").as_deref(), Some("3"));
    assert_eq!(table.remove("a"), None);
    assert_eq!(table.get("a"), None);
    assert_eq!(table.at(0), "2");
}
