use struct_layout::directive::{
    extract_field, extract_ranges, parse_range, parse_size, Located, Range,
};
use struct_layout::error::ExpandError;
use struct_layout::literal::{is_digit_of_base, is_suffix, is_word, parse_integer};
use struct_layout::model::{Attribute, Field, Structure};

fn attribute(name: &str, args: &str) -> Attribute {
    Attribute {
        name: name.to_string(),
        args: args.to_string(),
        text: format!("#[{}({})]", name, args),
    }
}

fn structure(fields: Vec<Field>) -> Structure {
    Structure { attrs: vec![], vis: String::new(), ident: "S".to_string(), fields }
}

fn field(name: &str, ty: &str, attrs: Vec<Attribute>) -> Field {
    Field { attrs, vis: String::new(), ident: Some(name.to_string()), ty: ty.to_string() }
}

#[test]
fn size_directive_is_read() {
    assert_eq!(parse_size("size = 3"), Ok(3));
    assert_eq!(parse_size("size=0"), Ok(0));
    assert_eq!(parse_size("  size\t=  42  "), Ok(42));
}

#[test]
fn size_directive_in_other_notations() {
    assert_eq!(parse_size("size = 0x10"), Ok(16));
    assert_eq!(parse_size("size = 0b101"), Ok(5));
    assert_eq!(parse_size("size = 0o17"), Ok(15));
    assert_eq!(parse_size("size = 1_000"), Ok(1000));
    assert_eq!(parse_size("size = 8usize"), Ok(8));
}

#[test]
fn size_directive_missing() {
    assert_eq!(parse_size(""), Err(ExpandError::UnexpectedMetaItem));
    assert_eq!(parse_size("size"), Err(ExpandError::UnexpectedMetaItem));
    assert_eq!(parse_size("size(3)"), Err(ExpandError::UnexpectedMetaItem));
    assert_eq!(parse_size("3"), Err(ExpandError::UnexpectedMetaItem));
}

#[test]
fn size_directive_with_wrong_key() {
    assert_eq!(parse_size("length = 3"), Err(ExpandError::UnexpectedMetaItem));
    assert_eq!(parse_size("si ze = 3"), Err(ExpandError::UnexpectedMetaItem));
    assert_eq!(parse_size("Size = 3"), Err(ExpandError::UnexpectedMetaItem));
}

#[test]
fn size_directive_with_non_integer_value() {
    assert_eq!(parse_size("size = \"3\""), Err(ExpandError::UnexpectedSizeType));
    assert_eq!(parse_size("size = 1.5"), Err(ExpandError::UnexpectedSizeType));
    assert_eq!(parse_size("size = true"), Err(ExpandError::UnexpectedSizeType));
    assert_eq!(parse_size("size = 'a'"), Err(ExpandError::UnexpectedSizeType));
    assert_eq!(parse_size("size = three"), Err(ExpandError::UnexpectedSizeType));
    assert_eq!(parse_size("size = c\"3\""), Err(ExpandError::UnexpectedSizeType));
    assert_eq!(parse_size("size ="), Err(ExpandError::UnexpectedSizeType));
}

#[test]
fn size_directive_out_of_range() {
    assert_eq!(parse_size("size = 18446744073709551615"), Ok(u64::MAX));
    assert_eq!(parse_size("size = 18446744073709551616"), Err(ExpandError::UnexpectedSizeType));
    assert_eq!(parse_size("size = -1"), Err(ExpandError::UnexpectedSizeType));
}

#[test]
fn size_directive_with_more_than_one_item() {
    assert_eq!(parse_size("size = 3, size = 4"), Err(ExpandError::UnexpectedSizeType));
    assert_eq!(parse_size("size = 3 4"), Err(ExpandError::UnexpectedSizeType));
    assert_eq!(parse_size("size == 3"), Err(ExpandError::UnexpectedSizeType));
    assert_eq!(parse_size("size(3), size = 4"), Err(ExpandError::UnexpectedMetaItem));
}

#[test]
fn integer_literals_in_every_notation() {
    assert_eq!(parse_integer("0"), Some(0));
    assert_eq!(parse_integer(" 42 "), Some(42));
    assert_eq!(parse_integer("0xff"), Some(255));
    assert_eq!(parse_integer("0xFF_FF"), Some(65535));
    assert_eq!(parse_integer("0o777"), Some(511));
    assert_eq!(parse_integer("0b1000"), Some(8));
    assert_eq!(parse_integer("1_000_000"), Some(1000000));
    assert_eq!(parse_integer("7u8"), Some(7));
    assert_eq!(parse_integer("12_usize"), Some(12));
    assert_eq!(parse_integer("0b_1"), Some(1));
    assert_eq!(parse_integer("0x1e"), Some(30));
    assert_eq!(parse_integer("007"), Some(7));
    assert_eq!(parse_integer("0xffffffffffffffff"), Some(u64::MAX));
}

#[test]
fn text_that_is_no_integer_literal() {
    assert_eq!(parse_integer(""), None);
    assert_eq!(parse_integer("   "), None);
    assert_eq!(parse_integer("abc"), None);
    assert_eq!(parse_integer("-1"), None);
    assert_eq!(parse_integer("1.5"), None);
    assert_eq!(parse_integer("1e5"), None);
    assert_eq!(parse_integer("0b12"), None);
    assert_eq!(parse_integer("0o8"), None);
    assert_eq!(parse_integer("0x"), None);
    assert_eq!(parse_integer("0x_"), None);
    assert_eq!(parse_integer("0xusize"), None);
    assert_eq!(parse_integer("1e"), None);
    assert_eq!(parse_integer("7u9"), None);
    assert_eq!(parse_integer("7f32"), None);
    assert_eq!(parse_integer("7_foo"), None);
    assert_eq!(parse_integer("_7"), None);
    assert_eq!(parse_integer("1 2"), None);
    assert_eq!(parse_integer("\"1\""), None);
    assert_eq!(parse_integer("c\"1\""), None);
    assert_eq!(parse_integer("'1'"), None);
    assert_eq!(parse_integer("true"), None);
    assert_eq!(parse_integer("0x1_0000_0000_0000_0000"), None);
}

#[test]
fn shape_of_an_integer_literal() {
    assert!(is_word("0"));
    assert!(is_word("0x1F"));
    assert!(is_word("0o17"));
    assert!(is_word("0b_1_0"));
    assert!(is_word("12_usize"));
    assert!(is_word("1_000i128"));
    assert!(!is_word(""));
    assert!(!is_word("1e"));
    assert!(!is_word("1e5"));
    assert!(!is_word("0b12"));
    assert!(!is_word("0o8"));
    assert!(!is_word("0x"));
    assert!(!is_word("0x__"));
    assert!(!is_word("0xu8"));
    assert!(!is_word("x1"));
    assert!(!is_word("_1"));
    assert!(!is_word("1.0"));
    assert!(!is_word("1 "));
    assert!(!is_word("1+1"));
    assert!(!is_word("1u8u8"));
    assert!(!is_word("1U8"));
}

#[test]
fn the_twelve_integer_suffixes() {
    for suffix in ["u8", "u16", "u32", "u64", "u128", "usize"] {
        assert!(is_suffix(suffix));
    }
    for suffix in ["i8", "i16", "i32", "i64", "i128", "isize"] {
        assert!(is_suffix(suffix));
    }
    assert!(!is_suffix(""));
    assert!(!is_suffix("f32"));
    assert!(!is_suffix("u7"));
    assert!(!is_suffix("usiz"));
    assert!(!is_suffix("e"));
}

#[test]
fn digits_of_each_base() {
    assert!(is_digit_of_base('1', 2));
    assert!(!is_digit_of_base('2', 2));
    assert!(is_digit_of_base('7', 8));
    assert!(!is_digit_of_base('8', 8));
    assert!(is_digit_of_base('9', 10));
    assert!(!is_digit_of_base('a', 10));
    assert!(is_digit_of_base('f', 16));
    assert!(is_digit_of_base('A', 16));
    assert!(!is_digit_of_base('g', 16));
    assert!(!is_digit_of_base('_', 16));
}

#[test]
fn range_directive_is_read() {
    assert_eq!(parse_range("0:0"), Some(Range { start: 0, end: 0 }));
    assert_eq!(parse_range("1 : 2"), Some(Range { start: 1, end: 2 }));
    assert_eq!(parse_range("0x4 : 0x7"), Some(Range { start: 4, end: 7 }));
    assert_eq!(parse_range("1_0:1_1"), Some(Range { start: 10, end: 11 }));
}

#[test]
fn range_directive_need_not_be_ordered() {
    assert_eq!(parse_range("7 : 4"), Some(Range { start: 7, end: 4 }));
}

#[test]
fn range_directive_malformed() {
    assert_eq!(parse_range(""), None);
    assert_eq!(parse_range("1"), None);
    assert_eq!(parse_range("1 2"), None);
    assert_eq!(parse_range("1 : 2 : 3"), None);
    assert_eq!(parse_range("1 :: 2"), None);
    assert_eq!(parse_range("a : b"), None);
    assert_eq!(parse_range("1 : \"2\""), None);
    assert_eq!(parse_range(": 2"), None);
    assert_eq!(parse_range("1 :"), None);
    assert_eq!(parse_range("1.0 : 2"), None);
    assert_eq!(parse_range("0 : 18446744073709551616"), None);
}

#[test]
fn directive_is_recognised_by_its_name() {
    assert!(attribute("loc", "0:0").is_layout_directive());
    assert!(!attribute("doc", "0:0").is_layout_directive());
    assert!(!attribute("Loc", "0:0").is_layout_directive());
    assert!(!attribute("location", "0:0").is_layout_directive());
    assert!(!attribute("", "").is_layout_directive());
}

#[test]
fn field_without_directive_yields_nothing() {
    let f = field("a", "u8", vec![attribute("doc", "hidden")]);
    assert_eq!(extract_field(0, &f), Ok(vec![]));
    let g = field("b", "u8", vec![]);
    assert_eq!(extract_field(1, &g), Ok(vec![]));
}

#[test]
fn field_directives_keep_their_order() {
    let f = field(
        "a",
        "u32",
        vec![attribute("loc", "0:3"), attribute("doc", "x"), attribute("loc", "4:7")],
    );
    assert_eq!(
        extract_field(5, &f),
        Ok(vec![
            Located { field: 5, range: Range { start: 0, end: 3 } },
            Located { field: 5, range: Range { start: 4, end: 7 } },
        ])
    );
}

#[test]
fn malformed_field_directive_is_located() {
    let f = field("a", "u32", vec![attribute("doc", "x"), attribute("loc", "0-3")]);
    assert_eq!(extract_field(2, &f), Err(ExpandError::MalformedRange { field: 2, attribute: 1 }));
}

#[test]
fn other_attributes_are_not_read() {
    let f = field("a", "u32", vec![attribute("doc", "not : a : range")]);
    assert_eq!(extract_field(0, &f), Ok(vec![]));
}

#[test]
fn only_one_of_three_fields_is_directed() {
    let fields = vec![
        field("a", "u8", vec![]),
        field("b", "u16", vec![attribute("loc", "2:3")]),
        field("c", "u32", vec![attribute("repr", "C")]),
    ];
    assert_eq!(
        extract_ranges(&structure(fields)),
        Ok(vec![Located { field: 1, range: Range { start: 2, end: 3 } }])
    );
}

#[test]
fn first_malformed_directive_is_reported() {
    let fields = vec![
        field("a", "u8", vec![attribute("loc", "0:0")]),
        field("b", "u16", vec![attribute("loc", "x")]),
        field("c", "u32", vec![attribute("loc", "y")]),
    ];
    assert_eq!(
        extract_ranges(&structure(fields)),
        Err(ExpandError::MalformedRange { field: 1, attribute: 0 })
    );
}

#[test]
fn no_fields_no_directives() {
    assert_eq!(extract_ranges(&structure(vec![])), Ok(vec![]));
}
