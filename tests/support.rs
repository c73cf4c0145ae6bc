use display_error_derive::attr::parse_meta_with_path;
use display_error_derive::driver::{generate, generator_for, Generated, Generator};
use display_error_derive::model::{Annotation, Arg, Binding, SumType, Variant};
use display_error_derive::text::{parse_index, to_decimal};

#[test]
fn decimal_text() {
    assert_eq!(to_decimal(0), "0");
    assert_eq!(to_decimal(7), "7");
    assert_eq!(to_decimal(10), "10");
    assert_eq!(to_decimal(4096), "4096");
    assert_eq!(to_decimal(usize::MAX), usize::MAX.to_string());
}

#[test]
fn index_parsing() {
    assert_eq!(parse_index("0"), Some(0));
    assert_eq!(parse_index("42"), Some(42));
    assert_eq!(parse_index("007"), Some(7));
    assert_eq!(parse_index(""), None);
    assert_eq!(parse_index("4a"), None);
    assert_eq!(parse_index("+4"), None);
    assert_eq!(parse_index(&usize::MAX.to_string()), Some(usize::MAX));
    assert_eq!(parse_index("18446744073709551616"), None);
}

#[test]
fn attribute_reader() {
    let a = Annotation { head: "display".to_string(), args: Some(vec![Arg::Int("1".to_string())]) };
    assert_eq!(parse_meta_with_path(&a, "display").map(|v| v.len()), Some(1));
    assert!(parse_meta_with_path(&a, "error").is_none());
    let word = Annotation { head: "display".to_string(), args: None };
    assert!(parse_meta_with_path(&word, "display").is_none());
    let path = Annotation { head: "a::display".to_string(), args: Some(vec![]) };
    assert!(parse_meta_with_path(&path, "display").is_none());
}

#[test]
fn registration_table() {
    assert_eq!(generator_for("display"), Some(Generator::Display));
    assert_eq!(generator_for("error"), Some(Generator::Error));
    assert_eq!(generator_for("Display"), None);
}

#[test]
fn generate_dispatches() {
    let t = SumType {
        ident: "Err".to_string(),
        variants: vec![Variant { ident: "A".to_string(), attrs: vec![], bindings: vec![Binding { ident: None, attrs: vec![] }] }],
    };
    assert!(matches!(generate(Generator::Display, &t, true, false), Ok(Generated::Display(ref a)) if a.len() == 1));
    assert!(matches!(generate(Generator::Error, &t, false, false), Ok(Generated::Error(None))));
    assert!(matches!(generate(Generator::Error, &t, true, false), Ok(Generated::Error(Some(_)))));
}
