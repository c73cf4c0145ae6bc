use display_error_derive::display::{self, ArgExpr, DisplayArm};
use display_error_derive::model::{Annotation, Arg, Binding, Loc, SumType, Variant};

fn s(x: &str) -> String {
    x.to_string()
}

fn display(args: Vec<Arg>) -> Annotation {
    Annotation { head: s("display"), args: Some(args) }
}

fn template(t: &str) -> Arg {
    Arg::Lit(format!("\"{}\"", t))
}

fn field(name: Option<&str>) -> Binding {
    Binding { ident: name.map(s), attrs: Vec::new() }
}

fn variant(name: &str, attrs: Vec<Annotation>, bindings: Vec<Binding>) -> Variant {
    Variant { ident: s(name), attrs, bindings }
}

fn sum(name: &str, variants: Vec<Variant>) -> SumType {
    SumType { ident: s(name), variants }
}

fn write_args(arm: &DisplayArm) -> (usize, Vec<ArgExpr>) {
    match arm {
        DisplayArm::Write { attr, args } => (*attr, args.clone()),
        DisplayArm::Forward => panic!("expected a template arm"),
    }
}

fn error_of(t: &SumType) -> (String, Loc) {
    match display::derive(t) {
        Ok(_) => panic!("expected a diagnostic"),
        Err(d) => (d.message, d.loc),
    }
}

#[test]
fn single_field_forwards() {
    let t = sum("Err", vec![variant("Io", vec![], vec![field(None)])]);
    let arms = display::derive(&t).ok().unwrap();
    assert_eq!(arms.len(), 1);
    assert!(matches!(arms[0], DisplayArm::Forward));
}

#[test]
fn one_arm_per_variant() {
    let t = sum(
        "Err",
        vec![
            variant("A", vec![], vec![field(None)]),
            variant("B", vec![display(vec![template("{} {}"), Arg::Int(s("1")), Arg::Int(s("0"))])], vec![field(None), field(None)]),
            variant("C", vec![display(vec![template("nothing")])], vec![]),
        ],
    );
    let arms = display::derive(&t).ok().unwrap();
    assert_eq!(arms.len(), 3);
    assert!(matches!(arms[0], DisplayArm::Forward));
    assert_eq!(write_args(&arms[1]), (0, vec![ArgExpr::Field(1), ArgExpr::Field(0)]));
    assert_eq!(write_args(&arms[2]), (0, vec![]));
}

#[test]
fn two_fields_without_template_fail() {
    let t = sum("Err", vec![variant("A", vec![], vec![field(None)]), variant("Pair", vec![], vec![field(None), field(None)])]);
    assert_eq!(error_of(&t), (s("variant with more than one field must have a display attribute."), Loc::Variant(1)));
}

#[test]
fn no_fields_without_template_fail() {
    let t = sum("Err", vec![variant("Empty", vec![], vec![])]);
    assert_eq!(error_of(&t), (s("variant with more than one field must have a display attribute."), Loc::Variant(0)));
}

#[test]
fn index_past_end_names_plural_count() {
    let t = sum("Err", vec![variant("Two", vec![display(vec![template("{}"), Arg::Int(s("5"))])], vec![field(None), field(None)])]);
    let (message, loc) = error_of(&t);
    assert_eq!(message, "attempted to access field `5` in `Err::Two` which does not exist (there are 2 fields)");
    assert!(message.contains("there are 2 fields"));
    assert_eq!(loc, Loc::Arg(0, 0, 1));
}

#[test]
fn index_past_end_names_singular_count() {
    let t = sum("E", vec![variant("One", vec![display(vec![template("{}"), Arg::Int(s("1"))])], vec![field(None)])]);
    let (message, _) = error_of(&t);
    assert_eq!(message, "attempted to access field `1` in `E::One` which does not exist (there is 1 field)");
}

#[test]
fn index_past_end_with_no_fields() {
    let t = sum("E", vec![variant("Zero", vec![display(vec![template("{}"), Arg::Int(s("0"))])], vec![])]);
    let (message, _) = error_of(&t);
    assert_eq!(message, "attempted to access field `0` in `E::Zero` which does not exist (there are 0 fields)");
}

#[test]
fn named_argument_resolves_to_named_field() {
    let t = sum(
        "Err",
        vec![variant(
            "Code",
            vec![display(vec![template("error {code}"), Arg::Ident(s("code"))])],
            vec![field(Some("detail")), field(Some("code"))],
        )],
    );
    let arms = display::derive(&t).ok().unwrap();
    assert_eq!(write_args(&arms[0]), (0, vec![ArgExpr::Field(1)]));
}

#[test]
fn exact_name_wins_over_positional_alias() {
    let t = sum(
        "Err",
        vec![variant("V", vec![display(vec![template("{}"), Arg::Ident(s("_1"))])], vec![field(Some("_1")), field(Some("b"))])],
    );
    let arms = display::derive(&t).ok().unwrap();
    assert_eq!(write_args(&arms[0]), (0, vec![ArgExpr::Field(0)]));
}

#[test]
fn underscore_alias_is_positional() {
    let t = sum("Err", vec![variant("V", vec![display(vec![template("{} {}"), Arg::Ident(s("_1")), Arg::Ident(s("_0"))])], vec![field(None), field(None)])]);
    let arms = display::derive(&t).ok().unwrap();
    assert_eq!(write_args(&arms[0]), (0, vec![ArgExpr::Field(1), ArgExpr::Field(0)]));
}

#[test]
fn underscore_alias_past_end() {
    let t = sum("Err", vec![variant("V", vec![display(vec![template("{}"), Arg::Ident(s("_7"))])], vec![field(None), field(None)])]);
    let (message, _) = error_of(&t);
    assert_eq!(message, "attempted to access field `7` in `Err::V` which does not exist (there are 2 fields)");
}

#[test]
fn unknown_name_fails() {
    let t = sum("Err", vec![variant("V", vec![display(vec![template("{x}"), Arg::Ident(s("x"))])], vec![field(Some("y"))])]);
    let (message, loc) = error_of(&t);
    assert_eq!(message, "attempted to access unknown field `x` in `Err::V`");
    assert_eq!(loc, Loc::Arg(0, 0, 1));
}

#[test]
fn bare_underscore_is_unknown() {
    let t = sum("Err", vec![variant("V", vec![display(vec![template("{}"), Arg::Ident(s("_"))])], vec![field(None)])]);
    let (message, _) = error_of(&t);
    assert_eq!(message, "attempted to access unknown field `_` in `Err::V`");
}

#[test]
fn two_display_annotations_fail() {
    let t = sum(
        "Err",
        vec![variant("V", vec![display(vec![template("a")]), Annotation { head: s("doc"), args: None }, display(vec![template("b")])], vec![field(None)])],
    );
    assert_eq!(error_of(&t), (s("cannot have two display attributes"), Loc::Attr(0, 2)));
}

#[test]
fn string_argument_is_invalid() {
    let t = sum("Err", vec![variant("V", vec![display(vec![template("{}"), Arg::Lit(s("\"x\""))])], vec![field(None)])]);
    assert_eq!(error_of(&t), (s("invalid argument to display attribute."), Loc::Arg(0, 0, 1)));
}

#[test]
fn name_value_argument_is_invalid() {
    let t = sum("Err", vec![variant("V", vec![display(vec![template("{}"), Arg::NameValue(s("a = 1"))])], vec![field(None)])]);
    assert_eq!(error_of(&t).0, "invalid argument to display attribute.");
}

#[test]
fn huge_index_overflows() {
    let t = sum("Err", vec![variant("V", vec![display(vec![template("{}"), Arg::Int(s("99999999999999999999999"))])], vec![field(None)])]);
    assert_eq!(error_of(&t), (s("integer literal overflows usize"), Loc::Arg(0, 0, 1)));
}

#[test]
fn paths_and_calls_pass_through() {
    let path = sum(
        "Err",
        vec![variant("V", vec![display(vec![template("{} {}"), Arg::List(s("f(x)")), Arg::Path(s("self::NAME"))])], vec![field(None), field(None)])],
    );
    assert_eq!(error_of(&path), (s("invalid argument to display attribute."), Loc::Arg(0, 0, 2)));
    let call = sum(
        "Err",
        vec![variant("V", vec![display(vec![template("{} {}"), Arg::List(s("f(x)")), Arg::Int(s("1"))])], vec![field(None), field(None)])],
    );
    let arms = display::derive(&call).ok().unwrap();
    assert_eq!(write_args(&arms[0]), (0, vec![ArgExpr::Verbatim(1), ArgExpr::Field(1)]));
}

#[test]
fn display_without_literal_is_ignored() {
    let t = sum("Err", vec![variant("V", vec![display(vec![Arg::Ident(s("x"))]), display(vec![])], vec![field(None)])]);
    let arms = display::derive(&t).ok().unwrap();
    assert!(matches!(arms[0], DisplayArm::Forward));
}

#[test]
fn other_heads_are_ignored() {
    let t = sum("Err", vec![variant("V", vec![Annotation { head: s("displays"), args: Some(vec![template("x")]) }], vec![field(None)])]);
    let arms = display::derive(&t).ok().unwrap();
    assert!(matches!(arms[0], DisplayArm::Forward));
}

#[test]
fn first_failing_variant_is_reported() {
    let t = sum(
        "Err",
        vec![
            variant("A", vec![display(vec![template("{}"), Arg::Ident(s("nope"))])], vec![field(None)]),
            variant("B", vec![], vec![]),
        ],
    );
    assert_eq!(error_of(&t).0, "attempted to access unknown field `nope` in `Err::A`");
}
