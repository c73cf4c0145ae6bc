use display_error_derive::error::{self, CauseArm, ErrorImpl};
use display_error_derive::model::{Annotation, Arg, Binding, Loc, SumType, Variant};

fn s(x: &str) -> String {
    x.to_string()
}

fn tagged(tags: &[&str]) -> Binding {
    let args = tags.iter().map(|t| Arg::Ident(s(t))).collect();
    Binding { ident: None, attrs: vec![Annotation { head: s("error"), args: Some(args) }] }
}

fn plain() -> Binding {
    Binding { ident: None, attrs: Vec::new() }
}

fn variant(name: &str, bindings: Vec<Binding>) -> Variant {
    Variant { ident: s(name), attrs: Vec::new(), bindings }
}

fn sum(variants: Vec<Variant>) -> SumType {
    SumType { ident: s("Err"), variants }
}

fn built(t: &SumType, unstable: bool) -> ErrorImpl {
    match error::derive(t, true, unstable) {
        Ok(Some(i)) => i,
        _ => panic!("expected an implementation"),
    }
}

fn failure(t: &SumType, unstable: bool) -> (String, Loc) {
    match error::derive(t, true, unstable) {
        Err(d) => (d.message, d.loc),
        _ => panic!("expected a diagnostic"),
    }
}

#[test]
fn not_found_source_is_present() {
    let t = sum(vec![variant("NotFound", vec![tagged(&["source"])])]);
    let i = built(&t, false);
    assert_eq!(i.source, vec![CauseArm::Present(0)]);
    assert!(i.backtrace.is_none());
}

#[test]
fn without_std_nothing_is_emitted() {
    let t = sum(vec![variant("NotFound", vec![tagged(&["source"])]), variant("Bad", vec![tagged(&["source"]), tagged(&["source"])])]);
    assert!(matches!(error::derive(&t, false, false), Ok(None)));
    assert!(matches!(error::derive(&t, false, true), Ok(None)));
}

#[test]
fn maybe_source_forwards() {
    let t = sum(vec![variant("A", vec![plain(), tagged(&["maybe_source"])]), variant("B", vec![plain()])]);
    assert_eq!(built(&t, false).source, vec![CauseArm::Forward(1), CauseArm::Absent]);
}

#[test]
fn two_source_fields_fail() {
    let t = sum(vec![variant("A", vec![tagged(&["source"]), tagged(&["source"])])]);
    assert_eq!(failure(&t, false), (s("cannot have two `source` attributes"), Loc::Variant(0)));
}

#[test]
fn two_maybe_source_fields_fail() {
    let t = sum(vec![variant("A", vec![plain()]), variant("B", vec![tagged(&["maybe_source"]), plain(), tagged(&["maybe_source"])])]);
    assert_eq!(failure(&t, false), (s("cannot have two `maybe_source` attributes"), Loc::Variant(1)));
}

#[test]
fn source_twice_on_one_field_fails() {
    let t = sum(vec![variant("A", vec![tagged(&["source", "source"])])]);
    assert_eq!(failure(&t, false).0, "cannot have two `source` attributes");
}

#[test]
fn source_and_maybe_source_exclude() {
    let t = sum(vec![variant("A", vec![tagged(&["source"]), tagged(&["maybe_source"])])]);
    assert_eq!(failure(&t, false), (s("cannot have both `source` and `maybe_source` attributes"), Loc::Variant(0)));
}

#[test]
fn backtrace_only_when_unstable() {
    let t = sum(vec![variant("A", vec![tagged(&["source"]), tagged(&["backtrace"])]), variant("B", vec![tagged(&["maybe_backtrace"])])]);
    assert!(built(&t, false).backtrace.is_none());
    let i = built(&t, true);
    assert_eq!(i.source, vec![CauseArm::Present(0), CauseArm::Absent]);
    assert_eq!(i.backtrace, Some(vec![CauseArm::Present(1), CauseArm::Forward(0)]));
}

#[test]
fn backtrace_tags_exclude_when_unstable() {
    let t = sum(vec![variant("A", vec![tagged(&["backtrace"]), tagged(&["maybe_backtrace"])])]);
    assert!(built(&t, false).backtrace.is_none());
    assert_eq!(failure(&t, true).0, "cannot have both `backtrace` and `maybe_backtrace` attributes");
}

#[test]
fn tags_outside_error_annotation_are_ignored() {
    let b = Binding { ident: None, attrs: vec![Annotation { head: s("other"), args: Some(vec![Arg::Ident(s("source"))]) }] };
    let path = Binding { ident: None, attrs: vec![Annotation { head: s("error"), args: Some(vec![Arg::Path(s("a::source"))]) }] };
    let t = sum(vec![variant("A", vec![b, path])]);
    assert_eq!(built(&t, false).source, vec![CauseArm::Absent]);
}

#[test]
fn duplicate_maybe_source_beside_source_fails() {
    let t = sum(vec![variant("A", vec![tagged(&["source"]), tagged(&["maybe_source"]), tagged(&["maybe_source"])])]);
    assert_eq!(failure(&t, false), (s("cannot have two `maybe_source` attributes"), Loc::Variant(0)));
}
