use vstd::prelude::*;
use vstd::string::*;
use crate::attr::{meta_args, parse_meta_with_path, str_eq};
use crate::model::{diag, Annotation, Arg, Binding, DiagSpec, Diagnostic, Loc, SumType, Variant};

verus! {

/// What the cause (or trace) accessor returns for one variant.
#[derive(Clone, Copy, Debug, PartialEq, Eq, Structural)]
pub enum CauseArm {
    /// The field at this position, wrapped as present.
    Present(usize),
    /// The optional value held by the field at this position, as it is.
    Forward(usize),
    /// Nothing.
    Absent,
}

/// The error implementation: the cause accessor's arms, and the trace
/// accessor's arms when that accessor is emitted.
pub struct ErrorImpl {
    pub source: Vec<CauseArm>,
    pub backtrace: Option<Vec<CauseArm>>,
}

/// What an error implementation is, mathematically.
pub struct ErrorImplSpec {
    pub source: Seq<CauseArm>,
    pub backtrace: Option<Seq<CauseArm>>,
}

impl ErrorImpl {
    pub open spec fn view(&self) -> ErrorImplSpec {
        ErrorImplSpec {
            source: self.source@,
            backtrace: match self.backtrace {
                Some(b) => Some(b@),
                None => None,
            },
        }
    }
}

pub open spec fn two_tags_msg(tag: Seq<char>) -> Seq<char> {
    "cannot have two `"@ + tag + "` attributes"@
}

pub open spec fn both_tags_msg(tag: Seq<char>, maybe_tag: Seq<char>) -> Seq<char> {
    "cannot have both `"@ + tag + "` and `"@ + maybe_tag + "` attributes"@
}

/// How many of the first `n` arguments are the bare identifier `tag`.
pub open spec fn tag_count_args(args: Seq<Arg>, tag: Seq<char>, n: nat) -> nat
    decreases n,
{
    if n == 0 {
        0
    } else {
        tag_count_args(args, tag, (n - 1) as nat) + match args[n - 1] {
            Arg::Ident(id) => if id@ == tag { 1nat } else { 0nat },
            _ => 0nat,
        }
    }
}

/// How often `tag` is written in the `error(...)` annotations among the first `n`.
pub open spec fn tag_count_attrs(attrs: Seq<Annotation>, tag: Seq<char>, n: nat) -> nat
    decreases n,
{
    if n == 0 {
        0
    } else {
        tag_count_attrs(attrs, tag, (n - 1) as nat) + match meta_args(attrs[n - 1], "error"@) {
            Some(args) => tag_count_args(args, tag, args.len()),
            None => 0nat,
        }
    }
}

/// How often `tag` is written on a field.
pub open spec fn tag_count(b: Binding, tag: Seq<char>) -> nat {
    tag_count_attrs(b.attrs@, tag, b.attrs@.len())
}

/// How often `tag` is written on the first `n` fields.
pub open spec fn tag_count_bindings(bs: Seq<Binding>, tag: Seq<char>, n: nat) -> nat
    decreases n,
{
    if n == 0 {
        0
    } else {
        tag_count_bindings(bs, tag, (n - 1) as nat) + tag_count(bs[n - 1], tag)
    }
}

/// The last of the first `n` fields that carries `tag`.
pub open spec fn tag_site(bs: Seq<Binding>, tag: Seq<char>, n: nat) -> Option<usize>
    decreases n,
{
    if n == 0 {
        None
    } else if tag_count(bs[n - 1], tag) > 0 {
        Some((n - 1) as usize)
    } else {
        tag_site(bs, tag, (n - 1) as nat)
    }
}

/// The field of `v` tagged `tag`: none when the tag is absent, the field when it
/// is written once, and a failure when it is written twice or more.
pub open spec fn tagged_field(v: Variant, tag: Seq<char>) -> Result<Option<usize>, ()> {
    let bs = v.bindings@;
    if tag_count_bindings(bs, tag, bs.len()) >= 2 {
        Err(())
    } else {
        Ok(tag_site(bs, tag, bs.len()))
    }
}

/// The accessor arm of variant `vi` for the tag pair `tag` / `maybe_tag`.
pub open spec fn cause_arm(s: SumType, vi: int, tag: Seq<char>, maybe_tag: Seq<char>) -> Result<CauseArm, DiagSpec> {
    let v = s.variants@[vi];
    let loc = Loc::Variant(vi as usize);
    match tagged_field(v, tag) {
        Err(_) => Err(diag(two_tags_msg(tag), loc)),
        Ok(definite) => match tagged_field(v, maybe_tag) {
            Err(_) => Err(diag(two_tags_msg(maybe_tag), loc)),
            Ok(optional) => match (definite, optional) {
                (Some(_), Some(_)) => Err(diag(both_tags_msg(tag, maybe_tag), loc)),
                (Some(i), None) => Ok(CauseArm::Present(i)),
                (None, Some(i)) => Ok(CauseArm::Forward(i)),
                (None, None) => Ok(CauseArm::Absent),
            },
        },
    }
}

/// The accessor arms of the first `n` variants; the first failure wins.
pub open spec fn cause_upto(s: SumType, tag: Seq<char>, maybe_tag: Seq<char>, n: nat) -> Result<Seq<CauseArm>, DiagSpec>
    decreases n,
{
    if n == 0 {
        Ok(Seq::empty())
    } else {
        match cause_upto(s, tag, maybe_tag, (n - 1) as nat) {
            Err(d) => Err(d),
            Ok(arms) => match cause_arm(s, n - 1, tag, maybe_tag) {
                Err(d) => Err(d),
                Ok(a) => Ok(arms.push(a)),
            },
        }
    }
}

pub open spec fn accessor_spec(s: SumType, tag: Seq<char>, maybe_tag: Seq<char>) -> Result<Seq<CauseArm>, DiagSpec> {
    cause_upto(s, tag, maybe_tag, s.variants@.len())
}

/// The error implementation of `s` under the two capability flags: nothing
/// without the standard library; the cause accessor; the trace accessor too
/// under the experimental flag. The first failure wins.
pub open spec fn error_spec(s: SumType, std_available: bool, unstable: bool) -> Result<Option<ErrorImplSpec>, DiagSpec> {
    if !std_available {
        Ok(None)
    } else {
        match accessor_spec(s, "source"@, "maybe_source"@) {
            Err(d) => Err(d),
            Ok(source) => if unstable {
                match accessor_spec(s, "backtrace"@, "maybe_backtrace"@) {
                    Err(d) => Err(d),
                    Ok(bt) => Ok(Some(ErrorImplSpec { source, backtrace: Some(bt) })),
                }
            } else {
                Ok(Some(ErrorImplSpec { source, backtrace: None }))
            },
        }
    }
}

pub open spec fn sat(n: nat) -> usize {
    if n >= 2 { 2 } else { n as usize }
}

fn count_tag_in_args(args: &Vec<Arg>, tag: &str) -> (r: usize)
    ensures
        r == sat(tag_count_args(args@, tag@, args@.len())),
{
    let mut count: usize = 0;
    let mut k: usize = 0;
    while k < args.len()
        invariant
            k <= args@.len(),
            count == sat(tag_count_args(args@, tag@, k as nat)),
        decreases args@.len() - k,
    {
        let hit = match &args[k] {
            Arg::Ident(id) => str_eq(id.as_str(), tag),
            _ => false,
        };
        if hit && count < 2 {
            count = count + 1;
        }
        k = k + 1;
    }
    count
}

fn count_tag_in_binding(b: &Binding, tag: &str) -> (r: usize)
    ensures
        r == sat(tag_count(*b, tag@)),
{
    let mut count: usize = 0;
    let mut j: usize = 0;
    while j < b.attrs.len()
        invariant
            j <= b.attrs@.len(),
            count == sat(tag_count_attrs(b.attrs@, tag@, j as nat)),
        decreases b.attrs@.len() - j,
    {
        let here = match parse_meta_with_path(&b.attrs[j], "error") {
            Some(args) => count_tag_in_args(args, tag),
            None => 0,
        };
        if count + here >= 2 {
            count = 2;
        } else {
            count = count + here;
        }
        j = j + 1;
    }
    count
}

fn two_tags_message(tag: &str) -> (r: String)
    ensures
        r@ == two_tags_msg(tag@),
{
    let mut r = String::from_str("cannot have two `");
    r.append(tag);
    r.append("` attributes");
    assert(r@ =~= two_tags_msg(tag@));
    r
}

fn both_tags_message(tag: &str, maybe_tag: &str) -> (r: String)
    ensures
        r@ == both_tags_msg(tag@, maybe_tag@),
{
    let mut r = String::from_str("cannot have both `");
    r.append(tag);
    r.append("` and `");
    r.append(maybe_tag);
    r.append("` attributes");
    assert(r@ =~= both_tags_msg(tag@, maybe_tag@));
    r
}

/// Finds the field of variant `vi` tagged `tag` inside an `error(...)`
/// annotation; a second occurrence of the tag fails.
pub fn find_binding(s: &SumType, vi: usize, tag: &str) -> (r: Result<Option<usize>, Diagnostic>)
    requires
        vi < s.variants@.len(),
    ensures
        match r {
            Ok(found) => tagged_field(s.variants@[vi as int], tag@) == Ok::<Option<usize>, ()>(found),
            Err(d) => tagged_field(s.variants@[vi as int], tag@) is Err
                && d@ == diag(two_tags_msg(tag@), Loc::Variant(vi)),
        },
{
    let v = &s.variants[vi];
    let ghost bs = v.bindings@;
    let mut total: usize = 0;
    let mut result: Option<usize> = None;
    let mut i: usize = 0;
    while i < v.bindings.len()
        invariant
            bs == v.bindings@,
            i <= bs.len(),
            total == sat(tag_count_bindings(bs, tag@, i as nat)),
            result == tag_site(bs, tag@, i as nat),
        decreases bs.len() - i,
    {
        let here = count_tag_in_binding(&v.bindings[i], tag);
        if here > 0 {
            result = Some(i);
        }
        if total + here >= 2 {
            total = 2;
        } else {
            total = total + here;
        }
        i = i + 1;
    }
    if total >= 2 {
        Err(Diagnostic { message: two_tags_message(tag), loc: Loc::Variant(vi) })
    } else {
        Ok(result)
    }
}

/// The accessor arm of variant `vi` for the tag pair `tag` / `maybe_tag`.
pub fn variant_cause(s: &SumType, vi: usize, tag: &str, maybe_tag: &str) -> (r: Result<CauseArm, Diagnostic>)
    requires
        vi < s.variants@.len(),
    ensures
        match r {
            Ok(a) => cause_arm(*s, vi as int, tag@, maybe_tag@) == Ok::<CauseArm, DiagSpec>(a),
            Err(d) => cause_arm(*s, vi as int, tag@, maybe_tag@) == Err::<CauseArm, DiagSpec>(d@),
        },
{
    let definite = match find_binding(s, vi, tag) {
        Ok(found) => found,
        Err(d) => {
            return Err(d);
        },
    };
    let optional = match find_binding(s, vi, maybe_tag) {
        Ok(found) => found,
        Err(d) => {
            return Err(d);
        },
    };
    match (definite, optional) {
        (Some(_), Some(_)) => Err(Diagnostic {
            message: both_tags_message(tag, maybe_tag),
            loc: Loc::Variant(vi),
        }),
        (Some(i), None) => Ok(CauseArm::Present(i)),
        (None, Some(i)) => Ok(CauseArm::Forward(i)),
        (None, None) => Ok(CauseArm::Absent),
    }
}

proof fn lemma_cause_upto_err(s: SumType, tag: Seq<char>, maybe_tag: Seq<char>, n: nat, m: nat, d: DiagSpec)
    requires
        n <= m,
        cause_upto(s, tag, maybe_tag, n) == Err::<Seq<CauseArm>, DiagSpec>(d),
    ensures
        cause_upto(s, tag, maybe_tag, m) == Err::<Seq<CauseArm>, DiagSpec>(d),
    decreases m - n,
{
    if n < m {
        lemma_cause_upto_err(s, tag, maybe_tag, n, (m - 1) as nat, d);
    }
}

/// The arms of one accessor, one per variant in order, or the first failure.
pub fn accessor_arms(s: &SumType, tag: &str, maybe_tag: &str) -> (r: Result<Vec<CauseArm>, Diagnostic>)
    ensures
        match r {
            Ok(arms) => accessor_spec(*s, tag@, maybe_tag@) == Ok::<Seq<CauseArm>, DiagSpec>(arms@),
            Err(d) => accessor_spec(*s, tag@, maybe_tag@) == Err::<Seq<CauseArm>, DiagSpec>(d@),
        },
{
    let mut arms: Vec<CauseArm> = Vec::new();
    let mut vi: usize = 0;
    while vi < s.variants.len()
        invariant
            vi <= s.variants@.len(),
            cause_upto(*s, tag@, maybe_tag@, vi as nat) == Ok::<Seq<CauseArm>, DiagSpec>(arms@),
        decreases s.variants@.len() - vi,
    {
        match variant_cause(s, vi, tag, maybe_tag) {
            Ok(a) => arms.push(a),
            Err(d) => {
                proof {
                    lemma_cause_upto_err(*s, tag@, maybe_tag@, (vi + 1) as nat, s.variants@.len(), d@);
                }
                return Err(d);
            },
        }
        vi = vi + 1;
    }
    Ok(arms)
}

/// Builds the error implementation of `s`. Without the standard library
/// nothing is emitted; under the experimental flag the trace accessor is
/// built after the cause accessor.
pub fn derive(s: &SumType, std_available: bool, unstable: bool) -> (r: Result<Option<ErrorImpl>, Diagnostic>)
    ensures
        match r {
            Ok(Some(i)) => error_spec(*s, std_available, unstable) == Ok::<Option<ErrorImplSpec>, DiagSpec>(Some(i@)),
            Ok(None) => error_spec(*s, std_available, unstable) == Ok::<Option<ErrorImplSpec>, DiagSpec>(None),
            Err(d) => error_spec(*s, std_available, unstable) == Err::<Option<ErrorImplSpec>, DiagSpec>(d@),
        },
        !std_available ==> r matches Ok(None),
{
    if !std_available {
        return Ok(None);
    }
    let source = match accessor_arms(s, "source", "maybe_source") {
        Ok(arms) => arms,
        Err(d) => {
            return Err(d);
        },
    };
    if unstable {
        match accessor_arms(s, "backtrace", "maybe_backtrace") {
            Ok(bt) => Ok(Some(ErrorImpl { source, backtrace: Some(bt) })),
            Err(d) => Err(d),
        }
    } else {
        Ok(Some(ErrorImpl { source, backtrace: None }))
    }
}

proof fn lemma_count_includes(bs: Seq<Binding>, tag: Seq<char>, n: nat, a: int)
    requires
        0 <= a < n <= bs.len(),
    ensures
        tag_count_bindings(bs, tag, n) >= tag_count_bindings(bs, tag, a as nat) + tag_count(bs[a], tag),
    decreases n,
{
    if a < n - 1 {
        lemma_count_includes(bs, tag, (n - 1) as nat, a);
    }
}

proof fn lemma_site_found(bs: Seq<Binding>, tag: Seq<char>, n: nat)
    requires
        n <= bs.len(),
        tag_count_bindings(bs, tag, n) >= 1,
    ensures
        tag_site(bs, tag, n) is Some,
    decreases n,
{
    if tag_count(bs[n - 1], tag) == 0 {
        lemma_site_found(bs, tag, (n - 1) as nat);
    }
}

proof fn lemma_cause_upto_ok_before(s: SumType, tag: Seq<char>, maybe_tag: Seq<char>, n: nat)
    requires
        n <= s.variants@.len(),
        forall|w: int| 0 <= w < n ==> #[trigger] cause_arm(s, w, tag, maybe_tag) is Ok,
    ensures
        cause_upto(s, tag, maybe_tag, n) is Ok,
    decreases n,
{
    if n > 0 {
        lemma_cause_upto_ok_before(s, tag, maybe_tag, (n - 1) as nat);
        assert(cause_arm(s, n - 1, tag, maybe_tag) is Ok);
    }
}

/// A variant whose cause cannot be resolved makes the error implementation
/// fail whenever it is emitted, and its diagnostic is the one reported when
/// every earlier variant resolves.
proof fn lemma_cause_failure(s: SumType, vi: int, unstable: bool)
    requires
        0 <= vi < s.variants@.len(),
        cause_arm(s, vi, "source"@, "maybe_source"@) is Err,
    ensures
        error_spec(s, true, unstable) is Err,
        (forall|w: int| 0 <= w < vi ==> #[trigger] cause_arm(s, w, "source"@, "maybe_source"@) is Ok)
            ==> error_spec(s, true, unstable) == Err::<Option<ErrorImplSpec>, DiagSpec>(
                cause_arm(s, vi, "source"@, "maybe_source"@)->Err_0),
{
    let n = s.variants@.len();
    match cause_upto(s, "source"@, "maybe_source"@, vi as nat) {
        Err(d) => {
            lemma_cause_upto_err(s, "source"@, "maybe_source"@, vi as nat, n, d);
        },
        Ok(_) => {
            lemma_cause_upto_err(s, "source"@, "maybe_source"@, (vi + 1) as nat, n,
                cause_arm(s, vi, "source"@, "maybe_source"@)->Err_0);
        },
    }
    if forall|w: int| 0 <= w < vi ==> #[trigger] cause_arm(s, w, "source"@, "maybe_source"@) is Ok {
        lemma_cause_upto_ok_before(s, "source"@, "maybe_source"@, vi as nat);
    }
}

/// A tag written on two distinct fields of one variant cannot be resolved;
/// for the cause tags the error implementation then fails. The variant's
/// diagnostic is the duplicate-tag one for `source`, and for `maybe_source`
/// when `source` itself resolves.
pub proof fn law_duplicate_tag(s: SumType, vi: int, tag: Seq<char>, a: int, b: int, unstable: bool)
    requires
        0 <= vi < s.variants@.len(),
        0 <= a < b < s.variants@[vi].bindings@.len(),
        tag_count(s.variants@[vi].bindings@[a], tag) >= 1,
        tag_count(s.variants@[vi].bindings@[b], tag) >= 1,
    ensures
        tagged_field(s.variants@[vi], tag) is Err,
        tag == "source"@ ==> cause_arm(s, vi, tag, "maybe_source"@)
            == Err::<CauseArm, DiagSpec>(diag(two_tags_msg(tag), Loc::Variant(vi as usize))),
        tag == "maybe_source"@ && tagged_field(s.variants@[vi], "source"@) is Ok
            ==> cause_arm(s, vi, "source"@, tag)
            == Err::<CauseArm, DiagSpec>(diag(two_tags_msg(tag), Loc::Variant(vi as usize))),
        tag == "source"@ || tag == "maybe_source"@ ==> error_spec(s, true, unstable) is Err,
{
    let bs = s.variants@[vi].bindings@;
    lemma_count_includes(bs, tag, bs.len(), b);
    lemma_count_includes(bs, tag, b as nat, a);
    if tag == "source"@ || tag == "maybe_source"@ {
        lemma_cause_failure(s, vi, unstable);
    }
}

/// A variant that tags one field `source` and one field `maybe_source`, each
/// once, fails with the mutual-exclusion diagnostic, and so does the error
/// implementation.
pub proof fn law_source_exclusive(s: SumType, vi: int, unstable: bool)
    requires
        0 <= vi < s.variants@.len(),
        tag_count_bindings(s.variants@[vi].bindings@, "source"@, s.variants@[vi].bindings@.len()) == 1,
        tag_count_bindings(s.variants@[vi].bindings@, "maybe_source"@, s.variants@[vi].bindings@.len()) == 1,
    ensures
        cause_arm(s, vi, "source"@, "maybe_source"@) == Err::<CauseArm, DiagSpec>(
            diag(both_tags_msg("source"@, "maybe_source"@), Loc::Variant(vi as usize))),
        error_spec(s, true, unstable) is Err,
{
    let bs = s.variants@[vi].bindings@;
    lemma_site_found(bs, "source"@, bs.len());
    lemma_site_found(bs, "maybe_source"@, bs.len());
    lemma_cause_failure(s, vi, unstable);
}

} // verus!
