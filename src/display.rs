use vstd::prelude::*;
use vstd::string::*;
use crate::attr::{meta_args, parse_meta_with_path, str_eq};
use crate::model::{diag, Annotation, Arg, Binding, DiagSpec, Diagnostic, Loc, SumType};
use crate::text::{decimal, index_of, parse_index, to_decimal};

verus! {

/// A reference to a field of a variant, as an author writes it.
pub enum FieldRef {
    ByIndex(usize),
    ByName(String),
}

/// One resolved argument of a formatting template.
#[derive(Clone, Copy, Debug, PartialEq, Eq, Structural)]
pub enum ArgExpr {
    /// The field at this position.
    Field(usize),
    /// The nested call at this position of the annotation, passed through as written.
    Verbatim(usize),
}

/// How one variant is formatted.
pub enum DisplayArm {
    /// Write the template of annotation `attr` with `args` substituted in order.
    Write { attr: usize, args: Vec<ArgExpr> },
    /// Format the variant's only field with its own formatting.
    Forward,
}

/// What an arm is, mathematically.
pub enum ArmSpec {
    Write { attr: usize, args: Seq<ArgExpr> },
    Forward,
}

impl DisplayArm {
    pub open spec fn view(&self) -> ArmSpec {
        match self {
            DisplayArm::Write { attr, args } => ArmSpec::Write { attr: *attr, args: args@ },
            DisplayArm::Forward => ArmSpec::Forward,
        }
    }
}

pub open spec fn arms_view(arms: Seq<DisplayArm>) -> Seq<ArmSpec> {
    arms.map_values(|a: DisplayArm| a@)
}

pub open spec fn two_display_msg() -> Seq<char> {
    "cannot have two display attributes"@
}

pub open spec fn overflow_msg() -> Seq<char> {
    "integer literal overflows usize"@
}

pub open spec fn invalid_arg_msg() -> Seq<char> {
    "invalid argument to display attribute."@
}

pub open spec fn missing_display_msg() -> Seq<char> {
    "variant with more than one field must have a display attribute."@
}

/// The message for a reference to field `index` of `ty::var`, which has `count` fields.
pub open spec fn not_exist_msg(index: nat, ty: Seq<char>, var: Seq<char>, count: nat) -> Seq<char> {
    "attempted to access field `"@ + decimal(index) + "` in `"@ + ty + "::"@ + var
        + "` which does not exist (there "@ + (if count != 1 { "are"@ } else { "is"@ }) + " "@
        + decimal(count) + " field"@ + (if count != 1 { "s"@ } else { ""@ }) + ")"@
}

/// The message for a reference to an unknown field `id` of `ty::var`.
pub open spec fn unknown_msg(id: Seq<char>, ty: Seq<char>, var: Seq<char>) -> Seq<char> {
    "attempted to access unknown field `"@ + id + "` in `"@ + ty + "::"@ + var + "`"@
}

/// A `display(template, ...)` annotation: list-shaped, headed `display`, with a
/// literal first.
pub open spec fn is_display(a: Annotation) -> bool {
    match meta_args(a, "display"@) {
        Some(args) => args.len() > 0 && (args[0] is Lit || args[0] is Int),
        None => false,
    }
}

/// Scanning the first `n` annotations: the one display annotation found, if
/// any, or the index of a second one.
pub open spec fn scan_display(attrs: Seq<Annotation>, n: nat) -> Result<Option<usize>, usize>
    decreases n,
{
    if n == 0 {
        Ok(None)
    } else {
        match scan_display(attrs, (n - 1) as nat) {
            Err(j) => Err(j),
            Ok(prev) => if is_display(attrs[n - 1]) {
                if prev is Some { Err((n - 1) as usize) } else { Ok(Some((n - 1) as usize)) }
            } else {
                Ok(prev)
            },
        }
    }
}

pub open spec fn has_name(b: Binding, id: Seq<char>) -> bool {
    match b.ident {
        Some(x) => x@ == id,
        None => false,
    }
}

/// The first of the first `n` bindings named `id`.
pub open spec fn named_index(bs: Seq<Binding>, id: Seq<char>, n: nat) -> Option<usize>
    decreases n,
{
    if n == 0 {
        None
    } else {
        match named_index(bs, id, (n - 1) as nat) {
            Some(i) => Some(i),
            None => if has_name(bs[n - 1], id) { Some((n - 1) as usize) } else { None },
        }
    }
}

/// Field `i` of variant `vi`, or the diagnostic that it does not exist.
pub open spec fn field_by_index(s: SumType, vi: int, i: nat, loc: Loc) -> Result<usize, DiagSpec> {
    let v = s.variants@[vi];
    if i < v.bindings@.len() {
        Ok(i as usize)
    } else {
        Err(diag(not_exist_msg(i, s.ident@, v.ident@, v.bindings@.len()), loc))
    }
}

/// The field named `id` of variant `vi`; failing that, field `N` when `id` is
/// `_N`; failing that, the diagnostic that it is unknown.
pub open spec fn field_by_name(s: SumType, vi: int, id: Seq<char>, loc: Loc) -> Result<usize, DiagSpec> {
    let v = s.variants@[vi];
    match named_index(v.bindings@, id, v.bindings@.len()) {
        Some(i) => Ok(i),
        None => {
            let rest = index_of(id.subrange(1, id.len() as int));
            if id.len() > 0 && id[0] == '_' && rest is Some {
                field_by_index(s, vi, rest->0 as nat, loc)
            } else {
                Err(diag(unknown_msg(id, s.ident@, v.ident@), loc))
            }
        },
    }
}

pub open spec fn field_ref_spec(s: SumType, vi: int, r: FieldRef, loc: Loc) -> Result<usize, DiagSpec> {
    match r {
        FieldRef::ByIndex(i) => field_by_index(s, vi, i as nat, loc),
        FieldRef::ByName(id) => field_by_name(s, vi, id@, loc),
    }
}

pub open spec fn as_field(r: Result<usize, DiagSpec>) -> Result<ArgExpr, DiagSpec> {
    match r {
        Ok(i) => Ok(ArgExpr::Field(i)),
        Err(d) => Err(d),
    }
}

/// Argument `k` of annotation `attr` of variant `vi`, resolved.
pub open spec fn resolve_arg(s: SumType, vi: int, attr: int, k: int, arg: Arg) -> Result<ArgExpr, DiagSpec> {
    let loc = Loc::Arg(vi as usize, attr as usize, k as usize);
    match arg {
        Arg::Int(d) => match index_of(d@) {
            Some(i) => as_field(field_by_index(s, vi, i as nat, loc)),
            None => Err(diag(overflow_msg(), loc)),
        },
        Arg::Ident(id) => as_field(field_by_name(s, vi, id@, loc)),
        Arg::List(_) => Ok(ArgExpr::Verbatim(k as usize)),
        _ => Err(diag(invalid_arg_msg(), loc)),
    }
}

/// Arguments `1 .. n` of annotation `attr` of variant `vi`, resolved in order;
/// the first failure wins.
pub open spec fn resolve_args(s: SumType, vi: int, attr: int, args: Seq<Arg>, n: nat) -> Result<Seq<ArgExpr>, DiagSpec>
    decreases n,
{
    if n <= 1 {
        Ok(Seq::empty())
    } else {
        match resolve_args(s, vi, attr, args, (n - 1) as nat) {
            Err(d) => Err(d),
            Ok(es) => match resolve_arg(s, vi, attr, n - 1, args[n - 1]) {
                Err(d) => Err(d),
                Ok(e) => Ok(es.push(e)),
            },
        }
    }
}

/// How variant `vi` is formatted, or why it cannot be.
pub open spec fn variant_display(s: SumType, vi: int) -> Result<ArmSpec, DiagSpec> {
    let v = s.variants@[vi];
    match scan_display(v.attrs@, v.attrs@.len()) {
        Err(j) => Err(diag(two_display_msg(), Loc::Attr(vi as usize, j))),
        Ok(Some(j)) => {
            let args = meta_args(v.attrs@[j as int], "display"@)->0;
            match resolve_args(s, vi, j as int, args, args.len()) {
                Err(d) => Err(d),
                Ok(es) => Ok(ArmSpec::Write { attr: j, args: es }),
            }
        },
        Ok(None) => if v.bindings@.len() == 1 {
            Ok(ArmSpec::Forward)
        } else {
            Err(diag(missing_display_msg(), Loc::Variant(vi as usize)))
        },
    }
}

/// The arms of the first `n` variants; the first failure wins.
pub open spec fn display_upto(s: SumType, n: nat) -> Result<Seq<ArmSpec>, DiagSpec>
    decreases n,
{
    if n == 0 {
        Ok(Seq::empty())
    } else {
        match display_upto(s, (n - 1) as nat) {
            Err(d) => Err(d),
            Ok(arms) => match variant_display(s, n - 1) {
                Err(d) => Err(d),
                Ok(a) => Ok(arms.push(a)),
            },
        }
    }
}

/// The formatting implementation of `s`: one arm per variant, or the first failure.
pub open spec fn display_spec(s: SumType) -> Result<Seq<ArmSpec>, DiagSpec> {
    display_upto(s, s.variants@.len())
}

fn not_exist_message(index: usize, ty: &str, var: &str, count: usize) -> (r: String)
    ensures
        r@ == not_exist_msg(index as nat, ty@, var@, count as nat),
{
    let mut r = String::from_str("attempted to access field `");
    let idx = to_decimal(index);
    r.append(idx.as_str());
    r.append("` in `");
    r.append(ty);
    r.append("::");
    r.append(var);
    r.append("` which does not exist (there ");
    if count != 1 {
        r.append("are");
    } else {
        r.append("is");
    }
    r.append(" ");
    let cnt = to_decimal(count);
    r.append(cnt.as_str());
    r.append(" field");
    if count != 1 {
        r.append("s");
    } else {
        r.append("");
    }
    r.append(")");
    assert(r@ =~= not_exist_msg(index as nat, ty@, var@, count as nat));
    r
}

fn unknown_message(id: &str, ty: &str, var: &str) -> (r: String)
    ensures
        r@ == unknown_msg(id@, ty@, var@),
{
    let mut r = String::from_str("attempted to access unknown field `");
    r.append(id);
    r.append("` in `");
    r.append(ty);
    r.append("::");
    r.append(var);
    r.append("`");
    assert(r@ =~= unknown_msg(id@, ty@, var@));
    r
}

proof fn lemma_named_index_stable(bs: Seq<Binding>, id: Seq<char>, n: nat, m: nat)
    requires
        n <= m,
        named_index(bs, id, n) is Some,
    ensures
        named_index(bs, id, m) == named_index(bs, id, n),
    decreases m - n,
{
    if n < m {
        lemma_named_index_stable(bs, id, n, (m - 1) as nat);
    }
}

fn field_at(s: &SumType, vi: usize, i: usize, loc: Loc) -> (r: Result<usize, Diagnostic>)
    requires
        vi < s.variants@.len(),
    ensures
        match r {
            Ok(f) => field_by_index(*s, vi as int, i as nat, loc) == Ok::<usize, DiagSpec>(f),
            Err(d) => field_by_index(*s, vi as int, i as nat, loc) == Err::<usize, DiagSpec>(d@),
        },
{
    let v = &s.variants[vi];
    if i < v.bindings.len() {
        Ok(i)
    } else {
        let message = not_exist_message(i, s.ident.as_str(), v.ident.as_str(), v.bindings.len());
        Err(Diagnostic { message, loc })
    }
}

/// Resolves a field reference of variant `vi`; a failure points at `loc`.
pub fn resolve_field(s: &SumType, vi: usize, r: &FieldRef, loc: Loc) -> (res: Result<usize, Diagnostic>)
    requires
        vi < s.variants@.len(),
    ensures
        match res {
            Ok(f) => field_ref_spec(*s, vi as int, *r, loc) == Ok::<usize, DiagSpec>(f),
            Err(d) => field_ref_spec(*s, vi as int, *r, loc) == Err::<usize, DiagSpec>(d@),
        },
{
    match r {
        FieldRef::ByIndex(i) => field_at(s, vi, *i, loc),
        FieldRef::ByName(id) => {
            let v = &s.variants[vi];
            let ghost bs = v.bindings@;
            let mut i: usize = 0;
            while i < v.bindings.len()
                invariant
                    vi < s.variants@.len(),
                    *v == s.variants@[vi as int],
                    field_ref_spec(*s, vi as int, *r, loc) == field_by_name(*s, vi as int, id@, loc),
                    bs == v.bindings@,
                    i <= bs.len(),
                    named_index(bs, id@, i as nat) is None,
                decreases bs.len() - i,
            {
                let named = match &v.bindings[i].ident {
                    Some(x) => str_eq(x.as_str(), id.as_str()),
                    None => false,
                };
                if named {
                    proof {
                        assert(has_name(bs[i as int], id@));
                        assert(named_index(bs, id@, (i + 1) as nat) == Some(i));
                        lemma_named_index_stable(bs, id@, (i + 1) as nat, bs.len());
                        assert(named_index(bs, id@, bs.len()) == Some(i));
                        assert(field_by_name(*s, vi as int, id@, loc) == Ok::<usize, DiagSpec>(i));
                    }
                    return Ok(i);
                }
                i = i + 1;
            }
            let n = id.as_str().unicode_len();
            if n > 0 && id.as_str().get_char(0) == '_' {
                let rest = id.as_str().substring_char(1, n);
                match parse_index(rest) {
                    Some(k) => {
                        return field_at(s, vi, k, loc);
                    },
                    None => {},
                }
            }
            let message = unknown_message(id.as_str(), s.ident.as_str(), v.ident.as_str());
            Err(Diagnostic { message, loc })
        },
    }
}

/// Finds the one display annotation of variant `vi`; a second one fails.
pub fn find_display(s: &SumType, vi: usize) -> (r: Result<Option<usize>, Diagnostic>)
    requires
        vi < s.variants@.len(),
    ensures
        ({
            let attrs = s.variants@[vi as int].attrs@;
            match r {
                Ok(found) => scan_display(attrs, attrs.len()) == Ok::<Option<usize>, usize>(found),
                Err(d) => scan_display(attrs, attrs.len()) matches Err(j)
                    && d@ == diag(two_display_msg(), Loc::Attr(vi, j)),
            }
        }),
{
    let v = &s.variants[vi];
    let mut result: Option<usize> = None;
    let mut j: usize = 0;
    while j < v.attrs.len()
        invariant
            vi < s.variants@.len(),
            *v == s.variants@[vi as int],
            j <= v.attrs@.len(),
            scan_display(v.attrs@, j as nat) == Ok::<Option<usize>, usize>(result),
        decreases v.attrs@.len() - j,
    {
        let displayed = match parse_meta_with_path(&v.attrs[j], "display") {
            Some(args) => args.len() > 0 && match &args[0] {
                Arg::Lit(_) => true,
                Arg::Int(_) => true,
                _ => false,
            },
            None => false,
        };
        assert(displayed == is_display(v.attrs@[j as int]));
        if displayed {
            if result.is_some() {
                proof {
                    lemma_scan_display_err(v.attrs@, (j + 1) as nat, v.attrs@.len(), j);
                }
                return Err(Diagnostic {
                    message: String::from_str("cannot have two display attributes"),
                    loc: Loc::Attr(vi, j),
                });
            }
            result = Some(j);
        }
        j = j + 1;
    }
    Ok(result)
}

/// Resolves argument `k` of annotation `attr` of variant `vi`.
pub fn cvt_arg(s: &SumType, vi: usize, attr: usize, k: usize, arg: &Arg) -> (r: Result<ArgExpr, Diagnostic>)
    requires
        vi < s.variants@.len(),
    ensures
        match r {
            Ok(e) => resolve_arg(*s, vi as int, attr as int, k as int, *arg) == Ok::<ArgExpr, DiagSpec>(e),
            Err(d) => resolve_arg(*s, vi as int, attr as int, k as int, *arg) == Err::<ArgExpr, DiagSpec>(d@),
        },
{
    let loc = Loc::Arg(vi, attr, k);
    let field = match arg {
        Arg::Int(digits) => match parse_index(digits.as_str()) {
            Some(i) => resolve_field(s, vi, &FieldRef::ByIndex(i), loc),
            None => {
                return Err(Diagnostic {
                    message: String::from_str("integer literal overflows usize"),
                    loc,
                });
            },
        },
        Arg::Ident(id) => {
            resolve_field(s, vi, &FieldRef::ByName(id.clone()), loc)
        },
        Arg::List(_) => {
            return Ok(ArgExpr::Verbatim(k));
        },
        _ => {
            return Err(Diagnostic {
                message: String::from_str("invalid argument to display attribute."),
                loc,
            });
        },
    };
    match field {
        Ok(i) => Ok(ArgExpr::Field(i)),
        Err(d) => Err(d),
    }
}

/// The arm that formats variant `vi`.
pub fn variant_arm(s: &SumType, vi: usize) -> (r: Result<DisplayArm, Diagnostic>)
    requires
        vi < s.variants@.len(),
    ensures
        match r {
            Ok(a) => variant_display(*s, vi as int) == Ok::<ArmSpec, DiagSpec>(a@),
            Err(d) => variant_display(*s, vi as int) == Err::<ArmSpec, DiagSpec>(d@),
        },
{
    let v = &s.variants[vi];
    match find_display(s, vi) {
        Err(d) => Err(d),
        Ok(Some(j)) => {
            let na = v.attrs.len();
            proof {
                lemma_scan_display_found(v.attrs@, na as nat, j);
            }
            let ghost scanned = scan_display(v.attrs@, v.attrs@.len());
            let args = match parse_meta_with_path(&v.attrs[j], "display") {
                Some(args) => args,
                None => vstd::pervasive::unreached(),
            };
            let ghost all = args@;
            let mut es: Vec<ArgExpr> = Vec::new();
            let mut k: usize = 1;
            while k < args.len()
                invariant
                    vi < s.variants@.len(),
                    *v == s.variants@[vi as int],
                    scanned == scan_display(v.attrs@, v.attrs@.len()),
                    scanned == Ok::<Option<usize>, usize>(Some(j)),
                    meta_args(v.attrs@[j as int], "display"@) == Some(all),
                    all == args@,
                    1 <= k <= all.len() || (k == 1 && all.len() == 0),
                    resolve_args(*s, vi as int, j as int, all, k as nat) == Ok::<Seq<ArgExpr>, DiagSpec>(es@),
                decreases all.len() - k,
            {
                match cvt_arg(s, vi, j, k, &args[k]) {
                    Ok(e) => es.push(e),
                    Err(d) => {
                        proof {
                            lemma_resolve_args_err(*s, vi as int, j as int, all, (k + 1) as nat, all.len(), d@);
                        }
                        return Err(d);
                    },
                }
                k = k + 1;
            }
            assert(resolve_args(*s, vi as int, j as int, all, all.len()) == Ok::<Seq<ArgExpr>, DiagSpec>(es@));
            Ok(DisplayArm::Write { attr: j, args: es })
        },
        Ok(None) => {
            if v.bindings.len() == 1 {
                Ok(DisplayArm::Forward)
            } else {
                Err(Diagnostic {
                    message: String::from_str("variant with more than one field must have a display attribute."),
                    loc: Loc::Variant(vi),
                })
            }
        },
    }
}

proof fn lemma_scan_display_err(attrs: Seq<Annotation>, n: nat, m: nat, j: usize)
    requires
        n <= m,
        scan_display(attrs, n) == Err::<Option<usize>, usize>(j),
    ensures
        scan_display(attrs, m) == Err::<Option<usize>, usize>(j),
    decreases m - n,
{
    if n < m {
        lemma_scan_display_err(attrs, n, (m - 1) as nat, j);
    }
}

proof fn lemma_scan_display_found(attrs: Seq<Annotation>, n: nat, j: usize)
    requires
        n <= attrs.len(),
        n <= usize::MAX,
        scan_display(attrs, n) == Ok::<Option<usize>, usize>(Some(j)),
    ensures
        j < n,
        is_display(attrs[j as int]),
    decreases n,
{
    if n > 0 {
        match scan_display(attrs, (n - 1) as nat) {
            Ok(Some(p)) => {
                lemma_scan_display_found(attrs, (n - 1) as nat, j);
            },
            _ => {},
        }
    }
}

proof fn lemma_resolve_args_err(s: SumType, vi: int, attr: int, args: Seq<Arg>, n: nat, m: nat, d: DiagSpec)
    requires
        n <= m,
        resolve_args(s, vi, attr, args, n) == Err::<Seq<ArgExpr>, DiagSpec>(d),
    ensures
        resolve_args(s, vi, attr, args, m) == Err::<Seq<ArgExpr>, DiagSpec>(d),
    decreases m - n,
{
    if n < m {
        lemma_resolve_args_err(s, vi, attr, args, n, (m - 1) as nat, d);
    }
}

proof fn lemma_display_upto_err(s: SumType, n: nat, m: nat, d: DiagSpec)
    requires
        n <= m,
        display_upto(s, n) == Err::<Seq<ArmSpec>, DiagSpec>(d),
    ensures
        display_upto(s, m) == Err::<Seq<ArmSpec>, DiagSpec>(d),
    decreases m - n,
{
    if n < m {
        lemma_display_upto_err(s, n, (m - 1) as nat, d);
    }
}

/// Builds the formatting implementation of `s`: one arm per variant, in order,
/// or the diagnostic of the first variant that cannot be formatted.
pub fn derive(s: &SumType) -> (r: Result<Vec<DisplayArm>, Diagnostic>)
    ensures
        match r {
            Ok(arms) => display_spec(*s) == Ok::<Seq<ArmSpec>, DiagSpec>(arms_view(arms@)),
            Err(d) => display_spec(*s) == Err::<Seq<ArmSpec>, DiagSpec>(d@),
        },
{
    let mut arms: Vec<DisplayArm> = Vec::new();
    let mut vi: usize = 0;
    assert(arms_view(arms@) =~= Seq::<ArmSpec>::empty());
    while vi < s.variants.len()
        invariant
            vi <= s.variants@.len(),
            display_upto(*s, vi as nat) == Ok::<Seq<ArmSpec>, DiagSpec>(arms_view(arms@)),
        decreases s.variants@.len() - vi,
    {
        match variant_arm(s, vi) {
            Ok(a) => {
                let ghost before = arms@;
                arms.push(a);
                assert(arms_view(arms@) =~= arms_view(before).push(a@));
            },
            Err(d) => {
                proof {
                    lemma_display_upto_err(*s, (vi + 1) as nat, s.variants@.len(), d@);
                }
                return Err(d);
            },
        }
        vi = vi + 1;
    }
    Ok(arms)
}

/// How many of the first `n` annotations are display annotations.
pub open spec fn display_count(attrs: Seq<Annotation>, n: nat) -> nat
    decreases n,
{
    if n == 0 {
        0
    } else {
        display_count(attrs, (n - 1) as nat) + if is_display(attrs[n - 1]) { 1nat } else { 0nat }
    }
}

/// Every argument after the template of display annotation `j` of variant `vi`
/// resolves.
pub open spec fn args_resolve(s: SumType, vi: int, j: int) -> bool {
    let args = meta_args(s.variants@[vi].attrs@[j], "display"@)->0;
    forall|k: int| 1 <= k < args.len() ==> #[trigger] resolve_arg(s, vi, j, k, args[k]) is Ok
}

/// Variant `vi` has exactly one field and no display annotation, or exactly one
/// display annotation whose arguments all resolve.
pub open spec fn formattable(s: SumType, vi: int) -> bool {
    let v = s.variants@[vi];
    let count = display_count(v.attrs@, v.attrs@.len());
    (count == 0 && v.bindings@.len() == 1) || (count == 1 && exists|j: int|
        0 <= j < v.attrs@.len() && #[trigger] is_display(v.attrs@[j]) && args_resolve(s, vi, j))
}

proof fn lemma_display_count_pos(attrs: Seq<Annotation>, n: nat, j: int)
    requires
        0 <= j < n <= attrs.len(),
        is_display(attrs[j]),
    ensures
        display_count(attrs, n) >= 1,
    decreases n,
{
    if j < n - 1 {
        lemma_display_count_pos(attrs, (n - 1) as nat, j);
    }
}

proof fn lemma_scan_by_count(attrs: Seq<Annotation>, n: nat)
    requires
        n <= attrs.len(),
    ensures
        display_count(attrs, n) == 0 ==> scan_display(attrs, n) == Ok::<Option<usize>, usize>(None),
        display_count(attrs, n) >= 2 ==> scan_display(attrs, n) is Err,
        display_count(attrs, n) == 1 ==> scan_display(attrs, n) matches Ok(Some(_)),
        forall|j: int| 0 <= j < n && display_count(attrs, n) == 1 && #[trigger] is_display(attrs[j])
            ==> scan_display(attrs, n) == Ok::<Option<usize>, usize>(Some(j as usize)),
    decreases n,
{
    if n > 0 {
        let m = (n - 1) as nat;
        lemma_scan_by_count(attrs, m);
        assert forall|j: int| 0 <= j < n && display_count(attrs, n) == 1 && #[trigger] is_display(attrs[j])
            implies scan_display(attrs, n) == Ok::<Option<usize>, usize>(Some(j as usize)) by {
            if j < m {
                lemma_display_count_pos(attrs, m, j);
            }
        }
    }
}

proof fn lemma_resolve_args_ok(s: SumType, vi: int, attr: int, args: Seq<Arg>, n: nat)
    requires
        n <= args.len(),
        forall|k: int| 1 <= k < n ==> #[trigger] resolve_arg(s, vi, attr, k, args[k]) is Ok,
    ensures
        resolve_args(s, vi, attr, args, n) is Ok,
    decreases n,
{
    if n > 1 {
        lemma_resolve_args_ok(s, vi, attr, args, (n - 1) as nat);
        assert(resolve_arg(s, vi, attr, n - 1, args[n - 1]) is Ok);
    }
}

proof fn lemma_formattable_ok(s: SumType, vi: int)
    requires
        0 <= vi < s.variants@.len(),
        formattable(s, vi),
    ensures
        variant_display(s, vi) is Ok,
{
    let v = s.variants@[vi];
    let attrs = v.attrs@;
    assert(attrs.len() == v.attrs.len());
    lemma_scan_by_count(attrs, attrs.len());
    if display_count(attrs, attrs.len()) == 1 {
        let j = choose|j: int| 0 <= j < attrs.len() && #[trigger] is_display(attrs[j]) && args_resolve(s, vi, j);
        assert(scan_display(attrs, attrs.len()) == Ok::<Option<usize>, usize>(Some(j as usize)));
        let args = meta_args(attrs[j], "display"@)->0;
        lemma_resolve_args_ok(s, vi, j, args, args.len());
    }
}

proof fn lemma_display_upto_ok(s: SumType, n: nat)
    requires
        n <= s.variants@.len(),
        forall|vi: int| 0 <= vi < n ==> #[trigger] formattable(s, vi),
    ensures
        display_upto(s, n) is Ok,
        display_upto(s, n)->Ok_0.len() == n,
    decreases n,
{
    if n > 0 {
        lemma_display_upto_ok(s, (n - 1) as nat);
        lemma_formattable_ok(s, n - 1);
    }
}

/// Where every variant has exactly one field and no display annotation, or
/// exactly one display annotation whose arguments all resolve, formatting
/// succeeds with exactly one arm per variant.
pub proof fn law_one_arm_per_variant(s: SumType)
    requires
        forall|vi: int| 0 <= vi < s.variants@.len() ==> #[trigger] formattable(s, vi),
    ensures
        display_spec(s) is Ok,
        display_spec(s)->Ok_0.len() == s.variants@.len(),
{
    lemma_display_upto_ok(s, s.variants@.len());
}

proof fn lemma_display_upto_ok_before(s: SumType, n: nat)
    requires
        n <= s.variants@.len(),
        forall|w: int| 0 <= w < n ==> #[trigger] variant_display(s, w) is Ok,
    ensures
        display_upto(s, n) is Ok,
    decreases n,
{
    if n > 0 {
        lemma_display_upto_ok_before(s, (n - 1) as nat);
        assert(variant_display(s, n - 1) is Ok);
    }
}

/// A variant that cannot be formatted makes the whole formatting fail, and its
/// diagnostic is the one reported when every earlier variant is formattable.
proof fn lemma_variant_failure(s: SumType, vi: int)
    requires
        0 <= vi < s.variants@.len(),
        variant_display(s, vi) is Err,
    ensures
        display_spec(s) is Err,
        (forall|w: int| 0 <= w < vi ==> #[trigger] variant_display(s, w) is Ok)
            ==> display_spec(s) == Err::<Seq<ArmSpec>, DiagSpec>(variant_display(s, vi)->Err_0),
{
    let n = s.variants@.len();
    match display_upto(s, vi as nat) {
        Err(d) => {
            lemma_display_upto_err(s, vi as nat, n, d);
        },
        Ok(_) => {
            lemma_display_upto_err(s, (vi + 1) as nat, n, variant_display(s, vi)->Err_0);
        },
    }
    if forall|w: int| 0 <= w < vi ==> #[trigger] variant_display(s, w) is Ok {
        lemma_display_upto_ok_before(s, vi as nat);
    }
}

/// A variant with two or more fields and no display annotation cannot be
/// formatted: formatting fails, with the missing-annotation diagnostic at that
/// variant when every earlier variant is formattable.
pub proof fn law_missing_display(s: SumType, vi: int)
    requires
        0 <= vi < s.variants@.len(),
        s.variants@[vi].bindings@.len() >= 2,
        display_count(s.variants@[vi].attrs@, s.variants@[vi].attrs@.len()) == 0,
    ensures
        variant_display(s, vi) == Err::<ArmSpec, DiagSpec>(diag(missing_display_msg(), Loc::Variant(vi as usize))),
        display_spec(s) is Err,
        (forall|w: int| 0 <= w < vi ==> #[trigger] variant_display(s, w) is Ok)
            ==> display_spec(s) == Err::<Seq<ArmSpec>, DiagSpec>(diag(missing_display_msg(), Loc::Variant(vi as usize))),
{
    let attrs = s.variants@[vi].attrs@;
    lemma_scan_by_count(attrs, attrs.len());
    lemma_variant_failure(s, vi);
}

proof fn lemma_resolve_args_arg_err(s: SumType, vi: int, attr: int, args: Seq<Arg>, k: int, n: nat)
    requires
        1 <= k < n,
        resolve_arg(s, vi, attr, k, args[k]) is Err,
    ensures
        resolve_args(s, vi, attr, args, n) is Err,
    decreases n,
{
    if k < n - 1 {
        lemma_resolve_args_arg_err(s, vi, attr, args, k, (n - 1) as nat);
    }
}

/// A template argument that is an index at or past the variant's field count
/// fails with a diagnostic that names the index, the type, the variant and
/// the field count, in singular or plural; formatting then fails.
pub proof fn law_index_out_of_range(s: SumType, vi: int, j: int, k: int, i: usize)
    requires
        0 <= vi < s.variants@.len(),
        0 <= j < s.variants@[vi].attrs@.len(),
        is_display(s.variants@[vi].attrs@[j]),
        display_count(s.variants@[vi].attrs@, s.variants@[vi].attrs@.len()) == 1,
        1 <= k < meta_args(s.variants@[vi].attrs@[j], "display"@)->0.len(),
        meta_args(s.variants@[vi].attrs@[j], "display"@)->0[k] matches Arg::Int(d) && index_of(d@) == Some(i),
        i >= s.variants@[vi].bindings@.len(),
    ensures
        resolve_arg(s, vi, j, k, meta_args(s.variants@[vi].attrs@[j], "display"@)->0[k])
            == Err::<ArgExpr, DiagSpec>(diag(
                not_exist_msg(i as nat, s.ident@, s.variants@[vi].ident@, s.variants@[vi].bindings@.len()),
                Loc::Arg(vi as usize, j as usize, k as usize),
            )),
        variant_display(s, vi) is Err,
        display_spec(s) is Err,
{
    let v = s.variants@[vi];
    let attrs = v.attrs@;
    assert(attrs.len() == v.attrs.len());
    lemma_scan_by_count(attrs, attrs.len());
    assert(scan_display(attrs, attrs.len()) == Ok::<Option<usize>, usize>(Some(j as usize)));
    let args = meta_args(attrs[j], "display"@)->0;
    lemma_resolve_args_arg_err(s, vi, j, args, k, args.len());
    lemma_variant_failure(s, vi);
}

proof fn lemma_named_index_first(bs: Seq<Binding>, id: Seq<char>, i: int, n: nat)
    requires
        0 <= i < n <= bs.len(),
        has_name(bs[i], id),
        forall|w: int| 0 <= w < i ==> !#[trigger] has_name(bs[w], id),
    ensures
        named_index(bs, id, n) == Some(i as usize),
    decreases n,
{
    if i < n - 1 {
        lemma_named_index_first(bs, id, i, (n - 1) as nat);
    } else {
        lemma_named_index_none(bs, id, i as nat);
    }
}

proof fn lemma_named_index_none(bs: Seq<Binding>, id: Seq<char>, n: nat)
    requires
        n <= bs.len(),
        forall|w: int| 0 <= w < n ==> !#[trigger] has_name(bs[w], id),
    ensures
        named_index(bs, id, n) is None,
    decreases n,
{
    if n > 0 {
        lemma_named_index_none(bs, id, (n - 1) as nat);
    }
}

/// A template argument written as a bare identifier refers to the first field
/// of that name, whatever the identifier looks like.
pub proof fn law_named_field(s: SumType, vi: int, attr: int, k: int, arg: Arg, i: int)
    requires
        0 <= vi < s.variants@.len(),
        0 <= i < s.variants@[vi].bindings@.len(),
        arg matches Arg::Ident(id) && has_name(s.variants@[vi].bindings@[i], id@),
        forall|w: int| 0 <= w < i ==> !#[trigger] has_name(s.variants@[vi].bindings@[w], arg->Ident_0@),
    ensures
        resolve_arg(s, vi, attr, k, arg) == Ok::<ArgExpr, DiagSpec>(ArgExpr::Field(i as usize)),
{
    let bs = s.variants@[vi].bindings@;
    lemma_named_index_first(bs, arg->Ident_0@, i, bs.len());
}

} // verus!
