use vstd::prelude::*;

verus! {

/// One argument inside a list-shaped annotation, as written.
pub enum Arg {
    /// An integer literal, held as its base-10 digits.
    Int(String),
    /// A path of exactly one identifier.
    Ident(String),
    /// A path of several segments, as written.
    Path(String),
    /// A nested list-shaped annotation, as written.
    List(String),
    /// Any other literal, as written (a string literal keeps its quotes).
    Lit(String),
    /// A `name = value` pair, as written.
    NameValue(String),
}

/// A declared annotation: its head path as written, and its arguments when it
/// is list-shaped (`head(arg, ...)`).
pub struct Annotation {
    pub head: String,
    pub args: Option<Vec<Arg>>,
}

/// One field of a variant; its position is its index in the variant.
pub struct Binding {
    pub ident: Option<String>,
    pub attrs: Vec<Annotation>,
}

/// One case of the sum type.
pub struct Variant {
    pub ident: String,
    pub attrs: Vec<Annotation>,
    pub bindings: Vec<Binding>,
}

/// The annotated sum type.
pub struct SumType {
    pub ident: String,
    pub variants: Vec<Variant>,
}

/// Where a diagnostic points.
#[derive(Clone, Copy, Debug, PartialEq, Eq, Structural)]
pub enum Loc {
    /// The identifier of the variant with this index.
    Variant(usize),
    /// Annotation `attr` of variant `variant`.
    Attr(usize, usize),
    /// Argument `arg` of annotation `attr` of variant `variant`.
    Arg(usize, usize, usize),
}

/// A located, author-facing failure of a generator.
pub struct Diagnostic {
    pub message: String,
    pub loc: Loc,
}

/// What a diagnostic is, mathematically.
pub struct DiagSpec {
    pub message: Seq<char>,
    pub loc: Loc,
}

impl Diagnostic {
    pub open spec fn view(&self) -> DiagSpec {
        DiagSpec { message: self.message@, loc: self.loc }
    }
}

pub open spec fn diag(message: Seq<char>, loc: Loc) -> DiagSpec {
    DiagSpec { message, loc }
}

} // verus!
