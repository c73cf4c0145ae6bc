use vstd::prelude::*;
use crate::attr::str_eq;
use crate::display::{arms_view, display_spec, ArmSpec, DisplayArm};
use crate::error::{error_spec, ErrorImpl, ErrorImplSpec};
use crate::model::{DiagSpec, Diagnostic, SumType};

verus! {

/// The two generators, each registered under the annotation name it owns.
#[derive(Clone, Copy, Debug, PartialEq, Eq, Structural)]
pub enum Generator {
    Display,
    Error,
}

/// What a generator produces.
pub enum Generated {
    Display(Vec<DisplayArm>),
    Error(Option<ErrorImpl>),
}

/// The generator registered under annotation name `name`.
pub open spec fn registered(name: Seq<char>) -> Option<Generator> {
    if name == "display"@ {
        Some(Generator::Display)
    } else if name == "error"@ {
        Some(Generator::Error)
    } else {
        None
    }
}

/// Looks up the generator registered under annotation name `name`.
pub fn generator_for(name: &str) -> (r: Option<Generator>)
    ensures
        r == registered(name@),
{
    if str_eq(name, "display") {
        Some(Generator::Display)
    } else if str_eq(name, "error") {
        Some(Generator::Error)
    } else {
        None
    }
}

/// Runs generator `g` on `s` under the two capability flags.
pub fn generate(g: Generator, s: &SumType, std_available: bool, unstable: bool) -> (r: Result<Generated, Diagnostic>)
    ensures
        match g {
            Generator::Display => match r {
                Ok(Generated::Display(arms)) => display_spec(*s) == Ok::<Seq<ArmSpec>, DiagSpec>(arms_view(arms@)),
                Ok(Generated::Error(_)) => false,
                Err(d) => display_spec(*s) == Err::<Seq<ArmSpec>, DiagSpec>(d@),
            },
            Generator::Error => match r {
                Ok(Generated::Error(Some(i))) => error_spec(*s, std_available, unstable)
                    == Ok::<Option<ErrorImplSpec>, DiagSpec>(Some(i@)),
                Ok(Generated::Error(None)) => error_spec(*s, std_available, unstable)
                    == Ok::<Option<ErrorImplSpec>, DiagSpec>(None),
                Ok(Generated::Display(_)) => false,
                Err(d) => error_spec(*s, std_available, unstable) == Err::<Option<ErrorImplSpec>, DiagSpec>(d@),
            },
        },
{
    match g {
        Generator::Display => match crate::display::derive(s) {
            Ok(arms) => Ok(Generated::Display(arms)),
            Err(d) => Err(d),
        },
        Generator::Error => match crate::error::derive(s, std_available, unstable) {
            Ok(i) => Ok(Generated::Error(i)),
            Err(d) => Err(d),
        },
    }
}

} // verus!
