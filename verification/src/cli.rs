//! The choices made on the command line.

use crate::text::str_eq;
use vstd::prelude::*;
use vstd::string::*;

verus! {

/// Which front end runs the session.
#[derive(Clone, Copy, Debug, PartialEq, Eq, Structural)]
pub enum Frontend {
    Egui,
    Term,
}

impl Frontend {
    /// The front end's name.
    pub fn to_string(&self) -> (r: String)
        ensures
            r@ == match self {
                Frontend::Egui => "Egui"@,
                Frontend::Term => "Term"@,
            },
    {
        match self {
            Frontend::Egui => String::from_str("Egui"),
            Frontend::Term => String::from_str("Term"),
        }
    }

    /// The front end with the given name, or the complaint
    /// `Invalid frontend`.
    pub fn from_str(s: &str) -> (r: Result<Frontend, String>)
        ensures
            s@ == "Egui"@ ==> r == Ok::<Frontend, String>(Frontend::Egui),
            s@ != "Egui"@ && s@ == "Term"@ ==> r == Ok::<Frontend, String>(Frontend::Term),
            s@ != "Egui"@ && s@ != "Term"@ ==> r is Err && r->Err_0@ == "Invalid frontend"@,
    {
        if str_eq(s, "Egui") {
            Ok(Frontend::Egui)
        } else if str_eq(s, "Term") {
            Ok(Frontend::Term)
        } else {
            Err(String::from_str("Invalid frontend"))
        }
    }
}

/// The arguments of the program.
#[derive(Debug, PartialEq, Eq)]
pub struct Args {
    /// Where the variables are kept between sessions.
    pub vars: String,
    /// Which front end to run.
    pub frontend: Frontend,
}

impl Default for Args {
    fn default() -> (r: Self)
        ensures
            r.vars@ == "minicalc-vars"@,
            r.frontend == Frontend::Egui,
    {
        Args { vars: String::from_str("minicalc-vars"), frontend: Frontend::Egui }
    }
}

} // verus!
