//! Names that begin with that of Anthropic's family of models. The family shares its name with
//! the command-line program that serves it, and the installation says what that name is.

use vstd::prelude::*;
use vstd::string::StringExecFns;

verus! {

/// What begins with the name of the family: a model of it, or a word on the program.
pub open spec fn kin(family: Seq<char>, rest: Seq<char>) -> Seq<char> {
    family + rest
}

/// What begins with the name of the family.
pub fn kin_name(family: &str, rest: &str) -> (r: String)
    ensures
        r@ == kin(family@, rest@),
{
    family.to_owned().concat(rest)
}

} // verus!
