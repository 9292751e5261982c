//! What an interactive session needs besides the evaluator: the rule for the names of
//! variables, and the help page.

use vstd::prelude::*;
use crate::text::chars_of;

verus! {

/// What `char::is_numeric` says of a character: whether Unicode classes it as a
/// number (a decimal digit, a letter-like number, or another numeric character).
pub uninterp spec fn numeric(c: char) -> bool;

/// What `char::is_alphanumeric` says of a character: whether Unicode classes it as
/// alphabetic or as a number.
pub uninterp spec fn alphanumeric(c: char) -> bool;

/// `char::is_numeric` depends on the character alone; its result has the name
/// `numeric`.
pub assume_specification[ char::is_numeric ](c: char) -> (b: bool)
    ensures
        b == numeric(c),
;

/// `char::is_alphanumeric` depends on the character alone; its result has the name
/// `alphanumeric`.
pub assume_specification[ char::is_alphanumeric ](c: char) -> (b: bool)
    ensures
        b == alphanumeric(c),
;

/// A character that may stand in the name of a variable.
pub open spec fn allowed(c: char) -> bool {
    alphanumeric(c) || c == '_'
}

/// The first character of the name that may not stand in it.
pub open spec fn first_refused(name: Seq<char>) -> Option<char>
    decreases name.len(),
{
    if name.len() == 0 {
        None
    } else if !allowed(name[0]) {
        Some(name[0])
    } else {
        first_refused(name.drop_first())
    }
}

/// Whether a text can name a variable, and if it cannot, the reason in words: it
/// starts with a number, or it holds a character that is neither alphanumeric nor `_`.
pub open spec fn verdict(name: Seq<char>) -> Result<(), Seq<char>>
    recommends
        name.len() > 0,
{
    if numeric(name[0]) {
        Err("Variables cannot start with number"@)
    } else {
        match first_refused(name) {
            Some(c) => Err(
                "Variables must be alphanumeric! '"@ + seq![c] + "' is not allowed"@,
            ),
            None => Ok(()),
        }
    }
}

/// Checks that a text can name a variable.
pub fn is_valid_var(s: &str) -> (r: Result<(), String>)
    requires
        s@.len() > 0,
    ensures
        match r {
            Ok(_) => verdict(s@) is Ok,
            Err(reason) => verdict(s@) == Err::<(), Seq<char>>(reason@),
        },
{
    let name = chars_of(s);
    if name[0].is_numeric() {
        return Err("Variables cannot start with number".to_owned());
    }
    let mut i: usize = 0;
    proof {
        assert(s@.skip(0) =~= s@);
    }
    while i < name.len()
        invariant
            i <= name.len(),
            name@ == s@,
            !numeric(s@[0]),
            s@.len() > 0,
            first_refused(s@) == first_refused(s@.skip(i as int)),
        decreases name.len() - i,
    {
        let c = name[i];
        let ghost rest = s@.skip(i as int);
        proof {
            assert(rest[0] == c);
            assert(rest.drop_first() =~= s@.skip(i + 1));
        }
        if !c.is_alphanumeric() && c != '_' {
            let mut reason = "Variables must be alphanumeric! '".to_owned();
            reason.push(c);
            reason.append("' is not allowed");
            proof {
                assert(reason@ =~= "Variables must be alphanumeric! '"@ + seq![c]
                    + "' is not allowed"@);
            }
            return Err(reason);
        }
        i += 1;
    }
    Ok(())
}

/// The help page of an interactive session.
pub const HELP_PAGE: &'static str = "help page:
    Define a variable with the let keyword eg. let hallo = 2
    Evaluate a term, space separated eg. ( 1 + hallo ) * 2
    Quit the program with command q || quit
    Print out all variables with command vars
    Print this help page";

/// The help page of an interactive session, as a string of its own.
pub fn help_string() -> (page: String)
    ensures
        page@ == HELP_PAGE@,
{
    HELP_PAGE.to_owned()
}

} // verus!
