//! Uninstall policy: user data is only removed on explicit confirmation,
//! and a recursive removal never follows a link nor leaves its root. The
//! inventory of paths and the removals themselves are the application's
//! part.

use vstd::prelude::*;

verus! {

/// Message of the refusal to delete user data without confirmation.
pub open spec fn confirmation_required() -> Seq<char> {
    "confirmation explicite requise; les données sont conservées"@
}

/// The user-data roots to remove, in order: all of them once the user has
/// explicitly confirmed; without confirmation, an error and nothing removed.
pub fn delete_user_data<T>(confirmed: bool, user_data: Vec<T>) -> (r: Result<Vec<T>, String>)
    ensures
        confirmed ==> (r matches Ok(roots) && roots@ == user_data@),
        !confirmed ==> (r matches Err(e) && e@ == confirmation_required()),
{
    if !confirmed {
        return Err(String::from_str("confirmation explicite requise; les données sont conservées"));
    }
    Ok(user_data)
}

/// Whether a candidate may be removed recursively: a link is refused (its
/// target is never followed), and so is anything outside the root; both
/// refusals name the candidate.
pub fn check_removal(is_symlink: bool, inside_root: bool, display: &str) -> (r: Result<(), String>)
    ensures
        is_symlink ==> (r matches Err(e) && e@ == "suppression refusée pour le lien "@ + display@),
        !is_symlink && !inside_root ==> (r matches Err(e) && e@ == "suppression hors racine refusée: "@
            + display@),
        !is_symlink && inside_root ==> r is Ok,
{
    if is_symlink {
        let mut e = String::from_str("suppression refusée pour le lien ");
        e.append(display);
        return Err(e);
    }
    if !inside_root {
        let mut e = String::from_str("suppression hors racine refusée: ");
        e.append(display);
        return Err(e);
    }
    Ok(())
}

} // verus!
