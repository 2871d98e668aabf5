//! Errors of the workspace that the library itself decides on.

use crate::text::{has_part, has_prefix, has_suffix, parts_can_be_cut_out};
use vstd::prelude::*;

verus! {

/// What can go wrong.
#[derive(Debug, Clone)]
pub enum Error {
    /// No directory from `start` upwards holds the marker.
    MarkerNotFound { marker: String, start: String },
    /// The directory does not hold the marker.
    MarkerDirMissing { marker: String, root: String },
}

impl Error {
    /// The text of the error.
    pub open spec fn text(self) -> Seq<char> {
        match self {
            Error::MarkerNotFound { marker, start } => {
                "no '"@ + marker@ + "' directory found in '"@ + start@ + "' or any parent"@
            },
            Error::MarkerDirMissing { marker, root } => {
                "workspace marker '"@ + marker@ + "' not found in '"@ + root@ + "'"@
            },
        }
    }

    /// The text of the error.
    pub fn message(&self) -> (r: String)
        ensures
            r@ == self.text(),
    {
        match self {
            Error::MarkerNotFound { marker, start } => {
                let mut r = "no '".to_owned();
                r.append(marker);
                r.append("' directory found in '");
                r.append(start);
                r.append("' or any parent");
                r
            },
            Error::MarkerDirMissing { marker, root } => {
                let mut r = "workspace marker '".to_owned();
                r.append(marker);
                r.append("' not found in '");
                r.append(root);
                r.append("'");
                r
            },
        }
    }
}

/// The text of an error names the marker and the directory that it was looked
/// for in, and says whether the directories above were searched as well.
pub proof fn texts_name_the_marker(marker: String, dir: String, above: String, here: String)
    requires
        call_ensures(
            Error::message,
            (&Error::MarkerNotFound { marker, start: dir },),
            above,
        ),
        call_ensures(
            Error::message,
            (&Error::MarkerDirMissing { marker, root: dir },),
            here,
        ),
    ensures
        has_part(above@, marker@) && has_part(above@, dir@),
        has_part(here@, marker@) && has_part(here@, dir@),
        has_suffix(above@, "' or any parent"@),
        has_prefix(here@, "workspace marker '"@),
        above@.len() - marker@.len() - dir@.len() == "no '' directory found in '' or any parent"@.len(),
        here@.len() - marker@.len() - dir@.len() == "workspace marker '' not found in ''"@.len(),
{
    reveal_strlit("no '");
    reveal_strlit("' directory found in '");
    reveal_strlit("' or any parent");
    reveal_strlit("workspace marker '");
    reveal_strlit("' not found in '");
    reveal_strlit("'");
    reveal_strlit("no '' directory found in '' or any parent");
    reveal_strlit("workspace marker '' not found in ''");
    assert(above@ =~= "no '"@ + marker@ + ("' directory found in '"@ + dir@
        + "' or any parent"@));
    assert(here@ =~= "workspace marker '"@ + marker@ + ("' not found in '"@ + dir@ + "'"@));
    assert(above@.subrange(above@.len() - 15, above@.len() as int) =~= "' or any parent"@);
    assert(here@.subrange(0, 18) =~= "workspace marker '"@);
    parts_can_be_cut_out("no '"@, marker@, "' directory found in '"@ + dir@ + "' or any parent"@);
    parts_can_be_cut_out("no '"@ + marker@ + "' directory found in '"@, dir@, "' or any parent"@);
    parts_can_be_cut_out("workspace marker '"@, marker@, "' not found in '"@ + dir@ + "'"@);
    parts_can_be_cut_out("workspace marker '"@ + marker@ + "' not found in '"@, dir@, "'"@);
}

} // verus!
