//! Errors of the retrieval part that the library itself decides on.

use crate::number::{signed_decimal, signed_text};
use crate::text::{has_suffix, part_at, parts_can_be_cut_out};
use vstd::prelude::*;

verus! {

/// What can go wrong.
#[derive(Debug, Clone)]
pub enum Error {
    /// An embedding could not be made or read.
    Embed(String),
    /// The database was written by a version that this one does not know.
    SchemaTooNew { db_version: i32, app_version: i32 },
}

impl Error {
    /// The error is [`Error::Embed`] with the given text.
    pub open spec fn is_embed(self, text: Seq<char>) -> bool {
        self is Embed && self->Embed_0@ == text
    }

    /// The text of the error.
    pub open spec fn text(self) -> Seq<char> {
        match self {
            Error::Embed(text) => "embedding error: "@ + text@,
            Error::SchemaTooNew { db_version, app_version } => {
                "retrieve DB schema too new: DB version "@ + signed_decimal(db_version as int)
                    + ", app version "@ + signed_decimal(app_version as int)
                    + "; delete the retrieve DB file and re-sync"@
            },
        }
    }

    /// The text of the error.
    pub fn message(&self) -> (r: String)
        ensures
            r@ == self.text(),
    {
        match self {
            Error::Embed(text) => {
                let mut r = "embedding error: ".to_owned();
                r.append(text);
                r
            },
            Error::SchemaTooNew { db_version, app_version } => {
                let mut r = "retrieve DB schema too new: DB version ".to_owned();
                r.append(&signed_text(*db_version as i64));
                r.append(", app version ");
                r.append(&signed_text(*app_version as i64));
                r.append("; delete the retrieve DB file and re-sync");
                r
            },
        }
    }
}

/// The text of an error gives the reason, or both versions, that of the
/// database first.
pub proof fn texts_give_the_reason(
    reason: String,
    db_version: i32,
    app_version: i32,
    failed: String,
    too_new: String,
)
    requires
        call_ensures(Error::message, (&Error::Embed(reason),), failed),
        call_ensures(
            Error::message,
            (&Error::SchemaTooNew { db_version, app_version },),
            too_new,
        ),
    ensures
        has_suffix(failed@, reason@),
        failed@.len() - reason@.len() == "embedding error: "@.len(),
        part_at(
            too_new@,
            signed_decimal(db_version as int),
            "retrieve DB schema too new: DB version "@.len() as int,
        ),
        part_at(
            too_new@,
            signed_decimal(app_version as int),
            ("retrieve DB schema too new: DB version , app version "@.len() + signed_decimal(
                db_version as int,
            ).len()) as int,
        ),
        has_suffix(too_new@, "; delete the retrieve DB file and re-sync"@),
{
    let db = signed_decimal(db_version as int);
    let app = signed_decimal(app_version as int);
    let first = "retrieve DB schema too new: DB version "@;
    let last = "; delete the retrieve DB file and re-sync"@;
    reveal_strlit("embedding error: ");
    reveal_strlit("retrieve DB schema too new: DB version ");
    reveal_strlit(", app version ");
    reveal_strlit("retrieve DB schema too new: DB version , app version ");
    reveal_strlit("; delete the retrieve DB file and re-sync");
    parts_can_be_cut_out("embedding error: "@, reason@, Seq::empty());
    let both = first.len() + ", app version "@.len() + db.len();
    assert(too_new@.subrange(first.len() as int, (first.len() + db.len()) as int) =~= db);
    assert(too_new@.subrange(both as int, (both + app.len()) as int) =~= app);
    assert(too_new@.subrange(too_new@.len() - last.len(), too_new@.len() as int) =~= last);
}

} // verus!
