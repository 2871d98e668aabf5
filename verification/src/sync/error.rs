//! Errors of synchronisation that the library itself decides on.

use crate::ids::{uuid_text, Uuid};
use crate::number::{decimal, push_decimal};
use crate::text::{has_part, has_prefix, has_suffix, parts_can_be_cut_out};
use vstd::prelude::*;

verus! {

/// What can go wrong.
#[derive(Debug, Clone)]
pub enum Error {
    /// There is no git repository.
    NoRepository { path: String },
    /// The git repository has no files of its own.
    BareRepository,
    /// A file lies outside the repository.
    PathOutsideWorkdir { path: String, workdir: String },
    /// The remote is not known.
    RemoteNotFound { name: String },
    /// The device is not in the registry.
    DeviceNotFound { id: Uuid },
    /// A line of the registry file cannot be read.
    DeviceRecordParse { path: String, line: usize, reason: String },
    /// Anything that the back end reports.
    Backend { reason: String },
}

impl Error {
    /// The text of the error.
    pub open spec fn text(self) -> Seq<char> {
        match self {
            Error::NoRepository { path } => "no git repository found at '"@ + path@ + "'"@,
            Error::BareRepository => "git repository has no working directory (bare repo?)"@,
            Error::PathOutsideWorkdir { path, workdir } => {
                "path '"@ + path@ + "' is not inside the working directory '"@ + workdir@ + "'"@
            },
            Error::RemoteNotFound { name } => "remote '"@ + name@ + "' not found"@,
            Error::DeviceNotFound { id } => {
                "device record for id '"@ + uuid_text(id@) + "' not found in registry"@
            },
            Error::DeviceRecordParse { path, line, reason } => {
                "malformed device record at '"@ + path@ + "' line "@ + decimal(line as nat) + ": "@
                    + reason@
            },
            Error::Backend { reason } => reason@,
        }
    }

    /// The text of the error.
    pub fn message(&self) -> (r: String)
        ensures
            r@ == self.text(),
    {
        match self {
            Error::NoRepository { path } => {
                let mut r = "no git repository found at '".to_owned();
                r.append(path);
                r.append("'");
                r
            },
            Error::BareRepository => {
                "git repository has no working directory (bare repo?)".to_owned()
            },
            Error::PathOutsideWorkdir { path, workdir } => {
                let mut r = "path '".to_owned();
                r.append(path);
                r.append("' is not inside the working directory '");
                r.append(workdir);
                r.append("'");
                r
            },
            Error::RemoteNotFound { name } => {
                let mut r = "remote '".to_owned();
                r.append(name);
                r.append("' not found");
                r
            },
            Error::DeviceNotFound { id } => {
                let mut r = "device record for id '".to_owned();
                r.append(&id.to_text());
                r.append("' not found in registry");
                r
            },
            Error::DeviceRecordParse { path, line, reason } => {
                let mut r = "malformed device record at '".to_owned();
                r.append(path);
                r.append("' line ");
                push_decimal(&mut r, *line as u64);
                r.append(": ");
                r.append(reason);
                r
            },
            Error::Backend { reason } => reason.clone(),
        }
    }
}

/// The text of an error names what the error is about, and what the back end
/// reports is passed on as it is.
pub proof fn texts_name_what_is_wrong(
    path: String,
    other: String,
    id: Uuid,
    line: usize,
    no_repository: String,
    outside: String,
    no_remote: String,
    no_device: String,
    unreadable: String,
    reported: String,
)
    requires
        call_ensures(Error::message, (&Error::NoRepository { path },), no_repository),
        call_ensures(
            Error::message,
            (&Error::PathOutsideWorkdir { path, workdir: other },),
            outside,
        ),
        call_ensures(Error::message, (&Error::RemoteNotFound { name: path },), no_remote),
        call_ensures(Error::message, (&Error::DeviceNotFound { id },), no_device),
        call_ensures(
            Error::message,
            (&Error::DeviceRecordParse { path, line, reason: other },),
            unreadable,
        ),
        call_ensures(Error::message, (&Error::Backend { reason: path },), reported),
    ensures
        reported@ == path@,
        has_part(no_repository@, path@) && has_prefix(no_repository@, "no git repository"@),
        has_part(outside@, path@) && has_part(outside@, other@),
        has_part(no_remote@, path@) && has_suffix(no_remote@, "not found"@),
        has_part(no_device@, uuid_text(id@)) && has_suffix(no_device@, "not found in registry"@),
        has_part(unreadable@, path@) && has_part(unreadable@, decimal(line as nat)),
        has_prefix(unreadable@, "malformed device record"@) && has_suffix(unreadable@, other@),
        no_repository@.len() - path@.len() == "no git repository found at ''"@.len(),
        outside@.len() - path@.len() - other@.len()
            == "path '' is not inside the working directory ''"@.len(),
        no_remote@.len() - path@.len() == "remote '' not found"@.len(),
        no_device@.len() - uuid_text(id@).len()
            == "device record for id '' not found in registry"@.len(),
        unreadable@.len() - path@.len() - decimal(line as nat).len() - other@.len()
            == "malformed device record at '' line : "@.len(),
{
    let id_text = uuid_text(id@);
    let number = decimal(line as nat);
    reveal_strlit("no git repository found at '");
    reveal_strlit("no git repository");
    reveal_strlit("no git repository found at ''");
    reveal_strlit("'");
    reveal_strlit("path '");
    reveal_strlit("' is not inside the working directory '");
    reveal_strlit("path '' is not inside the working directory ''");
    reveal_strlit("remote '");
    reveal_strlit("' not found");
    reveal_strlit("not found");
    reveal_strlit("remote '' not found");
    reveal_strlit("device record for id '");
    reveal_strlit("' not found in registry");
    reveal_strlit("not found in registry");
    reveal_strlit("device record for id '' not found in registry");
    reveal_strlit("malformed device record at '");
    reveal_strlit("malformed device record");
    reveal_strlit("' line ");
    reveal_strlit(": ");
    reveal_strlit("malformed device record at '' line : ");
    parts_can_be_cut_out("no git repository found at '"@, path@, "'"@);
    assert(no_repository@.subrange(0, 17) =~= "no git repository"@);
    assert(outside@ =~= "path '"@ + path@ + ("' is not inside the working directory '"@ + other@
        + "'"@));
    parts_can_be_cut_out(
        "path '"@,
        path@,
        "' is not inside the working directory '"@ + other@ + "'"@,
    );
    parts_can_be_cut_out(
        "path '"@ + path@ + "' is not inside the working directory '"@,
        other@,
        "'"@,
    );
    parts_can_be_cut_out("remote '"@, path@, "' not found"@);
    assert(no_remote@.subrange(no_remote@.len() - 9, no_remote@.len() as int) =~= "not found"@);
    parts_can_be_cut_out("device record for id '"@, id_text, "' not found in registry"@);
    assert(no_device@.subrange(no_device@.len() - 21, no_device@.len() as int)
        =~= "not found in registry"@);
    assert(unreadable@ =~= "malformed device record at '"@ + path@ + ("' line "@ + number + ": "@
        + other@));
    assert(unreadable@ =~= "malformed device record at '"@ + path@ + "' line "@ + number + (": "@
        + other@));
    parts_can_be_cut_out(
        "malformed device record at '"@,
        path@,
        "' line "@ + number + ": "@ + other@,
    );
    parts_can_be_cut_out(
        "malformed device record at '"@ + path@ + "' line "@,
        number,
        ": "@ + other@,
    );
    parts_can_be_cut_out(
        "malformed device record at '"@ + path@ + "' line "@ + number + ": "@,
        other@,
        Seq::empty(),
    );
    assert(unreadable@.subrange(0, 23) =~= "malformed device record"@);
}

} // verus!
