//! What the search server says and does.

use crate::number::{decimal, push_decimal, signed_decimal, signed_text};
use crate::text::{has_part, has_suffix, part_at};
use crate::workspace::workspace_state::DbInfo;
use vstd::prelude::*;

verus! {

/// The largest number of chunks that are embedded before a search.
pub const BACKLOG_LIMIT: u64 = 50;

/// Whether chunks that wait for their embedding are embedded before a search:
/// if there are any, but not too many.
pub fn embeds_backlog(pending: u64) -> (r: bool)
    ensures
        r == (0 < pending <= BACKLOG_LIMIT),
{
    pending > 0 && pending <= BACKLOG_LIMIT
}

/// How many results a search gives at most: as many as asked for, or ten.
pub fn search_limit(asked: Option<usize>) -> (r: usize)
    ensures
        r == (match asked {
            Some(n) => n,
            None => 10,
        }),
{
    match asked {
        Some(n) => n,
        None => 10,
    }
}

/// The description of a workspace and its database.
pub fn workspace_info(root: &str, info: &DbInfo) -> (r: String)
    ensures
        r@ == "workspace:      "@ + root@ + "\ndb path:        "@ + info.db_path.text@
            + "\nschema version: v"@ + signed_decimal(info.schema_version as int)
            + "\ndocuments:      "@ + decimal(info.document_count as nat),
{
    let mut r = "workspace:      ".to_owned();
    r.append(root);
    r.append("\ndb path:        ");
    r.append(&info.db_path.text);
    r.append("\nschema version: v");
    r.append(&signed_text(info.schema_version as i64));
    r.append("\ndocuments:      ");
    push_decimal(&mut r, info.document_count);
    r
}

/// What is said after the index was brought up to date.
pub fn workspace_synced(upserted: usize) -> (r: String)
    ensures
        r@ == "synced: "@ + decimal(upserted as nat) + " files"@,
{
    let mut r = "synced: ".to_owned();
    push_decimal(&mut r, upserted as u64);
    r.append(" files");
    r
}

/// What is said after the index was built anew.
pub fn workspace_rebuilt(upserted: usize) -> (r: String)
    ensures
        r@ == "rebuilt: "@ + decimal(upserted as nat) + " files indexed"@,
{
    let mut r = "rebuilt: ".to_owned();
    push_decimal(&mut r, upserted as u64);
    r.append(" files indexed");
    r
}

/// A search embeds what waits for its embedding if that is not too much, and
/// gives ten results where no number is asked for.
pub proof fn searches_have_limits(
    pending: u64,
    embeds: bool,
    asked: usize,
    limit: usize,
    default_limit: usize,
)
    requires
        call_ensures(embeds_backlog, (pending,), embeds),
        call_ensures(search_limit, (Some(asked),), limit),
        call_ensures(search_limit, (None,), default_limit),
    ensures
        embeds <==> 1 <= pending <= 50,
        limit == asked,
        default_limit == 10,
{
}

/// The answers of the server give the number of files, and the description
/// gives the root, the place and version of the database and the number of
/// documents, a line for each.
pub proof fn answers_give_the_numbers(
    root: &str,
    info: &DbInfo,
    upserted: usize,
    described: String,
    synced: String,
    rebuilt: String,
)
    requires
        call_ensures(workspace_info, (root, info), described),
        call_ensures(workspace_synced, (upserted,), synced),
        call_ensures(workspace_rebuilt, (upserted,), rebuilt),
    ensures
        part_at(synced@, decimal(upserted as nat), "synced: "@.len() as int),
        has_suffix(synced@, " files"@),
        part_at(rebuilt@, decimal(upserted as nat), "rebuilt: "@.len() as int),
        has_suffix(rebuilt@, " files indexed"@),
        part_at(described@, root@ + "\n"@, 16),
        has_part(described@, "\ndb path:        "@ + info.db_path.text@ + "\n"@),
        has_part(
            described@,
            "\nschema version: v"@ + signed_decimal(info.schema_version as int) + "\n"@,
        ),
        has_suffix(described@, "\ndocuments:      "@ + decimal(info.document_count as nat)),
{
    let n = decimal(upserted as nat);
    reveal_strlit("synced: ");
    reveal_strlit(" files");
    reveal_strlit("rebuilt: ");
    reveal_strlit(" files indexed");
    reveal_strlit("workspace:      ");
    reveal_strlit("\n");
    reveal_strlit("\ndb path:        ");
    reveal_strlit("\nschema version: v");
    reveal_strlit("\ndocuments:      ");
    assert(synced@.subrange(8, (8 + n.len()) as int) =~= n);
    assert(synced@.subrange(synced@.len() - 6, synced@.len() as int) =~= " files"@);
    assert(rebuilt@.subrange(9, (9 + n.len()) as int) =~= n);
    assert(rebuilt@.subrange(rebuilt@.len() - 14, rebuilt@.len() as int) =~= " files indexed"@);
    let all = described@;
    let first = root@ + "\n"@;
    let second = "\ndb path:        "@ + info.db_path.text@ + "\n"@;
    let third = "\nschema version: v"@ + signed_decimal(info.schema_version as int) + "\n"@;
    let last = "\ndocuments:      "@ + decimal(info.document_count as nat);
    let from = 16 + root@.len();
    assert(all.subrange(16, (16 + first.len()) as int) =~= first);
    assert(all.subrange(from as int, (from + second.len()) as int) =~= second);
    assert(part_at(all, second, from as int));
    let next = from + second.len() - 1;
    assert(all.subrange(next as int, (next + third.len()) as int) =~= third);
    assert(part_at(all, third, next as int));
    assert(all.subrange(all.len() - last.len(), all.len() as int) =~= last);
}

} // verus!
