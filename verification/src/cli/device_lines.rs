//! The lines that the commands on the device registry print.

use crate::cli::device::ListRow;
use crate::ids::{date_printed, rfc3339_printed, uuid_text, Uuid};
use crate::number::{decimal, push_decimal};
use crate::sync::devices::{DeviceRecord, RecordModel};
use crate::text::{chars_of, part_at, texts};
use vstd::prelude::*;

verus! {

/// `n` spaces.
pub open spec fn spaces(n: nat) -> Seq<char> {
    Seq::new(n, |i: int| ' ')
}

/// `s` with spaces behind it, in a column of the given width.
pub open spec fn left_aligned(s: Seq<char>, width: nat) -> Seq<char> {
    if s.len() < width {
        s + spaces((width - s.len()) as nat)
    } else {
        s
    }
}

/// `s` with spaces before it, in a column of the given width.
pub open spec fn right_aligned(s: Seq<char>, width: nat) -> Seq<char> {
    if s.len() < width {
        spaces((width - s.len()) as nat) + s
    } else {
        s
    }
}

/// Appends the spaces that a text of `len` characters leaves in a column of the
/// given width.
fn push_spaces(out: &mut String, len: usize, width: usize)
    ensures
        len < width ==> final(out)@ == old(out)@ + spaces((width - len) as nat),
        len >= width ==> final(out)@ == old(out)@,
{
    let ghost before = out@;
    let mut filled: usize = len;
    while filled < width
        invariant
            len <= filled,
            len < width ==> filled <= width,
            len >= width ==> filled == len,
            out@ == before + spaces((filled - len) as nat),
        decreases width - filled,
    {
        let ghost line = out@;
        out.push(' ');
        filled += 1;
        proof {
            assert(line.push(' ') =~= before + spaces((filled - len) as nat));
        }
    }
    proof {
        if len >= width {
            assert(out@ =~= before);
        }
    }
}

/// Appends a text in a column of the given width.
fn push_left(out: &mut String, s: &str, width: usize)
    ensures
        final(out)@ == old(out)@ + left_aligned(s@, width as nat),
{
    let ghost before = out@;
    let cs = chars_of(s);
    out.append(s);
    push_spaces(out, cs.len(), width);
    proof {
        assert(out@ =~= before + left_aligned(s@, width as nat));
    }
}

/// Appends a text in a column of the given width, at its right.
fn push_right(out: &mut String, s: &str, width: usize)
    ensures
        final(out)@ == old(out)@ + right_aligned(s@, width as nat),
{
    let ghost before = out@;
    let cs = chars_of(s);
    push_spaces(out, cs.len(), width);
    out.append(s);
    proof {
        assert(out@ =~= before + right_aligned(s@, width as nat));
    }
}

/// The cells of a line in the table of all devices, under each other in
/// columns.
pub open spec fn table_line(
    mark: Seq<char>,
    number: Seq<char>,
    id: Seq<char>,
    name: Seq<char>,
    app: Seq<char>,
    platform: Seq<char>,
    updated_at: Seq<char>,
) -> Seq<char> {
    mark + right_aligned(number, 2) + "  "@ + left_aligned(id, 36) + "  "@ + left_aligned(name, 20)
        + "  "@ + left_aligned(app, 24) + "  "@ + left_aligned(platform, 8) + "  "@ + updated_at
}

/// The line of a table with the given cells.
fn columns(
    mark: &str,
    number: &str,
    id: &str,
    name: &str,
    app: &str,
    platform: &str,
    updated_at: &str,
) -> (r: String)
    ensures
        r@ == table_line(mark@, number@, id@, name@, app@, platform@, updated_at@),
{
    let mut r = mark.to_owned();
    push_right(&mut r, number, 2);
    r.append("  ");
    push_left(&mut r, id, 36);
    r.append("  ");
    push_left(&mut r, name, 20);
    r.append("  ");
    push_left(&mut r, app, 24);
    r.append("  ");
    push_left(&mut r, platform, 8);
    r.append("  ");
    r.append(updated_at);
    r
}

/// The line of a device in the table, with the given time of its last change.
pub open spec fn row_text(row: ListRow, updated_at: Seq<char>) -> Seq<char> {
    table_line(
        if row.is_self {
            "*"@
        } else {
            " "@
        },
        decimal(row.number as nat),
        row.id@,
        row.name@,
        row.app@,
        row.platform@,
        updated_at,
    )
}

/// The line of a device in the table, with the given time of its last change.
/// The present device is marked.
pub fn row_line(row: &ListRow, updated_at: &str) -> (r: String)
    ensures
        r@ == row_text(*row, updated_at@),
{
    let mut number = String::new();
    push_decimal(&mut number, row.number as u64);
    proof {
        assert(number@ =~= decimal(row.number as nat));
    }
    let mark = if row.is_self {
        "*"
    } else {
        " "
    };
    columns(mark, &number, &row.id, &row.name, &row.app, &row.platform, updated_at)
}

/// The time of the last change of a row.
pub open spec fn change_of(row: ListRow) -> Option<Seq<char>> {
    date_printed(row.updated_at.secs, row.updated_at.nanos)
}

/// The lines of the table of all devices.
pub open spec fn table(rows: Seq<ListRow>) -> Seq<Seq<char>> {
    if rows.len() == 0 {
        seq!["(no devices registered)"@]
    } else {
        seq![table_line(" "@, "#"@, "id"@, "name"@, "app"@, "platform"@, "updated_at"@)]
            + rows.map_values(|row: ListRow| row_text(row, change_of(row)->0))
    }
}

/// The table of all devices: a line with the headings of the columns and a line
/// for each device, or one line that says that there is none. There is no table
/// if the last change of a device lies outside of the calendar.
pub fn table_lines(rows: &Vec<ListRow>) -> (r: Option<Vec<String>>)
    ensures
        r is Some <==> forall|i: int| 0 <= i < rows@.len() ==> change_of(#[trigger] rows@[i]) is Some,
        r is Some ==> texts(r->0@) == table(rows@),
{
    let mut r: Vec<String> = Vec::new();
    if rows.len() == 0 {
        r.push("(no devices registered)".to_owned());
        proof {
            assert(texts(r@) =~= table(rows@));
        }
        return Some(r);
    }
    r.push(columns(" ", "#", "id", "name", "app", "platform", "updated_at"));
    let ghost all = table(rows@);
    proof {
        assert(texts(r@) =~= all.take(1));
    }
    let mut i: usize = 0;
    while i < rows.len()
        invariant
            i <= rows@.len(),
            rows@.len() > 0,
            all == table(rows@),
            texts(r@) == all.take(i + 1),
            forall|k: int| 0 <= k < i ==> change_of(#[trigger] rows@[k]) is Some,
        decreases rows@.len() - i,
    {
        let row = &rows[i];
        match row.updated_at.to_date_text() {
            Some(updated_at) => {
                let ghost before = r@;
                let line = row_line(row, &updated_at);
                r.push(line);
                proof {
                    assert(texts(r@) =~= texts(before).push(line@));
                    assert(all.take(i + 2) =~= all.take(i + 1).push(all[i + 1]));
                }
            },
            None => {
                proof {
                    assert(change_of(rows@[i as int]) is None);
                }
                return None;
            },
        }
        i += 1;
    }
    proof {
        assert(all.take(i + 1) =~= all);
    }
    Some(r)
}

/// The lines about one device, with the given times of its registration and of
/// its last change.
pub open spec fn record_texts(
    record: RecordModel,
    number: nat,
    is_self: bool,
    registered_at: Seq<char>,
    updated_at: Seq<char>,
) -> Seq<Seq<char>> {
    let lines = seq![
        "device number:  "@ + decimal(number),
        "id:             "@ + uuid_text(record.id@),
        "name:           "@ + record.name,
        "hostname:       "@ + record.host.hostname,
        "app:            "@ + record.host.app_id + " "@ + record.host.app_version,
        "platform:       "@ + record.host.platform + " / "@ + record.host.arch,
        "registered_at:  "@ + registered_at,
        "updated_at:     "@ + updated_at,
    ];
    if is_self {
        lines.push("(this device)"@)
    } else {
        lines
    }
}

/// A text with a heading before it.
fn headed(heading: &str, text: &str) -> (r: String)
    ensures
        r@ == heading@ + text@,
{
    let mut r = heading.to_owned();
    r.append(text);
    r
}

/// The lines about one device, with the given times of its registration and of
/// its last change.
pub fn dated_lines(
    record: &DeviceRecord,
    number: usize,
    is_self: bool,
    registered_at: &str,
    updated_at: &str,
) -> (r: Vec<String>)
    ensures
        texts(r@) == record_texts(record@, number as nat, is_self, registered_at@, updated_at@),
{
    let mut first = "device number:  ".to_owned();
    push_decimal(&mut first, number as u64);
    let mut app = headed("app:            ", &record.app_id);
    app.append(" ");
    app.append(&record.app_version);
    let mut platform = headed("platform:       ", &record.platform);
    platform.append(" / ");
    platform.append(&record.arch);
    let mut r: Vec<String> = Vec::new();
    r.push(first);
    r.push(headed("id:             ", &record.id.to_text()));
    r.push(headed("name:           ", &record.name));
    r.push(headed("hostname:       ", &record.hostname));
    r.push(app);
    r.push(platform);
    r.push(headed("registered_at:  ", registered_at));
    r.push(headed("updated_at:     ", updated_at));
    if is_self {
        r.push("(this device)".to_owned());
    }
    proof {
        assert(texts(r@) =~= record_texts(
            record@,
            number as nat,
            is_self,
            registered_at@,
            updated_at@,
        ));
    }
    r
}

/// The lines about one device. There are none if its registration or its last
/// change lies outside of the calendar.
pub fn show_lines(record: &DeviceRecord, number: usize, is_self: bool) -> (r: Option<Vec<String>>)
    ensures
        ({
            let registered_at = rfc3339_printed(
                record@.registered_at.secs,
                record@.registered_at.nanos,
            );
            let updated_at = rfc3339_printed(record@.updated_at.secs, record@.updated_at.nanos);
            &&& r is Some <==> registered_at is Some && updated_at is Some
            &&& r is Some ==> texts(r->0@) == record_texts(
                record@,
                number as nat,
                is_self,
                registered_at->0,
                updated_at->0,
            )
        }),
{
    match (record.registered_at.to_rfc3339(), record.updated_at.to_rfc3339()) {
        (Some(registered_at), Some(updated_at)) => Some(
            dated_lines(record, number, is_self, &registered_at, &updated_at),
        ),
        _ => None,
    }
}

/// What is said of the present device after it was renamed.
pub fn renamed_lines(name: &str, self_id: Option<Uuid>) -> (r: Vec<String>)
    ensures
        texts(r@) == seq![
            match self_id {
                Some(id) => "device name updated to '"@ + name@ + "' (id: "@ + uuid_text(id@) + ")"@,
                None => "device name updated to '"@ + name@ + "'"@,
            },
            "next `sync` will commit and push this change"@,
        ],
{
    let mut first = headed("device name updated to '", name);
    match self_id {
        Some(id) => {
            first.append("' (id: ");
            first.append(&id.to_text());
            first.append(")");
        },
        None => {
            first.append("'");
        },
    }
    let mut r: Vec<String> = Vec::new();
    r.push(first);
    r.push("next `sync` will commit and push this change".to_owned());
    proof {
        assert(texts(r@) =~= seq![
            match self_id {
                Some(id) => "device name updated to '"@ + name@ + "' (id: "@ + uuid_text(id@) + ")"@,
                None => "device name updated to '"@ + name@ + "'"@,
            },
            "next `sync` will commit and push this change"@,
        ]);
    }
    r
}

/// A text in a column takes at least the width of the column; what it leaves is
/// filled with spaces, behind it or before it.
pub proof fn columns_are_filled_with_spaces(s: Seq<char>, width: nat)
    ensures
        ({
            let left = left_aligned(s, width);
            let right = right_aligned(s, width);
            let wide = if s.len() < width {
                width
            } else {
                s.len()
            };
            &&& left.len() == wide && right.len() == wide
            &&& left.take(s.len() as int) == s
            &&& right.skip(wide - s.len()) == s
            &&& forall|i: int| s.len() <= i < left.len() ==> #[trigger] left[i] == ' '
            &&& forall|i: int| 0 <= i < wide - s.len() ==> #[trigger] right[i] == ' '
        }),
{
    let wide = if s.len() < width {
        width
    } else {
        s.len()
    };
    assert(left_aligned(s, width).take(s.len() as int) =~= s);
    assert(right_aligned(s, width).skip(wide - s.len()) =~= s);
}

/// The table has a line with the headings and one for each device, in their
/// order, in which an asterisk marks the present device; an empty one says so.
pub proof fn tables_have_a_line_for_each_device(rows: Seq<ListRow>, i: int)
    requires
        0 <= i < rows.len(),
    ensures
        table(rows).len() == rows.len() + 1,
        table(rows)[i + 1].len() > 0,
        table(rows)[i + 1][0] == (if rows[i].is_self {
            '*'
        } else {
            ' '
        }),
        rows[i].number < 100 ==> table(rows)[i + 1].skip(5).take(rows[i].id@.len() as int)
            == rows[i].id@,
        table(Seq::empty()) == seq!["(no devices registered)"@],
{
    reveal_strlit("*");
    reveal_strlit(" ");
    reveal_strlit("  ");
    let row = rows[i];
    let line = table(rows)[i + 1];
    assert(line == row_text(row, change_of(row)->0));
    let mark = if row.is_self {
        "*"@
    } else {
        " "@
    };
    let number = decimal(row.number as nat);
    columns_are_filled_with_spaces(number, 2);
    columns_are_filled_with_spaces(row.id@, 36);
    assert(line[0] == mark[0]);
    if row.number < 100 {
        reveal_with_fuel(decimal, 3);
        assert(number.len() <= 2);
        let head = mark + right_aligned(number, 2) + "  "@;
        assert(head.len() == 5);
        let id = left_aligned(row.id@, 36);
        assert(line.skip(5).take(row.id@.len() as int) =~= id.take(row.id@.len() as int));
    }
}

/// What is shown of a device ends with a remark exactly if it is the present
/// one, and names its number, identifier and name first.
pub proof fn the_present_device_is_remarked(
    record: RecordModel,
    number: nat,
    is_self: bool,
    registered_at: Seq<char>,
    updated_at: Seq<char>,
)
    ensures
        ({
            let lines = record_texts(record, number, is_self, registered_at, updated_at);
            &&& is_self ==> lines.len() == 9 && lines.last() == "(this device)"@
            &&& !is_self ==> lines.len() == 8
            &&& lines[0] == "device number:  "@ + decimal(number)
            &&& lines[1] == "id:             "@ + uuid_text(record.id.value)
            &&& lines[2] == "name:           "@ + record.name
            &&& lines[3] == "hostname:       "@ + record.host.hostname
            &&& lines[4] == "app:            "@ + record.host.app_id + " "@
                + record.host.app_version
            &&& lines[5] == "platform:       "@ + record.host.platform + " / "@ + record.host.arch
            &&& lines[6] == "registered_at:  "@ + registered_at
            &&& lines[7] == "updated_at:     "@ + updated_at
        }),
{
}

/// The cells of a device stand under each other as far as they fit into their
/// columns, and the time of the last change comes last.
pub proof fn cells_stand_in_their_columns(row: &ListRow, updated_at: &str, line: String)
    requires
        call_ensures(row_line, (row, updated_at), line),
        row.number < 100,
        row.id@.len() <= 36,
        row.name@.len() <= 20,
        row.app@.len() <= 24,
        row.platform@.len() <= 8,
    ensures
        part_at(line@, decimal(row.number as nat), 3 - decimal(row.number as nat).len()),
        part_at(line@, row.id@, 5),
        part_at(line@, row.name@, 43),
        part_at(line@, row.app@, 65),
        part_at(line@, row.platform@, 91),
        line@.skip(101) == updated_at@,
{
    reveal_strlit("*");
    reveal_strlit(" ");
    reveal_strlit("  ");
    let number = decimal(row.number as nat);
    columns_are_filled_with_spaces(number, 2);
    columns_are_filled_with_spaces(row.id@, 36);
    columns_are_filled_with_spaces(row.name@, 20);
    columns_are_filled_with_spaces(row.app@, 24);
    columns_are_filled_with_spaces(row.platform@, 8);
    reveal_with_fuel(decimal, 3);
    assert(number.len() <= 2);
    let all = line@;
    assert(all.subrange(1, 3) =~= right_aligned(number, 2));
    assert(all.subrange(3 - number.len(), 3) =~= right_aligned(number, 2).skip(2 - number.len()));
    let id = left_aligned(row.id@, 36);
    assert(all.subrange(5, (5 + row.id@.len()) as int) =~= id.take(row.id@.len() as int));
    let name = left_aligned(row.name@, 20);
    assert(all.subrange(43, (43 + row.name@.len()) as int) =~= name.take(row.name@.len() as int));
    let app = left_aligned(row.app@, 24);
    assert(all.subrange(65, (65 + row.app@.len()) as int) =~= app.take(row.app@.len() as int));
    let platform = left_aligned(row.platform@, 8);
    assert(all.subrange(91, (91 + row.platform@.len()) as int) =~= platform.take(
        row.platform@.len() as int,
    ));
    assert(all.skip(101) =~= updated_at@);
}

/// There is a table exactly if the last change of every device has a date, and
/// its line for a device is the one that is made with that date.
pub proof fn tables_give_the_date_of_the_last_change(
    rows: &Vec<ListRow>,
    lines: Option<Vec<String>>,
    i: int,
    date: &str,
    line: String,
)
    requires
        call_ensures(table_lines, (rows,), lines),
        0 <= i < rows@.len(),
        date_printed(rows@[i].updated_at.secs, rows@[i].updated_at.nanos) == Some(date@),
        call_ensures(row_line, (&rows@[i], date), line),
    ensures
        lines is Some <==> forall|k: int|
            0 <= k < rows@.len() ==> date_printed(
                (#[trigger] rows@[k]).updated_at.secs,
                rows@[k].updated_at.nanos,
            ) is Some,
        lines is Some ==> lines->0@.len() == rows@.len() + 1 && lines->0@[i + 1]@ == line@,
{
    if lines is None {
        let k = choose|k: int| 0 <= k < rows@.len() && change_of(#[trigger] rows@[k]) is None;
        assert(date_printed(rows@[k].updated_at.secs, rows@[k].updated_at.nanos) is None);
    } else {
        assert forall|k: int| 0 <= k < rows@.len() implies date_printed(
            (#[trigger] rows@[k]).updated_at.secs,
            rows@[k].updated_at.nanos,
        ) is Some by {
            assert(change_of(rows@[k]) is Some);
        }
        let all = texts(lines->0@);
        assert(all.len() == lines->0@.len());
        assert(all[i + 1] == lines->0@[i + 1]@);
        assert(table(rows@)[i + 1] == row_text(rows@[i], change_of(rows@[i])->0));
    }
}

} // verus!
