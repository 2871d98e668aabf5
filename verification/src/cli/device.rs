//! The commands on the device registry.

use crate::ids::{uuid_read, uuid_text, Timestamp, Uuid};
use crate::number::{decimal, lemma_decimal_read, parse_usize, push_decimal, read_unsigned};
use crate::order::views;
use crate::sync::devices::{
    is_registered, lemma_position, position, DeviceRecord, DeviceRegistry, RecordModel,
};
use crate::text::{chars_of, has_suffix, part_at, string_of};
use vstd::prelude::*;

verus! {

/// A command on the registry.
#[derive(Debug, Clone)]
pub enum DeviceCommand {
    /// Show all devices.
    List,
    /// Rename the present device.
    SetName { name: String },
    /// Show one device: the one that is named by its number or identifier, or
    /// the present one.
    Show { target: Option<String> },
}

/// A device in a list of all.
#[derive(Debug, Clone)]
pub struct ListRow {
    /// It is the present device.
    pub is_self: bool,
    /// Its number.
    pub number: usize,
    pub id: String,
    /// Its name, shortened.
    pub name: String,
    /// The program on it, with its version, shortened.
    pub app: String,
    /// Its platform, shortened.
    pub platform: String,
    pub updated_at: Timestamp,
}

/// What a command comes to.
#[derive(Debug)]
pub enum DeviceOutcome<'a> {
    /// All devices.
    Listing(Vec<ListRow>),
    /// The present device is to be renamed.
    Rename(String),
    /// One device with its number.
    Record { record: &'a DeviceRecord, number: usize, is_self: bool },
}

/// Why a command fails.
#[derive(Debug, Clone)]
pub enum DeviceError {
    /// The identifier of the present device is not known.
    NoDeviceId,
    /// The present device is not in the registry.
    NotRegistered,
    /// There is no device of this number.
    OutOfRange { number: usize, count: usize },
    /// The text is neither a number nor an identifier.
    NoTarget { arg: String, reason: String },
    /// There is no device with this identifier.
    NotFound { id: Uuid },
}

impl DeviceError {
    /// The text of the error.
    pub open spec fn text(self) -> Seq<char> {
        match self {
            DeviceError::NoDeviceId => "cannot determine this device's id"@,
            DeviceError::NotRegistered => "this device is not registered yet"@,
            DeviceError::OutOfRange { number, count } => {
                "device number "@ + decimal(number as nat) + " out of range (1..="@ + decimal(
                    count as nat,
                ) + ")"@
            },
            DeviceError::NoTarget { arg, reason } => {
                "'"@ + arg@ + "' is neither a UUID nor a device number: "@ + reason@
            },
            DeviceError::NotFound { id } => {
                "no device with id "@ + uuid_text(id@) + " in registry"@
            },
        }
    }

    /// The text of the error.
    pub fn message(&self) -> (r: String)
        ensures
            r@ == self.text(),
    {
        match self {
            DeviceError::NoDeviceId => "cannot determine this device's id".to_owned(),
            DeviceError::NotRegistered => "this device is not registered yet".to_owned(),
            DeviceError::OutOfRange { number, count } => {
                let mut r = "device number ".to_owned();
                push_decimal(&mut r, *number as u64);
                r.append(" out of range (1..=");
                push_decimal(&mut r, *count as u64);
                r.append(")");
                r
            },
            DeviceError::NoTarget { arg, reason } => {
                let mut r = "'".to_owned();
                r.append(arg);
                r.append("' is neither a UUID nor a device number: ");
                r.append(reason);
                r
            },
            DeviceError::NotFound { id } => {
                let mut r = "no device with id ".to_owned();
                r.append(&id.to_text());
                r.append(" in registry");
                r
            },
        }
    }
}

/// `s` in at most `max` characters; where it is longer, an ellipsis stands for
/// its end.
pub open spec fn shortened(s: Seq<char>, max: nat) -> Seq<char> {
    if s.len() <= max {
        s
    } else {
        let kept = if max > 0 {
            max - 1
        } else {
            0
        };
        s.take(kept).push('\u{2026}')
    }
}

/// Shortens a text to at most `max` characters.
pub fn truncate(s: &str, max: usize) -> (r: String)
    ensures
        r@ == shortened(s@, max as nat),
        max > 0 ==> r@.len() <= max,
{
    let cs = chars_of(s);
    if cs.len() <= max {
        return s.to_owned();
    }
    let kept: usize = if max > 0 {
        max - 1
    } else {
        0
    };
    let mut r = string_of(&cs, 0, kept);
    proof {
        assert(s@.subrange(0, kept as int) =~= s@.take(kept as int));
    }
    r.push('\u{2026}');
    r
}

/// The row of a device in a list.
pub open spec fn row_of(record: RecordModel, number: int, self_id: Option<Uuid>, row: ListRow) -> bool {
    &&& row.is_self == (self_id == Some(record.id))
    &&& row.number == number
    &&& row.id@ == uuid_text(record.id@)
    &&& row.name@ == shortened(record.name, 20)
    &&& row.app@ == shortened(record.host.app_id + " "@ + record.host.app_version, 24)
    &&& row.platform@ == shortened(record.host.platform, 8)
    &&& row.updated_at == record.updated_at
}

/// A list of all devices.
pub fn list_rows(registry: &DeviceRegistry, self_id: Option<Uuid>) -> (r: Vec<ListRow>)
    ensures
        r@.len() == registry.list().len(),
        forall|i: int|
            0 <= i < r@.len() ==> row_of(registry.list()[i], i + 1, self_id, #[trigger] r@[i]),
{
    let records = registry.records();
    let mut r: Vec<ListRow> = Vec::new();
    let mut i: usize = 0;
    while i < records.len()
        invariant
            i <= records@.len(),
            views(records@) == registry.list(),
            r@.len() == i,
            forall|k: int|
                0 <= k < i ==> row_of(registry.list()[k], k + 1, self_id, #[trigger] r@[k]),
        decreases records@.len() - i,
    {
        let record = &records[i];
        proof {
            assert(registry.list()[i as int] == record@);
        }
        let mut app = record.app_id.clone();
        app.append(" ");
        app.append(&record.app_version);
        let is_self = match self_id {
            Some(id) => id == record.id,
            None => false,
        };
        r.push(
            ListRow {
                is_self,
                number: i + 1,
                id: record.id.to_text(),
                name: truncate(&record.name, 20),
                app: truncate(&app, 24),
                platform: truncate(&record.platform, 8),
                updated_at: record.updated_at,
            },
        );
        i += 1;
    }
    r
}

/// The text names the device of the given number: it is that number, or the
/// identifier of that device.
pub open spec fn names_device(records: Seq<RecordModel>, arg: Seq<char>, number: int) -> bool {
    &&& 1 <= number <= records.len()
    &&& match read_unsigned(arg, usize::MAX as nat) {
        Some(n) => n == number,
        None => uuid_read(arg) is Ok && number == position(
            records,
            Uuid { value: uuid_read(arg)->Ok_0 },
        ) + 1,
    }
}

/// The text names no device, and `e` says why.
pub open spec fn names_none(records: Seq<RecordModel>, arg: Seq<char>, e: DeviceError) -> bool {
    match read_unsigned(arg, usize::MAX as nat) {
        Some(n) => !(1 <= n <= records.len()) && (e matches DeviceError::OutOfRange {
            number,
            count,
        } && number == n && count == records.len()),
        None => match uuid_read(arg) {
            Ok(v) => !is_registered(records, Uuid { value: v }) && e == (DeviceError::NotFound {
                id: Uuid { value: v },
            }),
            Err(why) => e matches DeviceError::NoTarget { arg: a, reason } && a@ == arg && reason@
                == why,
        },
    }
}

/// The device that a text names, with its number: by its number if it is one,
/// else by its identifier.
pub fn resolve_target<'a>(registry: &'a DeviceRegistry, arg: &str) -> (r: Result<
    (&'a DeviceRecord, usize),
    DeviceError,
>)
    ensures
        match r {
            Ok(found) => names_device(registry.list(), arg@, found.1 as int) && found.0@
                == registry.list()[found.1 - 1],
            Err(e) => names_none(registry.list(), arg@, e),
        },
{
    let records = registry.records();
    proof {
        assert(views(records@).len() == records@.len());
    }
    if let Some(n) = parse_usize(arg) {
        if n == 0 || n > records.len() {
            return Err(DeviceError::OutOfRange { number: n, count: records.len() });
        }
        proof {
            assert(views(records@)[n - 1] == records@[n - 1]@);
        }
        return Ok((&records[n - 1], n));
    }
    match Uuid::parse(arg) {
        Ok(id) => {
            proof {
                lemma_position(registry.list(), id);
            }
            match registry.lookup(id) {
                Some(record) => {
                    let number = match registry.device_number(id) {
                        Some(n) => n,
                        None => 0,
                    };
                    Ok((record, number))
                },
                None => Err(DeviceError::NotFound { id }),
            }
        },
        Err(reason) => Err(DeviceError::NoTarget { arg: arg.to_owned(), reason }),
    }
}

/// The present device with its number.
pub fn present_device(registry: &DeviceRegistry, self_id: Option<Uuid>) -> (r: Result<
    (&DeviceRecord, usize),
    DeviceError,
>)
    ensures
        match self_id {
            None => r is Err && r->Err_0 == DeviceError::NoDeviceId,
            Some(id) => if is_registered(registry.list(), id) {
                &&& r is Ok
                &&& r->Ok_0.0@ == registry.list()[position(registry.list(), id)]
                &&& r->Ok_0.1 == position(registry.list(), id) + 1
            } else {
                r is Err && r->Err_0 == DeviceError::NotRegistered
            },
        },
{
    match self_id {
        None => Err(DeviceError::NoDeviceId),
        Some(id) => match registry.lookup(id) {
            Some(record) => {
                let number = match registry.device_number(id) {
                    Some(n) => n,
                    None => 0,
                };
                Ok((record, number))
            },
            None => Err(DeviceError::NotRegistered),
        },
    }
}

/// What a command on the registry comes to.
pub fn run<'a>(registry: &'a DeviceRegistry, self_id: Option<Uuid>, cmd: &DeviceCommand) -> (r:
    Result<DeviceOutcome<'a>, DeviceError>)
    ensures
        match *cmd {
            DeviceCommand::List => r matches Ok(DeviceOutcome::Listing(rows)) && rows@.len()
                == registry.list().len() && (forall|i: int|
                0 <= i < rows@.len() ==> row_of(
                    registry.list()[i],
                    i + 1,
                    self_id,
                    #[trigger] rows@[i],
                )),
            DeviceCommand::SetName { name } => r matches Ok(DeviceOutcome::Rename(n)) && n@ == name@,
            DeviceCommand::Show { target } => match r {
                Ok(outcome) => outcome matches DeviceOutcome::Record { record, number, is_self }
                    && 1 <= number <= registry.list().len() && (target is None ==> self_id is Some
                    && number == position(registry.list(), self_id->0) + 1) && is_self == (self_id
                    == Some(record@.id)) && (match target {
                    None => record@ == registry.list()[number - 1],
                    Some(arg) => names_device(registry.list(), arg@, number as int) && record@
                        == registry.list()[number - 1],
                }),
                Err(e) => match target {
                    None => match self_id {
                        None => e == DeviceError::NoDeviceId,
                        Some(id) => !is_registered(registry.list(), id) && e
                            == DeviceError::NotRegistered,
                    },
                    Some(arg) => names_none(registry.list(), arg@, e),
                },
            },
        },
{
    match cmd {
        DeviceCommand::List => Ok(DeviceOutcome::Listing(list_rows(registry, self_id))),
        DeviceCommand::SetName { name } => Ok(DeviceOutcome::Rename(name.clone())),
        DeviceCommand::Show { target } => {
            proof {
                if let Some(id) = self_id {
                    lemma_position(registry.list(), id);
                }
            }
            let found = match target {
                None => present_device(registry, self_id),
                Some(arg) => resolve_target(registry, arg),
            };
            match found {
                Ok((record, number)) => {
                    let is_self = match self_id {
                        Some(id) => id == record.id,
                        None => false,
                    };
                    Ok(DeviceOutcome::Record { record, number, is_self })
                },
                Err(e) => Err(e),
            }
        },
    }
}

/// A number names the device whose entry stands at that place, counted from
/// one; a number outside of the registry is refused with the number of devices.
pub proof fn devices_are_named_by_number(
    registry: DeviceRegistry,
    number: usize,
    arg: &str,
    found: Result<(&DeviceRecord, usize), DeviceError>,
)
    requires
        call_ensures(resolve_target, (&registry, arg), found),
        arg@ == decimal(number as nat),
    ensures
        found is Ok <==> 1 <= number <= registry.list().len(),
        found is Ok ==> found->Ok_0.1 == number && found->Ok_0.0@ == registry.list()[number - 1],
        found is Err ==> (found->Err_0 matches DeviceError::OutOfRange { number: n, count } && n
            == number && count == registry.list().len()),
{
    lemma_decimal_read(number as nat);
}

/// A text that is no number but an identifier names the device with that
/// identifier, if it is registered; any other text names none.
pub proof fn devices_are_named_by_identifier(
    registry: DeviceRegistry,
    arg: &str,
    found: Result<(&DeviceRecord, usize), DeviceError>,
)
    requires
        call_ensures(resolve_target, (&registry, arg), found),
        read_unsigned(arg@, usize::MAX as nat) is None,
    ensures
        found is Ok ==> {
            &&& uuid_read(arg@) is Ok
            &&& found->Ok_0.0@.id.value == uuid_read(arg@)->Ok_0
            &&& 1 <= found->Ok_0.1 <= registry.list().len()
            &&& registry.list()[found->Ok_0.1 - 1] == found->Ok_0.0@
        },
        found is Err && uuid_read(arg@) is Ok ==> {
            &&& found->Err_0 matches DeviceError::NotFound { id } && id.value == uuid_read(
                arg@,
            )->Ok_0
            &&& forall|i: int|
                0 <= i < registry.list().len() ==> (#[trigger] registry.list()[i]).id.value
                    != uuid_read(arg@)->Ok_0
        },
        found is Err && uuid_read(arg@) is Err ==> (found->Err_0 matches DeviceError::NoTarget {
            arg: a,
            reason,
        } && a@ == arg@ && reason@ == uuid_read(arg@)->Err_0),
{
    let list = registry.list();
    if let Ok(v) = uuid_read(arg@) {
        lemma_position(list, Uuid { value: v });
    }
}

/// Without a target the present device is shown, if its identifier is known and
/// registered.
pub proof fn the_present_device_is_shown(
    registry: DeviceRegistry,
    self_id: Option<Uuid>,
    found: Result<(&DeviceRecord, usize), DeviceError>,
)
    requires
        call_ensures(present_device, (&registry, self_id), found),
    ensures
        self_id is None ==> found is Err && found->Err_0 == DeviceError::NoDeviceId,
        found is Ok ==> self_id is Some && found->Ok_0.0@.id == self_id->0 && 1 <= found->Ok_0.1
            <= registry.list().len() && registry.list()[found->Ok_0.1 - 1] == found->Ok_0.0@,
        found is Err && self_id is Some ==> found->Err_0 == DeviceError::NotRegistered && forall|
            i: int,
        |
            0 <= i < registry.list().len() ==> (#[trigger] registry.list()[i]).id != self_id->0,
{
    if let Some(id) = self_id {
        lemma_position(registry.list(), id);
    }
}

/// A list shows every device in the order of the registry, under its number and
/// its identifier, and marks the present one and no other.
pub proof fn lists_show_every_device(
    registry: DeviceRegistry,
    self_id: Option<Uuid>,
    rows: Vec<ListRow>,
    i: int,
)
    requires
        call_ensures(list_rows, (&registry, self_id), rows),
        0 <= i < registry.list().len(),
    ensures
        ({
            let record = registry.list()[i];
            let row = rows@[i];
            &&& rows@.len() == registry.list().len()
            &&& row.number == i + 1
            &&& row.is_self <==> self_id == Some(record.id)
            &&& row.id@ == uuid_text(record.id.value)
            &&& record.name.len() <= 20 ==> row.name@ == record.name
            &&& record.host.platform.len() <= 8 ==> row.platform@ == record.host.platform
            &&& record.host.app_id.len() + 1 + record.host.app_version.len() <= 24 ==> row.app@
                == record.host.app_id + " "@ + record.host.app_version
            &&& row.name@.len() <= 20
            &&& row.platform@.len() <= 8
            &&& row.app@.len() <= 24
            &&& row.updated_at == record.updated_at
        }),
{
    reveal_strlit(" ");
    let record = registry.list()[i];
    assert(row_of(record, i + 1, self_id, rows@[i]));
    shortening_keeps_the_start(record.name, 20);
    shortening_keeps_the_start(record.host.platform, 8);
    shortening_keeps_the_start(record.host.app_id + " "@ + record.host.app_version, 24);
}

/// A text that fits is left as it is; any other is cut to the given length,
/// with an ellipsis as its last character.
pub proof fn shortening_keeps_the_start(s: Seq<char>, max: nat)
    requires
        max > 0,
    ensures
        s.len() <= max ==> shortened(s, max) == s,
        s.len() > max ==> {
            &&& shortened(s, max).len() == max
            &&& shortened(s, max).last() == '\u{2026}'
            &&& shortened(s, max).drop_last() == s.take(max - 1)
        },
{
    if s.len() > max {
        assert(shortened(s, max).drop_last() =~= s.take(max - 1));
    }
}

/// The text of an error names what the device was looked for by, and the
/// numbers that there are.
pub proof fn texts_name_what_was_asked_for(
    number: usize,
    count: usize,
    arg: String,
    reason: String,
    id: Uuid,
    out_of_range: String,
    no_target: String,
    not_found: String,
)
    requires
        call_ensures(
            DeviceError::message,
            (&DeviceError::OutOfRange { number, count },),
            out_of_range,
        ),
        call_ensures(DeviceError::message, (&DeviceError::NoTarget { arg, reason },), no_target),
        call_ensures(DeviceError::message, (&DeviceError::NotFound { id },), not_found),
    ensures
        part_at(out_of_range@, decimal(number as nat), "device number "@.len() as int),
        has_suffix(out_of_range@, "(1..="@ + decimal(count as nat) + ")"@),
        part_at(no_target@, arg@, 1) && has_suffix(no_target@, ": "@ + reason@),
        part_at(not_found@, uuid_text(id@), "no device with id "@.len() as int),
        has_suffix(not_found@, " in registry"@),
{
    reveal_strlit("device number ");
    reveal_strlit(" out of range (1..=");
    reveal_strlit("(1..=");
    reveal_strlit(")");
    reveal_strlit("'");
    reveal_strlit("' is neither a UUID nor a device number: ");
    reveal_strlit(": ");
    reveal_strlit("no device with id ");
    reveal_strlit(" in registry");
    let n = decimal(number as nat);
    let range = "(1..="@ + decimal(count as nat) + ")"@;
    let end = ": "@ + reason@;
    let name = uuid_text(id@);
    assert(out_of_range@.subrange(14, (14 + n.len()) as int) =~= n);
    assert(out_of_range@.subrange(
        out_of_range@.len() - range.len(),
        out_of_range@.len() as int,
    ) =~= range);
    assert(no_target@.subrange(1, (1 + arg@.len()) as int) =~= arg@);
    assert(no_target@.subrange(no_target@.len() - end.len(), no_target@.len() as int) =~= end);
    assert(not_found@.subrange(18, (18 + name.len()) as int) =~= name);
    assert(not_found@.subrange(not_found@.len() - 12, not_found@.len() as int)
        =~= " in registry"@);
}

} // verus!
