//! The registry of devices that have synchronised a workspace.
//!
//! It is kept in a file of one JSON object on a line, ordered by the
//! identifiers of the devices. These are made of the time of registration, so
//! that the position of a device in the file is a number that all devices
//! agree on.

use crate::ids::{Timestamp, Uuid};
use crate::order::{
    in_order, sorted, sorted_is_stable, sorted_keeps_order, stable_sort, tied_with, views, Ranked,
};
use crate::paths::{FsPath, PathModel};
use crate::seqs::{lemma_filter_none, lemma_filter_two};
use crate::sync::error::Error;
use crate::text::{
    is_blank, lemma_line_end_unique, lemma_trimmed_empty, line_text, lines, lines_from, same_text,
    split_lines, texts, trim,
};
use vstd::prelude::*;
use vstd::seq_lib::*;

verus! {

/// The entry of a device.
#[derive(Debug, Clone)]
pub struct DeviceRecord {
    /// Identifies the device; never changes.
    pub id: Uuid,
    /// A name for people. Starts as the host name; can be changed.
    pub name: String,
    pub hostname: String,
    /// The program that wrote the entry.
    pub app_id: String,
    pub app_version: String,
    pub platform: String,
    pub arch: String,
    /// When the device was first seen in this workspace; never changes.
    pub registered_at: Timestamp,
    /// When the name was last changed.
    pub updated_at: Timestamp,
}

/// What a device knows of itself when a program starts.
#[derive(Debug, Clone)]
pub struct DeviceDefaults {
    /// The host name, also the first name of the device.
    pub hostname: String,
    pub app_id: String,
    pub app_version: String,
    pub platform: String,
    pub arch: String,
}

/// The present device, as a running program knows it.
#[derive(Debug, Clone)]
pub struct DeviceContext {
    pub id: Uuid,
    pub name: String,
    pub hostname: String,
    pub app_id: String,
    pub app_version: String,
    pub platform: String,
    pub arch: String,
    /// When the name was last changed; nothing as long as it is not known to
    /// have been.
    pub updated_at: Option<Timestamp>,
}

/// What the running program knows of the machine and of itself.
pub struct HostModel {
    pub hostname: Seq<char>,
    pub app_id: Seq<char>,
    pub app_version: Seq<char>,
    pub platform: Seq<char>,
    pub arch: Seq<char>,
}

/// The mathematical counterpart of a [`DeviceRecord`].
pub struct RecordModel {
    pub id: Uuid,
    pub name: Seq<char>,
    pub host: HostModel,
    pub registered_at: Timestamp,
    pub updated_at: Timestamp,
}

/// The mathematical counterpart of a [`DeviceContext`].
pub struct ContextModel {
    pub id: Uuid,
    pub name: Seq<char>,
    pub host: HostModel,
    pub updated_at: Option<Timestamp>,
}

impl View for DeviceRecord {
    type V = RecordModel;

    open spec fn view(&self) -> RecordModel {
        RecordModel {
            id: self.id,
            name: self.name@,
            host: HostModel {
                hostname: self.hostname@,
                app_id: self.app_id@,
                app_version: self.app_version@,
                platform: self.platform@,
                arch: self.arch@,
            },
            registered_at: self.registered_at,
            updated_at: self.updated_at,
        }
    }
}

impl View for DeviceDefaults {
    type V = HostModel;

    open spec fn view(&self) -> HostModel {
        HostModel {
            hostname: self.hostname@,
            app_id: self.app_id@,
            app_version: self.app_version@,
            platform: self.platform@,
            arch: self.arch@,
        }
    }
}

impl View for DeviceContext {
    type V = ContextModel;

    open spec fn view(&self) -> ContextModel {
        ContextModel {
            id: self.id,
            name: self.name@,
            host: HostModel {
                hostname: self.hostname@,
                app_id: self.app_id@,
                app_version: self.app_version@,
                platform: self.platform@,
                arch: self.arch@,
            },
            updated_at: self.updated_at,
        }
    }
}

impl DeviceContext {
    /// The device `id` on a machine with the given properties. It is named
    /// after the host, and the name is not known to have been changed.
    pub fn from_defaults(id: Uuid, defaults: DeviceDefaults) -> (r: DeviceContext)
        ensures
            r@ == (ContextModel {
                id,
                name: defaults@.hostname,
                host: defaults@,
                updated_at: None,
            }),
    {
        DeviceContext {
            id,
            name: defaults.hostname.clone(),
            hostname: defaults.hostname,
            app_id: defaults.app_id,
            app_version: defaults.app_version,
            platform: defaults.platform,
            arch: defaults.arch,
            updated_at: None,
        }
    }
}

impl DeviceRecord {
    /// A copy of the entry.
    pub fn copy(&self) -> (r: DeviceRecord)
        ensures
            r@ == self@,
    {
        DeviceRecord {
            id: self.id,
            name: self.name.clone(),
            hostname: self.hostname.clone(),
            app_id: self.app_id.clone(),
            app_version: self.app_version.clone(),
            platform: self.platform.clone(),
            arch: self.arch.clone(),
            registered_at: self.registered_at,
            updated_at: self.updated_at,
        }
    }
}

/// Entries are ordered by identifier.
impl Ranked for DeviceRecord {
    open spec fn ranked(a: RecordModel) -> bool {
        true
    }

    open spec fn before(a: RecordModel, b: RecordModel) -> bool {
        a.id.value < b.id.value
    }

    proof fn order_laws(a: RecordModel, b: RecordModel, c: RecordModel) {
    }

    fn is_before(&self, other: &Self) -> (r: bool) {
        self.id.value < other.id.value
    }
}

/// The result of [`DeviceRegistry::merge_device_context`].
#[derive(Debug, Clone)]
pub struct MergeOutcome {
    /// Whether the registry changed and has to be saved.
    pub changed: bool,
    /// The entry of the device as it now stands.
    pub record: DeviceRecord,
}

/// The position of the first entry of `id`, or the number of entries.
pub open spec fn position(records: Seq<RecordModel>, id: Uuid) -> int
    decreases records.len(),
{
    if records.len() == 0 {
        0
    } else if records[0].id == id {
        0
    } else {
        1 + position(records.drop_first(), id)
    }
}

/// `id` has an entry.
pub open spec fn is_registered(records: Seq<RecordModel>, id: Uuid) -> bool {
    position(records, id) < records.len()
}

/// What [`position`] finds.
pub proof fn lemma_position(records: Seq<RecordModel>, id: Uuid)
    ensures
        0 <= position(records, id) <= records.len(),
        position(records, id) < records.len() ==> records[position(records, id)].id == id,
        forall|i: int| 0 <= i < position(records, id) ==> (#[trigger] records[i]).id != id,
    decreases records.len(),
{
    if records.len() > 0 && records[0].id != id {
        let rest = records.drop_first();
        lemma_position(rest, id);
        assert forall|i: int| 0 <= i < position(records, id) implies (#[trigger] records[i]).id != id by {
            if i > 0 {
                assert(rest[i - 1].id != id);
            }
        }
    }
}

/// The first entry of `id` is the one with no other before it.
pub proof fn lemma_position_unique(records: Seq<RecordModel>, id: Uuid, at: int)
    requires
        0 <= at <= records.len(),
        at < records.len() ==> records[at].id == id,
        forall|i: int| 0 <= i < at ==> (#[trigger] records[i]).id != id,
    ensures
        position(records, id) == at,
{
    lemma_position(records, id);
    let p = position(records, id);
    if p < at {
        assert(records[p].id != id);
    } else if at < p {
        assert(records[at].id != id);
    }
}

/// The name that the running program has for the device is newer than the one
/// in the entry.
pub open spec fn newer_name(record: RecordModel, ctx: ContextModel) -> bool {
    ctx.updated_at is Some && record.updated_at.lt(ctx.updated_at->0)
}

/// An entry brought up to date: what the running program knows of the machine
/// and itself replaces what the entry says; the name goes by the later change;
/// the time of registration stays.
pub open spec fn merged(record: RecordModel, ctx: ContextModel) -> RecordModel {
    let record = RecordModel { host: ctx.host, ..record };
    if newer_name(record, ctx) {
        RecordModel { name: ctx.name, updated_at: ctx.updated_at->0, ..record }
    } else {
        record
    }
}

/// The first entry of a device.
pub open spec fn first_record(ctx: ContextModel, now: Timestamp) -> RecordModel {
    RecordModel {
        id: ctx.id,
        name: ctx.name,
        host: ctx.host,
        registered_at: now,
        updated_at: match ctx.updated_at {
            Some(t) => t,
            None => now,
        },
    }
}

/// The entry of the present device after a merge at the time `now`.
pub open spec fn own_record(
    records: Seq<RecordModel>,
    ctx: ContextModel,
    now: Timestamp,
) -> RecordModel {
    if is_registered(records, ctx.id) {
        merged(records[position(records, ctx.id)], ctx)
    } else {
        first_record(ctx, now)
    }
}

/// The entries after a merge at the time `now`.
pub open spec fn merged_records(
    records: Seq<RecordModel>,
    ctx: ContextModel,
    now: Timestamp,
) -> Seq<RecordModel> {
    let own = own_record(records, ctx, now);
    if is_registered(records, ctx.id) {
        records.update(position(records, ctx.id), own)
    } else {
        sorted::<DeviceRecord>(records.push(own))
    }
}

/// The entries after the device `id` was renamed at the time `now`.
pub open spec fn renamed_records(
    records: Seq<RecordModel>,
    id: Uuid,
    name: Seq<char>,
    now: Timestamp,
) -> Seq<RecordModel>
    recommends
        is_registered(records, id),
{
    let at = position(records, id);
    records.update(at, RecordModel { name, updated_at: now, ..records[at] })
}

/// The entries after a possibly newer entry arrived.
pub open spec fn updated_records(records: Seq<RecordModel>, record: RecordModel) -> Seq<RecordModel> {
    if is_registered(records, record.id) {
        let at = position(records, record.id);
        if records[at].updated_at.lt(record.updated_at) {
            records.update(at, record)
        } else {
            records
        }
    } else {
        sorted::<DeviceRecord>(records.push(record))
    }
}

/// The registry of a workspace: its file and its entries.
#[derive(Debug)]
pub struct DeviceRegistry {
    path: FsPath,
    records: Vec<DeviceRecord>,
}

impl DeviceRegistry {
    /// The entries.
    pub closed spec fn list(&self) -> Seq<RecordModel> {
        views(self.records@)
    }

    /// The file.
    pub closed spec fn file(&self) -> PathModel {
        self.path@
    }

    /// The entries are ordered by identifier.
    pub open spec fn wf(&self) -> bool {
        in_order::<DeviceRecord>(self.list())
    }

    /// The position of the first entry of `id`, or the number of entries.
    fn find(&self, id: Uuid) -> (at: usize)
        ensures
            at == position(self.list(), id),
            at <= self.records@.len() == self.list().len(),
    {
        let mut at: usize = 0;
        while at < self.records.len() && self.records[at].id != id
            invariant
                at <= self.records@.len(),
                forall|i: int| 0 <= i < at ==> (#[trigger] self.list()[i]).id != id,
            decreases self.records@.len() - at,
        {
            at += 1;
        }
        proof {
            lemma_position_unique(self.list(), id, at as int);
        }
        at
    }

    /// Puts the entries in order.
    fn sort(&mut self)
        ensures
            final(self).wf(),
            final(self).list() == sorted::<DeviceRecord>(old(self).list()),
            final(self).file() == old(self).file(),
    {
        let mut records: Vec<DeviceRecord> = Vec::new();
        std::mem::swap(&mut records, &mut self.records);
        self.records = stable_sort(records);
    }

    /// The file of the registry.
    pub fn path(&self) -> (r: &FsPath)
        ensures
            r@ == self.file(),
    {
        &self.path
    }

    /// The entries, in the order of their identifiers.
    pub fn records(&self) -> (r: &Vec<DeviceRecord>)
        ensures
            views(r@) == self.list(),
    {
        &self.records
    }

    /// Brings the entry of the present device up to date, or adds it; see
    /// [`merged_records`]. New entries are dated `now`.
    pub fn merge_device_context_at(&mut self, ctx: &DeviceContext, now: Timestamp) -> (r:
        MergeOutcome)
        requires
            old(self).wf(),
        ensures
            final(self).wf(),
            final(self).file() == old(self).file(),
            final(self).list() == merged_records(old(self).list(), ctx@, now),
            r.record@ == own_record(old(self).list(), ctx@, now),
            r.changed == (final(self).list() != old(self).list()),
    {
        let ghost before = self.list();
        let at = self.find(ctx.id);
        proof {
            lemma_position(before, ctx.id);
        }
        if at < self.records.len() {
            proof {
                assert(before[at as int] == self.records@[at as int]@);
            }
            let host_changed = {
                let record = &self.records[at];
                !same_text(&record.hostname, &ctx.hostname) || !same_text(
                    &record.app_id,
                    &ctx.app_id,
                ) || !same_text(&record.app_version, &ctx.app_version) || !same_text(
                    &record.platform,
                    &ctx.platform,
                ) || !same_text(&record.arch, &ctx.arch)
            };
            let ctx_wins = match ctx.updated_at {
                Some(t) => self.records[at].updated_at.is_before(t),
                None => false,
            };
            let mut own = self.records[at].copy();
            own.hostname = ctx.hostname.clone();
            own.app_id = ctx.app_id.clone();
            own.app_version = ctx.app_version.clone();
            own.platform = ctx.platform.clone();
            own.arch = ctx.arch.clone();
            if let Some(t) = ctx.updated_at {
                if ctx_wins {
                    own.name = ctx.name.clone();
                    own.updated_at = t;
                }
            }
            let copied = own.copy();
            self.records[at] = own;
            proof {
                assert(copied@ == merged(before[at as int], ctx@));
                assert(self.list() =~= before.update(at as int, copied@));
                if host_changed || ctx_wins {
                    assert(self.list()[at as int] != before[at as int]);
                } else {
                    assert(self.list() =~= before);
                }
                assert(self.wf()) by {
                    let after = self.list();
                    assert forall|i: int, j: int| #![trigger after[i], after[j]]
                        0 <= i < j < after.len() implies !<DeviceRecord as Ranked>::before(
                        after[j],
                        after[i],
                    ) by {
                        assert(!<DeviceRecord as Ranked>::before(before[j], before[i]));
                    }
                }
            }
            MergeOutcome { changed: host_changed || ctx_wins, record: copied }
        } else {
            let own = DeviceRecord {
                id: ctx.id,
                name: ctx.name.clone(),
                hostname: ctx.hostname.clone(),
                app_id: ctx.app_id.clone(),
                app_version: ctx.app_version.clone(),
                platform: ctx.platform.clone(),
                arch: ctx.arch.clone(),
                registered_at: now,
                updated_at: match ctx.updated_at {
                    Some(t) => t,
                    None => now,
                },
            };
            let copied = own.copy();
            self.records.push(own);
            proof {
                assert(self.list() =~= before.push(copied@));
            }
            self.sort();
            proof {
                sorted_is_stable::<DeviceRecord>(before.push(copied@));
                assert(self.list().len() == before.len() + 1);
            }
            MergeOutcome { changed: true, record: copied }
        }
    }

    /// Brings the entry of the present device up to date, or adds it, at the
    /// present time.
    pub fn merge_device_context(&mut self, ctx: &DeviceContext) -> (r: MergeOutcome)
        requires
            old(self).wf(),
        ensures
            final(self).wf(),
            final(self).file() == old(self).file(),
            exists|now: Timestamp|
                now.is_date() && final(self).list() == #[trigger] merged_records(
                    old(self).list(),
                    ctx@,
                    now,
                ) && r.record@ == own_record(old(self).list(), ctx@, now),
            r.changed == (final(self).list() != old(self).list()),
    {
        let now = Timestamp::now();
        self.merge_device_context_at(ctx, now)
    }

    /// Renames the device `id` at the time `now`. Nothing else changes. Fails
    /// if the device has no entry.
    pub fn set_name_at(&mut self, id: Uuid, name: &str, now: Timestamp) -> (r: Result<(), Error>)
        requires
            old(self).wf(),
        ensures
            final(self).wf(),
            final(self).file() == old(self).file(),
            if is_registered(old(self).list(), id) {
                &&& r is Ok
                &&& final(self).list() == renamed_records(old(self).list(), id, name@, now)
            } else {
                &&& r is Err
                &&& r->Err_0 == (Error::DeviceNotFound { id })
                &&& final(self).list() == old(self).list()
            },
    {
        let ghost before = self.list();
        let at = self.find(id);
        if at < self.records.len() {
            self.records[at].name = name.to_owned();
            self.records[at].updated_at = now;
            proof {
                let after = self.list();
                assert(after =~= renamed_records(before, id, name@, now));
                assert forall|i: int, j: int| #![trigger after[i], after[j]]
                    0 <= i < j < after.len() implies !<DeviceRecord as Ranked>::before(
                    after[j],
                    after[i],
                ) by {
                    assert(!<DeviceRecord as Ranked>::before(before[j], before[i]));
                }
            }
            Ok(())
        } else {
            Err(Error::DeviceNotFound { id })
        }
    }

    /// Renames the device `id` at the present time.
    pub fn set_name(&mut self, id: Uuid, name: &str) -> (r: Result<(), Error>)
        requires
            old(self).wf(),
        ensures
            final(self).wf(),
            final(self).file() == old(self).file(),
            if is_registered(old(self).list(), id) {
                &&& r is Ok
                &&& exists|now: Timestamp|
                    now.is_date() && final(self).list() == #[trigger] renamed_records(
                        old(self).list(),
                        id,
                        name@,
                        now,
                    )
            } else {
                &&& r is Err
                &&& r->Err_0 == (Error::DeviceNotFound { id })
                &&& final(self).list() == old(self).list()
            },
    {
        let now = Timestamp::now();
        self.set_name_at(id, name, now)
    }

    /// Takes over an entry if it is new or was changed later than the present
    /// one. Says whether anything changed.
    pub fn update_if_newer(&mut self, record: DeviceRecord) -> (changed: Result<bool, Error>)
        requires
            old(self).wf(),
        ensures
            final(self).wf(),
            final(self).file() == old(self).file(),
            final(self).list() == updated_records(old(self).list(), record@),
            changed is Ok,
            changed->Ok_0 == (final(self).list() != old(self).list()),
    {
        let ghost before = self.list();
        let ghost incoming = record@;
        let at = self.find(record.id);
        proof {
            lemma_position(before, record.id);
        }
        if at < self.records.len() {
            proof {
                assert(before[at as int] == self.records@[at as int]@);
            }
            if !self.records[at].updated_at.is_before(record.updated_at) {
                return Ok(false);
            }
            self.records[at] = record;
            proof {
                let after = self.list();
                assert(after =~= before.update(at as int, incoming));
                assert(after[at as int].updated_at != before[at as int].updated_at);
                assert forall|i: int, j: int| #![trigger after[i], after[j]]
                    0 <= i < j < after.len() implies !<DeviceRecord as Ranked>::before(
                    after[j],
                    after[i],
                ) by {
                    assert(!<DeviceRecord as Ranked>::before(before[j], before[i]));
                }
            }
            return Ok(true);
        }
        self.records.push(record);
        proof {
            assert(self.list() =~= before.push(incoming));
        }
        self.sort();
        proof {
            sorted_is_stable::<DeviceRecord>(before.push(incoming));
            assert(self.list().len() == before.len() + 1);
        }
        Ok(true)
    }

    /// The entry of `id`.
    pub fn lookup(&self, id: Uuid) -> (r: Option<&DeviceRecord>)
        ensures
            match r {
                Some(record) => is_registered(self.list(), id) && record@ == self.list()[position(
                    self.list(),
                    id,
                )],
                None => !is_registered(self.list(), id),
            },
    {
        let at = self.find(id);
        if at < self.records.len() {
            Some(&self.records[at])
        } else {
            None
        }
    }

    /// The number of the device `id`: the position of its entry, counted from
    /// one.
    pub fn device_number(&self, id: Uuid) -> (r: Option<usize>)
        ensures
            match r {
                Some(n) => is_registered(self.list(), id) && n == position(self.list(), id) + 1,
                None => !is_registered(self.list(), id),
            },
    {
        let at = self.find(id);
        if at < self.records.len() {
            Some(at + 1)
        } else {
            None
        }
    }
}

/// The lines that are not blank, each with its number, counted from one.
pub open spec fn numbered_lines(all: Seq<Seq<char>>) -> Seq<(usize, Seq<char>)>
    decreases all.len(),
{
    if all.len() == 0 {
        Seq::empty()
    } else {
        let rest = numbered_lines(all.drop_last());
        if is_blank(all.last()) {
            rest
        } else {
            rest.push((all.len() as usize, all.last()))
        }
    }
}

/// The lines of a list with their numbers.
pub open spec fn line_list(v: Seq<(usize, String)>) -> Seq<(usize, Seq<char>)> {
    v.map_values(|l: (usize, String)| (l.0, l.1@))
}

/// The lines of a registry file that hold an entry, each with its number,
/// counted from one. Blank lines hold none.
pub fn record_lines(contents: &str) -> (r: Vec<(usize, String)>)
    ensures
        line_list(r@) == numbered_lines(split_lines(contents@)),
{
    let all = lines(contents);
    let ghost all_texts = texts(all@);
    let mut r: Vec<(usize, String)> = Vec::new();
    let mut i: usize = 0;
    while i < all.len()
        invariant
            i <= all@.len(),
            all_texts == texts(all@),
            line_list(r@) == numbered_lines(all_texts.take(i as int)),
        decreases all@.len() - i,
    {
        let line = &all[i];
        proof {
            assert(all_texts.take(i + 1).drop_last() =~= all_texts.take(i as int));
            assert(all_texts.take(i + 1).last() == line@);
            lemma_trimmed_empty(line@);
        }
        if !trim(line).as_str().is_empty() {
            let ghost before = r@;
            let numbered = (i + 1, line.clone());
            r.push(numbered);
            proof {
                assert(line_list(r@) =~= line_list(before).push((numbered.0, line@)));
            }
        }
        i += 1;
    }
    proof {
        assert(all_texts.take(i as int) =~= all_texts);
    }
    r
}

/// The text of a registry file: the entries one after the other, each with a
/// line break after it.
pub open spec fn file_of(entries: Seq<Seq<char>>) -> Seq<char>
    decreases entries.len(),
{
    if entries.len() == 0 {
        Seq::empty()
    } else {
        file_of(entries.drop_last()) + entries.last() + seq!['\n']
    }
}

/// The text of a registry file with the given entries.
pub fn file_text(entries: &Vec<String>) -> (r: String)
    ensures
        r@ == file_of(texts(entries@)),
{
    let ghost all = texts(entries@);
    let mut r = String::new();
    let mut i: usize = 0;
    while i < entries.len()
        invariant
            i <= entries@.len(),
            all == texts(entries@),
            r@ == file_of(all.take(i as int)),
        decreases entries@.len() - i,
    {
        let ghost before = r@;
        proof {
            assert(all.take(i + 1).drop_last() =~= all.take(i as int));
            assert(all.take(i + 1).last() == entries@[i as int]@);
        }
        r.append(&entries[i]);
        r.push('\n');
        proof {
            assert(r@ =~= before + entries@[i as int]@ + seq!['\n']);
        }
        i += 1;
    }
    proof {
        assert(all.take(i as int) =~= all);
    }
    r
}

/// The text fits on one line of a registry file: it holds no line break, does
/// not end in a carriage return and is not blank.
pub open spec fn fits_line(s: Seq<char>) -> bool {
    &&& forall|i: int| 0 <= i < s.len() ==> #[trigger] s[i] != '\n'
    &&& s.len() > 0 && s.last() != '\r'
    &&& !is_blank(s)
}

/// A line at the end of a file that ends in a line break.
proof fn lemma_last_line(before: Seq<char>, line: Seq<char>, pos: int)
    requires
        0 <= pos <= before.len(),
        before.len() == 0 || before.last() == '\n',
        fits_line(line),
    ensures
        lines_from(before + line + seq!['\n'], pos) == lines_from(before, pos).push(line),
    decreases before.len() + 1 - pos,
{
    let all = before + line + seq!['\n'];
    if pos < before.len() {
        let end = crate::text::line_end(before, pos);
        crate::text::lemma_line_end(before, pos);
        if end == before.len() {
            assert(before[before.len() - 1] != '\n');
        }
        assert forall|i: int| pos <= i < end implies #[trigger] all[i] != '\n' by {
            assert(before[i] != '\n');
        }
        lemma_line_end_unique(all, pos, end);
        assert(line_text(all, pos, end) =~= line_text(before, pos, end));
        lemma_last_line(before, line, end + 1);
        let l = seq![line_text(before, pos, end)];
        assert(l + lines_from(before, end + 1).push(line) =~= (l + lines_from(before, end + 1)).push(
            line,
        ));
    } else {
        let end: int = before.len() + line.len() as int;
        assert forall|i: int| pos <= i < end implies #[trigger] all[i] != '\n' by {
            assert(all[i] == line[i - before.len()]);
        }
        lemma_line_end_unique(all, pos, end);
        assert(all[end - 1] == line.last());
        assert(line_text(all, pos, end) =~= line);
        assert(lines_from(all, end + 1) =~= Seq::empty());
        assert(lines_from(before, pos) =~= Seq::empty());
        assert(lines_from(all, pos) =~= Seq::<Seq<char>>::empty().push(line));
    }
}

/// What was written to a registry file is read back: the same entries, in the
/// same order, numbered from one.
pub proof fn file_reads_back(entries: Seq<Seq<char>>)
    requires
        entries.len() <= usize::MAX,
        forall|i: int| 0 <= i < entries.len() ==> fits_line(#[trigger] entries[i]),
    ensures
        numbered_lines(split_lines(file_of(entries))) == Seq::new(
            entries.len(),
            |i: int| ((i + 1) as usize, entries[i]),
        ),
    decreases entries.len(),
{
    lemma_file_lines(entries);
    lemma_numbered(entries);
}

proof fn lemma_file_lines(entries: Seq<Seq<char>>)
    requires
        forall|i: int| 0 <= i < entries.len() ==> fits_line(#[trigger] entries[i]),
    ensures
        split_lines(file_of(entries)) == entries,
        entries.len() > 0 ==> file_of(entries).len() > 0 && file_of(entries).last() == '\n',
        entries.len() == 0 ==> file_of(entries).len() == 0,
    decreases entries.len(),
{
    if entries.len() > 0 {
        let rest = entries.drop_last();
        assert forall|i: int| 0 <= i < rest.len() implies fits_line(#[trigger] rest[i]) by {
            assert(rest[i] == entries[i]);
        }
        lemma_file_lines(rest);
        assert(fits_line(entries[entries.len() - 1]));
        lemma_last_line(file_of(rest), entries.last(), 0);
        assert(rest.push(entries.last()) =~= entries);
    } else {
        assert(split_lines(file_of(entries)) =~= entries);
    }
}

proof fn lemma_numbered(all: Seq<Seq<char>>)
    requires
        all.len() <= usize::MAX,
        forall|i: int| 0 <= i < all.len() ==> fits_line(#[trigger] all[i]),
    ensures
        numbered_lines(all) == Seq::new(all.len(), |i: int| ((i + 1) as usize, all[i])),
    decreases all.len(),
{
    let wanted = Seq::new(all.len(), |i: int| ((i + 1) as usize, all[i]));
    if all.len() > 0 {
        let rest = all.drop_last();
        assert forall|i: int| 0 <= i < rest.len() implies fits_line(#[trigger] rest[i]) by {
            assert(rest[i] == all[i]);
        }
        lemma_numbered(rest);
        assert(fits_line(all[all.len() - 1]));
        assert(numbered_lines(all) =~= wanted);
    } else {
        assert(numbered_lines(all) =~= wanted);
    }
}

/// The first entry that could not be read, or the number of entries.
pub open spec fn first_unreadable(entries: Seq<(usize, Result<DeviceRecord, String>)>) -> int
    decreases entries.len(),
{
    if entries.len() == 0 {
        0
    } else if entries[0].1 is Err {
        0
    } else {
        1 + first_unreadable(entries.drop_first())
    }
}

/// The entries that could be read.
pub open spec fn readable(entries: Seq<(usize, Result<DeviceRecord, String>)>) -> Seq<RecordModel> {
    entries.map_values(|e: (usize, Result<DeviceRecord, String>)| e.1->Ok_0@)
}

proof fn lemma_first_unreadable(entries: Seq<(usize, Result<DeviceRecord, String>)>, at: int)
    requires
        0 <= at <= entries.len(),
        forall|i: int| 0 <= i < at ==> (#[trigger] entries[i]).1 is Ok,
        at < entries.len() ==> entries[at].1 is Err,
    ensures
        first_unreadable(entries) == at,
    decreases at,
{
    if at > 0 {
        let rest = entries.drop_first();
        assert(entries[0].1 is Ok);
        assert forall|i: int| 0 <= i < at - 1 implies (#[trigger] rest[i]).1 is Ok by {
            assert(rest[i] == entries[i + 1]);
        }
        lemma_first_unreadable(rest, at - 1);
    }
}

impl DeviceRegistry {
    /// The registry of the file `path` with the entries that its lines hold,
    /// each with the number of its line and what came of reading it. The first
    /// line that cannot be read fails the registry. A missing file has no
    /// lines.
    pub fn load(path: FsPath, entries: Vec<(usize, Result<DeviceRecord, String>)>) -> (r: Result<
        DeviceRegistry,
        Error,
    >)
        ensures
            ({
                let bad = first_unreadable(entries@);
                if bad < entries@.len() {
                    r is Err && (r->Err_0 matches Error::DeviceRecordParse {
                        path: p,
                        line,
                        reason,
                    } && p@ == path.text@ && line == entries@[bad].0 && reason@
                        == entries@[bad].1->Err_0@)
                } else {
                    &&& r is Ok
                    &&& r->Ok_0.wf()
                    &&& r->Ok_0.file() == path@
                    &&& r->Ok_0.list() == sorted::<DeviceRecord>(readable(entries@))
                }
            }),
    {
        let mut records: Vec<DeviceRecord> = Vec::new();
        let mut i: usize = 0;
        while i < entries.len()
            invariant
                i <= entries@.len(),
                forall|k: int| 0 <= k < i ==> (#[trigger] entries@[k]).1 is Ok,
                views(records@) == readable(entries@).take(i as int),
            decreases entries@.len() - i,
        {
            match &entries[i].1 {
                Ok(record) => {
                    let ghost before = records@;
                    let copied = record.copy();
                    records.push(copied);
                    proof {
                        assert(views(records@) =~= views(before).push(copied@));
                    }
                },
                Err(reason) => {
                    proof {
                        lemma_first_unreadable(entries@, i as int);
                    }
                    return Err(
                        Error::DeviceRecordParse {
                            path: path.text,
                            line: entries[i].0,
                            reason: reason.clone(),
                        },
                    );
                },
            }
            i += 1;
        }
        let mut registry = DeviceRegistry { path, records };
        proof {
            lemma_first_unreadable(entries@, i as int);
            assert(registry.list() =~= readable(entries@));
        }
        registry.sort();
        Ok(registry)
    }
}

/// No device has two entries.
pub open spec fn unique_devices(records: Seq<RecordModel>) -> bool {
    forall|i: int, j: int|
        0 <= i < j < records.len() ==> (#[trigger] records[i]).id != (#[trigger] records[j]).id
}

proof fn lemma_sorted_contains(records: Seq<RecordModel>, x: RecordModel)
    ensures
        sorted::<DeviceRecord>(records).contains(x) <==> records.contains(x),
        sorted::<DeviceRecord>(records).len() == records.len(),
{
    broadcast use group_to_multiset_ensures;

    sorted_is_stable::<DeviceRecord>(records);
    assert(sorted::<DeviceRecord>(records).to_multiset().count(x) == records.to_multiset().count(x));
}

/// The entry that a merge leaves for the present device is the one that it
/// reports, and it is found under the identifier of the device.
pub proof fn merge_registers(records: Seq<RecordModel>, ctx: ContextModel, now: Timestamp)
    ensures
        ({
            let after = merged_records(records, ctx, now);
            &&& is_registered(after, ctx.id)
            &&& after[position(after, ctx.id)] == own_record(records, ctx, now)
        }),
{
    let after = merged_records(records, ctx, now);
    let own = own_record(records, ctx, now);
    lemma_position(records, ctx.id);
    if is_registered(records, ctx.id) {
        let at = position(records, ctx.id);
        assert forall|i: int| 0 <= i < at implies (#[trigger] after[i]).id != ctx.id by {
            assert(records[i].id != ctx.id);
        }
        lemma_position_unique(after, ctx.id, at);
    } else {
        let longer = records.push(own);
        assert(longer[records.len() as int] == own);
        lemma_sorted_contains(longer, own);
        lemma_position(after, ctx.id);
        let k = choose|k: int| 0 <= k < after.len() && after[k] == own;
        if position(after, ctx.id) == after.len() {
            assert(after[k].id != ctx.id);
        }
        let found = after[position(after, ctx.id)];
        assert(after.contains(found));
        lemma_sorted_contains(longer, found);
        let j = choose|j: int| 0 <= j < longer.len() && longer[j] == found;
        if j < records.len() {
            assert(records[j].id != ctx.id);
        }
    }
}

/// A merge that is repeated changes nothing, whenever it takes place.
pub proof fn merge_is_idempotent(
    records: Seq<RecordModel>,
    ctx: ContextModel,
    now: Timestamp,
    later: Timestamp,
)
    ensures
        merged_records(merged_records(records, ctx, now), ctx, later) == merged_records(
            records,
            ctx,
            now,
        ),
{
    let after = merged_records(records, ctx, now);
    merge_registers(records, ctx, now);
    let at = position(after, ctx.id);
    lemma_position(after, ctx.id);
    lemma_position(records, ctx.id);
    assert(merged(after[at], ctx) == after[at]);
    assert(after.update(at, after[at]) =~= after);
}

/// A merge leaves the entries of all other devices as they are.
pub proof fn merge_keeps_others(
    records: Seq<RecordModel>,
    ctx: ContextModel,
    now: Timestamp,
    other: RecordModel,
)
    requires
        other.id != ctx.id,
    ensures
        merged_records(records, ctx, now).contains(other) <==> records.contains(other),
{
    let after = merged_records(records, ctx, now);
    let own = own_record(records, ctx, now);
    lemma_position(records, ctx.id);
    if is_registered(records, ctx.id) {
        let at = position(records, ctx.id);
        if records.contains(other) {
            let i = choose|i: int| 0 <= i < records.len() && records[i] == other;
            assert(after[i] == other);
        }
        if after.contains(other) {
            let i = choose|i: int| 0 <= i < after.len() && after[i] == other;
            assert(records[i] == other);
        }
    } else {
        let longer = records.push(own);
        lemma_sorted_contains(longer, other);
        if records.contains(other) {
            let i = choose|i: int| 0 <= i < records.len() && records[i] == other;
            assert(longer[i] == other);
        }
        if longer.contains(other) {
            let i = choose|i: int| 0 <= i < longer.len() && longer[i] == other;
            assert(records[i] == other);
        }
    }
}

/// The entry of a known device keeps its identifier and the time of its
/// registration; it takes over what the running program knows of the machine;
/// its name and the time of the last change never go back, and stay as they
/// are unless the running program has a later change.
pub proof fn merge_goes_by_the_later_change(record: RecordModel, ctx: ContextModel)
    ensures
        merged(record, ctx).id == record.id,
        merged(record, ctx).registered_at == record.registered_at,
        merged(record, ctx).host == ctx.host,
        !merged(record, ctx).updated_at.lt(record.updated_at),
        ctx.updated_at is Some ==> !merged(record, ctx).updated_at.lt(ctx.updated_at->0),
        !newer_name(record, ctx) ==> merged(record, ctx).name == record.name && merged(
            record,
            ctx,
        ).updated_at == record.updated_at,
        newer_name(record, ctx) ==> merged(record, ctx).name == ctx.name && merged(
            record,
            ctx,
        ).updated_at == ctx.updated_at->0,
{
}

/// Two devices that exchange an entry agree on the one that was changed later:
/// an entry that arrives again changes nothing.
pub proof fn update_is_idempotent(records: Seq<RecordModel>, record: RecordModel)
    ensures
        updated_records(updated_records(records, record), record) == updated_records(
            records,
            record,
        ),
{
    let after = updated_records(records, record);
    lemma_position(records, record.id);
    if is_registered(records, record.id) {
        let at = position(records, record.id);
        assert forall|i: int| 0 <= i < at implies (#[trigger] after[i]).id != record.id by {
            assert(records[i].id != record.id);
        }
        lemma_position_unique(after, record.id, at);
    } else {
        let longer = records.push(record);
        assert(longer[records.len() as int] == record);
        lemma_sorted_contains(longer, record);
        lemma_position(after, record.id);
        let k = choose|k: int| 0 <= k < after.len() && after[k] == record;
        if position(after, record.id) == after.len() {
            assert(after[k].id != record.id);
        }
        let found = after[position(after, record.id)];
        assert(after.contains(found));
        lemma_sorted_contains(longer, found);
        let j = choose|j: int| 0 <= j < longer.len() && longer[j] == found;
        if j < records.len() {
            assert(records[j].id != record.id);
        }
    }
}

proof fn lemma_tied_once(records: Seq<RecordModel>, x: RecordModel)
    requires
        unique_devices(records),
    ensures
        records.filter(tied_with::<DeviceRecord>(x)).len() <= 1,
    decreases records.len(),
{
    let f = tied_with::<DeviceRecord>(x);
    reveal(Seq::filter);
    if records.len() > 0 {
        let rest = records.drop_last();
        assert(unique_devices(rest)) by {
            assert forall|i: int, j: int| 0 <= i < j < rest.len() implies (#[trigger] rest[i]).id != (
            #[trigger] rest[j]).id by {
                assert(rest[i] == records[i] && rest[j] == records[j]);
            }
        }
        lemma_tied_once(rest, x);
        if f(records.last()) {
            assert forall|i: int| 0 <= i < rest.len() implies !f(#[trigger] rest[i]) by {
                assert(records[i].id != records[records.len() - 1].id);
            }
            lemma_filter_none(rest, f);
        }
    }
}

proof fn lemma_sorted_unique(records: Seq<RecordModel>)
    requires
        unique_devices(records),
    ensures
        unique_devices(sorted::<DeviceRecord>(records)),
{
    let s = sorted::<DeviceRecord>(records);
    sorted_is_stable::<DeviceRecord>(records);
    assert forall|i: int, j: int| 0 <= i < j < s.len() implies (#[trigger] s[i]).id != (
    #[trigger] s[j]).id by {
        if s[i].id == s[j].id {
            let f = tied_with::<DeviceRecord>(s[i]);
            lemma_filter_two(s, f, i, j);
            assert(<DeviceRecord as Ranked>::ranked(s[i]));
            assert(s.filter(f) == records.filter(f));
            lemma_tied_once(records, s[i]);
        }
    }
}

/// No operation gives a device a second entry.
pub proof fn devices_stay_unique(
    records: Seq<RecordModel>,
    ctx: ContextModel,
    record: RecordModel,
    now: Timestamp,
)
    requires
        unique_devices(records),
    ensures
        unique_devices(merged_records(records, ctx, now)),
        unique_devices(updated_records(records, record)),
        is_registered(records, record.id) ==> unique_devices(
            renamed_records(records, record.id, record.name, now),
        ),
{
    lemma_position(records, ctx.id);
    lemma_position(records, record.id);
    if !is_registered(records, ctx.id) {
        assert(unique_devices(records.push(own_record(records, ctx, now))));
        lemma_sorted_unique(records.push(own_record(records, ctx, now)));
    }
    if !is_registered(records, record.id) {
        assert(unique_devices(records.push(record)));
        lemma_sorted_unique(records.push(record));
    }
}

/// Where no device has two entries, the device number counts the entries:
/// the entry at position `i` has the number `i + 1`, and all devices that hold
/// the same registry agree on it.
pub proof fn device_numbers_count_entries(records: Seq<RecordModel>, i: int)
    requires
        unique_devices(records),
        0 <= i < records.len(),
    ensures
        position(records, records[i].id) == i,
{
    lemma_position_unique(records, records[i].id, i);
}

/// Device numbers are stable: a device whose identifier is later than those of
/// the registered devices is put behind them, and none of them changes its
/// number.
pub proof fn later_devices_come_behind(
    records: Seq<RecordModel>,
    ctx: ContextModel,
    now: Timestamp,
    id: Uuid,
)
    requires
        in_order::<DeviceRecord>(records),
        forall|i: int| 0 <= i < records.len() ==> (#[trigger] records[i]).id@ < ctx.id@,
        is_registered(records, id),
    ensures
        merged_records(records, ctx, now) == records.push(own_record(records, ctx, now)),
        position(merged_records(records, ctx, now), id) == position(records, id),
{
    let own = own_record(records, ctx, now);
    let longer = records.push(own);
    lemma_position(records, ctx.id);
    lemma_position(records, id);
    if is_registered(records, ctx.id) {
        assert(records[position(records, ctx.id)].id@ < ctx.id@);
    }
    assert forall|i: int, j: int| #![trigger longer[i], longer[j]] 0 <= i < j < longer.len() implies !<DeviceRecord as Ranked>::before(
    longer[j], longer[i]) by {
        if j < records.len() {
            assert(!<DeviceRecord as Ranked>::before(records[j], records[i]));
        } else {
            assert(records[i].id@ < ctx.id@);
        }
    }
    sorted_keeps_order::<DeviceRecord>(longer);
    let at = position(records, id);
    assert forall|i: int| 0 <= i < at implies (#[trigger] longer[i]).id != id by {
        assert(records[i].id != id);
    }
    lemma_position_unique(longer, id, at);
}

/// What was saved is loaded again: where each line of the file parses back to
/// the record that it was written for, the registry holds the same records, in
/// the same order.
pub proof fn saved_records_load(
    records: Seq<RecordModel>,
    entries: Seq<(usize, Result<DeviceRecord, String>)>,
)
    requires
        in_order::<DeviceRecord>(records),
        entries.len() == records.len(),
        forall|i: int|
            0 <= i < entries.len() ==> (#[trigger] entries[i]).1 is Ok && entries[i].1->Ok_0@
                == records[i],
    ensures
        first_unreadable(entries) == entries.len(),
        sorted::<DeviceRecord>(readable(entries)) == records,
{
    lemma_first_unreadable(entries, entries.len() as int);
    assert(readable(entries) =~= records);
    sorted_keeps_order::<DeviceRecord>(records);
}

/// Saving and loading give back the registry: let every record be written as
/// one line from which it can be read. Then the file holds one line for each
/// record, in order, numbered from one, and what is read from these lines, put
/// in order, is the list of records that was saved. An empty registry makes an
/// empty file.
pub proof fn saving_then_loading(
    records: Seq<RecordModel>,
    write: spec_fn(RecordModel) -> Seq<char>,
    read: spec_fn(Seq<char>) -> RecordModel,
)
    requires
        in_order::<DeviceRecord>(records),
        records.len() <= usize::MAX,
        forall|i: int|
            0 <= i < records.len() ==> fits_line(write(#[trigger] records[i])) && read(
                write(records[i]),
            ) == records[i],
    ensures
        ({
            let file = file_of(records.map_values(write));
            let lines = numbered_lines(split_lines(file));
            &&& lines == Seq::new(
                records.len(),
                |i: int| ((i + 1) as usize, write(records[i])),
            )
            &&& sorted::<DeviceRecord>(lines.map_values(|l: (usize, Seq<char>)| read(l.1)))
                == records
            &&& records.len() == 0 ==> file == Seq::<char>::empty()
        }),
{
    let entries = records.map_values(write);
    assert forall|i: int| 0 <= i < entries.len() implies fits_line(#[trigger] entries[i]) by {
        assert(fits_line(write(records[i])));
    }
    file_reads_back(entries);
    let lines = numbered_lines(split_lines(file_of(entries)));
    assert(lines =~= Seq::new(records.len(), |i: int| ((i + 1) as usize, write(records[i]))));
    assert(lines.map_values(|l: (usize, Seq<char>)| read(l.1)) =~= records) by {
        assert forall|i: int| 0 <= i < records.len() implies read((#[trigger] lines[i]).1)
            == records[i] by {
            assert(read(write(records[i])) == records[i]);
        }
    }
    sorted_keeps_order::<DeviceRecord>(records);
    if records.len() == 0 {
        assert(entries.len() == 0);
    }
}

/// Of two points in time the one with the smaller second comes first, within a
/// second the one with the smaller nanosecond.
pub open spec fn comes_after(later: Timestamp, earlier: Timestamp) -> bool {
    ||| later.secs > earlier.secs
    ||| later.secs == earlier.secs && later.nanos > earlier.nanos
}

/// A device that has an entry keeps its identifier, its place and the time of
/// its registration. What the running program says of the machine and of itself
/// is taken over; its name for the device only if it was given later than the
/// one in the entry. All other entries stay as they are.
pub proof fn known_devices_are_brought_up_to_date(
    records: Seq<RecordModel>,
    ctx: ContextModel,
    now: Timestamp,
    at: int,
)
    requires
        0 <= at < records.len(),
        records[at].id == ctx.id,
        forall|i: int| 0 <= i < at ==> (#[trigger] records[i]).id != ctx.id,
    ensures
        ({
            let after = merged_records(records, ctx, now);
            let taken = ctx.updated_at is Some && comes_after(
                ctx.updated_at->0,
                records[at].updated_at,
            );
            &&& after.len() == records.len()
            &&& forall|i: int| 0 <= i < records.len() && i != at ==> after[i] == #[trigger] records[i]
            &&& after[at].id == ctx.id
            &&& after[at].registered_at == records[at].registered_at
            &&& after[at].host.hostname == ctx.host.hostname
            &&& after[at].host.app_id == ctx.host.app_id
            &&& after[at].host.app_version == ctx.host.app_version
            &&& after[at].host.platform == ctx.host.platform
            &&& after[at].host.arch == ctx.host.arch
            &&& taken ==> after[at].name == ctx.name && after[at].updated_at == ctx.updated_at->0
            &&& !taken ==> after[at].name == records[at].name && after[at].updated_at
                == records[at].updated_at
            &&& own_record(records, ctx, now) == after[at]
        }),
{
    lemma_position_unique(records, ctx.id, at);
}

/// A device without an entry gets one, and no other entry is touched: it is
/// registered now, under the name that the running program has for it, which
/// was given now unless the program knows better. The entries are in the order
/// of their identifiers again.
pub proof fn new_devices_are_added(records: Seq<RecordModel>, ctx: ContextModel, now: Timestamp)
    requires
        forall|i: int| 0 <= i < records.len() ==> (#[trigger] records[i]).id != ctx.id,
    ensures
        ({
            let after = merged_records(records, ctx, now);
            let own = own_record(records, ctx, now);
            &&& own.id == ctx.id
            &&& own.name == ctx.name
            &&& own.host == ctx.host
            &&& own.registered_at == now
            &&& ctx.updated_at is Some ==> own.updated_at == ctx.updated_at->0
            &&& ctx.updated_at is None ==> own.updated_at == now
            &&& after.to_multiset() == records.to_multiset().insert(own)
            &&& forall|i: int, j: int|
                0 <= i < j < after.len() ==> (#[trigger] after[i]).id.value <= (
                #[trigger] after[j]).id.value
        }),
{
    broadcast use group_to_multiset_ensures;

    lemma_position_unique(records, ctx.id, records.len() as int);
    let own = own_record(records, ctx, now);
    let longer = records.push(own);
    sorted_is_stable::<DeviceRecord>(longer);
    let after = sorted::<DeviceRecord>(longer);
    assert forall|i: int, j: int| 0 <= i < j < after.len() implies (#[trigger] after[i]).id.value
        <= (#[trigger] after[j]).id.value by {
        assert(!DeviceRecord::before(after[j], after[i]));
    }
}

/// A device is renamed in its entry, and nothing else changes but the time of
/// the last change.
pub proof fn renaming_changes_the_name_only(
    records: Seq<RecordModel>,
    id: Uuid,
    name: Seq<char>,
    now: Timestamp,
    at: int,
)
    requires
        0 <= at < records.len(),
        records[at].id == id,
        forall|i: int| 0 <= i < at ==> (#[trigger] records[i]).id != id,
    ensures
        ({
            let after = renamed_records(records, id, name, now);
            &&& after.len() == records.len()
            &&& forall|i: int| 0 <= i < records.len() && i != at ==> after[i] == #[trigger] records[i]
            &&& after[at].name == name
            &&& after[at].updated_at == now
            &&& after[at].id == id
            &&& after[at].host == records[at].host
            &&& after[at].registered_at == records[at].registered_at
        }),
{
    lemma_position_unique(records, id, at);
}

/// An entry that arrives replaces the present one of its device if it was
/// changed later, and is dropped otherwise. One of a device without an entry is
/// added, in the order of the identifiers.
pub proof fn later_entries_replace_earlier_ones(
    records: Seq<RecordModel>,
    record: RecordModel,
    at: int,
)
    requires
        0 <= at <= records.len(),
        at < records.len() ==> records[at].id == record.id,
        forall|i: int| 0 <= i < at ==> (#[trigger] records[i]).id != record.id,
    ensures
        ({
            let after = updated_records(records, record);
            &&& at < records.len() && comes_after(record.updated_at, records[at].updated_at)
                ==> after == records.update(at, record)
            &&& at < records.len() && !comes_after(record.updated_at, records[at].updated_at)
                ==> after == records
            &&& at == records.len() ==> after.to_multiset() == records.to_multiset().insert(record)
            &&& at == records.len() ==> forall|i: int, j: int|
                0 <= i < j < after.len() ==> (#[trigger] after[i]).id.value <= (
                #[trigger] after[j]).id.value
        }),
{
    broadcast use group_to_multiset_ensures;

    lemma_position_unique(records, record.id, at);
    if at == records.len() {
        let longer = records.push(record);
        sorted_is_stable::<DeviceRecord>(longer);
        let after = sorted::<DeviceRecord>(longer);
        assert forall|i: int, j: int| 0 <= i < j < after.len() implies (#[trigger] after[i]).id.value
            <= (#[trigger] after[j]).id.value by {
            assert(!DeviceRecord::before(after[j], after[i]));
        }
    }
}

/// Two devices that exchange entries of one device come to the same one, in
/// whatever order these arrive, as long as they were not changed at the same
/// time.
pub proof fn entries_may_arrive_in_any_order(
    records: Seq<RecordModel>,
    a: RecordModel,
    b: RecordModel,
)
    requires
        is_registered(records, a.id),
        a.id == b.id,
        a.updated_at != b.updated_at,
    ensures
        updated_records(updated_records(records, a), b) == updated_records(
            updated_records(records, b),
            a,
        ),
{
    let at = position(records, a.id);
    lemma_position(records, a.id);
    later_entries_replace_earlier_ones(records, a, at);
    later_entries_replace_earlier_ones(records, b, at);
    let after_a = updated_records(records, a);
    let after_b = updated_records(records, b);
    assert forall|i: int| 0 <= i < at implies (#[trigger] after_a[i]).id != a.id by {
        assert(after_a[i] == records[i]);
    }
    assert forall|i: int| 0 <= i < at implies (#[trigger] after_b[i]).id != a.id by {
        assert(after_b[i] == records[i]);
    }
    later_entries_replace_earlier_ones(after_a, b, at);
    later_entries_replace_earlier_ones(after_b, a, at);
    assert(records.update(at, a).update(at, b) =~= records.update(at, b));
    assert(records.update(at, b).update(at, a) =~= records.update(at, a));
}

/// A registry finds the entry of a device that has one, and of no other.
pub proof fn lookups_find_the_entry(
    registry: DeviceRegistry,
    id: Uuid,
    found: Option<&DeviceRecord>,
    number: Option<usize>,
)
    requires
        call_ensures(DeviceRegistry::lookup, (&registry, id), found),
        call_ensures(DeviceRegistry::device_number, (&registry, id), number),
    ensures
        found is Some <==> exists|i: int|
            0 <= i < registry.list().len() && (#[trigger] registry.list()[i]).id == id,
        found is Some ==> found->0@.id == id && registry.list().contains(found->0@),
        number is Some <==> found is Some,
        number is Some ==> 1 <= number->0 <= registry.list().len() && registry.list()[number->0
            - 1].id == id && registry.list()[number->0 - 1] == found->0@,
        number is Some ==> forall|i: int|
            0 <= i < number->0 - 1 ==> (#[trigger] registry.list()[i]).id != id,
{
    let list = registry.list();
    let at = position(list, id);
    lemma_position(list, id);
    if at < list.len() {
        assert(list[at].id == id);
    }
}

/// A registry is loaded exactly if every line could be read; the error names
/// the first line that could not. What is loaded is what the lines hold, in the
/// order of the identifiers.
pub proof fn registries_load_all_entries(
    path: FsPath,
    entries: Vec<(usize, Result<DeviceRecord, String>)>,
    loaded: Result<DeviceRegistry, Error>,
    at: int,
)
    requires
        call_ensures(DeviceRegistry::load, (path, entries), loaded),
        0 <= at <= entries@.len(),
        forall|i: int| 0 <= i < at ==> (#[trigger] entries@[i]).1 is Ok,
        at < entries@.len() ==> entries@[at].1 is Err,
    ensures
        loaded is Ok <==> at == entries@.len(),
        loaded is Err ==> (loaded->Err_0 matches Error::DeviceRecordParse { path: p, line, reason }
            && p@ == path.text@ && line == entries@[at].0 && reason@ == entries@[at].1->Err_0@),
        loaded is Ok ==> {
            let list = loaded->Ok_0.list();
            &&& list.len() == entries@.len()
            &&& list.to_multiset() == entries@.map_values(
                |e: (usize, Result<DeviceRecord, String>)| e.1->Ok_0@,
            ).to_multiset()
            &&& forall|i: int, j: int|
                0 <= i < j < list.len() ==> (#[trigger] list[i]).id.value <= (
                #[trigger] list[j]).id.value
        },
{
    lemma_first_unreadable(entries@, at);
    if at == entries@.len() {
        let all = readable(entries@);
        assert(all =~= entries@.map_values(
            |e: (usize, Result<DeviceRecord, String>)| e.1->Ok_0@,
        ));
        sorted_is_stable::<DeviceRecord>(all);
        let list = loaded->Ok_0.list();
        assert forall|i: int, j: int| 0 <= i < j < list.len() implies (#[trigger] list[i]).id.value
            <= (#[trigger] list[j]).id.value by {
            assert(!DeviceRecord::before(list[j], list[i]));
        }
    }
}

/// The lines of a registry file that are not blank hold the entries; each
/// counts by the number of its line in the file, from one on.
pub proof fn lines_are_numbered_in_the_file(all: Seq<Seq<char>>)
    requires
        all.len() <= usize::MAX,
    ensures
        numbered_lines(all).map_values(|l: (usize, Seq<char>)| l.1) == all.filter(
            |l: Seq<char>| !is_blank(l),
        ),
        forall|i: int|
            0 <= i < numbered_lines(all).len() ==> {
                let l = #[trigger] numbered_lines(all)[i];
                1 <= l.0 <= all.len() && l.1 == all[l.0 - 1]
            },
        forall|i: int, j: int|
            0 <= i < j < numbered_lines(all).len() ==> (#[trigger] numbered_lines(all)[i]).0 < (
            #[trigger] numbered_lines(all)[j]).0,
    decreases all.len(),
{
    reveal(Seq::filter);
    let f = |l: Seq<char>| !is_blank(l);
    let text = |l: (usize, Seq<char>)| l.1;
    if all.len() > 0 {
        let rest = all.drop_last();
        let last = all.last();
        lines_are_numbered_in_the_file(rest);
        assert forall|i: int| 0 <= i < numbered_lines(rest).len() implies {
            let l = #[trigger] numbered_lines(rest)[i];
            1 <= l.0 <= all.len() && l.1 == all[l.0 - 1]
        } by {
            let l = numbered_lines(rest)[i];
            assert(rest[l.0 - 1] == all[l.0 - 1]);
        }
        if is_blank(last) {
            assert(!f(last));
            assert(all.filter(f) == rest.filter(f));
        } else {
            assert(f(last));
            assert(numbered_lines(all).map_values(text) =~= rest.filter(f).push(last));
        }
    } else {
        assert(numbered_lines(all).map_values(text) =~= all.filter(f));
    }
}

/// A registry file is its entries one after the other, each with a line break
/// after it.
pub proof fn files_hold_one_entry_a_line(a: Seq<Seq<char>>, b: Seq<Seq<char>>, entry: Seq<char>)
    ensures
        file_of(seq![entry]) == entry + seq!['\n'],
        file_of(a + b) == file_of(a) + file_of(b),
    decreases b.len(),
{
    reveal_with_fuel(file_of, 2);
    assert(seq![entry].drop_last() =~= Seq::empty());
    assert(file_of(seq![entry]) =~= entry + seq!['\n']);
    if b.len() == 0 {
        assert(a + b =~= a);
        assert(file_of(a + b) =~= file_of(a) + file_of(b));
    } else {
        assert((a + b).drop_last() =~= a + b.drop_last());
        assert((a + b).last() == b.last());
        files_hold_one_entry_a_line(a, b.drop_last(), entry);
        assert(file_of(a + b) =~= file_of(a) + file_of(b));
    }
}

/// A device that knows nothing of itself yet is named after its host.
pub proof fn devices_are_named_after_their_host(
    id: Uuid,
    defaults: DeviceDefaults,
    ctx: DeviceContext,
)
    requires
        call_ensures(DeviceContext::from_defaults, (id, defaults), ctx),
    ensures
        ctx.id == id,
        ctx.name@ == defaults.hostname@,
        ctx.hostname@ == defaults.hostname@,
        ctx.app_id@ == defaults.app_id@,
        ctx.app_version@ == defaults.app_version@,
        ctx.platform@ == defaults.platform@,
        ctx.arch@ == defaults.arch@,
        ctx.updated_at is None,
{
    assert(ctx@.name == defaults@.hostname);
    assert(ctx@.host == defaults@);
    assert(ctx@.host.hostname == ctx.hostname@);
}

/// What a registry reports of a merge is what it holds afterwards, and it has
/// to be saved exactly if something has changed.
pub proof fn merges_report_what_they_leave(
    registry: &mut DeviceRegistry,
    ctx: &DeviceContext,
    now: Timestamp,
    outcome: MergeOutcome,
)
    requires
        call_ensures(
            DeviceRegistry::merge_device_context_at,
            (registry, ctx, now),
            outcome,
        ),
    ensures
        final(registry).list().contains(outcome.record@),
        outcome.record@.id == ctx.id,
        outcome.changed <==> final(registry).list() != old(registry).list(),
        final(registry).file() == old(registry).file(),
        forall|other: RecordModel|
            other.id != ctx.id ==> (#[trigger] final(registry).list().contains(other)
                <==> old(registry).list().contains(other)),
{
    let before = old(registry).list();
    merge_registers(before, ctx@, now);
    lemma_position(merged_records(before, ctx@, now), ctx@.id);
    let after = merged_records(before, ctx@, now);
    assert(after[position(after, ctx@.id)] == outcome.record@);
    assert forall|other: RecordModel| other.id != ctx.id implies (
    #[trigger] final(registry).list().contains(other) <==> before.contains(other)) by {
        merge_keeps_others(before, ctx@, now, other);
    }
}

/// A device that has an entry is renamed; one that has none is refused, and
/// nothing changes.
pub proof fn only_registered_devices_are_renamed(
    registry: &mut DeviceRegistry,
    id: Uuid,
    name: &str,
    now: Timestamp,
    renamed: Result<(), Error>,
    at: int,
)
    requires
        call_ensures(DeviceRegistry::set_name_at, (registry, id, name, now), renamed),
        0 <= at <= old(registry).list().len(),
        at < old(registry).list().len() ==> old(registry).list()[at].id == id,
        forall|i: int| 0 <= i < at ==> (#[trigger] old(registry).list()[i]).id != id,
    ensures
        renamed is Ok <==> at < old(registry).list().len(),
        renamed is Err ==> renamed->Err_0 == (Error::DeviceNotFound { id }) && final(registry).list() == old(registry).list(),
        renamed is Ok ==> {
            let before = old(registry).list();
            let after = final(registry).list();
            &&& after.len() == before.len()
            &&& after[at].name == name@
            &&& after[at].updated_at == now
            &&& after[at].host == before[at].host
            &&& after[at].registered_at == before[at].registered_at
            &&& forall|i: int| 0 <= i < before.len() && i != at ==> after[i] == #[trigger] before[i]
        },
{
    lemma_position_unique(old(registry).list(), id, at);
    if at < old(registry).list().len() {
        renaming_changes_the_name_only(old(registry).list(), id, name@, now, at);
    }
}

/// An entry that arrives is taken over exactly if it is new or was changed
/// later than the present one.
pub proof fn arriving_entries_are_taken_over_if_later(
    registry: &mut DeviceRegistry,
    record: DeviceRecord,
    changed: Result<bool, Error>,
    at: int,
)
    requires
        call_ensures(DeviceRegistry::update_if_newer, (registry, record), changed),
        0 <= at <= old(registry).list().len(),
        at < old(registry).list().len() ==> old(registry).list()[at].id == record.id,
        forall|i: int| 0 <= i < at ==> (#[trigger] old(registry).list()[i]).id != record.id,
    ensures
        changed is Ok,
        at < old(registry).list().len() && !comes_after(
            record.updated_at,
            old(registry).list()[at].updated_at,
        ) ==> !changed->Ok_0 && final(registry).list() == old(registry).list(),
        at < old(registry).list().len() && comes_after(
            record.updated_at,
            old(registry).list()[at].updated_at,
        ) ==> changed->Ok_0 && final(registry).list() == old(registry).list().update(at, record@),
        at == old(registry).list().len() ==> changed->Ok_0 && final(registry).list().to_multiset()
            == old(registry).list().to_multiset().insert(record@),
{
    broadcast use group_to_multiset_ensures;

    let before = old(registry).list();
    let after = final(registry).list();
    assert(record@.id == record.id && record@.updated_at == record.updated_at);
    later_entries_replace_earlier_ones(before, record@, at);
    if at < before.len() && comes_after(record.updated_at, before[at].updated_at) {
        assert(after[at].updated_at == record.updated_at);
        assert(after != before);
    }
    if at == before.len() {
        assert(after.len() == after.to_multiset().len());
        assert(before.len() == before.to_multiset().len());
    }
}

} // verus!
