//! What a program knows of itself and its surroundings, for all workspaces
//! that it opens.

use crate::ids::{uuid_read, uuid_text, uuid_variant, uuid_version, Timestamp, Uuid};
use crate::number::{digit, hex};
use crate::paths::{names_follow_their_directory, FsPath, PathModel};
use crate::sync::devices::{
    comes_after, ContextModel, DeviceContext, DeviceDefaults, HostModel,
};
use crate::text::{is_space, lemma_solid_from, lemma_solid_to, solid_from, solid_to, trim, trimmed};
use crate::workspace::identity::{path_uuid, uuid_of_path};
use vstd::prelude::*;

verus! {

/// The context of a program. Directories and facts about the machine are given
/// once, at the start; what is given later is ignored.
#[derive(Debug)]
pub struct AppContext {
    /// The name of the application, after which its marker directory is named.
    pub app_name: &'static str,
    allow_external_paths: bool,
    cache_dir: Option<FsPath>,
    data_dir: Option<FsPath>,
    device_defaults: Option<DeviceDefaults>,
    device: Option<DeviceContext>,
}

/// The mathematical counterpart of an [`AppContext`].
pub struct AppModel {
    pub app_name: Seq<char>,
    pub external_paths: bool,
    pub cache_dir: Option<PathModel>,
    pub data_dir: Option<PathModel>,
    pub defaults: Option<HostModel>,
    pub device: Option<ContextModel>,
}

/// A value that is given at most once: the first one counts.
pub open spec fn first_given<T>(present: Option<T>, given: T) -> Option<T> {
    match present {
        Some(t) => Some(t),
        None => Some(given),
    }
}

impl View for AppContext {
    type V = AppModel;

    closed spec fn view(&self) -> AppModel {
        AppModel {
            app_name: self.app_name@,
            external_paths: self.allow_external_paths,
            cache_dir: match self.cache_dir {
                Some(d) => Some(d@),
                None => None,
            },
            data_dir: match self.data_dir {
                Some(d) => Some(d@),
                None => None,
            },
            defaults: match self.device_defaults {
                Some(d) => Some(d@),
                None => None,
            },
            device: match self.device {
                Some(d) => Some(d@),
                None => None,
            },
        }
    }
}

/// A copy of what is known of the machine.
fn copy_defaults(d: &DeviceDefaults) -> (r: DeviceDefaults)
    ensures
        r@ == d@,
{
    DeviceDefaults {
        hostname: d.hostname.clone(),
        app_id: d.app_id.clone(),
        app_version: d.app_version.clone(),
        platform: d.platform.clone(),
        arch: d.arch.clone(),
    }
}

/// A copy of the present device.
fn copy_device(d: &DeviceContext) -> (r: DeviceContext)
    ensures
        r@ == d@,
{
    DeviceContext {
        id: d.id,
        name: d.name.clone(),
        hostname: d.hostname.clone(),
        app_id: d.app_id.clone(),
        app_version: d.app_version.clone(),
        platform: d.platform.clone(),
        arch: d.arch.clone(),
        updated_at: d.updated_at,
    }
}

/// The device after a name that was changed at `updated_at` became known. A
/// name that is not newer is ignored.
pub open spec fn renamed_if_newer(
    device: ContextModel,
    name: Seq<char>,
    updated_at: Timestamp,
) -> ContextModel {
    if device.updated_at is None || device.updated_at->0.lt(updated_at) {
        ContextModel { name, updated_at: Some(updated_at), ..device }
    } else {
        device
    }
}

impl AppContext {
    /// The context of the application `app_name`, with nothing given yet.
    pub fn new(app_name: &'static str) -> (r: AppContext)
        ensures
            r@ == (AppModel {
                app_name: app_name@,
                external_paths: false,
                cache_dir: None,
                data_dir: None,
                defaults: None,
                device: None,
            }),
    {
        AppContext {
            app_name,
            allow_external_paths: false,
            cache_dir: None,
            data_dir: None,
            device_defaults: None,
            device: None,
        }
    }

    /// The same context, with file operations outside a workspace allowed.
    pub fn allow_external_paths(self) -> (r: AppContext)
        ensures
            r@ == (AppModel { external_paths: true, ..self@ }),
    {
        AppContext {
            app_name: self.app_name,
            allow_external_paths: true,
            cache_dir: self.cache_dir,
            data_dir: self.data_dir,
            device_defaults: self.device_defaults,
            device: self.device,
        }
    }

    /// Whether file operations outside a workspace are allowed.
    pub fn allows_external_paths(&self) -> (r: bool)
        ensures
            r == self@.external_paths,
    {
        self.allow_external_paths
    }

    /// Gives the cache directory of the application, unless it was given
    /// before.
    pub fn set_cache_dir(&mut self, path: FsPath)
        ensures
            final(self)@ == (AppModel {
                cache_dir: first_given(old(self)@.cache_dir, path@),
                ..old(self)@
            }),
    {
        if self.cache_dir.is_none() {
            self.cache_dir = Some(path);
        }
    }

    /// The cache directory of the application, which must have been given.
    pub fn cache_dir(&self) -> (r: &FsPath)
        requires
            self@.cache_dir is Some,
        ensures
            Some(r@) == self@.cache_dir,
    {
        self.cache_dir.as_ref().unwrap()
    }

    /// The cache directory of the workspace at a canonical path, given by its
    /// bytes.
    pub fn cache_dir_for(&self, root: &[u8]) -> (r: FsPath)
        requires
            self@.cache_dir is Some,
        ensures
            r@ == self@.cache_dir->0.below(uuid_text(uuid_of_path(root@))),
    {
        self.cache_dir().join(&path_uuid(root).to_text())
    }

    /// Where models that run locally are kept.
    pub fn model_cache_dir(&self) -> (r: FsPath)
        requires
            self@.cache_dir is Some,
        ensures
            r@ == self@.cache_dir->0.below("models"@),
    {
        self.cache_dir().join("models")
    }

    /// Gives the data directory of the application, unless it was given
    /// before.
    pub fn set_data_dir(&mut self, path: FsPath)
        ensures
            final(self)@ == (AppModel {
                data_dir: first_given(old(self)@.data_dir, path@),
                ..old(self)@
            }),
    {
        if self.data_dir.is_none() {
            self.data_dir = Some(path);
        }
    }

    /// The data directory of the application, which must have been given.
    pub fn data_dir(&self) -> (r: &FsPath)
        requires
            self@.data_dir is Some,
        ensures
            Some(r@) == self@.data_dir,
    {
        self.data_dir.as_ref().unwrap()
    }

    /// The file that holds the identifier of the device.
    pub fn device_id_path(&self) -> (r: FsPath)
        requires
            self@.data_dir is Some,
        ensures
            r@ == self@.data_dir->0.below("device_id"@),
    {
        self.data_dir().join("device_id")
    }

    /// Gives what is known of the machine, unless it was given before.
    pub fn set_device_defaults(&mut self, defaults: DeviceDefaults)
        ensures
            final(self)@ == (AppModel {
                defaults: first_given(old(self)@.defaults, defaults@),
                ..old(self)@
            }),
    {
        if self.device_defaults.is_none() {
            self.device_defaults = Some(defaults);
        }
    }

    /// Whether the identifier of the device has still to be found out.
    pub fn needs_device_id(&self) -> (r: bool)
        ensures
            r == (self@.device is None),
    {
        self.device.is_none()
    }

    /// The present device. It is put together once, from the identifier that
    /// was found, if any, and from what is known of the machine; later calls
    /// give the same device whatever they are given. Without an identifier
    /// there is no device, and the next call tries again.
    pub fn device(&mut self, found: Option<Uuid>) -> (r: Option<DeviceContext>)
        requires
            old(self)@.device is None ==> old(self)@.defaults is Some,
        ensures
            match old(self)@.device {
                Some(device) => final(self)@ == old(self)@ && r is Some && r->0@ == device,
                None => match found {
                    Some(id) => {
                        let host = old(self)@.defaults->0;
                        let device = ContextModel {
                            id,
                            name: host.hostname,
                            host,
                            updated_at: None,
                        };
                        &&& r is Some
                        &&& r->0@ == device
                        &&& final(self)@ == (AppModel { device: Some(device), ..old(self)@ })
                    },
                    None => r is None && final(self)@ == old(self)@,
                },
            },
    {
        if let Some(device) = &self.device {
            return Some(copy_device(device));
        }
        match (found, &self.device_defaults) {
            (Some(id), Some(defaults)) => {
                let device = DeviceContext::from_defaults(id, copy_defaults(defaults));
                let copied = copy_device(&device);
                self.device = Some(device);
                Some(copied)
            },
            _ => None,
        }
    }

    /// The identifier of the present device, as far as it was put together.
    pub fn device_id(&self) -> (r: Option<Uuid>)
        ensures
            r == (match self@.device {
                Some(device) => Some(device.id),
                None => None,
            }),
    {
        match &self.device {
            Some(device) => Some(device.id),
            None => None,
        }
    }

    /// Takes over a name that the device was given elsewhere at the time
    /// `updated_at`, if that is newer than the present name. Says whether it
    /// was.
    pub fn update_device_name_if_newer(&mut self, name: &str, updated_at: Timestamp) -> (changed:
        bool)
        ensures
            match old(self)@.device {
                Some(device) => {
                    &&& final(self)@ == (AppModel {
                        device: Some(renamed_if_newer(device, name@, updated_at)),
                        ..old(self)@
                    })
                    &&& changed == (renamed_if_newer(device, name@, updated_at) != device)
                },
                None => !changed && final(self)@ == old(self)@,
            },
    {
        let ghost before = self@;
        let mut taken: Option<DeviceContext> = None;
        std::mem::swap(&mut taken, &mut self.device);
        match taken {
            None => false,
            Some(device) => {
                let newer = match device.updated_at {
                    Some(t) => t.is_before(updated_at),
                    None => true,
                };
                if newer {
                    self.device = Some(
                        DeviceContext {
                            id: device.id,
                            name: name.to_owned(),
                            hostname: device.hostname,
                            app_id: device.app_id,
                            app_version: device.app_version,
                            platform: device.platform,
                            arch: device.arch,
                            updated_at: Some(updated_at),
                        },
                    );
                    true
                } else {
                    self.device = Some(device);
                    false
                }
            },
        }
    }
}

/// The identifier of a device, and what has to be written to its file.
#[derive(Debug, Clone)]
pub struct DeviceIdChoice {
    pub id: Uuid,
    pub write: Option<String>,
}

/// A hexadecimal digit is no white space.
proof fn lemma_hex_solid(n: nat, width: nat)
    requires
        width > 0,
    ensures
        hex(n, width).len() == width,
        !is_space(hex(n, width)[0]),
        !is_space(hex(n, width).last()),
    decreases width,
{
    assert(forall|d: int| 0 <= d < 16 ==> !is_space(#[trigger] digit(d)));
    if width > 1 {
        lemma_hex_solid(n / 16, (width - 1) as nat);
    } else {
        assert(hex(n / 16, 0).len() == 0);
    }
    assert(!is_space(digit((n % 16) as int)));
}

/// An identifier in its text form has no white space at its ends.
proof fn lemma_uuid_text_trimmed(value: u128)
    ensures
        trimmed(uuid_text(value)) == uuid_text(value),
{
    let s = uuid_text(value);
    let n = value as nat;
    lemma_hex_solid(n / 0x1_0000_0000_0000_0000_0000_0000, 8);
    lemma_hex_solid(n, 12);
    let len = s.len() as int;
    assert(s[0] == hex(n / 0x1_0000_0000_0000_0000_0000_0000, 8)[0]);
    assert(s[len - 1] == hex(n, 12).last());
    lemma_solid_from(s, 0, len);
    lemma_solid_to(s, 0, len);
    assert(solid_from(s, 0, len) == 0) by {
        if solid_from(s, 0, len) > 0 {
            assert(is_space(s[0]));
        }
    }
    assert(solid_to(s, 0, len) == len) by {
        if solid_to(s, 0, len) < len {
            assert(is_space(s[len - 1]));
        }
    }
    assert(s.subrange(0, len) =~= s);
}

/// The identifier of the device, from what its file holds. A missing file, and
/// one that holds no identifier, is given a fresh one, which has to be written
/// to it. An identifier that was written is read back.
pub fn load_or_create_device_id(contents: Option<&str>) -> (r: DeviceIdChoice)
    ensures
        if contents is Some && uuid_read(trimmed(contents->0@)) is Ok {
            &&& r.id@ == uuid_read(trimmed(contents->0@))->Ok_0
            &&& r.write is None
        } else {
            &&& uuid_version(r.id@) == 7
            &&& uuid_variant(r.id@) == 2
            &&& r.write is Some
            &&& r.write->0@ == uuid_text(r.id@)
        },
        forall|v: u128|
            contents is Some && contents->0@ == #[trigger] uuid_text(v) ==> r.id@ == v
                && r.write is None,
{
    if let Some(text) = contents {
        proof {
            assert forall|v: u128| text@ == #[trigger] uuid_text(v) implies trimmed(text@) == text@ by {
                lemma_uuid_text_trimmed(v);
            }
        }
        if let Ok(id) = Uuid::parse(&trim(text)) {
            return DeviceIdChoice { id, write: None };
        }
    }
    let id = Uuid::now_v7();
    DeviceIdChoice { id, write: Some(id.to_text()) }
}

/// Of several values that are given for one thing the first counts.
pub proof fn later_values_are_ignored<T>(first: T, second: T)
    ensures
        first_given(first_given(None, first), second) == Some(first),
        first_given(None::<T>, first) == Some(first),
{
}

/// A name that was given later than the present one is taken over with its
/// time; any other is ignored. A name whose time is not known gives way to any.
/// Nothing else about the device changes.
pub proof fn later_names_are_taken_over(device: ContextModel, name: Seq<char>, at: Timestamp)
    ensures
        ({
            let after = renamed_if_newer(device, name, at);
            let newer = device.updated_at is None || comes_after(at, device.updated_at->0);
            &&& newer ==> after.name == name && after.updated_at == Some(at)
            &&& !newer ==> after == device
            &&& after.id == device.id
            &&& after.host == device.host
        }),
{
}

/// A device identifier that a program wrote is the one that the next program
/// reads, and is not written again.
pub proof fn device_identifiers_are_written_once(
    contents: Option<&str>,
    first: DeviceIdChoice,
    file: &str,
    second: DeviceIdChoice,
)
    requires
        call_ensures(load_or_create_device_id, (contents,), first),
        first.write is Some,
        file@ == first.write->0@,
        call_ensures(load_or_create_device_id, (Some(file),), second),
    ensures
        second.id@ == first.id@,
        second.write is None,
        contents is None || uuid_read(trimmed(contents->0@)) is Err,
{
    assert(file@ == uuid_text(first.id@));
}

/// Models are kept below the cache directory, the identifier of the device
/// below the data directory.
pub proof fn directories_of_the_application(ctx: AppContext, models: FsPath, id_file: FsPath)
    requires
        call_ensures(AppContext::model_cache_dir, (&ctx,), models),
        call_ensures(AppContext::device_id_path, (&ctx,), id_file),
        ctx@.cache_dir is Some,
        ctx@.cache_dir->0.text.len() > 0,
        ctx@.cache_dir->0.text.last() != '/',
        ctx@.data_dir is Some,
        ctx@.data_dir->0.text.len() > 0,
        ctx@.data_dir->0.text.last() != '/',
    ensures
        models.text@ == ctx@.cache_dir->0.text + seq!['/'] + "models"@,
        id_file.text@ == ctx@.data_dir->0.text + seq!['/'] + "device_id"@,
{
    reveal_strlit("models");
    reveal_strlit("device_id");
    names_follow_their_directory(ctx@.cache_dir->0.text, "models"@);
    names_follow_their_directory(ctx@.data_dir->0.text, "device_id"@);
    assert(models@.text == models.text@);
    assert(id_file@.text == id_file.text@);
}

/// A directory that was given stays, whatever is given later.
pub proof fn directories_are_given_once(
    ctx: &mut AppContext,
    path: FsPath,
    data: &mut AppContext,
    facts: &mut AppContext,
    defaults: DeviceDefaults,
)
    requires
        call_ensures(AppContext::set_cache_dir, (ctx, path), ()),
        call_ensures(AppContext::set_data_dir, (data, path), ()),
        call_ensures(AppContext::set_device_defaults, (facts, defaults), ()),
    ensures
        old(ctx)@.cache_dir is Some ==> final(ctx)@.cache_dir == old(ctx)@.cache_dir,
        old(ctx)@.cache_dir is None ==> final(ctx)@.cache_dir == Some(path@),
        final(ctx)@.data_dir == old(ctx)@.data_dir,
        old(data)@.data_dir is Some ==> final(data)@.data_dir == old(data)@.data_dir,
        old(data)@.data_dir is None ==> final(data)@.data_dir == Some(path@),
        final(data)@.cache_dir == old(data)@.cache_dir,
        old(facts)@.defaults is Some ==> final(facts)@.defaults == old(facts)@.defaults,
        old(facts)@.defaults is None ==> final(facts)@.defaults == Some(defaults@),
        final(facts)@.device == old(facts)@.device,
{
}

/// The present device is put together once, under the identifier that was found
/// first and the name of the host; without an identifier there is none yet.
pub proof fn the_device_is_put_together_once(
    ctx: &mut AppContext,
    found: Option<Uuid>,
    device: Option<DeviceContext>,
)
    requires
        call_ensures(AppContext::device, (ctx, found), device),
    ensures
        old(ctx)@.device is Some ==> device is Some && device->0@ == old(ctx)@.device->0
            && final(ctx)@ == old(ctx)@,
        old(ctx)@.device is None && found is None ==> device is None && final(ctx)@ == old(ctx)@,
        old(ctx)@.device is None && found is Some ==> {
            &&& device is Some
            &&& device->0@.id == found->0
            &&& device->0@.name == old(ctx)@.defaults->0.hostname
            &&& device->0@.host == old(ctx)@.defaults->0
            &&& device->0@.updated_at is None
            &&& final(ctx)@.device == Some(device->0@)
        },
        final(ctx)@.cache_dir == old(ctx)@.cache_dir,
        final(ctx)@.data_dir == old(ctx)@.data_dir,
{
}

/// The context takes over a later name of the present device, and says so.
pub proof fn contexts_take_over_later_names(
    ctx: &mut AppContext,
    name: &str,
    at: Timestamp,
    changed: bool,
)
    requires
        call_ensures(AppContext::update_device_name_if_newer, (ctx, name, at), changed),
    ensures
        old(ctx)@.device is None ==> !changed && final(ctx)@ == old(ctx)@,
        old(ctx)@.device is Some ==> {
            let device = old(ctx)@.device->0;
            let newer = device.updated_at is None || comes_after(at, device.updated_at->0);
            &&& changed <==> newer
            &&& newer ==> final(ctx)@.device is Some && final(ctx)@.device->0.name == name@
                && final(ctx)@.device->0.updated_at == Some(at) && final(ctx)@.device->0.id
                == device.id
            &&& !newer ==> final(ctx)@ == old(ctx)@
        },
{
    if let Some(device) = old(ctx)@.device {
        later_names_are_taken_over(device, name@, at);
        let after = renamed_if_newer(device, name@, at);
        if device.updated_at is None || comes_after(at, device.updated_at->0) {
            assert(after.updated_at == Some(at));
            assert(after != device);
        } else {
            assert(final(ctx)@ == (AppModel { device: Some(device), ..old(ctx)@ }));
        }
    }
}

} // verus!
