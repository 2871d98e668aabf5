//! Workspaces: how they are found, and where their files lie.

use crate::ids::{uuid_text, Uuid};
use crate::number::{decimal, hex, push_hex, signed_text};
use crate::paths::{below, copy_bytes, join, names_follow_their_directory, FsPath};
use crate::retrieve::sqlite_store::{db_file_name, SCHEMA_VERSION};
use crate::text::{
    chars_of, is_blank, is_space, same_text, string_of, texts, trim, trimmed,
    trimming_takes_white_space_only,
};
use crate::workspace::context::AppContext;
use crate::workspace::error::Error;
use crate::workspace::identity::{fnv1a, path_hash, path_uuid, uuid_of_path};
use vstd::prelude::*;

verus! {

/// The marker directory of the default application.
pub const DEFAULT_WORKSPACE_MARKER: &'static str = ".sapphire-workspace";

/// A workspace.
#[derive(Debug, Clone)]
pub struct Workspace {
    /// The canonical path of its root.
    pub root: FsPath,
    /// The application that it belongs to.
    pub app_name: &'static str,
    /// The identifier of the workspace.
    pub uuid: Uuid,
}

/// The name of the marker directory of an application.
pub open spec fn marker_of(app_name: Seq<char>) -> Seq<char> {
    seq!['.'] + app_name
}

/// The name of the marker directory of an application.
pub fn marker_name(app_name: &str) -> (r: String)
    ensures
        r@ == marker_of(app_name@),
{
    let mut r = String::new();
    r.push('.');
    r.append(app_name);
    proof {
        assert(r@ =~= marker_of(app_name@));
    }
    r
}

/// The position of the last `/` in `s` before `hi`, or -1.
pub open spec fn last_separator(s: Seq<char>, hi: int) -> int
    decreases hi,
{
    if hi <= 0 {
        -1
    } else if s[hi - 1] == '/' {
        hi - 1
    } else {
        last_separator(s, hi - 1)
    }
}

/// The directory that holds the canonical path `s`; the root has none.
pub open spec fn parent_of(s: Seq<char>) -> Option<Seq<char>> {
    let at = last_separator(s, s.len() as int);
    if at < 0 || s.len() == 1 {
        None
    } else if at == 0 {
        Some(s.take(1))
    } else {
        Some(s.take(at))
    }
}

/// A canonical path and all directories above it, from the inside out.
pub open spec fn chain_of(s: Seq<char>) -> Seq<Seq<char>>
    decreases s.len(),
{
    match parent_of(s) {
        Some(p) => {
            proof {
                lemma_parent_shorter(s);
            }
            seq![s] + chain_of(p)
        },
        None => seq![s],
    }
}

/// A parent is shorter than what it holds.
pub proof fn lemma_parent_shorter(s: Seq<char>)
    ensures
        parent_of(s) is Some ==> parent_of(s)->0.len() < s.len(),
{
    lemma_last_separator(s, s.len() as int);
}

proof fn lemma_last_separator(s: Seq<char>, hi: int)
    ensures
        -1 <= last_separator(s, hi),
        hi > 0 ==> last_separator(s, hi) < hi,
        hi <= 0 ==> last_separator(s, hi) == -1,
    decreases hi,
{
    if hi > 0 && s[hi - 1] != '/' {
        lemma_last_separator(s, hi - 1);
    }
}

/// The directory that holds a canonical path.
pub fn parent(path: &str) -> (r: Option<String>)
    ensures
        match r {
            Some(p) => parent_of(path@) == Some(p@),
            None => parent_of(path@) is None,
        },
{
    let cs = chars_of(path);
    let mut hi: usize = cs.len();
    while hi > 0 && cs[hi - 1] != '/'
        invariant
            hi <= cs@.len(),
            last_separator(cs@, cs@.len() as int) == last_separator(cs@, hi as int),
        decreases hi,
    {
        hi -= 1;
    }
    if hi == 0 || cs.len() == 1 {
        None
    } else if hi == 1 {
        proof {
            assert(path@.subrange(0, 1) =~= path@.take(1));
        }
        Some(string_of(&cs, 0, 1))
    } else {
        proof {
            assert(path@.subrange(0, hi - 1) =~= path@.take(hi - 1));
        }
        Some(string_of(&cs, 0, hi - 1))
    }
}

/// A canonical path and all directories above it, from the inside out: the
/// directories in which the marker is looked for.
pub fn ancestors(start: &str) -> (r: Vec<String>)
    ensures
        texts(r@) == chain_of(start@),
{
    let mut r: Vec<String> = Vec::new();
    let mut current = start.to_owned();
    proof {
        assert(texts(r@) + chain_of(current@) =~= chain_of(start@));
    }
    loop
        invariant
            texts(r@) + chain_of(current@) == chain_of(start@),
        decreases current@.len(),
    {
        let above = parent(&current);
        let ghost before = texts(r@);
        let ghost here = current@;
        proof {
            lemma_parent_shorter(here);
        }
        r.push(current);
        proof {
            assert(texts(r@) =~= before.push(here));
        }
        match above {
            None => {
                proof {
                    assert(before + seq![here] =~= before.push(here));
                }
                return r;
            },
            Some(p) => {
                proof {
                    assert(before + (seq![here] + chain_of(p@)) =~= texts(r@) + chain_of(p@));
                }
                current = p;
            },
        }
    }
}

/// The first position that holds `true`, or the length.
pub open spec fn first_true(found: Seq<bool>) -> int
    decreases found.len(),
{
    if found.len() == 0 || found[0] {
        0
    } else {
        1 + first_true(found.drop_first())
    }
}

proof fn lemma_first_true(found: Seq<bool>, at: int)
    requires
        0 <= at <= found.len(),
        forall|i: int| 0 <= i < at ==> !(#[trigger] found[i]),
        at < found.len() ==> found[at],
    ensures
        first_true(found) == at,
    decreases at,
{
    if at > 0 {
        assert(!found[0]);
        let rest = found.drop_first();
        assert forall|i: int| 0 <= i < at - 1 implies !(#[trigger] rest[i]) by {
            assert(!found[i + 1]);
        }
        lemma_first_true(rest, at - 1);
    }
}

/// Where a workspace is to be looked for.
#[derive(Debug, Clone)]
pub enum RootSource {
    /// At the path that the caller names.
    Explicit(FsPath),
    /// At the path that the environment names.
    Environment(String),
    /// In the current directory, with the user's consent.
    CurrentDir,
}

/// Where a workspace is to be looked for: the path that the caller names comes
/// first, then the one that the environment names, unless that is empty, then
/// the current directory.
pub fn root_source(explicit: Option<&FsPath>, env: Option<&str>) -> (r: RootSource)
    ensures
        match explicit {
            Some(path) => r matches RootSource::Explicit(p) && p@ == path@,
            None => if env is Some && env->0@.len() > 0 {
                r matches RootSource::Environment(p) && p@ == env->0@
            } else {
                r is CurrentDir
            },
        },
{
    match explicit {
        Some(path) => RootSource::Explicit(path.copy()),
        None => match env {
            Some(path) => {
                if path.is_empty() {
                    RootSource::CurrentDir
                } else {
                    RootSource::Environment(path.to_owned())
                }
            },
            None => RootSource::CurrentDir,
        },
    }
}

/// Whether an answer gives consent: an empty one, or the letter `y`.
pub fn consents(answer: &str) -> (r: bool)
    ensures
        r == (trimmed(answer@).len() == 0 || trimmed(answer@) == "y"@ || trimmed(answer@) == "Y"@),
{
    let text = trim(answer);
    text.as_str().is_empty() || same_text(&text, "y") || same_text(&text, "Y")
}

impl Workspace {
    /// The workspace at a canonical path, identified by that path.
    pub fn at(app_name: &'static str, root: FsPath) -> (r: Workspace)
        ensures
            r.root@ == root@,
            r.app_name@ == app_name@,
            r.uuid@ == uuid_of_path(root.raw@),
    {
        let uuid = path_uuid(&root.raw);
        Workspace { root, app_name, uuid }
    }

    /// The workspace that a canonical path lies in: the innermost of the path
    /// and the directories above it that holds the marker. `found` says of
    /// each of the [`ancestors`] whether it does, `raw` gives the bytes of their
    /// paths.
    pub fn find_from(
        app_name: &'static str,
        start: &str,
        found: &Vec<bool>,
        raw: &Vec<Vec<u8>>,
    ) -> (r: Result<Workspace, Error>)
        requires
            found@.len() == chain_of(start@).len(),
            raw@.len() == chain_of(start@).len(),
        ensures
            ({
                let at = first_true(found@);
                if at < found@.len() {
                    &&& r is Ok
                    &&& r->Ok_0.root.text@ == chain_of(start@)[at]
                    &&& r->Ok_0.root.raw@ == raw@[at]@
                    &&& r->Ok_0.app_name@ == app_name@
                    &&& r->Ok_0.uuid@ == uuid_of_path(raw@[at]@)
                } else {
                    r is Err && (r->Err_0 matches Error::MarkerNotFound { marker, start: s }
                        && marker@ == marker_of(app_name@) && s@ == start@)
                }
            }),
    {
        let dirs = ancestors(start);
        let mut at: usize = 0;
        while at < found.len() && !found[at]
            invariant
                at <= found@.len(),
                forall|i: int| 0 <= i < at ==> !(#[trigger] found@[i]),
            decreases found@.len() - at,
        {
            at += 1;
        }
        proof {
            lemma_first_true(found@, at as int);
        }
        if at < found.len() {
            proof {
                assert(texts(dirs@)[at as int] == dirs@[at as int]@);
            }
            let uuid = path_uuid(&raw[at]);
            let root = FsPath { raw: copy_bytes(&raw[at]), text: dirs[at].clone() };
            Ok(Workspace { root, app_name, uuid })
        } else {
            Err(
                Error::MarkerNotFound { marker: marker_name(app_name), start: start.to_owned() },
            )
        }
    }

    /// The workspace at a canonical path, which must hold the marker.
    pub fn from_root(app_name: &'static str, root: FsPath, has_marker: bool) -> (r: Result<
        Workspace,
        Error,
    >)
        ensures
            if has_marker {
                &&& r is Ok
                &&& r->Ok_0.root@ == root@
                &&& r->Ok_0.app_name@ == app_name@
                &&& r->Ok_0.uuid@ == uuid_of_path(root.raw@)
            } else {
                r is Err && (r->Err_0 matches Error::MarkerDirMissing { marker, root: d }
                    && marker@ == marker_of(app_name@) && d@ == root.text@)
            },
    {
        if has_marker {
            Ok(Workspace::at(app_name, root))
        } else {
            Err(Error::MarkerDirMissing { marker: marker_name(app_name), root: root.text })
        }
    }

    /// The workspace at a canonical path, which must hold the marker, with an
    /// identifier of the caller's choice.
    pub fn from_root_with_uuid(
        app_name: &'static str,
        root: FsPath,
        id: Uuid,
        has_marker: bool,
    ) -> (r: Result<Workspace, Error>)
        ensures
            if has_marker {
                &&& r is Ok
                &&& r->Ok_0.root@ == root@
                &&& r->Ok_0.app_name@ == app_name@
                &&& r->Ok_0.uuid == id
            } else {
                r is Err && (r->Err_0 matches Error::MarkerDirMissing { marker, root: d }
                    && marker@ == marker_of(app_name@) && d@ == root.text@)
            },
    {
        if has_marker {
            Ok(Workspace { root, app_name, uuid: id })
        } else {
            Err(Error::MarkerDirMissing { marker: marker_name(app_name), root: root.text })
        }
    }

    /// The marker directory.
    pub fn marker_dir(&self) -> (r: FsPath)
        ensures
            r@ == self.root@.below(marker_of(self.app_name@)),
    {
        self.root.join(&marker_name(self.app_name))
    }

    /// The configuration file.
    pub fn config_path(&self) -> (r: FsPath)
        ensures
            r@ == self.root@.below(marker_of(self.app_name@)).below("config.toml"@),
    {
        self.marker_dir().join("config.toml")
    }

    /// The registry of devices.
    pub fn devices_path(&self) -> (r: FsPath)
        ensures
            r@ == self.root@.below(marker_of(self.app_name@)).below("devices.jsonl"@),
    {
        self.marker_dir().join("devices.jsonl")
    }

    /// The identifier of the workspace.
    pub fn uuid(&self) -> (r: Uuid)
        ensures
            r == self.uuid,
    {
        self.uuid
    }

    /// The cache directory of the workspace, below that of the application.
    pub fn cache_dir(&self, ctx: &AppContext) -> (r: FsPath)
        requires
            ctx@.cache_dir is Some,
        ensures
            r@ == ctx@.cache_dir->0.below(uuid_text(self.uuid@)),
    {
        ctx.cache_dir().join(&self.uuid.to_text())
    }

    /// The retrieval database, named after the version of its tables.
    pub fn retrieve_db_path(&self, ctx: &AppContext) -> (r: FsPath)
        requires
            ctx@.cache_dir is Some,
        ensures
            r@ == ctx@.cache_dir->0.below(uuid_text(self.uuid@)).below(db_file_name()),
    {
        let mut name = "retrieve_v".to_owned();
        name.append(&signed_text(SCHEMA_VERSION as i64));
        name.append(".db");
        self.cache_dir(ctx).join(&name)
    }
}

/// The name of the cache directory of a workspace that is identified by the
/// hash of the bytes of its path: the hash in sixteen digits, and the name of the
/// directory, or `root` for the root of the file system.
pub fn hashed_cache_name(root: &[u8], basename: Option<&str>) -> (r: String)
    ensures
        r@ == hex(fnv1a(root@) as nat, 16) + seq!['-'] + (match basename {
            Some(name) => name@,
            None => "root"@,
        }),
{
    let mut r = String::new();
    push_hex(&mut r, path_hash(root) as u128, 16);
    r.push('-');
    match basename {
        Some(name) => r.append(name),
        None => r.append("root"),
    }
    proof {
        assert(r@ =~= hex(fnv1a(root@) as nat, 16) + seq!['-'] + (match basename {
            Some(name) => name@,
            None => "root"@,
        }));
    }
    r
}

/// Where caches are kept: where the environment says, unless that is empty,
/// else in `.cache` of the home directory, else where temporary files are.
pub fn cache_home(xdg_cache_home: Option<&str>, home: Option<&str>, temp_dir: &str) -> (r: String)
    ensures
        r@ == (if xdg_cache_home is Some && xdg_cache_home->0@.len() > 0 {
            xdg_cache_home->0@
        } else if home is Some {
            below(home->0@, ".cache"@)
        } else {
            temp_dir@
        }),
{
    if let Some(dir) = xdg_cache_home {
        if !dir.is_empty() {
            return dir.to_owned();
        }
    }
    match home {
        Some(dir) => join(dir, ".cache"),
        None => temp_dir.to_owned(),
    }
}

/// The marker of the default application is the one that its name gives.
pub proof fn default_marker_is_named()
    ensures
        DEFAULT_WORKSPACE_MARKER@ == marker_of("sapphire-workspace"@),
{
    reveal_strlit(".sapphire-workspace");
    reveal_strlit("sapphire-workspace");
    assert(DEFAULT_WORKSPACE_MARKER@ =~= marker_of("sapphire-workspace"@));
}

/// The directories in which the marker is looked for start with the path
/// itself, and each one holds the one before it.
pub proof fn chain_goes_up(s: Seq<char>, i: int)
    requires
        0 <= i < chain_of(s).len(),
    ensures
        chain_of(s)[0] == s,
        i + 1 < chain_of(s).len() ==> parent_of(chain_of(s)[i]) == Some(chain_of(s)[i + 1]),
        i + 1 == chain_of(s).len() ==> parent_of(chain_of(s)[i]) is None,
    decreases s.len(),
{
    lemma_parent_shorter(s);
    if let Some(p) = parent_of(s) {
        assert(chain_of(s) == seq![s] + chain_of(p));
        if i > 0 {
            chain_goes_up(p, i - 1);
        } else {
            chain_goes_up(p, 0);
        }
    }
}

proof fn lemma_last_separator_at(s: Seq<char>, at: int, hi: int)
    requires
        0 <= at < hi <= s.len(),
        s[at] == '/',
        forall|i: int| at < i < hi ==> #[trigger] s[i] != '/',
    ensures
        last_separator(s, hi) == at,
    decreases hi,
{
    if hi - 1 > at {
        assert(s[hi - 1] != '/');
        lemma_last_separator_at(s, at, hi - 1);
    }
}

/// The directory that holds a file is what stands before its name, without the
/// separator; that of a file at the root is the root, which has none itself.
pub proof fn directories_hold_their_files(dir: Seq<char>, name: Seq<char>)
    requires
        name.len() > 0,
        forall|i: int| 0 <= i < name.len() ==> #[trigger] name[i] != '/',
    ensures
        dir.len() > 0 ==> parent_of(dir + seq!['/'] + name) == Some(dir),
        dir.len() > 0 ==> chain_of(dir + seq!['/'] + name) == seq![dir + seq!['/'] + name]
            + chain_of(dir),
        parent_of(seq!['/'] + name) == Some(seq!['/']),
        parent_of(seq!['/']) is None,
        chain_of(seq!['/']) == seq![seq!['/']],
{
    let s = dir + seq!['/'] + name;
    let n = dir.len() as int;
    assert(s[n] == '/');
    assert forall|i: int| n < i < s.len() implies #[trigger] s[i] != '/' by {
        assert(s[i] == name[i - n - 1]);
    }
    lemma_last_separator_at(s, n, s.len() as int);
    if n > 0 {
        assert(s.take(n) =~= dir);
    }
    let t = seq!['/'] + name;
    assert forall|i: int| 0 < i < t.len() implies #[trigger] t[i] != '/' by {
        assert(t[i] == name[i - 1]);
    }
    lemma_last_separator_at(t, 0, t.len() as int);
    assert(t.take(1) =~= seq!['/']);
    assert(parent_of(seq!['/']) is None);
}

/// The workspace of a path is the innermost directory that holds the marker;
/// without any the error names the marker and the path.
pub proof fn the_innermost_marker_counts(
    app_name: &'static str,
    start: &str,
    found: Vec<bool>,
    raw: Vec<Vec<u8>>,
    r: Result<Workspace, Error>,
    at: int,
)
    requires
        call_ensures(Workspace::find_from, (app_name, start, &found, &raw), r),
        found@.len() == chain_of(start@).len(),
        raw@.len() == chain_of(start@).len(),
        0 <= at <= found@.len(),
        forall|i: int| 0 <= i < at ==> !(#[trigger] found@[i]),
        at < found@.len() ==> found@[at],
    ensures
        r is Ok <==> at < found@.len(),
        r is Ok ==> r->Ok_0.root.text@ == chain_of(start@)[at] && r->Ok_0.root.raw@ == raw@[at]@
            && r->Ok_0.app_name@ == app_name@ && r->Ok_0.uuid@ == uuid_of_path(raw@[at]@),
        r is Err ==> (r->Err_0 matches Error::MarkerNotFound { marker, start: s } && marker@
            == seq!['.'] + app_name@ && s@ == start@),
{
    lemma_first_true(found@, at);
}

/// However a workspace is come upon, it is the same one: with the same root,
/// identifier and directories.
pub proof fn workspaces_are_known_by_their_root(
    app_name: &'static str,
    root: FsPath,
    there: Workspace,
    named: Result<Workspace, Error>,
    missing: Result<Workspace, Error>,
)
    requires
        call_ensures(Workspace::at, (app_name, root), there),
        call_ensures(Workspace::from_root, (app_name, root, true), named),
        call_ensures(Workspace::from_root, (app_name, root, false), missing),
    ensures
        there.root@ == root@,
        there.uuid@ == uuid_of_path(root.raw@),
        named is Ok,
        named->Ok_0.root@ == there.root@,
        named->Ok_0.uuid@ == there.uuid@,
        named->Ok_0.app_name@ == app_name@,
        missing is Err,
        missing->Err_0 matches Error::MarkerDirMissing { marker, root: d } && marker@ == seq!['.']
            + app_name@ && d@ == root.text@,
{
}

/// The files of a workspace lie in its marker directory, which is named after
/// the application.
pub proof fn settings_lie_in_the_marker_directory(
    workspace: Workspace,
    marker: FsPath,
    config: FsPath,
    devices: FsPath,
)
    requires
        call_ensures(Workspace::marker_dir, (&workspace,), marker),
        call_ensures(Workspace::config_path, (&workspace,), config),
        call_ensures(Workspace::devices_path, (&workspace,), devices),
        workspace.root.text@.len() > 0,
        workspace.root.text@.last() != '/',
    ensures
        marker.text@ == workspace.root.text@ + seq!['/'] + (seq!['.'] + workspace.app_name@),
        workspace.app_name@.len() > 0 && workspace.app_name@.last() != '/' ==> {
            &&& config.text@ == marker.text@ + seq!['/'] + "config.toml"@
            &&& devices.text@ == marker.text@ + seq!['/'] + "devices.jsonl"@
        },
{
    reveal_strlit("config.toml");
    reveal_strlit("devices.jsonl");
    let name = seq!['.'] + workspace.app_name@;
    assert(name[0] == '.');
    names_follow_their_directory(workspace.root.text@, name);
    let dir = workspace.root.text@ + seq!['/'] + name;
    if workspace.app_name@.len() > 0 {
        assert(dir.last() == name.last());
        assert(name.last() == workspace.app_name@.last());
    }
    assert(config@.text == config.text@);
    assert(devices@.text == devices.text@);
    assert(marker@.text == marker.text@);
    names_follow_their_directory(dir, "config.toml"@);
    names_follow_their_directory(dir, "devices.jsonl"@);
}

/// The cache of a workspace lies below that of the application under the
/// identifier of the workspace, and its database in it under the version of its
/// tables. The application finds the same directory for the path of the root.
pub proof fn caches_are_named_by_identifier(
    workspace: Workspace,
    ctx: AppContext,
    root: &[u8],
    cache: FsPath,
    db: FsPath,
    for_root: FsPath,
)
    requires
        call_ensures(Workspace::cache_dir, (&workspace, &ctx), cache),
        call_ensures(Workspace::retrieve_db_path, (&workspace, &ctx), db),
        call_ensures(AppContext::cache_dir_for, (&ctx, root), for_root),
        ctx@.cache_dir is Some,
        ctx@.cache_dir->0.text.len() > 0,
        ctx@.cache_dir->0.text.last() != '/',
    ensures
        cache.text@ == ctx@.cache_dir->0.text + seq!['/'] + uuid_text(workspace.uuid@),
        db.text@ == cache.text@ + seq!['/'] + ("retrieve_v"@ + decimal(SCHEMA_VERSION as nat)
            + ".db"@),
        workspace.uuid@ == uuid_of_path(root@) ==> for_root@ == cache@,
{
    reveal_strlit("retrieve_v");
    let base = ctx@.cache_dir->0.text;
    let id = uuid_text(workspace.uuid@);
    lemma_uuid_text_ends(workspace.uuid@);
    names_follow_their_directory(base, id);
    let dir = base + seq!['/'] + id;
    assert(dir.last() == id.last());
    assert(cache@.text == cache.text@);
    assert(db@.text == db.text@);
    let name = db_file_name();
    assert(name[0] == 'r');
    names_follow_their_directory(dir, name);
}

proof fn lemma_hex_ends(n: nat, width: nat)
    requires
        width > 0,
    ensures
        hex(n, width).len() == width,
        hex(n, width)[0] != '/',
        hex(n, width).last() != '/',
    decreases width,
{
    if width > 1 {
        lemma_hex_ends(n / 16, (width - 1) as nat);
    } else {
        assert(hex(n / 16, 0) =~= Seq::empty());
    }
}

proof fn lemma_uuid_text_ends(value: u128)
    ensures
        uuid_text(value).len() > 0,
        uuid_text(value)[0] != '/',
        uuid_text(value).last() != '/',
{
    let n = value as nat;
    lemma_hex_ends(n / 0x1_0000_0000_0000_0000_0000_0000, 8);
    lemma_hex_ends(n, 12);
    let text = uuid_text(value);
    assert(text[0] == hex(n / 0x1_0000_0000_0000_0000_0000_0000, 8)[0]);
    assert(text.last() == hex(n, 12).last());
}

/// What the caller names comes before what the environment names, and that, if
/// it is not empty, before the current directory.
pub proof fn callers_come_before_the_environment(
    path: FsPath,
    env: Option<&str>,
    named: RootSource,
    other: RootSource,
)
    requires
        call_ensures(root_source, (Some(&path), env), named),
        call_ensures(root_source, (None, env), other),
    ensures
        named matches RootSource::Explicit(p) && p@ == path@,
        env is Some && env->0@.len() > 0 <==> other is Environment,
        other matches RootSource::Environment(p) ==> p@ == env->0@,
        env is None || env->0@.len() == 0 <==> other is CurrentDir,
{
}

/// Nothing but an empty answer and the letter `y`, in either case, gives
/// consent; white space around it does not count.
pub proof fn consent_is_an_empty_answer_or_yes(
    before: Seq<char>,
    core: Seq<char>,
    after: Seq<char>,
    answer: &str,
    consent: bool,
)
    requires
        is_blank(before),
        is_blank(after),
        core.len() > 0 ==> !is_space(core[0]) && !is_space(core.last()),
        answer@ == before + core + after,
        call_ensures(consents, (answer,), consent),
    ensures
        consent <==> core.len() == 0 || core == seq!['y'] || core == seq!['Y'],
{
    reveal_strlit("y");
    reveal_strlit("Y");
    trimming_takes_white_space_only(before, core, after);
    assert("y"@ =~= seq!['y']);
    assert("Y"@ =~= seq!['Y']);
}

/// Caches are kept where the environment says, unless that is empty, else below
/// the home directory, and without one where temporary files are.
pub proof fn caches_are_kept_where_the_environment_says(
    named: &str,
    home: &str,
    temp: &str,
    by_name: String,
    by_home: String,
    without: String,
    in_temp: String,
)
    requires
        call_ensures(cache_home, (Some(named), Some(home), temp), by_name),
        call_ensures(cache_home, (None, Some(home), temp), by_home),
        call_ensures(cache_home, (Some(named), None, temp), without),
        call_ensures(cache_home, (None, None, temp), in_temp),
    ensures
        named@.len() > 0 ==> by_name@ == named@ && without@ == named@,
        named@.len() == 0 ==> by_name@ == by_home@ && without@ == in_temp@,
        by_home@ == below(home@, ".cache"@),
        in_temp@ == temp@,
{
}

/// The name of a cache directory begins with the hash of the path, and ends
/// with the name of the directory; for two directories of one name it differs
/// where the hashes do.
pub proof fn cache_names_tell_paths_apart(
    root: &[u8],
    name: &str,
    cache: String,
    of_root: String,
)
    requires
        call_ensures(hashed_cache_name, (root, Some(name)), cache),
        call_ensures(hashed_cache_name, (root, None), of_root),
    ensures
        cache@.len() == hex(fnv1a(root@) as nat, 16).len() + 1 + name@.len(),
        cache@.take(hex(fnv1a(root@) as nat, 16).len() as int) == hex(fnv1a(root@) as nat, 16),
        cache@.skip(hex(fnv1a(root@) as nat, 16).len() as int) == "-"@ + name@,
        of_root@ == hex(fnv1a(root@) as nat, 16) + "-root"@,
{
    reveal_strlit("-");
    reveal_strlit("root");
    reveal_strlit("-root");
    let digits = hex(fnv1a(root@) as nat, 16);
    assert(cache@.take(digits.len() as int) =~= digits);
    assert(cache@.skip(digits.len() as int) =~= "-"@ + name@);
    assert(of_root@ =~= digits + "-root"@);
}

} // verus!
