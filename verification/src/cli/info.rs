//! Information about caches: files of other versions, and sizes for people.

use crate::number::{
    decimal, digit, is_digits, lemma_signed_read, parse_i32, push_decimal, read_signed,
    signed_decimal, signed_text,
};
use crate::retrieve::config::{EmbeddingConfig, RetrieveConfig, VectorDb};
use crate::retrieve::lance_vectors;
use crate::retrieve::lancedb_store;
use crate::retrieve::sqlite_store;
use crate::retrieve::vector_store::VecInfo;
use crate::text::{
    chars_of, ends_with, has_prefix, has_suffix, join, joined, part_at, same_text, starts_with,
    string_of, texts,
};
use crate::workspace::workspace_state::DbInfo;
use vstd::prelude::*;

verus! {

/// A file of this name is a database of another version: it is named as one,
/// but not as the present one.
pub open spec fn stale_db(name: Seq<char>) -> bool {
    has_prefix(name, "retrieve_v"@) && has_suffix(name, ".db"@) && name
        != sqlite_store::db_file_name()
}

/// Whether a file is a database of another version.
pub fn is_stale_retrieve(name: &str) -> (r: bool)
    ensures
        r == stale_db(name@),
{
    let mut current = "retrieve_v".to_owned();
    current.append(&signed_text(sqlite_store::SCHEMA_VERSION as i64));
    current.append(".db");
    starts_with(name, "retrieve_v") && ends_with(name, ".db") && !same_text(name, &current)
}

/// The rest of `name` after `prefix`; nothing where `name` starts otherwise.
pub open spec fn rest_after(name: Seq<char>, prefix: Seq<char>) -> Seq<char> {
    if has_prefix(name, prefix) {
        name.skip(prefix.len() as int)
    } else {
        Seq::empty()
    }
}

/// The name that goes with LanceDB tables of a version when stale ones are
/// looked for.
pub open spec fn tables_name(version: int) -> Seq<char> {
    "lancedb_full_v"@ + signed_decimal(version)
}

/// A directory of this name counts as LanceDB tables of another version: the
/// name is that of tables with a version, but not with the present one.
/// Directories whose name starts with `lancedb_v` do not count; they are left
/// for the user to remove.
pub open spec fn stale_tables(name: Seq<char>) -> bool {
    read_signed(rest_after(name, "lancedb_full_v"@), i32::MAX as nat) is Some && name
        != tables_name(lancedb_store::SCHEMA_VERSION as int)
}

/// What is cleaned up is never in use: neither the database of the present
/// version nor the directory of either kind of LanceDB tables counts as stale,
/// that of an index and that of vectors beside a SQLite index.
pub proof fn present_versions_are_kept()
    ensures
        !stale_db(sqlite_store::db_file_name()),
        !stale_tables(tables_name(lancedb_store::SCHEMA_VERSION as int)),
        !stale_tables(lancedb_store::dir_name()),
        !stale_tables(lance_vectors::vectors_dir_name()),
{
    lemma_short_name(lancedb_store::SCHEMA_VERSION as int);
    lemma_short_name(lance_vectors::LANCEDB_SCHEMA_VERSION as int);
}

/// A directory whose name starts with `lancedb_v` does not count as stale.
proof fn lemma_short_name(version: int)
    ensures
        !stale_tables("lancedb_v"@ + signed_decimal(version)),
{
    reveal_strlit("lancedb_full_v");
    reveal_strlit("lancedb_v");
    let name = "lancedb_v"@ + signed_decimal(version);
    assert(name[8] == 'v');
    if has_prefix(name, "lancedb_full_v"@) {
        assert(name.subrange(0, 14)[8] == name[8]);
        assert("lancedb_full_v"@[8] == 'f');
    }
    assert(!is_digits(Seq::<char>::empty()));
}

/// Tables of every other version are found when stale ones are looked for.
pub proof fn other_versions_are_stale(version: i32)
    requires
        version != lancedb_store::SCHEMA_VERSION,
    ensures
        stale_tables(tables_name(version as int)),
{
    let prefix = "lancedb_full_v"@;
    let n = prefix.len() as int;
    let text = signed_decimal(version as int);
    let name = tables_name(version as int);
    let current = signed_decimal(lancedb_store::SCHEMA_VERSION as int);
    lemma_signed_read(version as int, i32::MAX as nat);
    lemma_signed_read(lancedb_store::SCHEMA_VERSION as int, i32::MAX as nat);
    assert(name.subrange(0, n) =~= prefix);
    assert(rest_after(name, prefix) =~= text);
    if name == prefix + current {
        assert(name.skip(n) =~= current);
    }
}

/// Whether a directory counts as LanceDB tables of another version.
pub fn is_stale_lancedb(name: &str) -> (r: bool)
    ensures
        r == stale_tables(name@),
{
    if !starts_with(name, "lancedb_full_v") {
        proof {
            assert(!is_digits(Seq::<char>::empty()));
        }
        return false;
    }
    let cs = chars_of(name);
    let from = "lancedb_full_v".unicode_len();
    let suffix = string_of(&cs, from, cs.len());
    proof {
        assert(suffix@ =~= rest_after(name@, "lancedb_full_v"@));
    }
    let mut current = "lancedb_full_v".to_owned();
    current.append(&signed_text(lancedb_store::SCHEMA_VERSION as i64));
    parse_i32(&suffix).is_some() && !same_text(name, &current)
}

/// `n / d`, rounded to the nearest whole number, to the even one of two that
/// are equally near.
pub open spec fn half_even(n: nat, d: nat) -> nat {
    let q = n / d;
    let r = n % d;
    if 2 * r > d || (2 * r == d && q % 2 == 1) {
        q + 1
    } else {
        q
    }
}

/// The distance between the numbers that double precision has in the order of
/// magnitude of `n`, from `unit` on upwards.
pub open spec fn double_unit(n: nat, unit: nat) -> nat
    decreases n / unit,
{
    if unit == 0 || n / unit < 0x20_0000_0000_0000 {
        unit
    } else {
        proof {
            lemma_halves(n, unit);
        }
        double_unit(n, 2 * unit)
    }
}

/// `n` in double precision.
pub open spec fn in_double(n: nat) -> nat {
    let unit = double_unit(n, 1);
    half_even(n, unit) * unit
}

/// A twice as large unit goes half as often.
pub proof fn lemma_halves(n: nat, unit: nat)
    requires
        unit > 0,
    ensures
        n / (2 * unit) == (n / unit) / 2,
{
    vstd::arithmetic::div_mod::lemma_div_denominator(n as int, unit as int, 2);
    assert(unit * 2 == 2 * unit);
}

/// A number of tenths with one decimal.
pub open spec fn with_one_decimal(tenths: nat) -> Seq<char> {
    decimal(tenths / 10) + seq!['.', digit((tenths % 10) as int)]
}

/// A size for people: with one decimal in the largest unit that it reaches, or
/// in bytes.
pub open spec fn size_text(bytes: u64) -> Seq<char> {
    let n = in_double(bytes as nat);
    if bytes >= 1_073_741_824 {
        with_one_decimal(half_even(10 * n, 1_073_741_824)) + " GB"@
    } else if bytes >= 1_048_576 {
        with_one_decimal(half_even(10 * n, 1_048_576)) + " MB"@
    } else if bytes >= 1_024 {
        with_one_decimal(half_even(10 * n, 1_024)) + " KB"@
    } else {
        decimal(bytes as nat) + " B"@
    }
}

/// `n / d`, rounded to the nearest whole number.
fn round_half_even(n: u128, d: u128) -> (r: u128)
    requires
        0 < d <= 0x8000_0000_0000_0000,
    ensures
        r == half_even(n as nat, d as nat),
        r <= n / d + 1,
{
    let q: u128 = n / d;
    let rest: u128 = n % d;
    proof {
        vstd::arithmetic::div_mod::lemma_div_is_ordered_by_denominator(n as int, 1, d as int);
        assert(n as int / 1 == n as int);
        if q == u128::MAX {
            vstd::arithmetic::div_mod::lemma_fundamental_div_mod(n as int, d as int);
            assert(d * q >= q && (d > 1 ==> d * q >= 2 * q)) by (nonlinear_arith)
                requires
                    d >= 1,
                    q >= 0,
            ;
        }
    }
    if 2 * rest > d || (2 * rest == d && q % 2 == 1) {
        q + 1
    } else {
        q
    }
}

/// `bytes` in double precision.
fn to_double(bytes: u64) -> (r: u128)
    ensures
        r == in_double(bytes as nat),
        r <= 0x1_0000_0000_0000_0000,
{
    let n: u128 = bytes as u128;
    let mut unit: u128 = 1;
    while n / unit >= 0x20_0000_0000_0000
        invariant
            n == bytes,
            1 <= unit <= 0x800,
            double_unit(n as nat, 1) == double_unit(n as nat, unit as nat),
            unit == 1 || unit == 2 || unit == 4 || unit == 8 || unit == 16 || unit == 32 || unit
                == 64 || unit == 128 || unit == 256 || unit == 512 || unit == 1024 || unit == 2048,
        decreases 0x1000 - unit,
    {
        proof {
            lemma_halves(n as nat, unit as nat);
            if unit == 0x800 {
                assert(n / 0x800 < 0x20_0000_0000_0000);
            }
        }
        unit = unit * 2;
    }
    let q = round_half_even(n, unit);
    proof {
        assert(n / unit <= 0x1f_ffff_ffff_ffff);
        assert(q <= 0x20_0000_0000_0000);
        assert(q * unit <= 0x1_0000_0000_0000_0000) by (nonlinear_arith)
            requires
                q <= 0x20_0000_0000_0000,
                unit <= 0x800,
        ;
    }
    q * unit
}

/// Appends a number of tenths with one decimal.
fn push_tenths(out: &mut String, tenths: u64)
    ensures
        final(out)@ == old(out)@ + with_one_decimal(tenths as nat),
{
    push_decimal(out, tenths / 10);
    out.push('.');
    push_decimal(out, tenths % 10);
    proof {
        assert(decimal((tenths % 10) as nat) =~= seq![digit((tenths % 10) as int)]);
        assert(out@ =~= old(out)@ + with_one_decimal(tenths as nat));
    }
}

/// A size for people.
pub fn human_size(bytes: u64) -> (r: String)
    ensures
        r@ == size_text(bytes),
{
    let n = to_double(bytes);
    let mut r = String::new();
    proof {
        assert(r@ =~= Seq::empty());
        assert(Seq::<char>::empty() + with_one_decimal(0) =~= with_one_decimal(0));
    }
    if bytes >= 1_073_741_824 {
        let tenths = round_half_even(10 * n, 1_073_741_824);
        push_tenths(&mut r, tenths as u64);
        r.append(" GB");
    } else if bytes >= 1_048_576 {
        let tenths = round_half_even(10 * n, 1_048_576);
        proof {
            assert(tenths <= 10 * n / 1_048_576 + 1);
        }
        push_tenths(&mut r, tenths as u64);
        r.append(" MB");
    } else if bytes >= 1_024 {
        let tenths = round_half_even(10 * n, 1_024);
        push_tenths(&mut r, tenths as u64);
        r.append(" KB");
    } else {
        push_decimal(&mut r, bytes);
        r.append(" B");
    }
    proof {
        assert(r@ =~= size_text(bytes));
    }
    r
}

/// The line about files of other versions.
pub open spec fn stale_line(label: Seq<char>, names: Seq<Seq<char>>, total: u64) -> Seq<char> {
    label + joined(names, ", "@) + " ("@ + size_text(total)
        + ") \u{2014} run `sapphire-workspace clean` to remove"@
}

/// The lines about a workspace and its database, with one more where there are
/// databases of other versions.
pub open spec fn overview(
    root: Seq<char>,
    info: DbInfo,
    stale: Seq<Seq<char>>,
    total: u64,
) -> Seq<Seq<char>> {
    let lines = seq![
        "workspace:      "@ + root,
        "db path:        "@ + info.db_path.text@,
        "schema version: v"@ + signed_decimal(info.schema_version as int) + " (app: v"@
            + signed_decimal(sqlite_store::SCHEMA_VERSION as int) + ")"@,
        "documents:      "@ + decimal(info.document_count as nat),
    ];
    if stale.len() > 0 {
        lines.push(stale_line("stale dbs:      "@, stale, total))
    } else {
        lines
    }
}

/// The line about the embedding provider.
pub open spec fn provider_line(e: EmbeddingConfig) -> Seq<char> {
    "embedding:      "@ + (if e.enabled {
        "enabled"@
    } else {
        "disabled"@
    }) + " (provider="@ + e.provider@ + ", model="@ + e.model@ + ")"@
}

/// The line about the number of vectors.
pub open spec fn vectors_line(v: VecInfo) -> Seq<char> {
    "vectors:        "@ + decimal(v.vector_count as nat) + " indexed, "@ + decimal(
        v.pending_count as nat,
    ) + " pending"@
}

/// The lines about the back end for vectors, as far as its statistics could be
/// read.
pub open spec fn backend_lines(
    config: RetrieveConfig,
    dimension: Option<u32>,
    vectors: Option<VecInfo>,
    lancedb_dir: Seq<char>,
    stale: Seq<Seq<char>>,
    total: u64,
) -> Seq<Seq<char>> {
    match config.db {
        VectorDb::Disabled => Seq::empty(),
        VectorDb::SqliteVec => if dimension is None {
            seq!["vector backend: sqlite_vec (dimension not configured)"@]
        } else {
            match vectors {
                Some(v) => seq![
                    "vector backend: sqlite_vec (dim="@ + decimal(v.embedding_dim as nat) + ")"@,
                    vectors_line(v),
                ],
                None => Seq::empty(),
            }
        },
        VectorDb::LanceDb => if dimension is None {
            seq!["vector backend: lancedb (dimension not configured)"@]
        } else {
            let first = seq!["vector backend: lancedb"@, "lancedb path:   "@ + lancedb_dir];
            let second = match vectors {
                Some(v) => first.push(vectors_line(v)),
                None => first,
            };
            if stale.len() > 0 {
                second.push(stale_line("stale lancedb:  "@, stale, total))
            } else {
                second
            }
        },
    }
}

/// The lines about embeddings; none without a provider.
pub open spec fn embedding_lines(
    config: RetrieveConfig,
    vectors: Option<VecInfo>,
    lancedb_dir: Seq<char>,
    stale: Seq<Seq<char>>,
    total: u64,
) -> Seq<Seq<char>> {
    match config.embedding {
        Some(e) => seq![provider_line(e)] + backend_lines(
            config,
            e.dimension,
            vectors,
            lancedb_dir,
            stale,
            total,
        ),
        None => Seq::empty(),
    }
}

/// Appends a line.
fn push_line(lines: &mut Vec<String>, line: String)
    ensures
        texts(final(lines)@) == texts(old(lines)@).push(line@),
{
    lines.push(line);
    proof {
        assert(texts(lines@) =~= texts(old(lines)@).push(line@));
    }
}

/// `label` followed by `text`.
fn labelled(label: &str, text: &str) -> (r: String)
    ensures
        r@ == label@ + text@,
{
    let mut r = label.to_owned();
    r.append(text);
    r
}

fn stale_text(label: &str, names: &Vec<String>, total: u64) -> (r: String)
    ensures
        r@ == stale_line(label@, texts(names@), total),
{
    let mut r = label.to_owned();
    r.append(&join(names, ", "));
    r.append(" (");
    r.append(&human_size(total));
    r.append(") \u{2014} run `sapphire-workspace clean` to remove");
    r
}

fn vectors_text(v: &VecInfo) -> (r: String)
    ensures
        r@ == vectors_line(*v),
{
    let mut r = "vectors:        ".to_owned();
    push_decimal(&mut r, v.vector_count);
    r.append(" indexed, ");
    push_decimal(&mut r, v.pending_count);
    r.append(" pending");
    r
}

/// Describes a workspace and its database.
pub fn describe(root: &str, info: &DbInfo, stale: &Vec<String>, total: u64) -> (r: Vec<String>)
    ensures
        texts(r@) == overview(root@, *info, texts(stale@), total),
{
    let mut r: Vec<String> = Vec::new();
    push_line(&mut r, labelled("workspace:      ", root));
    push_line(&mut r, labelled("db path:        ", &info.db_path.text));
    let mut version = labelled("schema version: v", &signed_text(info.schema_version as i64));
    version.append(" (app: v");
    version.append(&signed_text(sqlite_store::SCHEMA_VERSION as i64));
    version.append(")");
    push_line(&mut r, version);
    let mut documents = "documents:      ".to_owned();
    push_decimal(&mut documents, info.document_count);
    push_line(&mut r, documents);
    if stale.len() > 0 {
        push_line(&mut r, stale_text("stale dbs:      ", stale, total));
    }
    proof {
        assert(texts(r@) =~= overview(root@, *info, texts(stale@), total));
    }
    r
}

/// Describes the embeddings of a workspace, from its configuration and the
/// statistics of its vectors, as far as they could be read.
pub fn describe_embedding(
    config: &RetrieveConfig,
    vectors: Option<VecInfo>,
    lancedb_dir: &str,
    stale: &Vec<String>,
    total: u64,
) -> (r: Vec<String>)
    ensures
        texts(r@) == embedding_lines(*config, vectors, lancedb_dir@, texts(stale@), total),
{
    let mut r: Vec<String> = Vec::new();
    if let Some(e) = &config.embedding {
        let mut provider = "embedding:      ".to_owned();
        if e.enabled {
            provider.append("enabled");
        } else {
            provider.append("disabled");
        }
        provider.append(" (provider=");
        provider.append(&e.provider);
        provider.append(", model=");
        provider.append(&e.model);
        provider.append(")");
        push_line(&mut r, provider);
        match config.db {
            VectorDb::Disabled => {},
            VectorDb::SqliteVec => {
                if e.dimension.is_none() {
                    push_line(
                        &mut r,
                        "vector backend: sqlite_vec (dimension not configured)".to_owned(),
                    );
                } else if let Some(v) = &vectors {
                    let mut backend = "vector backend: sqlite_vec (dim=".to_owned();
                    push_decimal(&mut backend, v.embedding_dim as u64);
                    backend.append(")");
                    push_line(&mut r, backend);
                    push_line(&mut r, vectors_text(v));
                }
            },
            VectorDb::LanceDb => {
                if e.dimension.is_none() {
                    push_line(
                        &mut r,
                        "vector backend: lancedb (dimension not configured)".to_owned(),
                    );
                } else {
                    push_line(&mut r, "vector backend: lancedb".to_owned());
                    push_line(&mut r, labelled("lancedb path:   ", lancedb_dir));
                    if let Some(v) = &vectors {
                        push_line(&mut r, vectors_text(v));
                    }
                    if stale.len() > 0 {
                        push_line(&mut r, stale_text("stale lancedb:  ", stale, total));
                    }
                }
            },
        }
    }
    proof {
        assert(texts(r@) =~= embedding_lines(
            *config,
            vectors,
            lancedb_dir@,
            texts(stale@),
            total,
        ));
    }
    r
}

/// A database counts as one of another version exactly if the version in its
/// name is another one; no other file does.
pub proof fn databases_of_other_versions_are_stale(name: Seq<char>, version: Seq<char>)
    ensures
        stale_db("retrieve_v"@ + version + ".db"@) <==> version != decimal(
            sqlite_store::SCHEMA_VERSION as nat,
        ),
        stale_db(name) ==> has_prefix(name, "retrieve_v"@) && has_suffix(name, ".db"@),
{
    let head = "retrieve_v"@;
    let tail = ".db"@;
    let s = head + version + tail;
    assert(s.subrange(0, head.len() as int) =~= head);
    assert(s.subrange(s.len() - tail.len(), s.len() as int) =~= tail);
    let present = decimal(sqlite_store::SCHEMA_VERSION as nat);
    assert(sqlite_store::db_file_name() == head + present + tail);
    if s == head + present + tail {
        let t = head + present + tail;
        assert(version =~= s.subrange(head.len() as int, s.len() - tail.len()));
        assert(present =~= t.subrange(head.len() as int, t.len() - tail.len()));
    }
}

/// A directory counts as tables of another version exactly if its name is
/// `lancedb_full_v` and a version that is a whole number, but not the present
/// one.
pub proof fn tables_of_other_versions_are_stale(name: Seq<char>, version: Seq<char>)
    ensures
        stale_tables("lancedb_full_v"@ + version) <==> read_signed(
            version,
            i32::MAX as nat,
        ) is Some && version != signed_decimal(lancedb_store::SCHEMA_VERSION as int),
        stale_tables(name) ==> has_prefix(name, "lancedb_full_v"@),
{
    let head = "lancedb_full_v"@;
    let s = head + version;
    assert(s.subrange(0, head.len() as int) =~= head);
    assert(s.skip(head.len() as int) =~= version);
    let present = signed_decimal(lancedb_store::SCHEMA_VERSION as int);
    if s == head + present {
        assert((head + present).skip(head.len() as int) =~= present);
    }
    if !has_prefix(name, head) {
        assert(rest_after(name, head).len() == 0);
        assert(!is_digits(rest_after(name, head)));
    }
}

proof fn lemma_half_even(n: nat, d: nat)
    requires
        d > 0,
    ensures
        -d <= 2 * (half_even(n, d) * d - n) <= d,
        2 * (half_even(n, d) * d - n) == d || 2 * (half_even(n, d) * d - n) == -d ==> half_even(n, d)
            % 2 == 0,
        n < d ==> half_even(n, d) <= 1,
{
    let q = n / d;
    let r = n % d;
    vstd::arithmetic::div_mod::lemma_fundamental_div_mod(n as int, d as int);
    assert(d * q == q * d && (q + 1) * d == q * d + d) by (nonlinear_arith);
    if n < d {
        vstd::arithmetic::div_mod::lemma_basic_div(n as int, d as int);
    }
}

proof fn lemma_in_double(bytes: u64)
    ensures
        -1024 <= in_double(bytes as nat) - bytes <= 1024,
        bytes < 0x20_0000_0000_0000 ==> in_double(bytes as nat) == bytes,
{
    let n = bytes as nat;
    reveal_with_fuel(double_unit, 13);
    let unit = double_unit(n, 1);
    assert(n / 2048 < 0x20_0000_0000_0000);
    assert(0 < unit <= 2048);
    lemma_half_even(n, unit);
    if bytes < 0x20_0000_0000_0000 {
        assert(n / 1 == n);
        assert(unit == 1);
        assert(half_even(n, 1) == n);
    }
}

/// A size is given in the largest unit that it reaches, with one decimal, and
/// rounded to the nearest tenth, a half to the even one. Above what double
/// precision can tell apart, it is off by no more than that; below the first
/// unit it is given in bytes, exactly.
pub proof fn sizes_are_rounded_to_tenths(
    bytes: u64,
    text: String,
    unit: nat,
    name: Seq<char>,
) -> (tenths: nat)
    requires
        call_ensures(human_size, (bytes,), text),
        unit == 1_024 && name == " KB"@ || unit == 1_048_576 && name == " MB"@ || unit
            == 1_073_741_824 && name == " GB"@ || unit == 1 && name == " B"@,
        unit == 1 || unit <= bytes,
        unit < 1_073_741_824 ==> bytes < 1_024 * unit,
    ensures
        unit == 1 ==> text@ == decimal(bytes as nat) + name,
        unit > 1 ==> {
            &&& text@ == decimal(tenths / 10) + "."@ + decimal(tenths % 10) + name
            &&& -unit - 20_480 <= 2 * (tenths * unit - 10 * bytes) <= unit + 20_480
            &&& bytes < 0x20_0000_0000_0000 ==> -unit <= 2 * (tenths * unit - 10 * bytes) <= unit
            &&& bytes < 0x20_0000_0000_0000 && (2 * (tenths * unit - 10 * bytes) == unit || 2 * (
            tenths * unit - 10 * bytes) == -unit) ==> tenths % 2 == 0
        },
{
    let n = in_double(bytes as nat);
    let tenths = half_even(10 * n, unit);
    lemma_in_double(bytes);
    lemma_half_even(10 * n, unit);
    reveal_strlit(".");
    assert(decimal(tenths % 10) =~= seq![digit((tenths % 10) as int)]);
    assert(decimal(tenths / 10) + "."@ + decimal(tenths % 10) =~= with_one_decimal(tenths));
    tenths
}

/// The description of a workspace gives its root, the place of its database,
/// both versions and the number of documents, and names the databases of other
/// versions with their size, where there are any.
pub proof fn descriptions_say_what_there_is(
    root: &str,
    info: &DbInfo,
    stale: &Vec<String>,
    total: u64,
    lines: Vec<String>,
    size: String,
)
    requires
        call_ensures(describe, (root, info, stale, total), lines),
        call_ensures(human_size, (total,), size),
    ensures
        lines@.len() == if stale@.len() > 0 {
            5int
        } else {
            4
        },
        has_prefix(lines@[0]@, "workspace:"@) && lines@[0]@.skip(16) == root@,
        has_prefix(lines@[1]@, "db path:"@) && lines@[1]@.skip(16) == info.db_path.text@,
        part_at(lines@[2]@, signed_decimal(info.schema_version as int), 17),
        has_suffix(
            lines@[2]@,
            "(app: v"@ + signed_decimal(sqlite_store::SCHEMA_VERSION as int) + ")"@,
        ),
        has_prefix(lines@[3]@, "documents:"@) && lines@[3]@.skip(16) == decimal(
            info.document_count as nat,
        ),
        stale@.len() > 0 ==> has_prefix(lines@[4]@, "stale dbs:"@) && has_prefix(
            lines@[4]@.skip(16),
            joined(texts(stale@), ", "@) + " ("@ + size@ + ")"@,
        ),
{
    reveal_strlit("workspace:      ");
    reveal_strlit("workspace:");
    reveal_strlit("db path:        ");
    reveal_strlit("db path:");
    reveal_strlit("schema version: v");
    reveal_strlit(" (app: v");
    reveal_strlit("(app: v");
    reveal_strlit(")");
    reveal_strlit("documents:      ");
    reveal_strlit("documents:");
    reveal_strlit("stale dbs:      ");
    reveal_strlit("stale dbs:");
    reveal_strlit(" (");
    reveal_strlit(") \u{2014} run `sapphire-workspace clean` to remove");
    let all = texts(lines@);
    assert(all.len() == lines@.len());
    assert(all[0] == lines@[0]@ && all[1] == lines@[1]@ && all[2] == lines@[2]@ && all[3]
        == lines@[3]@);
    assert(lines@[0]@.subrange(0, 10) =~= "workspace:"@);
    assert(lines@[0]@.skip(16) =~= root@);
    assert(lines@[1]@.subrange(0, 8) =~= "db path:"@);
    assert(lines@[1]@.skip(16) =~= info.db_path.text@);
    let version = signed_decimal(info.schema_version as int);
    assert(lines@[2]@.subrange(17, (17 + version.len()) as int) =~= version);
    let app = "(app: v"@ + signed_decimal(sqlite_store::SCHEMA_VERSION as int) + ")"@;
    assert(lines@[2]@.subrange(lines@[2]@.len() - app.len(), lines@[2]@.len() as int) =~= app);
    assert(lines@[3]@.subrange(0, 10) =~= "documents:"@);
    assert(lines@[3]@.skip(16) =~= decimal(info.document_count as nat));
    assert(texts(stale@).len() == stale@.len());
    if stale@.len() > 0 {
        assert(all[4] == lines@[4]@);
        assert(lines@[4]@.subrange(0, 10) =~= "stale dbs:"@);
        let start = joined(texts(stale@), ", "@) + " ("@ + size@ + ")"@;
        assert(lines@[4]@.skip(16).subrange(0, start.len() as int) =~= start);
    }
}

/// The description of the embeddings names the provider and the model, and the
/// back end for vectors where there is one, with its statistics as far as they
/// are known; without a provider there is none.
pub proof fn embeddings_are_described_as_configured(
    config: &RetrieveConfig,
    vectors: Option<VecInfo>,
    dir: &str,
    stale: &Vec<String>,
    total: u64,
    lines: Vec<String>,
    at: int,
)
    requires
        call_ensures(describe_embedding, (config, vectors, dir, stale, total), lines),
        at == if config.db == VectorDb::SqliteVec {
            2int
        } else {
            3
        },
    ensures
        config.embedding is None <==> lines@.len() == 0,
        config.embedding is Some ==> {
            let e = config.embedding->0;
            let extra = if vectors is Some {
                1int
            } else {
                0
            };
            &&& has_prefix(lines@[0]@.skip(16), "enabled"@) <==> e.enabled
            &&& has_suffix(
                lines@[0]@,
                " (provider="@ + e.provider@ + ", model="@ + e.model@ + ")"@,
            )
            &&& config.db == VectorDb::Disabled ==> lines@.len() == 1
            &&& config.db != VectorDb::Disabled && e.dimension is None ==> lines@.len() == 2
                && has_suffix(lines@[1]@, "(dimension not configured)"@)
            &&& config.db == VectorDb::SqliteVec && e.dimension is Some ==> lines@.len() == 1 + 2
                * extra
            &&& config.db == VectorDb::LanceDb && e.dimension is Some ==> lines@.len() == 3 + extra
                + (if stale@.len() > 0 {
                1int
            } else {
                0
            }) && lines@[2]@.skip(16) == dir@
            &&& config.db != VectorDb::Disabled && e.dimension is Some && vectors is Some
                ==> lines@[at]@.skip(16) == decimal(vectors->0.vector_count as nat) + " indexed, "@
                + decimal(vectors->0.pending_count as nat) + " pending"@
        },
{
    reveal_strlit("embedding:      ");
    reveal_strlit("enabled");
    reveal_strlit("disabled");
    reveal_strlit("vector backend: sqlite_vec (dimension not configured)");
    reveal_strlit("vector backend: lancedb (dimension not configured)");
    reveal_strlit("(dimension not configured)");
    reveal_strlit("lancedb path:   ");
    reveal_strlit("vectors:        ");
    reveal_strlit(" (provider=");
    let all = texts(lines@);
    assert(all.len() == lines@.len());
    assert(texts(stale@).len() == stale@.len());
    if let Some(e) = config.embedding {
        let first = lines@[0]@;
        assert(all[0] == first);
        let end = " (provider="@ + e.provider@ + ", model="@ + e.model@ + ")"@;
        assert(first.subrange(first.len() - end.len(), first.len() as int) =~= end);
        if e.enabled {
            assert(first.skip(16).subrange(0, 7) =~= "enabled"@);
        } else {
            assert(first.skip(16).len() >= 8);
            assert(first.skip(16)[0] == 'd');
            if has_prefix(first.skip(16), "enabled"@) {
                assert(first.skip(16).subrange(0, 7)[0] == 'd');
            }
        }
        if config.db != VectorDb::Disabled && e.dimension is None {
            let second = lines@[1]@;
            assert(all[1] == second);
            assert(second.subrange(second.len() - 26, second.len() as int)
                =~= "(dimension not configured)"@);
        }
        if config.db == VectorDb::LanceDb && e.dimension is Some {
            assert(all[2] == lines@[2]@);
            assert(lines@[2]@.skip(16) =~= dir@);
        }
        if config.db != VectorDb::Disabled && e.dimension is Some && vectors is Some {
            assert(all[at] == lines@[at]@);
            assert(lines@[at]@.skip(16) =~= decimal(vectors->0.vector_count as nat) + " indexed, "@
                + decimal(vectors->0.pending_count as nat) + " pending"@);
        }
    }
}

} // verus!
