//! Layering of configuration files.

use vstd::prelude::*;

verus! {

#[verifier::external_type_specification]
#[verifier::external_body]
pub struct ExTomlValue(toml::Value);

#[verifier::external_type_specification]
#[verifier::external_body]
#[verifier::reject_recursive_types(K)]
#[verifier::reject_recursive_types(V)]
pub struct ExTomlMap<K, V>(toml::map::Map<K, V>);

/// A TOML value, as the contracts speak of it: a table, or anything else.
pub enum Toml {
    Table(Map<Seq<char>, Toml>),
    Leaf(toml::Value),
}

/// What a `toml::Value` holds.
pub uninterp spec fn toml_of(v: toml::Value) -> Toml;

/// What a TOML table holds.
pub uninterp spec fn table_of(t: toml::map::Map<String, toml::Value>) -> Map<Seq<char>, Toml>;

/// A TOML value with the table taken out, where it is one.
pub enum TomlNode {
    Table(toml::map::Map<String, toml::Value>),
    Leaf(toml::Value),
}

/// The variants of `toml::Value`, told apart: a table gives its entries, any
/// other value stays as it is.
#[verifier::external_body]
fn toml_node(v: toml::Value) -> (r: TomlNode)
    ensures
        match r {
            TomlNode::Table(t) => toml_of(v) == Toml::Table(table_of(t)),
            TomlNode::Leaf(leaf) => leaf == v && toml_of(v) == Toml::Leaf(v),
        },
{
    match v {
        toml::Value::Table(t) => TomlNode::Table(t),
        leaf => TomlNode::Leaf(leaf),
    }
}

/// The variant `toml::Value::Table`: the value that holds the given table.
#[verifier::external_body]
fn table_value(t: toml::map::Map<String, toml::Value>) -> (r: toml::Value)
    ensures
        toml_of(r) == Toml::Table(table_of(t)),
{
    toml::Value::Table(t)
}

/// `toml::map::Map::into_iter`: the entries of a table, each key once.
#[verifier::external_body]
fn table_entries(t: toml::map::Map<String, toml::Value>) -> (r: Vec<(String, toml::Value)>)
    ensures
        forall|i: int|
            0 <= i < r@.len() ==> table_of(t).contains_key((#[trigger] r@[i]).0@) && table_of(
                t,
            )[r@[i].0@] == toml_of(r@[i].1),
        forall|i: int, j: int|
            0 <= i < j < r@.len() ==> (#[trigger] r@[i]).0@ != (#[trigger] r@[j]).0@,
        forall|k: Seq<char>| #[trigger]
            table_of(t).contains_key(k) ==> exists|i: int|
                0 <= i < r@.len() && (#[trigger] r@[i]).0@ == k,
{
    t.into_iter().collect()
}

/// `toml::map::Map::remove`: takes out the entry of a key and gives back its
/// value, if there is one.
#[verifier::external_body]
fn table_remove(t: &mut toml::map::Map<String, toml::Value>, key: &str) -> (r: Option<toml::Value>)
    ensures
        table_of(*final(t)) == table_of(*old(t)).remove(key@),
        r is Some <==> table_of(*old(t)).contains_key(key@),
        r is Some ==> toml_of(r->0) == table_of(*old(t))[key@],
{
    t.remove(key)
}

/// `toml::map::Map::insert`: puts in the entry of a key, in place of the one
/// that is there.
#[verifier::external_body]
fn table_insert(t: &mut toml::map::Map<String, toml::Value>, key: String, value: toml::Value)
    ensures
        table_of(*final(t)) == table_of(*old(t)).insert(key@, toml_of(value)),
{
    t.insert(key, value);
}

/// `overlay` laid over `base`. Tables are merged entry by entry, and so are
/// the tables in them; anything else in `overlay` replaces what `base` has.
pub open spec fn merged_toml(base: Toml, overlay: Toml) -> Toml
    decreases overlay,
{
    match (base, overlay) {
        (Toml::Table(b), Toml::Table(o)) => Toml::Table(
            Map::new(
                |k: Seq<char>| b.contains_key(k) || o.contains_key(k),
                |k: Seq<char>|
                    if o.contains_key(k) {
                        if b.contains_key(k) {
                            merged_toml(b[k], o[k])
                        } else {
                            o[k]
                        }
                    } else {
                        b[k]
                    },
            ),
        ),
        _ => overlay,
    }
}

/// Lays `overlay` over `base`; see [`merged_toml`].
pub fn merge_toml_values(base: toml::Value, overlay: toml::Value) -> (r: toml::Value)
    ensures
        toml_of(r) == merged_toml(toml_of(base), toml_of(overlay)),
    decreases toml_of(overlay),
{
    match (toml_node(base), toml_node(overlay)) {
        (TomlNode::Table(base_map), TomlNode::Table(overlay_map)) => {
            let ghost b = table_of(base_map);
            let ghost o = table_of(overlay_map);
            let mut base_map = base_map;
            let mut entries = table_entries(overlay_map);
            let ghost all = entries@;
            let ghost wanted = merged_toml(Toml::Table(b), Toml::Table(o))->Table_0;
            while entries.len() > 0
                invariant
                    toml_of(overlay) == Toml::Table(o),
                    wanted == merged_toml(Toml::Table(b), Toml::Table(o))->Table_0,
                    entries@.len() <= all.len(),
                    entries@ == all.take(entries@.len() as int),
                    forall|i: int|
                        0 <= i < all.len() ==> o.contains_key((#[trigger] all[i]).0@)
                            && o[all[i].0@] == toml_of(all[i].1),
                    forall|i: int, j: int|
                        0 <= i < j < all.len() ==> (#[trigger] all[i]).0@ != (#[trigger] all[j]).0@,
                    forall|k: Seq<char>| #[trigger]
                        o.contains_key(k) ==> exists|i: int|
                            0 <= i < all.len() && (#[trigger] all[i]).0@ == k,
                    forall|i: int|
                        entries@.len() <= i < all.len() ==> table_of(base_map).contains_key(
                            (#[trigger] all[i]).0@,
                        ) && table_of(base_map)[all[i].0@] == wanted[all[i].0@],
                    forall|k: Seq<char>|
                        (forall|i: int|
                            entries@.len() <= i < all.len() ==> (#[trigger] all[i]).0@ != k) ==> (
                        #[trigger] table_of(base_map).contains_key(k) <==> b.contains_key(k)) && (
                        b.contains_key(k) ==> table_of(base_map)[k] == b[k]),
                decreases entries@.len(),
            {
                let ghost n = entries@.len() - 1;
                let ghost before = table_of(base_map);
                let (key, overlay_val) = entries.pop().unwrap();
                proof {
                    assert((key, overlay_val) == all[n]);
                    assert(entries@ =~= all.take(n));
                    assert forall|i: int| n + 1 <= i < all.len() implies (#[trigger] all[i]).0@ != key@ by {
                        assert(all[n].0@ != all[i].0@);
                    }
                    assert(before.contains_key(key@) <==> b.contains_key(key@));
                    assert(decreases_to!(toml_of(overlay) => o[key@]));
                }
                let merged = match table_remove(&mut base_map, &key) {
                    Some(base_val) => merge_toml_values(base_val, overlay_val),
                    None => overlay_val,
                };
                table_insert(&mut base_map, key, merged);
                proof {
                    assert(toml_of(merged) == wanted[all[n].0@]);
                    let after = table_of(base_map);
                    assert forall|i: int| n <= i < all.len() implies after.contains_key(
                        (#[trigger] all[i]).0@,
                    ) && after[all[i].0@] == wanted[all[i].0@] by {
                        if i > n {
                            assert(all[n].0@ != all[i].0@);
                        }
                    }
                    assert forall|k: Seq<char>|
                        (forall|i: int| n <= i < all.len() ==> (#[trigger] all[i]).0@ != k) implies (
                    #[trigger] after.contains_key(k) <==> b.contains_key(k)) && (b.contains_key(k)
                        ==> after[k] == b[k]) by {
                        assert(all[n].0@ != k);
                        assert(before.contains_key(k) <==> b.contains_key(k));
                    }
                }
            }
            proof {
                let after = table_of(base_map);
                assert forall|k: Seq<char>| #[trigger] after.contains_key(k) <==> wanted.contains_key(
                    k,
                ) by {
                    if o.contains_key(k) {
                        let i = choose|i: int| 0 <= i < all.len() && (#[trigger] all[i]).0@ == k;
                        assert(after.contains_key(all[i].0@));
                    } else {
                        assert forall|i: int| 0 <= i < all.len() implies (#[trigger] all[i]).0@ != k by {}
                    }
                }
                assert forall|k: Seq<char>| #[trigger] after.contains_key(k) implies after[k]
                    == wanted[k] by {
                    if o.contains_key(k) {
                        let i = choose|i: int| 0 <= i < all.len() && (#[trigger] all[i]).0@ == k;
                        assert(after.contains_key(all[i].0@));
                    } else {
                        assert forall|i: int| 0 <= i < all.len() implies (#[trigger] all[i]).0@ != k by {}
                        assert(wanted.contains_key(k));
                    }
                }
                assert(after =~= wanted);
            }
            table_value(base_map)
        },
        (_, TomlNode::Table(overlay_map)) => table_value(overlay_map),
        (_, TomlNode::Leaf(overlay)) => overlay,
    }
}

/// A value laid over itself is itself.
pub proof fn merge_with_itself(v: Toml)
    ensures
        merged_toml(v, v) == v,
    decreases v,
{
    if let Toml::Table(t) = v {
        let m = merged_toml(v, v)->Table_0;
        assert forall|k: Seq<char>| #[trigger] t.contains_key(k) implies m[k] == t[k] by {
            merge_with_itself(t[k]);
        }
        assert(m =~= t);
    }
}

/// Laying the same values over a configuration a second time changes nothing.
pub proof fn merge_is_idempotent(base: Toml, overlay: Toml)
    ensures
        merged_toml(merged_toml(base, overlay), overlay) == merged_toml(base, overlay),
    decreases overlay,
{
    match (base, overlay) {
        (Toml::Table(b), Toml::Table(o)) => {
            let once = merged_toml(base, overlay)->Table_0;
            let twice = merged_toml(merged_toml(base, overlay), overlay)->Table_0;
            assert forall|k: Seq<char>| #[trigger] once.contains_key(k) implies twice[k] == once[k] by {
                if o.contains_key(k) {
                    if b.contains_key(k) {
                        merge_is_idempotent(b[k], o[k]);
                    } else {
                        merge_with_itself(o[k]);
                    }
                }
            }
            assert(twice =~= once);
        },
        _ => {
            merge_with_itself(overlay);
        },
    }
}

/// An overlay without entries leaves a table as it is.
pub proof fn empty_overlay_changes_nothing(base: Map<Seq<char>, Toml>)
    ensures
        merged_toml(Toml::Table(base), Toml::Table(Map::empty())) == Toml::Table(base),
{
    let m = merged_toml(Toml::Table(base), Toml::Table(Map::empty()))->Table_0;
    assert(m =~= base);
}

/// Entry by entry: what only one side has is kept, what both have is merged,
/// and of two values that are not both tables the overlay's counts.
pub proof fn merge_goes_entry_by_entry(
    base: Map<Seq<char>, Toml>,
    overlay: Map<Seq<char>, Toml>,
    k: Seq<char>,
)
    ensures
        ({
            let m = merged_toml(Toml::Table(base), Toml::Table(overlay))->Table_0;
            &&& m.contains_key(k) <==> base.contains_key(k) || overlay.contains_key(k)
            &&& base.contains_key(k) && !overlay.contains_key(k) ==> m[k] == base[k]
            &&& !base.contains_key(k) && overlay.contains_key(k) ==> m[k] == overlay[k]
            &&& base.contains_key(k) && overlay.contains_key(k) ==> m[k] == merged_toml(
                base[k],
                overlay[k],
            )
            &&& overlay.contains_key(k) && overlay[k] is Leaf ==> m[k] == overlay[k]
        }),
{
}

/// Of two values that are not both tables the overlay's counts, whatever it is.
pub proof fn what_is_no_table_is_replaced(
    base: toml::Value,
    overlay: toml::Value,
    merged: toml::Value,
)
    requires
        call_ensures(merge_toml_values, (base, overlay), merged),
    ensures
        toml_of(base) is Leaf || toml_of(overlay) is Leaf ==> toml_of(merged) == toml_of(overlay),
        toml_of(base) is Table && toml_of(overlay) is Table ==> toml_of(merged) is Table,
{
}

} // verus!
