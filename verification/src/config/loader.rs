//! Reading TOML configuration: parsing a text, taking out its `[includes]`,
//! and merging tables (a later table overrides an earlier one).
//!
//! Reading the files themselves is the caller's part; this module works on
//! their texts and on the parsed values.
use crate::config::models::ConfigError;
use crate::text::texts;
use vstd::prelude::*;

verus! {

#[verifier::external_type_specification]
#[verifier::external_body]
pub struct ExTomlValue(toml::Value);

#[verifier::external_type_specification]
#[verifier::external_body]
#[verifier::reject_recursive_types(K)]
#[verifier::reject_recursive_types(V)]
pub struct ExTomlMap<K, V>(toml::map::Map<K, V>);

/// Reads configuration files relative to a base directory.
pub struct ConfigLoader {
    pub base_path: std::path::PathBuf,
}

impl ConfigLoader {
    pub fn new(base_path: std::path::PathBuf) -> (r: Self)
        ensures
            r.base_path == base_path,
    {
        ConfigLoader { base_path }
    }
}

/// The entries of a TOML table, by key.
pub uninterp spec fn table_entries(t: toml::Table) -> Map<Seq<char>, toml::Value>;

/// The entries of a TOML value that is a table.
pub uninterp spec fn table_of(v: toml::Value) -> Option<Map<Seq<char>, toml::Value>>;

/// The elements of a TOML value that is an array.
pub uninterp spec fn array_of(v: toml::Value) -> Option<Seq<toml::Value>>;

/// The text of a TOML value that is a string.
pub uninterp spec fn string_of(v: toml::Value) -> Option<Seq<char>>;

/// The value that a TOML document parses to, if it is valid TOML.
pub uninterp spec fn toml_document(text: Seq<char>) -> Option<toml::Value>;

/// `toml::from_str::<toml::Value>`. Claimed: the parse succeeds exactly when
/// `toml_document` has a value for the text, and gives that value; the result
/// depends on the text alone. The TOML grammar itself is not stated.
#[verifier::external_body]
fn parse_toml(text: &str) -> (r: Result<toml::Value, toml::de::Error>)
    ensures
        r is Ok <==> toml_document(text@) is Some,
        r matches Ok(v) ==> toml_document(text@) == Some(v),
{
    toml::from_str(text)
}

/// `toml::map::Map::remove`. Claimed, as for the `BTreeMap` it wraps: the
/// value under `key` is taken out and returned, `None` when there is none.
#[verifier::external_body]
fn table_remove(t: &mut toml::Table, key: &str) -> (r: Option<toml::Value>)
    ensures
        table_entries(*old(t)).dom().contains(key@) ==> r == Some(table_entries(*old(t))[key@]),
        !table_entries(*old(t)).dom().contains(key@) ==> r is None,
        table_entries(*final(t)) == table_entries(*old(t)).remove(key@),
{
    t.remove(key)
}

/// `toml::map::Map::new`. Claimed: the new table is empty.
#[verifier::external_body]
pub(crate) fn table_new() -> (r: toml::Table)
    ensures
        table_entries(r) =~= Map::empty(),
{
    toml::Table::new()
}

/// `toml::map::Map::insert`. Claimed, as for the `BTreeMap` it wraps: `key`
/// then maps to `v`, every other key is unchanged.
#[verifier::external_body]
fn table_insert(t: &mut toml::Table, key: String, v: toml::Value)
    ensures
        table_entries(*final(t)) == table_entries(*old(t)).insert(key@, v),
{
    t.insert(key, v);
}

/// The table of a list of distinct keys with their values.
pub open spec fn entries_map(s: Seq<(String, toml::Value)>) -> Map<Seq<char>, toml::Value>
    decreases s.len(),
{
    if s.len() == 0 {
        Map::empty()
    } else {
        entries_map(s.drop_last()).insert(s.last().0@, s.last().1)
    }
}

/// No key occurs twice.
pub open spec fn distinct_keys(s: Seq<(String, toml::Value)>) -> bool {
    forall|i: int, j: int| 0 <= i < j < s.len() ==> #[trigger] s[i].0@ != #[trigger] s[j].0@
}

/// `toml::map::Map::into_iter`, collected. Claimed: every entry of the table
/// comes out once (the keys are distinct, as in the `BTreeMap` it wraps).
/// The order (ascending keys) is not stated.
#[verifier::external_body]
fn table_into_entries(t: toml::Table) -> (r: Vec<(String, toml::Value)>)
    ensures
        distinct_keys(r@),
        entries_map(r@) == table_entries(t),
{
    t.into_iter().collect()
}

/// Takes the table out of a `toml::Value::Table`. Claimed: a table gives its
/// entries; any other value is handed back.
#[verifier::external_body]
fn value_into_table(v: toml::Value) -> (r: Result<toml::Table, toml::Value>)
    ensures
        r matches Ok(t) ==> table_of(v) == Some(table_entries(t)),
        r matches Err(w) ==> w == v && table_of(v) is None,
{
    match v {
        toml::Value::Table(t) => Ok(t),
        other => Err(other),
    }
}

/// `toml::Value::Table`. Claimed: the value is the table with these entries.
#[verifier::external_body]
fn table_into_value(t: toml::Table) -> (r: toml::Value)
    ensures
        table_of(r) == Some(table_entries(t)),
{
    toml::Value::Table(t)
}

/// Takes the elements out of a `toml::Value::Array`. Claimed: an array gives
/// its elements in order; any other value is handed back.
#[verifier::external_body]
fn value_into_array(v: toml::Value) -> (r: Result<Vec<toml::Value>, toml::Value>)
    ensures
        r matches Ok(a) ==> array_of(v) == Some(a@),
        r matches Err(w) ==> w == v && array_of(v) is None,
{
    match v {
        toml::Value::Array(a) => Ok(a),
        other => Err(other),
    }
}

/// Takes the text out of a `toml::Value::String`. Claimed: a string gives its
/// text; any other value is handed back.
#[verifier::external_body]
fn value_into_string(v: toml::Value) -> (r: Result<String, toml::Value>)
    ensures
        r matches Ok(s) ==> string_of(v) == Some(s@),
        r matches Err(w) ==> w == v && string_of(v) is None,
{
    match v {
        toml::Value::String(s) => Ok(s),
        other => Err(other),
    }
}

/// Parses the text of the configuration file `path`; a syntax error becomes
/// `ConfigError::ParseError` naming the file.
pub fn parse_config_text(path: &str, text: &str) -> (r: Result<toml::Value, ConfigError>)
    ensures
        match toml_document(text@) {
            Some(v) => r == Ok::<toml::Value, ConfigError>(v),
            None => r matches Err(ConfigError::ParseError(p, _)) && p@ == path@,
        },
{
    match parse_toml(text) {
        Ok(v) => Ok(v),
        Err(e) => Err(ConfigError::ParseError(path.to_owned(), e)),
    }
}

/// Keys of a list of entries.
pub proof fn lemma_entries_map_dom(s: Seq<(String, toml::Value)>)
    ensures
        forall|k: Seq<char>| #[trigger] entries_map(s).dom().contains(k) <==> exists|i: int| 0 <= i < s.len() && s[i].0@ == k,
    decreases s.len(),
{
    if s.len() > 0 {
        lemma_entries_map_dom(s.drop_last());
        assert forall|k: Seq<char>| #[trigger] entries_map(s).dom().contains(k) implies exists|i: int| 0 <= i < s.len() && s[i].0@ == k by {
            if k == s.last().0@ {
                assert(s[s.len() - 1].0@ == k);
            } else {
                assert(entries_map(s.drop_last()).dom().contains(k));
                let i = choose|i: int| 0 <= i < s.drop_last().len() && s.drop_last()[i].0@ == k;
                assert(s[i].0@ == k);
            }
        }
        assert forall|k: Seq<char>| (exists|i: int| 0 <= i < s.len() && s[i].0@ == k) implies #[trigger] entries_map(s).dom().contains(k) by {
            let i = choose|i: int| 0 <= i < s.len() && s[i].0@ == k;
            if i < s.len() - 1 {
                assert(s.drop_last()[i].0@ == k);
                assert(entries_map(s.drop_last()).dom().contains(k));
            }
        }
    }
}

/// Taking the last of distinct entries: the rest does not hold its key.
proof fn lemma_last_key_fresh(s: Seq<(String, toml::Value)>)
    requires
        s.len() > 0,
        distinct_keys(s),
    ensures
        !entries_map(s.drop_last()).dom().contains(s.last().0@),
        distinct_keys(s.drop_last()),
{
    lemma_entries_map_dom(s.drop_last());
    if entries_map(s.drop_last()).dom().contains(s.last().0@) {
        let i = choose|i: int| 0 <= i < s.drop_last().len() && s.drop_last()[i].0@ == s.last().0@;
        assert(s[i].0@ == s[s.len() - 1].0@);
    }
}

/// `r` is table `b` overridden by table `o`, merging nested tables down to
/// `depth` levels: every key of `o` takes `o`'s value, except that where both
/// hold a table under the key (and `depth` allows one more level) the two
/// tables are merged in the same way; keys of `b` alone keep their values.
pub open spec fn merged_to_depth(
    b: Map<Seq<char>, toml::Value>,
    o: Map<Seq<char>, toml::Value>,
    r: Map<Seq<char>, toml::Value>,
    depth: nat,
) -> bool
    decreases depth,
{
    &&& r.dom() == b.dom().union(o.dom())
    &&& forall|k: Seq<char>| b.dom().contains(k) && !o.dom().contains(k) ==> #[trigger] r[k] == b[k]
    &&& forall|k: Seq<char>|
        #[trigger] o.dom().contains(k) ==> if depth > 0 && b.dom().contains(k) && table_of(b[k]) is Some
            && table_of(o[k]) is Some {
            table_of(r[k]) is Some && merged_to_depth(
                table_of(b[k])->0,
                table_of(o[k])->0,
                table_of(r[k])->0,
                (depth - 1) as nat,
            )
        } else {
            r[k] == o[k]
        }
}

/// `r` is table `b` overridden by table `o`, tables merged recursively at
/// every depth that a table in memory can have (fewer than `usize::MAX`
/// levels).
pub open spec fn merge_result(b: Map<Seq<char>, toml::Value>, o: Map<Seq<char>, toml::Value>, r: Map<Seq<char>, toml::Value>) -> bool {
    merged_to_depth(b, o, r, usize::MAX as nat)
}

fn merge_tables(base: toml::Table, override_map: toml::Table, depth: usize) -> (r: toml::Table)
    ensures
        merged_to_depth(table_entries(base), table_entries(override_map), table_entries(r), depth as nat),
    decreases depth,
{
    let ghost b0 = table_entries(base);
    let ghost o = table_entries(override_map);
    let mut base = base;
    let mut entries = table_into_entries(override_map);
    let ghost mut done = Map::<Seq<char>, toml::Value>::empty();
    proof {
        assert(merged_to_depth(b0, done, table_entries(base), depth as nat)) by {
            assert(b0.dom().union(done.dom()) =~= b0.dom());
        }
    }
    while entries.len() > 0
        invariant
            distinct_keys(entries@),
            done.union_prefer_right(entries_map(entries@)) == o,
            forall|k: Seq<char>| #[trigger] done.dom().contains(k) ==> !entries_map(entries@).dom().contains(k),
            merged_to_depth(b0, done, table_entries(base), depth as nat),
        decreases entries@.len(),
    {
        let ghost before = entries@;
        let ghost cur = table_entries(base);
        proof {
            lemma_last_key_fresh(before);
        }
        match entries.pop() {
            Some((key, value)) => {
                assert(entries@ == before.drop_last());
                let ghost k = key@;
                let ghost rest = entries_map(entries@);
                assert(entries_map(before) == rest.insert(k, value));
                assert(!done.dom().contains(k));
                match table_remove(&mut base, key.as_str()) {
                    None => {
                        table_insert(&mut base, key, value);
                    },
                    Some(existing) => {
                        if depth == 0 {
                            table_insert(&mut base, key, value);
                        } else {
                            match value_into_table(existing) {
                                Err(_) => {
                                    table_insert(&mut base, key, value);
                                },
                                Ok(bt) => {
                                    match value_into_table(value) {
                                        Err(value_back) => {
                                            table_insert(&mut base, key, value_back);
                                        },
                                        Ok(ot) => {
                                            let nested = merge_tables(bt, ot, depth - 1);
                                            let merged = table_into_value(nested);
                                            table_insert(&mut base, key, merged);
                                        },
                                    }
                                },
                            }
                        }
                    },
                }
                proof {
                    let done2 = done.insert(k, value);
                    let r = table_entries(base);
                    assert(r.dom() =~= b0.dom().union(done2.dom()));
                    assert forall|j: Seq<char>| b0.dom().contains(j) && !done2.dom().contains(j) implies #[trigger] r[j] == b0[j] by {
                        assert(r[j] == cur[j]);
                    }
                    assert forall|j: Seq<char>| #[trigger] done2.dom().contains(j) implies (if depth > 0 && b0.dom().contains(j) && table_of(b0[j]) is Some
                        && table_of(done2[j]) is Some {
                        table_of(r[j]) is Some && merged_to_depth(
                            table_of(b0[j])->0,
                            table_of(done2[j])->0,
                            table_of(r[j])->0,
                            (depth - 1) as nat,
                        )
                    } else {
                        r[j] == done2[j]
                    }) by {
                        if j != k {
                            assert(r[j] == cur[j]);
                            assert(done2[j] == done[j]);
                        }
                    }
                    assert(done2.union_prefer_right(rest) =~= done.union_prefer_right(rest.insert(k, value)));
                    done = done2;
                }
            },
            None => {},
        }
    }
    assert(done.union_prefer_right(entries_map(entries@)) =~= done);
    base
}

/// Merges `override_map` into `base`, nested tables recursively; see
/// `merge_result`.
pub fn merge_maps(base: toml::Table, override_map: toml::Table) -> (r: toml::Table)
    ensures
        merge_result(table_entries(base), table_entries(override_map), table_entries(r)),
{
    merge_tables(base, override_map, usize::MAX)
}

/// The texts among TOML values, in order.
pub open spec fn strings_in(a: Seq<toml::Value>) -> Seq<Seq<char>>
    decreases a.len(),
{
    if a.len() == 0 {
        Seq::empty()
    } else {
        let rest = strings_in(a.drop_first());
        match string_of(a[0]) {
            Some(s) => seq![s] + rest,
            None => rest,
        }
    }
}

/// The files that a table's `[includes]` section lists: the strings of its
/// `files` array; nothing when the section, the array or the table is
/// missing.
pub open spec fn include_list(t: Map<Seq<char>, toml::Value>) -> Seq<Seq<char>> {
    if t.dom().contains("includes"@) {
        match table_of(t["includes"@]) {
            Some(it) => if it.dom().contains("files"@) {
                match array_of(it["files"@]) {
                    Some(a) => strings_in(a),
                    None => Seq::empty(),
                }
            } else {
                Seq::empty()
            },
            None => Seq::empty(),
        }
    } else {
        Seq::empty()
    }
}

/// The texts among `a`.
fn collect_strings(a: Vec<toml::Value>) -> (r: Vec<String>)
    ensures
        texts(r@) == strings_in(a@),
{
    let ghost a0 = a@;
    let mut a = a;
    let mut r: Vec<String> = Vec::new();
    while a.len() > 0
        invariant
            texts(r@) + strings_in(a@) == strings_in(a0),
        decreases a@.len(),
    {
        let ghost before = a@;
        let ghost got = texts(r@);
        let v = a.remove(0);
        assert(a@ == before.drop_first());
        match value_into_string(v) {
            Ok(s) => {
                r.push(s);
                assert(texts(r@) =~= got.push(s@));
                assert(got.push(s@) + strings_in(a@) =~= got + (seq![s@] + strings_in(a@)));
            },
            Err(_) => {},
        }
    }
    assert(texts(r@) + strings_in(a@) =~= texts(r@));
    r
}

/// Splits a parsed configuration into its table without `[includes]` and the
/// files that `[includes]` lists; a value that is not a table is
/// `ConfigError::InvalidStructure`.
pub fn take_includes(value: toml::Value) -> (r: Result<(toml::Table, Vec<String>), ConfigError>)
    ensures
        match table_of(value) {
            None => r matches Err(ConfigError::InvalidStructure(m)) && m@ == "Expected table"@,
            Some(t) => r matches Ok((rt, files)) && table_entries(rt) == t.remove("includes"@) && texts(files@) == include_list(t),
        },
{
    match value_into_table(value) {
        Err(_) => Err(ConfigError::InvalidStructure("Expected table".to_owned())),
        Ok(mut table) => {
            let ghost t = table_entries(table);
            let mut files: Vec<String> = Vec::new();
            assert(texts(files@) =~= Seq::<Seq<char>>::empty());
            match table_remove(&mut table, "includes") {
                None => {},
                Some(includes) => match value_into_table(includes) {
                    Err(_) => {},
                    Ok(mut includes_table) => match table_remove(&mut includes_table, "files") {
                        None => {},
                        Some(list) => match value_into_array(list) {
                            Err(_) => {},
                            Ok(items) => {
                                files = collect_strings(items);
                            },
                        },
                    },
                },
            }
            Ok((table, files))
        },
    }
}

/// Merging an empty table into `b` leaves `b`; merging `o` into an empty
/// table gives `o`.
pub proof fn lemma_merge_with_empty(b: Map<Seq<char>, toml::Value>, o: Map<Seq<char>, toml::Value>, r1: Map<Seq<char>, toml::Value>, r2: Map<Seq<char>, toml::Value>)
    requires
        merge_result(b, Map::empty(), r1),
        merge_result(Map::empty(), o, r2),
    ensures
        r1 == b,
        r2 == o,
{
    assert(r1.dom() =~= b.dom());
    assert(r1 =~= b);
    assert(r2.dom() =~= o.dom());
    assert(r2 =~= o);
}

/// What a merge keeps: every key of either table is in the result; a key
/// that only the base holds keeps its value; a plain (non-table) value of the
/// override wins; and where both hold a table under a key, the result holds a
/// table there in which a key of the base's table that the override's table
/// lacks keeps its value, and a plain value of the override's table wins.
pub proof fn lemma_merge_keeps_and_overrides(
    b: Map<Seq<char>, toml::Value>,
    o: Map<Seq<char>, toml::Value>,
    r: Map<Seq<char>, toml::Value>,
    k: Seq<char>,
    j: Seq<char>,
)
    requires
        merge_result(b, o, r),
    ensures
        r.dom() == b.dom().union(o.dom()),
        b.dom().contains(k) && !o.dom().contains(k) ==> r[k] == b[k],
        o.dom().contains(k) && table_of(o[k]) is None ==> r[k] == o[k],
        b.dom().contains(k) && o.dom().contains(k) && table_of(b[k]) is Some && table_of(o[k]) is Some ==> {
            &&& table_of(r[k]) is Some
            &&& (table_of(b[k])->0).dom().contains(j) && !(table_of(o[k])->0).dom().contains(j) ==> (table_of(
                r[k],
            )->0).dom().contains(j) && (table_of(r[k])->0)[j] == (table_of(b[k])->0)[j]
            &&& (table_of(o[k])->0).dom().contains(j) && table_of((table_of(o[k])->0)[j]) is None ==> (table_of(
                r[k],
            )->0).dom().contains(j) && (table_of(r[k])->0)[j] == (table_of(o[k])->0)[j]
        },
{
    if b.dom().contains(k) && o.dom().contains(k) && table_of(b[k]) is Some && table_of(o[k]) is Some {
        assert(o.dom().contains(k));
        let bt = table_of(b[k])->0;
        let ot = table_of(o[k])->0;
        let rt = table_of(r[k])->0;
        assert(merged_to_depth(bt, ot, rt, (usize::MAX - 1) as nat));
        if bt.dom().contains(j) && !ot.dom().contains(j) {
            assert(rt.dom().contains(j));
        }
        if ot.dom().contains(j) {
            assert(rt.dom().contains(j));
        }
    }
}

} // verus!
