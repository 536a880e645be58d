//! The visit cache: an insertion-ordered mapping from directory path to visit
//! count, persisted as a small YAML document.
//!
//! The mapping itself is `linked_hash_map::LinkedHashMap`, and the document
//! is parsed and emitted by `yaml_rust`; both are reached through trusted
//! wrappers below.  Everything this module states about the cache is phrased
//! over `lhm_entries`, the map's key/value pairs in iteration order, so the
//! recording rule (a fresh location starts at 1, a known one is bumped by 1)
//! is proved, not assumed.
//!
//! File reading and writing stay outside the library: the unverified shell
//! reads the cache file and passes its text in, and writes the returned text
//! back out.

use crate::config::Config;
use linked_hash_map::LinkedHashMap;
use vstd::prelude::*;

verus! {

/// Why cache-file text was rejected: it parsed as something other than a
/// mapping from strings to integers.  This is the one fatal error of the
/// cache: unreadable files are handled by the shell as empty text, but text
/// that holds the wrong shape must not be silently dropped.
#[derive(Clone, Copy, Debug, PartialEq, Eq, Structural)]
pub enum CacheError {
    Malformed,
}

#[verifier::external_type_specification]
#[verifier::external_body]
#[verifier::reject_recursive_types(K)]
#[verifier::reject_recursive_types(V)]
#[verifier::reject_recursive_types(S)]
pub struct ExLinkedHashMap<K, V, S>(LinkedHashMap<K, V, S>);

/// The key/value pairs held by a visit-count map, in iteration order.
pub uninterp spec fn lhm_entries(m: LinkedHashMap<String, i64>) -> Seq<(Seq<char>, i64)>;

/// The value stored under `key`: the first pair with that key, if any.
pub open spec fn entries_lookup(entries: Seq<(Seq<char>, i64)>, key: Seq<char>) -> Option<i64>
    decreases entries.len(),
{
    if entries.len() == 0 {
        None
    } else if entries[0].0 == key {
        Some(entries[0].1)
    } else {
        entries_lookup(entries.drop_first(), key)
    }
}

/// The same pairs with every pair keyed `key` taken out, order kept.
pub open spec fn entries_remove_key(entries: Seq<(Seq<char>, i64)>, key: Seq<char>) -> Seq<
    (Seq<char>, i64),
>
    decreases entries.len(),
{
    if entries.len() == 0 {
        entries
    } else if entries[0].0 == key {
        entries_remove_key(entries.drop_first(), key)
    } else {
        seq![entries[0]] + entries_remove_key(entries.drop_first(), key)
    }
}

/// The count after one recorded visit: 1 for a location never seen, one more
/// for a known one (saturating at the top of the count type).
pub open spec fn visit_bump(prev: Option<i64>) -> i64 {
    match prev {
        None => 1,
        Some(v) => if v == i64::MAX {
            i64::MAX
        } else {
            (v + 1) as i64
        },
    }
}

/// The pairs after recording one visit of `loc`: `loc` moves to the back with
/// its bumped count, every other pair keeps its place.
pub open spec fn record_visit_spec(entries: Seq<(Seq<char>, i64)>, loc: Seq<char>) -> Seq<
    (Seq<char>, i64),
> {
    entries_remove_key(entries, loc).push((loc, visit_bump(entries_lookup(entries, loc))))
}

/// What `yaml_rust` finds in cache-file text: the string-to-integer pairs of
/// the document's top-level mapping, in document order; `None` when the text
/// does not scan, or its document is not such a mapping.  Empty text yields
/// the empty mapping.
pub uninterp spec fn yaml_visits(text: Seq<char>) -> Option<Seq<(Seq<char>, i64)>>;

/// The YAML document text that `yaml_rust` emits for these pairs.
pub uninterp spec fn yaml_dump(entries: Seq<(Seq<char>, i64)>) -> Seq<char>;

/// Relies on linked_hash_map::LinkedHashMap::new: the fresh map is empty.
#[verifier::external_body]
pub(crate) fn lhm_new() -> (m: LinkedHashMap<String, i64>)
    ensures
        lhm_entries(m) == Seq::<(Seq<char>, i64)>::empty(),
{
    LinkedHashMap::new()
}

/// Relies on linked_hash_map::LinkedHashMap::get: the value stored under the
/// key, if any; the map is not touched.
#[verifier::external_body]
pub(crate) fn lhm_get(m: &LinkedHashMap<String, i64>, key: &String) -> (r: Option<i64>)
    ensures
        r == entries_lookup(lhm_entries(*m), key@),
{
    m.get(key).copied()
}

/// Relies on linked_hash_map::LinkedHashMap::insert: the value is stored
/// under the key, and the pair takes the most recent position in the
/// iteration order (an already present key is moved to the back).
#[verifier::external_body]
fn lhm_insert(m: &mut LinkedHashMap<String, i64>, key: String, value: i64)
    ensures
        lhm_entries(*final(m)) == entries_remove_key(lhm_entries(*old(m)), key@).push(
            (key@, value),
        ),
{
    m.insert(key, value);
}

/// Relies on yaml_rust::YamlLoader::load_from_str: parses the text into at
/// most one document, which must be a mapping from strings to integers; any
/// other shape, and any scan error, is malformed.  No document at all (empty
/// text) is the empty mapping.
#[verifier::external_body]
fn parse_visits_yaml(text: &str) -> (r: Result<LinkedHashMap<String, i64>, CacheError>)
    ensures
        r is Ok <==> yaml_visits(text@) is Some,
        r matches Ok(m) ==> Some(lhm_entries(m)) == yaml_visits(text@),
        r matches Err(e) ==> e == CacheError::Malformed,
{
    let docs = yaml_rust::YamlLoader::load_from_str(text).map_err(|_| CacheError::Malformed)?;
    let mut out = LinkedHashMap::new();
    let hash = match docs.into_iter().next() {
        None => return Ok(out),
        Some(yaml_rust::Yaml::Hash(h)) => h,
        Some(_) => return Err(CacheError::Malformed),
    };
    for (k, v) in hash {
        match (k, v) {
            (yaml_rust::Yaml::String(s), yaml_rust::Yaml::Integer(i)) => out.insert(s, i),
            _ => return Err(CacheError::Malformed),
        };
    }
    Ok(out)
}

/// Relies on yaml_rust::YamlEmitter::dump: writes the document text for the
/// map's pairs, a pure function of those pairs.
#[verifier::external_body]
fn emit_visits_yaml(m: &LinkedHashMap<String, i64>) -> (out: String)
    ensures
        out@ == yaml_dump(lhm_entries(*m)),
{
    let mut hash = yaml_rust::yaml::Hash::new();
    for (k, v) in m.iter() {
        hash.insert(yaml_rust::Yaml::String(k.clone()), yaml_rust::Yaml::Integer(*v));
    }
    let mut out = String::new();
    let mut emitter = yaml_rust::YamlEmitter::new(&mut out);
    let _ = emitter.dump(&yaml_rust::Yaml::Hash(hash));
    out
}

/// The visit-count snapshot for one invocation: empty when no cache file is
/// configured, else the mapping parsed from the file's text (the shell reads
/// an absent or unreadable file as empty text).
pub fn get_current_state(config: Config, file_content: &str) -> (r: Result<
    LinkedHashMap<String, i64>,
    CacheError,
>)
    ensures
        config.previous_visits is None ==> (r matches Ok(m) && lhm_entries(m)
            =~= Seq::<(Seq<char>, i64)>::empty()),
        config.previous_visits is Some ==> {
            &&& (r is Ok <==> yaml_visits(file_content@) is Some)
            &&& (r matches Ok(m) ==> Some(lhm_entries(m)) == yaml_visits(file_content@))
            &&& (r is Err ==> r == Result::<LinkedHashMap<String, i64>, CacheError>::Err(
                CacheError::Malformed,
            ))
        },
{
    if config.previous_visits.is_none() {
        return Ok(lhm_new());
    }
    parse_visits_yaml(file_content)
}

/// Records one visit of `location` in the map and returns the document text
/// to persist: the location's count is bumped (1 when absent) and its pair
/// moves to the back; no other pair changes.
pub fn write_new_state(data: &mut LinkedHashMap<String, i64>, location: String) -> (out: String)
    ensures
        lhm_entries(*final(data)) == record_visit_spec(lhm_entries(*old(data)), location@),
        out@ == yaml_dump(record_visit_spec(lhm_entries(*old(data)), location@)),
{
    let prev = lhm_get(data, &location);
    let bumped: i64 = match prev {
        None => 1,
        Some(v) => if v == i64::MAX {
            i64::MAX
        } else {
            v + 1
        },
    };
    lhm_insert(data, location, bumped);
    emit_visits_yaml(data)
}

/// Records a visit of `location`: a no-op (`Ok(None)`) when no cache file is
/// configured; otherwise parses `file_content` (the cache file's current
/// text), bumps the location's count, and returns the new text to persist.
/// Fails exactly when the current text is malformed.
pub fn save(config: Config, location: String, file_content: &str) -> (r: Result<
    Option<String>,
    CacheError,
>)
    ensures
        config.previous_visits is None ==> r == Result::<Option<String>, CacheError>::Ok(
            None::<String>,
        ),
        config.previous_visits is Some ==> {
            &&& (r is Ok <==> yaml_visits(file_content@) is Some)
            &&& (r matches Ok(o) ==> o matches Some(out) && out@ == yaml_dump(
                record_visit_spec(yaml_visits(file_content@)->Some_0, location@),
            ))
            &&& (r is Err ==> r == Result::<Option<String>, CacheError>::Err(CacheError::Malformed))
        },
{
    if config.previous_visits.is_none() {
        return Ok(None);
    }
    let mut data = match parse_visits_yaml(file_content) {
        Ok(m) => m,
        Err(e) => return Err(e),
    };
    let out = write_new_state(&mut data, location);
    Ok(Some(out))
}

/// How a lookup reads through a push: the pushed pair is only found when the
/// key was absent before it.
proof fn lemma_lookup_push(entries: Seq<(Seq<char>, i64)>, p: (Seq<char>, i64), key: Seq<char>)
    ensures
        entries_lookup(entries.push(p), key) == match entries_lookup(entries, key) {
            Some(v) => Some(v),
            None => if p.0 == key {
                Some(p.1)
            } else {
                None
            },
        },
    decreases entries.len(),
{
    if entries.len() == 0 {
        assert(entries.push(p)[0] == p);
        assert(entries.push(p).drop_first() =~= Seq::<(Seq<char>, i64)>::empty());
    } else {
        assert(entries.push(p)[0] == entries[0]);
        assert(entries.push(p).drop_first() =~= entries.drop_first().push(p));
        lemma_lookup_push(entries.drop_first(), p, key);
    }
}

/// Taking one key out leaves lookups of that key empty and every other
/// lookup unchanged.
proof fn lemma_lookup_remove_key(
    entries: Seq<(Seq<char>, i64)>,
    removed: Seq<char>,
    key: Seq<char>,
)
    ensures
        entries_lookup(entries_remove_key(entries, removed), key) == if key == removed {
            None::<i64>
        } else {
            entries_lookup(entries, key)
        },
    decreases entries.len(),
{
    if entries.len() > 0 {
        lemma_lookup_remove_key(entries.drop_first(), removed, key);
        if entries[0].0 != removed {
            let rest = entries_remove_key(entries.drop_first(), removed);
            assert((seq![entries[0]] + rest)[0] == entries[0]);
            assert((seq![entries[0]] + rest).drop_first() =~= rest);
        }
    }
}

/// Whether no key repeats among the pairs.
pub open spec fn entries_unique(entries: Seq<(Seq<char>, i64)>) -> bool {
    forall|i: int, j: int|
        0 <= i < j < entries.len() ==> (#[trigger] entries[i]).0 != (#[trigger] entries[j]).0
}

/// Every pair that survives the removal is one of the old pairs, and none of
/// them carries the removed key.
proof fn lemma_remove_key_elements(entries: Seq<(Seq<char>, i64)>, key: Seq<char>)
    ensures
        forall|i: int|
            0 <= i < entries_remove_key(entries, key).len() ==> (#[trigger] entries_remove_key(
                entries,
                key,
            )[i]).0 != key && exists|j: int|
                0 <= j < entries.len() && entries[j] == entries_remove_key(entries, key)[i],
    decreases entries.len(),
{
    if entries.len() > 0 {
        lemma_remove_key_elements(entries.drop_first(), key);
        let removed = entries_remove_key(entries, key);
        let rest = entries_remove_key(entries.drop_first(), key);
        assert forall|i: int| 0 <= i < removed.len() implies (#[trigger] removed[i]).0 != key
            && exists|j: int| 0 <= j < entries.len() && entries[j] == removed[i] by {
            if entries[0].0 == key {
                assert(removed[i] == rest[i]);
                let j = choose|j: int|
                    0 <= j < entries.drop_first().len() && entries.drop_first()[j] == rest[i];
                assert(entries[j + 1] == removed[i]);
            } else {
                if i == 0 {
                    assert(removed[0] == entries[0]);
                } else {
                    assert(removed[i] == rest[i - 1]);
                    let j = choose|j: int|
                        0 <= j < entries.drop_first().len() && entries.drop_first()[j] == rest[i
                            - 1];
                    assert(entries[j + 1] == removed[i]);
                }
            }
        }
    }
}

/// Taking one key out of pairs without a repeated key leaves no repeated
/// key.
proof fn lemma_remove_key_unique(entries: Seq<(Seq<char>, i64)>, key: Seq<char>)
    requires
        entries_unique(entries),
    ensures
        entries_unique(entries_remove_key(entries, key)),
    decreases entries.len(),
{
    if entries.len() > 0 {
        assert(entries_unique(entries.drop_first()));
        lemma_remove_key_unique(entries.drop_first(), key);
        if entries[0].0 != key {
            let removed = entries_remove_key(entries, key);
            let rest = entries_remove_key(entries.drop_first(), key);
            lemma_remove_key_elements(entries.drop_first(), key);
            assert forall|i: int, j: int| 0 <= i < j < removed.len() implies (
            #[trigger] removed[i]).0 != (#[trigger] removed[j]).0 by {
                if i == 0 {
                    let k = choose|k: int|
                        0 <= k < entries.drop_first().len() && entries.drop_first()[k] == rest[j
                            - 1];
                    assert(entries[0].0 != entries[k + 1].0);
                } else {
                    assert(removed[i] == rest[i - 1] && removed[j] == rest[j - 1]);
                }
            }
        }
    }
}

/// A cache without a repeated key keeps that shape across a recorded visit.
pub proof fn lemma_record_visit_unique(entries: Seq<(Seq<char>, i64)>, loc: Seq<char>)
    requires
        entries_unique(entries),
    ensures
        entries_unique(record_visit_spec(entries, loc)),
{
    lemma_remove_key_unique(entries, loc);
    lemma_remove_key_elements(entries, loc);
    let removed = entries_remove_key(entries, loc);
    let out = record_visit_spec(entries, loc);
    assert forall|i: int, j: int| 0 <= i < j < out.len() implies (#[trigger] out[i]).0 != (
    #[trigger] out[j]).0 by {
        if j < removed.len() {
            assert(out[i] == removed[i] && out[j] == removed[j]);
        } else {
            assert(out[j].0 == loc);
            assert(out[i] == removed[i]);
        }
    }
}

/// Recording a visit gives the location a count one above its previous one,
/// starting at 1 for a location never seen, and never below the previous
/// count; no other location's count changes.
pub proof fn lemma_record_visit(entries: Seq<(Seq<char>, i64)>, loc: Seq<char>, other: Seq<char>)
    ensures
        entries_lookup(record_visit_spec(entries, loc), loc) == Some(
            visit_bump(entries_lookup(entries, loc)),
        ),
        entries_lookup(entries, loc) is None ==> entries_lookup(
            record_visit_spec(entries, loc),
            loc,
        ) == Some(1i64),
        entries_lookup(entries, loc) matches Some(v) ==> visit_bump(
            entries_lookup(entries, loc),
        ) >= v,
        other != loc ==> entries_lookup(record_visit_spec(entries, loc), other) == entries_lookup(
            entries,
            other,
        ),
{
    let removed = entries_remove_key(entries, loc);
    let p = (loc, visit_bump(entries_lookup(entries, loc)));
    lemma_lookup_push(removed, p, loc);
    lemma_lookup_remove_key(entries, loc, loc);
    lemma_lookup_push(removed, p, other);
    lemma_lookup_remove_key(entries, loc, other);
}

} // verus!
