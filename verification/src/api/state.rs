//! Decisions of the server state that do not touch the disk: which directories are
//! indices, in what order they are listed, and what the summary of an index says.

use vstd::prelude::*;

use std::sync::Arc;
use std::sync::Mutex;

use crate::api::error::ApiError;
use crate::api::models::IndexConfigStored;
use crate::api::registry::NameMap;
use crate::text::chars_of;

verus! {

/// What the server learns of one entry of its index directory.
#[derive(Debug)]
pub struct DirEntryInfo {
    /// The entry's file name, when it is valid Unicode.
    pub name: Option<String>,
    pub is_dir: bool,
    /// The entry holds `metadata.json`.
    pub has_metadata_json: bool,
    /// The entry holds `config.json`.
    pub has_config_json: bool,
}

/// An entry that is a declared or built index.
pub open spec fn is_index_entry(e: DirEntryInfo) -> bool {
    e.is_dir && (e.has_metadata_json || e.has_config_json) && e.name is Some
}

/// The names of the index entries, in directory order.
pub open spec fn index_entry_names(es: Seq<DirEntryInfo>) -> Seq<Seq<char>>
    decreases es.len(),
{
    if es.len() == 0 {
        seq![]
    } else {
        let rest = index_entry_names(es.drop_last());
        if is_index_entry(es.last()) {
            rest.push(es.last().name.unwrap()@)
        } else {
            rest
        }
    }
}

/// `a <= b` in the order of `str`'s `Ord` (lexicographic by code point, which is the
/// order of the UTF-8 bytes).
pub open spec fn lex_le(a: Seq<char>, b: Seq<char>) -> bool
    decreases a.len(),
{
    if a.len() == 0 {
        true
    } else if b.len() == 0 {
        false
    } else if a[0] != b[0] {
        a[0] < b[0]
    } else {
        lex_le(a.drop_first(), b.drop_first())
    }
}

pub open spec fn sorted_names(s: Seq<Seq<char>>) -> bool {
    forall|i: int, j: int| 0 <= i < j < s.len() ==> lex_le(#[trigger] s[i], #[trigger] s[j])
}

pub proof fn lemma_lex_total(a: Seq<char>, b: Seq<char>)
    ensures
        lex_le(a, b) || lex_le(b, a),
    decreases a.len(),
{
    if a.len() > 0 && b.len() > 0 && a[0] == b[0] {
        lemma_lex_total(a.drop_first(), b.drop_first());
    }
}

pub proof fn lemma_lex_trans(a: Seq<char>, b: Seq<char>, c: Seq<char>)
    requires
        lex_le(a, b),
        lex_le(b, c),
    ensures
        lex_le(a, c),
    decreases a.len(),
{
    if a.len() > 0 && b.len() > 0 && c.len() > 0 && a[0] == b[0] && b[0] == c[0] {
        lemma_lex_trans(a.drop_first(), b.drop_first(), c.drop_first());
    }
}

fn lex_le_exec(a: &Vec<char>, b: &Vec<char>) -> (r: bool)
    ensures
        r == lex_le(a@, b@),
{
    let mut i: usize = 0;
    assert(a@.skip(0) =~= a@);
    assert(b@.skip(0) =~= b@);
    while i < a.len() && i < b.len() && a[i] == b[i]
        invariant
            i <= a.len(),
            i <= b.len(),
            lex_le(a@.skip(i as int), b@.skip(i as int)) == lex_le(a@, b@),
        decreases a.len() - i,
    {
        assert(a@.skip(i as int).drop_first() =~= a@.skip(i + 1));
        assert(b@.skip(i as int).drop_first() =~= b@.skip(i + 1));
        i = i + 1;
    }
    if i == a.len() {
        true
    } else if i == b.len() {
        false
    } else {
        a[i] < b[i]
    }
}

pub open spec fn names_view(v: Seq<String>) -> Seq<Seq<char>> {
    v.map_values(|s: String| s@)
}

/// The names of the indices in the index directory (directories that hold
/// `metadata.json` or `config.json`, with a Unicode name), sorted.
pub fn index_names(entries: &Vec<DirEntryInfo>) -> (r: Vec<String>)
    ensures
        sorted_names(names_view(r@)),
        names_view(r@).to_multiset() == index_entry_names(entries@).to_multiset(),
        index_entry_names(entries@).no_duplicates() ==> names_view(r@).no_duplicates(),
{
    broadcast use vstd::seq_lib::group_seq_properties;

    let mut r: Vec<String> = Vec::new();
    let n = entries.len();
    assert(names_view(r@) =~= Seq::<Seq<char>>::empty());
    assert(entries@.take(0) =~= Seq::<DirEntryInfo>::empty());
    for i in 0..n
        invariant
            n == entries.len(),
            sorted_names(names_view(r@)),
            names_view(r@).to_multiset() == index_entry_names(entries@.take(i as int)).to_multiset(),
    {
        let e = &entries[i];
        assert(entries@.take(i + 1).drop_last() =~= entries@.take(i as int));
        assert(entries@.take(i + 1).last() == *e);
        if e.is_dir && (e.has_metadata_json || e.has_config_json) {
            match &e.name {
                Some(name) => {
                    let x = chars_of(name.as_str());
                    let mut p: usize = 0;
                    let ghost rv = names_view(r@);
                    while p < r.len() && lex_le_exec(&chars_of(r[p].as_str()), &x)
                        invariant
                            p <= r.len(),
                            rv == names_view(r@),
                            x@ == name@,
                            forall|k: int| 0 <= k < p ==> lex_le(#[trigger] rv[k], x@),
                        decreases r.len() - p,
                    {
                        p = p + 1;
                    }
                    proof {
                        if p < r.len() {
                            assert(!lex_le(rv[p as int], x@));
                            lemma_lex_total(rv[p as int], x@);
                        }
                        assert forall|k: int| p <= k < rv.len() implies lex_le(x@, #[trigger] rv[k]) by {
                            if k > p {
                                assert(lex_le(rv[p as int], rv[k]));
                                lemma_lex_trans(x@, rv[p as int], rv[k]);
                            }
                        }
                    }
                    r.insert(p, name.clone());
                    proof {
                        let nv = names_view(r@);
                        assert(nv =~= rv.insert(p as int, name@));
                        assert forall|a: int, b: int| 0 <= a < b < nv.len() implies lex_le(
                            #[trigger] nv[a],
                            #[trigger] nv[b],
                        ) by {
                            if b < p {
                            } else if a < p && b == p {
                            } else if a < p && b > p {
                                assert(nv[b] == rv[b - 1]);
                                assert(lex_le(x@, rv[b - 1]));
                                lemma_lex_trans(rv[a], x@, rv[b - 1]);
                            } else if a == p {
                                assert(nv[b] == rv[b - 1]);
                            } else {
                                assert(nv[a] == rv[a - 1] && nv[b] == rv[b - 1]);
                            }
                        }
                        vstd::seq_lib::to_multiset_insert(rv, p as int, name@);
                        assert(index_entry_names(entries@.take(i + 1)) == index_entry_names(
                            entries@.take(i as int),
                        ).push(name@));
                        vstd::seq_lib::to_multiset_build(
                            index_entry_names(entries@.take(i as int)),
                            name@,
                        );
                    }
                },
                None => {},
            }
        }
    }
    assert(entries@.take(n as int) =~= entries@);
    proof {
        let all = index_entry_names(entries@);
        if all.no_duplicates() {
            all.lemma_multiset_has_no_duplicates();
            names_view(r@).lemma_multiset_has_no_duplicates_conv();
        }
    }
    r
}

/// The fields of an index's `metadata.json` that a summary reads (each `None` when
/// absent or not an unsigned integer).
#[derive(Debug)]
pub struct MetadataFields {
    pub num_documents: Option<u64>,
    pub num_embeddings: Option<u64>,
    pub num_partitions: Option<u64>,
    pub embedding_dim: Option<u64>,
    pub nbits: Option<u64>,
}

/// The summary of an index, its average document length aside.
#[derive(Debug)]
pub struct IndexSummaryFields {
    pub name: String,
    pub num_documents: usize,
    pub num_embeddings: usize,
    pub num_partitions: usize,
    pub dimension: usize,
    pub nbits: usize,
    pub has_metadata: bool,
    pub max_documents: Option<usize>,
}

pub open spec fn or_zero(v: Option<u64>) -> usize {
    match v {
        Some(x) => x as usize,
        None => 0,
    }
}

fn count_or_zero(v: Option<u64>) -> (r: usize)
    ensures
        r == or_zero(v),
{
    match v {
        Some(x) => x as usize,
        None => 0,
    }
}

/// `r` is the summary of the index `name`: the maximum document count comes from its
/// stored configuration; without `metadata.json` the index is empty, has no metadata
/// and reports the stored `nbits` (4 by default); otherwise the counts come from
/// `metadata.json` (0 when absent), `nbits` too (4 when absent), and `has_metadata`
/// from whether the metadata database exists.
pub open spec fn summary_of(
    r: IndexSummaryFields,
    name: Seq<char>,
    stored: Option<IndexConfigStored>,
    metadata: Option<MetadataFields>,
    has_metadata_db: bool,
) -> bool {
    &&& r.name@ == name
    &&& r.max_documents == (match stored {
        Some(c) => c.max_documents,
        None => None,
    })
    &&& match metadata {
        None => {
            &&& r.num_documents == 0
            &&& r.num_embeddings == 0
            &&& r.num_partitions == 0
            &&& r.dimension == 0
            &&& r.nbits == (match stored {
                Some(c) => c.nbits,
                None => 4,
            })
            &&& !r.has_metadata
        },
        Some(m) => {
            &&& r.num_documents == or_zero(m.num_documents)
            &&& r.num_embeddings == or_zero(m.num_embeddings)
            &&& r.num_partitions == or_zero(m.num_partitions)
            &&& r.dimension == or_zero(m.embedding_dim)
            &&& r.nbits == (match m.nbits {
                Some(x) => x as usize,
                None => 4,
            })
            &&& r.has_metadata == has_metadata_db
        },
    }
}

/// The summary of the index `name` (see [`summary_of`]).
pub fn summarize_index(
    name: &str,
    stored: Option<IndexConfigStored>,
    metadata: Option<MetadataFields>,
    has_metadata_db: bool,
) -> (r: IndexSummaryFields)
    ensures
        summary_of(r, name@, stored, metadata, has_metadata_db),
{
    broadcast use vstd::string::group_string_axioms;

    let max_documents = match stored {
        Some(c) => c.max_documents,
        None => None,
    };
    match metadata {
        None => IndexSummaryFields {
            name: name.to_string(),
            num_documents: 0,
            num_embeddings: 0,
            num_partitions: 0,
            dimension: 0,
            nbits: match stored {
                Some(c) => c.nbits,
                None => 4,
            },
            has_metadata: false,
            max_documents,
        },
        Some(m) => IndexSummaryFields {
            name: name.to_string(),
            num_documents: count_or_zero(m.num_documents),
            num_embeddings: count_or_zero(m.num_embeddings),
            num_partitions: count_or_zero(m.num_partitions),
            dimension: count_or_zero(m.embedding_dim),
            nbits: match m.nbits {
                Some(x) => x as usize,
                None => 4,
            },
            has_metadata: has_metadata_db,
            max_documents,
        },
    }
}

/// What `serde_json::from_slice::<serde_json::Value>(bytes)` followed by
/// `value[key].as_u64()` gives: `None` when the bytes are not JSON, else the field
/// `key` when it is an integer that fits in a `u64` (`None` inside otherwise).
pub uninterp spec fn json_u64_field(bytes: Seq<u8>, key: Seq<char>) -> Option<Option<u64>>;

/// Parses `bytes` with `serde_json::from_slice` into a `serde_json::Value` and reads the
/// field `key` with `Value::as_u64` (indexing a missing key or a non-object gives
/// `Null`, hence `None`); trusted to give `json_u64_field`. On a parse failure it gives
/// the error's `Display` text, of which nothing is stated.
#[verifier::external_body]
fn json_u64_field_at(bytes: &[u8], key: &str) -> (r: Result<Option<u64>, String>)
    ensures
        match r {
            Ok(v) => json_u64_field(bytes@, key@) == Some(v),
            Err(_) => json_u64_field(bytes@, key@) is None,
        },
{
    match serde_json::from_slice::<serde_json::Value>(bytes) {
        Ok(v) => Ok(v[key].as_u64()),
        Err(e) => Err(e.to_string()),
    }
}

/// The fields a summary reads from the bytes of `metadata.json`, or `None` when they
/// are not JSON.
pub open spec fn metadata_of(b: Seq<u8>) -> Option<MetadataFields> {
    let d = json_u64_field(b, "num_documents"@);
    let e = json_u64_field(b, "num_embeddings"@);
    let p = json_u64_field(b, "num_partitions"@);
    let m = json_u64_field(b, "embedding_dim"@);
    let n = json_u64_field(b, "nbits"@);
    if d is Some && e is Some && p is Some && m is Some && n is Some {
        Some(
            MetadataFields {
                num_documents: d.unwrap(),
                num_embeddings: e.unwrap(),
                num_partitions: p.unwrap(),
                embedding_dim: m.unwrap(),
                nbits: n.unwrap(),
            },
        )
    } else {
        None
    }
}

/// A message that reports a `metadata.json` that could not be parsed.
pub open spec fn is_parse_failure_message(m: Seq<char>) -> bool {
    exists|e: Seq<char>| #[trigger] ("Failed to parse metadata: "@ + e) == m
}

fn parse_failure(e: String) -> (r: ApiError)
    ensures
        r matches ApiError::Internal(m) && is_parse_failure_message(m@),
{
    broadcast use vstd::string::group_string_axioms;

    let mut m = "Failed to parse metadata: ".to_string();
    m.append(e.as_str());
    assert(("Failed to parse metadata: "@ + e@) == m@);
    ApiError::Internal(m)
}

/// The summary of the index `name` from the bytes of its `metadata.json` (`None` when
/// the file does not exist): an internal error exactly when the bytes are not JSON,
/// else the summary of what they hold.
pub fn summary_from_metadata(
    name: &str,
    stored: Option<IndexConfigStored>,
    bytes: Option<Vec<u8>>,
    has_metadata_db: bool,
) -> (r: Result<IndexSummaryFields, ApiError>)
    ensures
        match bytes {
            None => r matches Ok(s) && summary_of(s, name@, stored, None, has_metadata_db),
            Some(b) => match metadata_of(b@) {
                Some(m) => r matches Ok(s) && summary_of(s, name@, stored, Some(m), has_metadata_db),
                None => r matches Err(ApiError::Internal(msg)) && is_parse_failure_message(msg@),
            },
        },
{
    match bytes {
        None => Ok(summarize_index(name, stored, None, has_metadata_db)),
        Some(b) => {
            let num_documents = match json_u64_field_at(b.as_slice(), "num_documents") {
                Ok(v) => v,
                Err(e) => return Err(parse_failure(e)),
            };
            let num_embeddings = match json_u64_field_at(b.as_slice(), "num_embeddings") {
                Ok(v) => v,
                Err(e) => return Err(parse_failure(e)),
            };
            let num_partitions = match json_u64_field_at(b.as_slice(), "num_partitions") {
                Ok(v) => v,
                Err(e) => return Err(parse_failure(e)),
            };
            let embedding_dim = match json_u64_field_at(b.as_slice(), "embedding_dim") {
                Ok(v) => v,
                Err(e) => return Err(parse_failure(e)),
            };
            let nbits = match json_u64_field_at(b.as_slice(), "nbits") {
                Ok(v) => v,
                Err(e) => return Err(parse_failure(e)),
            };
            let m = MetadataFields {
                num_documents,
                num_embeddings,
                num_partitions,
                embedding_dim,
                nbits,
            };
            Ok(summarize_index(name, stored, Some(m), has_metadata_db))
        },
    }
}

/// A summary built from the bytes `b` of a parseable `metadata.json` reports what they
/// hold: each count is the unsigned integer stored under its key (0 when the key is
/// missing or holds no such integer), `nbits` likewise (4 when missing), the metadata
/// flag is whether the metadata database exists, and the document limit is the stored
/// one.
pub proof fn lemma_summary_reports_metadata(
    r: IndexSummaryFields,
    name: Seq<char>,
    stored: Option<IndexConfigStored>,
    b: Seq<u8>,
    has_metadata_db: bool,
)
    requires
        metadata_of(b) is Some,
        summary_of(r, name, stored, metadata_of(b), has_metadata_db),
    ensures
        r.name@ == name,
        forall|x: u64|
            json_u64_field(b, "num_documents"@) == Some(Some(x)) && x <= usize::MAX
                ==> r.num_documents == x,
        forall|x: u64|
            json_u64_field(b, "num_embeddings"@) == Some(Some(x)) && x <= usize::MAX
                ==> r.num_embeddings == x,
        forall|x: u64|
            json_u64_field(b, "num_partitions"@) == Some(Some(x)) && x <= usize::MAX
                ==> r.num_partitions == x,
        forall|x: u64|
            json_u64_field(b, "embedding_dim"@) == Some(Some(x)) && x <= usize::MAX
                ==> r.dimension == x,
        forall|x: u64|
            json_u64_field(b, "nbits"@) == Some(Some(x)) && x <= usize::MAX ==> r.nbits == x,
        json_u64_field(b, "num_documents"@) == Some(None::<u64>) ==> r.num_documents == 0,
        json_u64_field(b, "num_embeddings"@) == Some(None::<u64>) ==> r.num_embeddings == 0,
        json_u64_field(b, "num_partitions"@) == Some(None::<u64>) ==> r.num_partitions == 0,
        json_u64_field(b, "embedding_dim"@) == Some(None::<u64>) ==> r.dimension == 0,
        json_u64_field(b, "nbits"@) == Some(None::<u64>) ==> r.nbits == 4,
        r.has_metadata == has_metadata_db,
        r.max_documents == (match stored {
            Some(c) => c.max_documents,
            None => None,
        }),
{
}

/// Without `metadata.json` an index is summarised as empty, without metadata, with the
/// stored `nbits` (4 by default).
pub proof fn lemma_summary_without_metadata(
    r: IndexSummaryFields,
    name: Seq<char>,
    stored: Option<IndexConfigStored>,
    has_metadata_db: bool,
)
    requires
        summary_of(r, name, stored, None, has_metadata_db),
    ensures
        r.num_documents == 0 && r.num_embeddings == 0 && r.num_partitions == 0 && r.dimension
            == 0,
        !r.has_metadata,
        r.nbits == (match stored {
            Some(c) => c.nbits,
            None => 4,
        }),
{
}

/// `std::sync::Mutex`, held here only to be handed out behind an `Arc`.
#[verifier::external_type_specification]
#[verifier::external_body]
#[verifier::reject_recursive_types(T)]
pub struct ExMutex<T: ?Sized>(std::sync::Mutex<T>);

/// Calls `std::sync::Mutex::new(())`: a fresh, unlocked mutex. Nothing is stated of it,
/// as nothing in the library looks inside a mutex.
#[verifier::external_body]
fn fresh_mutex() -> Mutex<()> {
    Mutex::new(())
}

/// Calls `Arc::clone`: the clone points at the same mutex, so it equals the original.
#[verifier::external_body]
fn share_lock(lock: &Arc<Mutex<()>>) -> (r: Arc<Mutex<()>>)
    ensures
        r == *lock,
{
    lock.clone()
}

/// The lock registry after the lock of `name` was asked for: unchanged when `name` has
/// one, else with `fresh` registered under `name`.
pub open spec fn registry_after<L>(m: Map<Seq<char>, L>, name: Seq<char>, fresh: L) -> Map<
    Seq<char>,
    L,
> {
    if m.contains_key(name) {
        m
    } else {
        m.insert(name, fresh)
    }
}

/// Two requests for the lock of one name get the same lock, whatever fresh lock the
/// second request would have made: the first registers it, the second finds it and
/// leaves the registry as it was.
pub proof fn lemma_same_lock_for_same_name<L>(m: Map<Seq<char>, L>, name: Seq<char>, f1: L, f2: L)
    ensures
        registry_after(m, name, f1).contains_key(name),
        registry_after(registry_after(m, name, f1), name, f2) == registry_after(m, name, f1),
        registry_after(registry_after(m, name, f1), name, f2)[name] == registry_after(
            m,
            name,
            f1,
        )[name],
{
}

/// The lock that serialises loading the index `name`: the one already registered for
/// that name, or a fresh one that is registered now. Every later call with the same name
/// hands out that same lock.
pub fn get_loading_lock(locks: &mut NameMap<Arc<Mutex<()>>>, name: &str) -> (r: Arc<Mutex<()>>)
    requires
        old(locks).wf(),
    ensures
        final(locks).wf(),
        final(locks)@ == registry_after(old(locks)@, name@, r),
        r == final(locks)@[name@],
        old(locks)@.contains_key(name@) ==> r == old(locks)@[name@],
{
    match locks.get(name) {
        Some(lock) => share_lock(lock),
        None => {
            let lock = Arc::new(fresh_mutex());
            locks.insert(name, share_lock(&lock));
            lock
        },
    }
}

} // verus!
