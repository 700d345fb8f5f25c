//! The bounded compressed result cache: a fixed-capacity map from job id
//! to a gzip-compressed payload, with strict FIFO eviction in insertion
//! order. `set` never overwrites a present key; `get` decompresses, and
//! treats a blob that does not decode as a miss.

use vstd::prelude::*;
use std::io::Read;
use std::io::Write;
use crate::error::Error;

verus! {

/// The fixed number of entries the cache holds.
pub const CACHE_CAPACITY: usize = 8;

/// The hash map of an outside crate that backs the cache.
#[verifier::external_type_specification]
#[verifier::external_body]
#[verifier::reject_recursive_types(K)]
#[verifier::reject_recursive_types(V)]
#[verifier::reject_recursive_types(S)]
pub struct ExAHashMap<K, V, S>(ahash::AHashMap<K, V, S>);

/// The hasher state that `ahash::AHashMap` defaults to.
#[verifier::external_type_specification]
#[verifier::external_body]
pub struct ExAHashRandomState(ahash::RandomState);

/// What a cache map holds: the key-to-blob entries of an
/// `ahash::AHashMap`, as a mathematical map.
pub uninterp spec fn map_entries(m: ahash::AHashMap<i64, Vec<u8>>) -> Map<i64, Seq<u8>>;

/// No entries at all.
pub open spec fn empty_entries() -> Map<i64, Seq<u8>> {
    Map::empty()
}

/// Relies on `ahash::AHashMap::new`: a new map is empty.
#[verifier::external_body]
fn map_new() -> (m: ahash::AHashMap<i64, Vec<u8>>)
    ensures
        map_entries(m) == empty_entries(),
{
    ahash::AHashMap::new()
}

/// Relies on `HashMap::contains_key`, reached through
/// `ahash::AHashMap`'s deref: whether the key has an entry.
#[verifier::external_body]
fn map_contains(m: &ahash::AHashMap<i64, Vec<u8>>, k: i64) -> (r: bool)
    ensures
        r == map_entries(*m).contains_key(k),
{
    m.contains_key(&k)
}

/// Relies on `HashMap::get`, reached through `ahash::AHashMap`'s deref:
/// the entry of the key, if any.
#[verifier::external_body]
fn map_get<'a>(m: &'a ahash::AHashMap<i64, Vec<u8>>, k: i64) -> (r: Option<&'a Vec<u8>>)
    ensures
        match r {
            Some(v) => map_entries(*m).contains_key(k) && v@ == map_entries(*m)[k],
            None => !map_entries(*m).contains_key(k),
        },
{
    m.get(&k)
}

/// Relies on `HashMap::insert`, reached through `ahash::AHashMap`'s
/// deref: adds or replaces the entry of the key.
#[verifier::external_body]
fn map_insert(m: &mut ahash::AHashMap<i64, Vec<u8>>, k: i64, v: Vec<u8>)
    ensures
        map_entries(*final(m)) == map_entries(*old(m)).insert(k, v@),
{
    m.insert(k, v);
}

/// Relies on `HashMap::remove`, reached through `ahash::AHashMap`'s
/// deref: drops the entry of the key.
#[verifier::external_body]
fn map_remove(m: &mut ahash::AHashMap<i64, Vec<u8>>, k: i64)
    ensures
        map_entries(*final(m)) == map_entries(*old(m)).remove(k),
{
    m.remove(&k);
}

/// Relies on `HashMap::clear`, reached through `ahash::AHashMap`'s
/// deref: drops every entry.
#[verifier::external_body]
fn map_clear(m: &mut ahash::AHashMap<i64, Vec<u8>>)
    ensures
        map_entries(*final(m)) == empty_entries(),
{
    m.clear();
}

/// The bytes flate2's gzip encoder produces for `data` at the default
/// compression level. The encoder writes a fixed header (zero
/// modification time, fixed platform byte), so the result is a function
/// of the input bytes alone.
pub uninterp spec fn gzip_of(data: Seq<u8>) -> Seq<u8>;

/// What flate2's gzip decoder yields for `data`: the decoded bytes, or
/// `None` for a stream it rejects. Decoding is a function of the input
/// bytes alone.
pub uninterp spec fn gunzip_of(data: Seq<u8>) -> Option<Seq<u8>>;

/// Relies on flate2's `write::GzEncoder` with `Compression::default()`:
/// the output is a function of the input bytes, and feeding it back
/// through the decoder yields the input again. Writing into a `Vec`
/// cannot fail (`Vec`'s `Write` is infallible and the compressor itself
/// does not error while compressing), so the call always succeeds.
#[verifier::external_body]
fn gzip_compress(value: &[u8]) -> (r: Result<Vec<u8>, Error>)
    ensures
        r is Ok,
        r matches Ok(c) ==> c@ == gzip_of(value@) && gunzip_of(c@) == Some(value@),
{
    let mut encoder = flate2::write::GzEncoder::new(Vec::new(), flate2::Compression::default());
    if encoder.write_all(value).is_err() {
        return Err(Error::Compression);
    }
    match encoder.finish() {
        Ok(c) => Ok(c),
        Err(_) => Err(Error::Compression),
    }
}

/// Relies on flate2's `read::GzDecoder`: decoding is a function of the
/// input bytes; a stream it rejects yields `None`.
#[verifier::external_body]
fn gzip_decompress(data: &[u8]) -> (r: Option<Vec<u8>>)
    ensures
        (match r {
            Some(d) => Some(d@),
            None => None::<Seq<u8>>,
        }) == gunzip_of(data@),
{
    let mut decoder = flate2::read::GzDecoder::new(data);
    let mut buffer = Vec::new();
    match decoder.read_to_end(&mut buffer) {
        Ok(_) => Some(buffer),
        Err(_) => None,
    }
}

/// The mathematical state of the cache: the keys in insertion order, and
/// the stored compressed blob of each.
#[verifier::ext_equal]
pub struct CacheModel {
    pub keys: Seq<i64>,
    pub entries: Map<i64, Seq<u8>>,
}

/// A well-formed cache state: no key queued twice, an entry exactly for
/// each queued key, and no more keys than the capacity.
pub open spec fn model_wf(m: CacheModel, cap: int) -> bool {
    &&& m.keys.no_duplicates()
    &&& forall|k: i64| #![auto] m.entries.contains_key(k) <==> m.keys.contains(k)
    &&& m.keys.len() <= cap
}

/// What `set` does to the state: nothing for a present key; otherwise
/// the earliest-inserted key is evicted when the cache is full, and the
/// new entry is appended last.
pub open spec fn model_set(m: CacheModel, k: i64, c: Seq<u8>, cap: int) -> CacheModel {
    if m.entries.contains_key(k) {
        m
    } else if m.keys.len() >= cap && m.keys.len() > 0 {
        CacheModel {
            keys: m.keys.drop_first().push(k),
            entries: m.entries.remove(m.keys[0]).insert(k, c),
        }
    } else {
        CacheModel { keys: m.keys.push(k), entries: m.entries.insert(k, c) }
    }
}

/// What `get` yields: the stored blob, decoded; an absent key, or a
/// blob the decoder rejects, is a miss.
pub open spec fn model_get(m: CacheModel, k: i64) -> Option<Seq<u8>> {
    if m.entries.contains_key(k) {
        gunzip_of(m.entries[k])
    } else {
        None
    }
}

/// The queued keys with every occurrence of `k` removed, order kept.
pub open spec fn remove_key_seq(s: Seq<i64>, k: i64) -> Seq<i64>
    decreases s.len(),
{
    if s.len() == 0 {
        Seq::empty()
    } else {
        let rest = remove_key_seq(s.drop_first(), k);
        if s[0] == k {
            rest
        } else {
            seq![s[0]] + rest
        }
    }
}

/// What `remove` does: drops the key, its entry, and its position.
pub open spec fn model_remove(m: CacheModel, k: i64) -> CacheModel {
    CacheModel { keys: remove_key_seq(m.keys, k), entries: m.entries.remove(k) }
}

/// A bounded map from job id to compressed payload with strict FIFO
/// eviction. Entries are immutable once set; reads never reorder the
/// eviction queue.
pub struct Cache {
    map: ahash::AHashMap<i64, Vec<u8>>,
    queue: Vec<i64>,
    max_size: usize,
}

impl View for Cache {
    type V = CacheModel;

    closed spec fn view(&self) -> CacheModel {
        CacheModel { keys: self.queue@, entries: map_entries(self.map) }
    }
}

impl Cache {
    /// The capacity the cache was created with.
    pub closed spec fn spec_capacity(self) -> int {
        self.max_size as int
    }

    /// The cache invariant.
    pub open spec fn wf(self) -> bool {
        &&& model_wf(self@, self.spec_capacity())
        &&& self.spec_capacity() == CACHE_CAPACITY
    }

    /// An empty cache with the fixed capacity.
    pub fn new() -> (r: Cache)
        ensures
            r.wf(),
            r@.keys == Seq::<i64>::empty(),
            r@.entries == Map::<i64, Seq<u8>>::empty(),
    {
        Cache { queue: Vec::with_capacity(CACHE_CAPACITY), max_size: CACHE_CAPACITY, map: map_new() }
    }

    /// Is an entry stored under this key?
    pub fn has(&self, key: i64) -> (r: bool)
        ensures
            r == self@.entries.contains_key(key),
    {
        map_contains(&self.map, key)
    }

    /// The number of stored entries.
    pub fn len(&self) -> (r: usize)
        requires
            self.wf(),
        ensures
            r == self@.keys.len(),
    {
        self.queue.len()
    }

    /// The capacity.
    pub fn capacity(&self) -> (r: usize)
        ensures
            r == self.spec_capacity(),
    {
        self.max_size
    }

    /// Look a key up and decompress the stored blob; a key without an
    /// entry, or with a blob the decoder rejects, is a miss.
    pub fn get(&self, key: i64) -> (r: Option<Vec<u8>>)
        ensures
            (match r {
                Some(d) => Some(d@),
                None => None::<Seq<u8>>,
            }) == model_get(self@, key),
    {
        match map_get(&self.map, key) {
            None => None,
            Some(blob) => gzip_decompress(blob.as_slice()),
        }
    }

    /// Store a compressed copy of `value` under `key`. A present key is
    /// left untouched. A fresh key evicts the earliest-inserted entry
    /// when the cache is full, is inserted, and is read back
    /// byte-identical. The call always succeeds: compressing into memory
    /// cannot fail, and the `Result` stands only for API compatibility
    /// with callers that treat a storage-class error.
    pub fn set(&mut self, key: i64, value: &[u8]) -> (r: Result<(), Error>)
        requires
            old(self).wf(),
        ensures
            r is Ok,
            final(self).wf(),
            final(self).spec_capacity() == old(self).spec_capacity(),
            final(self)@ == model_set(old(self)@, key, gzip_of(value@), CACHE_CAPACITY as int),
            !old(self)@.entries.contains_key(key) ==> model_get(final(self)@, key) == Some(
                value@,
            ),
    {
        if self.has(key) {
            return Ok(());
        }
        let ghost pre = self@;
        if self.queue.len() >= self.max_size {
            let outdated = self.queue.remove(0);
            map_remove(&mut self.map, outdated);
            proof {
                assert(pre.keys.remove(0) =~= pre.keys.drop_first());
            }
        }
        let compressed = match gzip_compress(value) {
            Err(e) => {
                return Err(e);
            },
            Ok(c) => c,
        };
        map_insert(&mut self.map, key, compressed);
        self.queue.push(key);
        proof {
            assert(self@ =~~= model_set(pre, key, gzip_of(value@), CACHE_CAPACITY as int));
            lemma_set_wf(pre, key, gzip_of(value@), CACHE_CAPACITY as int);
        }
        Ok(())
    }

    /// Drop the entry of a key and its position record; a key without an
    /// entry is left as is.
    pub fn remove(&mut self, key: i64)
        requires
            old(self).wf(),
        ensures
            final(self).wf(),
            final(self).spec_capacity() == old(self).spec_capacity(),
            final(self)@ == model_remove(old(self)@, key),
    {
        let ghost pre = self@;
        if self.has(key) {
            map_remove(&mut self.map, key);
            let mut kept: Vec<i64> = Vec::new();
            let mut i: usize = 0;
            proof {
                assert(pre.keys.skip(0) =~= pre.keys);
                assert(remove_key_seq(pre.keys, key) =~= kept@ + remove_key_seq(
                    pre.keys.skip(0),
                    key,
                ));
            }
            while i < self.queue.len()
                invariant
                    i <= self.queue@.len(),
                    self.queue@ == pre.keys,
                    pre.keys.no_duplicates(),
                    remove_key_seq(pre.keys, key) == kept@ + remove_key_seq(
                        pre.keys.skip(i as int),
                        key,
                    ),
                    forall|x: int| 0 <= x < kept@.len() ==> #[trigger] kept@[x] != key,
                    kept@.len() <= i,
                    kept@.no_duplicates(),
                    forall|x: int| #![auto]
                        0 <= x < kept@.len() ==> pre.keys.subrange(0, i as int).contains(kept@[x]),
                decreases self.queue@.len() - i,
            {
                let v = self.queue[i];
                proof {
                    assert(pre.keys.skip(i as int).drop_first() =~= pre.keys.skip(i + 1));
                    assert(pre.keys.skip(i as int)[0] == pre.keys[i as int]);
                }
                if v != key {
                    proof {
                        // a later copy of `v` would contradict no-duplicates
                        assert forall|x: int| 0 <= x < kept@.len() implies #[trigger] kept@[x]
                            != v by {
                            let y = choose|y: int|
                                0 <= y < i && pre.keys.subrange(0, i as int)[y] == kept@[x];
                            assert(pre.keys[y] == kept@[x]);
                        }
                    }
                    kept.push(v);
                    proof {
                        assert(remove_key_seq(pre.keys, key) =~= kept@ + remove_key_seq(
                            pre.keys.skip(i + 1),
                            key,
                        ));
                        assert(pre.keys.subrange(0, i + 1).contains(pre.keys[i as int])) by {
                            assert(pre.keys.subrange(0, i + 1)[i as int] == pre.keys[i as int]);
                        }
                        assert forall|x: int| #![auto] 0 <= x < kept@.len() implies pre.keys.subrange(
                            0,
                            i + 1,
                        ).contains(kept@[x]) by {
                            if x < kept@.len() - 1 {
                                let y = choose|y: int|
                                    0 <= y < i && pre.keys.subrange(0, i as int)[y] == kept@[x];
                                assert(pre.keys.subrange(0, i + 1)[y] == kept@[x]);
                            }
                        }
                    }
                } else {
                    proof {
                        assert(remove_key_seq(pre.keys, key) =~= kept@ + remove_key_seq(
                            pre.keys.skip(i + 1),
                            key,
                        ));
                        assert forall|x: int| #![auto] 0 <= x < kept@.len() implies pre.keys.subrange(
                            0,
                            i + 1,
                        ).contains(kept@[x]) by {
                            let y = choose|y: int|
                                0 <= y < i && pre.keys.subrange(0, i as int)[y] == kept@[x];
                            assert(pre.keys.subrange(0, i + 1)[y] == kept@[x]);
                        }
                    }
                }
                i = i + 1;
            }
            proof {
                assert(pre.keys.skip(pre.keys.len() as int) =~= Seq::<i64>::empty());
                assert(remove_key_seq(pre.keys, key) =~= kept@);
            }
            self.queue = kept;
            proof {
                assert(self@ =~~= model_remove(pre, key));
                assert forall|k: i64| #![auto]
                    self@.entries.contains_key(k) <==> self@.keys.contains(k) by {
                    if k != key {
                        if pre.keys.contains(k) {
                            let ix = choose|ix: int| 0 <= ix < pre.keys.len() && pre.keys[ix] == k;
                            lemma_remove_key_seq_keeps(pre.keys, key, k);
                        }
                        if self@.keys.contains(k) {
                            lemma_remove_key_seq_sub(pre.keys, key, k);
                        }
                    } else {
                        lemma_remove_key_seq_gone(pre.keys, key);
                    }
                }
            }
        } else {
            proof {
                lemma_remove_key_seq_absent(pre.keys, key);
                assert(pre.entries.remove(key) =~= pre.entries);
                assert(self@ =~~= model_remove(pre, key));
            }
        }
    }

    /// Drop every entry.
    pub fn clear(&mut self)
        requires
            old(self).wf(),
        ensures
            final(self).wf(),
            final(self).spec_capacity() == old(self).spec_capacity(),
            final(self)@.keys == Seq::<i64>::empty(),
            final(self)@.entries == Map::<i64, Seq<u8>>::empty(),
    {
        map_clear(&mut self.map);
        self.queue.clear();
    }
}

/// A key other than the removed one keeps its place in the queue.
proof fn lemma_remove_key_seq_keeps(s: Seq<i64>, k: i64, x: i64)
    requires
        s.contains(x),
        x != k,
    ensures
        remove_key_seq(s, k).contains(x),
    decreases s.len(),
{
    if s.len() > 0 {
        if s[0] == x {
            if s[0] != k {
                assert(remove_key_seq(s, k)[0] == x);
            }
        } else {
            let ix = choose|ix: int| 0 <= ix < s.len() && s[ix] == x;
            assert(s.drop_first()[ix - 1] == x);
            lemma_remove_key_seq_keeps(s.drop_first(), k, x);
            let rest = remove_key_seq(s.drop_first(), k);
            let jx = choose|jx: int| 0 <= jx < rest.len() && rest[jx] == x;
            if s[0] == k {
            } else {
                assert(remove_key_seq(s, k)[jx + 1] == x);
            }
        }
    }
}

/// The filtered queue holds only keys of the original.
proof fn lemma_remove_key_seq_sub(s: Seq<i64>, k: i64, x: i64)
    requires
        remove_key_seq(s, k).contains(x),
    ensures
        s.contains(x),
        x != k,
    decreases s.len(),
{
    if s.len() > 0 {
        let r = remove_key_seq(s, k);
        let rest = remove_key_seq(s.drop_first(), k);
        let ix = choose|ix: int| 0 <= ix < r.len() && r[ix] == x;
        if s[0] == k {
            lemma_remove_key_seq_sub(s.drop_first(), k, x);
            let jx = choose|jx: int| 0 <= jx < s.drop_first().len() && s.drop_first()[jx] == x;
            assert(s[jx + 1] == x);
        } else {
            if ix == 0 {
                assert(s[0] == x);
            } else {
                assert(rest[ix - 1] == x);
                lemma_remove_key_seq_sub(s.drop_first(), k, x);
                let jx = choose|jx: int| 0 <= jx < s.drop_first().len() && s.drop_first()[jx] == x;
                assert(s[jx + 1] == x);
            }
        }
    }
}

/// The removed key is gone from the filtered queue.
proof fn lemma_remove_key_seq_gone(s: Seq<i64>, k: i64)
    ensures
        !remove_key_seq(s, k).contains(k),
    decreases s.len(),
{
    if s.len() > 0 {
        lemma_remove_key_seq_gone(s.drop_first(), k);
        let r = remove_key_seq(s, k);
        let rest = remove_key_seq(s.drop_first(), k);
        if s[0] != k {
            assert forall|ix: int| 0 <= ix < r.len() implies r[ix] != k by {
                if ix > 0 {
                    assert(r[ix] == rest[ix - 1]);
                    assert(!rest.contains(k));
                }
            }
        }
    }
}

/// Filtering a key that is not queued changes nothing.
proof fn lemma_remove_key_seq_absent(s: Seq<i64>, k: i64)
    requires
        !s.contains(k),
    ensures
        remove_key_seq(s, k) == s,
    decreases s.len(),
{
    if s.len() > 0 {
        assert(s[0] != k);
        assert(!s.drop_first().contains(k)) by {
            if s.drop_first().contains(k) {
                let ix = choose|ix: int| 0 <= ix < s.drop_first().len() && s.drop_first()[ix] == k;
                assert(s[ix + 1] == k);
            }
        }
        lemma_remove_key_seq_absent(s.drop_first(), k);
        assert(remove_key_seq(s, k) =~= s);
    }
}

/// Dropping the oldest key and its entry keeps the state well-formed.
proof fn lemma_evict_wf(m: CacheModel, cap: int)
    requires
        model_wf(m, cap),
        m.keys.len() > 0,
    ensures
        model_wf(
            CacheModel { keys: m.keys.drop_first(), entries: m.entries.remove(m.keys[0]) },
            cap,
        ),
{
    {
        let post = CacheModel { keys: m.keys.drop_first(), entries: m.entries.remove(m.keys[0]) };
        assert forall|i: int, j: int|
            0 <= i < post.keys.len() && 0 <= j < post.keys.len() && i != j implies post.keys[i]
            != post.keys[j] by {
            assert(post.keys[i] == m.keys[i + 1] && post.keys[j] == m.keys[j + 1]);
        }
        assert forall|x: i64| #![auto] post.entries.contains_key(x) implies post.keys.contains(
            x,
        ) by {
            assert(m.keys.contains(x));
            let ix = choose|ix: int| 0 <= ix < m.keys.len() && m.keys[ix] == x;
            assert(ix != 0);
            assert(post.keys[ix - 1] == x);
        }
        assert forall|x: i64| #![auto] post.keys.contains(x) implies post.entries.contains_key(
            x,
        ) by {
            let ix = choose|ix: int| 0 <= ix < post.keys.len() && post.keys[ix] == x;
            assert(m.keys[ix + 1] == x);
            assert(m.keys.contains(x));
            assert(x != m.keys[0]);
        }
    }
}

/// Appending a fresh key, with its entry, to a state with room keeps it
/// well-formed.
proof fn lemma_append_wf(m: CacheModel, k: i64, c: Seq<u8>, cap: int)
    requires
        model_wf(m, cap),
        !m.entries.contains_key(k),
        m.keys.len() < cap,
    ensures
        model_wf(CacheModel { keys: m.keys.push(k), entries: m.entries.insert(k, c) }, cap),
{
    let post = CacheModel { keys: m.keys.push(k), entries: m.entries.insert(k, c) };
    let n = m.keys.len() as int;
    assert forall|i: int, j: int|
        0 <= i < post.keys.len() && 0 <= j < post.keys.len() && i != j implies post.keys[i]
        != post.keys[j] by {
        if i < n && j < n {
            assert(post.keys[i] == m.keys[i] && post.keys[j] == m.keys[j]);
        } else if i == n {
            assert(post.keys[i] == k && post.keys[j] == m.keys[j]);
            assert(m.keys.contains(m.keys[j]));
        } else {
            assert(post.keys[j] == k && post.keys[i] == m.keys[i]);
            assert(m.keys.contains(m.keys[i]));
        }
    }
    assert forall|x: i64| #![auto] post.entries.contains_key(x) implies post.keys.contains(x) by {
        if x == k {
            assert(post.keys[n] == k);
        } else {
            assert(m.keys.contains(x));
            let ix = choose|ix: int| 0 <= ix < m.keys.len() && m.keys[ix] == x;
            assert(post.keys[ix] == x);
        }
    }
    assert forall|x: i64| #![auto] post.keys.contains(x) implies post.entries.contains_key(x) by {
        let ix = choose|ix: int| 0 <= ix < post.keys.len() && post.keys[ix] == x;
        if ix < n {
            assert(m.keys[ix] == x);
            assert(m.keys.contains(x));
        }
    }
}

/// A fresh `set` keeps the state well-formed.
proof fn lemma_set_wf(m: CacheModel, k: i64, c: Seq<u8>, cap: int)
    requires
        model_wf(m, cap),
        cap >= 1,
        !m.entries.contains_key(k),
    ensures
        model_wf(model_set(m, k, c, cap), cap),
{
    if m.keys.len() >= cap && m.keys.len() > 0 {
        lemma_evict_wf(m, cap);
        let e = CacheModel { keys: m.keys.drop_first(), entries: m.entries.remove(m.keys[0]) };
        lemma_append_wf(e, k, c, cap);
        assert(model_set(m, k, c, cap) =~~= CacheModel {
            keys: e.keys.push(k),
            entries: e.entries.insert(k, c),
        });
    } else {
        lemma_append_wf(m, k, c, cap);
    }
}

/// FIFO eviction: adding a fresh key to a full cache evicts exactly the
/// earliest-inserted key; every other entry, and the new one, remains.
/// Reads cannot reorder the queue: `has` and `get` take the cache by
/// shared reference.
pub proof fn lemma_fifo_eviction(m: CacheModel, k: i64, c: Seq<u8>, cap: int)
    requires
        model_wf(m, cap),
        m.keys.len() == cap,
        cap >= 1,
        !m.entries.contains_key(k),
    ensures
        ({
            let m2 = model_set(m, k, c, cap);
            &&& m2.keys == m.keys.drop_first().push(k)
            &&& !m2.entries.contains_key(m.keys[0])
            &&& m2.entries.contains_key(k)
            &&& m2.entries[k] == c
            &&& forall|x: i64| #![auto]
                m.entries.contains_key(x) && x != m.keys[0] ==> m2.entries.contains_key(x)
                    && m2.entries[x] == m.entries[x]
        }),
{
    assert(m.keys.contains(m.keys[0]));
    assert(m.entries.contains_key(m.keys[0]));
}

/// Idempotence: setting a key that is already present changes nothing,
/// whatever the new value.
pub proof fn lemma_set_idempotent(m: CacheModel, k: i64, c: Seq<u8>, cap: int)
    requires
        m.entries.contains_key(k),
    ensures
        model_set(m, k, c, cap) == m,
{
}

} // verus!
