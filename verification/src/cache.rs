//! Expiring content cache.
//!
//! A key→JSON store with time-based invalidation.  Keys are digested so a
//! storage identifier never reveals the request it answers.  An entry older
//! than the configured TTL is treated as absent and deleted on read; there
//! is no background sweeper.  The store itself lives in memory; persisting
//! entries under `get_cache_path` names is the surrounding process's work.

use vstd::prelude::*;

verus! {

use vstd::utf8::encode_utf8;
use sha2::Digest;
use crate::text::{str_eq, digit_char};
use crate::json::{Json, JsonV};

/// The SHA-256 digest of a byte sequence.
pub uninterp spec fn sha256_of(bytes: Seq<u8>) -> Seq<u8>;

/// Relies on `sha2::Sha256` (via the `Digest` trait): the 32-byte digest is
/// a function of the input bytes alone.
#[verifier::external_body]
fn sha256(data: &[u8]) -> (r: Vec<u8>)
    ensures
        r@ == sha256_of(data@),
        r@.len() == 32,
{
    sha2::Sha256::digest(data).to_vec()
}

/// One lowercase hexadecimal digit.
pub open spec fn hex_digit(n: int) -> char {
    if n < 10 {
        digit_char(n)
    } else {
        (((97 - 10) + n) as u8) as char
    }
}

/// Lowercase hexadecimal rendering of bytes, high nibble first.
pub open spec fn hex_of(bytes: Seq<u8>) -> Seq<char>
    decreases bytes.len(),
{
    if bytes.len() == 0 {
        Seq::empty()
    } else {
        seq![hex_digit(bytes[0] as int / 16), hex_digit(bytes[0] as int % 16)] + hex_of(
            bytes.drop_first(),
        )
    }
}

/// Relies on `hex::encode`: lowercase hex, two digits per byte, high nibble
/// first.
#[verifier::external_body]
fn hex_encode(data: &[u8]) -> (r: String)
    ensures
        r@ == hex_of(data@),
{
    hex::encode(data)
}

/// Relies on `chrono::Utc::now`: seconds since the Unix epoch as the system
/// clock gives them; nothing is assumed of the value.
#[verifier::external_body]
fn now_unix_seconds() -> (r: i64) {
    chrono::Utc::now().timestamp()
}

/// The storage identifier of a cache key.
pub open spec fn cache_digest(key: Seq<char>) -> Seq<char> {
    hex_of(sha256_of(encode_utf8(key)))
}

/// One stored cache entry: when it was written, and what.
pub struct CacheEntry {
    pub timestamp: i64,
    pub data: Json,
}

/// The expiring key→JSON store.
pub struct Cache {
    pub entries: Vec<(String, CacheEntry)>,
    pub expiry_hours: i64,
}

/// Storage identifiers are unique within the store.
pub open spec fn wf_entries(s: Seq<(String, CacheEntry)>) -> bool {
    forall|i: int, j: int| 0 <= i < j < s.len() ==> s[i].0@ != s[j].0@
}

/// Whether some entry is stored under identifier `d`.
pub open spec fn has_ident(s: Seq<(String, CacheEntry)>, d: Seq<char>) -> bool {
    exists|i: int| 0 <= i < s.len() && s[i].0@ == d
}

/// The store as a map from storage identifier to timestamp and payload view.
pub open spec fn as_map(s: Seq<(String, CacheEntry)>) -> Map<Seq<char>, (int, JsonV)>
    decreases s.len(),
{
    if s.len() == 0 {
        Map::empty()
    } else {
        as_map(s.drop_first()).insert(s[0].0@, (s[0].1.timestamp as int, s[0].1.data@))
    }
}

/// What a read at time `now` answers out of store `m` under identifier `d`.
pub open spec fn spec_get(
    m: Map<Seq<char>, (int, JsonV)>,
    d: Seq<char>,
    now: int,
    expiry_hours: int,
) -> Option<JsonV> {
    if m.contains_key(d) && now - m[d].0 <= expiry_hours * 3600 {
        Some(m[d].1)
    } else {
        None
    }
}

/// `as_map` has exactly the stored identifiers as keys, and under each the
/// entry that carries it.
pub proof fn lemma_as_map_props(s: Seq<(String, CacheEntry)>)
    ensures
        forall|d: Seq<char>| #[trigger] as_map(s).contains_key(d) <==> has_ident(s, d),
        wf_entries(s) ==> forall|i: int|
            0 <= i < s.len() ==> as_map(s).contains_key(#[trigger] s[i].0@) && as_map(s)[s[i].0@]
                == (s[i].1.timestamp as int, s[i].1.data@),
    decreases s.len(),
{
    if s.len() > 0 {
        let t = s.drop_first();
        lemma_as_map_props(t);
        assert(as_map(s) == as_map(t).insert(s[0].0@, (s[0].1.timestamp as int, s[0].1.data@)));
        assert forall|d: Seq<char>| #[trigger] as_map(s).contains_key(d) implies has_ident(
            s,
            d,
        ) by {
            if d == s[0].0@ {
                assert(s[0].0@ == d);
            } else {
                assert(as_map(t).contains_key(d));
                assert(has_ident(t, d));
                let i = choose|i: int| 0 <= i < t.len() && t[i].0@ == d;
                assert(s[i + 1].0@ == d);
            }
        }
        assert forall|d: Seq<char>| has_ident(s, d) implies as_map(s).contains_key(d) by {
            let i = choose|i: int| 0 <= i < s.len() && s[i].0@ == d;
            if i > 0 {
                assert(t[i - 1].0@ == d);
            }
        }
        if wf_entries(s) {
            assert(wf_entries(t)) by {
                assert forall|i: int, j: int| 0 <= i < j < t.len() implies t[i].0@ != t[j].0@ by {
                    assert(s[i + 1].0@ != s[j + 1].0@);
                }
            }
            assert forall|i: int| 0 <= i < s.len() implies as_map(s).contains_key(
                #[trigger] s[i].0@,
            ) && as_map(s)[s[i].0@] == (s[i].1.timestamp as int, s[i].1.data@) by {
                if i > 0 {
                    assert(t[i - 1].0@ == s[i].0@);
                    assert(s[0].0@ != s[i].0@);
                }
            }
        }
    }
}

/// Removing the entry at `i` removes exactly its identifier from the map.
pub proof fn lemma_as_map_remove(s: Seq<(String, CacheEntry)>, i: int)
    requires
        wf_entries(s),
        0 <= i < s.len(),
    ensures
        as_map(s.remove(i)) == as_map(s).remove(s[i].0@),
        wf_entries(s.remove(i)),
        !has_ident(s.remove(i), s[i].0@),
    decreases s.len(),
{
    let t = s.drop_first();
    lemma_as_map_props(s);
    lemma_as_map_props(t);
    assert(wf_entries(t)) by {
        assert forall|a: int, b: int| 0 <= a < b < t.len() implies t[a].0@ != t[b].0@ by {
            assert(s[a + 1].0@ != s[b + 1].0@);
        }
    }
    if i == 0 {
        assert(s.remove(0) =~= t);
        assert(!as_map(t).contains_key(s[0].0@)) by {
            if has_ident(t, s[0].0@) {
                let j = choose|j: int| 0 <= j < t.len() && t[j].0@ == s[0].0@;
                assert(s[0].0@ != s[j + 1].0@);
            }
        }
        assert(as_map(t) =~= as_map(s).remove(s[0].0@));
    } else {
        lemma_as_map_remove(t, i - 1);
        assert(s.remove(i).drop_first() =~= t.remove(i - 1));
        assert(s.remove(i).len() > 0);
        assert(s.remove(i)[0] == s[0]);
        assert(t[i - 1] == s[i]);
        assert(s[0].0@ != s[i].0@);
        assert(as_map(s.remove(i)) == as_map(t.remove(i - 1)).insert(
            s[0].0@,
            (s[0].1.timestamp as int, s[0].1.data@),
        ));
        assert(as_map(s) == as_map(t).insert(s[0].0@, (s[0].1.timestamp as int, s[0].1.data@)));
        assert(as_map(s.remove(i)) =~= as_map(s).remove(s[i].0@));
    }
    assert(wf_entries(s.remove(i))) by {
        assert forall|a: int, b: int| 0 <= a < b < s.remove(i).len() implies s.remove(i)[a].0@ != s
            .remove(i)[b].0@ by {
            let a0 = if a < i { a } else { a + 1 };
            let b0 = if b < i { b } else { b + 1 };
            assert(s.remove(i)[a] == s[a0]);
            assert(s.remove(i)[b] == s[b0]);
            assert(s[a0].0@ != s[b0].0@);
        }
    }
    assert(!has_ident(s.remove(i), s[i].0@)) by {
        if has_ident(s.remove(i), s[i].0@) {
            let j = choose|j: int| 0 <= j < s.remove(i).len() && s.remove(i)[j].0@ == s[i].0@;
            let j0 = if j < i { j } else { j + 1 };
            assert(s.remove(i)[j] == s[j0]);
            assert(s[j0].0@ != s[i].0@);
        }
    }
}

/// Appending an entry with a fresh identifier inserts exactly it.
pub proof fn lemma_as_map_push(s: Seq<(String, CacheEntry)>, e: (String, CacheEntry))
    requires
        !has_ident(s, e.0@),
    ensures
        as_map(s.push(e)) == as_map(s).insert(e.0@, (e.1.timestamp as int, e.1.data@)),
        wf_entries(s) ==> wf_entries(s.push(e)),
    decreases s.len(),
{
    if s.len() == 0 {
        assert(s.push(e).drop_first() =~= s);
        assert(s.push(e)[0] == e);
        assert(s.push(e).len() == 1);
        assert(as_map(s.push(e)) == as_map(s).insert(e.0@, (e.1.timestamp as int, e.1.data@)));
    } else {
        let t = s.drop_first();
        assert(!has_ident(t, e.0@)) by {
            if has_ident(t, e.0@) {
                let j = choose|j: int| 0 <= j < t.len() && t[j].0@ == e.0@;
                assert(s[j + 1].0@ == e.0@);
            }
        }
        lemma_as_map_push(t, e);
        assert(s.push(e).drop_first() =~= t.push(e));
        assert(s.push(e)[0] == s[0]);
        assert(s.push(e).len() > 0);
        assert(as_map(s.push(e)) == as_map(t.push(e)).insert(
            s[0].0@,
            (s[0].1.timestamp as int, s[0].1.data@),
        ));
        assert(as_map(s) == as_map(t).insert(s[0].0@, (s[0].1.timestamp as int, s[0].1.data@)));
        assert(s[0].0@ != e.0@) by {
            assert(s[0].0@ == s[0].0@);
            if s[0].0@ == e.0@ {
                assert(has_ident(s, e.0@));
            }
        }
        let m = as_map(t);
        let ev = (e.1.timestamp as int, e.1.data@);
        let v0 = (s[0].1.timestamp as int, s[0].1.data@);
        assert(as_map(s.push(e)) == m.insert(e.0@, ev).insert(s[0].0@, v0));
        assert(as_map(s).insert(e.0@, ev) == m.insert(s[0].0@, v0).insert(e.0@, ev));
        assert(m.insert(e.0@, ev).insert(s[0].0@, v0) =~= m.insert(s[0].0@, v0).insert(e.0@, ev));
    }
    if wf_entries(s) {
        assert forall|a: int, b: int| 0 <= a < b < s.push(e).len() implies s.push(e)[a].0@ != s
            .push(e)[b].0@ by {
            if b < s.len() {
                assert(s[a].0@ != s[b].0@);
            } else {
                assert(s.push(e)[b] == e);
                assert(s.push(e)[a] == s[a]);
                if s[a].0@ == e.0@ {
                    assert(has_ident(s, e.0@));
                }
            }
        }
    }
}

impl Cache {
    /// The store's identifiers are unique.
    pub open spec fn wf(self) -> bool {
        wf_entries(self.entries@)
    }

    /// The configured TTL, in hours.
    pub open spec fn spec_expiry_hours(self) -> int {
        self.expiry_hours as int
    }

    /// The store's contents, by storage identifier.
    pub open spec fn model(self) -> Map<Seq<char>, (int, JsonV)> {
        as_map(self.entries@)
    }

    /// A fresh, empty store with the given TTL.
    pub fn new(expiry_hours: i64) -> (r: Cache)
        ensures
            r.wf(),
            r.model() == Map::<Seq<char>, (int, JsonV)>::empty(),
            r.spec_expiry_hours() == expiry_hours as int,
    {
        let r = Cache { entries: Vec::new(), expiry_hours };
        proof {
            assert(r.entries@ =~= Seq::<(String, CacheEntry)>::empty());
        }
        r
    }

    /// The storage identifier of `key`: its digest, in lowercase hex.
    pub fn get_cache_key(key: &str) -> (r: String)
        ensures
            r@ == cache_digest(key@),
    {
        let bytes = key.as_bytes();
        let digest = sha256(bytes);
        hex_encode(digest.as_slice())
    }

    /// The file name under which an entry for `key` would be persisted.
    pub fn get_cache_path(&self, key: &str) -> (r: String)
        ensures
            r@ == cache_digest(key@) + ".json"@,
    {
        let mut r = Self::get_cache_key(key);
        r.append(".json");
        r
    }

    /// Index of the entry stored under identifier `d`, if any.
    fn find_ident(&self, d: &str) -> (r: Option<usize>)
        ensures
            match r {
                Some(i) => i < self.entries@.len() && self.entries@[i as int].0@ == d@,
                None => !has_ident(self.entries@, d@),
            },
    {
        let mut i: usize = 0;
        while i < self.entries.len()
            invariant
                i <= self.entries@.len(),
                forall|j: int| 0 <= j < i ==> self.entries@[j].0@ != d@,
            decreases self.entries@.len() - i,
        {
            if str_eq(self.entries[i].0.as_str(), d) {
                return Some(i);
            }
            i += 1;
        }
        None
    }

    /// Reads `key` at time `now`.  An entry older than the TTL is deleted
    /// and reported absent; otherwise the stored payload is returned and the
    /// store is unchanged.
    pub fn get_at(&mut self, key: &str, now: i64) -> (r: Option<Json>)
        requires
            old(self).wf(),
        ensures
            final(self).wf(),
            final(self).spec_expiry_hours() == old(self).spec_expiry_hours(),
            match r {
                Some(v) => {
                    &&& spec_get(
                        old(self).model(),
                        cache_digest(key@),
                        now as int,
                        old(self).spec_expiry_hours(),
                    ) == Some(v@)
                    &&& *final(self) == *old(self)
                },
                None => {
                    &&& spec_get(
                        old(self).model(),
                        cache_digest(key@),
                        now as int,
                        old(self).spec_expiry_hours(),
                    ) is None
                    &&& final(self).model() == old(self).model().remove_keys(
                        set![cache_digest(key@)],
                    )
                },
            },
    {
        proof {
            lemma_as_map_props(self.entries@);
        }
        let d = Self::get_cache_key(key);
        match self.find_ident(d.as_str()) {
            None => {
                proof {
                    assert(self.model() =~= self.model().remove_keys(set![cache_digest(key@)]));
                }
                None
            },
            Some(i) => {
                let ts = self.entries[i].1.timestamp;
                let age: i128 = (now as i128) - (ts as i128);
                let limit: i128 = (self.expiry_hours as i128) * 3600;
                if age > limit {
                    proof {
                        lemma_as_map_remove(self.entries@, i as int);
                    }
                    self.entries.remove(i);
                    proof {
                        assert(final(self).model() =~= old(self).model().remove_keys(
                            set![cache_digest(key@)],
                        ));
                    }
                    None
                } else {
                    let v = self.entries[i].1.data.clone();
                    Some(v)
                }
            },
        }
    }

    /// Writes `value` under `key` at time `now`, overwriting any prior
    /// entry for the same identifier (last write wins).
    pub fn set_at(&mut self, key: &str, value: Json, now: i64)
        requires
            old(self).wf(),
        ensures
            final(self).wf(),
            final(self).spec_expiry_hours() == old(self).spec_expiry_hours(),
            final(self).model() == old(self).model().insert(
                cache_digest(key@),
                (now as int, value@),
            ),
    {
        let d = Self::get_cache_key(key);
        let ghost pre = self.entries@;
        match self.find_ident(d.as_str()) {
            Some(i) => {
                proof {
                    lemma_as_map_remove(self.entries@, i as int);
                }
                self.entries.remove(i);
                proof {
                    lemma_as_map_props(old(self).entries@);
                    lemma_as_map_push(
                        self.entries@,
                        (d, CacheEntry { timestamp: now, data: value }),
                    );
                }
                let entry = CacheEntry { timestamp: now, data: value };
                self.entries.push((d, entry));
                proof {
                    assert(final(self).model() =~= old(self).model().insert(
                        cache_digest(key@),
                        (now as int, value@),
                    ));
                }
            },
            None => {
                proof {
                    lemma_as_map_push(
                        self.entries@,
                        (d, CacheEntry { timestamp: now, data: value }),
                    );
                }
                let entry = CacheEntry { timestamp: now, data: value };
                self.entries.push((d, entry));
                proof {
                    lemma_as_map_props(old(self).entries@);
                    assert(final(self).model() =~= old(self).model().insert(
                        cache_digest(key@),
                        (now as int, value@),
                    ));
                }
            },
        }
    }

    /// Reads `key` at the system clock's current time.
    pub fn get(&mut self, key: &str) -> (r: Option<Json>)
        requires
            old(self).wf(),
        ensures
            final(self).wf(),
            final(self).spec_expiry_hours() == old(self).spec_expiry_hours(),
            exists|now: int|
                match r {
                    Some(v) => {
                        &&& #[trigger] spec_get(
                            old(self).model(),
                            cache_digest(key@),
                            now,
                            old(self).spec_expiry_hours(),
                        ) == Some(v@)
                        &&& *final(self) == *old(self)
                    },
                    None => {
                        &&& spec_get(
                            old(self).model(),
                            cache_digest(key@),
                            now,
                            old(self).spec_expiry_hours(),
                        ) is None
                        &&& final(self).model() == old(self).model().remove_keys(
                            set![cache_digest(key@)],
                        )
                    },
                },
    {
        let now = now_unix_seconds();
        let r = self.get_at(key, now);
        proof {
            let w = now as int;
            assert(match r {
                Some(v) => {
                    &&& spec_get(
                        old(self).model(),
                        cache_digest(key@),
                        w,
                        old(self).spec_expiry_hours(),
                    ) == Some(v@)
                    &&& *final(self) == *old(self)
                },
                None => {
                    &&& spec_get(
                        old(self).model(),
                        cache_digest(key@),
                        w,
                        old(self).spec_expiry_hours(),
                    ) is None
                    &&& final(self).model() == old(self).model().remove_keys(
                        set![cache_digest(key@)],
                    )
                },
            });
        }
        r
    }

    /// Writes `value` under `key` at the system clock's current time.
    pub fn set(&mut self, key: &str, value: Json)
        requires
            old(self).wf(),
        ensures
            final(self).wf(),
            final(self).spec_expiry_hours() == old(self).spec_expiry_hours(),
            exists|now: int|
                final(self).model() == old(self).model().insert(
                    cache_digest(key@),
                    (now, value@),
                ),
    {
        let now = now_unix_seconds();
        self.set_at(key, value, now);
    }
}

/// Law: a write followed within the TTL window by a read of the same key
/// answers exactly the value written.
pub proof fn lemma_cache_round_trip(
    m: Map<Seq<char>, (int, JsonV)>,
    key: Seq<char>,
    v: JsonV,
    t_set: int,
    t_get: int,
    expiry_hours: int,
)
    requires
        t_get - t_set <= expiry_hours * 3600,
    ensures
        spec_get(m.insert(cache_digest(key), (t_set, v)), cache_digest(key), t_get, expiry_hours)
            == Some(v),
{
}

/// Law: once an entry has been deleted on an expired read, a later read of
/// the same key is also absent, and deleting is idempotent.
pub proof fn lemma_cache_expiry_idempotent(
    m: Map<Seq<char>, (int, JsonV)>,
    key: Seq<char>,
    t: int,
    expiry_hours: int,
)
    ensures
        spec_get(
            m.remove_keys(set![cache_digest(key)]),
            cache_digest(key),
            t,
            expiry_hours,
        ) is None,
        m.remove_keys(set![cache_digest(key)]).remove_keys(set![cache_digest(key)])
            == m.remove_keys(set![cache_digest(key)]),
{
    assert(!m.remove_keys(set![cache_digest(key)]).contains_key(cache_digest(key)));
    assert(m.remove_keys(set![cache_digest(key)]).remove_keys(set![cache_digest(key)]) =~= m
        .remove_keys(set![cache_digest(key)]));
}

} // verus!
