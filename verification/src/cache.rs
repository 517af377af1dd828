//! The cache of replies: a bounded memory of recent ones, and files beside it.

use crate::json::{
    copy_object, drop_key, json_object, nests_within, parsed_json, printed_json, put, Json,
    JsonSpec,
};
use crate::text::{
    byte_len, byte_len_of, byte_prefix, byte_prefix_of, cuts_cleanly, ends_with, finishes_with,
    lemma_byte_len, same,
};
use sha2::Digest;
use vstd::prelude::*;

verus! {

// ---------------------------------------------------------------------------
// The recent entries
// ---------------------------------------------------------------------------

/// The keys of entries.
pub open spec fn lru_keys(e: Seq<(Seq<char>, JsonSpec)>) -> Seq<Seq<char>> {
    e.map_values(|x: (Seq<char>, JsonSpec)| x.0)
}

/// Where a key stands among entries.
pub open spec fn lru_index(e: Seq<(Seq<char>, JsonSpec)>, key: Seq<char>) -> Option<int>
    decreases e.len(),
{
    if e.len() == 0 {
        None
    } else if e.last().0 == key {
        Some(e.len() - 1)
    } else {
        lru_index(e.drop_last(), key)
    }
}

/// The value of a key.
pub open spec fn lru_value(e: Seq<(Seq<char>, JsonSpec)>, key: Seq<char>) -> Option<JsonSpec> {
    match lru_index(e, key) {
        Some(i) => Some(e[i].1),
        None => None,
    }
}

/// The entries without that of a key.
pub open spec fn lru_without(e: Seq<(Seq<char>, JsonSpec)>, key: Seq<char>) -> Seq<
    (Seq<char>, JsonSpec),
> {
    match lru_index(e, key) {
        Some(i) => e.remove(i),
        None => e,
    }
}

/// The entries once a key was asked for: its entry becomes the most recent.
pub open spec fn lru_touched(e: Seq<(Seq<char>, JsonSpec)>, key: Seq<char>) -> Seq<
    (Seq<char>, JsonSpec),
> {
    match lru_index(e, key) {
        Some(i) => e.remove(i).push(e[i]),
        None => e,
    }
}

/// The entries once a key was set: its entry is the most recent, and the least
/// recent makes room for a new key in a full cache.
pub open spec fn lru_set(
    e: Seq<(Seq<char>, JsonSpec)>,
    key: Seq<char>,
    v: JsonSpec,
    max: nat,
) -> Seq<(Seq<char>, JsonSpec)> {
    if lru_index(e, key) is Some {
        lru_without(e, key).push((key, v))
    } else if e.len() >= max {
        e.skip(1).push((key, v))
    } else {
        e.push((key, v))
    }
}

/// A key is found exactly where it stands.
pub proof fn lemma_lru_index(e: Seq<(Seq<char>, JsonSpec)>, key: Seq<char>)
    ensures
        match lru_index(e, key) {
            Some(i) => 0 <= i < e.len() && e[i].0 == key,
            None => forall|i: int| 0 <= i < e.len() ==> (#[trigger] e[i]).0 != key,
        },
    decreases e.len(),
{
    if e.len() > 0 && e.last().0 != key {
        lemma_lru_index(e.drop_last(), key);
        assert forall|i: int|
            0 <= i < e.len() && lru_index(e, key) is None implies (#[trigger] e[i]).0 != key by {
            if i < e.len() - 1 {
                assert(e.drop_last()[i] == e[i]);
            }
        }
    }
}

/// What entries say.
pub open spec fn lru_list(e: Seq<(String, Json)>) -> Seq<(Seq<char>, JsonSpec)> {
    e.map_values(|x: (String, Json)| (x.0@, x.1@))
}

/// A bounded cache that lets go of what was not used for longest.
#[derive(Debug)]
pub struct LRUCache {
    max_size: usize,
    entries: Vec<(String, Json)>,
}

impl LRUCache {
    /// The keys are distinct, and there are no more than the bound.
    #[verifier::type_invariant]
    pub closed spec fn wf(self) -> bool {
        &&& self.max_size > 0
        &&& self.entries@.len() <= self.max_size
        &&& lru_keys(lru_list(self.entries@)).no_duplicates()
    }

    /// The entries, the least recently used first.
    pub closed spec fn recent(self) -> Seq<(Seq<char>, JsonSpec)> {
        lru_list(self.entries@)
    }

    /// How many entries there can be.
    pub closed spec fn bound(self) -> nat {
        self.max_size as nat
    }

    /// There are never more entries than the bound, and no key stands twice.
    pub proof fn law_never_over_the_bound(self)
        requires
            self.wf(),
        ensures
            self.recent().len() <= self.bound(),
            self.bound() > 0,
            lru_keys(self.recent()).no_duplicates(),
    {
    }

    /// A cache without entries.
    pub fn new(max_size: usize) -> (r: Self)
        requires
            max_size > 0,
        ensures
            r.recent() == Seq::<(Seq<char>, JsonSpec)>::empty(),
            r.bound() == max_size,
    {
        let r = LRUCache { max_size, entries: Vec::new() };
        proof {
            assert(r.recent() =~= Seq::<(Seq<char>, JsonSpec)>::empty());
        }
        r
    }

    fn position(&self, key: &str) -> (r: Option<usize>)
        ensures
            match r {
                Some(i) => lru_index(self.recent(), key@) == Some(i as int) && i
                    < self.entries@.len(),
                None => lru_index(self.recent(), key@) is None,
            },
    {
        let mut n: usize = self.entries.len();
        let ghost all = self.recent();
        proof {
            assert(all.take(n as int) =~= all);
        }
        while n > 0
            invariant
                n <= self.entries@.len(),
                all == lru_list(self.entries@),
                lru_index(all, key@) == lru_index(all.take(n as int), key@),
            decreases n,
        {
            proof {
                assert(all.take(n as int).drop_last() =~= all.take(n - 1));
                assert(all.take(n as int).last() == all[n - 1]);
            }
            if same(self.entries[n - 1].0.as_str(), key) {
                return Some(n - 1);
            }
            n = n - 1;
        }
        None
    }

    /// The value of a key. Its entry becomes the most recently used.
    pub fn get(&mut self, key: &str) -> (r: Option<Json>)
        ensures
            final(self).recent() == lru_touched(old(self).recent(), key@),
            final(self).bound() == old(self).bound(),
            match r {
                Some(v) => lru_value(old(self).recent(), key@) == Some(v@),
                None => lru_value(old(self).recent(), key@) is None,
            },
    {
        match self.position(key) {
            Some(i) => {
                let ghost before = self.recent();
                proof {
                    use_type_invariant(&*self);
                }
                let mut entries: Vec<(String, Json)> = Vec::new();
                std::mem::swap(&mut entries, &mut self.entries);
                let ghost was = entries@;
                let entry = entries.remove(i);
                let value = entry.1.copy();
                let ghost e = entry;
                entries.push(entry);
                proof {
                    let after = lru_list(entries@);
                    assert(after =~= before.remove(i as int).push(before[i as int]));
                    lemma_moved_distinct(before, i as int, before[i as int].1);
                }
                std::mem::swap(&mut entries, &mut self.entries);
                Some(value)
            },
            None => None,
        }
    }

    /// Sets the value of a key. Its entry becomes the most recently used, and the
    /// least recently used makes room for a new key in a full cache.
    pub fn set(&mut self, key: String, value: Json)
        ensures
            final(self).recent() == lru_set(
                old(self).recent(),
                key@,
                value@,
                old(self).bound(),
            ),
            final(self).bound() == old(self).bound(),
    {
        let found = self.position(key.as_str());
        let ghost before = self.recent();
        let ghost k = key@;
        let ghost v = value@;
        proof {
            use_type_invariant(&*self);
            lemma_lru_index(before, k);
        }
        let mut entries: Vec<(String, Json)> = Vec::new();
        std::mem::swap(&mut entries, &mut self.entries);
        match found {
            Some(i) => {
                let _ = entries.remove(i);
                proof {
                    assert(lru_list(entries@) =~= before.remove(i as int));
                    lemma_moved_distinct(before, i as int, v);
                }
            },
            None => {
                if entries.len() >= self.max_size {
                    let _ = entries.remove(0);
                    proof {
                        assert(lru_list(entries@) =~= before.skip(1));
                    }
                } else {
                    proof {
                        assert(lru_list(entries@) =~= before);
                    }
                }
                proof {
                    lemma_fresh_distinct(before, lru_list(entries@), k, v);
                }
            },
        }
        let ghost kept = lru_list(entries@);
        entries.push((key, value));
        proof {
            assert(lru_list(entries@) =~= kept.push((k, v)));
        }
        std::mem::swap(&mut entries, &mut self.entries);
    }

    /// Whether a key is there.
    pub fn contains(&self, key: &str) -> (r: bool)
        ensures
            r == (lru_value(self.recent(), key@) is Some),
    {
        self.position(key).is_some()
    }

    /// Takes everything out.
    pub fn clear(&mut self)
        ensures
            final(self).recent() == Seq::<(Seq<char>, JsonSpec)>::empty(),
            final(self).bound() == old(self).bound(),
    {
        proof {
            use_type_invariant(&*self);
        }
        let mut entries: Vec<(String, Json)> = Vec::new();
        proof {
            assert(lru_list(entries@) =~= Seq::<(Seq<char>, JsonSpec)>::empty());
        }
        std::mem::swap(&mut entries, &mut self.entries);
    }
}

proof fn lemma_moved_distinct(e: Seq<(Seq<char>, JsonSpec)>, i: int, v: JsonSpec)
    requires
        0 <= i < e.len(),
        lru_keys(e).no_duplicates(),
    ensures
        lru_keys(e.remove(i).push((e[i].0, v))).no_duplicates(),
{
    let r = e.remove(i).push((e[i].0, v));
    assert forall|a: int, b: int|
        0 <= a < r.len() && 0 <= b < r.len() && a != b implies lru_keys(r)[a] != lru_keys(
        r,
    )[b] by {
        let at = |x: int|
            if x == r.len() - 1 {
                i
            } else if x < i {
                x
            } else {
                x + 1
            };
        assert(lru_keys(r)[a] == lru_keys(e)[at(a)]);
        assert(lru_keys(r)[b] == lru_keys(e)[at(b)]);
    }
}

proof fn lemma_fresh_distinct(
    e: Seq<(Seq<char>, JsonSpec)>,
    kept: Seq<(Seq<char>, JsonSpec)>,
    k: Seq<char>,
    v: JsonSpec,
)
    requires
        lru_keys(e).no_duplicates(),
        lru_index(e, k) is None,
        kept == e || (e.len() > 0 && kept == e.skip(1)),
    ensures
        lru_keys(kept.push((k, v))).no_duplicates(),
{
    lemma_lru_index(e, k);
    let r = kept.push((k, v));
    let d: int = e.len() - kept.len();
    assert forall|a: int, b: int|
        0 <= a < r.len() && 0 <= b < r.len() && a != b implies lru_keys(r)[a] != lru_keys(
        r,
    )[b] by {
        if a < kept.len() {
            assert(lru_keys(r)[a] == lru_keys(e)[a + d]);
            assert(e[a + d].0 != k);
        }
        if b < kept.len() {
            assert(lru_keys(r)[b] == lru_keys(e)[b + d]);
            assert(e[b + d].0 != k);
        }
    }
}

/// What was set last under a key is what the key gives.
pub proof fn law_lru_get_after_set(
    e: Seq<(Seq<char>, JsonSpec)>,
    key: Seq<char>,
    v: JsonSpec,
    max: nat,
)
    ensures
        lru_value(lru_set(e, key, v, max), key) == Some(v),
{
}

/// Setting one key leaves the value of another alone, unless the cache is full
/// and that other entry is the least recently used.
pub proof fn law_lru_set_keeps_others(
    e: Seq<(Seq<char>, JsonSpec)>,
    key: Seq<char>,
    v: JsonSpec,
    max: nat,
    other: Seq<char>,
)
    requires
        lru_keys(e).no_duplicates(),
        0 < max,
        e.len() <= max,
        other != key,
    ensures
        lru_value(lru_set(e, key, v, max), other) == if lru_index(e, key) is None && e.len() == max
            && e[0].0 == other {
            None
        } else {
            lru_value(e, other)
        },
{
    let r = lru_set(e, key, v, max);
    lemma_lru_index(e, key);
    lemma_lru_index(e, other);
    lemma_lru_index(r, other);
    match lru_index(e, other) {
        Some(i) => {
            let j: int = match lru_index(e, key) {
                Some(k) => if i < k {
                    i
                } else {
                    i - 1
                },
                None => if e.len() >= max {
                    i - 1
                } else {
                    i
                },
            };
            if e[0].0 == other {
                assert(lru_keys(e)[0] == lru_keys(e)[i]);
            }
            if j >= 0 {
                assert(r[j] == e[i]);
                match lru_index(r, other) {
                    Some(b) => {
                        lemma_same_place(e, key, v, max, b, j, other);
                    },
                    None => {},
                }
            } else {
                assert(i == 0);
                match lru_index(r, other) {
                    Some(b) => {
                        if b < r.len() - 1 {
                            assert(r[b] == e[b + 1]);
                            assert(lru_keys(e)[0] == lru_keys(e)[b + 1]);
                        }
                    },
                    None => {},
                }
            }
        },
        None => {
            match lru_index(r, other) {
                Some(b) => {
                    if b < r.len() - 1 {
                        let a: int = match lru_index(e, key) {
                            Some(k) => if b < k {
                                b
                            } else {
                                b + 1
                            },
                            None => if e.len() >= max {
                                b + 1
                            } else {
                                b
                            },
                        };
                        assert(r[b] == e[a]);
                        assert(e[a].0 != other);
                    }
                },
                None => {},
            }
        },
    }
}

proof fn lemma_same_place(
    e: Seq<(Seq<char>, JsonSpec)>,
    key: Seq<char>,
    v: JsonSpec,
    max: nat,
    a: int,
    b: int,
    other: Seq<char>,
)
    requires
        lru_keys(e).no_duplicates(),
        0 < max,
        e.len() <= max,
        other != key,
        0 <= a < lru_set(e, key, v, max).len(),
        0 <= b < lru_set(e, key, v, max).len(),
        lru_set(e, key, v, max)[a].0 == other,
        lru_set(e, key, v, max)[b].0 == other,
    ensures
        a == b,
{
    let r = lru_set(e, key, v, max);
    lemma_lru_index(e, key);
    match lru_index(e, key) {
        Some(k) => {
            lemma_moved_distinct(e, k, v);
        },
        None => {
            lemma_fresh_distinct(
                e,
                if e.len() >= max {
                    e.skip(1)
                } else {
                    e
                },
                key,
                v,
            );
        },
    }
    assert(lru_keys(r)[a] == other);
    assert(lru_keys(r)[b] == other);
}

/// A key that was just asked for is not the one that the next new key pushes out
/// of a cache for two entries or more.
pub proof fn law_lru_recent_survives(
    e: Seq<(Seq<char>, JsonSpec)>,
    key: Seq<char>,
    fresh: Seq<char>,
    v: JsonSpec,
    max: nat,
)
    requires
        lru_keys(e).no_duplicates(),
        2 <= max,
        e.len() <= max,
        key != fresh,
    ensures
        lru_value(lru_set(lru_touched(e, key), fresh, v, max), key) == lru_value(e, key),
{
    let t = lru_touched(e, key);
    lemma_lru_index(e, key);
    match lru_index(e, key) {
        Some(i) => {
            lemma_moved_distinct(e, i, e[i].1);
            assert(t =~= e.remove(i).push((e[i].0, e[i].1)));
            law_lru_set_keeps_others(t, fresh, v, max, key);
            assert(t.last().0 == key);
            if t.len() == max && t[0].0 == key {
                assert(lru_keys(t)[0] == lru_keys(t)[t.len() - 1]);
            }
        },
        None => {
            law_lru_set_keeps_others(e, fresh, v, max, key);
            if e.len() == max {
                assert(e[0].0 != key);
            }
        },
    }
}

// ---------------------------------------------------------------------------
// Keys
// ---------------------------------------------------------------------------

/// The SHA-256 digest of the UTF-8 bytes of a text, in hexadecimal.
pub uninterp spec fn sha256_hex(text: Seq<char>) -> Seq<char>;

/// A digit of a lower-case hexadecimal number.
pub open spec fn hex_digit(c: char) -> bool {
    '0' <= c <= '9' || 'a' <= c <= 'f'
}

/// `sha2::Sha256` over the bytes of a text, and its digest with `{:x}`. The text
/// is [`sha256_hex`]: two lower-case hexadecimal digits for each of the 32 bytes.
#[verifier::external_body]
fn hash_text(text: &str) -> (r: String)
    ensures
        r@ == sha256_hex(text@),
        r@.len() == 64,
        forall|i: int| 0 <= i < r@.len() ==> hex_digit(#[trigger] r@[i]),
{
    let mut hasher = sha2::Sha256::new();
    hasher.update(text.as_bytes());
    format!("{:x}", hasher.finalize())
}

/// The arguments that a key leaves out where none are given.
pub open spec fn default_ignored() -> Seq<Seq<char>> {
    seq!["api_key"@, "api_base"@, "base_url"@]
}

/// The arguments that a key leaves out.
pub open spec fn ignored_of(ignored: Option<&[&str]>) -> Seq<Seq<char>> {
    match ignored {
        Some(names) => names@.map_values(|k: &str| k@),
        None => default_ignored(),
    }
}

/// A request without the arguments that a key leaves out. Only the request's own
/// members are left out, not those deeper in it.
pub open spec fn filtered(request: JsonSpec, ignored: Seq<Seq<char>>) -> JsonSpec {
    match request {
        JsonSpec::Object(m) => JsonSpec::Object(m.remove_keys(ignored.to_set())),
        _ => request,
    }
}

/// The key of a request.
pub open spec fn key_of(request: JsonSpec, ignored: Seq<Seq<char>>) -> Seq<char> {
    sha256_hex(printed_json(filtered(request, ignored)))
}

/// A request without the arguments that a key leaves out.
fn drop_ignored(request: &Json, ignored: &[&str]) -> (r: Json)
    ensures
        r@ == filtered(request@, ignored@.map_values(|k: &str| k@)),
{
    let ghost names = ignored@.map_values(|k: &str| k@);
    match request {
        Json::Object(m) => {
            let mut kept = copy_object(m);
            let ghost all = json_object(*m);
            let mut i: usize = 0;
            proof {
                assert(all.remove_keys(names.take(0).to_set()) =~= all);
            }
            while i < ignored.len()
                invariant
                    i <= ignored.len(),
                    names == ignored@.map_values(|k: &str| k@),
                    json_object(kept) == all.remove_keys(names.take(i as int).to_set()),
                decreases ignored.len() - i,
            {
                drop_key(&mut kept, ignored[i]);
                proof {
                    let a = names.take(i as int);
                    let b = names.take(i + 1);
                    assert(b =~= a.push(names[i as int]));
                    assert forall|k: Seq<char>| b.to_set().contains(k) <==> (a.to_set().contains(k)
                        || k == names[i as int]) by {
                        if a.to_set().contains(k) {
                            let j = choose|j: int| 0 <= j < a.len() && a[j] == k;
                            assert(b[j] == k);
                        }
                        assert(b[i as int] == names[i as int]);
                    }
                    assert(json_object(kept) =~= all.remove_keys(b.to_set()));
                }
                i = i + 1;
            }
            proof {
                assert(names.take(i as int) =~= names);
            }
            Json::Object(kept)
        },
        _ => request.copy(),
    }
}

/// The key of a request: the digest of its text without the arguments that are
/// left out.
pub fn request_key(request: &Json, ignored: Option<&[&str]>) -> (r: String)
    ensures
        r@ == key_of(request@, ignored_of(ignored)),
        r@.len() == 64,
        forall|i: int| 0 <= i < r@.len() ==> hex_digit(#[trigger] r@[i]),
{
    let kept = match ignored {
        Some(names) => drop_ignored(request, names),
        None => {
            let names: [&str; 3] = ["api_key", "api_base", "base_url"];
            proof {
                assert(names@.map_values(|k: &str| k@) =~= default_ignored());
            }
            drop_ignored(request, &names)
        },
    };
    hash_text(kept.to_text().as_str())
}

/// A key does not depend on an argument that it leaves out.
pub proof fn law_key_leaves_out(
    m: Map<Seq<char>, JsonSpec>,
    ignored: Seq<Seq<char>>,
    name: Seq<char>,
    v: JsonSpec,
)
    requires
        ignored.contains(name),
    ensures
        key_of(JsonSpec::Object(m.insert(name, v)), ignored) == key_of(
            JsonSpec::Object(m),
            ignored,
        ),
{
    assert(m.insert(name, v).remove_keys(ignored.to_set()) =~= m.remove_keys(ignored.to_set()));
}

/// A key does not depend on credentials or addresses, where no arguments are
/// given to leave out.
pub proof fn law_key_ignores_credentials(
    m: Map<Seq<char>, JsonSpec>,
    name: Seq<char>,
    v: JsonSpec,
)
    requires
        name == "api_key"@ || name == "api_base"@ || name == "base_url"@,
    ensures
        key_of(JsonSpec::Object(m.insert(name, v)), ignored_of(None)) == key_of(
            JsonSpec::Object(m),
            ignored_of(None),
        ),
{
    let d = default_ignored();
    assert(d[0] == "api_key"@ && d[1] == "api_base"@ && d[2] == "base_url"@);
    law_key_leaves_out(m, d, name, v);
}

/// A key does not depend on the order in which members were put in.
pub proof fn law_key_ignores_order(
    m: Map<Seq<char>, JsonSpec>,
    ignored: Seq<Seq<char>>,
    a: Seq<char>,
    x: JsonSpec,
    b: Seq<char>,
    y: JsonSpec,
)
    requires
        a != b,
    ensures
        key_of(JsonSpec::Object(m.insert(a, x).insert(b, y)), ignored) == key_of(
            JsonSpec::Object(m.insert(b, y).insert(a, x)),
            ignored,
        ),
{
    assert(m.insert(a, x).insert(b, y) =~= m.insert(b, y).insert(a, x));
}

// ---------------------------------------------------------------------------
// The files
// ---------------------------------------------------------------------------

/// What is known of a cache file. `P` is the type of its path.
#[derive(Debug, Clone)]
pub struct CacheFileInfo<P> {
    pub path: P,
    pub size: usize,
    /// When it was last changed, in nanoseconds from a fixed moment.
    pub modified: i128,
}

/// Files in order of their last change with one put in, after those as old.
pub open spec fn file_inserted<P>(files: Seq<CacheFileInfo<P>>, f: CacheFileInfo<P>) -> Seq<
    CacheFileInfo<P>,
>
    decreases files.len(),
{
    if files.len() == 0 || files.last().modified <= f.modified {
        files.push(f)
    } else {
        file_inserted(files.drop_last(), f).push(files.last())
    }
}

/// Files in order of their last change, the oldest first; files as old keep their
/// order.
pub open spec fn oldest_first<P>(files: Seq<CacheFileInfo<P>>) -> Seq<CacheFileInfo<P>>
    decreases files.len(),
{
    if files.len() == 0 {
        Seq::empty()
    } else {
        file_inserted(oldest_first(files.drop_last()), files.last())
    }
}

/// The bytes that files take.
pub open spec fn total_size<P>(files: Seq<CacheFileInfo<P>>) -> nat
    decreases files.len(),
{
    if files.len() == 0 {
        0
    } else {
        total_size(files.drop_last()) + files.last().size as nat
    }
}

/// The directory under the cache's own in which the file of a key stands.
pub open spec fn shard_of(key: Seq<char>) -> Seq<char> {
    byte_prefix_of(
        key,
        if byte_len_of(key) < 2 {
            byte_len_of(key) as int
        } else {
            2
        },
    )
}

/// The file of a key: its directory under the cache's own, and its name.
pub fn key_path(key: &str) -> (r: (String, String))
    requires
        cuts_cleanly(
            key@,
            if byte_len_of(key@) < 2 {
                byte_len_of(key@) as int
            } else {
                2
            },
        ),
    ensures
        r.0@ == shard_of(key@),
        r.1@ == key@ + ".json"@,
{
    let n: usize = byte_len(key);
    let cut: usize = if n < 2 {
        n
    } else {
        2
    };
    let mut name = key.to_owned();
    name.append(".json");
    (byte_prefix(key, cut), name)
}

/// Whether a file of that name is a cache file.
pub fn is_cache_file(name: &str) -> (r: bool)
    ensures
        r == finishes_with(name@, ".json"@),
{
    ends_with(name, ".json")
}

fn insert_file<P>(files: &mut Vec<CacheFileInfo<P>>, f: CacheFileInfo<P>)
    ensures
        final(files)@ == file_inserted(old(files)@, f),
{
    let ghost all = files@;
    let mut n: usize = files.len();
    let ghost x = f;
    proof {
        assert(all.take(n as int) =~= all);
        assert(all.skip(n as int) =~= Seq::<CacheFileInfo<P>>::empty());
        assert(file_inserted(all, x) =~= file_inserted(all.take(n as int), x) + all.skip(n as int));
    }
    while n > 0 && files[n - 1].modified > f.modified
        invariant
            n <= files@.len(),
            files@ == all,
            x == f,
            file_inserted(all, x) == file_inserted(all.take(n as int), x) + all.skip(n as int),
        decreases n,
    {
        proof {
            let a = all.take(n as int);
            assert(a.last() == all[n - 1]);
            assert(a.drop_last() =~= all.take(n - 1));
            assert(file_inserted(all.take(n - 1), x).push(all[n - 1]) + all.skip(n as int)
                =~= file_inserted(all.take(n - 1), x) + all.skip(n - 1));
        }
        n = n - 1;
    }
    proof {
        let a = all.take(n as int);
        if n > 0 {
            assert(a.last() == all[n - 1]);
        }
        assert(file_inserted(a, x) == a.push(x));
        assert(a.push(x) + all.skip(n as int) =~= all.insert(n as int, x));
    }
    files.insert(n, f);
}

/// Making room in the cache for a new entry, file by file.
#[derive(Debug)]
pub struct Eviction<P> {
    files: Vec<CacheFileInfo<P>>,
    next: usize,
    total: usize,
    new_entry_bytes: usize,
    limit: usize,
}

/// Where making room stands.
pub struct EvictionSpec<P> {
    /// The files, the oldest first.
    pub files: Seq<CacheFileInfo<P>>,
    /// How many of them were tried.
    pub next: int,
    /// The bytes that the files take now.
    pub total: int,
    /// The bytes that the new entry takes.
    pub new_entry_bytes: int,
    /// The bytes that the cache may take.
    pub limit: int,
}

impl<P> EvictionSpec<P> {
    /// The new entry fits.
    pub open spec fn fits(self) -> bool {
        self.total + self.new_entry_bytes <= self.limit
    }

    /// There is a file to remove.
    pub open spec fn goes_on(self) -> bool {
        !self.fits() && self.next < self.files.len()
    }

    /// What an attempt on the next file leaves.
    pub open spec fn after(self, removed: bool) -> EvictionSpec<P> {
        EvictionSpec {
            next: self.next + 1,
            total: if removed {
                if self.total < self.files[self.next].size {
                    0
                } else {
                    self.total - self.files[self.next].size
                }
            } else {
                self.total
            },
            ..self
        }
    }
}

impl<P> View for Eviction<P> {
    type V = EvictionSpec<P>;

    closed spec fn view(&self) -> EvictionSpec<P> {
        EvictionSpec {
            files: self.files@,
            next: self.next as int,
            total: self.total as int,
            new_entry_bytes: self.new_entry_bytes as int,
            limit: self.limit as int,
        }
    }
}

impl<P> Eviction<P> {
    /// What is added up fits in the machine's integers.
    #[verifier::type_invariant]
    pub closed spec fn wf(self) -> bool {
        &&& self.next <= self.files@.len()
        &&& self.total + self.new_entry_bytes <= usize::MAX
    }

    /// Making room for a new entry among files.
    pub fn new(files: Vec<CacheFileInfo<P>>, new_entry_bytes: usize, limit: usize) -> (r: Self)
        requires
            total_size(files@) + new_entry_bytes <= usize::MAX,
        ensures
            r@ == (EvictionSpec {
                files: oldest_first(files@),
                next: 0,
                total: total_size(files@) as int,
                new_entry_bytes: new_entry_bytes as int,
                limit: limit as int,
            }),
    {
        let ghost all = files@;
        let mut sorted: Vec<CacheFileInfo<P>> = Vec::new();
        let mut total: usize = 0;
        proof {
            assert(all.take(0) =~= Seq::<CacheFileInfo<P>>::empty());
        }
        for f in it: files
            invariant
                it.seq() == all,
                total_size(all) + new_entry_bytes <= usize::MAX,
                sorted@ == oldest_first(all.take(it.index() as int)),
                total == total_size(all.take(it.index() as int)),
        {
            proof {
                let i = it.index() as int;
                assert(all.take(i + 1).drop_last() =~= all.take(i));
                assert(all.take(i + 1).last() == f);
                lemma_total_grows(all, i + 1);
            }
            total = total + f.size;
            insert_file(&mut sorted, f);
        }
        proof {
            assert(all.take(all.len() as int) =~= all);
        }
        Eviction { files: sorted, next: 0, total, new_entry_bytes, limit }
    }

    /// The file to remove next, as long as the new entry does not fit.
    pub fn next_file(&self) -> (r: Option<&P>)
        ensures
            r is Some <==> self@.goes_on(),
            r matches Some(p) ==> *p == self@.files[self@.next].path,
    {
        proof {
            use_type_invariant(self);
        }
        if self.total + self.new_entry_bytes <= self.limit {
            return None;
        }
        if self.next < self.files.len() {
            Some(&self.files[self.next].path)
        } else {
            None
        }
    }

    /// Takes note of an attempt to remove the next file.
    pub fn report(&mut self, removed: bool)
        requires
            old(self)@.goes_on(),
        ensures
            final(self)@ == old(self)@.after(removed),
    {
        proof {
            use_type_invariant(&*self);
        }
        let n: usize = self.files.len();
        let i: usize = self.next;
        proof {
            assert(i < n);
        }
        let size: usize = self.files[i].size;
        let left: usize = if removed {
            if self.total < size {
                0
            } else {
                self.total - size
            }
        } else {
            self.total
        };
        self.next = i + 1;
        self.total = left;
    }
}

proof fn lemma_total_grows<P>(files: Seq<CacheFileInfo<P>>, i: int)
    requires
        0 <= i <= files.len(),
    ensures
        total_size(files.take(i)) <= total_size(files),
    decreases files.len() - i,
{
    if i < files.len() {
        lemma_total_grows(files, i + 1);
        assert(files.take(i + 1).drop_last() =~= files.take(i));
    } else {
        assert(files.take(i) =~= files);
    }
}

proof fn lemma_file_inserted<P>(files: Seq<CacheFileInfo<P>>, f: CacheFileInfo<P>)
    requires
        forall|i: int, j: int|
            0 <= i < j < files.len() ==> (#[trigger] files[i]).modified <= (
            #[trigger] files[j]).modified,
    ensures
        file_inserted(files, f).len() == files.len() + 1,
        file_inserted(files, f).to_multiset() == files.to_multiset().insert(f),
        total_size(file_inserted(files, f)) == total_size(files) + f.size,
        forall|i: int|
            0 <= i < files.len() + 1 ==> (#[trigger] file_inserted(files, f)[i]).modified
                <= f.modified || (files.len() > 0 && file_inserted(files, f)[i].modified
                <= files.last().modified),
        forall|i: int, j: int|
            0 <= i < j < files.len() + 1 ==> (#[trigger] file_inserted(files, f)[i]).modified <= (
            #[trigger] file_inserted(files, f)[j]).modified,
    decreases files.len(),
{
    broadcast use vstd::seq_lib::group_to_multiset_ensures;

    if files.len() == 0 || files.last().modified <= f.modified {
        let r = files.push(f);
        assert(r.drop_last() =~= files);
    } else {
        let front = files.drop_last();
        lemma_file_inserted(front, f);
        let r = file_inserted(front, f).push(files.last());
        assert(r.drop_last() =~= file_inserted(front, f));
        assert(files =~= front.push(files.last()));
        assert(r.to_multiset() =~= files.to_multiset().insert(f));
    }
}

/// The files are tried in order of their last change, the oldest first, and each
/// is tried at most once.
pub proof fn law_oldest_files_go_first<P>(files: Seq<CacheFileInfo<P>>)
    ensures
        oldest_first(files).to_multiset() == files.to_multiset(),
        total_size(oldest_first(files)) == total_size(files),
        forall|i: int, j: int|
            0 <= i < j < oldest_first(files).len() ==> (#[trigger] oldest_first(
                files,
            )[i]).modified <= (#[trigger] oldest_first(files)[j]).modified,
    decreases files.len(),
{
    broadcast use vstd::seq_lib::group_to_multiset_ensures;

    if files.len() > 0 {
        law_oldest_files_go_first(files.drop_last());
        lemma_file_inserted(oldest_first(files.drop_last()), files.last());
        assert(files =~= files.drop_last().push(files.last()));
    }
}

/// Where making room ends if every file can be removed.
pub open spec fn evicted<P>(e: EvictionSpec<P>) -> EvictionSpec<P>
    decreases e.files.len() - e.next,
{
    if e.goes_on() {
        evicted(e.after(true))
    } else {
        e
    }
}

/// If every file can be removed, making room ends with room for the new entry, or
/// with no file left.
pub proof fn law_eviction_makes_room<P>(e: EvictionSpec<P>)
    requires
        0 <= e.next <= e.files.len(),
        e.total == total_size(e.files.skip(e.next)),
    ensures
        evicted(e).fits() || (evicted(e).next == e.files.len() && evicted(e).total == 0),
    decreases e.files.len() - e.next,
{
    if e.goes_on() {
        let a = e.after(true);
        lemma_total_from(e.files, e.next);
        law_eviction_makes_room(a);
    } else {
        if !e.fits() {
            assert(e.files.skip(e.next) =~= Seq::<CacheFileInfo<P>>::empty());
        }
    }
}

proof fn lemma_total_from<P>(files: Seq<CacheFileInfo<P>>, i: int)
    requires
        0 <= i < files.len(),
    ensures
        total_size(files.skip(i)) == files[i].size + total_size(files.skip(i + 1)),
    decreases files.len(),
{
    let t = files.skip(i);
    if t.len() == 1 {
        assert(t.drop_last() =~= Seq::<CacheFileInfo<P>>::empty());
        assert(files.skip(i + 1) =~= Seq::<CacheFileInfo<P>>::empty());
    } else {
        let front = files.drop_last();
        lemma_total_from(front, i);
        assert(t.drop_last() =~= front.skip(i));
        assert(files.skip(i + 1).drop_last() =~= front.skip(i + 1));
        assert(files.skip(i + 1).last() == files.last());
        assert(t.last() == files.last());
    }
}

// ---------------------------------------------------------------------------
// The cache
// ---------------------------------------------------------------------------

/// How a cache is set up.
#[derive(Debug)]
pub struct CacheConfig {
    /// Keep recent replies in memory.
    pub enable_memory_cache: bool,
    /// Keep replies in files.
    pub enable_disk_cache: bool,
    /// The directory of the files.
    pub disk_cache_dir: String,
    /// How many bytes the files may take.
    pub disk_size_limit_bytes: usize,
    /// How many replies are kept in memory.
    pub memory_max_entries: usize,
}

impl Default for CacheConfig {
    /// A million replies in memory, and none in files.
    fn default() -> (r: Self)
        ensures
            r.enable_memory_cache,
            !r.enable_disk_cache,
            r.disk_cache_dir@ == ".dspy_cache"@,
            r.disk_size_limit_bytes == 10 * 1024 * 1024,
            r.memory_max_entries == 1_000_000,
    {
        CacheConfig {
            enable_memory_cache: true,
            enable_disk_cache: false,
            disk_cache_dir: ".dspy_cache".to_string(),
            disk_size_limit_bytes: 10 * 1024 * 1024,
            memory_max_entries: 1_000_000,
        }
    }
}

/// A file to write.
#[derive(Debug)]
pub struct DiskWrite {
    /// The directory under the cache's own.
    pub shard: String,
    /// The name of the file.
    pub name: String,
    /// What the file holds.
    pub data: String,
}

/// A cache of replies, in memory and in files.
#[derive(Debug)]
pub struct Cache {
    enable_memory_cache: bool,
    enable_disk_cache: bool,
    memory_cache: LRUCache,
    disk_cache_dir: String,
    disk_size_limit_bytes: usize,
}

/// What a cache holds in memory, and how it is set up.
pub struct CacheSpec {
    pub memory: bool,
    pub disk: bool,
    /// The replies in memory, the least recently used first.
    pub recent: Seq<(Seq<char>, JsonSpec)>,
    /// How many replies are kept in memory.
    pub bound: nat,
    pub dir: Seq<char>,
    pub disk_limit: nat,
}

impl CacheSpec {
    /// The reply in memory under a key.
    pub open spec fn remembered(self, key: Seq<char>) -> Option<JsonSpec> {
        if self.memory {
            lru_value(self.recent, key)
        } else {
            None
        }
    }

    /// The reply under a key, in memory or else in the key's file.
    pub open spec fn found(self, key: Seq<char>, file: Option<Seq<char>>) -> Option<JsonSpec> {
        match self.remembered(key) {
            Some(v) => Some(v),
            None => if self.disk {
                file_value(file)
            } else {
                None
            },
        }
    }

    /// The cache once the reply under a key was asked for.
    pub open spec fn asked(self, key: Seq<char>, file: Option<Seq<char>>) -> CacheSpec {
        if !self.memory {
            self
        } else if self.remembered(key) is Some {
            CacheSpec { recent: lru_touched(self.recent, key), ..self }
        } else {
            match self.found(key, file) {
                Some(v) => CacheSpec { recent: lru_set(self.recent, key, v, self.bound), ..self },
                None => self,
            }
        }
    }

    /// The cache once a reply was stored under a key.
    pub open spec fn stored(self, key: Seq<char>, v: JsonSpec, enable_memory: bool) -> CacheSpec {
        if self.memory && enable_memory {
            CacheSpec { recent: lru_set(self.recent, key, v, self.bound), ..self }
        } else {
            self
        }
    }
}

/// The value that a file holds.
pub open spec fn file_value(file: Option<Seq<char>>) -> Option<JsonSpec> {
    match file {
        Some(t) => match parsed_json(t) {
            Ok(j) => Some(j),
            Err(_) => None,
        },
        None => None,
    }
}

/// A reply as a hit gives it: an object without its usage, marked as a hit.
pub open spec fn as_hit(v: JsonSpec) -> JsonSpec {
    match v {
        JsonSpec::Object(m) => JsonSpec::Object(
            m.remove("usage"@).insert("cache_hit"@, JsonSpec::Bool(true)),
        ),
        _ => v,
    }
}

/// What an optional text says.
pub open spec fn opt_text_of(s: Option<&str>) -> Option<Seq<char>> {
    match s {
        Some(t) => Some(t@),
        None => None,
    }
}

impl View for Cache {
    type V = CacheSpec;

    closed spec fn view(&self) -> CacheSpec {
        CacheSpec {
            memory: self.enable_memory_cache,
            disk: self.enable_disk_cache,
            recent: self.memory_cache.recent(),
            bound: self.memory_cache.bound(),
            dir: self.disk_cache_dir@,
            disk_limit: self.disk_size_limit_bytes as nat,
        }
    }
}

/// A reply as a hit gives it.
fn mark_hit(v: Json) -> (r: Json)
    ensures
        r@ == as_hit(v@),
{
    match v {
        Json::Object(m) => {
            let mut kept = m;
            drop_key(&mut kept, "usage");
            put(&mut kept, "cache_hit", Json::Bool(true));
            Json::Object(kept)
        },
        other => other,
    }
}

impl Cache {
    /// A cache that is set up as given, without any reply in memory.
    pub fn new(config: CacheConfig) -> (r: Self)
        requires
            config.memory_max_entries > 0,
        ensures
            r@ == (CacheSpec {
                memory: config.enable_memory_cache,
                disk: config.enable_disk_cache,
                recent: Seq::empty(),
                bound: config.memory_max_entries as nat,
                dir: config.disk_cache_dir@,
                disk_limit: config.disk_size_limit_bytes as nat,
            }),
    {
        Cache {
            enable_memory_cache: config.enable_memory_cache,
            enable_disk_cache: config.enable_disk_cache,
            memory_cache: LRUCache::new(config.memory_max_entries),
            disk_cache_dir: config.disk_cache_dir,
            disk_size_limit_bytes: config.disk_size_limit_bytes,
        }
    }

    /// A cache in memory alone.
    pub fn default_memory_only() -> (r: Self)
        ensures
            r@ == (CacheSpec {
                memory: true,
                disk: false,
                recent: Seq::empty(),
                bound: 1_000_000,
                dir: ".dspy_cache"@,
                disk_limit: 10 * 1024 * 1024,
            }),
    {
        Cache::new(CacheConfig::default())
    }

    /// The directory of the files.
    pub fn dir(&self) -> (r: &str)
        ensures
            r@ == self@.dir,
    {
        self.disk_cache_dir.as_str()
    }

    /// How many bytes the files may take.
    pub fn disk_limit(&self) -> (r: usize)
        ensures
            r == self@.disk_limit,
    {
        self.disk_size_limit_bytes
    }

    /// The key of a request: the digest of its text without the arguments that
    /// are left out.
    pub fn cache_key(&self, request: &Json, ignored_args: Option<&[&str]>) -> (r: String)
        ensures
            r@ == key_of(request@, ignored_of(ignored_args)),
            r@.len() == 64,
            forall|i: int| 0 <= i < r@.len() ==> hex_digit(#[trigger] r@[i]),
    {
        request_key(request, ignored_args)
    }

    /// Whether there is a reply under a key, in memory or in the key's file.
    pub fn contains(&self, key: &str, file_exists: bool) -> (r: bool)
        ensures
            r == (self@.remembered(key@) is Some || (self@.disk && file_exists)),
    {
        if self.enable_memory_cache && self.memory_cache.contains(key) {
            return true;
        }
        self.enable_disk_cache && file_exists
    }

    /// The key whose file is to be read before a reply is asked for: none where
    /// files are off or memory has the reply.
    pub fn file_needed(&self, request: &Json, ignored_args: Option<&[&str]>) -> (r: Option<
        String,
    >)
        ensures
            match r {
                Some(k) => k@ == key_of(request@, ignored_of(ignored_args)) && self@.disk
                    && self@.remembered(k@) is None,
                None => !self@.disk || self@.remembered(
                    key_of(request@, ignored_of(ignored_args)),
                ) is Some,
            },
    {
        if !self.enable_disk_cache {
            return None;
        }
        let key = request_key(request, ignored_args);
        if self.enable_memory_cache && self.memory_cache.contains(key.as_str()) {
            None
        } else {
            Some(key)
        }
    }

    /// The reply to a request, from memory or else from the text of its file. A
    /// reply from a file is kept in memory.
    pub fn get(
        &mut self,
        request: &Json,
        ignored_args: Option<&[&str]>,
        file: Option<&str>,
    ) -> (r: Option<Json>)
        ensures
            ({
                let key = key_of(request@, ignored_of(ignored_args));
                &&& final(self)@ == old(self)@.asked(key, opt_text_of(file))
                &&& match r {
                    Some(v) => old(self)@.found(key, opt_text_of(file)) is Some && v@ == as_hit(
                        old(self)@.found(key, opt_text_of(file)).unwrap(),
                    ),
                    None => old(self)@.found(key, opt_text_of(file)) is None,
                }
            }),
    {
        if !self.enable_memory_cache && !self.enable_disk_cache {
            return None;
        }
        let key = request_key(request, ignored_args);
        if self.enable_memory_cache {
            if let Some(v) = self.memory_cache.get(key.as_str()) {
                return Some(mark_hit(v));
            }
            proof {
                lemma_lru_index(old(self)@.recent, key@);
            }
        }
        if self.enable_disk_cache {
            if let Some(text) = file {
                if let Ok(v) = Json::parse(text) {
                    if self.enable_memory_cache {
                        self.memory_cache.set(key, v.copy());
                    }
                    return Some(mark_hit(v));
                }
            }
        }
        None
    }

    /// Stores the reply to a request. The result is the file to write, if files
    /// are on and the reply alone is within their bound.
    pub fn put(
        &mut self,
        request: &Json,
        value: &Json,
        ignored_args: Option<&[&str]>,
        enable_memory: bool,
    ) -> (r: Option<DiskWrite>)
        ensures
            ({
                let key = key_of(request@, ignored_of(ignored_args));
                let data = printed_json(value@);
                &&& final(self)@ == old(self)@.stored(key, value@, enable_memory)
                &&& r is Some <==> old(self)@.disk && byte_len_of(data) <= old(self)@.disk_limit
                &&& r matches Some(w) ==> w.shard@ == key.take(2) && w.name@ == key + ".json"@
                    && w.data@ == data && (nests_within(value@, 127) ==> file_value(
                    Some(w.data@),
                ) == Some(value@))
            }),
    {
        let use_memory = self.enable_memory_cache && enable_memory;
        if !use_memory && !self.enable_disk_cache {
            return None;
        }
        let key = request_key(request, ignored_args);
        if use_memory {
            self.memory_cache.set(key.clone(), value.copy());
        }
        if self.enable_disk_cache {
            let data = value.to_text();
            if byte_len(data.as_str()) > self.disk_size_limit_bytes {
                return None;
            }
            proof {
                lemma_hex_shard(key@);
            }
            let (shard, name) = key_path(key.as_str());
            return Some(DiskWrite { shard, name, data });
        }
        None
    }

    /// Takes everything out of memory.
    pub fn reset_memory_cache(&mut self)
        ensures
            final(self)@ == (CacheSpec { recent: Seq::empty(), ..old(self)@ }),
    {
        self.memory_cache.clear();
    }
}

/// The directory of a digest's file is named by its first two digits.
pub proof fn lemma_hex_shard(key: Seq<char>)
    requires
        key.len() >= 2,
        hex_digit(key[0]),
        hex_digit(key[1]),
    ensures
        byte_len_of(key) >= 2,
        cuts_cleanly(key, 2),
        shard_of(key) == key.take(2),
{
    lemma_byte_len(key);
    let rest = key.drop_first();
    lemma_byte_len(rest);
    assert(rest[0] == key[1]);
    assert(cuts_cleanly(rest, 1)) by {
        assert(cuts_cleanly(rest.drop_first(), 0));
    }
    assert(byte_prefix_of(rest.drop_first(), 0) =~= Seq::<char>::empty());
    assert(byte_prefix_of(rest, 1) =~= seq![key[1]]);
    assert(byte_prefix_of(key, 2) =~= key.take(2));
}

/// What was stored for a request is what asking for it gives, as a hit gives it: from
/// memory where the cache has that, and else from the file that was written.
pub proof fn law_cache_gives_back(
    c: CacheSpec,
    key: Seq<char>,
    v: JsonSpec,
    file: Option<Seq<char>>,
)
    requires
        c.memory || (c.disk && file_value(file) == Some(v)),
    ensures
        c.stored(key, v, true).found(key, file) == Some(v),
{
    if c.memory {
        law_lru_get_after_set(c.recent, key, v, c.bound);
    }
}

/// What was stored in a file alone is what asking for it gives, unless memory still has
/// something under the key.
pub proof fn law_file_gives_back(c: CacheSpec, key: Seq<char>, v: JsonSpec, data: Seq<char>)
    requires
        c.disk,
        c.remembered(key) is None,
        file_value(Some(data)) == Some(v),
    ensures
        c.stored(key, v, false).found(key, Some(data)) == Some(v),
{
}

/// What a file gave is in memory from then on.
pub proof fn law_file_is_remembered(c: CacheSpec, key: Seq<char>, file: Option<Seq<char>>)
    requires
        c.memory,
        c.found(key, file) is Some,
        lru_keys(c.recent).no_duplicates(),
    ensures
        c.asked(key, file).remembered(key) == c.found(key, file),
{
    match c.remembered(key) {
        Some(v) => {
            lemma_lru_index(c.recent, key);
            let i = lru_index(c.recent, key).unwrap();
            let t = lru_touched(c.recent, key);
            assert(t.last() == c.recent[i]);
        },
        None => {
            law_lru_get_after_set(c.recent, key, c.found(key, file).unwrap(), c.bound);
        },
    }
}

/// A cache that is off never has a reply.
pub proof fn law_cache_off(c: CacheSpec, key: Seq<char>, file: Option<Seq<char>>)
    requires
        !c.memory,
        !c.disk,
    ensures
        c.found(key, file) is None,
        c.asked(key, file) == c,
{
}

} // verus!
