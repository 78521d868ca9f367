//! The image cache: an index of the entries kept on disk, a bounded in-memory
//! hot cache in front of it, and the eviction policy that keeps the disk usage
//! under its limit.
//!
//! The cache decides; its owner does the file work. Each operation returns what
//! has to happen on disk (which file to write, which files to delete), and the
//! owner persists the index afterwards.
use vstd::prelude::*;
use std::hash::{Hash, Hasher};
use crate::text::{chars_eq, chars_of, owned, string_from_chars};
use crate::hot::{hot_capacity, hot_clear, hot_contents, hot_get, hot_new, hot_pop, hot_put, hot_clone};
use lru::LruCache;

verus! {

// ─── File names ────────────────────────────────────────────────────

/// The lower-case hexadecimal digit of `n` (for `n < 16`).
pub open spec fn hex_digit(n: u64) -> char {
    if n < 10 {
        ('0' as u32 + n) as char
    } else {
        ('a' as u32 + n - 10) as char
    }
}

/// The character a key character becomes in a file name: ASCII letters, digits,
/// `-`, `_` and `.` stay; `/` and `\` become `_`; any other character becomes the
/// first hex digit of its low byte.
pub open spec fn sanitize_char(c: char) -> char {
    if ('a' <= c && c <= 'z') || ('A' <= c && c <= 'Z') || ('0' <= c && c <= '9') || c == '-' || c == '_' || c == '.' {
        c
    } else if c == '/' || c == '\\' {
        '_'
    } else {
        hex_digit((((c as u32) % 256) / 16) as u64)
    }
}

/// The 16-digit, zero-padded, lower-case hexadecimal form of `v`.
pub open spec fn hex16(v: u64) -> Seq<char> {
    Seq::new(16, |i: int| hex_digit((v >> ((15 - i) * 4) as u64) & 15u64))
}

/// What the standard library's default hasher gives for a string.
pub uninterp spec fn str_default_hash(s: Seq<char>) -> u64;

/// The file name a cache key is stored under: the key with each character made
/// safe, prefixed with `_` when it would start with a dot, and, when longer than
/// 200 characters, cut to 180 and suffixed with `_` and a hash of the whole name.
pub open spec fn sanitized_name(key: Seq<char>) -> Seq<char> {
    let mapped = key.map_values(|c: char| sanitize_char(c));
    let named = if mapped.len() > 0 && mapped[0] == '.' { seq!['_'] + mapped } else { mapped };
    if named.len() > 200 {
        named.take(180) + seq!['_'] + hex16(str_default_hash(named))
    } else {
        named
    }
}

/// std's `DefaultHasher` applied to a string. `DefaultHasher::new` starts from fixed
/// keys, so the hash depends on the string alone (it may change between Rust releases).
#[verifier::external_body]
fn default_hash(input: &str) -> (h: u64)
    ensures
        h == str_default_hash(input@),
{
    let mut hasher = std::collections::hash_map::DefaultHasher::new();
    Hash::hash(input, &mut hasher);
    Hasher::finish(&hasher)
}

fn hex_char(n: u64) -> (c: char)
    requires
        n < 16,
    ensures
        c == hex_digit(n),
{
    if n < 10 {
        (('0' as u8) + (n as u8)) as char
    } else {
        (('a' as u8) + (n as u8) - 10) as char
    }
}

/// Simple hash for filename truncation: the 16-digit hex form of the default hash.
pub fn blake2_simple(input: &str) -> (r: String)
    ensures
        r@ == hex16(str_default_hash(input@)),
{
    let h = default_hash(input);
    let mut digits: Vec<char> = Vec::new();
    let mut i: u64 = 0;
    while i < 16
        invariant
            i <= 16,
            h == str_default_hash(input@),
            digits@ == hex16(h).take(i as int),
        decreases 16 - i,
    {
        let shift: u64 = (15 - i) * 4;
        let nibble = (h >> shift) & 15u64;
        assert(nibble < 16) by (bit_vector)
            requires nibble == (h >> shift) & 15u64;
        digits.push(hex_char(nibble));
        assert(digits@ =~= hex16(h).take(i + 1));
        i = i + 1;
    }
    assert(digits@ =~= hex16(h));
    string_from_chars(&digits)
}

/// Sanitize a cache key into a safe file name (see [`sanitized_name`]).
pub fn sanitize_filename(key: &str) -> (name: String)
    ensures
        name@ == sanitized_name(key@),
{
    let k = chars_of(key);
    let ghost mapped = key@.map_values(|c: char| sanitize_char(c));
    let mut out: Vec<char> = Vec::new();
    let mut i: usize = 0;
    while i < k.len()
        invariant
            k@ == key@,
            mapped == key@.map_values(|c: char| sanitize_char(c)),
            i <= k.len(),
            out@ == mapped.take(i as int),
        decreases k.len() - i,
    {
        let c = k[i];
        let m = if ('a' <= c && c <= 'z') || ('A' <= c && c <= 'Z') || ('0' <= c && c <= '9') || c == '-' || c == '_' || c == '.' {
            c
        } else if c == '/' || c == '\\' {
            '_'
        } else {
            let low: u64 = ((c as u32) % 256 / 16) as u64;
            hex_char(low)
        };
        assert(m == sanitize_char(c));
        assert(mapped[i as int] == sanitize_char(key@[i as int]));
        out.push(m);
        assert(out@ =~= mapped.take(i + 1));
        i = i + 1;
    }
    assert(out@ =~= mapped);
    let named: Vec<char> = if out.len() > 0 && out[0] == '.' {
        let mut v: Vec<char> = Vec::new();
        v.push('_');
        let mut j: usize = 0;
        while j < out.len()
            invariant
                j <= out.len(),
                v@ == seq!['_'] + out@.take(j as int),
            decreases out.len() - j,
        {
            v.push(out[j]);
            assert(v@ =~= seq!['_'] + out@.take(j + 1));
            j = j + 1;
        }
        assert(out@.take(out.len() as int) =~= out@);
        v
    } else {
        out
    };
    if named.len() > 200 {
        let whole = string_from_chars(&named);
        let hash = blake2_simple(whole.as_str());
        let hash_chars = chars_of(hash.as_str());
        let mut v: Vec<char> = Vec::new();
        let mut j: usize = 0;
        while j < 180
            invariant
                j <= 180 < named.len(),
                v@ == named@.take(j as int),
            decreases 180 - j,
        {
            v.push(named[j]);
            assert(v@ =~= named@.take(j + 1));
            j = j + 1;
        }
        v.push('_');
        let mut t: usize = 0;
        while t < hash_chars.len()
            invariant
                t <= hash_chars.len(),
                v@ == named@.take(180) + seq!['_'] + hash_chars@.take(t as int),
            decreases hash_chars.len() - t,
        {
            v.push(hash_chars[t]);
            assert(v@ =~= named@.take(180) + seq!['_'] + hash_chars@.take(t + 1));
            t = t + 1;
        }
        assert(hash_chars@.take(hash_chars.len() as int) =~= hash_chars@);
        string_from_chars(&v)
    } else {
        string_from_chars(&named)
    }
}

/// A character that may stand in a cache file name: an ASCII letter or digit,
/// `-`, `_` or `.`.
pub open spec fn file_name_char(c: char) -> bool {
    ('a' <= c && c <= 'z') || ('A' <= c && c <= 'Z') || ('0' <= c && c <= '9') || c == '-' || c == '_' || c == '.'
}

proof fn lemma_hex_digit_safe(n: u64)
    requires
        n < 16,
    ensures
        file_name_char(hex_digit(n)),
{
}

/// A cache file name is safe whatever the key: at most 200 characters, none of
/// them a path separator or outside `[A-Za-z0-9._-]`, and it does not start with a
/// dot, so it is neither hidden nor able to leave the cache directory.
pub proof fn law_cache_file_names_are_safe(key: Seq<char>)
    ensures
        sanitized_name(key).len() <= 200,
        sanitized_name(key).len() > 0 ==> sanitized_name(key)[0] != '.',
        forall|i: int| 0 <= i < sanitized_name(key).len() ==> file_name_char(#[trigger] sanitized_name(key)[i]),
{
    let mapped = key.map_values(|c: char| sanitize_char(c));
    assert forall|i: int| 0 <= i < mapped.len() implies file_name_char(#[trigger] mapped[i]) by {
        let c = key[i];
        if !(file_name_char(c) || c == '/' || c == '\\') {
            let n = (((c as u32) % 256) / 16) as u64;
            lemma_hex_digit_safe(n);
        }
    }
    let named = if mapped.len() > 0 && mapped[0] == '.' { seq!['_'] + mapped } else { mapped };
    assert forall|i: int| 0 <= i < named.len() implies file_name_char(#[trigger] named[i]) by {
        if mapped.len() > 0 && mapped[0] == '.' && i > 0 {
            assert(named[i] == mapped[i - 1]);
        }
    }
    if named.len() > 200 {
        let v = str_default_hash(named);
        let hx = hex16(v);
        assert(forall|x: u64| #[trigger] (x & 15u64) < 16) by (bit_vector);
        assert forall|i: int| 0 <= i < 16 implies file_name_char(#[trigger] hx[i]) by {
            let x = v >> ((15 - i) * 4) as u64;
            assert((x & 15u64) < 16);
            lemma_hex_digit_safe(x & 15u64);
        }
        let r = named.take(180) + seq!['_'] + hx;
        assert forall|i: int| 0 <= i < r.len() implies file_name_char(#[trigger] r[i]) by {
            if i < 180 {
                assert(r[i] == named[i]);
            } else if i > 180 {
                assert(r[i] == hx[i - 181]);
            }
        }
        assert(r[0] == named[0]);
    }
}

// ─── Index ─────────────────────────────────────────────────────────

/// Stale file cleanup policy.
#[derive(Debug, Clone, Copy, PartialEq, Eq, Structural)]
pub enum EvictionPolicy {
    /// Evict least-recently-used items when cache exceeds max size.
    Lru,
    /// Evict largest items first when cache exceeds max size.
    LargestFirst,
}

/// A single entry in the cache index.
#[derive(Debug)]
pub struct CacheIndexEntry {
    /// Relative path to the cached file (within the cache directory).
    pub file_path: String,
    /// Size of the cached data in bytes.
    pub size: u64,
    /// Monotonically increasing access counter for LRU ordering.
    pub access_count: u64,
}

/// What an index entry holds: file path, size and access count.
pub struct EntryView {
    pub file_path: Seq<char>,
    pub size: u64,
    pub access_count: u64,
}

impl CacheIndexEntry {
    pub open spec fn view_entry(&self) -> EntryView {
        EntryView { file_path: self.file_path@, size: self.size, access_count: self.access_count }
    }

    /// A copy of this entry.
    pub fn duplicate(&self) -> (r: CacheIndexEntry)
        ensures
            r.view_entry() == self.view_entry(),
    {
        CacheIndexEntry { file_path: owned(self.file_path.as_str()), size: self.size, access_count: self.access_count }
    }
}

/// The on-disk index that tracks all cached items, keyed by cache key.
#[derive(Debug)]
pub struct CacheIndex {
    /// The entries with their keys; no key occurs twice.
    pub entries: Vec<(String, CacheIndexEntry)>,
    /// Format version of the index.
    pub version: u32,
}

/// The keys of a sequence of index entries.
pub open spec fn keys_of(s: Seq<(String, CacheIndexEntry)>) -> Seq<Seq<char>> {
    Seq::new(s.len(), |i: int| s[i].0@)
}

/// No key occurs twice.
pub open spec fn unique_keys(s: Seq<(String, CacheIndexEntry)>) -> bool {
    forall|i: int, j: int| 0 <= i < s.len() && 0 <= j < s.len() && i != j ==> s[i].0@ != s[j].0@
}

/// The index as a map from key to entry.
pub open spec fn map_of(s: Seq<(String, CacheIndexEntry)>) -> Map<Seq<char>, EntryView>
    decreases s.len(),
{
    if s.len() == 0 {
        Map::empty()
    } else {
        map_of(s.drop_last()).insert(s.last().0@, s.last().1.view_entry())
    }
}

/// The total size of the entries.
pub open spec fn total_of(s: Seq<(String, CacheIndexEntry)>) -> nat
    decreases s.len(),
{
    if s.len() == 0 {
        0
    } else {
        (total_of(s.drop_last()) + s.last().1.size) as nat
    }
}

proof fn lemma_map_of_dom(s: Seq<(String, CacheIndexEntry)>)
    ensures
        map_of(s).dom().finite(),
        forall|k: Seq<char>| map_of(s).contains_key(k) <==> exists|i: int| 0 <= i < s.len() && #[trigger] s[i].0@ == k,
    decreases s.len(),
{
    if s.len() > 0 {
        lemma_map_of_dom(s.drop_last());
        assert forall|k: Seq<char>| map_of(s).contains_key(k) <==> exists|i: int| 0 <= i < s.len() && #[trigger] s[i].0@ == k by {
            if map_of(s).contains_key(k) && k != s.last().0@ {
                let i = choose|i: int| 0 <= i < s.drop_last().len() && #[trigger] s.drop_last()[i].0@ == k;
                assert(s[i].0@ == k);
            }
            if exists|i: int| 0 <= i < s.len() && #[trigger] s[i].0@ == k {
                let i = choose|i: int| 0 <= i < s.len() && #[trigger] s[i].0@ == k;
                if i < s.len() - 1 {
                    assert(s.drop_last()[i].0@ == k);
                }
            }
        }
    }
}

/// With unique keys, the map holds each entry under its key.
proof fn lemma_map_of_index(s: Seq<(String, CacheIndexEntry)>, i: int)
    requires
        unique_keys(s),
        0 <= i < s.len(),
    ensures
        map_of(s).contains_key(s[i].0@),
        map_of(s)[s[i].0@] == s[i].1.view_entry(),
    decreases s.len(),
{
    if i < s.len() - 1 {
        lemma_map_of_index(s.drop_last(), i);
        assert(s.drop_last()[i] == s[i]);
        assert(s[i].0@ != s.last().0@);
    }
}

/// The map's domain has as many keys as there are entries.
proof fn lemma_map_of_len(s: Seq<(String, CacheIndexEntry)>)
    requires
        unique_keys(s),
    ensures
        map_of(s).dom().len() == s.len(),
    decreases s.len(),
{
    if s.len() > 0 {
        lemma_map_of_len(s.drop_last());
        lemma_map_of_dom(s.drop_last());
        if map_of(s.drop_last()).contains_key(s.last().0@) {
            let i = choose|i: int| 0 <= i < s.drop_last().len() && #[trigger] s.drop_last()[i].0@ == s.last().0@;
            assert(s[i].0@ == s[s.len() - 1].0@);
        }
    }
}

/// Removing the entry at `i` removes its key from the map.
proof fn lemma_map_of_remove(s: Seq<(String, CacheIndexEntry)>, i: int)
    requires
        unique_keys(s),
        0 <= i < s.len(),
    ensures
        unique_keys(s.remove(i)),
        map_of(s.remove(i)) == map_of(s).remove(s[i].0@),
        total_of(s.remove(i)) + s[i].1.size == total_of(s),
    decreases s.len(),
{
    let r = s.remove(i);
    assert forall|a: int, b: int| 0 <= a < r.len() && 0 <= b < r.len() && a != b implies r[a].0@ != r[b].0@ by {
        let a2 = if a < i { a } else { a + 1 };
        let b2 = if b < i { b } else { b + 1 };
        assert(r[a] == s[a2] && r[b] == s[b2]);
    }
    if i == s.len() - 1 {
        assert(r =~= s.drop_last());
        lemma_map_of_dom(s.drop_last());
        if map_of(s.drop_last()).contains_key(s.last().0@) {
            let j = choose|j: int| 0 <= j < s.drop_last().len() && #[trigger] s.drop_last()[j].0@ == s.last().0@;
            assert(s[j].0@ == s[s.len() - 1].0@);
        }
        assert(map_of(s).remove(s[i].0@) =~= map_of(s.drop_last()));
    } else {
        let d = s.drop_last();
        lemma_map_of_remove(d, i);
        assert(r.drop_last() =~= d.remove(i));
        assert(r.last() == s.last());
        assert(s[i].0@ != s.last().0@);
        assert(map_of(r) =~= map_of(s).remove(s[i].0@));
    }
}

/// Appending an entry with a fresh key inserts it into the map.
proof fn lemma_map_of_push(s: Seq<(String, CacheIndexEntry)>, e: (String, CacheIndexEntry))
    requires
        unique_keys(s),
        !map_of(s).contains_key(e.0@),
    ensures
        unique_keys(s.push(e)),
        map_of(s.push(e)) == map_of(s).insert(e.0@, e.1.view_entry()),
        total_of(s.push(e)) == total_of(s) + e.1.size,
{
    lemma_map_of_dom(s);
    let t = s.push(e);
    assert(t.drop_last() =~= s);
    assert forall|a: int, b: int| 0 <= a < t.len() && 0 <= b < t.len() && a != b implies t[a].0@ != t[b].0@ by {
        if a == s.len() && b < s.len() {
            assert(s[b].0@ == t[b].0@);
        }
        if b == s.len() && a < s.len() {
            assert(s[a].0@ == t[a].0@);
        }
    }
}

/// Replacing the entry at `i` with one under the same key updates the map.
proof fn lemma_map_of_update(s: Seq<(String, CacheIndexEntry)>, i: int, e: (String, CacheIndexEntry))
    requires
        unique_keys(s),
        0 <= i < s.len(),
        e.0@ == s[i].0@,
    ensures
        unique_keys(s.update(i, e)),
        map_of(s.update(i, e)) == map_of(s).insert(e.0@, e.1.view_entry()),
        total_of(s.update(i, e)) + s[i].1.size == total_of(s) + e.1.size,
{
    lemma_map_of_remove(s, i);
    let r = s.remove(i);
    lemma_map_of_dom(r);
    assert(!map_of(r).contains_key(e.0@)) by {
        if map_of(r).contains_key(e.0@) {
            let j = choose|j: int| 0 <= j < r.len() && #[trigger] r[j].0@ == e.0@;
            let j2 = if j < i { j } else { j + 1 };
            assert(s[j2].0@ == s[i].0@);
        }
    }
    lemma_map_of_push(r, e);
    lemma_map_of_push_perm(s, i, e);
    assert(map_of(s).remove(s[i].0@).insert(e.0@, e.1.view_entry()) =~= map_of(s).insert(e.0@, e.1.view_entry()));
}

/// The map and total of `s` with entry `i` replaced are those of `s` with entry `i`
/// removed and the new one appended.
proof fn lemma_map_of_push_perm(s: Seq<(String, CacheIndexEntry)>, i: int, e: (String, CacheIndexEntry))
    requires
        unique_keys(s),
        0 <= i < s.len(),
        e.0@ == s[i].0@,
    ensures
        unique_keys(s.update(i, e)),
        map_of(s.update(i, e)) == map_of(s.remove(i).push(e)),
        total_of(s.update(i, e)) == total_of(s.remove(i).push(e)),
    decreases s.len(),
{
    let u = s.update(i, e);
    assert forall|a: int, b: int| 0 <= a < u.len() && 0 <= b < u.len() && a != b implies u[a].0@ != u[b].0@ by {
        assert(u[a].0@ == s[a].0@ && u[b].0@ == s[b].0@);
    }
    lemma_map_of_remove(u, i);
    assert(u.remove(i) =~= s.remove(i));
    lemma_map_of_dom(s.remove(i));
    assert(!map_of(s.remove(i)).contains_key(e.0@)) by {
        lemma_map_of_remove(s, i);
    }
    lemma_map_of_push(s.remove(i), e);
    lemma_map_of_index(u, i);
    assert(map_of(u) =~= map_of(u).remove(e.0@).insert(e.0@, e.1.view_entry()));
}

impl CacheIndex {
    /// The index is well formed: no key occurs twice and the sizes add up to a `u64`.
    pub open spec fn wf(&self) -> bool {
        &&& unique_keys(self.entries@)
        &&& total_of(self.entries@) <= u64::MAX
    }

    /// The index as a map from key to entry.
    pub open spec fn view_map(&self) -> Map<Seq<char>, EntryView> {
        map_of(self.entries@)
    }

    /// The total size of the indexed entries.
    pub open spec fn total(&self) -> nat {
        total_of(self.entries@)
    }

    /// An empty index of the current format version.
    pub fn new() -> (r: CacheIndex)
        ensures
            r.wf(),
            r.view_map() == Map::<Seq<char>, EntryView>::empty(),
            r.total() == 0,
            r.version == 1,
    {
        CacheIndex { entries: Vec::new(), version: 1 }
    }

    /// Where `key` stands in the index.
    pub fn position(&self, key: &str) -> (r: Option<usize>)
        ensures
            match r {
                Some(i) => i < self.entries@.len() && self.entries@[i as int].0@ == key@,
                None => forall|i: int| 0 <= i < self.entries@.len() ==> self.entries@[i].0@ != key@,
            },
    {
        let k = chars_of(key);
        let mut i: usize = 0;
        while i < self.entries.len()
            invariant
                i <= self.entries@.len(),
                k@ == key@,
                forall|j: int| 0 <= j < i ==> self.entries@[j].0@ != key@,
            decreases self.entries.len() - i,
        {
            let c = chars_of(self.entries[i].0.as_str());
            if chars_eq(&c, &k) {
                return Some(i);
            }
            i = i + 1;
        }
        None
    }
}


impl CacheIndex {
    /// A copy of the index.
    pub fn duplicate(&self) -> (r: CacheIndex)
        ensures
            r.entries@.len() == self.entries@.len(),
            forall|i: int| 0 <= i < r.entries@.len() ==> (#[trigger] r.entries@[i]).0@ == self.entries@[i].0@
                && r.entries@[i].1.view_entry() == self.entries@[i].1.view_entry(),
            r.version == self.version,
            keys_of(r.entries@) == keys_of(self.entries@),
            unique_keys(self.entries@) ==> unique_keys(r.entries@),
            map_of(r.entries@) == map_of(self.entries@),
            total_of(r.entries@) == total_of(self.entries@),
    {
        let mut entries: Vec<(String, CacheIndexEntry)> = Vec::new();
        let mut i: usize = 0;
        while i < self.entries.len()
            invariant
                i <= self.entries@.len(),
                entries@.len() == i,
                forall|j: int| 0 <= j < i ==> (#[trigger] entries@[j]).0@ == self.entries@[j].0@
                    && entries@[j].1.view_entry() == self.entries@[j].1.view_entry(),
            decreases self.entries.len() - i,
        {
            entries.push((owned(self.entries[i].0.as_str()), self.entries[i].1.duplicate()));
            i = i + 1;
        }
        proof {
            lemma_same_views(entries@, self.entries@);
        }
        assert(keys_of(entries@) =~= keys_of(self.entries@));
        CacheIndex { entries, version: self.version }
    }

    /// The total size of the indexed entries.
    pub fn total_size(&self) -> (r: u64)
        requires
            self.wf(),
        ensures
            r == self.total(),
    {
        let ghost s = self.entries@;
        let mut sum: u64 = 0;
        let mut i: usize = 0;
        while i < self.entries.len()
            invariant
                s == self.entries@,
                total_of(s) <= u64::MAX,
                i <= s.len(),
                sum == total_of(s.take(i as int)),
            decreases s.len() - i,
        {
            proof {
                lemma_total_step(s, i as int);
                lemma_total_prefix(s, i + 1);
            }
            sum = sum + self.entries[i].1.size;
            i = i + 1;
        }
        assert(s.take(s.len() as int) =~= s);
        sum
    }

    /// Record `entry` under `key`, replacing any entry already there. Where the total
    /// size would no longer fit a `u64` the index is left as it was and `false` is
    /// returned.
    pub fn insert(&mut self, key: String, entry: CacheIndexEntry) -> (ok: bool)
        requires
            old(self).wf(),
        ensures
            final(self).wf(),
            final(self).version == old(self).version,
            ok == (old(self).total() - indexed_size(old(self).view_map(), key@) + entry.size <= u64::MAX),
            ok ==> final(self).view_map() == old(self).view_map().insert(key@, entry.view_entry()),
            ok ==> final(self).total() == old(self).total() - indexed_size(old(self).view_map(), key@) + entry.size,
            !ok ==> final(self).view_map() == old(self).view_map() && final(self).total() == old(self).total(),
    {
        let total = self.total_size();
        proof {
            lemma_map_of_dom(self.entries@);
        }
        match self.position(key.as_str()) {
            Some(i) => {
                proof {
                    lemma_map_of_index(self.entries@, i as int);
                    lemma_map_of_remove(self.entries@, i as int);
                }
                let rest = total - self.entries[i].1.size;
                if entry.size > u64::MAX - rest {
                    return false;
                }
                proof {
                    lemma_map_of_update(self.entries@, i as int, (key, entry));
                }
                self.entries.set(i, (key, entry));
                true
            },
            None => {
                if entry.size > u64::MAX - total {
                    return false;
                }
                proof {
                    lemma_map_of_push(self.entries@, (key, entry));
                }
                self.entries.push((key, entry));
                true
            },
        }
    }
}

/// Entry sequences with the same keys and entries have the same map and total.
proof fn lemma_same_views(a: Seq<(String, CacheIndexEntry)>, b: Seq<(String, CacheIndexEntry)>)
    requires
        a.len() == b.len(),
        forall|j: int| 0 <= j < a.len() ==> (#[trigger] a[j]).0@ == b[j].0@ && a[j].1.view_entry() == b[j].1.view_entry(),
    ensures
        map_of(a) == map_of(b),
        total_of(a) == total_of(b),
        unique_keys(b) ==> unique_keys(a),
    decreases a.len(),
{
    if a.len() > 0 {
        lemma_same_views(a.drop_last(), b.drop_last());
        assert(a.last().0@ == b.last().0@);
    }
    if unique_keys(b) {
        assert forall|i: int, j: int| 0 <= i < a.len() && 0 <= j < a.len() && i != j implies a[i].0@ != a[j].0@ by {
            assert(a[i].0@ == b[i].0@ && a[j].0@ == b[j].0@);
        }
    }
}

proof fn lemma_total_prefix(s: Seq<(String, CacheIndexEntry)>, i: int)
    requires
        0 <= i <= s.len(),
    ensures
        total_of(s.take(i)) <= total_of(s),
    decreases s.len(),
{
    if i < s.len() {
        assert(s.take(i) =~= s.drop_last().take(i));
        lemma_total_prefix(s.drop_last(), i);
    } else {
        assert(s.take(i) =~= s);
    }
}

proof fn lemma_total_step(s: Seq<(String, CacheIndexEntry)>, i: int)
    requires
        0 <= i < s.len(),
    ensures
        total_of(s.take(i + 1)) == total_of(s.take(i)) + s[i].1.size,
{
    assert(s.take(i + 1).drop_last() =~= s.take(i));
}

// ─── Eviction ──────────────────────────────────────────────────────

/// The policy would evict `a` no later than `b`: `a` was used no more recently
/// (LRU), or is no smaller (largest first).
pub open spec fn evicts_before(policy: EvictionPolicy, a: EntryView, b: EntryView) -> bool {
    match policy {
        EvictionPolicy::Lru => a.access_count <= b.access_count,
        EvictionPolicy::LargestFirst => a.size >= b.size,
    }
}

/// `k` is an entry the policy evicts first from `m`: the least recently used one
/// (smallest access count) or the largest one.
pub open spec fn is_victim(m: Map<Seq<char>, EntryView>, k: Seq<char>, policy: EvictionPolicy) -> bool {
    &&& m.contains_key(k)
    &&& forall|k2: Seq<char>| #[trigger] m.contains_key(k2) ==> evicts_before(policy, m[k], m[k2])
}

/// `evicted` lists entries of `m` in the order the policy evicts them one by one.
pub open spec fn eviction_chain(m: Map<Seq<char>, EntryView>, evicted: Seq<(Seq<char>, EntryView)>, policy: EvictionPolicy) -> bool
    decreases evicted.len(),
{
    evicted.len() == 0 || {
        &&& is_victim(m, evicted[0].0, policy)
        &&& m[evicted[0].0] == evicted[0].1
        &&& eviction_chain(m.remove(evicted[0].0), evicted.drop_first(), policy)
    }
}

/// `m` without the keys of `keys`.
pub open spec fn without_keys<V>(m: Map<Seq<char>, V>, keys: Seq<Seq<char>>) -> Map<Seq<char>, V>
    decreases keys.len(),
{
    if keys.len() == 0 {
        m
    } else {
        without_keys(m.remove(keys[0]), keys.drop_first())
    }
}

/// The keys of evicted entries.
pub open spec fn evicted_keys(evicted: Seq<(Seq<char>, EntryView)>) -> Seq<Seq<char>> {
    Seq::new(evicted.len(), |i: int| evicted[i].0)
}

/// The total size of evicted entries.
pub open spec fn evicted_size(evicted: Seq<(Seq<char>, EntryView)>) -> nat
    decreases evicted.len(),
{
    if evicted.len() == 0 {
        0
    } else {
        (evicted_size(evicted.drop_last()) + evicted.last().1.size) as nat
    }
}

/// The eviction that follows a change: nothing when the `total` is at most `max`;
/// otherwise entries leave one by one, as the policy orders them, while the total
/// is above `target`, until it is not.
pub open spec fn evicted_correctly(
    m: Map<Seq<char>, EntryView>,
    total: nat,
    evicted: Seq<(Seq<char>, EntryView)>,
    after: Map<Seq<char>, EntryView>,
    after_total: nat,
    policy: EvictionPolicy,
    max: u64,
    target: u64,
) -> bool {
    &&& total <= max ==> evicted.len() == 0
    &&& eviction_chain(m, evicted, policy)
    &&& after == without_keys(m, evicted_keys(evicted))
    &&& after_total + evicted_size(evicted) == total
    &&& forall|j: int| 0 <= j < evicted.len() ==> total - evicted_size(#[trigger] evicted.take(j)) > target
    &&& total > max ==> after_total <= target
}

/// Growing an eviction chain by one victim of what is left.
proof fn lemma_chain_push(
    m: Map<Seq<char>, EntryView>,
    evicted: Seq<(Seq<char>, EntryView)>,
    x: (Seq<char>, EntryView),
    policy: EvictionPolicy,
)
    requires
        eviction_chain(m, evicted, policy),
        is_victim(without_keys(m, evicted_keys(evicted)), x.0, policy),
        without_keys(m, evicted_keys(evicted))[x.0] == x.1,
    ensures
        eviction_chain(m, evicted.push(x), policy),
        without_keys(m, evicted_keys(evicted.push(x))) == without_keys(m, evicted_keys(evicted)).remove(x.0),
    decreases evicted.len(),
{
    assert(evicted_keys(evicted.push(x)) =~= evicted_keys(evicted).push(x.0));
    lemma_without_keys_push(m, evicted_keys(evicted), x.0);
    if evicted.len() == 0 {
        assert(evicted_keys(evicted) =~= Seq::<Seq<char>>::empty());
        assert(without_keys(m, evicted_keys(evicted)) == m);
        assert(evicted.push(x) =~= seq![x]);
        assert(seq![x].drop_first() =~= Seq::<(Seq<char>, EntryView)>::empty());
        assert(eviction_chain(m.remove(x.0), seq![x].drop_first(), policy));
    } else {
        let m1 = m.remove(evicted[0].0);
        let rest = evicted.drop_first();
        assert(evicted_keys(evicted)[0] == evicted[0].0);
        assert(evicted_keys(evicted).drop_first() =~= evicted_keys(rest));
        assert(without_keys(m, evicted_keys(evicted)) == without_keys(m1, evicted_keys(rest)));
        lemma_chain_push(m1, rest, x, policy);
        assert(evicted.push(x)[0] == evicted[0]);
        assert(evicted.push(x).drop_first() =~= rest.push(x));
    }
}

proof fn lemma_without_keys_push<V>(m: Map<Seq<char>, V>, keys: Seq<Seq<char>>, k: Seq<char>)
    ensures
        without_keys(m, keys.push(k)) == without_keys(m, keys).remove(k),
    decreases keys.len(),
{
    if keys.len() == 0 {
        assert(keys.push(k) =~= seq![k]);
        assert(seq![k].drop_first() =~= Seq::<Seq<char>>::empty());
        assert(without_keys(m, seq![k]) == without_keys(m.remove(k), seq![k].drop_first()));
        assert(without_keys(m.remove(k), Seq::<Seq<char>>::empty()) == m.remove(k));
    } else {
        assert(keys.push(k)[0] == keys[0]);
        assert(keys.push(k).drop_first() =~= keys.drop_first().push(k));
        lemma_without_keys_push::<V>(m.remove(keys[0]), keys.drop_first(), k);
    }
}

proof fn lemma_without_keys_sub<V>(m: Map<Seq<char>, V>, keys: Seq<Seq<char>>, k: Seq<char>)
    ensures
        without_keys(m, keys).contains_key(k) ==> m.contains_key(k) && without_keys(m, keys)[k] == m[k],
    decreases keys.len(),
{
    if keys.len() > 0 {
        lemma_without_keys_sub::<V>(m.remove(keys[0]), keys.drop_first(), k);
    }
}

proof fn lemma_without_keys_keeps<V>(m: Map<Seq<char>, V>, keys: Seq<Seq<char>>, k: Seq<char>)
    requires
        m.contains_key(k),
        !keys.contains(k),
    ensures
        without_keys(m, keys).contains_key(k),
        without_keys(m, keys)[k] == m[k],
    decreases keys.len(),
{
    if keys.len() > 0 {
        assert(keys[0] != k);
        assert(!keys.drop_first().contains(k)) by {
            if keys.drop_first().contains(k) {
                let i = choose|i: int| 0 <= i < keys.drop_first().len() && keys.drop_first()[i] == k;
                assert(keys[i + 1] == k);
            }
        }
        lemma_without_keys_keeps::<V>(m.remove(keys[0]), keys.drop_first(), k);
    }
}

// ─── The cache ─────────────────────────────────────────────────────

/// The number of entries kept in memory.
pub const HOT_CAPACITY: usize = 100;

/// What a lookup finds: the bytes in memory, the file on disk that holds them,
/// or nothing.
#[derive(Debug)]
pub enum CacheLookup {
    Hot(Vec<u8>),
    OnDisk(String),
    Miss,
}

/// What a lookup finds, as values.
pub enum LookupView {
    Hot(Seq<u8>),
    OnDisk(Seq<char>),
    Miss,
}

impl CacheLookup {
    pub open spec fn view_lookup(&self) -> LookupView {
        match self {
            CacheLookup::Hot(v) => LookupView::Hot(v@),
            CacheLookup::OnDisk(p) => LookupView::OnDisk(p@),
            CacheLookup::Miss => LookupView::Miss,
        }
    }
}

/// What a lookup of `key` finds: the hot cache first, then the index.
pub open spec fn lookup_outcome(hot: Map<Seq<char>, Seq<u8>>, index: Map<Seq<char>, EntryView>, key: Seq<char>) -> LookupView {
    if hot.contains_key(key) {
        LookupView::Hot(hot[key])
    } else if index.contains_key(key) {
        LookupView::OnDisk(index[key].file_path)
    } else {
        LookupView::Miss
    }
}

/// The views of evicted entries.
pub open spec fn evicted_view(v: Seq<(String, CacheIndexEntry)>) -> Seq<(Seq<char>, EntryView)> {
    Seq::new(v.len(), |i: int| (v[i].0@, v[i].1.view_entry()))
}

/// A disk-backed LRU image cache.
///
/// When the indexed size exceeds `max_size`, the eviction policy removes entries
/// until it drops to the eviction target (90% of `max_size`).
pub struct ImageCache {
    cache_dir: String,
    max_size: u64,
    eviction_target: u64,
    hot_cache: LruCache<String, Vec<u8>>,
    index: CacheIndex,
    policy: EvictionPolicy,
    access_counter: u64,
}

impl ImageCache {
    /// The indexed entries, by key.
    pub closed spec fn index_map(&self) -> Map<Seq<char>, EntryView> {
        self.index.view_map()
    }

    /// The total size of the indexed entries.
    pub closed spec fn total(&self) -> nat {
        self.index.total()
    }

    /// The entries held in memory, by key.
    pub closed spec fn hot(&self) -> Map<Seq<char>, Seq<u8>> {
        hot_contents(self.hot_cache)
    }

    /// The access counter.
    pub closed spec fn counter(&self) -> u64 {
        self.access_counter
    }

    /// The size limit.
    pub closed spec fn max(&self) -> u64 {
        self.max_size
    }

    /// The size eviction brings the cache down to.
    pub closed spec fn target(&self) -> u64 {
        self.eviction_target
    }

    /// The eviction policy.
    pub closed spec fn eviction_policy(&self) -> EvictionPolicy {
        self.policy
    }

    /// The cache directory.
    pub closed spec fn dir(&self) -> Seq<char> {
        self.cache_dir@
    }

    /// The cache's invariant.
    pub closed spec fn wf(&self) -> bool {
        &&& self.index.wf()
        &&& self.eviction_target <= self.max_size
        &&& hot_capacity(self.hot_cache) == HOT_CAPACITY
        &&& self.policy == EvictionPolicy::Lru
        &&& forall|k: Seq<char>| #[trigger] hot_contents(self.hot_cache).contains_key(k)
            ==> self.index.view_map().contains_key(k)
    }

    /// The configuration is unchanged from `other`.
    pub open spec fn same_config(&self, other: &ImageCache) -> bool {
        &&& self.max() == other.max()
        &&& self.target() == other.target()
        &&& self.eviction_policy() == other.eviction_policy()
        &&& self.dir() == other.dir()
    }

    /// Create a cache rooted at `cache_dir` with the given size limit, eviction
    /// target and loaded index. It starts with an empty hot cache, the LRU policy
    /// and the access counter at 0.
    pub fn new(cache_dir: &str, max_size: u64, eviction_target: u64, index: CacheIndex) -> (c: ImageCache)
        requires
            index.wf(),
            eviction_target <= max_size,
        ensures
            c.wf(),
            c.index_map() == index.view_map(),
            c.total() == index.total(),
            c.hot() == Map::<Seq<char>, Seq<u8>>::empty(),
            c.counter() == 0,
            c.max() == max_size,
            c.target() == eviction_target,
            c.eviction_policy() == EvictionPolicy::Lru,
            c.dir() == cache_dir@,
    {
        ImageCache {
            cache_dir: owned(cache_dir),
            max_size,
            eviction_target,
            hot_cache: hot_new(HOT_CAPACITY),
            index,
            policy: EvictionPolicy::Lru,
            access_counter: 0,
        }
    }

    /// The index, as it is to be persisted.
    pub fn index(&self) -> (r: &CacheIndex)
        ensures
            r.view_map() == self.index_map(),
    {
        &self.index
    }

    /// The cache directory.
    pub fn cache_dir(&self) -> (r: &str)
        ensures
            r@ == self.dir(),
    {
        self.cache_dir.as_str()
    }

    /// The access counter.
    pub fn access_counter(&self) -> (r: u64)
        ensures
            r == self.counter(),
    {
        self.access_counter
    }

    /// A copy of the cache: the same configuration, index, entries in memory and
    /// counter.
    pub fn duplicate(&self) -> (r: ImageCache)
        requires
            self.wf(),
        ensures
            r.wf(),
            r.same_config(self),
            r.index_map() == self.index_map(),
            r.total() == self.total(),
            r.hot() == self.hot(),
            r.counter() == self.counter(),
    {
        ImageCache {
            cache_dir: owned(self.cache_dir.as_str()),
            max_size: self.max_size,
            eviction_target: self.eviction_target,
            hot_cache: hot_clone(&self.hot_cache),
            index: self.index.duplicate(),
            policy: self.policy,
            access_counter: self.access_counter,
        }
    }

    /// The file the index names for `key`, if it has an entry for it. Nothing is
    /// marked as used.
    pub fn lookup_file(&self, key: &str) -> (r: Option<String>)
        requires
            self.wf(),
        ensures
            r is Some <==> self.index_map().contains_key(key@),
            r is Some ==> r->0@ == self.index_map()[key@].file_path,
    {
        proof {
            lemma_map_of_dom(self.index.entries@);
        }
        match self.index.position(key) {
            Some(i) => {
                proof {
                    lemma_map_of_index(self.index.entries@, i as int);
                }
                Some(owned(self.index.entries[i].1.file_path.as_str()))
            },
            None => None,
        }
    }

    /// Get the current total size of cached data.
    pub fn total_size(&self) -> (r: u64)
        requires
            self.wf(),
        ensures
            r == self.total(),
    {
        self.index.total_size()
    }

    /// Get the number of cached entries.
    pub fn entry_count(&self) -> (r: usize)
        requires
            self.wf(),
        ensures
            r == self.index_map().dom().len(),
    {
        proof {
            lemma_map_of_len(self.index.entries@);
        }
        self.index.entries.len()
    }

    /// The entry that the policy evicts first.
    fn select_victim(&self) -> (r: Option<usize>)
        requires
            self.wf(),
        ensures
            match r {
                Some(i) => {
                    &&& i < self.index.entries@.len()
                    &&& is_victim(self.index_map(), self.index.entries@[i as int].0@, self.policy)
                    &&& self.index_map()[self.index.entries@[i as int].0@] == self.index.entries@[i as int].1.view_entry()
                },
                None => self.index.entries@.len() == 0,
            },
    {
        let n = self.index.entries.len();
        if n == 0 {
            return None;
        }
        let ghost s = self.index.entries@;
        let mut best: usize = 0;
        let mut j: usize = 1;
        while j < n
            invariant
                s == self.index.entries@,
                n == s.len(),
                best < j <= n,
                forall|k: int| 0 <= k < j ==> evicts_before(self.policy, s[best as int].1.view_entry(), #[trigger] s[k].1.view_entry()),
            decreases n - j,
        {
            let better = match self.policy {
                EvictionPolicy::Lru => self.index.entries[j].1.access_count < self.index.entries[best].1.access_count,
                EvictionPolicy::LargestFirst => self.index.entries[j].1.size >= self.index.entries[best].1.size,
            };
            let ghost old_best = best;
            if better {
                best = j;
            }
            assert forall|k: int| 0 <= k < j + 1 implies evicts_before(self.policy, s[best as int].1.view_entry(), #[trigger] s[k].1.view_entry()) by {
                if k < j {
                    assert(evicts_before(self.policy, s[old_best as int].1.view_entry(), s[k].1.view_entry()));
                }
            }
            j = j + 1;
        }
        proof {
            lemma_map_of_dom(s);
            lemma_map_of_index(s, best as int);
            assert forall|k2: Seq<char>| #[trigger] self.index_map().contains_key(k2) implies
                evicts_before(self.policy, self.index_map()[s[best as int].0@], self.index_map()[k2]) by {
                let k = choose|k: int| 0 <= k < s.len() && #[trigger] s[k].0@ == k2;
                lemma_map_of_index(s, k);
            }
        }
        Some(best)
    }

    /// Enforce the size limit: when the total exceeds the limit, evict entries in
    /// policy order until it is at most the eviction target. Returns the evicted
    /// entries, whose files are to be deleted.
    pub fn enforce_size_limit(&mut self) -> (evicted: Vec<(String, CacheIndexEntry)>)
        requires
            old(self).wf(),
        ensures
            final(self).wf(),
            final(self).same_config(old(self)),
            final(self).counter() == old(self).counter(),
            evicted_correctly(old(self).index_map(), old(self).total(), evicted_view(evicted@), final(self).index_map(),
                final(self).total(), old(self).eviction_policy(), old(self).max(), old(self).target()),
            final(self).hot() == without_keys(old(self).hot(), evicted_keys(evicted_view(evicted@))),
    {
        let ghost m0 = self.index_map();
        let ghost h0 = self.hot();
        let ghost t0 = self.total();
        let mut evicted: Vec<(String, CacheIndexEntry)> = Vec::new();
        let mut total = self.total_size();
        if total <= self.max_size {
            assert(evicted_view(evicted@) =~= Seq::<(Seq<char>, EntryView)>::empty());
            assert(evicted_keys(evicted_view(evicted@)) =~= Seq::<Seq<char>>::empty());
            return evicted;
        }
        assert(evicted_view(evicted@) =~= Seq::<(Seq<char>, EntryView)>::empty());
        assert(evicted_keys(evicted_view(evicted@)) =~= Seq::<Seq<char>>::empty());
        while total > self.eviction_target
            invariant
                self.wf(),
                self.max_size == old(self).max_size,
                self.eviction_target == old(self).eviction_target,
                self.policy == old(self).policy,
                self.cache_dir@ == old(self).cache_dir@,
                self.access_counter == old(self).access_counter,
                m0 == old(self).index_map(),
                h0 == old(self).hot(),
                t0 == old(self).total(),
                t0 > self.max_size,
                total == self.total(),
                total + evicted_size(evicted_view(evicted@)) == t0,
                eviction_chain(m0, evicted_view(evicted@), self.policy),
                self.index_map() == without_keys(m0, evicted_keys(evicted_view(evicted@))),
                self.hot() == without_keys(h0, evicted_keys(evicted_view(evicted@))),
                forall|j: int| 0 <= j < evicted_view(evicted@).len() ==> t0 - evicted_size(#[trigger] evicted_view(evicted@).take(j)) > self.eviction_target,
            ensures
                total <= self.eviction_target,
            decreases self.index.entries@.len(),
        {
            match self.select_victim() {
                None => {
                    assert(total_of(self.index.entries@) == 0);
                    break;
                },
                Some(i) => {
                    let ghost s = self.index.entries@;
                    let ghost ev = evicted_view(evicted@);
                    proof {
                        lemma_map_of_remove(s, i as int);
                    }
                    let (k, e) = self.index.entries.remove(i);
                    hot_pop(&mut self.hot_cache, k.as_str());
                    total = total - e.size;
                    let ghost x = (k@, e.view_entry());
                    proof {
                        lemma_chain_push(m0, ev, x, self.policy);
                        lemma_without_keys_push(h0, evicted_keys(ev), k@);
                    }
                    evicted.push((k, e));
                    proof {
                        let ev2 = evicted_view(evicted@);
                        assert(ev2 =~= ev.push(x));
                        assert(evicted_keys(ev2) =~= evicted_keys(ev).push(k@));
                        assert(ev2.drop_last() =~= ev);
                        assert forall|j: int| 0 <= j < ev2.len() implies t0 - evicted_size(#[trigger] ev2.take(j)) > self.eviction_target by {
                            if j < ev.len() {
                                assert(ev2.take(j) =~= ev.take(j));
                            } else {
                                assert(ev2.take(j) =~= ev);
                            }
                        }
                    }
                },
            }
        }
        evicted
    }

    /// Look `key` up: the bytes if the hot cache holds them, else the file the index
    /// names, else nothing. A hot hit marks the key most recently used.
    pub fn lookup(&mut self, key: &str) -> (r: CacheLookup)
        requires
            old(self).wf(),
        ensures
            final(self).wf(),
            r.view_lookup() == lookup_outcome(old(self).hot(), old(self).index_map(), key@),
            final(self).hot() == old(self).hot(),
            final(self).index_map() == old(self).index_map(),
            final(self).total() == old(self).total(),
            final(self).counter() == old(self).counter(),
            final(self).same_config(old(self)),
    {
        match hot_get(&mut self.hot_cache, key) {
            Some(data) => CacheLookup::Hot(data),
            None => match self.index.position(key) {
                Some(i) => {
                    proof {
                        lemma_map_of_index(self.index.entries@, i as int);
                    }
                    CacheLookup::OnDisk(owned(self.index.entries[i].1.file_path.as_str()))
                },
                None => {
                    proof {
                        lemma_map_of_dom(self.index.entries@);
                    }
                    CacheLookup::Miss
                },
            },
        }
    }
}


/// The size indexed under `key`, or 0.
pub open spec fn indexed_size(m: Map<Seq<char>, EntryView>, key: Seq<char>) -> int {
    if m.contains_key(key) { m[key].size as int } else { 0 }
}

/// The entry a put records: the key's file name, the data's size, the access count.
pub open spec fn put_entry(key: Seq<char>, size: nat, access_count: u64) -> EntryView {
    EntryView { file_path: sanitized_name(key), size: size as u64, access_count }
}

/// What a put of `data` under `key` does, starting from the index `index` of
/// total size `total`, the hot entries `hot` and the counter `counter` (the
/// configuration is `before`'s): the counter advances, the index records the entry,
/// the eviction that follows is the policy's, and the data is in memory unless its
/// own entry was evicted; other entries in memory are kept or dropped, never changed.
pub open spec fn put_post_from(
    index: Map<Seq<char>, EntryView>,
    total: nat,
    hot: Map<Seq<char>, Seq<u8>>,
    counter: u64,
    before: ImageCache,
    after: ImageCache,
    key: Seq<char>,
    data: Seq<u8>,
    evicted: Seq<(Seq<char>, EntryView)>,
) -> bool {
    let staged = index.insert(key, put_entry(key, data.len(), (counter + 1) as u64));
    let staged_total = (total - indexed_size(index, key) + data.len()) as nat;
    &&& after.same_config(&before)
    &&& after.counter() == counter + 1
    &&& evicted_correctly(staged, staged_total, evicted, after.index_map(), after.total(),
        before.eviction_policy(), before.max(), before.target())
    &&& !evicted_keys(evicted).contains(key) ==> after.hot().contains_key(key) && after.hot()[key] == data
    &&& forall|k: Seq<char>| #[trigger] after.hot().contains_key(k) && k != key
        ==> hot.contains_key(k) && after.hot()[k] == hot[k]
}

/// What a put of `data` under `key` into `before` does (see [`put_post_from`]).
pub open spec fn put_post(
    before: ImageCache,
    after: ImageCache,
    key: Seq<char>,
    data: Seq<u8>,
    evicted: Seq<(Seq<char>, EntryView)>,
) -> bool {
    put_post_from(before.index_map(), before.total(), before.hot(), before.counter(), before, after, key, data, evicted)
}

/// What removing `key` does: neither the index nor the memory holds it after.
pub open spec fn remove_post(before: ImageCache, after: ImageCache, key: Seq<char>) -> bool {
    &&& after.same_config(&before)
    &&& after.counter() == before.counter()
    &&& after.index_map() == before.index_map().remove(key)
    &&& after.total() == before.total() - indexed_size(before.index_map(), key)
    &&& after.hot() == before.hot().remove(key)
}

impl ImageCache {
    /// Record a read of `key`'s file: its entry gets the next access count and the
    /// hot cache takes the data.
    pub fn promote(&mut self, key: &str, data: Vec<u8>)
        requires
            old(self).wf(),
            old(self).index_map().contains_key(key@),
            old(self).counter() < u64::MAX,
        ensures
            final(self).wf(),
            final(self).same_config(old(self)),
            final(self).counter() == old(self).counter() + 1,
            final(self).index_map() == old(self).index_map().insert(key@, EntryView {
                access_count: final(self).counter(), ..old(self).index_map()[key@]
            }),
            final(self).total() == old(self).total(),
            final(self).hot().contains_key(key@),
            final(self).hot()[key@] == data@,
            forall|k: Seq<char>| #[trigger] final(self).hot().contains_key(k) && k != key@
                ==> old(self).hot().contains_key(k) && final(self).hot()[k] == old(self).hot()[k],
    {
        self.access_counter = self.access_counter + 1;
        proof {
            lemma_map_of_dom(self.index.entries@);
        }
        match self.index.position(key) {
            Some(i) => {
                proof {
                    lemma_map_of_index(self.index.entries@, i as int);
                }
                let k = owned(key);
                let e = self.index.entries[i].1.duplicate();
                let entry = CacheIndexEntry { file_path: e.file_path, size: e.size, access_count: self.access_counter };
                proof {
                    lemma_map_of_update(self.index.entries@, i as int, (k, entry));
                }
                self.index.entries.set(i, (k, entry));
            },
            None => {},
        }
        hot_put(&mut self.hot_cache, owned(key), data);
    }

    /// Drop `key` from the index (its file has gone missing).
    pub fn forget(&mut self, key: &str)
        requires
            old(self).wf(),
        ensures
            final(self).wf(),
            final(self).same_config(old(self)),
            final(self).counter() == old(self).counter(),
            final(self).index_map() == old(self).index_map().remove(key@),
            final(self).total() == old(self).total() - indexed_size(old(self).index_map(), key@),
            final(self).hot() == old(self).hot().remove(key@),
    {
        let _ = self.take_entry(key);
    }

    /// Remove `key`'s entry from the index, if there is one, and its bytes from
    /// memory.
    fn take_entry(&mut self, key: &str) -> (r: Option<CacheIndexEntry>)
        requires
            old(self).wf(),
        ensures
            final(self).wf(),
            final(self).same_config(old(self)),
            final(self).counter() == old(self).counter(),
            final(self).index_map() == old(self).index_map().remove(key@),
            final(self).total() == old(self).total() - indexed_size(old(self).index_map(), key@),
            final(self).hot() == old(self).hot().remove(key@),
            match r {
                Some(e) => old(self).index_map().contains_key(key@) && e.view_entry() == old(self).index_map()[key@],
                None => !old(self).index_map().contains_key(key@),
            },
    {
        proof {
            lemma_map_of_dom(self.index.entries@);
        }
        match self.index.position(key) {
            Some(i) => {
                proof {
                    lemma_map_of_index(self.index.entries@, i as int);
                    lemma_map_of_remove(self.index.entries@, i as int);
                }
                let (_, e) = self.index.entries.remove(i);
                hot_pop(&mut self.hot_cache, key);
                Some(e)
            },
            None => {
                assert(old(self).index_map().remove(key@) =~= old(self).index_map());
                hot_pop(&mut self.hot_cache, key);
                None
            },
        }
    }

    /// Remove a specific entry from the cache (index and memory). Returns the
    /// removed entry, whose file is to be deleted. Afterwards the cache has one
    /// entry fewer if the key was indexed, and a lookup of the key finds nothing.
    pub fn remove(&mut self, key: &str) -> (r: Option<CacheIndexEntry>)
        requires
            old(self).wf(),
        ensures
            final(self).wf(),
            remove_post(*old(self), *final(self), key@),
            match r {
                Some(e) => old(self).index_map().contains_key(key@) && e.view_entry() == old(self).index_map()[key@],
                None => !old(self).index_map().contains_key(key@),
            },
            final(self).index_map().dom().len() == old(self).index_map().dom().len() - if r is Some { 1int } else { 0int },
            lookup_outcome(final(self).hot(), final(self).index_map(), key@) == LookupView::Miss,
            r is None ==> final(self).hot() == old(self).hot() && final(self).index_map() == old(self).index_map()
                && final(self).total() == old(self).total(),
    {
        proof {
            lemma_map_of_dom(self.index.entries@);
            if !self.index_map().contains_key(key@) {
                assert(self.hot().remove(key@) =~= self.hot());
                assert(self.index_map().remove(key@) =~= self.index_map());
            }
        }
        self.take_entry(key)
    }

    /// Clear the entire cache (memory and index). Returns the entries that were
    /// indexed, whose files are to be deleted.
    pub fn clear(&mut self) -> (removed: Vec<(String, CacheIndexEntry)>)
        requires
            old(self).wf(),
        ensures
            final(self).wf(),
            final(self).same_config(old(self)),
            final(self).counter() == old(self).counter(),
            final(self).index_map() == Map::<Seq<char>, EntryView>::empty(),
            final(self).total() == 0,
            final(self).hot() == Map::<Seq<char>, Seq<u8>>::empty(),
            unique_keys(removed@),
            map_of(removed@) == old(self).index_map(),
            total_of(removed@) == old(self).total(),
    {
        hot_clear(&mut self.hot_cache);
        let mut removed: Vec<(String, CacheIndexEntry)> = Vec::new();
        core::mem::swap(&mut removed, &mut self.index.entries);
        removed
    }

    /// The file name data stored under `key` goes to.
    pub fn file_name_for(key: &str) -> (name: String)
        ensures
            name@ == sanitized_name(key@),
    {
        sanitize_filename(key)
    }

    /// Record that `data`, stored under `key`, has been written to its file: the
    /// index entry gets the key's file name, the data's size and the next access
    /// count; the hot cache takes the data; then the size limit is enforced.
    /// Returns the evicted entries, whose files are to be deleted.
    pub fn put(&mut self, key: &str, data: &[u8]) -> (evicted: Vec<(String, CacheIndexEntry)>)
        requires
            old(self).wf(),
            old(self).counter() < u64::MAX,
            old(self).total() - indexed_size(old(self).index_map(), key@) + data@.len() <= u64::MAX,
        ensures
            final(self).wf(),
            put_post(*old(self), *final(self), key@, data@, evicted_view(evicted@)),
            final(self).total() <= final(self).max(),
    {
        let ghost before = *self;
        let file_name = sanitize_filename(key);
        self.access_counter = self.access_counter + 1;
        let size = data.len() as u64;
        let entry = CacheIndexEntry { file_path: file_name, size, access_count: self.access_counter };
        let ghost ev = entry.view_entry();
        assert(ev == put_entry(key@, data@.len(), self.access_counter));
        match self.index.position(key) {
            Some(i) => {
                proof {
                    lemma_map_of_index(self.index.entries@, i as int);
                }
                let k = owned(key);
                proof {
                    lemma_map_of_update(self.index.entries@, i as int, (k, entry));
                }
                self.index.entries.set(i, (k, entry));
            },
            None => {
                let k = owned(key);
                proof {
                    lemma_map_of_dom(self.index.entries@);
                    lemma_map_of_push(self.index.entries@, (k, entry));
                }
                self.index.entries.push((k, entry));
            },
        }
        let ghost h1 = hot_contents(self.hot_cache);
        hot_put(&mut self.hot_cache, owned(key), vstd::slice::slice_to_vec(data));
        let ghost staged_hot = hot_contents(self.hot_cache);
        let evicted = self.enforce_size_limit();
        proof {
            let evv = evicted_view(evicted@);
            if !evicted_keys(evv).contains(key@) {
                lemma_without_keys_keeps(staged_hot, evicted_keys(evv), key@);
            }
            assert forall|k: Seq<char>| #[trigger] self.hot().contains_key(k) && k != key@
                implies before.hot().contains_key(k) && self.hot()[k] == before.hot()[k] by {
                lemma_without_keys_sub(staged_hot, evicted_keys(evv), k);
            }
        }
        evicted
    }
}

// ─── Laws ──────────────────────────────────────────────────────────

/// Each entry of an eviction chain is in the map it starts from, with its value.
proof fn lemma_chain_members(m: Map<Seq<char>, EntryView>, evicted: Seq<(Seq<char>, EntryView)>, policy: EvictionPolicy, j: int)
    requires
        eviction_chain(m, evicted, policy),
        0 <= j < evicted.len(),
    ensures
        m.contains_key(evicted[j].0),
        m[evicted[j].0] == evicted[j].1,
    decreases evicted.len(),
{
    if j > 0 {
        lemma_chain_members(m.remove(evicted[0].0), evicted.drop_first(), policy, j - 1);
    }
}

/// Under LRU, an entry used more recently than every other one is evicted only
/// last, once every other entry has gone.
proof fn lemma_lru_newest_goes_last(m: Map<Seq<char>, EntryView>, evicted: Seq<(Seq<char>, EntryView)>, key: Seq<char>, i: int)
    requires
        eviction_chain(m, evicted, EvictionPolicy::Lru),
        0 <= i < evicted.len(),
        evicted[i].0 == key,
        m.contains_key(key),
        forall|k: Seq<char>| #[trigger] m.contains_key(k) && k != key ==> m[k].access_count < m[key].access_count,
    ensures
        i == evicted.len() - 1,
        without_keys(m, evicted_keys(evicted.take(i))) == Map::<Seq<char>, EntryView>::empty().insert(key, m[key]),
    decreases evicted.len(),
{
    let m1 = m.remove(evicted[0].0);
    let rest = evicted.drop_first();
    if i == 0 {
        assert(m =~= Map::<Seq<char>, EntryView>::empty().insert(key, m[key])) by {
            assert forall|k: Seq<char>| #[trigger] m.contains_key(k) implies k == key by {
                if k != key {
                    assert(evicts_before(EvictionPolicy::Lru, m[key], m[k]));
                }
            }
        }
        assert(m1 =~= Map::<Seq<char>, EntryView>::empty());
        if rest.len() > 0 {
            lemma_chain_members(m1, rest, EvictionPolicy::Lru, 0);
        }
        assert(evicted_keys(evicted.take(0)) =~= Seq::<Seq<char>>::empty());
    } else {
        lemma_chain_members(m1, rest, EvictionPolicy::Lru, i - 1);
        assert(rest[i - 1] == evicted[i]);
        assert(m1.contains_key(key));
        lemma_lru_newest_goes_last(m1, rest, key, i - 1);
        assert(evicted_keys(evicted.take(i))[0] == evicted[0].0);
        assert(evicted_keys(evicted.take(i)).drop_first() =~= evicted_keys(rest.take(i - 1)));
    }
}

impl ImageCache {
    /// Every key whose bytes are held in memory has an entry in the index, and the
    /// cache evicts by LRU (the policy it is made with and keeps).
    pub proof fn lemma_hot_keys_indexed(&self)
        requires
            self.wf(),
        ensures
            forall|k: Seq<char>| #[trigger] self.hot().contains_key(k) ==> self.index_map().contains_key(k),
            self.eviction_policy() == EvictionPolicy::Lru,
    {
    }

    /// A cache whose index has no entries has a total size of 0.
    pub proof fn lemma_empty_total(&self)
        requires
            self.wf(),
            self.index_map() == Map::<Seq<char>, EntryView>::empty(),
        ensures
            self.total() == 0,
    {
        lemma_map_of_len(self.index.entries@);
        assert(self.index_map().dom() =~= Set::<Seq<char>>::empty());
    }
}

/// A put of data no larger than the eviction target into the index `index` of
/// total `total`, with the counter at `counter`, is not evicted by the eviction that
/// follows it, when the cache evicts by LRU and no entry of `index` was used later
/// than `counter` says.
pub(crate) proof fn lemma_small_put_kept_from(
    index: Map<Seq<char>, EntryView>,
    total: nat,
    hot: Map<Seq<char>, Seq<u8>>,
    counter: u64,
    before: ImageCache,
    after: ImageCache,
    key: Seq<char>,
    data: Seq<u8>,
    evicted: Seq<(Seq<char>, EntryView)>,
)
    requires
        put_post_from(index, total, hot, counter, before, after, key, data, evicted),
        before.eviction_policy() == EvictionPolicy::Lru,
        after.wf(),
        data.len() <= before.target(),
        forall|k: Seq<char>| #[trigger] index.contains_key(k) ==> index[k].access_count <= counter,
    ensures
        !evicted_keys(evicted).contains(key),
        lookup_outcome(after.hot(), after.index_map(), key) == LookupView::Hot(data),
{
    let staged = index.insert(key, put_entry(key, data.len(), (counter + 1) as u64));
    let staged_total = (total - indexed_size(index, key) + data.len()) as nat;
    if evicted_keys(evicted).contains(key) {
        let i = choose|i: int| 0 <= i < evicted_keys(evicted).len() && evicted_keys(evicted)[i] == key;
        assert(evicted[i].0 == key);
        assert forall|k: Seq<char>| #[trigger] staged.contains_key(k) && k != key
            implies staged[k].access_count < staged[key].access_count by {
            assert(index.contains_key(k));
        }
        lemma_lru_newest_goes_last(staged, evicted, key, i);
        lemma_chain_members(staged, evicted, EvictionPolicy::Lru, i);
        assert(evicted_keys(evicted) =~= evicted_keys(evicted.take(i)).push(key));
        lemma_without_keys_push(staged, evicted_keys(evicted.take(i)), key);
        assert(after.index_map() =~= Map::<Seq<char>, EntryView>::empty());
        after.lemma_empty_total();
        assert(evicted.drop_last() =~= evicted.take(i));
        assert(staged_total - evicted_size(evicted.take(i)) > before.target());
    }
}

/// Data no larger than the eviction target survives the eviction that follows its
/// own put (the cache evicts by LRU), when every entry indexed before was used no
/// later than the access counter says: a lookup of its key finds it in memory.
pub proof fn law_small_put_is_kept(
    before: ImageCache,
    after: ImageCache,
    key: Seq<char>,
    data: Seq<u8>,
    evicted: Seq<(Seq<char>, EntryView)>,
)
    requires
        put_post(before, after, key, data, evicted),
        before.wf(),
        after.wf(),
        data.len() <= before.target(),
        forall|k: Seq<char>| #[trigger] before.index_map().contains_key(k)
            ==> before.index_map()[k].access_count <= before.counter(),
    ensures
        !evicted_keys(evicted).contains(key),
        lookup_outcome(after.hot(), after.index_map(), key) == LookupView::Hot(data),
{
    before.lemma_hot_keys_indexed();
    lemma_small_put_kept_from(before.index_map(), before.total(), before.hot(), before.counter(), before, after,
        key, data, evicted);
}



/// What a put stores is what a lookup of the same key finds next, unless the
/// eviction that followed the put evicted that very key.
pub proof fn law_read_after_write(
    before: ImageCache,
    after: ImageCache,
    key: Seq<char>,
    data: Seq<u8>,
    evicted: Seq<(Seq<char>, EntryView)>,
)
    requires
        put_post(before, after, key, data, evicted),
        !evicted_keys(evicted).contains(key),
    ensures
        lookup_outcome(after.hot(), after.index_map(), key) == LookupView::Hot(data),
{
}

/// Once a key is removed, a lookup of it finds nothing.
pub proof fn law_removed_key_misses(before: ImageCache, after: ImageCache, key: Seq<char>)
    requires
        remove_post(before, after, key),
    ensures
        lookup_outcome(after.hot(), after.index_map(), key) == LookupView::Miss,
{
}

/// After eviction the total is within the size limit, whatever it was before.
pub proof fn law_eviction_respects_limit(
    m: Map<Seq<char>, EntryView>,
    total: nat,
    evicted: Seq<(Seq<char>, EntryView)>,
    after: Map<Seq<char>, EntryView>,
    after_total: nat,
    policy: EvictionPolicy,
    max: u64,
    target: u64,
)
    requires
        evicted_correctly(m, total, evicted, after, after_total, policy, max, target),
        target <= max,
    ensures
        after_total <= max,
        total <= max ==> after == m && after_total == total,
{
    if total <= max {
        assert(evicted_keys(evicted) =~= Seq::<Seq<char>>::empty());
    }
}

/// Under the LRU policy, an evicted entry was used no more recently than any entry
/// that stayed.
pub proof fn law_lru_evicts_least_recent(
    m: Map<Seq<char>, EntryView>,
    evicted: Seq<(Seq<char>, EntryView)>,
    i: int,
    k: Seq<char>,
)
    requires
        eviction_chain(m, evicted, EvictionPolicy::Lru),
        0 <= i < evicted.len(),
        without_keys(m, evicted_keys(evicted)).contains_key(k),
    ensures
        evicted[i].1.access_count <= without_keys(m, evicted_keys(evicted))[k].access_count,
    decreases evicted.len(),
{
    lemma_without_keys_sub(m, evicted_keys(evicted), k);
    let m1 = m.remove(evicted[0].0);
    assert(evicted_keys(evicted).drop_first() =~= evicted_keys(evicted.drop_first()));
    assert(evicted_keys(evicted)[0] == evicted[0].0);
    assert(without_keys(m, evicted_keys(evicted)) == without_keys(m1, evicted_keys(evicted.drop_first())));
    lemma_without_keys_sub(m1, evicted_keys(evicted.drop_first()), k);
    if i > 0 {
        law_lru_evicts_least_recent(m1, evicted.drop_first(), i - 1, k);
    }
}

} // verus!
