//! Content hashes (SHA-256 written as lowercase hex) and the cache of file
//! information that tells whether a file has changed.
use sha2::Digest;
use vstd::prelude::*;
use vstd::string::*;

use crate::text::decimal;
use crate::text::decimal_string;
use crate::text::same_text;

verus! {

/// The SHA-256 digest of `data` (what `sha2::Sha256::digest` computes).
pub uninterp spec fn sha256(data: Seq<u8>) -> Seq<u8>;

/// Calls `sha2::Sha256::digest`. Trusted: the result is the digest of `data`,
/// and a SHA-256 output is 32 bytes long.
#[verifier::external_body]
fn sha256_digest(data: &[u8]) -> (d: Vec<u8>)
    ensures
        d@ == sha256(data@),
        d@.len() == 32,
{
    sha2::Sha256::digest(data).to_vec()
}

/// The lowercase hex digit for a nibble.
pub open spec fn hex_digit(n: u8) -> char {
    if n < 10 {
        ((n + 48) as u8) as char
    } else {
        ((n + 87) as u8) as char
    }
}

/// Lowercase hexadecimal text of `bytes`: two digits per byte, high nibble first.
pub open spec fn hex_lower(bytes: Seq<u8>) -> Seq<char>
    decreases bytes.len(),
{
    if bytes.len() == 0 {
        seq![]
    } else {
        hex_lower(bytes.drop_last()) + seq![
            hex_digit(bytes.last() / 16),
            hex_digit(bytes.last() % 16),
        ]
    }
}

pub proof fn lemma_hex_lower_len(bytes: Seq<u8>)
    ensures
        hex_lower(bytes).len() == 2 * bytes.len(),
    decreases bytes.len(),
{
    if bytes.len() > 0 {
        lemma_hex_lower_len(bytes.drop_last());
    }
}

/// Calls `hex::encode`. Trusted: it writes each byte as two lowercase hex
/// digits, high nibble first, in order.
#[verifier::external_body]
fn hex_encode(bytes: &[u8]) -> (s: String)
    ensures
        s@ == hex_lower(bytes@),
{
    hex::encode(bytes)
}

/// The hash text of some bytes: their SHA-256 digest in lowercase hex.
pub open spec fn bytes_hash(bytes: Seq<u8>) -> Seq<char> {
    hex_lower(sha256(bytes))
}

/// What the quick hash of a file is computed from: its path, its size and
/// the printed form of its modification time, separated by `:`.
pub open spec fn quick_hash_input(path: Seq<char>, size: u64, modified: Seq<char>) -> Seq<char> {
    path + seq![':'] + decimal(size as nat) + seq![':'] + modified
}

/// The quick hash of a file: the hash of the UTF-8 bytes of `quick_hash_input`.
pub open spec fn quick_hash(path: Seq<char>, size: u64, modified: Seq<char>) -> Seq<char> {
    bytes_hash(vstd::utf8::encode_utf8(quick_hash_input(path, size, modified)))
}

/// Calculate hash from bytes
pub fn calculate_bytes_hash(bytes: &[u8]) -> (r: String)
    ensures
        r@ == bytes_hash(bytes@),
        r@.len() == 64,
{
    let digest = sha256_digest(bytes);
    proof {
        lemma_hex_lower_len(digest@);
    }
    hex_encode(digest.as_slice())
}

/// Quick hash from file metadata: the path, the size and the printed
/// modification time (faster than hashing the contents, but less accurate).
pub fn calculate_quick_hash(path: &str, size: u64, modified: &str) -> (r: String)
    ensures
        r@ == quick_hash(path@, size, modified@),
        r@.len() == 64,
{
    let mut data = String::from_str(path);
    data.append(":");
    let digits = decimal_string(size);
    data.append(digits.as_str());
    data.append(":");
    data.append(modified);
    proof {
        reveal_strlit(":");
    }
    assert(data@ =~= quick_hash_input(path@, size, modified@));
    calculate_bytes_hash(data.as_str().as_bytes())
}

/// File info with hash for comparison. `modified` is the modification time
/// in nanoseconds since the Unix epoch.
pub struct FileInfo {
    pub path: String,
    pub size: u64,
    pub modified: i128,
    pub hash: String,
    pub quick_hash: String,
}

impl FileInfo {
    /// The information for a file at `path` with the given size, modification
    /// time (and its printed form) and contents.
    pub fn from_contents(
        path: String,
        size: u64,
        modified: i128,
        modified_text: &str,
        contents: &[u8],
    ) -> (r: FileInfo)
        ensures
            r.path@ == path@,
            r.size == size,
            r.modified == modified,
            r.hash@ == bytes_hash(contents@),
            r.quick_hash@ == quick_hash(path@, size, modified_text@),
    {
        let hash = calculate_bytes_hash(contents);
        let quick_hash = calculate_quick_hash(path.as_str(), size, modified_text);
        FileInfo { path, size, modified, hash, quick_hash }
    }

    /// Check if file has changed by comparing quick hash
    pub fn has_changed(&self, other: &FileInfo) -> (b: bool)
        ensures
            b == (self.quick_hash@ != other.quick_hash@),
    {
        !(self.quick_hash == other.quick_hash)
    }

    /// Check if files are identical by comparing full hash
    pub fn is_identical(&self, other: &FileInfo) -> (b: bool)
        ensures
            b == (self.hash@ == other.hash@),
    {
        self.hash == other.hash
    }

    /// A copy of this file information.
    pub fn copy(&self) -> (r: FileInfo)
        ensures
            r.same_as(self),
    {
        FileInfo {
            path: self.path.clone(),
            size: self.size,
            modified: self.modified,
            hash: self.hash.clone(),
            quick_hash: self.quick_hash.clone(),
        }
    }

    /// Whether two file informations hold the same values.
    pub open spec fn same_as(&self, other: &FileInfo) -> bool {
        &&& self.path@ == other.path@
        &&& self.size == other.size
        &&& self.modified == other.modified
        &&& self.hash@ == other.hash@
        &&& self.quick_hash@ == other.quick_hash@
    }
}

/// The map that a list of (path, info) entries describes; a later entry for a
/// path takes the place of an earlier one.
pub open spec fn entries_map(s: Seq<(String, FileInfo)>) -> Map<Seq<char>, FileInfo>
    decreases s.len(),
{
    if s.len() == 0 {
        Map::empty()
    } else {
        entries_map(s.drop_last()).insert(s.last().0@, s.last().1)
    }
}

/// No path occurs twice among the entries.
pub open spec fn distinct_keys(s: Seq<(String, FileInfo)>) -> bool {
    forall|i: int, j: int| 0 <= i < j < s.len() ==> #[trigger] s[i].0@ != #[trigger] s[j].0@
}

proof fn lemma_entries_map_lookup(s: Seq<(String, FileInfo)>, i: int)
    requires
        distinct_keys(s),
        0 <= i < s.len(),
    ensures
        entries_map(s).contains_key(s[i].0@),
        entries_map(s)[s[i].0@] == s[i].1,
    decreases s.len(),
{
    if i < s.len() - 1 {
        let t = s.drop_last();
        assert(t[i] == s[i]);
        assert(distinct_keys(t)) by {
            assert forall|a: int, b: int| 0 <= a < b < t.len() implies #[trigger] t[a].0@ != #[trigger] t[b].0@ by {
                assert(t[a] == s[a] && t[b] == s[b]);
            }
        }
        lemma_entries_map_lookup(t, i);
        assert(s.last() == s[s.len() - 1]);
    }
}

proof fn lemma_entries_map_absent(s: Seq<(String, FileInfo)>, k: Seq<char>)
    requires
        forall|i: int| 0 <= i < s.len() ==> (#[trigger] s[i]).0@ != k,
    ensures
        !entries_map(s).contains_key(k),
    decreases s.len(),
{
    if s.len() > 0 {
        let t = s.drop_last();
        assert forall|i: int| 0 <= i < t.len() implies (#[trigger] t[i]).0@ != k by {
            assert(t[i] == s[i]);
        }
        lemma_entries_map_absent(t, k);
        assert(s.last() == s[s.len() - 1]);
    }
}

proof fn lemma_entries_map_update(s: Seq<(String, FileInfo)>, i: int, e: (String, FileInfo))
    requires
        distinct_keys(s),
        0 <= i < s.len(),
        e.0@ == s[i].0@,
    ensures
        entries_map(s.update(i, e)) == entries_map(s).insert(e.0@, e.1),
    decreases s.len(),
{
    let u = s.update(i, e);
    if i == s.len() - 1 {
        assert(u.drop_last() =~= s.drop_last());
        lemma_entries_map_absent(s.drop_last(), e.0@);
        assert(entries_map(u) =~= entries_map(s).insert(e.0@, e.1));
    } else {
        let t = s.drop_last();
        assert(distinct_keys(t)) by {
            assert forall|a: int, b: int| 0 <= a < b < t.len() implies #[trigger] t[a].0@ != #[trigger] t[b].0@ by {
                assert(t[a] == s[a] && t[b] == s[b]);
            }
        }
        assert(t[i] == s[i]);
        lemma_entries_map_update(t, i, e);
        assert(u.drop_last() =~= t.update(i, e));
        assert(u.last() == s.last());
        assert(s.last() == s[s.len() - 1]);
        assert(s.last().0@ != e.0@);
        assert(entries_map(u) =~= entries_map(s).insert(e.0@, e.1));
    }
}

/// Hash cache for tracking file changes: file information keyed by path.
pub struct HashCache {
    entries: Vec<(String, FileInfo)>,
}

impl View for HashCache {
    type V = Map<Seq<char>, FileInfo>;

    closed spec fn view(&self) -> Map<Seq<char>, FileInfo> {
        entries_map(self.entries@)
    }
}

impl HashCache {
    #[verifier::type_invariant]
    closed spec fn wf(&self) -> bool {
        distinct_keys(self.entries@)
    }

    pub fn new() -> (r: HashCache)
        ensures
            r@ == Map::<Seq<char>, FileInfo>::empty(),
    {
        HashCache { entries: Vec::new() }
    }

    /// Position of the entry for `path`, if there is one.
    fn position(&self, path: &str) -> (r: Option<usize>)
        ensures
            match r {
                Some(i) => i < self.entries@.len() && self.entries@[i as int].0@ == path@,
                None => forall|i: int|
                    0 <= i < self.entries@.len() ==> (#[trigger] self.entries@[i]).0@ != path@,
            },
    {
        let mut i: usize = 0;
        while i < self.entries.len()
            invariant
                i <= self.entries@.len(),
                forall|j: int| 0 <= j < i ==> (#[trigger] self.entries@[j]).0@ != path@,
            decreases self.entries@.len() - i,
        {
            if same_text(self.entries[i].0.as_str(), path) {
                return Some(i);
            }
            i = i + 1;
        }
        None
    }

    /// The cached information for `path`.
    pub fn get(&self, path: &str) -> (r: Option<&FileInfo>)
        ensures
            match r {
                Some(info) => self@.contains_key(path@) && *info == self@[path@],
                None => !self@.contains_key(path@),
            },
    {
        proof {
            use_type_invariant(self);
        }
        match self.position(path) {
            Some(i) => {
                proof {
                    lemma_entries_map_lookup(self.entries@, i as int);
                }
                Some(&self.entries[i].1)
            },
            None => {
                proof {
                    lemma_entries_map_absent(self.entries@, path@);
                }
                None
            },
        }
    }

    /// Records `info` for `path`, in place of what was cached for it.
    pub fn insert(&mut self, path: String, info: FileInfo)
        ensures
            final(self)@ == old(self)@.insert(path@, info),
    {
        proof {
            use_type_invariant(&*self);
        }
        match self.position(path.as_str()) {
            Some(i) => {
                proof {
                    lemma_entries_map_update(self.entries@, i as int, (path, info));
                }
                let mut entries: Vec<(String, FileInfo)> = Vec::new();
                std::mem::swap(&mut entries, &mut self.entries);
                let ghost before = entries@;
                entries[i] = (path, info);
                assert(entries@ == before.update(i as int, (path, info)));
                assert(distinct_keys(entries@)) by {
                    assert forall|a: int, b: int|
                        0 <= a < b < entries@.len() implies #[trigger] entries@[a].0@
                        != #[trigger] entries@[b].0@ by {
                        assert(before[a].0@ != before[b].0@);
                    }
                }
                self.entries = entries;
            },
            None => {
                let mut entries: Vec<(String, FileInfo)> = Vec::new();
                std::mem::swap(&mut entries, &mut self.entries);
                let ghost before = entries@;
                entries.push((path, info));
                assert(entries@.drop_last() =~= before);
                assert(distinct_keys(entries@)) by {
                    assert forall|a: int, b: int|
                        0 <= a < b < entries@.len() implies #[trigger] entries@[a].0@
                        != #[trigger] entries@[b].0@ by {
                        if b == before.len() {
                            assert(entries@[a] == before[a]);
                        } else {
                            assert(before[a].0@ != before[b].0@);
                        }
                    }
                }
                self.entries = entries;
            },
        }
    }

    /// Whether the file at `path` must be treated as changed, given its
    /// current information: it is when nothing is cached for it, or when its
    /// quick hash differs from the cached one.
    pub fn is_changed(&self, path: &str, current: &FileInfo) -> (b: bool)
        ensures
            b == (!self@.contains_key(path@) || self@[path@].quick_hash@ != current.quick_hash@),
    {
        match self.get(path) {
            Some(cached) => cached.has_changed(current),
            None => true,
        }
    }

    /// The cached entries, path with information, in the order they were
    /// first recorded.
    pub fn entries(&self) -> (r: &Vec<(String, FileInfo)>)
        ensures
            entries_map(r@) == self@,
            distinct_keys(r@),
    {
        proof {
            use_type_invariant(self);
        }
        &self.entries
    }
}


/// A read after a write gives back what was written: after `insert(path,
/// info)`, `get(path)` gives `info`, every other path keeps what it had, and
/// `is_changed(path, info)` is false.
pub proof fn law_cache_read_after_write(
    cache: Map<Seq<char>, FileInfo>,
    path: Seq<char>,
    info: FileInfo,
    other: Seq<char>,
)
    ensures
        cache.insert(path, info).contains_key(path),
        cache.insert(path, info)[path] == info,
        other != path ==> (cache.insert(path, info).contains_key(other) == cache.contains_key(
            other,
        )),
        other != path && cache.contains_key(other) ==> cache.insert(path, info)[other]
            == cache[other],
        !(!cache.insert(path, info).contains_key(path) || cache.insert(path, info)[path].quick_hash@
            != info.quick_hash@),
{
}

} // verus!
