//! The directory-state cache: a snapshot of the files of each source
//! directory, so that a directory whose files have not changed since the
//! last scan can be skipped, and the hash of the configuration it was
//! taken under.

use crate::fmt::{hex_lower, lemma_hex_lower_len, to_hex_lower};
use crate::strmap::{lemma_maps_equal, to_map, StrMap};
use sha2::Digest;
use sha2::Sha256;
use vstd::prelude::*;
use vstd::string::StringSliceAdditionalSpecFns;

verus! {

#[verifier::external_type_specification]
#[verifier::external_body]
pub struct ExSha256(Sha256);

/// The SHA-256 digest of a byte sequence.
pub uninterp spec fn sha256_digest(data: Seq<u8>) -> Seq<u8>;

/// The bytes a SHA-256 hasher has been fed so far.
pub uninterp spec fn sha256_input(h: Sha256) -> Seq<u8>;

/// `<Sha256 as Digest>::new`: a hasher that has been fed nothing.
#[verifier::external_body]
fn sha256_new() -> (h: Sha256)
    ensures
        sha256_input(h) == Seq::<u8>::empty(),
{
    Sha256::new()
}

/// `<Sha256 as Digest>::update`: feeds `data` to the hasher.
#[verifier::external_body]
fn sha256_update(h: &mut Sha256, data: &[u8])
    ensures
        sha256_input(*final(h)) == sha256_input(*old(h)) + data@,
{
    h.update(data);
}

/// `<Sha256 as Digest>::finalize`: the 32-byte digest of everything the
/// hasher was fed.
#[verifier::external_body]
fn sha256_finalize(h: Sha256) -> (d: Vec<u8>)
    ensures
        d@ == sha256_digest(sha256_input(h)),
        d@.len() == 32,
{
    h.finalize().to_vec()
}

/// An incremental SHA-256 computation over content fed in chunks.
pub struct ContentHasher {
    inner: Sha256,
}

impl View for ContentHasher {
    type V = Seq<u8>;

    /// The bytes fed so far.
    closed spec fn view(&self) -> Seq<u8> {
        sha256_input(self.inner)
    }
}

/// Whether every character is a lower-case hexadecimal digit.
pub open spec fn is_lower_hex(s: Seq<char>) -> bool {
    forall|i: int|
        0 <= i < s.len() ==> (48 <= (#[trigger] s[i] as u32) && (s[i] as u32) <= 57) || (97 <= (
        s[i] as u32) && (s[i] as u32) <= 102)
}

proof fn lemma_hex_lower_chars(bytes: Seq<u8>)
    ensures
        is_lower_hex(hex_lower(bytes)),
    decreases bytes.len(),
{
    if bytes.len() > 0 {
        lemma_hex_lower_chars(bytes.drop_last());
        let b = bytes.last();
        assert(b / 16 < 16 && b % 16 < 16);
    }
}

/// The lower-case hexadecimal SHA-256 of `data`, as `format!("{:x}", digest)`
/// writes it.
pub open spec fn sha256_hex_text(data: Seq<u8>) -> Seq<char> {
    hex_lower(sha256_digest(data))
}

impl ContentHasher {
    /// A hasher that has been fed nothing.
    pub fn new() -> (h: Self)
        ensures
            h@ == Seq::<u8>::empty(),
    {
        ContentHasher { inner: sha256_new() }
    }

    /// Feeds the next chunk of content.
    pub fn update(&mut self, chunk: &[u8])
        ensures
            final(self)@ == old(self)@ + chunk@,
    {
        sha256_update(&mut self.inner, chunk);
    }

    /// The lower-case hexadecimal SHA-256 of all content fed: 64 characters.
    pub fn finish_hex(self) -> (r: String)
        ensures
            r@ == sha256_hex_text(self@),
            r@.len() == 64,
            is_lower_hex(r@),
    {
        let d = sha256_finalize(self.inner);
        proof {
            lemma_hex_lower_len(d@);
            lemma_hex_lower_chars(d@);
        }
        to_hex_lower(d.as_slice())
    }
}

/// The lower-case hexadecimal SHA-256 of `data`.
pub fn sha256_hex(data: &[u8]) -> (r: String)
    ensures
        r@ == sha256_hex_text(data@),
        r@.len() == 64,
        is_lower_hex(r@),
{
    let mut h = ContentHasher::new();
    h.update(data);
    assert(Seq::<u8>::empty() + data@ == data@);
    h.finish_hex()
}

/// Size and modification time (seconds since the Unix epoch) of a file.
#[derive(Debug, Clone, Copy, PartialEq, Eq, Structural)]
pub struct FileEntry {
    pub size: u64,
    pub mtime: u64,
}

/// The files of one directory, by name, and when they were listed.
pub struct DirSnapshot {
    pub entries: StrMap<FileEntry>,
    pub scanned_at: u64,
}

impl DirSnapshot {
    /// A snapshot of the listed files (a later entry for the same name wins).
    pub fn new(files: Vec<(String, FileEntry)>, scanned_at: u64) -> (s: Self)
        ensures
            s.entries@ == to_map(files@),
            s.scanned_at == scanned_at,
    {
        DirSnapshot { entries: StrMap::from_pairs(files), scanned_at }
    }
}

/// The cache of directory snapshots.
pub struct Cache {
    pub config_hash: String,
    pub dirs: StrMap<DirSnapshot>,
}

impl Default for Cache {
    fn default() -> (c: Self)
        ensures
            c.config_hash@ == Seq::<char>::empty(),
            c.dirs@ == Map::<Seq<char>, DirSnapshot>::empty(),
    {
        Cache { config_hash: String::new(), dirs: StrMap::new() }
    }
}

/// Whether the directory `key` counts as unchanged: it has a cached
/// snapshot, a current snapshot could be taken, and both list the same
/// files with the same sizes and modification times.
pub open spec fn dir_unchanged(
    dirs: Map<Seq<char>, DirSnapshot>,
    key: Seq<char>,
    current: Option<DirSnapshot>,
) -> bool {
    match current {
        Some(cur) => dirs.contains_key(key) && dirs[key].entries@ == cur.entries@,
        None => false,
    }
}

/// Whether two snapshots list the same files with the same sizes and
/// modification times (when they were taken does not matter).
pub fn same_files(cached: &DirSnapshot, current: &DirSnapshot) -> (b: bool)
    ensures
        b == (cached.entries@ == current.entries@),
{
    let items = cached.entries.items();
    let _ = current.entries.items();
    if cached.entries.len() != current.entries.len() {
        return false;
    }
    let mut i: usize = 0;
    while i < items.len()
        invariant
            i <= items@.len(),
            items@.len() == cached.entries@.len(),
            cached.entries@.len() == current.entries@.len(),
            cached.entries@.dom().finite(),
            current.entries@.dom().finite(),
            forall|k: Seq<char>|
                #[trigger] cached.entries@.contains_key(k) <==> exists|j: int|
                    0 <= j < items@.len() && (#[trigger] items@[j]).0@ == k,
            forall|j: int|
                0 <= j < items@.len() ==> #[trigger] cached.entries@[items@[j].0@] == items@[j].1,
            forall|j: int|
                0 <= j < i ==> current.entries@.contains_key((#[trigger] items@[j]).0@)
                    && current.entries@[items@[j].0@] == items@[j].1,
        decreases items@.len() - i,
    {
        let (name, entry) = &items[i];
        match current.entries.get(name.as_str()) {
            Some(cur) => {
                if cur.size != entry.size || cur.mtime != entry.mtime {
                    assert(cached.entries@[name@] != current.entries@[name@]);
                    return false;
                }
            },
            None => {
                assert(cached.entries@.contains_key(name@));
                return false;
            },
        }
        i += 1;
    }
    proof {
        assert forall|k: Seq<char>| #[trigger]
            cached.entries@.contains_key(k) implies current.entries@.contains_key(k)
            && cached.entries@[k] == current.entries@[k] by {
            let j = choose|j: int| 0 <= j < items@.len() && (#[trigger] items@[j]).0@ == k;
            assert(cached.entries@[items@[j].0@] == items@[j].1);
        }
        lemma_maps_equal(cached.entries@, current.entries@);
    }
    true
}

impl Cache {
    /// Whether the source directory `source_dir` is unchanged since it was
    /// last recorded; `current` is a fresh snapshot of it, or `None` when
    /// it could not be taken.
    pub fn is_unchanged(&self, source_dir: &str, current: Option<&DirSnapshot>) -> (b: bool)
        ensures
            b == dir_unchanged(
                self.dirs@,
                source_dir@,
                match current {
                    Some(c) => Some(*c),
                    None => None,
                },
            ),
    {
        let cached = match self.dirs.get(source_dir) {
            Some(snapshot) => snapshot,
            None => {
                return false;
            },
        };
        match current {
            Some(cur) => same_files(cached, cur),
            None => false,
        }
    }

    /// Records `snapshot` as the state of the directory `dir`.
    pub fn update_dir(&mut self, dir: &str, snapshot: DirSnapshot)
        ensures
            final(self).dirs@ == old(self).dirs@.insert(dir@, snapshot),
            final(self).config_hash == old(self).config_hash,
    {
        self.dirs.insert(dir.to_owned(), snapshot);
    }

    /// Starts a run under the configuration whose hash is `config_hash`:
    /// snapshots taken under another configuration are all dropped.
    /// Returns whether the cached snapshots were kept.
    pub fn use_config(&mut self, config_hash: String) -> (kept: bool)
        ensures
            kept == (old(self).config_hash@ == config_hash@),
            final(self).config_hash@ == config_hash@,
            kept ==> final(self).dirs@ == old(self).dirs@,
            !kept ==> final(self).dirs@ == Map::<Seq<char>, DirSnapshot>::empty(),
    {
        if self.config_hash == config_hash {
            true
        } else {
            self.config_hash = config_hash;
            self.dirs = StrMap::new();
            false
        }
    }

    /// The lower-case hexadecimal SHA-256 of a serialized configuration.
    pub fn hash_config_content(serialized: &str) -> (r: String)
        ensures
            r@ == sha256_hex_text(serialized.spec_bytes()),
            r@.len() == 64,
            is_lower_hex(r@),
    {
        sha256_hex(serialized.as_bytes())
    }
}

/// A directory that was just recorded is unchanged exactly when a fresh
/// snapshot lists the same files; recording it does not change whether any
/// other directory is unchanged.
pub proof fn law_update_then_check(
    dirs: Map<Seq<char>, DirSnapshot>,
    key: Seq<char>,
    recorded: DirSnapshot,
    other: Seq<char>,
    current: DirSnapshot,
)
    ensures
        dir_unchanged(dirs.insert(key, recorded), key, Some(current)) == (recorded.entries@
            == current.entries@),
        other != key ==> dir_unchanged(dirs.insert(key, recorded), other, Some(current))
            == dir_unchanged(dirs, other, Some(current)),
{
}

/// A directory with no recorded snapshot, or whose current state cannot
/// be read, is never unchanged.
pub proof fn law_unknown_is_changed(
    dirs: Map<Seq<char>, DirSnapshot>,
    key: Seq<char>,
    current: Option<DirSnapshot>,
)
    ensures
        !dirs.contains_key(key) ==> !dir_unchanged(dirs, key, current),
        current is None ==> !dir_unchanged(dirs, key, current),
{
}

/// After a configuration change has dropped the snapshots (`use_config`
/// leaves none), no directory counts as unchanged, whatever its current
/// state: every source is scanned again.
pub proof fn law_config_change_rescans(key: Seq<char>, current: Option<DirSnapshot>)
    ensures
        !dir_unchanged(Map::<Seq<char>, DirSnapshot>::empty(), key, current),
{
}

} // verus!
