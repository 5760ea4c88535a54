//! The bookkeeping of the disk-backed cache store: one JSON file per entry
//! under a directory, with an in-memory index for table lookups and
//! eviction. The files themselves are read and written at the edge; this
//! type decides which file holds which key, and which files must go.
use crate::cache::index::{EntryIndex, Stamped, evicted_oldest_first, key_set};
use crate::cache::{eviction_target, names_contain};
use crate::sql::fingerprint::{hex, hex_digit, spec_hex};
use vstd::utf8::{encode_utf8, is_ascii_chars, is_ascii_chars_encode_utf8};
use crate::text::{string_views, to_uppercase, unicode_uppercase};
use vstd::prelude::*;
use vstd::string::StringExecFns;
use vstd::string::StringSliceAdditionalSpecFns;
use vstd::string::StrSliceExecFns;

verus! {

/// What the index keeps of an entry on disk.
#[derive(Debug)]
pub struct IndexEntry {
    pub tables: Vec<String>,
    pub inserted_unix_ms: u64,
}

impl Stamped for IndexEntry {
    open spec fn stamp(&self) -> u64 {
        self.inserted_unix_ms
    }

    open spec fn reads(&self, table: Seq<char>) -> bool {
        string_views(self.tables@).contains(table)
    }

    fn stamp_ms(&self) -> (r: u64) {
        self.inserted_unix_ms
    }

    fn reads_table(&self, table: &str) -> (r: bool) {
        names_contain(&self.tables, table)
    }
}

/// `dir` joined with a relative file name, as `Path::join` does it on Unix.
pub open spec fn path_join(dir: Seq<char>, name: Seq<char>) -> Seq<char> {
    if dir.len() == 0 {
        name
    } else if dir.last() == '/' {
        dir + name
    } else {
        dir + "/"@ + name
    }
}

fn join(dir: &str, name: &str) -> (r: String)
    ensures
        r@ == path_join(dir@, name@),
{
    let mut out = String::from_str(dir);
    let n = dir.unicode_len();
    if n == 0 {
        return String::from_str(name);
    }
    if dir.get_char(n - 1) != '/' {
        out.append("/");
    }
    out.append(name);
    out
}

/// The value of an ASCII hex digit byte.
pub open spec fn hex_value(b: u8) -> Option<u8> {
    if 0x30 <= b <= 0x39 {
        Some((b - 0x30) as u8)
    } else if 0x61 <= b <= 0x66 {
        Some((b - 0x61 + 10) as u8)
    } else if 0x41 <= b <= 0x46 {
        Some((b - 0x41 + 10) as u8)
    } else {
        None
    }
}

fn hex_value_exec(b: u8) -> (r: Option<u8>)
    ensures
        r == hex_value(b),
{
    if 0x30 <= b && b <= 0x39 {
        Some(b - 0x30)
    } else if 0x61 <= b && b <= 0x66 {
        Some(b - 0x61 + 10)
    } else if 0x41 <= b && b <= 0x46 {
        Some(b - 0x41 + 10)
    } else {
        None
    }
}

/// Two bytes read as a base-16 `u8`, as `u8::from_str_radix(_, 16)` reads
/// them: an optional `+` sign, then digits.
pub open spec fn hex_pair(b0: u8, b1: u8) -> Option<u8> {
    if b0 == 0x2b {
        hex_value(b1)
    } else {
        match (hex_value(b0), hex_value(b1)) {
            (Some(hi), Some(lo)) => Some((hi * 16 + lo) as u8),
            _ => None,
        }
    }
}

/// The key a file stem names: 64 bytes, read as 32 hex pairs.
pub open spec fn stem_key(stem: Seq<u8>) -> Option<Seq<u8>> {
    if stem.len() != 64 {
        None
    } else if forall|i: int| 0 <= i < 32 ==> #[trigger] hex_pair(stem[2 * i], stem[2 * i + 1]) is Some {
        Some(Seq::new(32, |i: int| hex_pair(stem[2 * i], stem[2 * i + 1])->0))
    } else {
        None
    }
}

proof fn lemma_hex_layout(k: Seq<u8>)
    ensures
        spec_hex(k).len() == 2 * k.len(),
        forall|i: int|
            0 <= i < k.len() ==> (#[trigger] spec_hex(k)[2 * i]) == hex_digit(k[i] as int / 16)
                && spec_hex(k)[2 * i + 1] == hex_digit(k[i] as int % 16),
    decreases k.len(),
{
    if k.len() > 0 {
        let init = k.drop_last();
        lemma_hex_layout(init);
        assert forall|i: int| 0 <= i < k.len() implies (#[trigger] spec_hex(k)[2 * i]) == hex_digit(
            k[i] as int / 16,
        ) && spec_hex(k)[2 * i + 1] == hex_digit(k[i] as int % 16) by {
            if i < init.len() {
                assert(k[i] == init[i]);
                assert(spec_hex(k)[2 * i] == spec_hex(init)[2 * i]);
                assert(spec_hex(k)[2 * i + 1] == spec_hex(init)[2 * i + 1]);
            }
        }
    }
}

proof fn lemma_hex_digit_reads_back(n: int)
    requires
        0 <= n < 16,
    ensures
        (hex_digit(n) as u32) < 128,
        hex_value(hex_digit(n) as u8) == Some(n as u8),
{
}

/// The stem a key's file is named by (its lowercase hex) parses back to
/// the key.
pub proof fn law_key_stem_parses_back(k: Seq<u8>)
    requires
        k.len() == 32,
    ensures
        stem_key(encode_utf8(spec_hex(k))) == Some(k),
{
    let h = spec_hex(k);
    lemma_hex_layout(k);
    assert forall|j: int| 0 <= j < h.len() implies '\0' <= #[trigger] h[j] <= '\u{7f}' by {
        let i = j / 2;
        lemma_hex_digit_reads_back(k[i] as int / 16);
        lemma_hex_digit_reads_back(k[i] as int % 16);
        if j == 2 * i {
            assert(h[2 * i] == hex_digit(k[i] as int / 16));
        } else {
            assert(j == 2 * i + 1);
            assert(h[2 * i] == hex_digit(k[i] as int / 16));
            assert(h[2 * i + 1] == hex_digit(k[i] as int % 16));
        }
        assert((h[j] as u32) < 128);
    }
    assert(is_ascii_chars(h));
    is_ascii_chars_encode_utf8(h);
    let b = encode_utf8(h);
    assert forall|i: int| 0 <= i < 32 implies #[trigger] hex_pair(b[2 * i], b[2 * i + 1]) == Some(k[i]) by {
        lemma_hex_digit_reads_back(k[i] as int / 16);
        lemma_hex_digit_reads_back(k[i] as int % 16);
        assert(b[2 * i] == h[2 * i] as u8);
        assert(b[2 * i + 1] == h[2 * i + 1] as u8);
        assert(h[2 * i] as u8 != 0x2b);
    }
    assert(Seq::new(32, |i: int| hex_pair(b[2 * i], b[2 * i + 1])->0) =~= k);
}

/// The fingerprint a cache file's stem names, if it names one; any other
/// stem names none, and its file is skipped.
pub fn parse_key(stem: &str) -> (r: Option<[u8; 32]>)
    ensures
        match stem_key(stem.spec_bytes()) {
            Some(k) => r matches Some(key) && key@ == k,
            None => r is None,
        },
{
    let b = stem.as_bytes();
    if b.len() != 64 {
        return None;
    }
    let mut key = [0u8; 32];
    let mut i: usize = 0;
    while i < 32
        invariant
            i <= 32,
            b@ == stem.spec_bytes(),
            b@.len() == 64,
            forall|j: int| 0 <= j < i ==> #[trigger] hex_pair(b@[2 * j], b@[2 * j + 1]) == Some(key@[j]),
        decreases 32 - i,
    {
        let b0 = b[2 * i];
        let b1 = b[2 * i + 1];
        let v = if b0 == 0x2b {
            hex_value_exec(b1)
        } else {
            match (hex_value_exec(b0), hex_value_exec(b1)) {
                (Some(hi), Some(lo)) => Some(hi * 16 + lo),
                _ => None,
            }
        };
        assert(v == hex_pair(b0, b1));
        match v {
            Some(x) => {
                key[i] = x;
            },
            None => {
                assert(!(forall|j: int| 0 <= j < 32 ==> #[trigger] hex_pair(b@[2 * j], b@[2 * j + 1]) is Some));
                return None;
            },
        }
        i = i + 1;
    }
    assert(key@ =~= Seq::new(32, |j: int| hex_pair(b@[2 * j], b@[2 * j + 1])->0));
    Some(key)
}

/// The bookkeeping of a disk-backed store: which keys it holds, when each
/// was inserted and which tables it read.
pub struct DiskStore {
    dir: String,
    max_entries: usize,
    index: EntryIndex<IndexEntry>,
}

impl DiskStore {
    pub closed spec fn spec_dir(&self) -> Seq<char> {
        self.dir@
    }

    pub closed spec fn capacity(&self) -> usize {
        self.max_entries
    }
}

impl View for DiskStore {
    type V = Map<Seq<u8>, IndexEntry>;

    closed spec fn view(&self) -> Map<Seq<u8>, IndexEntry> {
        self.index@
    }
}

impl DiskStore {
    /// An empty index over `dir` holding up to `max_entries` (at least one).
    pub fn new(dir: String, max_entries: usize) -> (r: Self)
        ensures
            r@ == Map::<Seq<u8>, IndexEntry>::empty(),
            r.spec_dir() == dir@,
            r.capacity() == if max_entries < 1 {
                1
            } else {
                max_entries
            },
    {
        DiskStore { dir, max_entries: if max_entries < 1 {
            1
        } else {
            max_entries
        }, index: EntryIndex::new() }
    }

    /// The file that holds the entry for `key`: `<dir>/<hex key>.json`.
    pub fn path_for(&self, key: &[u8; 32]) -> (r: String)
        ensures
            r@ == path_join(self.spec_dir(), spec_hex(key@) + ".json"@),
    {
        let mut name = hex(key);
        name.append(".json");
        join(self.dir.as_str(), name.as_str())
    }

    /// Where an entry is written before it is renamed into place.
    pub fn tmp_path_for(&self, key: &[u8; 32]) -> (r: String)
        ensures
            r@ == path_join(self.spec_dir(), spec_hex(key@) + ".tmp"@),
    {
        let mut name = hex(key);
        name.append(".tmp");
        join(self.dir.as_str(), name.as_str())
    }

    pub fn contains(&self, key: &[u8; 32]) -> (r: bool)
        ensures
            r == self@.contains_key(key@),
    {
        self.index.contains_key(key)
    }

    /// Note an entry found on disk (or just written) under `key`; past
    /// capacity the oldest ~10 % go. Returns the keys whose files must go.
    pub fn record(&mut self, key: [u8; 32], entry: IndexEntry) -> (evicted: Vec<[u8; 32]>)
        ensures
            final(self).spec_dir() == old(self).spec_dir(),
            final(self).capacity() == old(self).capacity(),
            ({
                let ins = old(self)@.insert(key@, entry);
                &&& ins.dom().len() <= old(self).capacity() ==> final(self)@ == ins
                &&& ins.dom().len() > old(self).capacity() ==> evicted_oldest_first(
                    ins,
                    final(self)@,
                    eviction_target(old(self).capacity()),
                )
                &&& key_set(evicted@) == ins.dom().difference(final(self)@.dom())
            }),
    {
        let ghost e = entry;
        self.index.insert(key, entry);
        let n = self.index.len();
        if n > self.max_entries {
            let target = self.max_entries - self.max_entries / 10;
            self.index.evict_oldest(target)
        } else {
            let v: Vec<[u8; 32]> = Vec::new();
            assert(key_set(v@) =~= Set::<Seq<u8>>::empty());
            assert(self.index@.dom().difference(self.index@.dom()) =~= Set::<Seq<u8>>::empty());
            v
        }
    }

    /// Note an entry found on disk when the store is opened. Opening keeps
    /// whatever survived, even past capacity; only a later `record` evicts.
    pub fn restore(&mut self, key: [u8; 32], entry: IndexEntry)
        ensures
            final(self).spec_dir() == old(self).spec_dir(),
            final(self).capacity() == old(self).capacity(),
            final(self)@ == old(self)@.insert(key@, entry),
    {
        self.index.insert(key, entry);
    }

    /// Forget `key` (its file goes at the edge).
    pub fn forget(&mut self, key: &[u8; 32])
        ensures
            final(self).spec_dir() == old(self).spec_dir(),
            final(self).capacity() == old(self).capacity(),
            final(self)@ == old(self)@.remove(key@),
    {
        self.index.remove(key);
    }

    /// Forget every entry that read `table` (compared upper-cased); returns
    /// the keys whose files must go.
    pub fn invalidate_table(&mut self, table: &str) -> (doomed: Vec<[u8; 32]>)
        ensures
            final(self).spec_dir() == old(self).spec_dir(),
            final(self).capacity() == old(self).capacity(),
            key_set(doomed@) == Set::new(
                |k: Seq<u8>|
                    old(self)@.contains_key(k) && old(self)@[k].reads(unicode_uppercase(table@)),
            ),
            final(self)@ == old(self)@.remove_keys(key_set(doomed@)),
            final(self)@.dom().len() + doomed@.len() == old(self)@.dom().len(),
    {
        let upper = to_uppercase(table);
        self.index.remove_reading(upper.as_str())
    }

    pub fn len(&self) -> (r: usize)
        ensures
            r == self@.dom().len(),
    {
        self.index.len()
    }

    pub fn is_empty(&self) -> (r: bool)
        ensures
            r == (self@.dom().len() == 0),
    {
        self.len() == 0
    }
}

} // verus!
