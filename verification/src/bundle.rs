//! Content store that packs documents into zstd-compressed bundles.
//!
//! Up to `BUNDLE_TARGET_SIZE` documents are concatenated and compressed as
//! one zstd frame; an index maps each external id to its bundle, offset and
//! length. The program reads and writes the files; this module decides what
//! goes into them and what comes back out.
use vstd::prelude::*;
use crate::config::{join_path, path_join};
use crate::content::{dir_size, size_sum};
use crate::error::Error;
use crate::text::{dec_digits, push_decimal, zero_pad};

verus! {

/// Documents per bundle.
pub const BUNDLE_TARGET_SIZE: usize = 1000;

// ── zstd ─────────────────────────────────────────────────────────────

/// The zstd frame that `zstd::encode_all` produces at level 3.
pub uninterp spec fn zstd_frame(data: Seq<u8>) -> Seq<u8>;

/// What `zstd::decode_all` gives back for `data`, or `None` when it fails.
pub uninterp spec fn zstd_decoded(data: Seq<u8>) -> Option<Seq<u8>>;

/// `zstd::encode_all(data, 3)`: the level-3 frame of `data`. Reading from
/// a slice into a vector, the call fails only when zstd cannot allocate its
/// compression context; like any allocation failure, that is left out.
#[verifier::external_body]
fn zstd_encode(data: &[u8]) -> (r: Result<Vec<u8>, String>)
    ensures
        r is Ok,
        r matches Ok(v) ==> v@ == zstd_frame(data@),
{
    zstd::encode_all(data, 3).map_err(|e| e.to_string())
}

/// `zstd::decode_all(data)`. Decoding is lossless: a frame made by
/// `zstd::encode_all` decodes to exactly the bytes it was made from.
#[verifier::external_body]
fn zstd_decode(data: &[u8]) -> (r: Result<Vec<u8>, String>)
    ensures
        match r {
            Ok(v) => zstd_decoded(data@) == Some(v@),
            Err(_) => zstd_decoded(data@) is None,
        },
        r matches Ok(v) ==> forall|x: Seq<u8>| #[trigger] zstd_frame(x) == data@ ==> v@ == x,
        r is Err ==> forall|x: Seq<u8>| #[trigger] zstd_frame(x) != data@,
{
    zstd::decode_all(data).map_err(|e| e.to_string())
}

// ── Index ────────────────────────────────────────────────────────────

/// Where a document lives: its bundle, and its byte range in the bundle's
/// decompressed data.
#[derive(Debug, Clone, Copy, PartialEq, Eq, Structural)]
pub struct BundleEntry {
    pub bundle_id: u32,
    pub offset: usize,
    pub length: usize,
}

/// The map that a list of `(id, entry)` records stands for: later records
/// override earlier ones with the same id.
pub open spec fn index_map(s: Seq<(String, BundleEntry)>) -> Map<Seq<char>, BundleEntry>
    decreases s.len(),
{
    if s.len() == 0 {
        Map::empty()
    } else {
        index_map(s.drop_last()).insert(s.last().0@, s.last().1)
    }
}

/// Maps each external id to its location, and numbers the next bundle.
#[derive(Debug)]
pub struct BundleIndex {
    entries: Vec<(String, BundleEntry)>,
    next_bundle_id: u32,
}

impl View for BundleIndex {
    type V = Map<Seq<char>, BundleEntry>;

    closed spec fn view(&self) -> Map<Seq<char>, BundleEntry> {
        index_map(self.entries@)
    }
}

/// The records of `s` after position `i` do not name `k`.
pub open spec fn absent_after(s: Seq<(String, BundleEntry)>, i: int, k: Seq<char>) -> bool {
    forall|j: int| i <= j < s.len() ==> #[trigger] s[j].0@ != k
}

/// A map lookup ignores the records after the last one that names the key.
proof fn lemma_index_map_prefix(s: Seq<(String, BundleEntry)>, i: int, k: Seq<char>)
    requires
        0 <= i <= s.len(),
        absent_after(s, i, k),
    ensures
        index_map(s).dom().contains(k) == index_map(s.take(i)).dom().contains(k),
        index_map(s).dom().contains(k) ==> index_map(s)[k] == index_map(s.take(i))[k],
    decreases s.len(),
{
    if s.len() > i {
        assert(s.drop_last().take(i) =~= s.take(i));
        lemma_index_map_prefix(s.drop_last(), i, k);
    } else {
        assert(s.take(i) =~= s);
    }
}

impl BundleIndex {
    /// The number the next bundle gets.
    pub closed spec fn next_id(&self) -> u32 {
        self.next_bundle_id
    }

    /// An empty index.
    pub fn new() -> (r: BundleIndex)
        ensures
            r@ == Map::<Seq<char>, BundleEntry>::empty(),
            r.next_id() == 0,
    {
        BundleIndex { entries: Vec::new(), next_bundle_id: 0 }
    }

    /// An index from stored records; a later record overrides an earlier
    /// one with the same id.
    pub fn from_parts(entries: Vec<(String, BundleEntry)>, next_bundle_id: u32) -> (r: BundleIndex)
        ensures
            r@ == index_map(entries@),
            r.next_id() == next_bundle_id,
    {
        BundleIndex { entries, next_bundle_id }
    }

    /// The records, in the order in which they were added; `index_map` of
    /// them is this index.
    pub fn entries(&self) -> (r: &Vec<(String, BundleEntry)>)
        ensures
            index_map(r@) == self@,
    {
        &self.entries
    }

    /// The number the next bundle gets.
    pub fn next_bundle_id(&self) -> (r: u32)
        ensures
            r == self.next_id(),
    {
        self.next_bundle_id
    }

    /// The location of `external_id`, if the index has it.
    pub fn get(&self, external_id: &str) -> (r: Option<BundleEntry>)
        ensures
            r == self@.get(external_id@),
    {
        let key = String::from_str(external_id);
        let mut i = self.entries.len();
        while i > 0
            invariant
                i <= self.entries@.len(),
                key@ == external_id@,
                absent_after(self.entries@, i as int, key@),
            decreases i,
        {
            i -= 1;
            if self.entries[i].0 == key {
                proof {
                    let s = self.entries@;
                    lemma_index_map_prefix(s, i + 1, key@);
                    assert(s.take(i + 1).drop_last() =~= s.take(i as int));
                }
                return Some(self.entries[i].1);
            }
        }
        proof {
            lemma_index_map_prefix(self.entries@, 0, key@);
            assert(self.entries@.take(0) =~= Seq::<(String, BundleEntry)>::empty());
        }
        None
    }

    /// Whether the index has `external_id`.
    pub fn contains(&self, external_id: &str) -> (b: bool)
        ensures
            b == self@.dom().contains(external_id@),
    {
        self.get(external_id).is_some()
    }

    /// Records the location of `external_id`, replacing any earlier one.
    pub fn insert(&mut self, external_id: String, entry: BundleEntry)
        ensures
            final(self)@ == old(self)@.insert(external_id@, entry),
            final(self).next_id() == old(self).next_id(),
    {
        let ghost before = self.entries@;
        self.entries.push((external_id, entry));
        proof {
            assert(self.entries@.drop_last() =~= before);
        }
    }
}

// ── Reading ──────────────────────────────────────────────────────────

/// `compressed` is the zstd frame of some bytes whose range `entry` points
/// into holds exactly `content`.
pub open spec fn reads_back(entry: BundleEntry, compressed: Seq<u8>, content: Seq<u8>) -> bool {
    exists|raw: Seq<u8>|
        #[trigger] zstd_frame(raw) == compressed && entry.offset + entry.length <= raw.len()
            && raw.subrange(entry.offset as int, entry.offset + entry.length) == content
}

fn copy_range(data: &Vec<u8>, from: usize, to: usize) -> (r: Vec<u8>)
    requires
        from <= to <= data@.len(),
    ensures
        r@ == data@.subrange(from as int, to as int),
{
    let mut r: Vec<u8> = Vec::new();
    let mut i = from;
    while i < to
        invariant
            from <= i <= to <= data@.len(),
            r@ == data@.subrange(from as int, i as int),
        decreases to - i,
    {
        r.push(data[i]);
        assert(data@.subrange(from as int, i + 1) =~= data@.subrange(from as int, i as int).push(
            data@[i as int],
        ));
        i += 1;
    }
    r
}

/// A storage error whose text is `prefix` followed by `detail`.
fn storage_with(prefix: &str, detail: &str) -> (e: Error)
    ensures
        e matches Error::Storage(m) && m@ == prefix@ + detail@,
{
    let mut m = String::from_str(prefix);
    m.append(detail);
    Error::Storage(m)
}

/// `"zstd decompress: "`
pub open spec fn decompress_prefix() -> Seq<char> {
    "zstd decompress: "@
}

/// `"bundle entry out of bounds"`
pub open spec fn out_of_bounds_text() -> Seq<char> {
    "bundle entry out of bounds"@
}

// ── Batches ──────────────────────────────────────────────────────────

/// The contents of documents `lo..hi`, one after another.
pub open spec fn concat_contents(docs: Seq<(String, Vec<u8>)>, lo: int, hi: int) -> Seq<u8>
    decreases hi - lo,
{
    if hi <= lo {
        seq![]
    } else {
        concat_contents(docs, lo, hi - 1) + docs[hi - 1].1@
    }
}

/// The total length of the contents of the first `n` documents.
pub open spec fn total_len(docs: Seq<(String, Vec<u8>)>, n: int) -> int
    decreases n,
{
    if n <= 0 {
        0
    } else {
        total_len(docs, n - 1) + docs[n - 1].1@.len()
    }
}

/// How many bundles `n` documents fill.
pub open spec fn bundle_count(n: int) -> int {
    (n + BUNDLE_TARGET_SIZE - 1) / (BUNDLE_TARGET_SIZE as int)
}

/// One past the last document of bundle `b` (counted from the batch's first).
pub open spec fn bundle_end(b: int, n: int) -> int {
    if (b + 1) * BUNDLE_TARGET_SIZE < n {
        (b + 1) * BUNDLE_TARGET_SIZE
    } else {
        n
    }
}

/// The decompressed data of bundle `b` of a batch.
pub open spec fn bundle_raw(docs: Seq<(String, Vec<u8>)>, b: int) -> Seq<u8> {
    concat_contents(docs, b * BUNDLE_TARGET_SIZE, bundle_end(b, docs.len() as int))
}

/// Where document `k` of a batch goes, when the batch's first bundle is
/// numbered `first`.
pub open spec fn planned_entry(docs: Seq<(String, Vec<u8>)>, first: int, k: int) -> BundleEntry {
    let b = k / (BUNDLE_TARGET_SIZE as int);
    BundleEntry {
        bundle_id: (first + b) as u32,
        offset: concat_contents(docs, b * BUNDLE_TARGET_SIZE, k).len() as usize,
        length: docs[k].1@.len() as usize,
    }
}

/// `m` after recording the first `n` documents of a batch, in order.
pub open spec fn index_after(
    m: Map<Seq<char>, BundleEntry>,
    docs: Seq<(String, Vec<u8>)>,
    first: int,
    n: int,
) -> Map<Seq<char>, BundleEntry>
    decreases n,
{
    if n <= 0 {
        m
    } else {
        index_after(m, docs, first, n - 1).insert(docs[n - 1].0@, planned_entry(docs, first, n - 1))
    }
}

/// The position of the last of the first `n` documents named `id`, or -1.
pub open spec fn last_index(docs: Seq<(String, Vec<u8>)>, id: Seq<char>, n: int) -> int
    decreases n,
{
    if n <= 0 {
        -1
    } else if docs[n - 1].0@ == id {
        n - 1
    } else {
        last_index(docs, id, n - 1)
    }
}

/// The total length of the data of the first `n` bundle files.
pub open spec fn files_len(files: Seq<BundleFile>, n: int) -> int
    decreases n,
{
    if n <= 0 {
        0
    } else {
        files_len(files, n - 1) + files[n - 1].data@.len()
    }
}

/// The bundles of a batch: numbered from `first`, each the zstd frame of
/// its documents.
pub open spec fn bundles_of(
    files: Seq<BundleFile>,
    docs: Seq<(String, Vec<u8>)>,
    first: int,
) -> bool {
    &&& files.len() == bundle_count(docs.len() as int)
    &&& forall|b: int|
        0 <= b < files.len() ==> #[trigger] files[b].bundle_id == first + b
            && files[b].data@ == zstd_frame(bundle_raw(docs, b))
}

proof fn lemma_concat_len(docs: Seq<(String, Vec<u8>)>, lo: int, hi: int)
    requires
        0 <= lo <= hi <= docs.len(),
    ensures
        concat_contents(docs, lo, hi).len() == total_len(docs, hi) - total_len(docs, lo),
    decreases hi - lo,
{
    if hi > lo {
        lemma_concat_len(docs, lo, hi - 1);
    }
}

proof fn lemma_total_len_mono(docs: Seq<(String, Vec<u8>)>, i: int, j: int)
    requires
        0 <= i <= j <= docs.len(),
    ensures
        total_len(docs, i) <= total_len(docs, j),
    decreases j - i,
{
    if j > i {
        lemma_total_len_mono(docs, i, j - 1);
    }
}

/// Document `k` sits in the concatenation right after the documents before it.
proof fn lemma_concat_split(docs: Seq<(String, Vec<u8>)>, lo: int, k: int, hi: int)
    requires
        lo <= k < hi,
    ensures
        concat_contents(docs, lo, hi).subrange(
            concat_contents(docs, lo, k).len() as int,
            (concat_contents(docs, lo, k).len() + docs[k].1@.len()) as int,
        ) == docs[k].1@,
        concat_contents(docs, lo, k).len() + docs[k].1@.len() <= concat_contents(docs, lo, hi).len(),
    decreases hi - k,
{
    if hi == k + 1 {
        assert(concat_contents(docs, lo, hi) == concat_contents(docs, lo, k) + docs[k].1@);
        assert(concat_contents(docs, lo, hi).subrange(
            concat_contents(docs, lo, k).len() as int,
            (concat_contents(docs, lo, k).len() + docs[k].1@.len()) as int,
        ) =~= docs[k].1@);
    } else {
        lemma_concat_split(docs, lo, k, hi - 1);
        let a = concat_contents(docs, lo, hi - 1);
        assert(concat_contents(docs, lo, hi) == a + docs[hi - 1].1@);
        assert(concat_contents(docs, lo, hi).subrange(
            concat_contents(docs, lo, k).len() as int,
            (concat_contents(docs, lo, k).len() + docs[k].1@.len()) as int,
        ) =~= a.subrange(
            concat_contents(docs, lo, k).len() as int,
            (concat_contents(docs, lo, k).len() + docs[k].1@.len()) as int,
        ));
    }
}

/// After a batch, an id of the batch maps to where its last document went;
/// any other id keeps its earlier location.
proof fn lemma_index_after_lookup(
    m: Map<Seq<char>, BundleEntry>,
    docs: Seq<(String, Vec<u8>)>,
    first: int,
    n: int,
    id: Seq<char>,
)
    requires
        0 <= n <= docs.len(),
    ensures
        last_index(docs, id, n) >= 0 ==> index_after(m, docs, first, n).dom().contains(id)
            && index_after(m, docs, first, n)[id] == planned_entry(docs, first, last_index(docs, id, n)),
        last_index(docs, id, n) < 0 ==> index_after(m, docs, first, n).get(id) == m.get(id),
        -1 <= last_index(docs, id, n) < n,
        last_index(docs, id, n) >= 0 ==> docs[last_index(docs, id, n)].0@ == id,
        (exists|k: int| 0 <= k < n && #[trigger] docs[k].0@ == id) ==> last_index(docs, id, n) >= 0,
    decreases n,
{
    if n > 0 {
        lemma_index_after_lookup(m, docs, first, n - 1, id);
        if docs[n - 1].0@ != id {
            if exists|k: int| 0 <= k < n && #[trigger] docs[k].0@ == id {
                let k = choose|k: int| 0 <= k < n && #[trigger] docs[k].0@ == id;
                assert(k < n - 1);
            }
        }
    }
}

proof fn lemma_files_len_prefix(files: Seq<BundleFile>, before: Seq<BundleFile>, b: int)
    requires
        before.len() == b,
        files.len() == b + 1,
        forall|i: int| 0 <= i < b ==> #[trigger] files[i] == before[i],
    ensures
        files_len(files, b) == files_len(before, b),
    decreases b,
{
    if b > 0 {
        lemma_files_len_prefix(files.drop_last(), before.drop_last(), b - 1);
        assert(files_len(files.drop_last(), b - 1) == files_len(files, b - 1)) by {
            lemma_files_len_same(files.drop_last(), files, b - 1);
        }
        assert(files_len(before.drop_last(), b - 1) == files_len(before, b - 1)) by {
            lemma_files_len_same(before.drop_last(), before, b - 1);
        }
    }
}

proof fn lemma_files_len_same(a: Seq<BundleFile>, c: Seq<BundleFile>, n: int)
    requires
        0 <= n <= a.len(),
        n <= c.len(),
        forall|i: int| 0 <= i < n ==> #[trigger] a[i] == c[i],
    ensures
        files_len(a, n) == files_len(c, n),
    decreases n,
{
    if n > 0 {
        lemma_files_len_same(a, c, n - 1);
    }
}

// ── Laws ─────────────────────────────────────────────────────────────

/// Read after write: once a batch is written, every document of the batch
/// is found in the index, its bundle is one of the batch's files, and
/// reading its range back from that file gives the content of the last
/// document of the batch with that id.
pub proof fn lemma_read_after_write(
    old_index: Map<Seq<char>, BundleEntry>,
    new_index: Map<Seq<char>, BundleEntry>,
    first: u32,
    docs: Seq<(String, Vec<u8>)>,
    files: Seq<BundleFile>,
    id: Seq<char>,
)
    requires
        total_len(docs, docs.len() as int) <= usize::MAX,
        first + bundle_count(docs.len() as int) <= u32::MAX + 1,
        new_index == index_after(old_index, docs, first as int, docs.len() as int),
        bundles_of(files, docs, first as int),
        exists|k: int| 0 <= k < docs.len() && #[trigger] docs[k].0@ == id,
    ensures
        new_index.dom().contains(id),
        first <= new_index[id].bundle_id < first + files.len(),
        reads_back(
            new_index[id],
            files[new_index[id].bundle_id - first].data@,
            docs[last_index(docs, id, docs.len() as int)].1@,
        ),
{
    let n = docs.len() as int;
    let t = BUNDLE_TARGET_SIZE as int;
    lemma_index_after_lookup(old_index, docs, first as int, n, id);
    let k = last_index(docs, id, n);
    let b = k / t;
    let lo = b * t;
    let hi = bundle_end(b, n);
    assert(lo <= k < hi);
    assert(b < files.len());
    lemma_concat_split(docs, lo, k, hi);
    lemma_concat_len(docs, 0, n);
    lemma_concat_len(docs, lo, k);
    lemma_total_len_mono(docs, lo, n);
    lemma_total_len_mono(docs, 0, lo);
    lemma_total_len_mono(docs, k, n);
    assert(docs[k].1@.len() <= total_len(docs, k + 1) - total_len(docs, k));
    lemma_total_len_mono(docs, k + 1, n);
    let e = planned_entry(docs, first as int, k);
    assert(e.offset == concat_contents(docs, lo, k).len());
    assert(e.length == docs[k].1@.len());
    assert(e.bundle_id == first + b);
    let raw = bundle_raw(docs, b);
    assert(files[b].bundle_id == first + b);
    assert(files[b].data@ == zstd_frame(raw));
    assert(zstd_frame(raw) == files[e.bundle_id - first].data@);
}

/// A batch leaves the location of every id it does not name unchanged.
pub proof fn lemma_write_keeps_others(
    old_index: Map<Seq<char>, BundleEntry>,
    new_index: Map<Seq<char>, BundleEntry>,
    first: u32,
    docs: Seq<(String, Vec<u8>)>,
    id: Seq<char>,
)
    requires
        new_index == index_after(old_index, docs, first as int, docs.len() as int),
        forall|k: int| 0 <= k < docs.len() ==> #[trigger] docs[k].0@ != id,
    ensures
        new_index.get(id) == old_index.get(id),
{
    lemma_index_after_lookup(old_index, docs, first as int, docs.len() as int, id);
}

// ── The store ────────────────────────────────────────────────────────

/// A compressed bundle to be written at `path`.
#[derive(Debug)]
pub struct BundleFile {
    pub bundle_id: u32,
    pub path: String,
    pub data: Vec<u8>,
}

/// What a batch write produced.
#[derive(Debug, Clone, Copy)]
pub struct WriteMetrics {
    pub documents: usize,
    pub bundles_created: u32,
    pub raw_bytes: u64,
    pub compressed_bytes: u64,
}

/// Bundle-based content store rooted at a directory.
#[derive(Debug, Clone)]
pub struct BundleContentStore {
    base_dir: String,
}

/// `<base>/<source>/bundles/<id, four digits>.zst`
pub open spec fn bundle_path_spec(base: Seq<char>, source: Seq<char>, id: nat) -> Seq<char> {
    path_join(
        path_join(path_join(base, source), "bundles"@),
        zero_pad(dec_digits(id), 4) + ".zst"@,
    )
}

impl BundleContentStore {
    /// The root directory.
    pub closed spec fn base(&self) -> Seq<char> {
        self.base_dir@
    }

    /// A store rooted at `base_dir`.
    pub fn new(base_dir: &str) -> (s: BundleContentStore)
        ensures
            s.base() == base_dir@,
    {
        BundleContentStore { base_dir: String::from_str(base_dir) }
    }

    /// `<base>/<source>`
    pub fn source_dir(&self, source_name: &str) -> (p: String)
        ensures
            p@ == path_join(self.base(), source_name@),
    {
        join_path(self.base_dir.as_str(), source_name)
    }

    /// `<base>/<source>/bundles`
    pub fn bundles_dir(&self, source_name: &str) -> (p: String)
        ensures
            p@ == path_join(path_join(self.base(), source_name@), "bundles"@),
    {
        let dir = self.source_dir(source_name);
        join_path(dir.as_str(), "bundles")
    }

    /// `<base>/<source>/bundle_index.json`
    pub fn index_path(&self, source_name: &str) -> (p: String)
        ensures
            p@ == path_join(path_join(self.base(), source_name@), "bundle_index.json"@),
    {
        let dir = self.source_dir(source_name);
        join_path(dir.as_str(), "bundle_index.json")
    }

    /// The file of bundle `bundle_id`.
    pub fn bundle_path(&self, source_name: &str, bundle_id: u32) -> (p: String)
        ensures
            p@ == bundle_path_spec(self.base(), source_name@, bundle_id as nat),
    {
        let dir = self.source_dir(source_name);
        let bundles = join_path(dir.as_str(), "bundles");
        let mut name = String::new();
        push_decimal(&mut name, bundle_id as u64, 4);
        name.append(".zst");
        proof {
            reveal_strlit(".zst");
        }
        join_path(bundles.as_str(), name.as_str())
    }

    /// Packs `documents` into bundles of up to `BUNDLE_TARGET_SIZE`,
    /// numbered from the index's next bundle id, and records where each
    /// document went. Returns the compressed files to write and the sizes.
    pub fn write_batch(
        &self,
        source_name: &str,
        index: &mut BundleIndex,
        documents: &[(String, Vec<u8>)],
    ) -> (r: Result<(Vec<BundleFile>, WriteMetrics), Error>)
        requires
            total_len(documents@, documents@.len() as int) <= usize::MAX,
            old(index).next_id() + bundle_count(documents@.len() as int) <= u32::MAX,
        ensures
            r matches Ok((files, m)) && {
                    &&& bundles_of(files@, documents@, old(index).next_id() as int)
                    &&& forall|b: int|
                        0 <= b < files@.len() ==> (#[trigger] files@[b]).path@ == bundle_path_spec(
                            self.base(),
                            source_name@,
                            (old(index).next_id() + b) as nat,
                        )
                    &&& final(index)@ == index_after(
                        old(index)@,
                        documents@,
                        old(index).next_id() as int,
                        documents@.len() as int,
                    )
                    &&& final(index).next_id() == old(index).next_id() + files@.len()
                    &&& m.documents == documents@.len()
                    &&& m.bundles_created == files@.len()
                    &&& m.raw_bytes == total_len(documents@, documents@.len() as int)
                    &&& m.compressed_bytes == if files_len(files@, files@.len() as int)
                        <= u64::MAX {
                        files_len(files@, files@.len() as int)
                    } else {
                        u64::MAX as int
                    }
                },
    {
        let n = documents.len();
        let first = index.next_bundle_id;
        let ghost docs = documents@;
        let ghost t = BUNDLE_TARGET_SIZE as int;
        let mut files: Vec<BundleFile> = Vec::new();
        let mut planned: Vec<(String, BundleEntry)> = Vec::new();
        let mut total_raw: u64 = 0;
        let mut total_compressed: u64 = 0;
        let mut start: usize = 0;
        while start < n
            invariant
                n == docs.len(),
                docs == documents@,
                t == BUNDLE_TARGET_SIZE,
                total_len(docs, n as int) <= usize::MAX,
                first + bundle_count(n as int) <= u32::MAX,
                first == old(index).next_id(),
                *index == *old(index),
                start <= n,
                start == n || start == files@.len() * t,
                files@.len() == bundle_count(start as int),
                forall|b: int|
                    0 <= b < files@.len() ==> #[trigger] files@[b].bundle_id == first + b
                        && files@[b].data@ == zstd_frame(bundle_raw(docs, b))
                        && files@[b].path@ == bundle_path_spec(
                        self.base(),
                        source_name@,
                        (first + b) as nat,
                    ),
                planned@.len() == start,
                forall|k: int|
                    0 <= k < start ==> (#[trigger] planned@[k]).0@ == docs[k].0@ && planned@[k].1
                        == planned_entry(docs, first as int, k),
                total_raw == total_len(docs, start as int),
                total_compressed == if files_len(files@, files@.len() as int) <= u64::MAX {
                    files_len(files@, files@.len() as int)
                } else {
                    u64::MAX as int
                },
            decreases n - start,
        {
            let end = if n - start > BUNDLE_TARGET_SIZE {
                start + BUNDLE_TARGET_SIZE
            } else {
                n
            };
            let ghost b = files@.len() as int;
            assert(start == b * t);
            assert(end == bundle_end(b, n as int));
            let bundle_id = first + files.len() as u32;
            let mut raw: Vec<u8> = Vec::new();
            let mut j = start;
            while j < end
                invariant
                    n == docs.len(),
                    docs == documents@,
                    t == BUNDLE_TARGET_SIZE,
                    total_len(docs, n as int) <= usize::MAX,
                    start <= j <= end <= n,
                    start == b * t,
                    end == bundle_end(b, n as int),
                    bundle_id == first + b,
                    raw@ == concat_contents(docs, start as int, j as int),
                    planned@.len() == j,
                    forall|k: int|
                        0 <= k < j ==> (#[trigger] planned@[k]).0@ == docs[k].0@ && planned@[k].1
                            == planned_entry(docs, first as int, k),
                decreases end - j,
            {
                proof {
                    lemma_concat_len(docs, start as int, j as int);
                    lemma_total_len_mono(docs, j as int + 1, n as int);
                    lemma_total_len_mono(docs, 0, start as int);
                    assert(j as int / t == b);
                }
                let offset = raw.len();
                let content = &documents[j].1;
                let mut q: usize = 0;
                while q < content.len()
                    invariant
                        q <= content@.len(),
                        raw@ == concat_contents(docs, start as int, j as int) + content@.take(
                            q as int,
                        ),
                        raw@.len() == offset + q,
                        offset + content@.len() <= usize::MAX,
                    decreases content.len() - q,
                {
                    raw.push(content[q]);
                    assert(content@.take(q + 1) =~= content@.take(q as int).push(content@[q as int]));
                    q += 1;
                }
                assert(content@.take(content@.len() as int) =~= content@);
                planned.push(
                    (documents[j].0.clone(), BundleEntry { bundle_id, offset, length: content.len() }),
                );
                j += 1;
            }
            proof {
                lemma_concat_len(docs, start as int, end as int);
                lemma_total_len_mono(docs, end as int, n as int);
            }
            total_raw = total_raw + raw.len() as u64;
            let compressed = match zstd_encode(raw.as_slice()) {
                Ok(c) => c,
                Err(e) => {
                    return Err(storage_with("zstd compress: ", e.as_str()));
                },
            };
            total_compressed = total_compressed.saturating_add(compressed.len() as u64);
            let path = self.bundle_path(source_name, bundle_id);
            let ghost before = files@;
            files.push(BundleFile { bundle_id, path, data: compressed });
            proof {
                assert(raw@ == bundle_raw(docs, b));
                assert(files@[b].bundle_id == first + b);
                assert forall|i: int| 0 <= i < b implies #[trigger] files@[i] == before[i] by {}
                assert(files@.drop_last() =~= before);
                assert(files_len(files@, files@.len() as int) == files_len(before, before.len() as int)
                    + files@[b].data@.len()) by {
                    assert(files@.subrange(0, b) =~= before.subrange(0, b));
                    lemma_files_len_prefix(files@, before, b);
                }
            }
            start = end;
        }
        let mut k: usize = 0;
        while k < planned.len()
            invariant
                n == docs.len(),
                docs == documents@,
                planned@.len() == n,
                k <= n,
                forall|i: int|
                    0 <= i < n ==> (#[trigger] planned@[i]).0@ == docs[i].0@ && planned@[i].1
                        == planned_entry(docs, first as int, i),
                index@ == index_after(old(index)@, docs, first as int, k as int),
                index.next_id() == first,
            decreases n - k,
        {
            index.insert(planned[k].0.clone(), planned[k].1);
            k += 1;
        }
        index.next_bundle_id = first + files.len() as u32;
        assert(start == n);
        assert(bundles_of(files@, documents@, first as int));
        let m = WriteMetrics {
            documents: n,
            bundles_created: files.len() as u32,
            raw_bytes: total_raw,
            compressed_bytes: total_compressed,
        };
        assert(forall|b: int|
            0 <= b < files@.len() ==> (#[trigger] files@[b]).path@ == bundle_path_spec(
                self.base(),
                source_name@,
                (first + b) as nat,
            )) by {
            assert forall|b: int| 0 <= b < files@.len() implies (#[trigger] files@[b]).path@
                == bundle_path_spec(self.base(), source_name@, (first + b) as nat) by {
                assert(files@[b].bundle_id == first + b);
            }
        }
        assert(index@ == index_after(old(index)@, documents@, first as int, n as int));
        assert(index.next_id() == first + files@.len());
        assert(m.raw_bytes == total_len(documents@, n as int));
        Ok((files, m))
    }

    /// A document's content, given the outcome of loading the source's index
    /// and the bytes of the bundle file at
    /// `bundle_path(source, entry.bundle_id)` for the document's entry
    /// (`None` when that file is missing): an index that failed to load
    /// gives its error, an unknown id gives `None`, and a known one what
    /// `read_entry` makes of its bundle.
    pub fn read_document(
        &self,
        loaded: Result<BundleIndex, Error>,
        external_id: &str,
        bundle: Option<&[u8]>,
    ) -> (r: Result<Option<Vec<u8>>, Error>)
        ensures
            loaded matches Err(e) ==> r == Err::<Option<Vec<u8>>, Error>(e),
            loaded matches Ok(idx) ==> if idx@.contains_key(external_id@) {
                let entry = idx@[external_id@];
                (match bundle {
                    None => r matches Ok(None),
                    Some(c) => (match zstd_decoded(c@) {
                        None => r matches Err(Error::Storage(m)) && m@.len() >= decompress_prefix().len()
                            && m@.subrange(0, decompress_prefix().len() as int) == decompress_prefix(),
                        Some(raw) => if entry.offset + entry.length > raw.len() {
                            r matches Err(Error::Storage(m)) && m@ == out_of_bounds_text()
                        } else {
                            r matches Ok(Some(v)) && v@ == raw.subrange(
                                entry.offset as int,
                                entry.offset + entry.length,
                            )
                        },
                    }) && forall|content: Seq<u8>| #[trigger]
                        reads_back(entry, c@, content) ==> (r matches Ok(Some(v)) && v@ == content),
                })
            } else {
                r matches Ok(None)
            },
    {
        match loaded {
            Err(e) => Err(e),
            Ok(idx) => match idx.get(external_id) {
                None => Ok(None),
                Some(entry) => Self::read_entry(entry, bundle),
            },
        }
    }

    /// Size of a source's bundles, given the sizes of its bundle files.
    pub fn source_size(&self, bundle_sizes: &[u64]) -> (r: u64)
        requires
            size_sum(bundle_sizes@, bundle_sizes@.len() as int) <= u64::MAX,
        ensures
            r == size_sum(bundle_sizes@, bundle_sizes@.len() as int),
    {
        dir_size(bundle_sizes)
    }

    /// Size of all sources, given each source's size.
    pub fn total_size(&self, source_sizes: &[u64]) -> (r: u64)
        requires
            size_sum(source_sizes@, source_sizes@.len() as int) <= u64::MAX,
        ensures
            r == size_sum(source_sizes@, source_sizes@.len() as int),
    {
        dir_size(source_sizes)
    }

    /// Whether a document exists, given the outcome of loading the
    /// source's index: an index that failed to load has nothing.
    pub fn document_exists(&self, loaded: &Result<BundleIndex, Error>, external_id: &str) -> (b: bool)
        ensures
            b == (loaded matches Ok(idx) && idx@.dom().contains(external_id@)),
    {
        match loaded {
            Ok(idx) => idx.contains(external_id),
            Err(_) => false,
        }
    }

    /// The content at `entry`, given the bytes of its bundle file (`None`
    /// when the file is missing).
    pub fn read_entry(entry: BundleEntry, compressed: Option<&[u8]>) -> (r: Result<Option<Vec<u8>>, Error>)
        ensures
            compressed is None ==> r matches Ok(None),
            compressed matches Some(c) ==> match zstd_decoded(c@) {
                None => r matches Err(Error::Storage(m)) && m@.len() >= decompress_prefix().len()
                    && m@.subrange(0, decompress_prefix().len() as int) == decompress_prefix(),
                Some(raw) => if entry.offset + entry.length > raw.len() {
                    r matches Err(Error::Storage(m)) && m@ == out_of_bounds_text()
                } else {
                    r matches Ok(Some(v)) && v@ == raw.subrange(
                        entry.offset as int,
                        entry.offset + entry.length,
                    )
                },
            },
            compressed matches Some(c) ==> forall|content: Seq<u8>| #[trigger]
                reads_back(entry, c@, content) ==> (r matches Ok(Some(v)) && v@ == content),
    {
        let c = match compressed {
            None => {
                return Ok(None);
            },
            Some(c) => c,
        };
        let decompressed = match zstd_decode(c) {
            Ok(d) => d,
            Err(e) => {
                proof {
                    reveal_strlit("zstd decompress: ");
                }
                let err = storage_with("zstd decompress: ", e.as_str());
                proof {
                    assert forall|content: Seq<u8>| #[trigger]
                        reads_back(entry, c@, content) implies false by {
                        let raw = choose|raw: Seq<u8>|
                            #[trigger] zstd_frame(raw) == c@ && entry.offset + entry.length
                                <= raw.len() && raw.subrange(
                                entry.offset as int,
                                entry.offset + entry.length,
                            ) == content;
                        assert(zstd_frame(raw) == c@);
                    }
                    if let Error::Storage(ref m) = err {
                        assert(m@.subrange(0, decompress_prefix().len() as int)
                            =~= decompress_prefix());
                    }
                }
                return Err(err);
            },
        };
        let len = decompressed.len();
        if entry.offset > len || entry.length > len - entry.offset {
            proof {
                reveal_strlit("bundle entry out of bounds");
                assert forall|content: Seq<u8>| #[trigger]
                    reads_back(entry, c@, content) implies false by {
                    let raw = choose|raw: Seq<u8>|
                        #[trigger] zstd_frame(raw) == c@ && entry.offset + entry.length
                            <= raw.len() && raw.subrange(
                            entry.offset as int,
                            entry.offset + entry.length,
                        ) == content;
                    assert(zstd_frame(raw) == c@);
                }
            }
            return Err(Error::Storage(String::from_str("bundle entry out of bounds")));
        }
        let v = copy_range(&decompressed, entry.offset, entry.offset + entry.length);
        proof {
            assert forall|content: Seq<u8>| #[trigger]
                reads_back(entry, c@, content) implies v@ == content by {
                let raw = choose|raw: Seq<u8>|
                    #[trigger] zstd_frame(raw) == c@ && entry.offset + entry.length <= raw.len()
                        && raw.subrange(entry.offset as int, entry.offset + entry.length)
                        == content;
                assert(zstd_frame(raw) == c@);
            }
        }
        Ok(Some(v))
    }
}

} // verus!
