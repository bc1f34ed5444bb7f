//! The file-based content store: where each source's files live, which
//! names a document is looked up under, and how sizes add up.
use vstd::prelude::*;
use crate::config::{join_path, path_join};
use crate::error::Error;
use crate::sources::candidate_filenames;
use crate::text::{starts_with, starts_with_exec, str_chars};
use crate::types::StorageLayer;

verus! {

/// A storage layer and how many bytes it holds.
#[derive(Debug, Clone, Copy)]
pub struct LayerStatus {
    pub layer: StorageLayer,
    pub size_bytes: u64,
}

/// Something that can report the size of each storage layer.
pub trait StorageStatus {
    fn layer_sizes(&self) -> Result<Vec<LayerStatus>, Error>;
}

/// The sum of the first `n` sizes.
pub open spec fn size_sum(sizes: Seq<u64>, n: int) -> int
    decreases n,
{
    if n <= 0 {
        0
    } else {
        size_sum(sizes, n - 1) + sizes[n - 1]
    }
}

/// The total of a directory's file sizes.
pub(crate) fn dir_size(sizes: &[u64]) -> (r: u64)
    requires
        size_sum(sizes@, sizes@.len() as int) <= u64::MAX,
    ensures
        r == size_sum(sizes@, sizes@.len() as int),
{
    let mut total: u64 = 0;
    let mut i: usize = 0;
    while i < sizes.len()
        invariant
            i <= sizes@.len(),
            total == size_sum(sizes@, i as int),
            size_sum(sizes@, sizes@.len() as int) <= u64::MAX,
        decreases sizes.len() - i,
    {
        proof {
            lemma_size_sum_mono(sizes@, i as int + 1, sizes@.len() as int);
        }
        total = total + sizes[i];
        i += 1;
    }
    total
}

proof fn lemma_size_sum_mono(sizes: Seq<u64>, i: int, j: int)
    requires
        0 <= i <= j <= sizes.len(),
    ensures
        size_sum(sizes, i) <= size_sum(sizes, j),
    decreases j - i,
{
    if i < j {
        lemma_size_sum_mono(sizes, i, j - 1);
    }
}

/// The total size of the first `n` files of a listing `(path, size)`.
pub open spec fn listing_sum(files: Seq<(String, u64)>, n: int) -> int
    decreases n,
{
    if n <= 0 {
        0
    } else {
        listing_sum(files, n - 1) + files[n - 1].1
    }
}

/// `path` lies under directory `dir`.
pub open spec fn under_dir(path: Seq<char>, dir: Seq<char>) -> bool {
    starts_with(path, dir + "/"@)
}

/// The total size of those among the first `n` files of a listing that
/// lie under `dir`.
pub open spec fn listing_sum_under(files: Seq<(String, u64)>, dir: Seq<char>, n: int) -> int
    decreases n,
{
    if n <= 0 {
        0
    } else {
        listing_sum_under(files, dir, n - 1) + if under_dir(files[n - 1].0@, dir) {
            files[n - 1].1 as int
        } else {
            0
        }
    }
}

proof fn lemma_listing_sums(files: Seq<(String, u64)>, dir: Seq<char>, i: int, j: int)
    requires
        0 <= i <= j <= files.len(),
    ensures
        0 <= listing_sum_under(files, dir, i) <= listing_sum(files, i),
        listing_sum(files, i) <= listing_sum(files, j),
        listing_sum_under(files, dir, j) - listing_sum_under(files, dir, i) <= listing_sum(files, j)
            - listing_sum(files, i),
    decreases j,
{
    if j > i {
        lemma_listing_sums(files, dir, i, j - 1);
    } else if i > 0 {
        lemma_listing_sums(files, dir, i - 1, i - 1);
    }
}

/// A source's size is at most the total: over any listing of the store's
/// files, the sizes of the files under one directory add up to no more
/// than the sizes of all of them.
pub proof fn lemma_source_size_within_total(files: Seq<(String, u64)>, dir: Seq<char>)
    ensures
        listing_sum_under(files, dir, files.len() as int) <= listing_sum(files, files.len() as int),
{
    lemma_listing_sums(files, dir, files.len() as int, files.len() as int);
}

/// File-based content store: each source has a directory of document files.
#[derive(Debug, Clone)]
pub struct FileContentStore {
    base_dir: String,
}

impl FileContentStore {
    /// The root directory.
    pub closed spec fn base(&self) -> Seq<char> {
        self.base_dir@
    }

    /// A store rooted at `base_dir`.
    pub fn new(base_dir: &str) -> (s: FileContentStore)
        ensures
            s.base() == base_dir@,
    {
        FileContentStore { base_dir: String::from_str(base_dir) }
    }

    /// `<base>/<source>`
    pub fn source_dir(&self, source_name: &str) -> (p: String)
        ensures
            p@ == path_join(self.base(), source_name@),
    {
        join_path(self.base_dir.as_str(), source_name)
    }

    /// `<base>/<source>/<filename>`
    pub fn file_path(&self, source_name: &str, filename: &str) -> (p: String)
        ensures
            p@ == path_join(path_join(self.base(), source_name@), filename@),
    {
        let dir = self.source_dir(source_name);
        join_path(dir.as_str(), filename)
    }

    /// The paths a document is looked up under, in order: with `.md`, with
    /// `.txt`, and as named.
    pub fn filename_paths(&self, source_name: &str, filename: &str) -> (r: Vec<String>)
        ensures
            r@.len() == 3,
            r@[0]@ == path_join(path_join(self.base(), source_name@), filename@ + ".md"@),
            r@[1]@ == path_join(path_join(self.base(), source_name@), filename@ + ".txt"@),
            r@[2]@ == path_join(path_join(self.base(), source_name@), filename@),
    {
        let names = candidate_filenames(filename);
        let mut r: Vec<String> = Vec::new();
        r.push(self.file_path(source_name, names[0].as_str()));
        r.push(self.file_path(source_name, names[1].as_str()));
        r.push(self.file_path(source_name, names[2].as_str()));
        r
    }

    /// Size of a source directory: given a listing `(path, size)` of the
    /// files under the root, at any depth, the sizes of those under
    /// `<base>/<source>` added up (0 when there are none).
    pub fn source_size(&self, listing: &[(String, u64)], source_name: &str) -> (r: u64)
        requires
            listing_sum(listing@, listing@.len() as int) <= u64::MAX,
        ensures
            r == listing_sum_under(listing@, path_join(self.base(), source_name@), listing@.len() as int),
    {
        let mut dir = self.source_dir(source_name);
        dir.append("/");
        let d = str_chars(dir.as_str());
        proof {
            reveal_strlit("/");
        }
        let ghost dv = path_join(self.base(), source_name@);
        let mut total: u64 = 0;
        let mut i: usize = 0;
        while i < listing.len()
            invariant
                i <= listing@.len(),
                d@ == dv + "/"@,
                total == listing_sum_under(listing@, dv, i as int),
                listing_sum(listing@, listing@.len() as int) <= u64::MAX,
            decreases listing.len() - i,
        {
            proof {
                lemma_listing_sums(listing@, dv, i as int, i + 1);
                lemma_listing_sums(listing@, dv, i + 1, listing@.len() as int);
            }
            let p = str_chars(listing[i].0.as_str());
            if starts_with_exec(p.as_slice(), d.as_slice()) {
                total = total + listing[i].1;
            }
            i += 1;
        }
        total
    }

    /// Size of all content: the sizes in a listing of every file under the
    /// root added up.
    pub fn total_size(&self, listing: &[(String, u64)]) -> (r: u64)
        requires
            listing_sum(listing@, listing@.len() as int) <= u64::MAX,
        ensures
            r == listing_sum(listing@, listing@.len() as int),
    {
        let mut total: u64 = 0;
        let mut i: usize = 0;
        while i < listing.len()
            invariant
                i <= listing@.len(),
                total == listing_sum(listing@, i as int),
                listing_sum(listing@, listing@.len() as int) <= u64::MAX,
            decreases listing.len() - i,
        {
            proof {
                lemma_listing_sums(listing@, seq![], i + 1, listing@.len() as int);
            }
            total = total + listing[i].1;
            i += 1;
        }
        total
    }
}

} // verus!
