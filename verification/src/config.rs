//! Layout of the data directory.
//!
//! The root directory itself comes from the environment (`LOKB_DATA_DIR`,
//! else `$HOME/.local/share/lokb`); the program resolves it and hands it in.
use vstd::prelude::*;

verus! {

/// `base` joined with the relative component `part`, as `Path::join` does:
/// a separator is inserted unless `base` is empty or already ends with one.
pub open spec fn path_join(base: Seq<char>, part: Seq<char>) -> Seq<char> {
    if base.len() == 0 {
        part
    } else if base.last() == '/' {
        base + part
    } else {
        base + seq!['/'] + part
    }
}

/// Joins a relative path component onto a base directory.
pub fn join_path(base: &str, part: &str) -> (res: String)
    ensures
        res@ == path_join(base@, part@),
{
    let mut res = String::from_str(base);
    if base.is_empty() {
        return String::from_str(part);
    }
    let n = base.unicode_len();
    let last = base.get_char(n - 1);
    if last != '/' {
        crate::text::string_push(&mut res, '/');
    }
    res.append(part);
    res
}

/// The default root: `<home>/.local/share/lokb`, or `./.local/share/lokb` without a home.
pub fn default_data_dir(home: Option<&str>) -> (res: String)
    ensures
        res@ == path_join(
            match home {
                Some(h) => h@,
                None => "."@,
            },
            ".local/share/lokb"@,
        ),
{
    match home {
        Some(h) => join_path(h, ".local/share/lokb"),
        None => join_path(".", ".local/share/lokb"),
    }
}

/// Source configuration directory.
pub fn sources_config_dir(data_dir: &str) -> (res: String)
    ensures
        res@ == path_join(data_dir@, "sources"@),
{
    join_path(data_dir, "sources")
}

/// Optimized source content directory.
pub fn source_content_dir(data_dir: &str) -> (res: String)
    ensures
        res@ == path_join(data_dir@, "source"@),
{
    join_path(data_dir, "source")
}

/// Derived data directory (catalog, indexes).
pub fn derived_dir(data_dir: &str) -> (res: String)
    ensures
        res@ == path_join(data_dir@, "derived"@),
{
    join_path(data_dir, "derived")
}

/// Cache directory.
pub fn cache_dir(data_dir: &str) -> (res: String)
    ensures
        res@ == path_join(data_dir@, "cache"@),
{
    join_path(data_dir, "cache")
}

/// Raw data directory.
pub fn raw_dir(data_dir: &str) -> (res: String)
    ensures
        res@ == path_join(data_dir@, "raw"@),
{
    join_path(data_dir, "raw")
}

/// Embedding models directory.
pub fn models_dir(data_dir: &str) -> (res: String)
    ensures
        res@ == path_join(data_dir@, "models"@),
{
    join_path(data_dir, "models")
}

/// The directories that `init_dirs` creates, in order.
pub fn init_dir_list(data_dir: &str) -> (res: Vec<String>)
    ensures
        res@.len() == 5,
        res@[0]@ == path_join(data_dir@, "sources"@),
        res@[1]@ == path_join(data_dir@, "source"@),
        res@[2]@ == path_join(data_dir@, "derived"@),
        res@[3]@ == path_join(data_dir@, "cache"@),
        res@[4]@ == path_join(data_dir@, "raw"@),
{
    let mut v: Vec<String> = Vec::new();
    v.push(sources_config_dir(data_dir));
    v.push(source_content_dir(data_dir));
    v.push(derived_dir(data_dir));
    v.push(cache_dir(data_dir));
    v.push(raw_dir(data_dir));
    v
}

/// The catalog database: `<derived>/catalog.sqlite`.
pub fn catalog_path(data_dir: &str) -> (res: String)
    ensures
        res@ == path_join(path_join(data_dir@, "derived"@), "catalog.sqlite"@),
{
    let d = derived_dir(data_dir);
    join_path(d.as_str(), "catalog.sqlite")
}

/// The full-text index: `<derived>/fts`.
pub fn fts_path(data_dir: &str) -> (res: String)
    ensures
        res@ == path_join(path_join(data_dir@, "derived"@), "fts"@),
{
    let d = derived_dir(data_dir);
    join_path(d.as_str(), "fts")
}

/// The vector index: `<derived>/vectors.json`.
pub fn vector_path(data_dir: &str) -> (res: String)
    ensures
        res@ == path_join(path_join(data_dir@, "derived"@), "vectors.json"@),
{
    let d = derived_dir(data_dir);
    join_path(d.as_str(), "vectors.json")
}

} // verus!
