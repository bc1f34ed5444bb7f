use lokb::bundle::{BundleContentStore, BundleFile, BundleIndex};
use lokb::error::Error;

fn batch(docs: &[(&str, &[u8])]) -> Vec<(String, Vec<u8>)> {
    docs.iter().map(|(n, c)| (n.to_string(), c.to_vec())).collect()
}

fn read_document(index: &BundleIndex, files: &[BundleFile], id: &str) -> Option<Vec<u8>> {
    let entry = index.get(id)?;
    let file = files.iter().find(|f| f.bundle_id == entry.bundle_id);
    BundleContentStore::read_entry(entry, file.map(|f| f.data.as_slice())).unwrap()
}

#[test]
fn test_write_and_read_bundle() {
    let store = BundleContentStore::new("/data");
    let mut index = BundleIndex::new();
    let docs = batch(&[
        ("doc1", b"Hello World".as_slice()),
        ("doc2", b"Rust Programming Language"),
        ("doc3", b"Knowledge Base"),
    ]);

    let (files, metrics) = store.write_batch("test-source", &mut index, &docs).unwrap();
    assert_eq!(metrics.documents, 3);
    assert_eq!(metrics.bundles_created, 1);
    let ratio = metrics.raw_bytes as f64 / metrics.compressed_bytes as f64;
    assert!(ratio > 0.0);

    let content = read_document(&index, &files, "doc1").unwrap();
    assert_eq!(content, b"Hello World");

    let content = read_document(&index, &files, "doc3").unwrap();
    assert_eq!(content, b"Knowledge Base");

    assert!(read_document(&index, &files, "nonexistent").is_none());
}

#[test]
fn test_multiple_bundles() {
    let store = BundleContentStore::new("/data");
    let mut index = BundleIndex::new();
    let mut docs: Vec<(String, Vec<u8>)> = Vec::new();
    for i in 0..2500 {
        docs.push((format!("doc_{i:04}"), format!("Content of document {i}").into_bytes()));
    }

    let (files, metrics) = store.write_batch("large", &mut index, &docs).unwrap();
    assert_eq!(metrics.documents, 2500);
    assert_eq!(metrics.bundles_created, 3);

    let c0 = read_document(&index, &files, "doc_0000").unwrap();
    assert_eq!(c0, b"Content of document 0");

    let c1500 = read_document(&index, &files, "doc_1500").unwrap();
    assert_eq!(c1500, b"Content of document 1500");

    let c2499 = read_document(&index, &files, "doc_2499").unwrap();
    assert_eq!(c2499, b"Content of document 2499");
}

#[test]
fn test_delete_source() {
    let store = BundleContentStore::new("/data");
    let mut index = BundleIndex::new();
    let docs = batch(&[("doc1", b"test".as_slice())]);
    store.write_batch("src", &mut index, &docs).unwrap();
    let loaded: Result<BundleIndex, Error> = Ok(index);
    assert!(store.document_exists(&loaded, "doc1"));

    // Once the source directory is gone its index no longer loads.
    let gone: Result<BundleIndex, Error> = Err(Error::Storage("no index".to_string()));
    assert!(!store.document_exists(&gone, "doc1"));
}

#[test]
fn bundle_paths_follow_layout() {
    let store = BundleContentStore::new("/data");
    assert_eq!(store.source_dir("wiki"), "/data/wiki");
    assert_eq!(store.index_path("wiki"), "/data/wiki/bundle_index.json");
    assert_eq!(store.bundle_path("wiki", 7), "/data/wiki/bundles/0007.zst");
}

#[test]
fn second_batch_continues_numbering_and_keeps_earlier_documents() {
    let store = BundleContentStore::new("/d");
    let mut index = BundleIndex::new();
    let (f1, _) = store.write_batch("s", &mut index, &batch(&[("a", b"alpha".as_slice())])).unwrap();
    assert_eq!(index.next_bundle_id(), 1);
    let (f2, m2) = store.write_batch("s", &mut index, &batch(&[("b", b"beta".as_slice())])).unwrap();
    assert_eq!(m2.bundles_created, 1);
    assert_eq!(f2[0].bundle_id, 1);
    assert_eq!(f2[0].path, "/d/s/bundles/0001.zst");
    let all: Vec<BundleFile> = f1.into_iter().chain(f2).collect();
    assert_eq!(read_document(&index, &all, "a").unwrap(), b"alpha");
    assert_eq!(read_document(&index, &all, "b").unwrap(), b"beta");
}

#[test]
fn rewriting_an_id_points_at_the_new_content() {
    let store = BundleContentStore::new("/d");
    let mut index = BundleIndex::new();
    let (f1, _) = store.write_batch("s", &mut index, &batch(&[("a", b"old".as_slice())])).unwrap();
    let (f2, _) = store.write_batch("s", &mut index, &batch(&[("a", b"new".as_slice())])).unwrap();
    let all: Vec<BundleFile> = f1.into_iter().chain(f2).collect();
    assert_eq!(read_document(&index, &all, "a").unwrap(), b"new");
}

#[test]
fn read_entry_reports_missing_bundle_and_bad_range() {
    let store = BundleContentStore::new("/d");
    let mut index = BundleIndex::new();
    let (files, _) = store.write_batch("s", &mut index, &batch(&[("a", b"abc".as_slice())])).unwrap();
    let mut entry = index.get("a").unwrap();
    assert_eq!(BundleContentStore::read_entry(entry, None).unwrap(), None);
    entry.length = 10;
    let err = BundleContentStore::read_entry(entry, Some(files[0].data.as_slice())).unwrap_err();
    assert!(matches!(err, Error::Storage(_)));
    let err = BundleContentStore::read_entry(entry, Some(b"not zstd".as_slice())).unwrap_err();
    assert!(err.message().starts_with("storage error: zstd decompress"));
}

#[test]
fn empty_batch_writes_nothing() {
    let store = BundleContentStore::new("/d");
    let mut index = BundleIndex::new();
    let (files, m) = store.write_batch("s", &mut index, &[]).unwrap();
    assert!(files.is_empty());
    assert_eq!(m.documents, 0);
    assert_eq!(m.raw_bytes, 0);
    assert_eq!(index.next_bundle_id(), 0);
}

#[test]
fn a_source_is_no_larger_than_the_store() {
    let store = lokb::content::FileContentStore::new("/data");
    let listing: Vec<(String, u64)> =
        [("/data/a/x", 10u64), ("/data/b/y", 3), ("/data/a/z/w", 7), ("/data/ab/v", 5)]
            .iter()
            .map(|(p, n)| (p.to_string(), *n))
            .collect();
    assert_eq!(store.source_size(&listing, "a"), 17);
    assert_eq!(store.total_size(&listing), 25);
    for name in ["a", "b", "ab", "c"] {
        assert!(store.source_size(&listing, name) <= store.total_size(&listing));
    }
}

#[test]
fn documents_are_read_through_the_loaded_index() {
    let store = BundleContentStore::new("/data");
    let mut index = BundleIndex::new();
    let docs = batch(&[("a", b"alpha".as_slice()), ("b", b"beta")]);
    let (files, _) = store.write_batch("s", &mut index, &docs).unwrap();
    let bytes = files[0].data.clone();
    let entries = index.entries().clone();
    let reload = || Ok(BundleIndex::from_parts(entries.clone(), 1));
    assert_eq!(store.read_document(reload(), "b", Some(&bytes)).unwrap(), Some(b"beta".to_vec()));
    assert_eq!(store.read_document(reload(), "a", Some(&bytes)).unwrap(), Some(b"alpha".to_vec()));
    assert_eq!(store.read_document(reload(), "zz", Some(&bytes)).unwrap(), None);
    assert_eq!(store.read_document(reload(), "a", None).unwrap(), None);
    let failed = store.read_document(Err(Error::Storage("bad index".to_string())), "a", Some(&bytes));
    assert_eq!(failed.unwrap_err().message(), "storage error: bad index");
    assert_eq!(store.source_size(&[100, 20, 3]), 123);
    assert_eq!(store.total_size(&[123, 7]), 130);
    assert_eq!(store.total_size(&[]), 0);
}
