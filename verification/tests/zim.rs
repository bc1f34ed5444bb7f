use lokb::error::Error;
use lokb::zim::{
    cluster_extent, cluster_pointer_span, decode_cluster, parse_mime_types, read_u64, select_blob, DirEntry,
    ZimArticle, ZimHeader,
};

/// A small ZIM archive: two HTML articles in one uncompressed cluster.
fn build_test_zim() -> Vec<u8> {
    let mime_types = b"text/html\0\0";
    let mime_pos: u64 = 80;
    let article1_html = b"<h1>Test Article</h1><p>This is a test article about Rust programming.</p>";
    let article2_html = b"<h1>Second Article</h1><p>Wikipedia is an online encyclopedia.</p>";

    let offsets_total = 3 * 4u32;
    let blob1_start = offsets_total;
    let blob2_start = blob1_start + article1_html.len() as u32;
    let blob2_end = blob2_start + article2_html.len() as u32;
    let mut cluster_data = vec![1u8];
    cluster_data.extend_from_slice(&blob1_start.to_le_bytes());
    cluster_data.extend_from_slice(&blob2_start.to_le_bytes());
    cluster_data.extend_from_slice(&blob2_end.to_le_bytes());
    cluster_data.extend_from_slice(article1_html);
    cluster_data.extend_from_slice(article2_html);
    let cluster_pos: u64 = mime_pos + mime_types.len() as u64;

    let entry1_pos = cluster_pos + cluster_data.len() as u64;
    let mut entry1 = Vec::new();
    entry1.extend_from_slice(&0u16.to_le_bytes());
    entry1.push(0);
    entry1.push(b'C');
    entry1.extend_from_slice(&0u32.to_le_bytes());
    entry1.extend_from_slice(&0u32.to_le_bytes());
    entry1.extend_from_slice(&0u32.to_le_bytes());
    entry1.extend_from_slice(b"Test_Article\0Test Article\0");

    let entry2_pos = entry1_pos + entry1.len() as u64;
    let mut entry2 = Vec::new();
    entry2.extend_from_slice(&0u16.to_le_bytes());
    entry2.push(0);
    entry2.push(b'C');
    entry2.extend_from_slice(&0u32.to_le_bytes());
    entry2.extend_from_slice(&0u32.to_le_bytes());
    entry2.extend_from_slice(&1u32.to_le_bytes());
    entry2.extend_from_slice(b"Second_Article\0Second Article\0");

    let url_ptr_pos = entry2_pos + entry2.len() as u64;
    let mut url_ptrs = Vec::new();
    url_ptrs.extend_from_slice(&entry1_pos.to_le_bytes());
    url_ptrs.extend_from_slice(&entry2_pos.to_le_bytes());
    let cluster_ptr_pos = url_ptr_pos + url_ptrs.len() as u64;
    let cluster_ptrs = cluster_pos.to_le_bytes();
    let checksum_pos = cluster_ptr_pos + cluster_ptrs.len() as u64;

    let mut header = vec![0u8; 80];
    header[0..4].copy_from_slice(&72173914u32.to_le_bytes());
    header[4..6].copy_from_slice(&6u16.to_le_bytes());
    header[24..28].copy_from_slice(&2u32.to_le_bytes());
    header[28..32].copy_from_slice(&1u32.to_le_bytes());
    header[32..40].copy_from_slice(&url_ptr_pos.to_le_bytes());
    header[40..48].copy_from_slice(&url_ptr_pos.to_le_bytes());
    header[48..56].copy_from_slice(&cluster_ptr_pos.to_le_bytes());
    header[56..64].copy_from_slice(&mime_pos.to_le_bytes());
    header[72..80].copy_from_slice(&checksum_pos.to_le_bytes());

    let mut buf = header;
    buf.extend_from_slice(mime_types);
    buf.extend_from_slice(&cluster_data);
    buf.extend_from_slice(&entry1);
    buf.extend_from_slice(&entry2);
    buf.extend_from_slice(&url_ptrs);
    buf.extend_from_slice(&cluster_ptrs);
    buf
}

/// An archive held in memory, read through the library's parsers.
struct MemZim {
    data: Vec<u8>,
    header: ZimHeader,
    mime_types: Vec<String>,
}

impl MemZim {
    fn open(data: Vec<u8>) -> Result<MemZim, Error> {
        if data.len() < 80 {
            return Err(Error::Storage("file too small".to_string()));
        }
        let header = ZimHeader::parse(&data[..80])?;
        let mime_types = parse_mime_types(&data[header.mime_list_pos as usize..])?;
        Ok(MemZim { data, header, mime_types })
    }

    fn get_entry(&self, index: u32) -> Result<DirEntry, Error> {
        let ptr = (self.header.path_ptr_pos + index as u64 * 8) as usize;
        let offset = read_u64(&self.data[ptr..ptr + 8], 0) as usize;
        let end = (offset + 512).min(self.data.len());
        DirEntry::parse(&self.data[offset..end], self.data.len() as u64)
    }

    fn cluster(&self, cluster: u32) -> Result<Vec<Vec<u8>>, Error> {
        let (pos, len) = cluster_pointer_span(&self.header, cluster)?;
        let ptrs = &self.data[pos as usize..pos as usize + len];
        let (start, size) = cluster_extent(&self.header, cluster, ptrs)?;
        decode_cluster(&self.data[start as usize..(start + size) as usize])
    }

    fn get_blob(&self, cluster: u32, blob: u32) -> Result<Vec<u8>, Error> {
        select_blob(&self.cluster(cluster)?, blob)
    }

    fn articles(&self) -> Vec<ZimArticle> {
        let mut out = Vec::new();
        for i in 0..self.header.entry_count {
            let entry = self.get_entry(i).unwrap();
            if let DirEntry::Content { cluster_number, .. } = &entry {
                let blobs = self.cluster(*cluster_number).unwrap();
                if let Some(a) = entry.article_from(&self.mime_types, &blobs) {
                    out.push(a);
                }
            }
        }
        out
    }
}

#[test]
fn test_read_test_zim() {
    let reader = MemZim::open(build_test_zim()).unwrap();
    assert_eq!(reader.header.entry_count, 2);
    assert_eq!(reader.header.cluster_count, 1);

    let entry0 = reader.get_entry(0).unwrap();
    assert!(entry0.is_article());
    assert_eq!(entry0.path(), "Test_Article");
    assert_eq!(entry0.title(), "Test Article");

    let entry1 = reader.get_entry(1).unwrap();
    assert!(entry1.is_article());
    assert_eq!(entry1.path(), "Second_Article");
    assert_eq!(entry1.title(), "Second Article");

    let html0 = String::from_utf8(reader.get_blob(0, 0).unwrap()).unwrap();
    assert!(html0.contains("<h1>Test Article</h1>"));
    assert!(html0.contains("Rust programming"));

    let html1 = String::from_utf8(reader.get_blob(0, 1).unwrap()).unwrap();
    assert!(html1.contains("Second Article"));
    assert!(html1.contains("encyclopedia"));
}

#[test]
fn test_articles_iterator() {
    let reader = MemZim::open(build_test_zim()).unwrap();
    let articles = reader.articles();
    assert_eq!(articles.len(), 2);
    assert_eq!(articles[0].title, "Test Article");
    assert!(articles[0].content.contains("Rust programming"));
    assert_eq!(articles[1].title, "Second Article");
    assert!(articles[1].content.contains("encyclopedia"));
}

#[test]
fn test_invalid_zim_rejected() {
    assert!(MemZim::open(b"this is not a ZIM file".to_vec()).is_err());
    let mut padded = b"this is not a ZIM file".to_vec();
    padded.resize(200, 0);
    assert!(MemZim::open(padded).is_err());
}

#[test]
fn test_out_of_bounds_cluster() {
    let reader = MemZim::open(build_test_zim()).unwrap();
    assert!(reader.get_blob(999, 0).is_err());
}

#[test]
fn test_out_of_bounds_blob() {
    let reader = MemZim::open(build_test_zim()).unwrap();
    assert!(reader.get_blob(0, 999).is_err());
}

#[test]
fn test_zim_cluster_holds_exactly_its_blobs() {
    let reader = MemZim::open(build_test_zim()).unwrap();
    assert_eq!(reader.cluster(0).unwrap().len(), 2);
    assert!(reader.get_blob(0, 2).is_err());
}

#[test]
fn stored_cluster_with_empty_table_has_no_blobs() {
    let mut cluster = vec![1u8];
    cluster.extend_from_slice(&4u32.to_le_bytes());
    assert_eq!(decode_cluster(&cluster).unwrap(), Vec::<Vec<u8>>::new());
}

#[test]
fn test_mime_list_of_test_zim() {
    let reader = MemZim::open(build_test_zim()).unwrap();
    assert_eq!(reader.mime_types, vec!["text/html".to_string()]);
}

fn blob_table(blobs: &[&[u8]]) -> Vec<u8> {
    let mut out = Vec::new();
    let mut offset = 4 * (blobs.len() as u32 + 1);
    out.extend_from_slice(&offset.to_le_bytes());
    for b in blobs {
        offset += b.len() as u32;
        out.extend_from_slice(&offset.to_le_bytes());
    }
    for b in blobs {
        out.extend_from_slice(b);
    }
    out
}

#[test]
fn compressed_clusters_decode_to_their_blobs() {
    let table = blob_table(&[b"alpha", b"beta"]);

    let mut zstd_cluster = vec![5u8];
    zstd_cluster.extend(zstd::encode_all(&table[..], 3).unwrap());
    // The offset table has one entry more than there are blobs: the last
    // entry is where the final blob ends.
    let blobs = decode_cluster(&zstd_cluster).unwrap();
    assert_eq!(blobs, vec![b"alpha".to_vec(), b"beta".to_vec()]);

    let mut xz = xz2::write::XzEncoder::new(Vec::new(), 6);
    std::io::Write::write_all(&mut xz, &table).unwrap();
    let mut xz_cluster = vec![4u8];
    xz_cluster.extend(xz.finish().unwrap());
    assert_eq!(decode_cluster(&xz_cluster).unwrap(), vec![b"alpha".to_vec(), b"beta".to_vec()]);
    assert_eq!(lokb::zim::decompress_xz(&xz_cluster[1..]).unwrap(), table);

    assert!(decode_cluster(&[]).is_err());
    let unknown = decode_cluster(&[3u8, 0, 0, 0, 0]).unwrap_err();
    assert_eq!(unknown.message(), "storage error: unsupported compression type: 3");
    assert!(lokb::zim::decompress_xz(b"not xz").is_err());
}
