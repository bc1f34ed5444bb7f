//! ZIM archive format (openzim.org): header, directory entries, MIME list
//! and cluster blobs.
//!
//! Everything here works on bytes already read from the archive; the reader
//! that seeks in the file hands those bytes in.
use std::io::Read;
use vstd::prelude::*;
use crate::error::{Error, storage_error, is_storage_error};

verus! {

/// The ZIM magic number (`0x44D495A`).
pub const ZIM_MAGIC: u32 = 72173914u32;

/// Largest size a decompressed cluster may reach (256 MiB).
pub const MAX_DECOMPRESSED_SIZE: usize = 268435456usize;

// ── Little-endian integers ───────────────────────────────────────────

/// The little-endian 16-bit value at `off`.
pub open spec fn le16(d: Seq<u8>, off: int) -> int {
    d[off] as int + 256 * (d[off + 1] as int)
}

/// The little-endian 32-bit value at `off`.
pub open spec fn le32(d: Seq<u8>, off: int) -> int {
    le16(d, off) + 65536 * le16(d, off + 2)
}

/// The little-endian 64-bit value at `off`.
pub open spec fn le64(d: Seq<u8>, off: int) -> int {
    le32(d, off) + 4294967296 * le32(d, off + 4)
}

pub fn read_u16(data: &[u8], offset: usize) -> (r: u16)
    requires
        offset + 2 <= data@.len(),
    ensures
        r == le16(data@, offset as int),
{
    (data[offset] as u16) + (data[offset + 1] as u16) * 256
}

pub fn read_u32(data: &[u8], offset: usize) -> (r: u32)
    requires
        offset + 4 <= data@.len(),
    ensures
        r == le32(data@, offset as int),
{
    let _n = data.len();
    (read_u16(data, offset) as u32) + (read_u16(data, offset + 2) as u32) * 65536
}

pub fn read_u64(data: &[u8], offset: usize) -> (r: u64)
    requires
        offset + 8 <= data@.len(),
    ensures
        r == le64(data@, offset as int),
{
    let _n = data.len();
    (read_u32(data, offset) as u64) + (read_u32(data, offset + 4) as u64) * 4294967296
}

// ── Lossy UTF-8 ──────────────────────────────────────────────────────

/// What `String::from_utf8_lossy` makes of `bytes`.
pub uninterp spec fn utf8_lossy(bytes: Seq<u8>) -> Seq<char>;

/// Decodes bytes as UTF-8, replacing invalid sequences (`String::from_utf8_lossy`).
///
/// States that the result is the named decoding of the bytes, and that valid
/// UTF-8 decodes to exactly its characters, as the documentation says.
#[verifier::external_body]
pub fn lossy_string(bytes: &[u8]) -> (res: String)
    ensures
        res@ == utf8_lossy(bytes@),
        vstd::utf8::valid_utf8(bytes@) ==> res@ == vstd::utf8::decode_utf8(bytes@),
{
    String::from_utf8_lossy(bytes).into_owned()
}

// ── Null-terminated strings ──────────────────────────────────────────

/// The position of the first zero byte of `d` at or after `from`, or `d.len()`.
pub open spec fn zero_at_or_end(d: Seq<u8>, from: int) -> int
    decreases d.len() - from,
{
    if from >= d.len() {
        d.len() as int
    } else if d[from] == 0 {
        from
    } else {
        zero_at_or_end(d, from + 1)
    }
}

proof fn lemma_zero_at_or_end(d: Seq<u8>, from: int, i: int)
    requires
        0 <= from <= i <= d.len(),
        forall|j: int| from <= j < i ==> d[j] != 0,
        i == d.len() || d[i] == 0,
    ensures
        zero_at_or_end(d, from) == i,
    decreases i - from,
{
    if from < i {
        lemma_zero_at_or_end(d, from + 1, i);
    }
}

fn scan_zero(d: &[u8], from: usize) -> (i: usize)
    requires
        from <= d@.len(),
    ensures
        i == zero_at_or_end(d@, from as int),
        from <= i <= d@.len(),
{
    let mut i = from;
    while i < d.len() && d[i] != 0
        invariant
            from <= i <= d@.len(),
            forall|j: int| from <= j < i ==> d@[j] != 0,
        decreases d.len() - i,
    {
        i += 1;
    }
    proof {
        lemma_zero_at_or_end(d@, from as int, i as int);
    }
    i
}

/// The path and title stored from `start` on: two zero-terminated strings.
/// A missing title (no byte after the path's terminator) is empty.
pub open spec fn path_title_at(d: Seq<u8>, start: int) -> (Seq<char>, Seq<char>) {
    if start >= d.len() {
        (seq![], seq![])
    } else {
        let path_end = zero_at_or_end(d, start);
        let path = utf8_lossy(d.subrange(start, path_end));
        let title_start = path_end + 1;
        if title_start >= d.len() {
            (path, seq![])
        } else {
            (path, utf8_lossy(d.subrange(title_start, zero_at_or_end(d, title_start))))
        }
    }
}

fn parse_path_title_at(d: &[u8], start: usize) -> (res: (String, String))
    requires
        start <= d@.len(),
    ensures
        (res.0@, res.1@) == path_title_at(d@, start as int),
{
    if start >= d.len() {
        return (String::new(), String::new());
    }
    let path_end = scan_zero(d, start);
    let path = lossy_string(&d[start..path_end]);
    if path_end >= d.len() - 1 {
        return (path, String::new());
    }
    let title_start = path_end + 1;
    let title_end = scan_zero(d, title_start);
    let title = lossy_string(&d[title_start..title_end]);
    (path, title)
}

/// Reads the zero-terminated path and title at the start of `data`.
pub fn parse_path_title(data: &[u8], _file_len: u64) -> (res: Result<(String, String), Error>)
    ensures
        res matches Ok((p, t)) && (p@, t@) == path_title_at(data@, 0),
{
    Ok(parse_path_title_at(data, 0))
}

// ── Header ───────────────────────────────────────────────────────────

/// The fixed 80-byte archive header.
#[derive(Debug)]
pub struct ZimHeader {
    pub magic: u32,
    pub major_version: u16,
    pub minor_version: u16,
    pub uuid: [u8; 16],
    pub entry_count: u32,
    pub cluster_count: u32,
    pub path_ptr_pos: u64,
    pub title_ptr_pos: u64,
    pub cluster_ptr_pos: u64,
    pub mime_list_pos: u64,
    pub main_page: u32,
    pub checksum_pos: u64,
}

/// `h` holds the fields stored in the first 80 bytes of `d`.
pub open spec fn header_fields(h: ZimHeader, d: Seq<u8>) -> bool {
    &&& h.magic == le32(d, 0)
    &&& h.major_version == le16(d, 4)
    &&& h.minor_version == le16(d, 6)
    &&& h.uuid@ == d.subrange(8, 24)
    &&& h.entry_count == le32(d, 24)
    &&& h.cluster_count == le32(d, 28)
    &&& h.path_ptr_pos == le64(d, 32)
    &&& h.title_ptr_pos == le64(d, 40)
    &&& h.cluster_ptr_pos == le64(d, 48)
    &&& h.mime_list_pos == le64(d, 56)
    &&& h.main_page == le32(d, 64)
    &&& h.checksum_pos == le64(d, 72)
}

/// The text of the bad-magic error for magic `m`.
pub open spec fn bad_magic_message(m: u32) -> Seq<char> {
    "invalid ZIM magic: 0x"@ + crate::text::hex_digits(m as nat) + ", expected 0x"@
        + crate::text::hex_digits(ZIM_MAGIC as nat)
}

impl ZimHeader {
    /// Parses the header, rejecting short input and a wrong magic number.
    pub fn parse(data: &[u8]) -> (res: Result<ZimHeader, Error>)
        ensures
            data@.len() < 80 ==> is_storage_error(res, "ZIM file too small for header"@),
            data@.len() >= 80 && le32(data@, 0) != ZIM_MAGIC ==> is_storage_error(
                res,
                bad_magic_message(le32(data@, 0) as u32),
            ),
            data@.len() >= 80 && le32(data@, 0) == ZIM_MAGIC ==> (res matches Ok(h)
                && header_fields(h, data@)),
    {
        if data.len() < 80 {
            return Err(storage_error("ZIM file too small for header"));
        }
        let magic = read_u32(data, 0);
        if magic != ZIM_MAGIC {
            let mut m = String::from_str("invalid ZIM magic: ");
            let found = crate::text::format_hex_prefixed(magic as u64);
            m.append(found.as_str());
            m.append(", expected ");
            let expected = crate::text::format_hex_prefixed(ZIM_MAGIC as u64);
            m.append(expected.as_str());
            proof {
                reveal_strlit("invalid ZIM magic: ");
                reveal_strlit(", expected ");
                reveal_strlit("0x");
                reveal_strlit("invalid ZIM magic: 0x");
                reveal_strlit(", expected 0x");
                assert(m@ =~= bad_magic_message(magic));
            }
            return Err(Error::Storage(m));
        }
        let mut uuid = [0u8; 16];
        let mut i: usize = 0;
        while i < 16
            invariant
                i <= 16,
                data@.len() >= 80,
                uuid@.len() == 16,
                forall|j: int| 0 <= j < i ==> uuid@[j] == data@[8 + j],
            decreases 16 - i,
        {
            uuid[i] = data[8 + i];
            i += 1;
        }
        assert(uuid@ =~= data@.subrange(8, 24));
        Ok(ZimHeader {
            magic,
            major_version: read_u16(data, 4),
            minor_version: read_u16(data, 6),
            uuid,
            entry_count: read_u32(data, 24),
            cluster_count: read_u32(data, 28),
            path_ptr_pos: read_u64(data, 32),
            title_ptr_pos: read_u64(data, 40),
            cluster_ptr_pos: read_u64(data, 48),
            mime_list_pos: read_u64(data, 56),
            main_page: read_u32(data, 64),
            checksum_pos: read_u64(data, 72),
        })
    }
}

// ── Directory Entry ──────────────────────────────────────────────────

/// A directory entry: either content stored in a cluster blob, or a redirect.
#[derive(Debug, Clone)]
pub enum DirEntry {
    Content {
        mime_type: u16,
        namespace: u8,
        cluster_number: u32,
        blob_number: u32,
        path: String,
        title: String,
    },
    Redirect { namespace: u8, target_index: u32, path: String, title: String },
}

/// The MIME index that marks a redirect entry.
pub const REDIRECT_MIME: u16 = 0xFFFFu16;

impl DirEntry {
    /// The entry's fields match the layout of `d`.
    pub open spec fn parsed_from(self, d: Seq<u8>) -> bool {
        match self {
            DirEntry::Content { mime_type, namespace, cluster_number, blob_number, path, title } => {
                &&& d.len() >= 16
                &&& le16(d, 0) != REDIRECT_MIME
                &&& mime_type == le16(d, 0)
                &&& namespace == d[3]
                &&& cluster_number == le32(d, 8)
                &&& blob_number == le32(d, 12)
                &&& (path@, title@) == path_title_at(d, 16)
            },
            DirEntry::Redirect { namespace, target_index, path, title } => {
                &&& d.len() >= 12
                &&& le16(d, 0) == REDIRECT_MIME
                &&& namespace == d[3]
                &&& target_index == le32(d, 8)
                &&& (path@, title@) == path_title_at(d, 12)
            },
        }
    }

    /// Parses one directory entry from the bytes that start at its offset.
    pub fn parse(data: &[u8], file_len: u64) -> (res: Result<DirEntry, Error>)
        ensures
            data@.len() < 4 ==> is_storage_error(res, "entry too small"@),
            data@.len() >= 4 && le16(data@, 0) == REDIRECT_MIME && data@.len() < 12
                ==> is_storage_error(res, "redirect entry too small"@),
            data@.len() >= 4 && le16(data@, 0) != REDIRECT_MIME && data@.len() < 16
                ==> is_storage_error(res, "content entry too small"@),
            data@.len() >= 4 && le16(data@, 0) == REDIRECT_MIME && data@.len() >= 12 ==> (res
                matches Ok(e) && e is Redirect && e.parsed_from(data@)),
            data@.len() >= 4 && le16(data@, 0) != REDIRECT_MIME && data@.len() >= 16 ==> (res
                matches Ok(e) && e is Content && e.parsed_from(data@)),
    {
        if data.len() < 4 {
            return Err(storage_error("entry too small"));
        }
        let mime_type = read_u16(data, 0);
        let namespace = data[3];
        if mime_type == REDIRECT_MIME {
            if data.len() < 12 {
                return Err(storage_error("redirect entry too small"));
            }
            let target_index = read_u32(data, 8);
            let (path, title) = parse_path_title_at(data, 12);
            Ok(DirEntry::Redirect { namespace, target_index, path, title })
        } else {
            if data.len() < 16 {
                return Err(storage_error("content entry too small"));
            }
            let cluster_number = read_u32(data, 8);
            let blob_number = read_u32(data, 12);
            let (path, title) = parse_path_title_at(data, 16);
            Ok(DirEntry::Content { mime_type, namespace, cluster_number, blob_number, path, title })
        }
    }

    /// The namespace byte of the entry.
    pub open spec fn spec_namespace(self) -> u8 {
        match self {
            DirEntry::Content { namespace, .. } => namespace,
            DirEntry::Redirect { namespace, .. } => namespace,
        }
    }

    /// The stored path of the entry.
    pub open spec fn spec_path(self) -> Seq<char> {
        match self {
            DirEntry::Content { path, .. } => path@,
            DirEntry::Redirect { path, .. } => path@,
        }
    }

    /// The title shown for the entry: its stored title, or its path when that is empty.
    pub open spec fn spec_title(self) -> Seq<char> {
        let t = match self {
            DirEntry::Content { title, .. } => title@,
            DirEntry::Redirect { title, .. } => title@,
        };
        if t.len() == 0 {
            self.spec_path()
        } else {
            t
        }
    }

    /// Content entry in namespace `C` or `A`.
    pub open spec fn spec_is_article(self) -> bool {
        self is Content && (self.spec_namespace() == 67 || self.spec_namespace() == 65)
    }

    pub fn namespace_char(&self) -> (c: char)
        ensures
            c as u32 == self.spec_namespace() as u32,
    {
        let ns = match self {
            DirEntry::Content { namespace, .. } => *namespace,
            DirEntry::Redirect { namespace, .. } => *namespace,
        };
        ns as char
    }

    pub fn path(&self) -> (p: &str)
        ensures
            p@ == self.spec_path(),
    {
        match self {
            DirEntry::Content { path, .. } => path.as_str(),
            DirEntry::Redirect { path, .. } => path.as_str(),
        }
    }

    pub fn title(&self) -> (t: &str)
        ensures
            t@ == self.spec_title(),
    {
        match self {
            DirEntry::Content { title, .. } => {
                if title.as_str().is_empty() {
                    self.path()
                } else {
                    title.as_str()
                }
            },
            DirEntry::Redirect { title, .. } => {
                if title.as_str().is_empty() {
                    self.path()
                } else {
                    title.as_str()
                }
            },
        }
    }

    pub fn is_content(&self) -> (b: bool)
        ensures
            b == (self is Content),
    {
        match self {
            DirEntry::Content { .. } => true,
            DirEntry::Redirect { .. } => false,
        }
    }

    pub fn is_article(&self) -> (b: bool)
        ensures
            b == self.spec_is_article(),
    {
        self.is_content() && (self.namespace_char() == 'C' || self.namespace_char() == 'A')
    }
}


// ── MIME types ───────────────────────────────────────────────────────

/// Most MIME types read from the list.
pub const MAX_MIME_TYPES: usize = 1024;

/// The MIME list stored from `pos` on, `count` types having been read so
/// far: zero-terminated strings up to an empty one, the end of the data, or
/// `MAX_MIME_TYPES` entries.
pub open spec fn mime_list(d: Seq<u8>, pos: int, count: int) -> Seq<Seq<char>>
    decreases d.len() + 1 - pos,
{
    if pos < 0 || pos >= d.len() || count >= MAX_MIME_TYPES {
        seq![]
    } else {
        let end = zero_at_or_end(d, pos);
        proof {
            lemma_zero_at_or_end_bounds(d, pos);
        }
        if end == pos {
            seq![]
        } else {
            seq![utf8_lossy(d.subrange(pos, end))] + mime_list(d, end + 1, count + 1)
        }
    }
}

/// The zero scan stops inside the data.
pub proof fn lemma_zero_at_or_end_bounds(d: Seq<u8>, from: int)
    requires
        0 <= from <= d.len(),
    ensures
        from <= zero_at_or_end(d, from) <= d.len(),
    decreases d.len() - from,
{
    if from < d.len() && d[from] != 0 {
        lemma_zero_at_or_end_bounds(d, from + 1);
    }
}

/// Reads the MIME type list from the bytes at its position in the archive.
pub fn parse_mime_types(data: &[u8]) -> (res: Result<Vec<String>, Error>)
    ensures
        res matches Ok(v) && v@.map_values(|s: String| s@) == mime_list(data@, 0, 0),
{
    let mut pos: usize = 0;
    let mut types: Vec<String> = Vec::new();
    while pos < data.len() && types.len() < MAX_MIME_TYPES
        invariant
            pos <= data@.len(),
            types@.len() <= MAX_MIME_TYPES,
            types@.map_values(|s: String| s@) + mime_list(data@, pos as int, types@.len() as int)
                == mime_list(data@, 0, 0),
        decreases data.len() - pos,
    {
        let end = scan_zero(data, pos);
        if end == pos {
            proof {
                assert(mime_list(data@, pos as int, types@.len() as int) =~= seq![]);
                assert(types@.map_values(|s: String| s@) + seq![] =~= types@.map_values(
                    |s: String| s@,
                ));
            }
            return Ok(types);
        }
        let mime = lossy_string(&data[pos..end]);
        let ghost before = types@;
        types.push(mime);
        proof {
            assert(data@.subrange(pos as int, end as int) =~= data@.subrange(
                pos as int,
                end as int,
            ));
            assert(types@.map_values(|s: String| s@) =~= before.map_values(|s: String| s@).push(
                mime@,
            ));
            assert(mime_list(data@, pos as int, before.len() as int) == seq![mime@] + mime_list(
                data@,
                end + 1,
                before.len() + 1int,
            ));
            assert(types@.map_values(|s: String| s@) + mime_list(
                data@,
                end + 1,
                types@.len() as int,
            ) =~= before.map_values(|s: String| s@) + (seq![mime@] + mime_list(
                data@,
                end + 1,
                before.len() + 1int,
            )));
        }
        if end >= data.len() {
            proof {
                assert(mime_list(data@, end + 1, types@.len() as int) =~= seq![]);
                assert(types@.map_values(|s: String| s@) + seq![] =~= types@.map_values(
                    |s: String| s@,
                ));
            }
            return Ok(types);
        }
        pos = end + 1;
    }
    proof {
        assert(mime_list(data@, pos as int, types@.len() as int) =~= seq![]);
        assert(types@.map_values(|s: String| s@) + seq![] =~= types@.map_values(|s: String| s@));
    }
    Ok(types)
}

// ── Decompression ────────────────────────────────────────────────────

/// What reading at most `cap` bytes from a zstd decoder over `data` gives,
/// or `None` when the decoder fails to start or to read.
pub uninterp spec fn zstd_stream_prefix(data: Seq<u8>, cap: nat) -> Option<Seq<u8>>;

/// What reading at most `cap` bytes from an xz decoder over `data` gives,
/// or `None` when reading fails.
pub uninterp spec fn xz_stream_prefix(data: Seq<u8>, cap: nat) -> Option<Seq<u8>>;

/// Why a decoder gave no data: it could not start, or reading failed. The
/// text is the decoder's own.
pub enum DecodeFailure {
    Init(String),
    Read(String),
}

/// `zstd::Decoder::new(data)`, then `take(cap).read_to_end(..)`: the result is
/// the named prefix of the decoded stream.
#[verifier::external_body]
fn zstd_read_capped(data: &[u8], cap: u64) -> (r: Result<Vec<u8>, DecodeFailure>)
    ensures
        match r {
            Ok(v) => zstd_stream_prefix(data@, cap as nat) == Some(v@),
            Err(_) => zstd_stream_prefix(data@, cap as nat) is None,
        },
{
    let decoder = zstd::Decoder::new(data).map_err(|e| DecodeFailure::Init(e.to_string()))?;
    let mut result = Vec::new();
    decoder.take(cap).read_to_end(&mut result).map_err(|e| DecodeFailure::Read(e.to_string()))?;
    Ok(result)
}

/// `xz2::read::XzDecoder::new(data)`, then `take(cap).read_to_end(..)`: the
/// result is the named prefix of the decoded stream.
#[verifier::external_body]
fn xz_read_capped(data: &[u8], cap: u64) -> (r: Result<Vec<u8>, String>)
    ensures
        match r {
            Ok(v) => xz_stream_prefix(data@, cap as nat) == Some(v@),
            Err(_) => xz_stream_prefix(data@, cap as nat) is None,
        },
{
    let decoder = xz2::read::XzDecoder::new(data);
    let mut result = Vec::new();
    decoder.take(cap).read_to_end(&mut result).map_err(|e| e.to_string())?;
    Ok(result)
}

/// A storage error whose text is `prefix` followed by `detail`.
fn storage_text(prefix: &str, detail: &str) -> (e: Error)
    ensures
        e matches Error::Storage(m) && m@ == prefix@ + detail@,
{
    let mut m = String::from_str(prefix);
    m.append(detail);
    Error::Storage(m)
}

/// Decompresses zstd data, keeping at most `MAX_DECOMPRESSED_SIZE` bytes.
pub fn decompress_zstd(data: &[u8]) -> (r: Result<Vec<u8>, Error>)
    ensures
        match zstd_stream_prefix(data@, MAX_DECOMPRESSED_SIZE as nat) {
            Some(v) => r matches Ok(w) && w@ == v,
            None => r matches Err(Error::Storage(_)),
        },
{
    match zstd_read_capped(data, MAX_DECOMPRESSED_SIZE as u64) {
        Ok(v) => Ok(v),
        Err(DecodeFailure::Init(e)) => Err(storage_text("zstd init failed: ", e.as_str())),
        Err(DecodeFailure::Read(e)) => Err(storage_text("zstd decompression failed: ", e.as_str())),
    }
}

/// Decompresses xz data, keeping at most `MAX_DECOMPRESSED_SIZE` bytes.
pub fn decompress_xz(data: &[u8]) -> (r: Result<Vec<u8>, Error>)
    ensures
        match xz_stream_prefix(data@, MAX_DECOMPRESSED_SIZE as nat) {
            Some(v) => r matches Ok(w) && w@ == v,
            None => r matches Err(Error::Storage(_)),
        },
{
    match xz_read_capped(data, MAX_DECOMPRESSED_SIZE as u64) {
        Ok(v) => Ok(v),
        Err(e) => Err(storage_text("XZ decompression failed: ", e.as_str())),
    }
}

// ── Clusters ─────────────────────────────────────────────────────────

/// The compression type in a cluster's first byte (its low four bits).
pub open spec fn compression_of(b: u8) -> u8 {
    b % 16
}

/// Whether a cluster uses 8-byte blob offsets (bit 4 of its first byte).
pub open spec fn extended_of(b: u8) -> bool {
    (b / 16) % 2 == 1
}

/// The blob offset stored at slot `i` of the offset table.
pub open spec fn blob_offset(d: Seq<u8>, extended: bool, i: int) -> int {
    if extended {
        le64(d, i * 8)
    } else {
        le32(d, i * 4)
    }
}

/// Size of one blob offset.
pub open spec fn offset_size(extended: bool) -> int {
    if extended {
        8
    } else {
        4
    }
}

/// The number of blobs a well-formed offset table announces: the table
/// holds one offset per blob and a last one where the final blob ends, and
/// the first offset is where the table ends.
pub open spec fn blob_count(d: Seq<u8>, extended: bool) -> int {
    blob_offset(d, extended, 0) / offset_size(extended) - 1
}

/// Blob `b` of decompressed cluster data `d`: from its offset to the next
/// one, empty when those bounds are out of order or range.
pub open spec fn blob_at(d: Seq<u8>, extended: bool, b: int) -> Seq<u8> {
    let start = blob_offset(d, extended, b);
    let end = blob_offset(d, extended, b + 1);
    if start <= end && end <= d.len() {
        d.subrange(start, end)
    } else {
        seq![]
    }
}

/// All blobs of decompressed cluster data.
pub open spec fn cluster_blobs(d: Seq<u8>, extended: bool) -> Seq<Seq<u8>> {
    Seq::new(blob_count(d, extended) as nat, |b: int| blob_at(d, extended, b))
}

fn read_offset(d: &[u8], extended: bool, i: usize) -> (r: u64)
    requires
        if extended {
            i * 8 + 8 <= d@.len()
        } else {
            i * 4 + 4 <= d@.len()
        },
    ensures
        r == blob_offset(d@, extended, i as int),
{
    let n = d.len();
    if extended {
        read_u64(d, i * 8)
    } else {
        read_u32(d, i * 4) as u64
    }
}

/// Splits decompressed cluster data into its blobs.
///
/// Requires the offset table to lie inside the data, as every slot of it is
/// read.
pub fn split_blobs(d: &[u8], extended: bool) -> (r: Result<Vec<Vec<u8>>, Error>)
    requires
        d@.len() >= offset_size(extended) && blob_offset(d@, extended, 0) > 0 && blob_offset(
            d@,
            extended,
            0,
        ) % offset_size(extended) == 0 ==> blob_offset(d@, extended, 0) <= d@.len(),
    ensures
        d@.len() < offset_size(extended) ==> is_storage_error(
            r,
            "cluster too small for blob offsets"@,
        ),
        d@.len() >= offset_size(extended) && (blob_offset(d@, extended, 0) == 0 || blob_offset(
            d@,
            extended,
            0,
        ) % offset_size(extended) != 0) ==> is_storage_error(r, "invalid first blob offset"@),
        d@.len() >= offset_size(extended) && blob_offset(d@, extended, 0) > 0 && blob_offset(
            d@,
            extended,
            0,
        ) % offset_size(extended) == 0 ==> (r matches Ok(v) && v@.map_values(|b: Vec<u8>| b@)
            == cluster_blobs(d@, extended)),
{
    let size: usize = if extended { 8 } else { 4 };
    if d.len() < size {
        return Err(storage_error("cluster too small for blob offsets"));
    }
    let first = read_offset(d, extended, 0);
    if first == 0 || first % (size as u64) != 0 {
        return Err(storage_error("invalid first blob offset"));
    }
    let count = (first / (size as u64) - 1) as usize;
    let len = d.len();
    let mut blobs: Vec<Vec<u8>> = Vec::new();
    let mut b: usize = 0;
    while b < count
        invariant
            len == d@.len(),
            size == offset_size(extended),
            first == blob_offset(d@, extended, 0),
            first <= len,
            count == blob_count(d@, extended),
            (count + 1) * size == first,
            b <= count,
            blobs@.len() == b,
            forall|i: int| 0 <= i < b ==> (#[trigger] blobs@[i])@ == blob_at(d@, extended, i),
        decreases count - b,
    {
        assert((b + 1) * size + size <= (count + 1) * size) by (nonlinear_arith)
            requires
                b < count,
                size > 0,
        ;
        let start = read_offset(d, extended, b);
        let end = read_offset(d, extended, b + 1);
        let blob = if start <= end && end <= len as u64 {
            let mut v: Vec<u8> = Vec::new();
            let mut i = start as usize;
            while i < end as usize
                invariant
                    start <= i <= end <= len,
                    len == d@.len(),
                    v@ == d@.subrange(start as int, i as int),
                decreases end - i,
            {
                v.push(d[i]);
                assert(d@.subrange(start as int, i + 1) =~= d@.subrange(start as int, i as int).push(
                    d@[i as int],
                ));
                i += 1;
            }
            v
        } else {
            Vec::new()
        };
        assert(blob@ == blob_at(d@, extended, b as int));
        blobs.push(blob);
        b += 1;
    }
    assert(blobs@.map_values(|b: Vec<u8>| b@) =~= cluster_blobs(d@, extended));
    Ok(blobs)
}

/// Decompressed cluster data, by compression type: 1 stored as is, 4 xz,
/// 5 zstd; `None` for another type.
pub open spec fn cluster_payload(c: Seq<u8>) -> Option<Option<Seq<u8>>> {
    let kind = compression_of(c[0]);
    let rest = c.subrange(1, c.len() as int);
    if kind == 1 {
        Some(Some(rest))
    } else if kind == 4 {
        Some(xz_stream_prefix(rest, MAX_DECOMPRESSED_SIZE as nat))
    } else if kind == 5 {
        Some(zstd_stream_prefix(rest, MAX_DECOMPRESSED_SIZE as nat))
    } else {
        None
    }
}

/// The offset table of `d` is well formed but runs past the end of `d`.
pub open spec fn offsets_overrun(d: Seq<u8>, extended: bool) -> bool {
    &&& d.len() >= offset_size(extended)
    &&& blob_offset(d, extended, 0) > 0
    &&& blob_offset(d, extended, 0) % offset_size(extended) == 0
    &&& blob_offset(d, extended, 0) > d.len()
}

/// Decompresses a cluster read from the archive and splits it into blobs.
///
/// Rejects empty data and unknown compression types, passes on decoder
/// failures, and rejects an offset table that runs past the decompressed
/// data (`"blob offset table exceeds cluster"`).
pub fn decode_cluster(c: &[u8]) -> (r: Result<Vec<Vec<u8>>, Error>)
    ensures
        c@.len() == 0 ==> is_storage_error(r, "empty cluster"@),
        c@.len() > 0 && cluster_payload(c@) is None ==> r matches Err(Error::Storage(_)),
        c@.len() > 0 && cluster_payload(c@) == Some(None::<Seq<u8>>) ==> r matches Err(
            Error::Storage(_),
        ),
        c@.len() > 0 ==> (cluster_payload(c@) matches Some(Some(d)) ==> {
            let ext = extended_of(c@[0]);
            if offsets_overrun(d, ext) {
                is_storage_error(r, "blob offset table exceeds cluster"@)
            } else if d.len() < offset_size(ext) {
                is_storage_error(r, "cluster too small for blob offsets"@)
            } else if blob_offset(d, ext, 0) == 0 || blob_offset(d, ext, 0) % offset_size(ext)
                != 0 {
                is_storage_error(r, "invalid first blob offset"@)
            } else {
                r matches Ok(v) && v@.map_values(|b: Vec<u8>| b@) == cluster_blobs(d, ext)
            }
        }),
{
    if c.len() == 0 {
        return Err(storage_error("empty cluster"));
    }
    let comp_byte = c[0];
    let compression = comp_byte & 0x0F;
    let extended = (comp_byte & 0x10) != 0;
    proof {
        assert(comp_byte & 0x0F == comp_byte % 16) by (bit_vector);
        assert(((comp_byte & 0x10) != 0) == ((comp_byte / 16) % 2 == 1)) by (bit_vector);
    }
    let rest = &c[1..c.len()];
    assert(rest@ == c@.subrange(1, c@.len() as int));
    let decompressed = if compression == 1 {
        let mut v: Vec<u8> = Vec::new();
        let mut i: usize = 0;
        while i < rest.len()
            invariant
                i <= rest@.len(),
                v@ == rest@.take(i as int),
            decreases rest.len() - i,
        {
            v.push(rest[i]);
            assert(rest@.take(i + 1) =~= rest@.take(i as int).push(rest@[i as int]));
            i += 1;
        }
        assert(rest@.take(rest@.len() as int) =~= rest@);
        v
    } else if compression == 4 {
        decompress_xz(rest)?
    } else if compression == 5 {
        decompress_zstd(rest)?
    } else {
        let n = crate::text::decimal_string(compression as u64);
        return Err(storage_text("unsupported compression type: ", n.as_str()));
    };
    let size: usize = if extended { 8 } else { 4 };
    if decompressed.len() >= size {
        let first = read_offset(decompressed.as_slice(), extended, 0);
        if first > 0 && first % (size as u64) == 0 && first > decompressed.len() as u64 {
            return Err(storage_error("blob offset table exceeds cluster"));
        }
    }
    split_blobs(decompressed.as_slice(), extended)
}

/// Where a cluster's pointer is stored, and how many bytes to read there:
/// the pointer and the next one, or just the pointer for the last cluster.
pub fn cluster_pointer_span(header: &ZimHeader, cluster_number: u32) -> (r: Result<(u64, usize), Error>)
    requires
        header.cluster_ptr_pos + 8 * header.cluster_count <= u64::MAX,
    ensures
        cluster_number >= header.cluster_count ==> r matches Err(Error::Storage(_)),
        cluster_number < header.cluster_count ==> (r matches Ok((pos, len)) && pos
            == header.cluster_ptr_pos + 8 * cluster_number && len == (if cluster_number + 1
            < header.cluster_count {
            16usize
        } else {
            8usize
        })),
{
    if cluster_number >= header.cluster_count {
        let n = crate::text::decimal_string(cluster_number as u64);
        let mut m = String::from_str("cluster ");
        m.append(n.as_str());
        m.append(" out of range");
        return Err(Error::Storage(m));
    }
    let pos = header.cluster_ptr_pos + (cluster_number as u64) * 8;
    if cluster_number + 1 < header.cluster_count {
        Ok((pos, 16))
    } else {
        Ok((pos, 8))
    }
}

/// The start and size of a cluster, from the pointer bytes read at
/// `cluster_pointer_span`: it ends at the next cluster, or at the checksum
/// for the last one. An empty cluster is an error.
pub fn cluster_extent(header: &ZimHeader, cluster_number: u32, ptrs: &[u8]) -> (r: Result<(u64, u64), Error>)
    requires
        cluster_number < header.cluster_count,
        ptrs@.len() >= (if cluster_number + 1 < header.cluster_count {
            16int
        } else {
            8int
        }),
    ensures
        ({
            let start = le64(ptrs@, 0);
            let end = if cluster_number + 1 < header.cluster_count {
                le64(ptrs@, 8)
            } else {
                header.checksum_pos as int
            };
            if end <= start {
                is_storage_error(r, "empty cluster"@)
            } else {
                r matches Ok((s, n)) && s == start && n == end - start
            }
        }),
{
    let start = read_u64(ptrs, 0);
    let end = if cluster_number + 1 < header.cluster_count {
        read_u64(ptrs, 8)
    } else {
        header.checksum_pos
    };
    if end <= start {
        return Err(storage_error("empty cluster"));
    }
    Ok((start, end - start))
}

/// Blob `blob_number` of a decompressed cluster.
pub fn select_blob(blobs: &Vec<Vec<u8>>, blob_number: u32) -> (r: Result<Vec<u8>, Error>)
    ensures
        blob_number < blobs@.len() ==> (r matches Ok(v) && v@ == blobs@[blob_number as int]@),
        blob_number >= blobs@.len() ==> r matches Err(Error::Storage(_)),
{
    let idx = blob_number as usize;
    if idx >= blobs.len() {
        let mut m = String::from_str("blob ");
        m.append(crate::text::decimal_string(blob_number as u64).as_str());
        m.append(" out of range (max ");
        m.append(crate::text::decimal_string(blobs.len() as u64).as_str());
        m.append(")");
        return Err(Error::Storage(m));
    }
    let src = &blobs[idx];
    let mut v: Vec<u8> = Vec::new();
    let mut i: usize = 0;
    while i < src.len()
        invariant
            i <= src@.len(),
            v@ == src@.take(i as int),
        decreases src.len() - i,
    {
        v.push(src[i]);
        assert(src@.take(i + 1) =~= src@.take(i as int).push(src@[i as int]));
        i += 1;
    }
    assert(src@.take(src@.len() as int) =~= src@);
    Ok(v)
}

// ── Articles ─────────────────────────────────────────────────────────

/// An article extracted from a ZIM file.
#[derive(Debug, Clone)]
pub struct ZimArticle {
    pub path: String,
    pub title: String,
    pub mime_type: String,
    pub content: String,
}

/// The MIME type with index `i`, or empty when the list has none.
pub open spec fn mime_at(types: Seq<String>, i: int) -> Seq<char> {
    if 0 <= i < types.len() {
        types[i]@
    } else {
        seq![]
    }
}

/// The MIME type with index `mime_type` in the archive's list, or empty.
pub fn mime_name(mime_types: &Vec<String>, mime_type: u16) -> (r: String)
    ensures
        r@ == mime_at(mime_types@, mime_type as int),
{
    let i = mime_type as usize;
    if i < mime_types.len() {
        mime_types[i].clone()
    } else {
        String::new()
    }
}

/// An HTML MIME type: it mentions `html`.
pub fn is_html_mime(mime: &str) -> (b: bool)
    ensures
        b == crate::text::contains(mime@, "html"@),
{
    let m = crate::text::str_chars(mime);
    let h = crate::text::str_chars("html");
    crate::text::contains_exec(m.as_slice(), h.as_slice())
}

/// An entry that is counted and read as an article: content in namespace
/// `C` or `A` whose MIME type is HTML.
pub open spec fn is_html_article(e: DirEntry, types: Seq<String>) -> bool {
    e.spec_is_article() && (e matches DirEntry::Content { mime_type, .. } && crate::text::contains(
        mime_at(types, mime_type as int),
        "html"@,
    ))
}

/// Articles live in two namespaces: `C` (byte 67) in current archives and
/// `A` (byte 65) in older ones. A content entry in either, and nothing else, is an article;
/// with an HTML MIME type it is an HTML article.
pub proof fn lemma_articles_in_both_namespaces(e: DirEntry, types: Seq<String>)
    ensures
        e.spec_is_article() <==> (e is Content && (e.spec_namespace() == 65 || e.spec_namespace()
            == 67)),
        e matches DirEntry::Content { mime_type, namespace, .. } ==> (is_html_article(e, types) <==> ((
        namespace == 65 || namespace == 67) && crate::text::contains(
            mime_at(types, mime_type as int),
            "html"@,
        ))),
        e is Redirect ==> !is_html_article(e, types),
{
}

impl DirEntry {
    /// Whether the entry is an HTML article of the archive.
    pub fn is_html_article(&self, mime_types: &Vec<String>) -> (b: bool)
        ensures
            b == is_html_article(*self, mime_types@),
    {
        if !self.is_article() {
            return false;
        }
        match self {
            DirEntry::Content { mime_type, .. } => {
                let mime = mime_name(mime_types, *mime_type);
                is_html_mime(mime.as_str())
            },
            DirEntry::Redirect { .. } => false,
        }
    }

    /// The article this entry yields from the blobs of its cluster: `None`
    /// for entries that are not HTML articles and for a blob number past
    /// the end of the cluster.
    pub fn article_from(&self, mime_types: &Vec<String>, blobs: &Vec<Vec<u8>>) -> (r: Option<ZimArticle>)
        ensures
            match *self {
                DirEntry::Content { blob_number, mime_type, .. } => if is_html_article(
                    *self,
                    mime_types@,
                ) && blob_number < blobs@.len() {
                    r matches Some(a) && a.path@ == self.spec_path() && a.title@ == self.spec_title()
                        && a.mime_type@ == mime_at(mime_types@, mime_type as int) && a.content@
                        == utf8_lossy(blobs@[blob_number as int]@)
                } else {
                    r is None
                },
                DirEntry::Redirect { .. } => r is None,
            },
    {
        if !self.is_html_article(mime_types) {
            return None;
        }
        match self {
            DirEntry::Content { blob_number, mime_type, .. } => {
                let idx = *blob_number as usize;
                if idx >= blobs.len() {
                    return None;
                }
                let content = lossy_string(blobs[idx].as_slice());
                Some(
                    ZimArticle {
                        path: String::from_str(self.path()),
                        title: String::from_str(self.title()),
                        mime_type: mime_name(mime_types, *mime_type),
                        content,
                    },
                )
            },
            DirEntry::Redirect { .. } => None,
        }
    }
}

} // verus!
