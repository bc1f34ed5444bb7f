//! Core data model: sources, documents, chunks, privacy and content hashes.
use uuid::Uuid;
use vstd::prelude::*;

verus! {

#[verifier::external_type_specification]
#[verifier::external_body]
pub struct ExUuid(uuid::Uuid);

/// `Uuid`'s derived `Clone` (the type is `Copy`): the clone is the same value.
pub assume_specification[ <uuid::Uuid as Clone>::clone ](u: &uuid::Uuid) -> (r: uuid::Uuid)
    ensures
        r == *u,
;

/// `Uuid::now_v7`: a fresh time-ordered identifier; nothing is promised of
/// its value.
#[verifier::external_body]
pub fn new_id() -> Uuid {
    Uuid::now_v7()
}

/// `chrono::Utc::now().to_rfc3339()`: the current time; nothing is
/// promised of its value.
#[verifier::external_body]
pub fn now_rfc3339() -> String {
    chrono::Utc::now().to_rfc3339()
}

// ── DataSource ───────────────────────────────────────────────────────

/// Whether a source holds public or personal data.
#[derive(Debug, Clone)]
pub enum DataSourceClass {
    Public { license: Option<String>, web_url_template: Option<String> },
    Personal { owner: Option<String>, platform: Option<String>, contains_pii: bool },
}

impl DataSourceClass {
    pub fn is_public(&self) -> (b: bool)
        ensures
            b == (self is Public),
    {
        match self {
            DataSourceClass::Public { .. } => true,
            DataSourceClass::Personal { .. } => false,
        }
    }

    pub fn is_personal(&self) -> (b: bool)
        ensures
            b == (self is Personal),
    {
        match self {
            DataSourceClass::Public { .. } => false,
            DataSourceClass::Personal { .. } => true,
        }
    }

    /// Only public data may leave the machine on export.
    pub fn is_exportable(&self) -> (b: bool)
        ensures
            b == (self is Public),
    {
        self.is_public()
    }

    /// The class name shown to users: `"public"` or `"personal"`.
    pub fn label(&self) -> (res: String)
        ensures
            res@ == (if self is Public { "public"@ } else { "personal"@ }),
    {
        if self.is_public() {
            String::from_str("public")
        } else {
            String::from_str("personal")
        }
    }
}

/// A registered data source.
#[derive(Debug, Clone)]
pub struct DataSource {
    pub id: Uuid,
    pub name: String,
    pub class: DataSourceClass,
    pub format: String,
    pub sync_strategy: SyncStrategy,
    pub raw_retention: RawRetention,
    pub priority: u32,
    pub document_count: u64,
    /// RFC 3339 timestamp.
    pub created_at: String,
}

// ── Document ─────────────────────────────────────────────────────────

/// A document of a source; timestamps are RFC 3339 text.
#[derive(Debug, Clone)]
pub struct Document {
    pub id: Uuid,
    pub source_id: Uuid,
    pub external_id: String,
    pub parent_id: Option<Uuid>,
    pub depth: u8,
    pub title: String,
    pub content_type: ContentType,
    pub language: Option<String>,
    pub content_hash: ContentHash,
    pub content_size: u64,
    pub created_at: String,
    pub indexed_at: String,
    pub privacy_level: PrivacyLevel,
}

/// A searchable piece of a document.
#[derive(Debug, Clone)]
pub struct Chunk {
    pub id: Uuid,
    pub document_id: Uuid,
    pub source_id: Uuid,
    pub chunk_index: u32,
    pub text: String,
    pub byte_start: u64,
    pub byte_end: u64,
    pub section_path: Option<String>,
    pub content_type: ContentType,
    pub language: Option<String>,
    pub timestamp: Option<i64>,
    pub privacy_level: PrivacyLevel,
    pub entity_ids: Vec<Uuid>,
}

/// The kind of content a document holds.
#[derive(Debug, Clone, Copy, PartialEq, Eq, Structural)]
pub enum ContentType {
    Article,
    Book,
    Paper,
    Note,
    Webpage,
    CodeFile,
    Conversation,
    Thread,
    EmailThread,
    Email,
    MediaMeta,
    GpsTrackFile,
    GpsSegment,
    Record,
}

// ── Privacy ──────────────────────────────────────────────────────────

/// How private a piece of data is, from least to most.
#[derive(Debug, Clone, Copy, PartialEq, Eq, PartialOrd, Ord, Hash, Structural)]
pub enum PrivacyLevel {
    Public,
    Internal,
    Private,
    Secret,
}

/// The numeric level of a privacy class: 0 (public) to 3 (secret).
pub open spec fn privacy_rank(p: PrivacyLevel) -> u8 {
    match p {
        PrivacyLevel::Public => 0,
        PrivacyLevel::Internal => 1,
        PrivacyLevel::Private => 2,
        PrivacyLevel::Secret => 3,
    }
}

impl PrivacyLevel {
    /// The numeric level stored in indexes and the catalog.
    pub fn rank(&self) -> (r: u8)
        ensures
            r == privacy_rank(*self),
    {
        match self {
            PrivacyLevel::Public => 0,
            PrivacyLevel::Internal => 1,
            PrivacyLevel::Private => 2,
            PrivacyLevel::Secret => 3,
        }
    }
}

impl Default for PrivacyLevel {
    fn default() -> (p: PrivacyLevel)
        ensures
            p == PrivacyLevel::Public,
    {
        PrivacyLevel::Public
    }
}

// ── Content Hash ─────────────────────────────────────────────────────

/// A 32-byte content digest.
#[derive(Debug, Clone, PartialEq, Eq)]
pub struct ContentHash(pub [u8; 32]);

/// The lower-case hexadecimal digit for `n < 16`.
pub open spec fn hex_digit(n: u8) -> char {
    if n < 10 {
        (('0' as u8) + n) as char
    } else {
        (('a' as u8) + n - 10) as char
    }
}

/// Two lower-case hexadecimal digits per byte, high nibble first.
pub open spec fn hex_encode(bytes: Seq<u8>) -> Seq<char>
    decreases bytes.len(),
{
    if bytes.len() == 0 {
        seq![]
    } else {
        hex_encode(bytes.drop_last()) + seq![
            hex_digit(bytes.last() / 16),
            hex_digit(bytes.last() % 16),
        ]
    }
}

fn hex_digit_exec(n: u8) -> (c: char)
    requires
        n < 16,
    ensures
        c == hex_digit(n),
{
    if n < 10 {
        (48u8 + n) as char
    } else {
        (97u8 + n - 10) as char
    }
}

/// Lower-case hexadecimal encoding of a digest.
pub fn encode(bytes: [u8; 32]) -> (res: String)
    ensures
        res@ == hex_encode(bytes@),
{
    let mut res = String::new();
    let mut i: usize = 0;
    while i < 32
        invariant
            i <= 32,
            bytes@.len() == 32,
            res@ == hex_encode(bytes@.take(i as int)),
        decreases 32 - i,
    {
        let b = bytes[i];
        crate::text::string_push(&mut res, hex_digit_exec(b / 16));
        crate::text::string_push(&mut res, hex_digit_exec(b % 16));
        assert(bytes@.take(i + 1).drop_last() =~= bytes@.take(i as int));
        i += 1;
    }
    assert(bytes@.take(32) =~= bytes@);
    res
}

/// The BLAKE3 digest of `data`.
pub uninterp spec fn blake3_digest(data: Seq<u8>) -> Seq<u8>;

/// `blake3::hash`: the 32-byte BLAKE3 digest of `data`, a function of `data` alone.
#[verifier::external_body]
fn blake3_hash(data: &[u8]) -> (r: [u8; 32])
    ensures
        r@ == blake3_digest(data@),
{
    *blake3::hash(data).as_bytes()
}

impl ContentHash {
    /// The BLAKE3 digest of `data`.
    pub fn from_bytes(data: &[u8]) -> (h: ContentHash)
        ensures
            h.0@ == blake3_digest(data@),
    {
        ContentHash(blake3_hash(data))
    }

    /// The digest as 64 lower-case hexadecimal characters.
    pub fn hex(&self) -> (res: String)
        ensures
            res@ == hex_encode(self.0@),
            res@.len() == 64,
    {
        proof {
            lemma_hex_encode_len(self.0@);
        }
        encode(self.0)
    }
}

/// Hex encoding doubles the length.
pub proof fn lemma_hex_encode_len(bytes: Seq<u8>)
    ensures
        hex_encode(bytes).len() == 2 * bytes.len(),
    decreases bytes.len(),
{
    if bytes.len() > 0 {
        lemma_hex_encode_len(bytes.drop_last());
    }
}

// ── Sync & Retention ─────────────────────────────────────────────────

/// How a source is kept up to date.
#[derive(Debug, Clone)]
pub enum SyncStrategy {
    Once,
    Incremental { change_detection: ChangeMethod, deletion_policy: DeletionPolicy },
    FileWatch { debounce_secs: u64, change_detection: ChangeMethod },
    FullReload,
}

/// How changed documents are detected.
#[derive(Debug, Clone)]
pub enum ChangeMethod {
    ContentHash,
    FileModTime,
    ModTimeThenHash,
    IncrementalId { last_seen: String },
}

/// What happens to documents that vanish from the raw data.
#[derive(Debug, Clone)]
pub enum DeletionPolicy {
    Delete,
    SoftDelete,
    KeepAll,
}

/// What happens to raw data after optimization.
#[derive(Debug, Clone)]
pub enum RawRetention {
    DeleteAfterOptimize,
    Keep,
    ExternalReference(String),
    KeepVersions(u32),
}

impl Default for SyncStrategy {
    fn default() -> (s: SyncStrategy)
        ensures
            s is Once,
    {
        SyncStrategy::Once
    }
}

impl Default for ChangeMethod {
    fn default() -> (m: ChangeMethod)
        ensures
            m is ContentHash,
    {
        ChangeMethod::ContentHash
    }
}

impl Default for DeletionPolicy {
    fn default() -> (d: DeletionPolicy)
        ensures
            d is SoftDelete,
    {
        DeletionPolicy::SoftDelete
    }
}

impl Default for RawRetention {
    fn default() -> (r: RawRetention)
        ensures
            r is Keep,
    {
        RawRetention::Keep
    }
}

// ── Search ───────────────────────────────────────────────────────────

/// Restricts a search to one class of sources.
#[derive(Debug, Clone, Copy, PartialEq, Eq, Structural)]
pub enum ClassFilter {
    PublicOnly,
    PersonalOnly,
}

/// Whether an item at privacy level `p` passes the personal/public filters:
/// personal-only drops public items, public-only drops everything else.
pub open spec fn passes_privacy_filter(p: u64, personal_only: bool, public_only: bool) -> bool {
    !(personal_only && p == 0) && !(public_only && p > 0)
}

/// The privacy filter applied to search hits.
pub fn privacy_filter(p: u64, personal_only: bool, public_only: bool) -> (b: bool)
    ensures
        b == passes_privacy_filter(p, personal_only, public_only),
{
    if personal_only && p == 0 {
        return false;
    }
    if public_only && p > 0 {
        return false;
    }
    true
}

// ── Storage Layers ───────────────────────────────────────────────────

/// The four storage layers.
#[derive(Debug, Clone, Copy, PartialEq, Eq, Structural)]
pub enum StorageLayer {
    Raw,
    Source,
    Derived,
    Cache,
}

} // verus!
