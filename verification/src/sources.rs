//! Source management: registering a source, deciding what an incremental
//! update changes, and the views of sources that the commands print.
//!
//! The catalog, the content files and the indexes live on disk; the program
//! reads them and hands the rows and contents in.
use vstd::prelude::*;
use vstd::string::StringSliceAdditionalSpecFns;
use uuid::Uuid;
use crate::error::Error;
use crate::text::{
    ends_with, ends_with_exec, lines, line_ranges, pieces, starts_with, str_chars,
    string_from_range, trim, trim_range,
};
use crate::types::{
    blake3_digest, new_id, now_rfc3339, ContentHash, ContentType, DataSource, DataSourceClass,
    Document, PrivacyLevel, RawRetention, SyncStrategy,
};

verus! {

// ── Text helpers ─────────────────────────────────────────────────────

/// The BLAKE3 digest of the UTF-8 bytes of `s`.
pub open spec fn text_hash(s: Seq<char>) -> Seq<u8> {
    blake3_digest(vstd::utf8::encode_utf8(s))
}

/// The content hash of a text.
pub fn hash_text(text: &str) -> (h: ContentHash)
    ensures
        h.0@ == text_hash(text@),
{
    ContentHash::from_bytes(text.as_bytes())
}

/// The title a `# ` heading line gives, if the line is one.
pub open spec fn heading_of(line: Seq<char>) -> Option<Seq<char>> {
    let t = trim(line);
    if starts_with(t, "# "@) {
        Some(t.subrange(2, t.len() as int))
    } else {
        None
    }
}

/// The title of the first `# ` heading among `ls`.
pub open spec fn first_heading(ls: Seq<Seq<char>>) -> Option<Seq<char>>
    decreases ls.len(),
{
    if ls.len() == 0 {
        None
    } else {
        match heading_of(ls[0]) {
            Some(h) => Some(h),
            None => first_heading(ls.drop_first()),
        }
    }
}

/// `s` with every trailing copy of `pat` removed (`str::trim_end_matches`).
pub open spec fn trim_suffix_all(s: Seq<char>, pat: Seq<char>) -> Seq<char>
    decreases s.len(),
{
    if pat.len() > 0 && ends_with(s, pat) {
        trim_suffix_all(s.subrange(0, s.len() - pat.len()), pat)
    } else {
        s
    }
}

/// `str::trim_end_matches` for a string pattern.
pub fn trim_suffix_all_exec(v: &[char], pat: &[char]) -> (n: usize)
    ensures
        n <= v@.len(),
        v@.subrange(0, n as int) == trim_suffix_all(v@, pat@),
{
    let mut n = v.len();
    assert(v@.subrange(0, n as int) =~= v@);
    if pat.len() == 0 {
        return n;
    }
    loop
        invariant
            n <= v@.len(),
            pat@.len() > 0,
            trim_suffix_all(v@.subrange(0, n as int), pat@) == trim_suffix_all(v@, pat@),
        decreases n,
    {
        let head = &v[0..n];
        assert(head@ == v@.subrange(0, n as int));
        if !ends_with_exec(head, pat) {
            return n;
        }
        assert(v@.subrange(0, n as int).subrange(0, n - pat@.len()) =~= v@.subrange(
            0,
            n - pat@.len(),
        ));
        n = n - pat.len();
    }
}

proof fn lemma_starts_hash_space(t: Seq<char>)
    requires
        t.len() >= 2,
    ensures
        starts_with(t, "# "@) <==> (t[0] == '#' && t[1] == ' '),
{
    reveal_strlit("# ");
    let p = "# "@;
    assert(p.len() == 2 && p[0] == '#' && p[1] == ' ');
    if t[0] == '#' && t[1] == ' ' {
        assert(t.subrange(0, 2) =~= p);
    }
    if starts_with(t, p) {
        assert(t.subrange(0, 2)[0] == t[0]);
        assert(t.subrange(0, 2)[1] == t[1]);
    }
}

/// Index of the first `# ` heading among the lines in `ranges`, from `from` on.
fn first_heading_from(v: &[char], ranges: &Vec<(usize, usize)>, from: usize) -> (r: Option<(usize, usize)>)
    requires
        from <= ranges@.len(),
        forall|i: int| 0 <= i < ranges@.len() ==> (#[trigger] ranges@[i]).0 <= ranges@[i].1 <= v@.len(),
    ensures
        match first_heading(pieces(v@, ranges@).subrange(from as int, ranges@.len() as int)) {
            Some(h) => r matches Some((a, b)) && a <= b <= v@.len() && v@.subrange(a as int, b as int) == h,
            None => r is None,
        },
    decreases ranges@.len() - from,
{
    if from == ranges.len() {
        assert(pieces(v@, ranges@).subrange(from as int, ranges@.len() as int) =~= seq![]);
        return None;
    }
    let (a, b) = ranges[from];
    let (ta, tb) = trim_range(v, a, b);
    let ghost rest = pieces(v@, ranges@).subrange(from as int, ranges@.len() as int);
    assert(rest[0] == v@.subrange(a as int, b as int));
    assert(rest.drop_first() =~= pieces(v@, ranges@).subrange(from + 1, ranges@.len() as int));
    let is_heading = tb - ta >= 2 && v[ta] == '#' && v[ta + 1] == ' ';
    proof {
        let t = v@.subrange(ta as int, tb as int);
        reveal_strlit("# ");
        if t.len() >= 2 {
            lemma_starts_hash_space(t);
            assert(t.subrange(2, t.len() as int) =~= v@.subrange(ta + 2, tb as int));
        }
    }
    if is_heading {
        return Some((ta + 2, tb));
    }
    first_heading_from(v, ranges, from + 1)
}

/// The text of the first `# ` heading of `content`.
pub fn first_heading_exec(content: &str) -> (r: Option<String>)
    ensures
        match first_heading(lines(content@)) {
            Some(h) => r matches Some(s) && s@ == h,
            None => r is None,
        },
{
    let v = str_chars(content);
    let ranges = line_ranges(v.as_slice());
    assert(pieces(v@, ranges@).subrange(0, ranges@.len() as int) =~= pieces(v@, ranges@));
    match first_heading_from(v.as_slice(), &ranges, 0) {
        Some((a, b)) => Some(string_from_range(v.as_slice(), a, b)),
        None => None,
    }
}

/// A document's title: its first `# ` heading, else the file name without
/// trailing `.md`, then without trailing `.txt`.
pub open spec fn doc_title(content: Seq<char>, filename: Seq<char>) -> Seq<char> {
    match first_heading(lines(content)) {
        Some(h) => h,
        None => trim_suffix_all(trim_suffix_all(filename, ".md"@), ".txt"@),
    }
}

/// The title of a stored document.
pub fn extract_doc_title(content: &str, filename: &str) -> (r: String)
    ensures
        r@ == doc_title(content@, filename@),
{
    if let Some(h) = first_heading_exec(content) {
        return h;
    }
    let f = str_chars(filename);
    let md = str_chars(".md");
    let txt = str_chars(".txt");
    let n1 = trim_suffix_all_exec(f.as_slice(), md.as_slice());
    let head = &f.as_slice()[0..n1];
    assert(head@ == f@.subrange(0, n1 as int));
    let n2 = trim_suffix_all_exec(head, txt.as_slice());
    assert(head@.subrange(0, n2 as int) =~= f@.subrange(0, n2 as int));
    string_from_range(f.as_slice(), 0, n2)
}

/// `name` with `/`, `\` and `:` replaced by `_`.
pub open spec fn sanitized(name: Seq<char>) -> Seq<char> {
    name.map_values(|c: char| if c == '/' || c == '\\' || c == ':' { '_' } else { c })
}

/// Makes an id safe to use as a file name.
pub fn sanitize_filename(name: &str) -> (r: String)
    ensures
        r@ == sanitized(name@),
{
    let v = str_chars(name);
    let mut out: Vec<char> = Vec::new();
    let mut i: usize = 0;
    while i < v.len()
        invariant
            i <= v@.len(),
            out@ == sanitized(v@.take(i as int)),
        decreases v.len() - i,
    {
        let c = v[i];
        out.push(if c == '/' || c == '\\' || c == ':' { '_' } else { c });
        assert(sanitized(v@.take(i + 1)) =~= sanitized(v@.take(i as int)).push(
            if c == '/' || c == '\\' || c == ':' { '_' } else { c },
        ));
        i += 1;
    }
    assert(v@.take(v@.len() as int) =~= v@);
    crate::text::string_from_chars(out.as_slice())
}

// ── Registering a source ─────────────────────────────────────────────

/// The class a class name stands for, with no details filled in.
pub open spec fn class_for(name: Seq<char>) -> Option<DataSourceClass> {
    if name == "public"@ {
        Some(DataSourceClass::Public { license: None, web_url_template: None })
    } else if name == "personal"@ {
        Some(DataSourceClass::Personal { owner: None, platform: None, contains_pii: true })
    } else {
        None
    }
}

/// The error for a class name other than `public` and `personal`.
pub open spec fn unknown_class_message(name: Seq<char>) -> Seq<char> {
    "unknown class: "@ + name + ". Use 'public' or 'personal'"@
}

/// Reads a class name given on the command line.
pub fn parse_class(class: &str) -> (r: Result<DataSourceClass, Error>)
    ensures
        match class_for(class@) {
            Some(c) => r matches Ok(d) && d == c,
            None => r matches Err(Error::InvalidInput(m)) && m@ == unknown_class_message(class@),
        },
{
    proof {
        reveal_strlit("public");
        reveal_strlit("personal");
    }
    let public = String::from_str("public");
    let personal = String::from_str("personal");
    let given = String::from_str(class);
    if given == public {
        Ok(DataSourceClass::Public { license: None, web_url_template: None })
    } else if given == personal {
        Ok(DataSourceClass::Personal { owner: None, platform: None, contains_pii: true })
    } else {
        let mut m = String::from_str("unknown class: ");
        m.append(class);
        m.append(". Use 'public' or 'personal'");
        Err(Error::InvalidInput(m))
    }
}

/// Priority of a new source: personal data ranks above public data.
pub open spec fn source_priority(class: Seq<char>) -> u32 {
    if class == "personal"@ {
        250
    } else {
        100
    }
}

/// The source record for `source add`, refused when a source of that name
/// is already registered or the class name is unknown (checked in that
/// order). The id is fresh and the creation time is now.
pub fn add_source(name: &str, format: &str, class: &str, already_registered: bool) -> (r: Result<DataSource, Error>)
    ensures
        already_registered ==> (r matches Err(Error::SourceAlreadyExists(n)) && n@ == name@),
        !already_registered && class_for(class@) is None ==> (r matches Err(
            Error::InvalidInput(m),
        ) && m@ == unknown_class_message(class@)),
        !already_registered && class_for(class@) is Some ==> (r matches Ok(s) && s.name@ == name@
            && Some(s.class) == class_for(class@) && s.format@ == format@ && s.sync_strategy is Once
            && s.raw_retention is Keep && s.priority == source_priority(class@)
            && s.document_count == 0),
{
    if already_registered {
        return Err(Error::SourceAlreadyExists(String::from_str(name)));
    }
    let ds_class = parse_class(class)?;
    proof {
        reveal_strlit("personal");
    }
    let priority: u32 = if String::from_str(class) == String::from_str("personal") {
        250
    } else {
        100
    };
    Ok(
        DataSource {
            id: new_id(),
            name: String::from_str(name),
            class: ds_class,
            format: String::from_str(format),
            sync_strategy: SyncStrategy::Once,
            raw_retention: RawRetention::Keep,
            priority,
            document_count: 0,
            created_at: now_rfc3339(),
        },
    )
}

/// Content type of the documents of a format: chat exports hold
/// conversations, everything else articles.
pub open spec fn format_content_type(format: Seq<char>) -> ContentType {
    if format == "telegram-export"@ {
        ContentType::Conversation
    } else {
        ContentType::Article
    }
}

/// Privacy of the documents of a class name: personal data is private.
pub open spec fn class_privacy(class: Seq<char>) -> PrivacyLevel {
    if class == "personal"@ {
        PrivacyLevel::Private
    } else {
        PrivacyLevel::Public
    }
}

/// The catalog record for a stored file of a new source.
pub fn document_for_file(
    content: &str,
    filename: &str,
    source_id: Uuid,
    format: &str,
    class: &str,
) -> (d: Document)
    ensures
        d.source_id == source_id,
        d.external_id@ == filename@,
        d.parent_id is None,
        d.depth == 0,
        d.title@ == doc_title(content@, filename@),
        d.content_type == format_content_type(format@),
        d.language is None,
        d.content_hash.0@ == text_hash(content@),
        d.content_size == vstd::utf8::encode_utf8(content@).len(),
        d.privacy_level == class_privacy(class@),
{
    proof {
        reveal_strlit("telegram-export");
        reveal_strlit("personal");
    }
    let content_type = if String::from_str(format) == String::from_str("telegram-export") {
        ContentType::Conversation
    } else {
        ContentType::Article
    };
    let privacy_level = if String::from_str(class) == String::from_str("personal") {
        PrivacyLevel::Private
    } else {
        PrivacyLevel::Public
    };
    let created = now_rfc3339();
    let indexed = now_rfc3339();
    Document {
        id: new_id(),
        source_id,
        external_id: String::from_str(filename),
        parent_id: None,
        depth: 0,
        title: extract_doc_title(content, filename),
        content_type,
        language: None,
        content_hash: hash_text(content),
        content_size: content.as_bytes().len() as u64,
        created_at: created,
        indexed_at: indexed,
        privacy_level,
    }
}


// ── Incremental update ───────────────────────────────────────────────

/// A raw file found while updating a source.
#[derive(Debug, Clone)]
pub struct RawFileInfo {
    pub external_id: String,
    pub filename: String,
    pub content: String,
}

/// What an update does with one raw file.
#[derive(Debug, Clone, Copy, PartialEq, Eq, Structural)]
pub enum FileChange {
    /// Not in the catalog yet: ingest it.
    New,
    /// In the catalog with another content hash: ingest it again.
    Changed,
    /// In the catalog with the same content hash: leave it.
    Unchanged,
}

/// Counts reported by an incremental update.
#[derive(Debug, Clone, Copy)]
pub struct UpdateReport {
    pub new_count: u64,
    pub changed_count: u64,
    pub unchanged_count: u64,
    pub deleted_count: u64,
}

/// The decisions of an incremental update.
#[derive(Debug)]
pub struct UpdatePlan {
    /// One decision per raw file, in order.
    pub changes: Vec<FileChange>,
    /// External ids in the catalog that no raw file has any more.
    pub deleted: Vec<String>,
    pub report: UpdateReport,
}

/// The decision for a file whose stored hash is `stored` (none when the
/// catalog lacks it) and whose content is now `content`.
pub open spec fn classify(stored: Option<Seq<u8>>, content: Seq<char>) -> FileChange {
    match stored {
        None => FileChange::New,
        Some(h) => if h == text_hash(content) {
            FileChange::Unchanged
        } else {
            FileChange::Changed
        },
    }
}

/// The bytes of an optional hash.
pub open spec fn hash_view(o: Option<Vec<u8>>) -> Option<Seq<u8>> {
    match o {
        Some(v) => Some(v@),
        None => None,
    }
}

/// How many of `cs` are `k`.
pub open spec fn count_change(cs: Seq<FileChange>, k: FileChange) -> nat
    decreases cs.len(),
{
    if cs.len() == 0 {
        0
    } else {
        count_change(cs.drop_last(), k) + if cs.last() == k {
            1nat
        } else {
            0nat
        }
    }
}

/// The texts of a list of strings.
pub open spec fn texts(s: Seq<String>) -> Seq<Seq<char>> {
    s.map_values(|x: String| x@)
}

/// The external ids of raw files.
pub open spec fn file_ids(files: Seq<RawFileInfo>) -> Seq<Seq<char>> {
    files.map_values(|f: RawFileInfo| f.external_id@)
}

/// Every file gets exactly one decision.
pub proof fn lemma_counts_cover(cs: Seq<FileChange>)
    ensures
        count_change(cs, FileChange::New) + count_change(cs, FileChange::Changed) + count_change(
            cs,
            FileChange::Unchanged,
        ) == cs.len(),
    decreases cs.len(),
{
    if cs.len() > 0 {
        lemma_counts_cover(cs.drop_last());
    }
}

fn bytes_equal(a: &[u8], b: &[u8]) -> (r: bool)
    ensures
        r == (a@ == b@),
{
    if a.len() != b.len() {
        return false;
    }
    let mut i: usize = 0;
    while i < a.len()
        invariant
            a@.len() == b@.len(),
            i <= a@.len(),
            forall|j: int| 0 <= j < i ==> a@[j] == b@[j],
        decreases a.len() - i,
    {
        if a[i] != b[i] {
            return false;
        }
        i += 1;
    }
    assert(a@ =~= b@);
    true
}

fn listed_in(list: &Vec<String>, id: &String) -> (b: bool)
    ensures
        b == texts(list@).contains(id@),
{
    let mut i: usize = 0;
    while i < list.len()
        invariant
            i <= list@.len(),
            forall|j: int| 0 <= j < i ==> list@[j]@ != id@,
        decreases list.len() - i,
    {
        if list[i] == *id {
            assert(texts(list@)[i as int] == id@);
            return true;
        }
        i += 1;
    }
    assert forall|j: int| 0 <= j < texts(list@).len() implies texts(list@)[j] != id@ by {
        assert(texts(list@)[j] == list@[j]@);
    }
    false
}

fn file_listed(files: &[RawFileInfo], id: &String) -> (b: bool)
    ensures
        b == file_ids(files@).contains(id@),
{
    let mut i: usize = 0;
    while i < files.len()
        invariant
            i <= files@.len(),
            forall|j: int| 0 <= j < i ==> files@[j].external_id@ != id@,
        decreases files.len() - i,
    {
        if files[i].external_id == *id {
            assert(file_ids(files@)[i as int] == id@);
            return true;
        }
        i += 1;
    }
    assert forall|j: int| 0 <= j < file_ids(files@).len() implies file_ids(files@)[j] != id@ by {
        assert(file_ids(files@)[j] == files@[j].external_id@);
    }
    false
}

proof fn lemma_deleted_step(
    d0: Seq<Seq<char>>,
    d1: Seq<Seq<char>>,
    t0: Seq<Seq<char>>,
    id: Seq<char>,
    seen: Seq<Seq<char>>,
)
    requires
        forall|x: Seq<char>| #[trigger] d0.contains(x) <==> (t0.contains(x) && !seen.contains(x)),
        (d1 == d0.push(id) && !seen.contains(id) && !d0.contains(id)) || (d1 == d0 && (
        seen.contains(id) || d0.contains(id))),
    ensures
        forall|x: Seq<char>|
            #[trigger] d1.contains(x) <==> (t0.push(id).contains(x) && !seen.contains(x)),
{
    let t1 = t0.push(id);
    assert forall|x: Seq<char>| #[trigger] d1.contains(x) <==> (t1.contains(x) && !seen.contains(x)) by {
        if t1.contains(x) && x != id {
            let j = choose|j: int| 0 <= j < t1.len() && t1[j] == x;
            assert(t0[j] == x);
        }
        if t0.contains(x) {
            let j = choose|j: int| 0 <= j < t0.len() && t0[j] == x;
            assert(t1[j] == x);
        }
        assert(t1[t0.len() as int] == id);
        if d1 == d0.push(id) {
            if d1.contains(x) && x != id {
                let j = choose|j: int| 0 <= j < d1.len() && d1[j] == x;
                assert(d0[j] == x);
            }
            if d0.contains(x) {
                let j = choose|j: int| 0 <= j < d0.len() && d0[j] == x;
                assert(d1[j] == x);
            }
            assert(d1[d0.len() as int] == id);
        }
    }
}

/// Decides what an incremental update does: each raw file is new (no
/// stored hash), changed (another hash) or unchanged (the same hash), and
/// every catalog id that no raw file has any more is deleted, once.
/// `stored_hashes[i]` is the catalog's hash for `files[i]`.
pub fn update_source(
    files: &[RawFileInfo],
    stored_hashes: &[Option<Vec<u8>>],
    existing_ids: &Vec<String>,
) -> (plan: UpdatePlan)
    requires
        files@.len() == stored_hashes@.len(),
    ensures
        plan.changes@.len() == files@.len(),
        forall|i: int|
            0 <= i < files@.len() ==> #[trigger] plan.changes@[i] == classify(
                hash_view(stored_hashes@[i]),
                files@[i].content@,
            ),
        plan.report.new_count == count_change(plan.changes@, FileChange::New),
        plan.report.changed_count == count_change(plan.changes@, FileChange::Changed),
        plan.report.unchanged_count == count_change(plan.changes@, FileChange::Unchanged),
        plan.report.new_count + plan.report.changed_count + plan.report.unchanged_count
            == files@.len(),
        texts(plan.deleted@).no_duplicates(),
        forall|x: Seq<char>|
            #[trigger] texts(plan.deleted@).contains(x) <==> (texts(existing_ids@).contains(x)
                && !file_ids(files@).contains(x)),
        plan.report.deleted_count == plan.deleted@.len(),
{
    let mut changes: Vec<FileChange> = Vec::new();
    let mut new_count: u64 = 0;
    let mut changed_count: u64 = 0;
    let mut unchanged_count: u64 = 0;
    let mut i: usize = 0;
    while i < files.len()
        invariant
            files@.len() == stored_hashes@.len(),
            i <= files@.len(),
            changes@.len() == i,
            forall|j: int|
                0 <= j < i ==> #[trigger] changes@[j] == classify(
                    hash_view(stored_hashes@[j]),
                    files@[j].content@,
                ),
            new_count == count_change(changes@, FileChange::New),
            changed_count == count_change(changes@, FileChange::Changed),
            unchanged_count == count_change(changes@, FileChange::Unchanged),
        decreases files.len() - i,
    {
        proof {
            lemma_counts_cover(changes@);
        }
        let new_hash = hash_text(files[i].content.as_str());
        let change = match &stored_hashes[i] {
            None => FileChange::New,
            Some(old) => if bytes_equal(old.as_slice(), &new_hash.0) {
                FileChange::Unchanged
            } else {
                FileChange::Changed
            },
        };
        let ghost before = changes@;
        changes.push(change);
        assert(changes@.drop_last() =~= before);
        match change {
            FileChange::New => new_count = new_count + 1,
            FileChange::Changed => changed_count = changed_count + 1,
            FileChange::Unchanged => unchanged_count = unchanged_count + 1,
        }
        i += 1;
    }
    proof {
        lemma_counts_cover(changes@);
    }
    let mut deleted: Vec<String> = Vec::new();
    let mut k: usize = 0;
    while k < existing_ids.len()
        invariant
            k <= existing_ids@.len(),
            texts(deleted@).no_duplicates(),
            forall|x: Seq<char>|
                #[trigger] texts(deleted@).contains(x) <==> (texts(existing_ids@.take(
                    k as int,
                )).contains(x) && !file_ids(files@).contains(x)),
        decreases existing_ids.len() - k,
    {
        let id = &existing_ids[k];
        let ghost before = deleted@;
        if !file_listed(files, id) && !listed_in(&deleted, id) {
            deleted.push(id.clone());
            proof {
                assert(texts(deleted@) =~= texts(before).push(id@));
            }
        }
        proof {
            let t0 = texts(existing_ids@.take(k as int));
            let t1 = texts(existing_ids@.take(k + 1));
            assert(t1 =~= t0.push(id@));
            lemma_deleted_step(texts(before), texts(deleted@), t0, id@, file_ids(files@));
        }
        k += 1;
    }
    assert(existing_ids@.take(existing_ids@.len() as int) =~= existing_ids@);
    let deleted_count = deleted.len() as u64;
    UpdatePlan {
        changes,
        deleted,
        report: UpdateReport { new_count, changed_count, unchanged_count, deleted_count },
    }
}

/// Re-running an update on raw data whose hashes the catalog already holds
/// changes nothing: every file is unchanged.
pub proof fn lemma_update_rerun_unchanged(files: Seq<RawFileInfo>, stored: Seq<Option<Vec<u8>>>)
    requires
        files.len() == stored.len(),
        forall|i: int|
            0 <= i < files.len() ==> #[trigger] hash_view(stored[i]) == Some(
                text_hash(files[i].content@),
            ),
    ensures
        forall|i: int|
            0 <= i < files.len() ==> #[trigger] classify(hash_view(stored[i]), files[i].content@)
                == FileChange::Unchanged,
{
    assert forall|i: int| 0 <= i < files.len() implies #[trigger] classify(
        hash_view(stored[i]),
        files[i].content@,
    ) == FileChange::Unchanged by {
        assert(hash_view(stored[i]) == Some(text_hash(files[i].content@)));
    }
}

// ── Views of sources ─────────────────────────────────────────────────

/// Detailed status of one source.
#[derive(Debug, Clone)]
pub struct SourceStatus {
    pub name: String,
    pub format: String,
    pub class: String,
    pub document_count: u64,
    pub content_bytes: u64,
    pub created_at: String,
}

/// The user-facing class name of a source class.
pub open spec fn class_label(c: DataSourceClass) -> Seq<char> {
    if c is Public {
        "public"@
    } else {
        "personal"@
    }
}

/// Status of the source `name`, given the catalog's record for it (none
/// when there is no such source) and the size of its stored content.
pub fn source_status(found: Option<&DataSource>, name: &str, content_bytes: u64) -> (r: Result<SourceStatus, Error>)
    ensures
        match found {
            None => r matches Err(Error::SourceNotFound(n)) && n@ == name@,
            Some(s) => r matches Ok(st) && st.name@ == s.name@ && st.format@ == s.format@
                && st.class@ == class_label(s.class) && st.document_count == s.document_count
                && st.content_bytes == content_bytes && st.created_at@ == s.created_at@,
        },
{
    match found {
        None => Err(Error::SourceNotFound(String::from_str(name))),
        Some(s) => Ok(
            SourceStatus {
                name: s.name.clone(),
                format: s.format.clone(),
                class: s.class.label(),
                document_count: s.document_count,
                content_bytes,
                created_at: s.created_at.clone(),
            },
        ),
    }
}

/// The source to delete: its id, or an error when there is no such source.
pub fn delete_source(found: Option<&DataSource>, name: &str) -> (r: Result<Uuid, Error>)
    ensures
        match found {
            None => r matches Err(Error::SourceNotFound(n)) && n@ == name@,
            Some(s) => r == Ok::<Uuid, Error>(s.id),
        },
{
    match found {
        None => Err(Error::SourceNotFound(String::from_str(name))),
        Some(s) => Ok(s.id),
    }
}

/// One line of `source list`.
#[derive(Debug, Clone)]
pub struct SourceListItem {
    pub name: String,
    pub format: String,
    pub class: String,
    pub document_count: u64,
}

/// The list of sources, in catalog order.
pub fn list_sources(sources: &[DataSource]) -> (r: Vec<SourceListItem>)
    ensures
        r@.len() == sources@.len(),
        forall|i: int|
            0 <= i < sources@.len() ==> (#[trigger] r@[i]).name@ == sources@[i].name@
                && r@[i].format@ == sources@[i].format@ && r@[i].class@ == class_label(
                sources@[i].class,
            ) && r@[i].document_count == sources@[i].document_count,
{
    let mut r: Vec<SourceListItem> = Vec::new();
    let mut i: usize = 0;
    while i < sources.len()
        invariant
            i <= sources@.len(),
            r@.len() == i,
            forall|j: int|
                0 <= j < i ==> (#[trigger] r@[j]).name@ == sources@[j].name@ && r@[j].format@
                    == sources@[j].format@ && r@[j].class@ == class_label(sources@[j].class)
                    && r@[j].document_count == sources@[j].document_count,
        decreases sources.len() - i,
    {
        let s = &sources[i];
        r.push(
            SourceListItem {
                name: s.name.clone(),
                format: s.format.clone(),
                class: s.class.label(),
                document_count: s.document_count,
            },
        );
        i += 1;
    }
    r
}

/// Size of one storage layer.
#[derive(Debug, Clone)]
pub struct StorageLayerInfo {
    pub name: String,
    pub size_bytes: u64,
}

/// Storage taken by one source.
#[derive(Debug, Clone)]
pub struct SourceStorageInfo {
    pub name: String,
    pub class: String,
    pub documents: u64,
    pub content_bytes: u64,
}

/// Storage taken by each layer and each source.
#[derive(Debug, Clone)]
pub struct FullStorageStatus {
    pub layers: Vec<StorageLayerInfo>,
    pub total_bytes: u64,
    pub sources: Vec<SourceStorageInfo>,
    pub entity_count: u64,
    pub relation_count: u64,
}

/// The storage report: the source, derived and cache layers with their
/// sizes and total, and each source with its documents and content size
/// (`content_bytes[i]` for `sources[i]`).
pub fn storage_status(
    source_bytes: u64,
    derived_bytes: u64,
    cache_bytes: u64,
    sources: &[DataSource],
    content_bytes: &[u64],
    entity_count: u64,
    relation_count: u64,
) -> (r: FullStorageStatus)
    requires
        source_bytes + derived_bytes + cache_bytes <= u64::MAX,
        content_bytes@.len() == sources@.len(),
    ensures
        r.layers@.len() == 3,
        r.layers@[0].name@ == "source"@ && r.layers@[0].size_bytes == source_bytes,
        r.layers@[1].name@ == "derived"@ && r.layers@[1].size_bytes == derived_bytes,
        r.layers@[2].name@ == "cache"@ && r.layers@[2].size_bytes == cache_bytes,
        r.total_bytes == source_bytes + derived_bytes + cache_bytes,
        r.sources@.len() == sources@.len(),
        forall|i: int|
            0 <= i < sources@.len() ==> (#[trigger] r.sources@[i]).name@ == sources@[i].name@
                && r.sources@[i].class@ == class_label(sources@[i].class)
                && r.sources@[i].documents == sources@[i].document_count
                && r.sources@[i].content_bytes == content_bytes@[i],
        r.entity_count == entity_count,
        r.relation_count == relation_count,
{
    let mut layers: Vec<StorageLayerInfo> = Vec::new();
    layers.push(StorageLayerInfo { name: String::from_str("source"), size_bytes: source_bytes });
    layers.push(StorageLayerInfo { name: String::from_str("derived"), size_bytes: derived_bytes });
    layers.push(StorageLayerInfo { name: String::from_str("cache"), size_bytes: cache_bytes });
    let mut out: Vec<SourceStorageInfo> = Vec::new();
    let mut i: usize = 0;
    while i < sources.len()
        invariant
            i <= sources@.len(),
            content_bytes@.len() == sources@.len(),
            out@.len() == i,
            forall|j: int|
                0 <= j < i ==> (#[trigger] out@[j]).name@ == sources@[j].name@ && out@[j].class@
                    == class_label(sources@[j].class) && out@[j].documents
                    == sources@[j].document_count && out@[j].content_bytes == content_bytes@[j],
        decreases sources.len() - i,
    {
        let s = &sources[i];
        out.push(
            SourceStorageInfo {
                name: s.name.clone(),
                class: s.class.label(),
                documents: s.document_count,
                content_bytes: content_bytes[i],
            },
        );
        i += 1;
    }
    FullStorageStatus {
        layers,
        total_bytes: source_bytes + derived_bytes + cache_bytes,
        sources: out,
        entity_count,
        relation_count,
    }
}

// ── Reading a document ───────────────────────────────────────────────

/// `source:document` split at its first `:`.
pub open spec fn split_doc_ref(r: Seq<char>) -> Option<(Seq<char>, Seq<char>)> {
    match crate::text::find_char(r, ':') {
        Some(k) => Some((r.subrange(0, k), r.subrange(k + 1, r.len() as int))),
        None => None,
    }
}

/// Splits a `source_name:document_id` reference.
pub fn parse_doc_ref(doc_ref: &str) -> (r: Result<(String, String), Error>)
    ensures
        match split_doc_ref(doc_ref@) {
            Some((s, d)) => r matches Ok((a, b)) && a@ == s && b@ == d,
            None => r matches Err(Error::InvalidInput(m)) && m@
                == "expected format: source_name:document_id"@,
        },
{
    let v = str_chars(doc_ref);
    let k = crate::text::find_char_in(v.as_slice(), ':', 0, v.len());
    proof {
        assert(v@.subrange(0, v@.len() as int) =~= v@);
        crate::text::lemma_find_char_at(v@, ':', k as int);
    }
    if k == v.len() {
        return Err(Error::InvalidInput(String::from_str("expected format: source_name:document_id")));
    }
    Ok((string_from_range(v.as_slice(), 0, k), string_from_range(v.as_slice(), k + 1, v.len())))
}

/// The file names tried for a document id, in order: with `.md`, with
/// `.txt`, and as given.
pub fn candidate_filenames(doc_id: &str) -> (r: Vec<String>)
    ensures
        r@.len() == 3,
        r@[0]@ == doc_id@ + ".md"@,
        r@[1]@ == doc_id@ + ".txt"@,
        r@[2]@ == doc_id@,
{
    let mut md = String::from_str(doc_id);
    md.append(".md");
    let mut txt = String::from_str(doc_id);
    txt.append(".txt");
    let mut r: Vec<String> = Vec::new();
    r.push(md);
    r.push(txt);
    r.push(String::from_str(doc_id));
    r
}

/// The outcome of reading `doc_id` of `source_name`, given the content found
/// under the first candidate name that exists, if any.
pub fn read_document(source_name: &str, doc_id: &str, found: Option<String>) -> (r: Result<String, Error>)
    ensures
        match found {
            Some(c) => r matches Ok(t) && t@ == c@,
            None => r matches Err(Error::DocumentNotFound(s, d)) && s@ == source_name@ && d@
                == doc_id@,
        },
{
    match found {
        Some(c) => Ok(c),
        None => Err(Error::DocumentNotFound(String::from_str(source_name), String::from_str(doc_id))),
    }
}

// ── Snippets ─────────────────────────────────────────────────────────

/// The byte window of a snippet of `max_len` bytes around byte `pos` of a
/// text of `len` bytes.
pub open spec fn snippet_window(len: int, pos: int, max_len: int) -> (int, int) {
    let half = max_len / 2;
    (if pos > half { pos - half } else { 0 }, if pos + half < len { pos + half } else { len })
}

/// The snippet of `content` around byte `pos`: the window's text trimmed,
/// with `...` where it was cut.
pub open spec fn snippet_of(content: Seq<char>, pos: int, max_len: int) -> Seq<char> {
    let b = vstd::utf8::encode_utf8(content);
    let (s, e) = snippet_window(b.len() as int, pos, max_len);
    let mid = trim(vstd::utf8::decode_utf8(b.subrange(s, e)));
    if s > 0 {
        "..."@ + mid + "..."@
    } else if e < b.len() {
        mid + "..."@
    } else {
        mid
    }
}

/// The snippet of `content` around byte `pos`. The window's ends must fall
/// on character boundaries, in order.
pub fn extract_snippet(content: &str, pos: usize, max_len: usize) -> (r: String)
    requires
        pos + max_len / 2 <= usize::MAX,
        ({
            let b = vstd::utf8::encode_utf8(content@);
            let (s, e) = snippet_window(b.len() as int, pos as int, max_len as int);
            s <= e && vstd::utf8::is_char_boundary(b, s) && vstd::utf8::is_char_boundary(b, e)
        }),
    ensures
        r@ == snippet_of(content@, pos as int, max_len as int),
{
    let ghost b = vstd::utf8::encode_utf8(content@);
    let half = max_len / 2;
    let start = if pos > half {
        pos - half
    } else {
        0
    };
    let len = content.as_bytes().len();
    let end = if pos + half < len {
        pos + half
    } else {
        len
    };
    assert(len == b.len());
    assert((start as int, end as int) == snippet_window(b.len() as int, pos as int, max_len as int));
    proof {
        vstd::utf8::encode_utf8_valid_utf8(content@);
        vstd::utf8::valid_utf8_split(b, start as int);
    }
    let (_, tail) = content.split_at(start);
    let ghost t = b.subrange(start as int, b.len() as int);
    assert(tail.spec_bytes() == t);
    proof {
        let k = end - start;
        if k == t.len() {
            vstd::utf8::is_char_boundary_start_end_of_seq(t);
        } else if k > 0 {
            vstd::utf8::is_char_boundary_iff_not_is_continuation_byte(b, end as int);
            vstd::utf8::is_char_boundary_iff_not_is_continuation_byte(t, k as int);
            assert(t[k as int] == b[end as int]);
        }
    }
    let (mid, _) = tail.split_at(end - start);
    proof {
        assert(mid.spec_bytes() =~= b.subrange(start as int, end as int));
        vstd::utf8::encode_utf8_decode_utf8(mid@);
    }
    let mv = str_chars(mid);
    let (a, z) = trim_range(mv.as_slice(), 0, mv.len());
    assert(mv@.subrange(0, mv@.len() as int) =~= mv@);
    let trimmed = string_from_range(mv.as_slice(), a, z);
    proof {
        reveal_strlit("...");
    }
    if start > 0 {
        let mut r = String::from_str("...");
        r.append(trimmed.as_str());
        r.append("...");
        r
    } else if end < len {
        let mut r = trimmed;
        r.append("...");
        r
    } else {
        trimmed
    }
}

// ── Export ───────────────────────────────────────────────────────────

/// The names of the sources an export takes, in order: every source when
/// personal data is included, else the public ones.
pub open spec fn export_names(sources: Seq<DataSource>, include_personal: bool) -> Seq<Seq<char>>
    decreases sources.len(),
{
    if sources.len() == 0 {
        seq![]
    } else {
        let prev = export_names(sources.drop_last(), include_personal);
        if include_personal || sources.last().class is Public {
            prev.push(sources.last().name@)
        } else {
            prev
        }
    }
}

/// The names of the sources to export.
pub fn exported_sources(sources: &[DataSource], include_personal: bool) -> (r: Vec<String>)
    ensures
        texts(r@) == export_names(sources@, include_personal),
{
    let mut r: Vec<String> = Vec::new();
    let mut i: usize = 0;
    while i < sources.len()
        invariant
            i <= sources@.len(),
            texts(r@) == export_names(sources@.take(i as int), include_personal),
        decreases sources.len() - i,
    {
        assert(sources@.take(i + 1).drop_last() =~= sources@.take(i as int));
        let ghost before = r@;
        if include_personal || sources[i].class.is_exportable() {
            r.push(sources[i].name.clone());
            assert(texts(r@) =~= texts(before).push(sources@[i as int].name@));
        }
        i += 1;
    }
    assert(sources@.take(sources@.len() as int) =~= sources@);
    r
}

/// Without personal data an export names only public sources: every name
/// it lists belongs to a public source.
pub proof fn lemma_export_keeps_personal_out(sources: Seq<DataSource>, k: int)
    requires
        0 <= k < export_names(sources, false).len(),
    ensures
        exists|i: int|
            0 <= i < sources.len() && (#[trigger] sources[i]).class is Public && sources[i].name@
                == export_names(sources, false)[k],
    decreases sources.len(),
{
    let prev = export_names(sources.drop_last(), false);
    if k < prev.len() {
        lemma_export_keeps_personal_out(sources.drop_last(), k);
        let i = choose|i: int|
            0 <= i < sources.drop_last().len() && (#[trigger] sources.drop_last()[i]).class is Public
                && sources.drop_last()[i].name@ == prev[k];
        assert(sources[i] == sources.drop_last()[i]);
    } else {
        assert(sources[sources.len() - 1] == sources.last());
    }
}

/// With personal data included an export names every source, in order.
pub proof fn lemma_export_all(sources: Seq<DataSource>)
    ensures
        export_names(sources, true) == sources.map_values(|s: DataSource| s.name@),
    decreases sources.len(),
{
    if sources.len() > 0 {
        lemma_export_all(sources.drop_last());
        assert(sources.map_values(|s: DataSource| s.name@) =~= sources.drop_last().map_values(
            |s: DataSource| s.name@,
        ).push(sources.last().name@));
    } else {
        assert(sources.map_values(|s: DataSource| s.name@) =~= Seq::<Seq<char>>::empty());
    }
}

} // verus!
