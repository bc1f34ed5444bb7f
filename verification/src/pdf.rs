//! Text extracted from PDF files: cleanup and title.
//!
//! The extraction itself runs in the program, which guards it against
//! panics; the text it yields is handed in here.
use vstd::prelude::*;
use uuid::Uuid;
use crate::sources::{hash_text, text_hash};
use crate::text::{
    char_len_utf8, ends_with, lines, line_ranges, pieces, str_chars, string_from_range, trim,
    trim_range, utf8_len,
};
use crate::types::{new_id, now_rfc3339, ContentType, Document, PrivacyLevel};

verus! {

/// A line that is only page-number noise: under four bytes of ASCII digits
/// and dashes (a blank line counts too).
pub open spec fn noise_line(t: Seq<char>) -> bool {
    utf8_len(t) < 4 && forall|i: int| 0 <= i < t.len() ==> ('0' <= #[trigger] t[i] <= '9' || t[i] == '-')
}

/// The trimmed lines among the first `n` that are not noise, each ended by
/// a newline.
pub open spec fn kept_lines(ls: Seq<Seq<char>>, n: int) -> Seq<char>
    decreases n,
{
    if n <= 0 {
        seq![]
    } else {
        let t = trim(ls[n - 1]);
        kept_lines(ls, n - 1) + if noise_line(t) {
            seq![]
        } else {
            t + seq!['\n']
        }
    }
}

/// What a character becomes once typographic ligatures are spelled out.
pub open spec fn unligature_char(c: char) -> Seq<char> {
    if c == '\u{FB01}' {
        seq!['f', 'i']
    } else if c == '\u{FB02}' {
        seq!['f', 'l']
    } else if c == '\u{FB00}' {
        seq!['f', 'f']
    } else if c == '\u{FB03}' {
        seq!['f', 'f', 'i']
    } else if c == '\u{FB04}' {
        seq!['f', 'f', 'l']
    } else {
        seq![c]
    }
}

/// The first `n` characters of `s` with ligatures spelled out.
pub open spec fn unligature(s: Seq<char>, n: int) -> Seq<char>
    decreases n,
{
    if n <= 0 {
        seq![]
    } else {
        unligature(s, n - 1) + unligature_char(s[n - 1])
    }
}

/// Cleaned PDF text: noise lines dropped, the others trimmed, ligatures
/// spelled out, the whole trimmed.
pub open spec fn cleaned(text: Seq<char>) -> Seq<char> {
    let k = kept_lines(lines(text), lines(text).len() as int);
    trim(unligature(k, k.len() as int))
}

fn is_noise(v: &[char], a: usize, b: usize) -> (r: bool)
    requires
        a <= b <= v@.len(),
    ensures
        r == noise_line(v@.subrange(a as int, b as int)),
{
    let ghost t = v@.subrange(a as int, b as int);
    let mut bytes: usize = 0;
    let mut i = a;
    while i < b
        invariant
            a <= i <= b <= v@.len(),
            t == v@.subrange(a as int, b as int),
            bytes == utf8_len(v@.subrange(a as int, i as int)),
            bytes < 4,
            forall|j: int| a <= j < i ==> ('0' <= v@[j] <= '9' || v@[j] == '-'),
        decreases b - i,
    {
        let c = v[i];
        if !(('0' <= c && c <= '9') || c == '-') {
            proof {
                assert(t[i - a] == c);
            }
            return false;
        }
        assert(v@.subrange(a as int, i + 1).drop_last() =~= v@.subrange(a as int, i as int));
        bytes = bytes + char_len_utf8(c);
        i += 1;
        if bytes >= 4 {
            proof {
                crate::text::lemma_utf8_len_prefix_mono(t, i - a);
                assert(t.subrange(0, i - a) =~= v@.subrange(a as int, i as int));
            }
            return false;
        }
    }
    assert forall|j: int| 0 <= j < t.len() implies ('0' <= #[trigger] t[j] <= '9' || t[j] == '-') by {
        assert(t[j] == v@[a + j]);
    }
    true
}

/// Cleans up text extracted from a PDF: drops page-number noise lines,
/// trims every other line, spells out `ﬁ ﬂ ﬀ ﬃ ﬄ` and trims the result.
pub fn clean_pdf_text(text: &str) -> (r: String)
    ensures
        r@ == cleaned(text@),
{
    let v = str_chars(text);
    let ranges = line_ranges(v.as_slice());
    let ghost ls = lines(v@);
    let mut kept: Vec<char> = Vec::new();
    let mut k: usize = 0;
    while k < ranges.len()
        invariant
            v@ == text@,
            pieces(v@, ranges@) == ls,
            k <= ranges@.len(),
            forall|i: int| 0 <= i < ranges@.len() ==> (#[trigger] ranges@[i]).0 <= ranges@[i].1 <= v@.len(),
            kept@ == kept_lines(ls, k as int),
        decreases ranges@.len() - k,
    {
        let (a, b) = ranges[k];
        let (ta, tb) = trim_range(v.as_slice(), a, b);
        assert(ls[k as int] == v@.subrange(a as int, b as int));
        if !is_noise(v.as_slice(), ta, tb) {
            let ghost before = kept@;
            let mut i = ta;
            while i < tb
                invariant
                    ta <= i <= tb <= v@.len(),
                    kept@ == before + v@.subrange(ta as int, i as int),
                decreases tb - i,
            {
                kept.push(v[i]);
                assert(v@.subrange(ta as int, i + 1) =~= v@.subrange(ta as int, i as int).push(v@[i as int]));
                i += 1;
            }
            kept.push('\n');
            assert(kept@ =~= before + (v@.subrange(ta as int, tb as int) + seq!['\n']));
        } else {
            assert(kept@ =~= kept@ + Seq::<char>::empty());
        }
        k += 1;
    }
    let mut out: Vec<char> = Vec::new();
    let mut i: usize = 0;
    while i < kept.len()
        invariant
            i <= kept@.len(),
            out@ == unligature(kept@, i as int),
        decreases kept.len() - i,
    {
        let c = kept[i];
        let ghost before = out@;
        if c == '\u{FB01}' {
            out.push('f');
            out.push('i');
        } else if c == '\u{FB02}' {
            out.push('f');
            out.push('l');
        } else if c == '\u{FB00}' {
            out.push('f');
            out.push('f');
        } else if c == '\u{FB03}' {
            out.push('f');
            out.push('f');
            out.push('i');
        } else if c == '\u{FB04}' {
            out.push('f');
            out.push('f');
            out.push('l');
        } else {
            out.push(c);
        }
        assert(out@ =~= before + unligature_char(c));
        i += 1;
    }
    let (a, b) = trim_range(out.as_slice(), 0, out.len());
    assert(out@.subrange(0, out@.len() as int) =~= out@);
    string_from_range(out.as_slice(), a, b)
}

/// The first line of `ls` that is not blank, trimmed.
pub open spec fn first_nonblank(ls: Seq<Seq<char>>) -> Option<Seq<char>>
    decreases ls.len(),
{
    if ls.len() == 0 {
        None
    } else if trim(ls[0]).len() > 0 {
        Some(trim(ls[0]))
    } else {
        first_nonblank(ls.drop_first())
    }
}

/// A PDF's title: its first non-blank line as a `# ` heading, when that
/// line is under 200 bytes and does not end with a period.
pub open spec fn pdf_title(text: Seq<char>) -> Option<Seq<char>> {
    match first_nonblank(lines(text)) {
        Some(f) => if utf8_len(f) < 200 && !ends_with(f, "."@) {
            Some("# "@ + f)
        } else {
            None
        },
        None => None,
    }
}

fn first_nonblank_from(v: &[char], ranges: &Vec<(usize, usize)>, from: usize) -> (r: Option<(usize, usize)>)
    requires
        from <= ranges@.len(),
        forall|i: int| 0 <= i < ranges@.len() ==> (#[trigger] ranges@[i]).0 <= ranges@[i].1 <= v@.len(),
    ensures
        match first_nonblank(pieces(v@, ranges@).subrange(from as int, ranges@.len() as int)) {
            Some(f) => r matches Some((a, b)) && a <= b <= v@.len() && v@.subrange(a as int, b as int) == f,
            None => r is None,
        },
    decreases ranges@.len() - from,
{
    let ghost rest = pieces(v@, ranges@).subrange(from as int, ranges@.len() as int);
    if from == ranges.len() {
        return None;
    }
    let (a, b) = ranges[from];
    assert(rest[0] == v@.subrange(a as int, b as int));
    assert(rest.drop_first() =~= pieces(v@, ranges@).subrange(from + 1, ranges@.len() as int));
    let (ta, tb) = trim_range(v, a, b);
    if ta < tb {
        return Some((ta, tb));
    }
    first_nonblank_from(v, ranges, from + 1)
}

/// The title of a PDF's cleaned text, if its first line looks like one.
pub fn extract_pdf_title(text: &str) -> (r: Option<String>)
    ensures
        match pdf_title(text@) {
            Some(t) => r matches Some(s) && s@ == t,
            None => r is None,
        },
{
    let v = str_chars(text);
    let ranges = line_ranges(v.as_slice());
    assert(pieces(v@, ranges@).subrange(0, ranges@.len() as int) =~= pieces(v@, ranges@));
    let (a, b) = match first_nonblank_from(v.as_slice(), &ranges, 0) {
        Some(p) => p,
        None => {
            return None;
        },
    };
    let first = &v.as_slice()[a..b];
    assert(first@ == v@.subrange(a as int, b as int));
    if crate::text::utf8_len_exceeds(first, 0, first.len(), 199) {
        assert(first@.subrange(0, first@.len() as int) =~= first@);
        return None;
    }
    assert(first@.subrange(0, first@.len() as int) =~= first@);
    let dot = str_chars(".");
    if crate::text::ends_with_exec(first, dot.as_slice()) {
        return None;
    }
    let mut t = String::from_str("# ");
    crate::text::push_range(&mut t, v.as_slice(), a, b);
    proof {
        reveal_strlit("# ");
    }
    Some(t)
}

/// The document for a PDF, from the text extracted from it: the text
/// cleaned, titled by its first line or else by the file's stem.
pub fn pdf_document(extracted: &str, file_stem: &str, source_id: Uuid, external_id: &str) -> (r: (Document, String))
    ensures
        r.1@ == cleaned(extracted@),
        r.0.title@ == match pdf_title(cleaned(extracted@)) {
            Some(t) => t,
            None => file_stem@,
        },
        r.0.source_id == source_id,
        r.0.external_id@ == external_id@,
        r.0.content_type == ContentType::Paper,
        r.0.privacy_level == PrivacyLevel::Internal,
        r.0.content_hash.0@ == text_hash(cleaned(extracted@)),
        r.0.content_size == vstd::utf8::encode_utf8(cleaned(extracted@)).len(),
        r.0.language is None,
        r.0.parent_id is None,
        r.0.depth == 0,
{
    let text = clean_pdf_text(extracted);
    let title = match extract_pdf_title(text.as_str()) {
        Some(t) => t,
        None => String::from_str(file_stem),
    };
    let created = now_rfc3339();
    let indexed = now_rfc3339();
    let doc = Document {
        id: new_id(),
        source_id,
        external_id: String::from_str(external_id),
        parent_id: None,
        depth: 0,
        title,
        content_type: ContentType::Paper,
        language: None,
        content_hash: hash_text(text.as_str()),
        content_size: text.as_str().as_bytes().len() as u64,
        created_at: created,
        indexed_at: indexed,
        privacy_level: PrivacyLevel::Internal,
    };
    (doc, text)
}

} // verus!
