//! HTML to Markdown: the conversion that htmd makes, handed in by the
//! program (htmd can panic on malformed HTML, so it is called where the
//! unwind can be caught), with a tag-stripping fallback.
use vstd::prelude::*;
use crate::chunker::opt_text;
use crate::text::{str_chars, string_from_chars};
use crate::types::Document;

verus! {

/// The text and in-tag flag after the first `n` characters of `s`: text
/// outside `<...>` is kept, the brackets and what is between them dropped.
pub open spec fn strip_run(s: Seq<char>, n: int) -> (Seq<char>, bool)
    decreases n,
{
    if n <= 0 {
        (seq![], false)
    } else {
        let (out, in_tag) = strip_run(s, n - 1);
        let c = s[n - 1];
        if c == '<' {
            (out, true)
        } else if c == '>' {
            (out, false)
        } else if !in_tag {
            (out.push(c), in_tag)
        } else {
            (out, in_tag)
        }
    }
}

/// `s` with its tags removed.
pub open spec fn strip_tags(s: Seq<char>) -> Seq<char> {
    strip_run(s, s.len() as int).0
}

/// No `<` or `>` in `s`.
pub open spec fn bracket_free(s: Seq<char>) -> bool {
    forall|i: int| 0 <= i < s.len() ==> #[trigger] s[i] != '<' && s[i] != '>'
}

/// The positions of `s` among its first `n` whose characters `strip_run`
/// keeps, in order.
pub open spec fn kept_run(s: Seq<char>, n: int) -> Seq<int>
    decreases n,
{
    if n <= 0 {
        seq![]
    } else {
        let prev = kept_run(s, n - 1);
        let c = s[n - 1];
        if c != '<' && c != '>' && !strip_run(s, n - 1).1 {
            prev.push(n - 1)
        } else {
            prev
        }
    }
}

/// The positions of `s` whose characters survive `strip_tags`.
pub open spec fn kept_positions(s: Seq<char>) -> Seq<int> {
    kept_run(s, s.len() as int)
}

proof fn lemma_strip_run_kept(s: Seq<char>, n: int)
    requires
        0 <= n <= s.len(),
    ensures
        bracket_free(strip_run(s, n).0),
        kept_run(s, n).len() == strip_run(s, n).0.len(),
        forall|k: int|
            0 <= k < kept_run(s, n).len() ==> 0 <= #[trigger] kept_run(s, n)[k] < n
                && strip_run(s, n).0[k] == s[kept_run(s, n)[k]],
        forall|i: int, j: int|
            0 <= i < j < kept_run(s, n).len() ==> kept_run(s, n)[i] < kept_run(s, n)[j],
    decreases n,
{
    if n > 0 {
        lemma_strip_run_kept(s, n - 1);
        let prev = kept_run(s, n - 1);
        let out = strip_run(s, n - 1).0;
        let cur = kept_run(s, n);
        let o = strip_run(s, n).0;
        assert forall|k: int| 0 <= k < cur.len() implies 0 <= #[trigger] cur[k] < n && o[k] == s[cur[k]] by {
            if k < prev.len() {
                assert(cur[k] == prev[k]);
                assert(o[k] == out[k]);
            }
        }
        assert forall|i: int| 0 <= i < o.len() implies #[trigger] o[i] != '<' && o[i] != '>' by {
            if i < out.len() {
                assert(o[i] == out[i]);
            }
        }
        assert forall|i: int, j: int| 0 <= i < j < cur.len() implies cur[i] < cur[j] by {
            if j < prev.len() {
                assert(cur[i] == prev[i] && cur[j] == prev[j]);
            } else {
                assert(cur[i] == prev[i]);
            }
        }
    }
}

proof fn lemma_strip_run_plain(s: Seq<char>, n: int)
    requires
        0 <= n <= s.len(),
        bracket_free(s),
    ensures
        strip_run(s, n) == (s.take(n), false),
    decreases n,
{
    if n > 0 {
        lemma_strip_run_plain(s, n - 1);
        assert(s[n - 1] != '<' && s[n - 1] != '>');
        assert(s.take(n - 1).push(s[n - 1]) =~= s.take(n));
    }
}

/// Stripping tags leaves no `<` or `>`, changes nothing in a text that has
/// none, gives the same text when done twice, and keeps the rest of the
/// characters in their order: the result is `s` read at the increasing
/// positions `kept_positions(s)`.
pub proof fn lemma_strip_tags(s: Seq<char>)
    ensures
        bracket_free(strip_tags(s)),
        bracket_free(s) ==> strip_tags(s) == s,
        strip_tags(strip_tags(s)) == strip_tags(s),
        kept_positions(s).len() == strip_tags(s).len(),
        forall|k: int|
            0 <= k < kept_positions(s).len() ==> 0 <= #[trigger] kept_positions(s)[k] < s.len()
                && strip_tags(s)[k] == s[kept_positions(s)[k]],
        forall|i: int, j: int|
            0 <= i < j < kept_positions(s).len() ==> kept_positions(s)[i] < kept_positions(s)[j],
{
    lemma_strip_run_kept(s, s.len() as int);
    let t = strip_tags(s);
    lemma_strip_run_plain(t, t.len() as int);
    assert(t.take(t.len() as int) =~= t);
    if bracket_free(s) {
        lemma_strip_run_plain(s, s.len() as int);
        assert(s.take(s.len() as int) =~= s);
    }
}

/// Removes HTML tags, keeping the text between them.
pub fn strip_html_tags(html: &str) -> (r: String)
    ensures
        r@ == strip_tags(html@),
{
    let v = str_chars(html);
    let mut out: Vec<char> = Vec::new();
    let mut in_tag = false;
    let mut i: usize = 0;
    while i < v.len()
        invariant
            i <= v@.len(),
            v@ == html@,
            (out@, in_tag) == strip_run(v@, i as int),
        decreases v.len() - i,
    {
        let c = v[i];
        if c == '<' {
            in_tag = true;
        } else if c == '>' {
            in_tag = false;
        } else if !in_tag {
            out.push(c);
        }
        i += 1;
    }
    string_from_chars(out.as_slice())
}

/// The Markdown of `html` given what converting it gave: that conversion,
/// or the text without tags when there is none.
pub open spec fn markdown_of(html: Seq<char>, converted: Option<Seq<char>>) -> Seq<char> {
    match converted {
        Some(m) => m,
        None => strip_tags(html),
    }
}

/// The Markdown of `html`: `converted`, htmd's conversion of it when it
/// gave one, else the text with its tags stripped.
pub fn html_to_markdown(html: &str, converted: Option<String>) -> (r: String)
    ensures
        r@ == markdown_of(html@, opt_text(converted)),
{
    match converted {
        Some(m) => m,
        None => strip_html_tags(html),
    }
}

/// The conversion handed in for document `i`, if any.
pub open spec fn converted_at(converted: Seq<Option<String>>, i: int) -> Option<Seq<char>> {
    if 0 <= i < converted.len() {
        opt_text(converted[i])
    } else {
        None
    }
}

/// The optimize step that turns HTML into Markdown.
#[derive(Debug, Clone, Copy)]
pub struct HtmlToMarkdown;

impl HtmlToMarkdown {
    /// The step's name.
    pub fn name(&self) -> (r: &'static str)
        ensures
            r@ == "html_to_markdown"@,
    {
        "html_to_markdown"
    }

    /// Expected output size (half the input, as tags go) and compute time
    /// in milliseconds (one per 500 kB, plus one).
    pub fn estimate_sizes(&self, input_size: u64) -> (r: (u64, u64))
        ensures
            r.0 == input_size / 2,
            r.1 == input_size / 500_000 + 1,
    {
        (input_size / 2, input_size / 500_000 + 1)
    }

    /// Converts each document's HTML to Markdown, keeping the documents;
    /// `converted[i]` is what converting document `i` gave.
    pub fn convert_documents(
        &self,
        docs: Vec<(Document, String)>,
        converted: Vec<Option<String>>,
    ) -> (r: Vec<(Document, String)>)
        ensures
            r@.len() == docs@.len(),
            forall|i: int|
                0 <= i < docs@.len() ==> (#[trigger] r@[i]).0 == docs@[i].0 && r@[i].1@
                    == markdown_of(docs@[i].1@, converted_at(converted@, i)),
    {
        let mut out: Vec<(Document, String)> = Vec::new();
        let mut docs = docs;
        let ghost orig = docs@;
        while docs.len() > 0
            invariant
                out@.len() <= orig.len(),
                docs@ == orig.subrange(out@.len() as int, orig.len() as int),
                forall|i: int|
                    0 <= i < out@.len() ==> (#[trigger] out@[i]).0 == orig[i].0 && out@[i].1@
                        == markdown_of(orig[i].1@, converted_at(converted@, i)),
            decreases docs@.len(),
        {
            let k = out.len();
            let (d, html) = docs.remove(0);
            assert(orig[k as int] == (d, html));
            let conv = if k < converted.len() {
                converted[k].clone()
            } else {
                None
            };
            assert(opt_text(conv) == converted_at(converted@, k as int));
            let md = html_to_markdown(html.as_str(), conv);
            out.push((d, md));
            assert(docs@ =~= orig.subrange(out@.len() as int, orig.len() as int));
        }
        out
    }
}

} // verus!
