//! GPS tracks in GPX: reading track points out of the XML text.
use vstd::prelude::*;
use crate::text::{find, find_exec, lemma_find, occurs_at, str_chars, string_from_range};

verus! {

/// The text of the first `<tag>...</tag>` element in `text`.
pub open spec fn xml_element(text: Seq<char>, tag: Seq<char>) -> Option<Seq<char>> {
    let open = "<"@ + tag + ">"@;
    let close = "</"@ + tag + ">"@;
    match find(text, open) {
        Some(i) => {
            let start = i + open.len();
            match find(text.subrange(start, text.len() as int), close) {
                Some(j) => Some(text.subrange(start, start + j)),
                None => None,
            }
        },
        None => None,
    }
}

/// The value of the first `attr="..."` in `text`.
pub open spec fn xml_attr(text: Seq<char>, attr: Seq<char>) -> Option<Seq<char>> {
    let pat = attr + "=\""@;
    match find(text, pat) {
        Some(i) => {
            let start = i + pat.len();
            match find(text.subrange(start, text.len() as int), "\""@) {
                Some(j) => Some(text.subrange(start, start + j)),
                None => None,
            }
        },
        None => None,
    }
}

/// The text between the first occurrence of `open` in `t` and the next
/// `close` after it.
fn between(t: &Vec<char>, open: &Vec<char>, close: &Vec<char>) -> (r: Option<String>)
    ensures
        match find(t@, open@) {
            Some(i) => {
                let start = i + open@.len();
                match find(t@.subrange(start, t@.len() as int), close@) {
                    Some(j) => r matches Some(s) && s@ == t@.subrange(start, start + j),
                    None => r is None,
                }
            },
            None => r is None,
        },
{
    let tlen = t.len();
    let i = match find_exec(t.as_slice(), open.as_slice()) {
        Some(i) => i,
        None => {
            return None;
        },
    };
    proof {
        lemma_find(t@, open@);
        assert(occurs_at(t@, open@, i as int));
    }
    assert(i + open@.len() <= tlen);
    let start = i + open.len();
    let rest = &t.as_slice()[start..tlen];
    assert(rest@ == t@.subrange(start as int, t@.len() as int));
    let j = match find_exec(rest, close.as_slice()) {
        Some(j) => j,
        None => {
            return None;
        },
    };
    proof {
        lemma_find(rest@, close@);
        assert(occurs_at(rest@, close@, j as int));
    }
    Some(string_from_range(t.as_slice(), start, start + j))
}

/// The text of the first `<tag>...</tag>` element.
pub fn extract_xml_element(text: &str, tag: &str) -> (r: Option<String>)
    ensures
        match xml_element(text@, tag@) {
            Some(e) => r matches Some(s) && s@ == e,
            None => r is None,
        },
{
    let mut open = String::from_str("<");
    open.append(tag);
    open.append(">");
    let mut close = String::from_str("</");
    close.append(tag);
    close.append(">");
    proof {
        reveal_strlit("<");
        reveal_strlit(">");
        reveal_strlit("</");
    }
    let t = str_chars(text);
    let o = str_chars(open.as_str());
    let c = str_chars(close.as_str());
    between(&t, &o, &c)
}

/// The value of the first `attr="..."`, as text.
pub fn extract_xml_attr(text: &str, attr: &str) -> (r: Option<String>)
    ensures
        match xml_attr(text@, attr@) {
            Some(e) => r matches Some(s) && s@ == e,
            None => r is None,
        },
{
    let mut pat = String::from_str(attr);
    pat.append("=\"");
    proof {
        reveal_strlit("=\"");
        reveal_strlit("\"");
    }
    let t = str_chars(text);
    let p = str_chars(pat.as_str());
    let q = str_chars("\"");
    between(&t, &p, &q)
}

} // verus!
