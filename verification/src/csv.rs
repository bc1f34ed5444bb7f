//! Tabular data files (CSV, TSV): a text description with the schema, the
//! row count and a few sample rows, for search indexing.
use vstd::prelude::*;
use uuid::Uuid;
use crate::error::{is_storage_error, storage_error, Error};
use crate::sources::{hash_text, text_hash, texts, trim_suffix_all, trim_suffix_all_exec};
use crate::text::{
    dec_digits, ends_with, ends_with_exec, line_ranges, lines, pieces, push_decimal, str_chars,
    string_from_range, string_push, trim, trim_range,
};
use crate::types::{new_id, now_rfc3339, ContentType, Document, PrivacyLevel};

verus! {

// ── Splitting ────────────────────────────────────────────────────────

/// `s` cut at every `c` (`str::split` with a character): the pieces
/// between separators, one more than there are separators.
pub open spec fn split_char(s: Seq<char>, c: char) -> Seq<Seq<char>>
    decreases s.len(),
{
    if s.len() == 0 {
        seq![seq![]]
    } else {
        let prev = split_char(s.drop_last(), c);
        if s.last() == c {
            prev.push(seq![])
        } else {
            prev.update(prev.len() - 1, prev.last().push(s.last()))
        }
    }
}

proof fn lemma_split_nonempty(s: Seq<char>, c: char)
    ensures
        split_char(s, c).len() >= 1,
    decreases s.len(),
{
    if s.len() > 0 {
        lemma_split_nonempty(s.drop_last(), c);
    }
}

/// The pieces of `v[from..to]` between the `c`s.
fn split_range(v: &[char], from: usize, to: usize, c: char) -> (r: Vec<String>)
    requires
        from <= to <= v@.len(),
    ensures
        texts(r@) == split_char(v@.subrange(from as int, to as int), c),
{
    let mut done: Vec<String> = Vec::new();
    let mut cur = String::new();
    let mut i = from;
    assert(v@.subrange(from as int, from as int) =~= Seq::<char>::empty());
    assert(texts(done@).push(cur@) =~= seq![seq![]]);
    while i < to
        invariant
            from <= i <= to <= v@.len(),
            texts(done@).push(cur@) == split_char(v@.subrange(from as int, i as int), c),
        decreases to - i,
    {
        let ghost s = v@.subrange(from as int, i + 1);
        assert(s.drop_last() =~= v@.subrange(from as int, i as int));
        let ghost before = texts(done@).push(cur@);
        if v[i] == c {
            done.push(cur);
            cur = String::new();
            assert(texts(done@).push(cur@) =~= before.push(seq![]));
        } else {
            let ghost old_done = done@;
            string_push(&mut cur, v[i]);
            assert(texts(done@).push(cur@) =~= before.update(
                before.len() - 1,
                before.last().push(v@[i as int]),
            ));
        }
        i += 1;
    }
    done.push(cur);
    assert(texts(done@) =~= split_char(v@.subrange(from as int, to as int), c));
    done
}

/// Each string trimmed.
pub open spec fn trimmed(v: Seq<Seq<char>>) -> Seq<Seq<char>> {
    v.map_values(|s: Seq<char>| trim(s))
}

/// `s` trimmed.
fn trim_string(s: &str) -> (r: String)
    ensures
        r@ == trim(s@),
{
    let v = str_chars(s);
    let (a, b) = trim_range(v.as_slice(), 0, v.len());
    assert(v@.subrange(0, v@.len() as int) =~= v@);
    string_from_range(v.as_slice(), a, b)
}

/// Every string trimmed.
fn trim_all(cells: &Vec<String>) -> (r: Vec<String>)
    ensures
        texts(r@) == trimmed(texts(cells@)),
{
    let mut r: Vec<String> = Vec::new();
    let mut i: usize = 0;
    while i < cells.len()
        invariant
            i <= cells@.len(),
            r@.len() == i,
            texts(r@) == trimmed(texts(cells@).take(i as int)),
        decreases cells.len() - i,
    {
        let t = trim_string(cells[i].as_str());
        let ghost before = r@;
        r.push(t);
        proof {
            assert(texts(r@) =~= texts(before).push(trim(cells@[i as int]@)));
            assert(texts(cells@).take(i + 1) =~= texts(cells@).take(i as int).push(
                cells@[i as int]@,
            ));
            assert(trimmed(texts(cells@).take(i + 1)) =~= trimmed(texts(cells@).take(i as int)).push(
                trim(cells@[i as int]@),
            ));
        }
        i += 1;
    }
    assert(texts(cells@).take(cells@.len() as int) =~= texts(cells@));
    r
}

// ── The description ──────────────────────────────────────────────────

/// The parts joined together.
pub open spec fn concat(parts: Seq<Seq<char>>) -> Seq<char>
    decreases parts.len(),
{
    if parts.len() == 0 {
        seq![]
    } else {
        concat(parts.drop_last()) + parts.last()
    }
}

/// A table line: `| a | b | ` and a newline.
pub open spec fn cells_line(cells: Seq<Seq<char>>) -> Seq<char> {
    "| "@ + concat(cells.map_values(|c: Seq<char>| c + " | "@)) + "\n"@
}

/// The lines after the header that hold more than whitespace.
pub open spec fn nonblank(ls: Seq<Seq<char>>) -> Seq<Seq<char>>
    decreases ls.len(),
{
    if ls.len() == 0 {
        seq![]
    } else {
        let p = nonblank(ls.drop_last());
        if trim(ls.last()).len() > 0 {
            p.push(ls.last())
        } else {
            p
        }
    }
}

/// The first `n` items (all of them when there are fewer).
pub open spec fn take_upto<T>(s: Seq<T>, n: int) -> Seq<T> {
    if s.len() <= n {
        s
    } else {
        s.take(n)
    }
}

/// The separator of a data file: a tab for `.tsv`, else a comma.
pub open spec fn delimiter_of(filename: Seq<char>) -> char {
    if ends_with(filename, ".tsv"@) {
        '\t'
    } else {
        ','
    }
}

/// `- Column <j+1>: <header>` and a newline.
pub open spec fn column_line(j: int, h: Seq<char>) -> Seq<char> {
    "- Column "@ + dec_digits((j + 1) as nat) + ": "@ + trim(h) + "\n"@
}

/// The cells of each row.
pub open spec fn row_cells(rows: Seq<Seq<char>>, d: char) -> Seq<Seq<Seq<char>>> {
    rows.map_values(|row: Seq<char>| trimmed(split_char(row, d)))
}

/// The description of a data file from its parts: the header cells, the
/// number of data rows, and the cells of the sample rows.
pub open spec fn describe_spec(
    filename: Seq<char>,
    headers: Seq<Seq<char>>,
    row_count: nat,
    samples: Seq<Seq<Seq<char>>>,
) -> Seq<char> {
    "# Dataset: "@ + filename + "\n\n## Schema\n\nColumns ("@ + dec_digits(headers.len()) + "):\n"@
        + concat(Seq::new(headers.len(), |j: int| column_line(j, headers[j])))
        + "\n## Statistics\n\nTotal rows: "@ + dec_digits(row_count) + "\n"@ + if samples.len()
        == 0 {
        seq![]
    } else {
        "\n## Sample Data\n\n"@ + cells_line(trimmed(headers)) + cells_line(
            Seq::new(headers.len(), |j: int| "---"@),
        ) + concat(samples.map_values(|c: Seq<Seq<char>>| cells_line(c)))
    }
}

/// The description of a data file whose lines are `ls` (at least one).
pub open spec fn csv_text(filename: Seq<char>, ls: Seq<Seq<char>>) -> Seq<char> {
    let d = delimiter_of(filename);
    let rows = nonblank(ls.drop_first());
    describe_spec(filename, split_char(ls[0], d), rows.len(), row_cells(take_upto(rows, 5), d))
}

/// The id of a data file's document: its name without `.csv`, then
/// without `.tsv`.
pub open spec fn csv_external_id(filename: Seq<char>) -> Seq<char> {
    trim_suffix_all(trim_suffix_all(filename, ".csv"@), ".tsv"@)
}

/// Appends a table line for `cells`.
fn push_cells_line(s: &mut String, cells: &Vec<String>)
    ensures
        final(s)@ == old(s)@ + cells_line(texts(cells@)),
{
    let ghost start = s@;
    s.append("| ");
    let ghost f = |c: Seq<char>| c + " | "@;
    let mut i: usize = 0;
    while i < cells.len()
        invariant
            i <= cells@.len(),
            f == (|c: Seq<char>| c + " | "@),
            s@ == start + "| "@ + concat(texts(cells@).take(i as int).map_values(f)),
        decreases cells.len() - i,
    {
        s.append(cells[i].as_str());
        s.append(" | ");
        proof {
            let t = texts(cells@);
            assert(t.take(i + 1).map_values(f).drop_last() =~= t.take(i as int).map_values(f));
            assert(t.take(i + 1).map_values(f).last() == cells@[i as int]@ + " | "@);
        }
        i += 1;
    }
    s.append("\n");
    assert(texts(cells@).take(cells@.len() as int) =~= texts(cells@));
}

// ── Parsing ──────────────────────────────────────────────────────────

/// The views of rows of cells.
pub open spec fn rows_view(rows: Seq<Vec<String>>) -> Seq<Seq<Seq<char>>> {
    rows.map_values(|r: Vec<String>| texts(r@))
}

/// Counts the lines after the first that hold more than whitespace, and
/// keeps the trimmed cells of the first five of them.
fn scan_rows(v: &[char], ranges: &Vec<(usize, usize)>, delim: char) -> (r: (u64, Vec<Vec<String>>))
    requires
        ranges@.len() >= 1,
        ranges@.len() <= v@.len(),
        forall|k: int|
            0 <= k < ranges@.len() ==> (#[trigger] ranges@[k]).0 <= ranges@[k].1 <= v@.len(),
    ensures
        r.0 == nonblank(pieces(v@, ranges@).drop_first()).len(),
        rows_view(r.1@) == row_cells(take_upto(nonblank(pieces(v@, ranges@).drop_first()), 5), delim),
{
    let ghost ls = pieces(v@, ranges@);
    let ghost rest = ls.drop_first();
    let mut row_count: u64 = 0;
    let mut samples: Vec<Vec<String>> = Vec::new();
    let mut i: usize = 1;
    while i < ranges.len()
        invariant
            1 <= i <= ranges@.len(),
            ranges@.len() <= v@.len(),
            ls == pieces(v@, ranges@),
            rest == ls.drop_first(),
            forall|k: int|
                0 <= k < ranges@.len() ==> (#[trigger] ranges@[k]).0 <= ranges@[k].1 <= v@.len(),
            row_count == nonblank(rest.take(i - 1)).len(),
            row_count <= i,
            samples@.len() == take_upto(nonblank(rest.take(i - 1)), 5).len(),
            rows_view(samples@) == row_cells(take_upto(nonblank(rest.take(i - 1)), 5), delim),
        decreases ranges.len() - i,
    {
        let (a, b) = ranges[i];
        let ghost line = ls[i as int];
        assert(line == v@.subrange(a as int, b as int));
        assert(rest.take(i as int).drop_last() =~= rest.take(i - 1));
        assert(rest.take(i as int).last() == line);
        let ghost prev = nonblank(rest.take(i - 1));
        proof {
            lemma_nonblank_len(rest.take(i - 1));
        }
        let (ta, tb) = trim_range(v, a, b);
        if ta < tb {
            row_count = row_count + 1;
            if samples.len() < 5 {
                let cells = split_range(v, a, b, delim);
                let cells = trim_all(&cells);
                let ghost before = samples@;
                samples.push(cells);
                proof {
                    assert(take_upto(prev.push(line), 5) =~= take_upto(prev, 5).push(line));
                    assert(rows_view(samples@) =~= rows_view(before).push(texts(cells@)));
                    assert(row_cells(take_upto(prev.push(line), 5), delim) =~= row_cells(
                        take_upto(prev, 5),
                        delim,
                    ).push(trimmed(split_char(line, delim))));
                }
            } else {
                assert(take_upto(prev.push(line), 5) =~= take_upto(prev, 5));
            }
        }
        i += 1;
    }
    assert(rest.take(ranges@.len() - 1) =~= rest);
    (row_count, samples)
}

proof fn lemma_nonblank_len(ls: Seq<Seq<char>>)
    ensures
        nonblank(ls).len() <= ls.len(),
    decreases ls.len(),
{
    if ls.len() > 0 {
        lemma_nonblank_len(ls.drop_last());
    }
}

/// The description of a data file from its parts.
fn describe(filename: &str, headers: &Vec<String>, row_count: u64, samples: &Vec<Vec<String>>) -> (text: String)
    ensures
        text@ == describe_spec(filename@, texts(headers@), row_count as nat, rows_view(samples@)),
{
    let ghost hs = texts(headers@);
    let mut text = String::from_str("# Dataset: ");
    text.append(filename);
    text.append("\n\n## Schema\n\nColumns (");
    push_decimal(&mut text, headers.len() as u64, 0);
    text.append("):\n");
    let ghost head = text@;
    let ghost col = |j: int| column_line(j, hs[j]);
    let mut j: usize = 0;
    while j < headers.len()
        invariant
            j <= headers@.len(),
            texts(headers@) == hs,
            col == (|k: int| column_line(k, hs[k])),
            text@ == head + concat(Seq::new(j as nat, col)),
        decreases headers.len() - j,
    {
        text.append("- Column ");
        push_decimal(&mut text, (j + 1) as u64, 0);
        text.append(": ");
        let h = trim_string(headers[j].as_str());
        text.append(h.as_str());
        text.append("\n");
        proof {
            reveal_strlit("- Column ");
            reveal_strlit(": ");
            reveal_strlit("\n");
            assert(Seq::new((j + 1) as nat, col).drop_last() =~= Seq::new(j as nat, col));
            assert(hs[j as int] == headers@[j as int]@);
        }
        j += 1;
    }
    text.append("\n## Statistics\n\nTotal rows: ");
    push_decimal(&mut text, row_count, 0);
    text.append("\n");
    if samples.len() > 0 {
        text.append("\n## Sample Data\n\n");
        let th = trim_all(headers);
        push_cells_line(&mut text, &th);
        let mut dashes: Vec<String> = Vec::new();
        let mut k: usize = 0;
        while k < headers.len()
            invariant
                k <= headers@.len(),
                dashes@.len() == k,
                texts(dashes@) == Seq::new(k as nat, |q: int| "---"@),
            decreases headers.len() - k,
        {
            let ghost before = dashes@;
            dashes.push(String::from_str("---"));
            assert(texts(dashes@) =~= texts(before).push("---"@));
            assert(Seq::new((k + 1) as nat, |q: int| "---"@) =~= Seq::new(
                k as nat,
                |q: int| "---"@,
            ).push("---"@));
            k += 1;
        }
        push_cells_line(&mut text, &dashes);
        let ghost after_rule = text@;
        let ghost sv = rows_view(samples@);
        let ghost rowf = |c: Seq<Seq<char>>| cells_line(c);
        let mut q: usize = 0;
        while q < samples.len()
            invariant
                q <= samples@.len(),
                sv == rows_view(samples@),
                rowf == (|c: Seq<Seq<char>>| cells_line(c)),
                text@ == after_rule + concat(sv.take(q as int).map_values(rowf)),
            decreases samples.len() - q,
        {
            push_cells_line(&mut text, &samples[q]);
            proof {
                assert(sv.take(q + 1).map_values(rowf).drop_last() =~= sv.take(
                    q as int,
                ).map_values(rowf));
                assert(sv[q as int] == texts(samples@[q as int]@));
            }
            q += 1;
        }
        assert(sv.take(sv.len() as int) =~= sv);
        proof {
            reveal_strlit("\n## Sample Data\n\n");
            reveal_strlit("---");
        }
    }
    proof {
        reveal_strlit("# Dataset: ");
        reveal_strlit("\n\n## Schema\n\nColumns (");
        reveal_strlit("):\n");
        reveal_strlit("\n## Statistics\n\nTotal rows: ");
        reveal_strlit("\n");
    }
    text
}

/// The document id of a data file.
fn csv_id(fname: &Vec<char>) -> (r: String)
    ensures
        r@ == csv_external_id(fname@),
{
    let csv = str_chars(".csv");
    let tsv = str_chars(".tsv");
    let n1 = trim_suffix_all_exec(fname.as_slice(), csv.as_slice());
    let base = &fname.as_slice()[0..n1];
    let n2 = trim_suffix_all_exec(base, tsv.as_slice());
    proof {
        reveal_strlit(".csv");
        reveal_strlit(".tsv");
        assert(base@ == fname@.subrange(0, n1 as int));
    }
    string_from_range(base, 0, n2)
}

/// Describes a data file named `filename` with content `content`: the
/// columns of its first line, how many later lines hold data, and up to
/// five of them as a table. An empty file is refused.
pub fn parse_csv(filename: &str, content: &str, source_id: Uuid) -> (r: Result<(Document, String), Error>)
    ensures
        lines(content@).len() == 0 ==> is_storage_error(r, "empty CSV file"@),
        lines(content@).len() > 0 ==> (r matches Ok((d, t)) && t@ == csv_text(
            filename@,
            lines(content@),
        ) && d.source_id == source_id && d.external_id@ == csv_external_id(filename@)
            && d.title@ == "Dataset: "@ + filename@ && d.content_type == ContentType::Record
            && d.parent_id is None && d.depth == 0 && d.language is None && d.content_hash.0@
            == text_hash(t@) && d.content_size == vstd::utf8::encode_utf8(t@).len()
            && d.privacy_level == PrivacyLevel::Public),
{
    let v = str_chars(content);
    let ranges = line_ranges(v.as_slice());
    let ghost ls = lines(content@);
    if ranges.len() == 0 {
        return Err(storage_error("empty CSV file"));
    }
    let fname = str_chars(filename);
    let tsv = str_chars(".tsv");
    proof {
        reveal_strlit(".tsv");
    }
    let delim = if ends_with_exec(fname.as_slice(), tsv.as_slice()) {
        '\t'
    } else {
        ','
    };
    let (h0, h1) = ranges[0];
    assert(ls[0] == v@.subrange(h0 as int, h1 as int));
    let headers = split_range(v.as_slice(), h0, h1, delim);
    let (row_count, samples) = scan_rows(v.as_slice(), &ranges, delim);
    let text = describe(filename, &headers, row_count, &samples);
    assert(text@ == csv_text(filename@, ls));
    let mut title = String::from_str("Dataset: ");
    title.append(filename);
    let doc = Document {
        id: new_id(),
        source_id,
        external_id: csv_id(&fname),
        parent_id: None,
        depth: 0,
        title,
        content_type: ContentType::Record,
        language: None,
        content_hash: hash_text(text.as_str()),
        content_size: text.as_str().as_bytes().len() as u64,
        created_at: now_rfc3339(),
        indexed_at: now_rfc3339(),
        privacy_level: PrivacyLevel::Public,
    };
    Ok((doc, text))
}

} // verus!
