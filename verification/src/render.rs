//! The document viewer's logic: how each line is styled, where search
//! matches are marked, where sections start, and how keys move the view.
use vstd::prelude::*;
use crate::text::{
    dec_digits, line_ranges, lines, occurs_at, occurs_at_exec, pieces, push_decimal, push_range,
    starts_with, starts_with_exec, str_chars, string_from_range, string_push, to_lowercase,
    lowercase, trim, trim_range,
};

verus! {

// ── Line styles ──────────────────────────────────────────────────────

/// How a line is shown.
#[derive(Debug, Clone, Copy, PartialEq, Eq, Structural)]
pub enum LineKind {
    /// A `# ` heading.
    Title,
    /// A `## ` or `### ` heading.
    Heading,
    /// Plain text.
    Plain,
    /// Text with search matches marked (see the segments).
    Marked,
}

/// A run of a line's characters, marked when it is a search match.
#[derive(Debug, Clone, Copy)]
pub struct Segment {
    pub start: usize,
    pub end: usize,
    pub matched: bool,
}

/// A line of the document as shown.
#[derive(Debug, Clone)]
pub struct StyledLine {
    pub text: String,
    pub kind: LineKind,
    pub segments: Vec<Segment>,
}

/// The view of a segment.
pub open spec fn segment_view(s: Segment) -> (int, int, bool) {
    (s.start as int, s.end as int, s.matched)
}

/// The views of segments.
pub open spec fn segments_view(s: Seq<Segment>) -> Seq<(int, int, bool)> {
    s.map_values(|x: Segment| segment_view(x))
}

/// The starts of the leftmost non-overlapping occurrences of `q` in `s`
/// at or after `i` (`str::match_indices`).
pub open spec fn marks(s: Seq<char>, q: Seq<char>, i: int) -> Seq<int>
    decreases s.len() - i,
{
    if q.len() == 0 || i < 0 || i + q.len() > s.len() {
        seq![]
    } else if occurs_at(s, q, i) {
        seq![i] + marks(s, q, i + q.len())
    } else {
        marks(s, q, i + 1)
    }
}

/// The runs of a line of `n` characters: each match of length `m` at the
/// positions `ms`, and the unmatched text before, between and after them.
pub open spec fn segs(ms: Seq<int>, m: int, n: int, last: int) -> Seq<(int, int, bool)>
    decreases ms.len(),
{
    if ms.len() == 0 {
        if last < n {
            seq![(last, n, false)]
        } else {
            seq![]
        }
    } else {
        let pos = ms[0];
        (if pos > last {
            seq![(last, pos, false)]
        } else {
            seq![]
        }) + seq![(pos, pos + m, true)] + segs(ms.drop_first(), m, n, pos + m)
    }
}

/// The marked runs of `line` for `query`, matched without regard to case;
/// `None` when nothing matches (the line is shown plain). A line or query
/// whose lower-casing changes its length is shown plain as well.
pub open spec fn highlight_spec(line: Seq<char>, query: Seq<char>) -> Option<Seq<(int, int, bool)>> {
    let lower = lowercase(line);
    let ql = lowercase(query);
    let ms = marks(lower, ql, 0);
    if query.len() == 0 || ms.len() == 0 || lower.len() != line.len() || ql.len() != query.len() {
        None
    } else {
        Some(segs(ms, query.len() as int, line.len() as int, 0))
    }
}

/// The kind of a line: headings first, then marked text when a search
/// query matches it.
pub open spec fn line_kind(line: Seq<char>, highlight: Option<Seq<char>>) -> LineKind {
    if starts_with(line, "# "@) {
        LineKind::Title
    } else if starts_with(line, "## "@) || starts_with(line, "### "@) {
        LineKind::Heading
    } else {
        match highlight {
            Some(q) => if highlight_spec(line, q) is Some {
                LineKind::Marked
            } else {
                LineKind::Plain
            },
            None => LineKind::Plain,
        }
    }
}

/// The marked runs of a line shown with kind `Marked`, none otherwise.
pub open spec fn line_segments(line: Seq<char>, highlight: Option<Seq<char>>) -> Seq<(int, int, bool)> {
    if line_kind(line, highlight) == LineKind::Marked {
        match highlight {
            Some(q) => match highlight_spec(line, q) {
                Some(s) => s,
                None => seq![],
            },
            None => seq![],
        }
    } else {
        seq![]
    }
}

/// `marks` with every position in range and later ones further on.
proof fn lemma_marks_bounds(s: Seq<char>, q: Seq<char>, i: int)
    ensures
        forall|k: int|
            0 <= k < marks(s, q, i).len() ==> i <= #[trigger] marks(s, q, i)[k] && marks(s, q, i)[k]
                + q.len() <= s.len(),
        forall|k: int|
            0 < k < marks(s, q, i).len() ==> marks(s, q, i)[k - 1] + q.len() <= #[trigger] marks(
                s,
                q,
                i,
            )[k],
    decreases s.len() - i,
{
    if q.len() == 0 || i < 0 || i + q.len() > s.len() {
    } else if occurs_at(s, q, i) {
        lemma_marks_bounds(s, q, i + q.len());
        let rest = marks(s, q, i + q.len());
        let all = marks(s, q, i);
        assert(all == seq![i] + rest);
        assert forall|k: int| 0 <= k < all.len() implies i <= #[trigger] all[k] && all[k] + q.len()
            <= s.len() by {
            if k >= 1 {
                assert(all[k] == rest[k - 1]);
            }
        }
        assert forall|k: int| 0 < k < all.len() implies all[k - 1] + q.len() <= #[trigger] all[k] by {
            if k >= 2 {
                assert(all[k - 1] == rest[k - 2]);
                assert(all[k] == rest[k - 1]);
            } else {
                assert(all[k] == rest[0]);
            }
        }
    } else {
        lemma_marks_bounds(s, q, i + 1);
        assert(marks(s, q, i) == marks(s, q, i + 1));
    }
}

/// The positions of the leftmost non-overlapping occurrences of `q` in `s`.
fn marks_exec(s: &[char], q: &[char]) -> (r: Vec<usize>)
    ensures
        r@.map_values(|x: usize| x as int) == marks(s@, q@, 0),
{
    let mut r: Vec<usize> = Vec::new();
    if q.len() == 0 {
        return r;
    }
    let mut i: usize = 0;
    while i <= s.len() && q.len() <= s.len() - i
        invariant
            q@.len() > 0,
            i <= s@.len(),
            r@.map_values(|x: usize| x as int) + marks(s@, q@, i as int) == marks(s@, q@, 0),
        decreases s.len() - i,
    {
        let ghost before = r@;
        if occurs_at_exec(s, q, i) {
            r.push(i);
            proof {
                assert(r@.map_values(|x: usize| x as int) =~= before.map_values(|x: usize| x as int)
                    + seq![i as int]);
                assert(marks(s@, q@, i as int) == seq![i as int] + marks(s@, q@, i + q@.len()));
                assert(r@.map_values(|x: usize| x as int) + marks(s@, q@, i + q@.len()) =~= before.map_values(
                    |x: usize| x as int,
                ) + marks(s@, q@, i as int));
            }
            i = i + q.len();
        } else {
            i = i + 1;
        }
    }
    proof {
        assert(marks(s@, q@, i as int) == Seq::<int>::empty());
        assert(r@.map_values(|x: usize| x as int) + Seq::<int>::empty() =~= r@.map_values(
            |x: usize| x as int,
        ));
    }
    r
}

/// The runs for matches of length `m` at `ms` in a line of `n` characters.
fn segs_exec(ms: &Vec<usize>, m: usize, n: usize) -> (r: Vec<Segment>)
    requires
        forall|k: int| 0 <= k < ms@.len() ==> #[trigger] ms@[k] + m <= n,
        forall|k: int| 0 < k < ms@.len() ==> ms@[k - 1] + m <= #[trigger] ms@[k],
    ensures
        segments_view(r@) == segs(ms@.map_values(|x: usize| x as int), m as int, n as int, 0),
{
    let ghost all = ms@.map_values(|x: usize| x as int);
    let mut r: Vec<Segment> = Vec::new();
    let mut last: usize = 0;
    let mut k: usize = 0;
    assert(all.subrange(0, all.len() as int) =~= all);
    assert(segments_view(r@) =~= Seq::<(int, int, bool)>::empty());
    while k < ms.len()
        invariant
            k <= ms@.len(),
            all == ms@.map_values(|x: usize| x as int),
            forall|j: int| 0 <= j < ms@.len() ==> #[trigger] ms@[j] + m <= n,
            forall|j: int| 0 < j < ms@.len() ==> ms@[j - 1] + m <= #[trigger] ms@[j],
            k == 0 ==> last == 0,
            k > 0 ==> last == ms@[k - 1] + m,
            last <= n,
            segments_view(r@) + segs(all.subrange(k as int, all.len() as int), m as int, n as int, last as int)
                == segs(all, m as int, n as int, 0),
        decreases ms.len() - k,
    {
        let pos = ms[k];
        let ghost rest = all.subrange(k as int, all.len() as int);
        let ghost before = segments_view(r@);
        assert(rest[0] == pos as int);
        assert(rest.drop_first() =~= all.subrange(k + 1, all.len() as int));
        if pos > last {
            r.push(Segment { start: last, end: pos, matched: false });
        }
        r.push(Segment { start: pos, end: pos + m, matched: true });
        proof {
            let pre = if pos > last {
                seq![(last as int, pos as int, false)]
            } else {
                seq![]
            };
            assert(segments_view(r@) =~= before + pre + seq![(pos as int, pos + m, true)]);
        }
        last = pos + m;
        k += 1;
    }
    let ghost before = segments_view(r@);
    assert(all.subrange(ms@.len() as int, all.len() as int) =~= Seq::<int>::empty());
    if last < n {
        r.push(Segment { start: last, end: n, matched: false });
        assert(segments_view(r@) =~= before + seq![(last as int, n as int, false)]);
    } else {
        assert(before + Seq::<(int, int, bool)>::empty() =~= before);
    }
    r
}

/// The marked runs of `line` for `query`, if any.
pub fn highlight_line(line: &str, query: &str) -> (r: Option<Vec<Segment>>)
    ensures
        match highlight_spec(line@, query@) {
            Some(s) => r matches Some(v) && segments_view(v@) == s,
            None => r is None,
        },
{
    let lv = str_chars(line);
    let qv = str_chars(query);
    if qv.len() == 0 {
        return None;
    }
    let lower_s = to_lowercase(line);
    let ql_s = to_lowercase(query);
    let lower = str_chars(lower_s.as_str());
    let ql = str_chars(ql_s.as_str());
    let ms = marks_exec(lower.as_slice(), ql.as_slice());
    if ms.len() == 0 || lower.len() != lv.len() || ql.len() != qv.len() {
        return None;
    }
    proof {
        lemma_marks_bounds(lower@, ql@, 0);
        assert forall|k: int| 0 <= k < ms@.len() implies #[trigger] ms@[k] + qv@.len() <= lv@.len() by {
            assert(ms@.map_values(|x: usize| x as int)[k] == ms@[k] as int);
        }
        assert forall|k: int| 0 < k < ms@.len() implies ms@[k - 1] + qv@.len() <= #[trigger] ms@[k] by {
            assert(ms@.map_values(|x: usize| x as int)[k] == ms@[k] as int);
            assert(ms@.map_values(|x: usize| x as int)[k - 1] == ms@[k - 1] as int);
        }
    }
    Some(segs_exec(&ms, qv.len(), lv.len()))
}

/// The view of a styled line.
pub open spec fn styled_view(l: StyledLine) -> (Seq<char>, LineKind, Seq<(int, int, bool)>) {
    (l.text@, l.kind, segments_view(l.segments@))
}

/// The styled form of a line.
fn style_line(line: String, highlight: Option<&str>) -> (r: StyledLine)
    ensures
        styled_view(r) == (
            line@,
            line_kind(
                line@,
                match highlight {
                    Some(q) => Some(q@),
                    None => None,
                },
            ),
            line_segments(
                line@,
                match highlight {
                    Some(q) => Some(q@),
                    None => None,
                },
            ),
        ),
{
    let v = str_chars(line.as_str());
    let t = str_chars("# ");
    let h2 = str_chars("## ");
    let h3 = str_chars("### ");
    proof {
        reveal_strlit("# ");
        reveal_strlit("## ");
        reveal_strlit("### ");
    }
    let empty: Vec<Segment> = Vec::new();
    assert(segments_view(empty@) =~= Seq::<(int, int, bool)>::empty());
    if starts_with_exec(v.as_slice(), t.as_slice()) {
        return StyledLine { text: line, kind: LineKind::Title, segments: empty };
    }
    if starts_with_exec(v.as_slice(), h2.as_slice()) || starts_with_exec(v.as_slice(), h3.as_slice()) {
        return StyledLine { text: line, kind: LineKind::Heading, segments: empty };
    }
    match highlight {
        Some(q) => match highlight_line(line.as_str(), q) {
            Some(segments) => StyledLine { text: line, kind: LineKind::Marked, segments },
            None => StyledLine { text: line, kind: LineKind::Plain, segments: empty },
        },
        None => StyledLine { text: line, kind: LineKind::Plain, segments: empty },
    }
}

/// The lines of `content`, styled: titles, headings, and, when a search
/// query is given, the matches of other lines marked.
pub fn build_lines(content: &str, highlight: Option<&str>) -> (r: Vec<StyledLine>)
    ensures
        r@.len() == lines(content@).len(),
        forall|i: int|
            0 <= i < r@.len() ==> styled_view(#[trigger] r@[i]) == (
                lines(content@)[i],
                line_kind(
                    lines(content@)[i],
                    match highlight {
                        Some(q) => Some(q@),
                        None => None,
                    },
                ),
                line_segments(
                    lines(content@)[i],
                    match highlight {
                        Some(q) => Some(q@),
                        None => None,
                    },
                ),
            ),
{
    let v = str_chars(content);
    let ranges = line_ranges(v.as_slice());
    let ghost ls = lines(content@);
    let ghost hq = match highlight {
        Some(q) => Some(q@),
        None => None,
    };
    let mut r: Vec<StyledLine> = Vec::new();
    let mut i: usize = 0;
    while i < ranges.len()
        invariant
            i <= ranges@.len(),
            pieces(v@, ranges@) == ls,
            v@ == content@,
            ls == lines(content@),
            hq == (match highlight {
                Some(q) => Some(q@),
                None => None,
            }),
            forall|k: int|
                0 <= k < ranges@.len() ==> (#[trigger] ranges@[k]).0 <= ranges@[k].1 <= v@.len(),
            r@.len() == i,
            forall|k: int|
                0 <= k < i ==> styled_view(#[trigger] r@[k]) == (
                    ls[k],
                    line_kind(ls[k], hq),
                    line_segments(ls[k], hq),
                ),
        decreases ranges.len() - i,
    {
        let (a, b) = ranges[i];
        let line = string_from_range(v.as_slice(), a, b);
        assert(line@ == ls[i as int]);
        r.push(style_line(line, highlight));
        i += 1;
    }
    r
}

// ── Sections ─────────────────────────────────────────────────────────

/// A line that starts a section: a `## ` or `# ` heading.
pub open spec fn starts_section(line: Seq<char>) -> bool {
    starts_with(line, "## "@) || starts_with(line, "# "@)
}

/// The indices of the section lines among the first `n` of `ls`.
pub open spec fn section_lines(ls: Seq<Seq<char>>, n: int) -> Seq<int>
    decreases n,
{
    if n <= 0 {
        seq![]
    } else if starts_section(ls[n - 1]) {
        section_lines(ls, n - 1).push(n - 1)
    } else {
        section_lines(ls, n - 1)
    }
}

proof fn lemma_section_lines_bounds(ls: Seq<Seq<char>>, n: int)
    requires
        0 <= n,
    ensures
        section_lines(ls, n).len() <= n,
        forall|k: int| 0 <= k < section_lines(ls, n).len() ==> 0 <= #[trigger] section_lines(ls, n)[k] < n,
    decreases n,
{
    if n > 0 {
        lemma_section_lines_bounds(ls, n - 1);
    }
}

/// The line numbers at which sections start.
pub fn find_sections(content: &str) -> (r: Vec<usize>)
    ensures
        r@.map_values(|x: usize| x as int) == section_lines(lines(content@), lines(content@).len() as int),
{
    let v = str_chars(content);
    let ranges = line_ranges(v.as_slice());
    let ghost ls = lines(content@);
    let h1 = str_chars("# ");
    let h2 = str_chars("## ");
    proof {
        reveal_strlit("# ");
        reveal_strlit("## ");
    }
    let mut r: Vec<usize> = Vec::new();
    let mut i: usize = 0;
    while i < ranges.len()
        invariant
            i <= ranges@.len(),
            pieces(v@, ranges@) == ls,
            ls == lines(content@),
            h1@ == "# "@,
            h2@ == "## "@,
            forall|k: int|
                0 <= k < ranges@.len() ==> (#[trigger] ranges@[k]).0 <= ranges@[k].1 <= v@.len(),
            r@.map_values(|x: usize| x as int) == section_lines(ls, i as int),
        decreases ranges.len() - i,
    {
        let (a, b) = ranges[i];
        let line = &v.as_slice()[a..b];
        assert(line@ == ls[i as int]);
        let ghost before = r@;
        if starts_with_exec(line, h2.as_slice()) || starts_with_exec(line, h1.as_slice()) {
            r.push(i);
            assert(r@.map_values(|x: usize| x as int) =~= before.map_values(|x: usize| x as int).push(
                i as int,
            ));
        }
        i += 1;
    }
    r
}

// ── Keys ─────────────────────────────────────────────────────────────

/// What a key asks of the viewer.
#[derive(Debug, Clone, Copy, PartialEq, Eq, Structural)]
pub enum ViewerKey {
    Quit,
    Down,
    Up,
    PageDown,
    PageUp,
    Top,
    Bottom,
    NextSection,
    PrevSection,
    Other,
}

impl ViewerKey {
    /// The action of a character key; `control_only` when Control is the
    /// only modifier held.
    pub fn from_char(c: char, control_only: bool) -> (k: ViewerKey)
        ensures
            k == (if c == 'q' || (c == 'c' && control_only) {
                ViewerKey::Quit
            } else if c == 'j' {
                ViewerKey::Down
            } else if c == 'k' {
                ViewerKey::Up
            } else if c == ' ' {
                ViewerKey::PageDown
            } else if c == 'g' {
                ViewerKey::Top
            } else if c == 'G' {
                ViewerKey::Bottom
            } else if c == 'n' {
                ViewerKey::NextSection
            } else if c == 'N' {
                ViewerKey::PrevSection
            } else {
                ViewerKey::Other
            }),
    {
        if c == 'q' || (c == 'c' && control_only) {
            ViewerKey::Quit
        } else if c == 'j' {
            ViewerKey::Down
        } else if c == 'k' {
            ViewerKey::Up
        } else if c == ' ' {
            ViewerKey::PageDown
        } else if c == 'g' {
            ViewerKey::Top
        } else if c == 'G' {
            ViewerKey::Bottom
        } else if c == 'n' {
            ViewerKey::NextSection
        } else if c == 'N' {
            ViewerKey::PrevSection
        } else {
            ViewerKey::Other
        }
    }
}

/// `a + b`, at most `u16::MAX`.
pub open spec fn sat_add16(a: int, b: int) -> u16 {
    if a + b > u16::MAX {
        u16::MAX
    } else {
        (a + b) as u16
    }
}

/// `a - b`, at least zero.
pub open spec fn sat_sub(a: int, b: int) -> int {
    if a > b {
        a - b
    } else {
        0
    }
}

/// The smaller of two.
pub open spec fn min16(a: u16, b: u16) -> u16 {
    if a < b {
        a
    } else {
        b
    }
}

/// Scroll position and section of the viewer over a document.
pub struct Viewer {
    total_lines: usize,
    sections: Vec<usize>,
    scroll: u16,
    current_section: usize,
}

impl Viewer {
    #[verifier::type_invariant]
    spec fn inv(self) -> bool {
        self.current_section == 0 || self.current_section < self.sections@.len()
    }

    /// The number of lines.
    pub closed spec fn lines_total(self) -> usize {
        self.total_lines
    }

    /// The section start lines.
    pub closed spec fn section_starts(self) -> Seq<usize> {
        self.sections@
    }

    /// The first line shown.
    pub closed spec fn top(self) -> u16 {
        self.scroll
    }

    /// The section last moved to.
    pub closed spec fn section(self) -> usize {
        self.current_section
    }

    /// A viewer at the top of `content`.
    pub fn new(content: &str) -> (v: Viewer)
        ensures
            v.lines_total() == lines(content@).len(),
            v.section_starts().map_values(|x: usize| x as int) == section_lines(
                lines(content@),
                lines(content@).len() as int,
            ),
            v.top() == 0,
            v.section() == 0,
    {
        let cv = str_chars(content);
        let ranges = line_ranges(cv.as_slice());
        let sections = find_sections(content);
        Viewer { total_lines: ranges.len(), sections, scroll: 0, current_section: 0 }
    }

    /// The first line shown.
    pub fn scroll(&self) -> (s: u16)
        ensures
            s == self.top(),
    {
        self.scroll
    }

    /// The last line a scroll may reach, as the view's 16-bit line number.
    pub open spec fn bottom(self) -> u16 {
        sat_sub(self.lines_total() as int, 1) as u16
    }

    /// Moves the view for `key` in a terminal `height` rows high; returns
    /// whether the viewer closes.
    pub fn handle(&mut self, key: ViewerKey, height: u16) -> (quit: bool)
        ensures
            quit == (key == ViewerKey::Quit),
            final(self).lines_total() == old(self).lines_total(),
            final(self).section_starts() == old(self).section_starts(),
            ({
                let s = old(self).top();
                let b = old(self).bottom();
                let page = sat_sub(height as int, 3);
                let n = old(self).section_starts().len();
                let c = old(self).section();
                match key {
                    ViewerKey::Down => final(self).top() == min16(sat_add16(s as int, 1), b)
                        && final(self).section() == c,
                    ViewerKey::Up => final(self).top() == sat_sub(s as int, 1) && final(self).section()
                        == c,
                    ViewerKey::PageDown => final(self).top() == min16(sat_add16(s as int, page), b)
                        && final(self).section() == c,
                    ViewerKey::PageUp => final(self).top() == sat_sub(s as int, page)
                        && final(self).section() == c,
                    ViewerKey::Top => final(self).top() == 0 && final(self).section() == c,
                    ViewerKey::Bottom => final(self).top() == b && final(self).section() == c,
                    ViewerKey::NextSection => if n == 0 {
                        final(self).top() == s && final(self).section() == c
                    } else {
                        &&& final(self).section() == (if c + 1 < n - 1 { c + 1 } else { n - 1 })
                        &&& final(self).top() == old(self).section_starts()[final(self).section() as int] as u16
                    },
                    ViewerKey::PrevSection => if n == 0 {
                        final(self).top() == s && final(self).section() == c
                    } else {
                        &&& final(self).section() == sat_sub(c as int, 1)
                        &&& final(self).top() == old(self).section_starts()[final(self).section() as int] as u16
                    },
                    _ => final(self).top() == s && final(self).section() == c,
                }
            }),
    {
        proof {
            use_type_invariant(&*self);
        }
        let page = height.saturating_sub(3);
        let bottom = self.total_lines.saturating_sub(1) as u16;
        match key {
            ViewerKey::Quit => {
                return true;
            },
            ViewerKey::Down => {
                let s = self.scroll.saturating_add(1);
                self.scroll = if s < bottom {
                    s
                } else {
                    bottom
                };
            },
            ViewerKey::Up => {
                self.scroll = self.scroll.saturating_sub(1);
            },
            ViewerKey::PageDown => {
                let s = self.scroll.saturating_add(page);
                self.scroll = if s < bottom {
                    s
                } else {
                    bottom
                };
            },
            ViewerKey::PageUp => {
                self.scroll = self.scroll.saturating_sub(page);
            },
            ViewerKey::Top => {
                self.scroll = 0;
            },
            ViewerKey::Bottom => {
                self.scroll = bottom;
            },
            ViewerKey::NextSection => {
                if self.sections.len() > 0 {
                    let next = self.current_section + 1;
                    let c = if next < self.sections.len() - 1 {
                        next
                    } else {
                        self.sections.len() - 1
                    };
                    self.current_section = c;
                    self.scroll = self.sections[c] as u16;
                }
            },
            ViewerKey::PrevSection => {
                if self.sections.len() > 0 {
                    let c = self.current_section.saturating_sub(1);
                    self.current_section = c;
                    self.scroll = self.sections[c] as u16;
                }
            },
            ViewerKey::Other => {},
        }
        false
    }

    /// The status bar: position, line count, section count and key help.
    pub fn status_text(&self) -> (r: String)
        requires
            self.top() < u16::MAX,
        ensures
            r@ == " Line "@ + dec_digits((self.top() + 1) as nat) + "/"@ + dec_digits(
                self.lines_total() as nat,
            ) + " | Sections: "@ + dec_digits(self.section_starts().len())
                + " | q:quit j/k:scroll g/G:top/bottom n/N:next/prev section"@,
    {
        let mut r = String::from_str(" Line ");
        push_decimal(&mut r, (self.scroll + 1) as u64, 0);
        r.append("/");
        push_decimal(&mut r, self.total_lines as u64, 0);
        r.append(" | Sections: ");
        push_decimal(&mut r, self.sections.len() as u64, 0);
        r.append(" | q:quit j/k:scroll g/G:top/bottom n/N:next/prev section");
        r
    }
}

// ── Reading one section ──────────────────────────────────────────────

/// The reader's state: inside the section, finished, and the text so far.
pub type SectionState = (bool, bool, Seq<char>);

/// One line through the section reader: the section's own heading
/// (`## name` or `### name`, ignoring surrounding blanks) starts it, and
/// the next `## ` heading ends it.
pub open spec fn section_step(st: SectionState, line: Seq<char>, name: Seq<char>) -> SectionState {
    let (inside, done, out) = st;
    if done {
        st
    } else if trim(line) == "## "@ + name || trim(line) == "### "@ + name {
        (true, false, out + line + seq!['\n'])
    } else if inside {
        if starts_with(line, "## "@) {
            (inside, true, out)
        } else {
            (inside, false, out + line + seq!['\n'])
        }
    } else {
        st
    }
}

/// The reader's state after the first `n` lines.
pub open spec fn section_run(ls: Seq<Seq<char>>, n: int, name: Seq<char>) -> SectionState
    decreases n,
{
    if n <= 0 {
        (false, false, seq![])
    } else {
        section_step(section_run(ls, n - 1, name), ls[n - 1], name)
    }
}

/// The text of the section `name` of `content`, each line ended by a
/// newline; `None` when it has no such section (or it is empty).
pub open spec fn section_of(content: Seq<char>, name: Seq<char>) -> Option<Seq<char>> {
    let ls = lines(content);
    let out = section_run(ls, ls.len() as int, name).2;
    if out.len() == 0 {
        None
    } else {
        Some(out)
    }
}

/// The section `name` of a document's text, if it has one.
pub fn read_section(content: &str, name: &str) -> (r: Option<String>)
    ensures
        match section_of(content@, name@) {
            Some(t) => r matches Some(s) && s@ == t,
            None => r is None,
        },
{
    let v = str_chars(content);
    let ranges = line_ranges(v.as_slice());
    let ghost ls = lines(content@);
    let mut h2 = String::from_str("## ");
    h2.append(name);
    let mut h3 = String::from_str("### ");
    h3.append(name);
    let h2v = str_chars(h2.as_str());
    let h3v = str_chars(h3.as_str());
    let sec = str_chars("## ");
    proof {
        reveal_strlit("## ");
        reveal_strlit("### ");
    }
    let mut inside = false;
    let mut done = false;
    let mut out = String::new();
    let mut i: usize = 0;
    while i < ranges.len()
        invariant
            i <= ranges@.len(),
            pieces(v@, ranges@) == ls,
            ls == lines(content@),
            h2v@ == "## "@ + name@,
            h3v@ == "### "@ + name@,
            sec@ == "## "@,
            forall|k: int|
                0 <= k < ranges@.len() ==> (#[trigger] ranges@[k]).0 <= ranges@[k].1 <= v@.len(),
            (inside, done, out@) == section_run(ls, i as int, name@),
        decreases ranges.len() - i,
    {
        let (a, b) = ranges[i];
        let ghost line = ls[i as int];
        assert(line == v@.subrange(a as int, b as int));
        if !done {
            let (ta, tb) = trim_range(v.as_slice(), a, b);
            let t = &v.as_slice()[ta..tb];
            assert(t@ == trim(line));
            let is_head = t.len() == h2v.len() && starts_with_exec(t, h2v.as_slice()) || t.len()
                == h3v.len() && starts_with_exec(t, h3v.as_slice());
            proof {
                if t@.len() == h2v@.len() && starts_with(t@, h2v@) {
                    assert(t@ =~= h2v@);
                }
                if t@.len() == h3v@.len() && starts_with(t@, h3v@) {
                    assert(t@ =~= h3v@);
                }
                if t@ == h2v@ {
                    assert(t@.subrange(0, h2v@.len() as int) =~= t@);
                }
                if t@ == h3v@ {
                    assert(t@.subrange(0, h3v@.len() as int) =~= t@);
                }
            }
            let line_v = &v.as_slice()[a..b];
            if is_head {
                inside = true;
                push_range(&mut out, v.as_slice(), a, b);
                string_push(&mut out, '\n');
            } else if inside {
                if starts_with_exec(line_v, sec.as_slice()) {
                    done = true;
                } else {
                    push_range(&mut out, v.as_slice(), a, b);
                    string_push(&mut out, '\n');
                }
            }
        }
        i += 1;
    }
    if out.as_str().is_empty() {
        None
    } else {
        Some(out)
    }
}

} // verus!
