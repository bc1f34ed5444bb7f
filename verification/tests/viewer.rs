use lokb::render::{build_lines, find_sections, highlight_line, LineKind, Viewer, ViewerKey};

#[test]
fn lines_are_styled() {
    let content = "# Title\n## Part\n### Sub\nhello World, world\nplain";
    let lines = build_lines(content, Some("WORLD"));
    assert_eq!(lines.len(), 5);
    assert_eq!(lines[0].kind, LineKind::Title);
    assert_eq!(lines[1].kind, LineKind::Heading);
    assert_eq!(lines[2].kind, LineKind::Heading);
    assert_eq!(lines[3].kind, LineKind::Marked);
    let segs: Vec<(usize, usize, bool)> =
        lines[3].segments.iter().map(|s| (s.start, s.end, s.matched)).collect();
    assert_eq!(segs, vec![(0, 6, false), (6, 11, true), (11, 13, false), (13, 18, true)]);
    assert_eq!(lines[4].kind, LineKind::Plain);

    let plain = build_lines(content, None);
    assert_eq!(plain[3].kind, LineKind::Plain);
}

#[test]
fn highlight_needs_a_match() {
    assert!(highlight_line("abc", "").is_none());
    assert!(highlight_line("abc", "x").is_none());
    let s = highlight_line("aaaa", "aa").unwrap();
    let segs: Vec<(usize, usize, bool)> = s.iter().map(|s| (s.start, s.end, s.matched)).collect();
    assert_eq!(segs, vec![(0, 2, true), (2, 4, true)]);
}

#[test]
fn sections_and_keys() {
    let content = "# A\ntext\n## B\nmore\n### not a section\n## C";
    assert_eq!(find_sections(content), vec![0, 2, 5]);

    let mut v = Viewer::new(content);
    assert_eq!(v.status_text(), " Line 1/6 | Sections: 3 | q:quit j/k:scroll g/G:top/bottom n/N:next/prev section");
    assert!(!v.handle(ViewerKey::Down, 24));
    assert_eq!(v.scroll(), 1);
    v.handle(ViewerKey::PageDown, 24);
    assert_eq!(v.scroll(), 5);
    v.handle(ViewerKey::Up, 24);
    assert_eq!(v.scroll(), 4);
    v.handle(ViewerKey::Top, 24);
    assert_eq!(v.scroll(), 0);
    v.handle(ViewerKey::NextSection, 24);
    assert_eq!(v.scroll(), 2);
    v.handle(ViewerKey::NextSection, 24);
    v.handle(ViewerKey::NextSection, 24);
    assert_eq!(v.scroll(), 5);
    v.handle(ViewerKey::PrevSection, 24);
    assert_eq!(v.scroll(), 2);
    v.handle(ViewerKey::Bottom, 24);
    assert_eq!(v.scroll(), 5);
    v.handle(ViewerKey::PageUp, 4);
    assert_eq!(v.scroll(), 4);
    assert!(v.handle(ViewerKey::Quit, 24));
    assert_eq!(ViewerKey::from_char('q', false), ViewerKey::Quit);
    assert_eq!(ViewerKey::from_char('c', true), ViewerKey::Quit);
    assert_eq!(ViewerKey::from_char('c', false), ViewerKey::Other);
    assert_eq!(ViewerKey::from_char('G', false), ViewerKey::Bottom);
}

use lokb::render::read_section;
use lokb::tools::search_limit;

#[test]
fn reading_one_section() {
    let doc = "# Paris\nintro\n## History\nold\n### Roman era\nrome\n## Geography\nriver\n";
    assert_eq!(read_section(doc, "History").unwrap(), "## History\nold\n### Roman era\nrome\n");
    assert_eq!(read_section(doc, "Roman era").unwrap(), "### Roman era\nrome\n");
    assert_eq!(read_section(doc, "Geography").unwrap(), "## Geography\nriver\n");
    assert!(read_section(doc, "Climate").is_none());
    assert_eq!(read_section("  ## A  \nx", "A").unwrap(), "  ## A  \nx\n");
}

#[test]
fn search_limits_by_mode() {
    assert_eq!(search_limit("quick", None), 5);
    assert_eq!(search_limit("normal", None), 20);
    assert_eq!(search_limit("deep", None), 50);
    assert_eq!(search_limit("deep", Some(3)), 3);
}
