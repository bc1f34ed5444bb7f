use lokb::epub::{chapter_order, extract_attr, extract_chapter_title, extract_epub, le_bytes, parse_spine_order, parse_title};
use lokb::gpx::{extract_xml_attr, extract_xml_element};
use lokb::html::{html_to_markdown, HtmlToMarkdown};
use lokb::markdown::{extract_title, MarkdownPassthrough};
use lokb::pdf::{clean_pdf_text, extract_pdf_title, pdf_document};
use lokb::sources::hash_text;
use lokb::types::{ContentHash, ContentType, PrivacyLevel};
use uuid::Uuid;

const OPF: &str = "<package>\n\
<metadata><dc:title> My Book </dc:title></metadata>\n\
<manifest>\n\
<item id=\"c1\" href=\"ch1.xhtml\" media-type=\"application/xhtml+xml\"/>\n\
<item id=\"c2\" href=\"ch2.xhtml\" media-type=\"application/xhtml+xml\"/>\n\
<item id=\"css\" href=\"style.css\" media-type=\"text/css\"/>\n\
</manifest>\n\
<spine>\n\
<itemref idref=\"c2\"/>\n\
<itemref idref=\"c1\"/>\n\
<itemref idref=\"missing\"/>\n\
</spine>\n\
</package>\n";

/// The Markdown of `html`, as the program makes it: htmd's conversion,
/// else the text without tags.
fn md(html: &str) -> String {
    html_to_markdown(html, htmd::convert(html).ok())
}

fn entries() -> Vec<(String, String)> {
    vec![
        ("OEBPS/content.opf".to_string(), OPF.to_string()),
        ("OEBPS/ch1.xhtml".to_string(), md("<h1>First</h1><p>One</p>")),
        ("OEBPS/ch2.xhtml".to_string(), md("<p>No heading</p>")),
        ("OEBPS/blank.xhtml".to_string(), md("<p> </p>")),
    ]
}

#[test]
fn opf_attributes_title_and_spine() {
    assert_eq!(extract_attr("<item id=\"c1\" href=\"a.xhtml\"/>", "href"), Some("a.xhtml".to_string()));
    assert_eq!(extract_attr("<item id=\"c1\"/>", "href"), None);
    assert_eq!(parse_title(OPF), Some("My Book".to_string()));
    assert_eq!(parse_title("<dc:title>  </dc:title>"), None);
    assert_eq!(parse_title("<metadata/>"), None);
    assert_eq!(
        parse_spine_order("OEBPS", OPF),
        Some(vec!["OEBPS/ch2.xhtml".to_string(), "OEBPS/ch1.xhtml".to_string()])
    );
    assert_eq!(parse_spine_order("", OPF), Some(vec!["ch2.xhtml".to_string(), "ch1.xhtml".to_string()]));
    assert_eq!(parse_spine_order("", "<package/>"), None);
    assert_eq!(chapter_order(&entries()), vec!["OEBPS/ch2.xhtml".to_string(), "OEBPS/ch1.xhtml".to_string()]);
}

#[test]
fn chapter_titles() {
    assert_eq!(extract_chapter_title("intro\n  # Named  \nmore"), Some("Named".to_string()));
    assert_eq!(extract_chapter_title("## Sub\ntext"), None);
}

#[test]
fn books_list_their_chapters_in_spine_order() {
    let id = Uuid::now_v7();
    let docs = extract_epub(&entries(), "file-stem", id);
    assert_eq!(docs.len(), 3);
    let (book, text) = &docs[0];
    assert_eq!(book.external_id, "book");
    assert_eq!(book.title, "My Book");
    assert_eq!(book.depth, 0);
    assert!(book.parent_id.is_none());
    assert!(text.is_empty());
    assert_eq!(book.content_type, ContentType::Book);
    assert_eq!(book.privacy_level, PrivacyLevel::Internal);

    let second = md("<p>No heading</p>");
    let first = md("<h1>First</h1><p>One</p>");
    assert_eq!(docs[1].0.external_id, "chapter_000");
    assert_eq!(docs[1].0.title, "Chapter 1");
    assert_eq!(docs[1].1, second);
    assert_eq!(docs[2].0.external_id, "chapter_001");
    assert_eq!(docs[2].0.title, "First");
    assert_eq!(docs[2].1, first);
    for (d, t) in &docs[1..] {
        assert_eq!(d.parent_id, Some(book.id));
        assert_eq!(d.depth, 1);
        assert_eq!(d.source_id, id);
        assert_eq!(d.content_hash.0, hash_text(t).0);
    }
    let total = (first.len() + second.len()) as u64;
    assert_eq!(book.content_size, total);
    assert_eq!(book.content_hash.0, ContentHash::from_bytes(&total.to_le_bytes()).0);
    assert_eq!(le_bytes(0x0102_0304_0506_0708), 0x0102_0304_0506_0708u64.to_le_bytes());
}

#[test]
fn books_without_an_opf_use_sorted_names_and_the_file_stem() {
    let entries = vec![
        ("b.html".to_string(), md("<h1>Bee</h1>")),
        ("a.html".to_string(), md("<h1>Ay</h1>")),
    ];
    let docs = extract_epub(&entries, "stem", Uuid::nil());
    assert_eq!(docs[0].0.title, "stem");
    let titles: Vec<&str> = docs[1..].iter().map(|(d, _)| d.title.as_str()).collect();
    assert_eq!(titles, vec!["Ay", "Bee"]);
}

#[test]
fn pdf_text_is_cleaned_and_titled() {
    let raw = "  Title Line  \n\n\n12\nBody \u{FB01}ne text.\n-3-\n\nEnd\n";
    // A blank line passes the short all-digits test for page numbers, so it goes too.
    assert_eq!(clean_pdf_text(raw), "Title Line\nBody fine text.\nEnd");
    assert_eq!(clean_pdf_text("e\u{FB00}ort \u{FB02}ow \u{FB03}x \u{FB04}e"), "effort flow ffix ffle");
    assert_eq!(extract_pdf_title("\n  Short title \nbody"), Some("# Short title".to_string()));
    assert_eq!(extract_pdf_title("A sentence.\nbody"), None);
    let id = Uuid::now_v7();
    let (doc, text) = pdf_document(raw, "paper", id, "paper-1");
    assert_eq!(text, "Title Line\nBody fine text.\nEnd");
    assert_eq!(doc.title, "# Title Line");
    assert_eq!(doc.external_id, "paper-1");
    assert_eq!(doc.content_type, ContentType::Paper);
    assert_eq!(doc.privacy_level, PrivacyLevel::Internal);
    let (untitled, _) = pdf_document("Ends with a period.\nmore", "paper", id, "p2");
    assert_eq!(untitled.title, "paper");
}

#[test]
fn gpx_fields() {
    let chunk = " lat=\"48.1\" lon=\"11.5\"><ele>520</ele><time>2024-01-01T10:00:00Z</time></trkpt>";
    assert_eq!(extract_xml_attr(chunk, "lat"), Some("48.1".to_string()));
    assert_eq!(extract_xml_attr(chunk, "lon"), Some("11.5".to_string()));
    assert_eq!(extract_xml_attr(chunk, "hdop"), None);
    assert_eq!(extract_xml_element(chunk, "ele"), Some("520".to_string()));
    assert_eq!(extract_xml_element(chunk, "time"), Some("2024-01-01T10:00:00Z".to_string()));
    assert_eq!(extract_xml_element("<ele>1", "ele"), None);
}

#[test]
fn markdown_and_html_steps() {
    assert_eq!(extract_title("text\n# Heading\n"), Some("Heading".to_string()));
    assert_eq!(extract_title("text"), None);
    let step = MarkdownPassthrough;
    assert_eq!(step.name(), "markdown_passthrough");
    assert_eq!(step.estimate_sizes(3_500_000), (3_500_000, 4));
    let id = Uuid::now_v7();
    let d = step.document_for("notes.md", "no heading", id);
    assert_eq!(d.external_id, "notes");
    assert_eq!(d.title, "notes");
    assert_eq!(d.language.as_deref(), Some("en"));
    assert_eq!(d.privacy_level, PrivacyLevel::Public);
    assert_eq!(d.content_size, 10);

    let html = HtmlToMarkdown;
    assert_eq!(html.name(), "html_to_markdown");
    assert_eq!(html.estimate_sizes(1_000_001), (500_000, 3));
    let page = "<p>Hi <b>there</b></p>";
    let docs = html.convert_documents(
        vec![(d.clone(), page.to_string()), (d.clone(), "<p>a</p><p>b</p>".to_string())],
        vec![htmd::convert(page).ok(), None],
    );
    assert_eq!(docs.len(), 2);
    assert_eq!(docs[0].0.id, d.id);
    assert_eq!(docs[0].1, md(page));
    assert_eq!(docs[0].1, "Hi **there**");
    assert_ne!(docs[0].1, page);
    // Without a conversion the tags are stripped.
    assert_eq!(docs[1].1, "ab");
    assert_eq!(html_to_markdown("<i>x</i>", Some("*x*".to_string())), "*x*");
    assert_eq!(html_to_markdown("<i>x</i>", None), "x");
}

fn zip_bytes(files: &[(&str, &str)]) -> Vec<u8> {
    let mut w = zip::ZipWriter::new(std::io::Cursor::new(Vec::new()));
    let opts = zip::write::SimpleFileOptions::default().compression_method(zip::CompressionMethod::Stored);
    for (name, text) in files {
        w.start_file(*name, opts).unwrap();
        std::io::Write::write_all(&mut w, text.as_bytes()).unwrap();
    }
    w.finish().unwrap().into_inner()
}

#[test]
fn archives_give_their_book_entries_in_order() {
    let bytes = zip_bytes(&[
        ("mimetype", "application/epub+zip"),
        ("OEBPS/content.opf", OPF),
        ("OEBPS/style.css", "p {}"),
        ("OEBPS/ch1.xhtml", "<h1>First</h1>"),
        ("OEBPS/ch2.htm", "<p>Two</p>"),
    ]);
    let entries = lokb::epub::epub_entries(&bytes).unwrap();
    let names: Vec<&str> = entries.iter().map(|(n, _)| n.as_str()).collect();
    assert_eq!(names, vec!["OEBPS/content.opf", "OEBPS/ch1.xhtml", "OEBPS/ch2.htm"]);
    assert_eq!(entries[0].1, OPF);
    assert_eq!(entries[1].1, "<h1>First</h1>");

    let bad = lokb::epub::epub_entries(b"not a zip archive").unwrap_err();
    assert!(bad.message().starts_with("storage error: invalid EPUB: "));
}
