use lokb::facts::contact_id;
use lokb::mbox::{extract_contacts, parse_mbox, parse_single_email, split_mbox};
use lokb::sources::hash_text;
use lokb::telegram::{
    line_of, segment_document, segment_filename, segment_messages, segment_text, senders, TelegramMessage,
};
use lokb::types::{ContentType, PrivacyLevel};
use uuid::Uuid;

fn msg(kind: &str, date: &str, from: Option<&str>, text: &str, reply: bool, edited: bool) -> TelegramMessage {
    TelegramMessage {
        kind: kind.to_string(),
        date: date.to_string(),
        from: from.map(str::to_string),
        text: text.to_string(),
        is_reply: reply,
        is_edited: edited,
    }
}

fn chat() -> Vec<TelegramMessage> {
    vec![
        msg("message", "2024-01-01T10:00:00", Some("Alice"), "Hi", false, false),
        msg("service", "2024-01-01T10:05:00", None, "", false, false),
        msg("message", "2024-01-01T13:00:00", Some("Bob"), "Later", true, true),
        msg("message", "2024-01-01T13:05:00", None, "x", false, false),
        msg("message", "2024-01-01T13:06:00", Some("Alice"), "y", false, false),
    ]
}

#[test]
fn messages_are_grouped_at_long_pauses() {
    let ms = chat();
    let gaps = [false, false, true, false, false];
    assert_eq!(segment_messages(&ms, &gaps), vec![vec![0], vec![2, 3, 4]]);
    let no_gaps = [false; 5];
    assert_eq!(segment_messages(&ms, &no_gaps), vec![vec![0, 2, 3, 4]]);
    assert!(segment_messages(&[], &[]).is_empty());
    // A pause before a service entry, or before the first message, opens nothing.
    let odd_gaps = [true, true, false, false, false];
    assert_eq!(segment_messages(&ms, &odd_gaps), vec![vec![0, 2, 3, 4]]);
}

#[test]
fn segments_read_as_lines_of_messages() {
    let ms = chat();
    assert_eq!(line_of(&ms[2]), "Bob [13:00:00] (reply) (edited): Later\n");
    assert_eq!(segment_text("Chat", &ms, &vec![0]), "[Chat]\nAlice [10:00:00]: Hi\n");
    assert_eq!(
        segment_text("Chat", &ms, &vec![2, 3]),
        "[Chat]\nBob [13:00:00] (reply) (edited): Later\nUnknown [13:05:00]: x\n"
    );
    let undated = msg("message", "yesterday", None, "z", false, false);
    assert_eq!(line_of(&undated), "Unknown [yesterday]: z\n");
}

#[test]
fn segment_records() {
    assert_eq!(segment_filename(3), "segment_0003.txt");
    assert_eq!(segment_filename(12345), "segment_12345.txt");
    let id = Uuid::now_v7();
    let d = segment_document("Chat", 1, "[Chat]\n", id);
    assert_eq!(d.external_id, "segment_0001");
    assert_eq!(d.title, "Chat segment 1");
    assert_eq!(d.source_id, id);
    assert_eq!(d.content_type, ContentType::Conversation);
    assert_eq!(d.privacy_level, PrivacyLevel::Private);
    assert_eq!(d.content_hash.0, hash_text("[Chat]\n").0);
}

#[test]
fn senders_are_listed_once() {
    let mut names = senders(&chat());
    names.sort();
    assert_eq!(names, vec!["Alice".to_string(), "Bob".to_string()]);
}

const ARCHIVE: &str = "From alice@example.com Mon Jan  1 00:00:00 2024\n\
Message-ID: <a1@example.com>\n\
From: Alice <alice@example.com>\n\
To: bob@example.com\n\
Subject: Hello\n\
\n\
Hi Bob\n\
\n\
From bob@example.com Mon Jan  1 01:00:00 2024\n\
Message-ID: <b1@example.com>\n\
In-Reply-To: <a1@example.com>\n\
From: bob@example.com\n\
To: alice@example.com\n\
Subject: Re: Hello\n\
\n\
Hi Alice\n\
\n\
From carol@example.com Mon Jan  1 02:00:00 2024\n\
Message-ID: <c1@example.com>\n\
From: carol@example.com\n\
Subject: Other\n\
\n\
Separate\n";

#[test]
fn archives_split_at_from_lines() {
    let parts = split_mbox(ARCHIVE);
    assert_eq!(parts.len(), 3);
    assert!(parts[0].starts_with("Message-ID: <a1@example.com>"));
    assert!(parts[1].starts_with("Message-ID: <b1@example.com>"));
    assert!(parts[2].contains("Separate"));
}

#[test]
fn emails_are_read_through_the_mail_parser() {
    let parts = split_mbox(ARCHIVE);
    let a = parse_single_email(&parts[0], None).unwrap();
    assert_eq!(a.message_id, "a1@example.com");
    assert_eq!(a.from, "Alice <alice@example.com>");
    assert_eq!(a.to, "bob@example.com");
    assert_eq!(a.subject, "Hello");
    assert_eq!(a.date, "unknown");
    assert!(a.in_reply_to.is_none());
    assert!(a.body.starts_with("Hi Bob"));
    let b = parse_single_email(&parts[1], None).unwrap();
    assert_eq!(b.in_reply_to.as_deref(), Some("a1@example.com"));
    let c = parse_single_email(&parts[2], None).unwrap();
    assert_eq!(c.to, "unknown");
    assert!(parse_single_email("\n\n", None).is_none());
}

#[test]
fn replies_join_their_thread() {
    let id = Uuid::now_v7();
    let docs = parse_mbox(ARCHIVE, id, &[]);
    assert_eq!(docs.len(), 2);
    let (d0, t0) = &docs[0];
    assert_eq!(d0.external_id, "thread_0000");
    assert_eq!(d0.title, "Hello");
    assert_eq!(d0.content_type, ContentType::EmailThread);
    assert_eq!(d0.privacy_level, PrivacyLevel::Private);
    assert_eq!(d0.source_id, id);
    assert!(t0.starts_with("# Hello\n\n**From:** Alice <alice@example.com> **To:** bob@example.com **Date:** unknown\n\nHi Bob"));
    assert!(t0.contains("**From:** bob@example.com **To:** alice@example.com **Date:** unknown\n\nHi Alice"));
    assert!(t0.ends_with("\n\n---\n\n"));
    assert_eq!(docs[1].0.external_id, "thread_0001");
    assert_eq!(docs[1].0.title, "Other");

    let mut contacts = extract_contacts(&docs);
    contacts.sort();
    assert_eq!(
        contacts,
        vec![
            "Alice <alice@example.com>".to_string(),
            "bob@example.com".to_string(),
            "carol@example.com".to_string()
        ]
    );
    assert_eq!(contact_id("Alice <alice@example.com>"), "person:alice__alice_example.com_");
}

#[test]
fn html_bodies_are_read_for_conversion() {
    let raw = "Message-ID: <h1@example.com>\nFrom: a@example.com\nSubject: Page\nContent-Type: text/html\n\n<p>Hi <b>there</b></p>\n";
    let body = lokb::mbox::html_body(raw).unwrap();
    assert!(body.contains("<b>there</b>"));
    let e = parse_single_email(raw, htmd::convert(&body).ok()).unwrap();
    assert_eq!(e.subject, "Page");
    assert!(e.body.contains("there"));
}
