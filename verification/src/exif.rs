//! Photo metadata: the description written for a photo from the EXIF
//! fields read out of it.
use vstd::prelude::*;
use uuid::Uuid;
use crate::sources::{hash_text, text_hash};
use crate::types::{new_id, now_rfc3339, ContentType, Document, PrivacyLevel};

verus! {

/// The EXIF fields of a photo, each as the EXIF reader displays it; the
/// GPS position as its latitude and longitude already written out.
#[derive(Debug, Clone)]
pub struct PhotoMeta {
    pub date: Option<String>,
    pub make: Option<String>,
    pub model: Option<String>,
    pub gps: Option<(String, String)>,
    pub width: Option<String>,
    pub height: Option<String>,
    pub exposure: Option<String>,
    pub f_number: Option<String>,
    pub iso: Option<String>,
}

/// `s` without its `"` characters.
pub open spec fn unquoted(s: Seq<char>) -> Seq<char>
    decreases s.len(),
{
    if s.len() == 0 {
        s
    } else if s.last() == '"' {
        unquoted(s.drop_last())
    } else {
        unquoted(s.drop_last()).push(s.last())
    }
}

/// `label`, the field's text and a newline, or nothing without the field.
pub open spec fn field_line(label: Seq<char>, v: Option<String>) -> Seq<char> {
    match v {
        Some(x) => label + x@ + "\n"@,
        None => seq![],
    }
}

/// The camera line: make and model, quotes removed.
pub open spec fn camera_line(make: Option<String>, model: Option<String>) -> Seq<char> {
    match make {
        Some(mk) => match model {
            Some(md) => "Camera: "@ + unquoted(mk@) + " "@ + unquoted(md@) + "\n"@,
            None => "Camera: "@ + unquoted(mk@) + "\n"@,
        },
        None => seq![],
    }
}

/// The description of a photo.
pub open spec fn photo_text(external_id: Seq<char>, m: PhotoMeta) -> Seq<char> {
    "# Photo: "@ + external_id + "\n\n"@ + field_line("Date: "@, m.date) + camera_line(
        m.make,
        m.model,
    ) + match m.gps {
        Some((lat, lon)) => "GPS: "@ + lat@ + "°N, "@ + lon@ + "°E\n"@,
        None => seq![],
    } + match (m.width, m.height) {
        (Some(w), Some(h)) => "Size: "@ + w@ + " × "@ + h@ + "\n"@,
        _ => seq![],
    } + field_line("Exposure: "@, m.exposure) + field_line("Aperture: f/"@, m.f_number)
        + field_line("ISO: "@, m.iso)
}

/// `s` without its `"` characters.
fn remove_quotes(s: &str) -> (r: String)
    ensures
        r@ == unquoted(s@),
{
    let v = crate::text::str_chars(s);
    let mut r = String::new();
    let mut i: usize = 0;
    while i < v.len()
        invariant
            i <= v@.len(),
            v@ == s@,
            r@ == unquoted(v@.take(i as int)),
        decreases v.len() - i,
    {
        assert(v@.take(i + 1).drop_last() =~= v@.take(i as int));
        if v[i] != '"' {
            crate::text::string_push(&mut r, v[i]);
        }
        i += 1;
    }
    assert(v@.take(v@.len() as int) =~= v@);
    r
}

/// Appends `label`, the field's text and a newline, when the field is there.
fn push_field(text: &mut String, label: &str, v: &Option<String>)
    ensures
        final(text)@ == old(text)@ + field_line(label@, *v),
{
    if let Some(x) = v {
        text.append(label);
        text.append(x.as_str());
        text.append("\n");
        proof {
            reveal_strlit("\n");
        }
    }
}

/// Appends the camera line.
fn push_camera(text: &mut String, make: &Option<String>, model: &Option<String>)
    ensures
        final(text)@ == old(text)@ + camera_line(*make, *model),
{
    if let Some(mk) = make {
        text.append("Camera: ");
        text.append(remove_quotes(mk.as_str()).as_str());
        if let Some(md) = model {
            text.append(" ");
            text.append(remove_quotes(md.as_str()).as_str());
        }
        text.append("\n");
        proof {
            reveal_strlit("Camera: ");
            reveal_strlit(" ");
            reveal_strlit("\n");
        }
    }
}

/// Appends the GPS line and the size line.
fn push_position_and_size(text: &mut String, meta: &PhotoMeta)
    ensures
        final(text)@ == old(text)@ + match meta.gps {
            Some((lat, lon)) => "GPS: "@ + lat@ + "°N, "@ + lon@ + "°E\n"@,
            None => seq![],
        } + match (meta.width, meta.height) {
            (Some(w), Some(h)) => "Size: "@ + w@ + " × "@ + h@ + "\n"@,
            _ => seq![],
        },
{
    let ghost start = text@;
    if let Some((lat, lon)) = &meta.gps {
        text.append("GPS: ");
        text.append(lat.as_str());
        text.append("°N, ");
        text.append(lon.as_str());
        text.append("°E\n");
    }
    let ghost mid = text@;
    if let (Some(w), Some(h)) = (&meta.width, &meta.height) {
        text.append("Size: ");
        text.append(w.as_str());
        text.append(" × ");
        text.append(h.as_str());
        text.append("\n");
    }
    proof {
        reveal_strlit("GPS: ");
        reveal_strlit("°N, ");
        reveal_strlit("°E\n");
        reveal_strlit("Size: ");
        reveal_strlit(" × ");
        reveal_strlit("\n");
    }
}

/// The description of a photo.
fn describe_photo(external_id: &str, meta: &PhotoMeta) -> (text: String)
    ensures
        text@ == photo_text(external_id@, *meta),
{
    let mut text = String::from_str("# Photo: ");
    text.append(external_id);
    text.append("\n\n");
    proof {
        reveal_strlit("# Photo: ");
        reveal_strlit("\n\n");
    }
    push_field(&mut text, "Date: ", &meta.date);
    push_camera(&mut text, &meta.make, &meta.model);
    push_position_and_size(&mut text, meta);
    push_field(&mut text, "Exposure: ", &meta.exposure);
    push_field(&mut text, "Aperture: f/", &meta.f_number);
    push_field(&mut text, "ISO: ", &meta.iso);
    text
}

/// The description and catalog record of a photo: a private media record.
pub fn photo_document(external_id: &str, meta: &PhotoMeta, source_id: Uuid) -> (r: (Document, String))
    ensures
        r.1@ == photo_text(external_id@, *meta),
        r.0.source_id == source_id,
        r.0.external_id@ == external_id@,
        r.0.title@ == "Photo "@ + external_id@,
        r.0.parent_id is None,
        r.0.depth == 0,
        r.0.content_type == ContentType::MediaMeta,
        r.0.language is None,
        r.0.content_hash.0@ == text_hash(r.1@),
        r.0.content_size == vstd::utf8::encode_utf8(r.1@).len(),
        r.0.privacy_level == PrivacyLevel::Private,
{
    let text = describe_photo(external_id, meta);
    let mut title = String::from_str("Photo ");
    title.append(external_id);
    let doc = Document {
        id: new_id(),
        source_id,
        external_id: String::from_str(external_id),
        parent_id: None,
        depth: 0,
        title,
        content_type: ContentType::MediaMeta,
        language: None,
        content_hash: hash_text(text.as_str()),
        content_size: text.as_str().as_bytes().len() as u64,
        created_at: now_rfc3339(),
        indexed_at: now_rfc3339(),
        privacy_level: PrivacyLevel::Private,
    };
    (doc, text)
}

} // verus!
