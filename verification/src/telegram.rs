//! Telegram chat exports: messages grouped into conversation segments.
//!
//! The program reads the export's JSON and decides from the timestamps
//! where a pause of more than two hours falls; this module flattens each
//! message's text, groups the messages and writes the segments.
use vstd::prelude::*;
use uuid::Uuid;
use crate::csv::concat;
use crate::sources::{hash_text, text_hash, texts};
use crate::text::{dec_digits, push_decimal, str_chars, string_from_range, zero_pad};
use crate::types::{new_id, now_rfc3339, ContentType, Document, PrivacyLevel};

verus! {

/// One entry of a chat export.
#[derive(Debug, Clone)]
pub struct TelegramMessage {
    /// `message` for messages; service entries have other kinds.
    pub kind: String,
    /// ISO timestamp, `YYYY-MM-DDTHH:MM:SS`.
    pub date: String,
    pub from: Option<String>,
    /// The message text, its parts joined.
    pub text: String,
    pub is_reply: bool,
    pub is_edited: bool,
}

/// A chat message (not a service entry).
pub open spec fn is_message(m: TelegramMessage) -> bool {
    m.kind@ == "message"@
}

/// Segments and the open segment after the first `n` entries; `gap[i]`
/// says that entry `i` comes more than two hours after the message before it.
pub open spec fn segment_run(ms: Seq<TelegramMessage>, gap: Seq<bool>, n: int) -> (Seq<Seq<int>>, Seq<int>)
    decreases n,
{
    if n <= 0 {
        (seq![], seq![])
    } else {
        let (segs, cur) = segment_run(ms, gap, n - 1);
        let i = n - 1;
        if !is_message(ms[i]) {
            (segs, cur)
        } else if cur.len() > 0 && gap[i] {
            (segs.push(cur), seq![i])
        } else {
            (segs, cur.push(i))
        }
    }
}

/// The conversation segments of a chat: runs of messages without a pause
/// of more than two hours, as positions in the export.
pub open spec fn segments_of(ms: Seq<TelegramMessage>, gap: Seq<bool>) -> Seq<Seq<int>> {
    let (segs, cur) = segment_run(ms, gap, ms.len() as int);
    if cur.len() > 0 {
        segs.push(cur)
    } else {
        segs
    }
}

/// The positions of the messages (not service entries) among the first `n`
/// entries.
pub open spec fn message_positions(ms: Seq<TelegramMessage>, n: int) -> Seq<int>
    decreases n,
{
    if n <= 0 {
        seq![]
    } else if is_message(ms[n - 1]) {
        message_positions(ms, n - 1).push(n - 1)
    } else {
        message_positions(ms, n - 1)
    }
}

/// The segments joined end to end.
pub open spec fn joined(ss: Seq<Seq<int>>) -> Seq<int>
    decreases ss.len(),
{
    if ss.len() == 0 {
        seq![]
    } else {
        joined(ss.drop_last()) + ss.last()
    }
}

proof fn lemma_segment_run_partition(ms: Seq<TelegramMessage>, gap: Seq<bool>, n: int)
    requires
        0 <= n <= ms.len(),
    ensures
        joined(segment_run(ms, gap, n).0) + segment_run(ms, gap, n).1 == message_positions(ms, n),
        forall|k: int|
            0 <= k < segment_run(ms, gap, n).0.len() ==> (#[trigger] segment_run(ms, gap, n).0[k]).len()
                > 0,
    decreases n,
{
    if n > 0 {
        lemma_segment_run_partition(ms, gap, n - 1);
        let (segs, cur) = segment_run(ms, gap, n - 1);
        let i = n - 1;
        if is_message(ms[i]) && cur.len() > 0 && gap[i] {
            assert(segs.push(cur).drop_last() =~= segs);
            assert(joined(segs.push(cur)) + seq![i] =~= (joined(segs) + cur).push(i));
            let s2 = segs.push(cur);
            assert forall|k: int| 0 <= k < s2.len() implies (#[trigger] s2[k]).len() > 0 by {
                if k < segs.len() {
                    assert(s2[k] == segs[k]);
                }
            }
        } else if is_message(ms[i]) {
            assert(joined(segs) + cur.push(i) =~= (joined(segs) + cur).push(i));
        }
    }
}

/// Segmenting keeps every message, in order, each exactly once, and makes
/// no empty segment.
pub proof fn lemma_segments_partition(ms: Seq<TelegramMessage>, gap: Seq<bool>)
    ensures
        joined(segments_of(ms, gap)) == message_positions(ms, ms.len() as int),
        forall|k: int|
            0 <= k < segments_of(ms, gap).len() ==> (#[trigger] segments_of(ms, gap)[k]).len() > 0,
{
    lemma_segment_run_partition(ms, gap, ms.len() as int);
    let (segs, cur) = segment_run(ms, gap, ms.len() as int);
    if cur.len() > 0 {
        assert(segs.push(cur).drop_last() =~= segs);
        let s2 = segs.push(cur);
        assert forall|k: int| 0 <= k < s2.len() implies (#[trigger] s2[k]).len() > 0 by {
            if k < segs.len() {
                assert(s2[k] == segs[k]);
            }
        }
    } else {
        assert(joined(segs) + cur =~= joined(segs));
    }
}

/// Groups the messages of an export into conversation segments;
/// `gap_before[i]` says whether entry `i` follows the previous message after
/// more than two hours.
pub fn segment_messages(messages: &[TelegramMessage], gap_before: &[bool]) -> (r: Vec<Vec<usize>>)
    requires
        gap_before@.len() == messages@.len(),
    ensures
        r@.len() == segments_of(messages@, gap_before@).len(),
        forall|s: int|
            0 <= s < r@.len() ==> (#[trigger] r@[s])@.map_values(|i: usize| i as int) == segments_of(
                messages@,
                gap_before@,
            )[s],
{
    let mut segs: Vec<Vec<usize>> = Vec::new();
    let mut cur: Vec<usize> = Vec::new();
    let mut i: usize = 0;
    let ghost mut gsegs: Seq<Seq<int>> = seq![];
    while i < messages.len()
        invariant
            gap_before@.len() == messages@.len(),
            i <= messages@.len(),
            segment_run(messages@, gap_before@, i as int) == (gsegs, cur@.map_values(|k: usize| k as int)),
            segs@.len() == gsegs.len(),
            forall|s: int|
                0 <= s < segs@.len() ==> (#[trigger] segs@[s])@.map_values(|k: usize| k as int) == gsegs[s],
        decreases messages.len() - i,
    {
        proof {
            reveal_strlit("message");
        }
        let is_msg = messages[i].kind == String::from_str("message");
        if is_msg {
            if cur.len() > 0 && gap_before[i] {
                let done = cur;
                proof {
                    gsegs = gsegs.push(done@.map_values(|k: usize| k as int));
                }
                segs.push(done);
                cur = Vec::new();
                cur.push(i);
                assert(cur@.map_values(|k: usize| k as int) =~= seq![i as int]);
            } else {
                let ghost before = cur@;
                cur.push(i);
                assert(cur@.map_values(|k: usize| k as int) =~= before.map_values(|k: usize| k as int).push(
                    i as int,
                ));
            }
        }
        i += 1;
    }
    if cur.len() > 0 {
        proof {
            gsegs = gsegs.push(cur@.map_values(|k: usize| k as int));
        }
        segs.push(cur);
    }
    segs
}

/// The time shown for a message: the part of its date after the last `T`.
pub open spec fn time_of(date: Seq<char>) -> Seq<char> {
    if exists|k: int| 0 <= k < date.len() && date[k] == 'T' {
        let k = choose|k: int|
            0 <= k < date.len() && date[k] == 'T' && forall|j: int| k < j < date.len() ==> date[j] != 'T';
        date.subrange(k + 1, date.len() as int)
    } else {
        date
    }
}

/// `<from> [<time>]`, then ` (reply)` and ` (edited)` as they apply, then
/// `: <text>` and a newline.
pub open spec fn message_line(m: TelegramMessage) -> Seq<char> {
    let from = match m.from {
        Some(f) => f@,
        None => "Unknown"@,
    };
    from + " ["@ + time_of(m.date@) + "]"@ + (if m.is_reply { " (reply)"@ } else { seq![] }) + (
    if m.is_edited {
        " (edited)"@
    } else {
        seq![]
    }) + ": "@ + m.text@ + "\n"@
}

/// The lines of the messages at positions `seg[..k]`.
pub open spec fn segment_lines(ms: Seq<TelegramMessage>, seg: Seq<int>, k: int) -> Seq<char>
    decreases k,
{
    if k <= 0 {
        seq![]
    } else {
        segment_lines(ms, seg, k - 1) + message_line(ms[seg[k - 1]])
    }
}

/// A segment's text: the chat name in brackets, then one line per message.
pub open spec fn segment_text_spec(chat: Seq<char>, ms: Seq<TelegramMessage>, seg: Seq<int>) -> Seq<char> {
    "["@ + chat + "]\n"@ + segment_lines(ms, seg, seg.len() as int)
}

fn time_part(date: &str) -> (r: String)
    ensures
        r@ == time_of(date@),
{
    let v = str_chars(date);
    let mut k = v.len();
    while k > 0 && v[k - 1] != 'T'
        invariant
            k <= v@.len(),
            forall|j: int| k <= j < v@.len() ==> v@[j] != 'T',
        decreases k,
    {
        k -= 1;
    }
    if k == 0 {
        proof {
            assert(!exists|j: int| 0 <= j < v@.len() && v@[j] == 'T');
        }
        return String::from_str(date);
    }
    proof {
        let t = k - 1;
        assert(v@[t] == 'T');
        let c = choose|c: int|
            0 <= c < v@.len() && v@[c] == 'T' && forall|j: int| c < j < v@.len() ==> v@[j] != 'T';
        if c < t {
            assert(v@[t] != 'T');
        }
        if c > t {
            assert(v@[c] != 'T');
        }
    }
    string_from_range(v.as_slice(), k, v.len())
}

/// The line of one message.
pub fn line_of(m: &TelegramMessage) -> (r: String)
    ensures
        r@ == message_line(*m),
{
    let mut line = match &m.from {
        Some(f) => f.clone(),
        None => String::from_str("Unknown"),
    };
    line.append(" [");
    let t = time_part(m.date.as_str());
    line.append(t.as_str());
    line.append("]");
    let ghost base = line@;
    if m.is_reply {
        line.append(" (reply)");
    }
    let ghost with_reply = line@;
    assert(with_reply == base + (if m.is_reply { " (reply)"@ } else { seq![] })) by {
        if !m.is_reply {
            assert(base + Seq::<char>::empty() =~= base);
        }
    }
    if m.is_edited {
        line.append(" (edited)");
    }
    assert(line@ == with_reply + (if m.is_edited { " (edited)"@ } else { seq![] })) by {
        if !m.is_edited {
            assert(with_reply + Seq::<char>::empty() =~= with_reply);
        }
    }
    line.append(": ");
    line.append(m.text.as_str());
    line.append("\n");
    line
}

/// The text of one segment.
pub fn segment_text(chat: &str, messages: &[TelegramMessage], segment: &Vec<usize>) -> (r: String)
    requires
        forall|k: int| 0 <= k < segment@.len() ==> (#[trigger] segment@[k]) < messages@.len(),
    ensures
        r@ == segment_text_spec(chat@, messages@, segment@.map_values(|i: usize| i as int)),
{
    let ghost seg = segment@.map_values(|i: usize| i as int);
    let mut text = String::from_str("[");
    text.append(chat);
    text.append("]\n");
    let ghost head = text@;
    let mut k: usize = 0;
    while k < segment.len()
        invariant
            k <= segment@.len(),
            seg == segment@.map_values(|i: usize| i as int),
            forall|j: int| 0 <= j < segment@.len() ==> (#[trigger] segment@[j]) < messages@.len(),
            text@ == head + segment_lines(messages@, seg, k as int),
        decreases segment.len() - k,
    {
        let m = &messages[segment[k]];
        let line = line_of(m);
        text.append(line.as_str());
        assert(seg[k as int] == segment@[k as int] as int);
        k += 1;
    }
    text
}

/// The document of segment `i` of chat `chat`: `segment_NNNN`, titled
/// `<chat> segment <i>`, private.
pub fn segment_document(chat: &str, i: usize, text: &str, source_id: Uuid) -> (r: Document)
    ensures
        r.external_id@ == "segment_"@ + zero_pad(dec_digits(i as nat), 4),
        r.title@ == chat@ + " segment "@ + dec_digits(i as nat),
        r.source_id == source_id,
        r.content_type == ContentType::Conversation,
        r.privacy_level == PrivacyLevel::Private,
        r.content_hash.0@ == text_hash(text@),
        r.language is None,
        r.parent_id is None,
        r.depth == 0,
{
    let mut external_id = String::from_str("segment_");
    push_decimal(&mut external_id, i as u64, 4);
    let mut title = String::from_str(chat);
    title.append(" segment ");
    push_decimal(&mut title, i as u64, 0);
    proof {
        reveal_strlit("segment_");
        assert(zero_pad(dec_digits(i as nat), 0) =~= dec_digits(i as nat));
    }
    let created = now_rfc3339();
    let indexed = now_rfc3339();
    Document {
        id: new_id(),
        source_id,
        external_id,
        parent_id: None,
        depth: 0,
        title,
        content_type: ContentType::Conversation,
        language: None,
        content_hash: hash_text(text),
        content_size: text.as_bytes().len() as u64,
        created_at: created,
        indexed_at: indexed,
        privacy_level: PrivacyLevel::Private,
    }
}

/// The file a segment is stored in: `segment_NNNN.txt`.
pub fn segment_filename(i: usize) -> (r: String)
    ensures
        r@ == "segment_"@ + zero_pad(dec_digits(i as nat), 4) + ".txt"@,
{
    let mut f = String::from_str("segment_");
    push_decimal(&mut f, i as u64, 4);
    f.append(".txt");
    proof {
        reveal_strlit("segment_");
    }
    f
}

/// The sender of an entry, when it is a message with one.
pub open spec fn sender_of(m: TelegramMessage) -> Option<Seq<char>> {
    if is_message(m) {
        match m.from {
            Some(f) => Some(f@),
            None => None,
        }
    } else {
        None
    }
}

/// Someone among the first `n` entries sent `name`.
pub open spec fn sent_by(ms: Seq<TelegramMessage>, n: int, name: Seq<char>) -> bool {
    exists|j: int| 0 <= j < n && #[trigger] sender_of(ms[j]) == Some(name)
}

proof fn lemma_senders_step(
    d0: Seq<Seq<char>>,
    d1: Seq<Seq<char>>,
    ms: Seq<TelegramMessage>,
    i: int,
)
    requires
        0 <= i < ms.len(),
        forall|x: Seq<char>| #[trigger] d0.contains(x) <==> sent_by(ms, i, x),
        match sender_of(ms[i]) {
            Some(f) => (d1 == d0.push(f) && !d0.contains(f)) || (d1 == d0 && d0.contains(f)),
            None => d1 == d0,
        },
    ensures
        forall|x: Seq<char>| #[trigger] d1.contains(x) <==> sent_by(ms, i + 1, x),
{
    assert forall|x: Seq<char>| #[trigger] d1.contains(x) <==> sent_by(ms, i + 1, x) by {
        if sent_by(ms, i + 1, x) {
            let j = choose|j: int| 0 <= j < i + 1 && #[trigger] sender_of(ms[j]) == Some(x);
            if j < i {
                assert(sent_by(ms, i, x));
            }
        }
        if sent_by(ms, i, x) {
            let j = choose|j: int| 0 <= j < i && #[trigger] sender_of(ms[j]) == Some(x);
            assert(sender_of(ms[j]) == Some(x));
            assert(sent_by(ms, i + 1, x));
        }
        if sender_of(ms[i]) == Some(x) {
            assert(sent_by(ms, i + 1, x));
        }
        if d1 != d0 {
            let f = sender_of(ms[i])->0;
            if d1.contains(x) && x != f {
                let k = choose|k: int| 0 <= k < d1.len() && d1[k] == x;
                assert(d0[k] == x);
            }
            if d0.contains(x) {
                let k = choose|k: int| 0 <= k < d0.len() && d0[k] == x;
                assert(d1[k] == x);
            }
            assert(d1[d0.len() as int] == f);
        }
    }
}

/// The senders of an export's messages, each once.
pub fn senders(messages: &[TelegramMessage]) -> (r: Vec<String>)
    ensures
        texts(r@).no_duplicates(),
        forall|n: Seq<char>| #[trigger] texts(r@).contains(n) <==> sent_by(messages@, messages@.len() as int, n),
{
    let mut out: Vec<String> = Vec::new();
    let mut i: usize = 0;
    while i < messages.len()
        invariant
            i <= messages@.len(),
            texts(out@).no_duplicates(),
            forall|n: Seq<char>| #[trigger] texts(out@).contains(n) <==> sent_by(messages@, i as int, n),
        decreases messages.len() - i,
    {
        proof {
            reveal_strlit("message");
        }
        let ghost before = out@;
        let is_msg = messages[i].kind == String::from_str("message");
        if is_msg {
            if let Some(f) = &messages[i].from {
                let mut dup = false;
                let mut q: usize = 0;
                while q < out.len()
                    invariant
                        q <= out@.len(),
                        !dup ==> forall|j: int| 0 <= j < q ==> out@[j]@ != f@,
                        dup ==> texts(out@).contains(f@),
                    decreases out.len() - q,
                {
                    if out[q] == *f {
                        dup = true;
                        assert(texts(out@)[q as int] == f@);
                    }
                    q += 1;
                }
                if !dup {
                    out.push(f.clone());
                    proof {
                        assert(texts(out@) =~= texts(before).push(f@));
                        assert(!texts(before).contains(f@)) by {
                            if texts(before).contains(f@) {
                                let k = choose|k: int| 0 <= k < texts(before).len() && texts(before)[k] == f@;
                                assert(before[k]@ == f@);
                            }
                        }
                    }
                }
            }
        }
        proof {
            lemma_senders_step(texts(before), texts(out@), messages@, i as int);
        }
        i += 1;
    }
    out
}

// ── Message text ─────────────────────────────────────────────────────

/// A part of a message's text: plain text, or a formatted piece that may
/// carry its text.
#[derive(Debug, Clone)]
pub enum TextPart {
    Plain(String),
    Entity(Option<String>),
    Other,
}

/// A message's `text` field: plain text, a list of parts, or anything else.
#[derive(Debug, Clone)]
pub enum MessageText {
    Plain(String),
    Parts(Vec<TextPart>),
    Other,
}

/// The text of a part; parts without text give none.
pub open spec fn part_text(p: TextPart) -> Seq<char> {
    match p {
        TextPart::Plain(s) => s@,
        TextPart::Entity(Some(t)) => t@,
        _ => seq![],
    }
}

/// The text of a message: its parts joined.
pub open spec fn message_text(v: MessageText) -> Seq<char> {
    match v {
        MessageText::Plain(s) => s@,
        MessageText::Parts(ps) => concat(ps@.map_values(|p: TextPart| part_text(p))),
        MessageText::Other => seq![],
    }
}

/// The flat text of a message.
pub fn extract_text(v: &MessageText) -> (r: String)
    ensures
        r@ == message_text(*v),
{
    match v {
        MessageText::Plain(s) => s.clone(),
        MessageText::Parts(ps) => {
            let ghost f = |p: TextPart| part_text(p);
            let mut r = String::new();
            let mut i: usize = 0;
            while i < ps.len()
                invariant
                    i <= ps@.len(),
                    f == (|p: TextPart| part_text(p)),
                    r@ == concat(ps@.take(i as int).map_values(f)),
                decreases ps.len() - i,
            {
                match &ps[i] {
                    TextPart::Plain(t) => r.append(t.as_str()),
                    TextPart::Entity(Some(t)) => r.append(t.as_str()),
                    _ => {},
                }
                assert(ps@.take(i + 1).map_values(f).drop_last() =~= ps@.take(i as int).map_values(f));
                i += 1;
            }
            assert(ps@.take(ps@.len() as int) =~= ps@);
            r
        },
        MessageText::Other => String::new(),
    }
}

} // verus!
