//! MBOX email archives: splitting into messages, reading the headers that
//! matter, and grouping replies into threads.
use vstd::prelude::*;
use uuid::Uuid;
use mail_parser::{Address, DateTime, MessageParser};
use crate::html::{converted_at, html_to_markdown, markdown_of};
use crate::sources::{hash_text, text_hash, texts};
use crate::text::{
    lines, line_ranges, pieces, push_range, starts_with, str_chars, string_from_range, trim,
    trim_range,
};
use crate::types::{new_id, now_rfc3339, ContentType, Document, PrivacyLevel};

verus! {

// ── Messages ─────────────────────────────────────────────────────────

/// A parsed email.
#[derive(Debug)]
pub struct ParsedEmail {
    pub message_id: String,
    pub in_reply_to: Option<String>,
    pub from: String,
    pub to: String,
    pub subject: String,
    pub date: String,
    pub body: String,
}

/// A thread of emails: a first message and the direct replies to it.
#[derive(Debug)]
pub struct EmailThread {
    pub subject: String,
    pub emails: Vec<ParsedEmail>,
}

/// The text of an optional string.
pub open spec fn opt_view(o: Option<String>) -> Option<Seq<char>> {
    match o {
        Some(s) => Some(s@),
        None => None,
    }
}

/// The header fields read from a message: message id, in-reply-to, the
/// first sender's name and address, the first recipient's address, subject,
/// date (RFC 3339), plain-text body and HTML body.
pub type MailView = (
    Option<Seq<char>>,
    Option<Seq<char>>,
    Option<(Option<Seq<char>>, Option<Seq<char>>)>,
    Option<Option<Seq<char>>>,
    Option<Seq<char>>,
    Option<Seq<char>>,
    Option<Seq<char>>,
    Option<Seq<char>>,
);

/// What mail-parser reads from a raw message, or `None` when it cannot
/// parse it.
pub uninterp spec fn mail_message(raw: Seq<char>) -> Option<MailView>;

/// The fields of a parsed message, as plain strings: message id, the id it
/// replies to, the first sender (name, address), the first recipient's
/// address, subject, date, first text body, first HTML body.
pub type MailFields = (
    Option<String>,
    Option<String>,
    Option<(Option<String>, Option<String>)>,
    Option<Option<String>>,
    Option<String>,
    Option<String>,
    Option<String>,
    Option<String>,
);

/// The view of the fields.
pub open spec fn fields_view(f: MailFields) -> MailView {
    (
        opt_view(f.0),
        opt_view(f.1),
        match f.2 {
            Some((n, a)) => Some((opt_view(n), opt_view(a))),
            None => None,
        },
        match f.3 {
            Some(a) => Some(opt_view(a)),
            None => None,
        },
        opt_view(f.4),
        opt_view(f.5),
        opt_view(f.6),
        opt_view(f.7),
    )
}

/// `mail_parser::MessageParser::new().parse(raw)`, read into plain fields:
/// the first sender and recipient, the first text and HTML bodies, the date
/// as RFC 3339. The result is the named reading of `raw`.
#[verifier::external_body]
fn read_message(raw: &str) -> (r: Option<MailFields>)
    ensures
        match r {
            Some(f) => mail_message(raw@) == Some(fields_view(f)),
            None => mail_message(raw@) is None,
        },
{
    let m = MessageParser::new().parse(raw)?;
    Some((
        m.message_id().map(String::from),
        m.in_reply_to().as_text().map(String::from),
        m.from().and_then(Address::first).map(|a| (a.name().map(String::from), a.address().map(String::from))),
        m.to().and_then(Address::first).map(|a| a.address().map(String::from)),
        m.subject().map(String::from),
        m.date().map(DateTime::to_rfc3339),
        m.body_text(0).map(String::from),
        m.body_html(0).map(String::from)
    ))
}

/// `o`'s text, or `default`.
pub open spec fn or_text(o: Option<Seq<char>>, default: Seq<char>) -> Seq<char> {
    match o {
        Some(s) => s,
        None => default,
    }
}

/// The sender as shown: `name <address>` when a name is given, else the
/// address, else `unknown`.
pub open spec fn sender_text(from: Option<(Option<Seq<char>>, Option<Seq<char>>)>) -> Seq<char> {
    match from {
        Some((Some(n), a)) => n + " <"@ + or_text(a, seq![]) + ">"@,
        Some((None, a)) => or_text(a, "unknown"@),
        None => "unknown"@,
    }
}

/// The recipient as shown: the first address, else `unknown`.
pub open spec fn recipient_text(to: Option<Option<Seq<char>>>) -> Seq<char> {
    match to {
        Some(Some(a)) => a,
        _ => "unknown"@,
    }
}

/// The body: the plain text, else the HTML as Markdown (`conv` being what
/// converting it gave), else empty.
pub open spec fn body_of(
    text: Option<Seq<char>>,
    html: Option<Seq<char>>,
    conv: Option<Seq<char>>,
) -> Seq<char> {
    match text {
        Some(t) => t,
        None => match html {
            Some(h) => markdown_of(h, conv),
            None => seq![],
        },
    }
}

/// The email a message holds, as its fields are shown, `conv` being what
/// converting its HTML body to Markdown gave; `None` when it has neither
/// body text nor subject.
pub open spec fn email_of(v: MailView, conv: Option<Seq<char>>) -> Option<(Seq<char>, Option<Seq<char>>, Seq<char>, Seq<char>, Seq<char>, Seq<char>, Seq<char>)> {
    let subject = or_text(v.4, "(no subject)"@);
    let body = body_of(v.6, v.7, conv);
    if trim(body).len() == 0 && subject == "(no subject)"@ {
        None
    } else {
        Some(
            (
                or_text(v.0, "unknown"@),
                v.1,
                sender_text(v.2),
                recipient_text(v.3),
                subject,
                or_text(v.5, "unknown"@),
                body,
            ),
        )
    }
}

/// The view of a parsed email.
pub open spec fn email_view(e: ParsedEmail) -> (Seq<char>, Option<Seq<char>>, Seq<char>, Seq<char>, Seq<char>, Seq<char>, Seq<char>) {
    (e.message_id@, opt_view(e.in_reply_to), e.from@, e.to@, e.subject@, e.date@, e.body@)
}

fn opt_clone(o: &Option<String>) -> (r: Option<String>)
    ensures
        opt_view(r) == opt_view(*o),
{
    match o {
        Some(s) => Some(s.clone()),
        None => None,
    }
}

fn text_or(o: Option<String>, default: &str) -> (r: String)
    ensures
        r@ == or_text(opt_view(o), default@),
{
    match o {
        Some(s) => s,
        None => String::from_str(default),
    }
}

/// The HTML body of a message, which the program converts to Markdown
/// before handing the message back to `parse_single_email`.
pub fn html_body(raw: &str) -> (r: Option<String>)
    ensures
        match mail_message(raw@) {
            None => r is None,
            Some(v) => opt_view(r) == v.7,
        },
{
    match read_message(raw) {
        Some(f) => f.7,
        None => None,
    }
}

/// Reads one message of an archive; `html_markdown` is what converting its
/// HTML body to Markdown gave, if anything.
pub fn parse_single_email(raw: &str, html_markdown: Option<String>) -> (r: Option<ParsedEmail>)
    ensures
        match mail_message(raw@) {
            None => r is None,
            Some(v) => match email_of(v, opt_view(html_markdown)) {
                None => r is None,
                Some(e) => r matches Some(p) && email_view(p) == e,
            },
        },
{
    let f = match read_message(raw) {
        Some(f) => f,
        None => {
            return None;
        },
    };
    let ghost v = fields_view(f);
    let (f_id, f_reply, f_from, f_to, f_subject, f_date, f_text, f_html) = f;
    let message_id = text_or(f_id, "unknown");
    let in_reply_to = f_reply;
    let from = match f_from {
        Some((Some(n), a)) => {
            let mut s = n;
            s.append(" <");
            let addr = text_or(a, "");
            s.append(addr.as_str());
            s.append(">");
            proof {
                reveal_strlit("");
            }
            s
        },
        Some((None, a)) => text_or(a, "unknown"),
        None => String::from_str("unknown"),
    };
    let to = match f_to {
        Some(Some(a)) => a,
        _ => String::from_str("unknown"),
    };
    let subject = text_or(f_subject, "(no subject)");
    let date = text_or(f_date, "unknown");
    let body = match f_text {
        Some(t) => t,
        None => match f_html {
            Some(h) => html_to_markdown(h.as_str(), html_markdown),
            None => String::new(),
        },
    };
    let bv = str_chars(body.as_str());
    let (a, b) = trim_range(bv.as_slice(), 0, bv.len());
    assert(bv@.subrange(0, bv@.len() as int) =~= bv@);
    proof {
        reveal_strlit("(no subject)");
    }
    if a == b && subject == String::from_str("(no subject)") {
        return None;
    }
    Some(ParsedEmail { message_id, in_reply_to, from, to, subject, date, body })
}

// ── Splitting an archive ─────────────────────────────────────────────

/// Lines joined with `\n`.
pub open spec fn join_lines(ls: Seq<Seq<char>>) -> Seq<char>
    decreases ls.len(),
{
    if ls.len() == 0 {
        seq![]
    } else if ls.len() == 1 {
        ls[0]
    } else {
        join_lines(ls.drop_last()) + seq!['\n'] + ls.last()
    }
}

/// Line `i` opens a new message: it starts with `From ` and follows a blank
/// line, the start of the archive, or the previous separator directly.
pub open spec fn is_separator(ls: Seq<Seq<char>>, i: int, cur: int) -> bool {
    starts_with(ls[i], "From "@) && (i == 0 || ls[i - 1].len() == 0 || i == cur)
}

/// Messages found in the first `n` lines, and where the current one starts.
pub open spec fn split_run(ls: Seq<Seq<char>>, n: int) -> (Seq<Seq<char>>, int)
    decreases n,
{
    if n <= 0 {
        (seq![], 0)
    } else {
        let (msgs, cur) = split_run(ls, n - 1);
        let i = n - 1;
        if is_separator(ls, i, cur) {
            (
                if i > cur && cur < ls.len() {
                    msgs.push(join_lines(ls.subrange(cur, i)))
                } else {
                    msgs
                },
                i + 1,
            )
        } else {
            (msgs, cur)
        }
    }
}

/// The raw messages of an archive's text.
pub open spec fn mbox_messages(text: Seq<char>) -> Seq<Seq<char>> {
    let ls = lines(text);
    let (msgs, cur) = split_run(ls, ls.len() as int);
    if cur < ls.len() {
        msgs.push(join_lines(ls.subrange(cur, ls.len() as int)))
    } else {
        msgs
    }
}

proof fn lemma_split_run_cur(ls: Seq<Seq<char>>, n: int)
    requires
        0 <= n,
    ensures
        0 <= split_run(ls, n).1 <= n,
    decreases n,
{
    if n > 0 {
        lemma_split_run_cur(ls, n - 1);
    }
}

fn join_range(v: &[char], ranges: &Vec<(usize, usize)>, from: usize, to: usize) -> (r: String)
    requires
        from < to <= ranges@.len(),
        forall|i: int| 0 <= i < ranges@.len() ==> (#[trigger] ranges@[i]).0 <= ranges@[i].1 <= v@.len(),
    ensures
        r@ == join_lines(pieces(v@, ranges@).subrange(from as int, to as int)),
{
    let (a0, b0) = ranges[from];
    let mut r = string_from_range(v, a0, b0);
    assert(pieces(v@, ranges@).subrange(from as int, from + 1) =~= seq![v@.subrange(a0 as int, b0 as int)]);
    let mut i = from + 1;
    while i < to
        invariant
            from < i <= to <= ranges@.len(),
            forall|j: int| 0 <= j < ranges@.len() ==> (#[trigger] ranges@[j]).0 <= ranges@[j].1 <= v@.len(),
            r@ == join_lines(pieces(v@, ranges@).subrange(from as int, i as int)),
        decreases to - i,
    {
        let (a, b) = ranges[i];
        crate::text::string_push(&mut r, '\n');
        push_range(&mut r, v, a, b);
        assert(pieces(v@, ranges@).subrange(from as int, i + 1).drop_last() =~= pieces(v@, ranges@).subrange(
            from as int,
            i as int,
        ));
        i += 1;
    }
    r
}

/// Splits an archive's text into raw messages at its `From ` lines.
#[verifier::rlimit(40)]
pub fn split_mbox(content: &str) -> (r: Vec<String>)
    ensures
        texts(r@) == mbox_messages(content@),
{
    let v = str_chars(content);
    let ranges = line_ranges(v.as_slice());
    let ghost ls = lines(v@);
    let from_pat = str_chars("From ");
    proof {
        reveal_strlit("From ");
    }
    let mut msgs: Vec<String> = Vec::new();
    let mut cur: usize = 0;
    let mut i: usize = 0;
    while i < ranges.len()
        invariant
            v@ == content@,
            pieces(v@, ranges@) == ls,
            from_pat@ == "From "@,
            i <= ranges@.len(),
            forall|j: int| 0 <= j < ranges@.len() ==> (#[trigger] ranges@[j]).0 <= ranges@[j].1 <= v@.len(),
            (texts(msgs@), cur as int) == split_run(ls, i as int),
            cur <= i,
        decreases ranges@.len() - i,
    {
        let (a, b) = ranges[i];
        assert(ls[i as int] == v@.subrange(a as int, b as int));
        let line = &v.as_slice()[a..b];
        assert(line@ == v@.subrange(a as int, b as int));
        let prev_blank = if i == 0 {
            false
        } else {
            let (pa, pb) = ranges[i - 1];
            assert(ls[i - 1] == v@.subrange(pa as int, pb as int));
            pa == pb
        };
        let sep = crate::text::starts_with_exec(line, from_pat.as_slice()) && (i == 0 || prev_blank
            || i == cur);
        if sep {
            if i > cur && cur < ranges.len() {
                let m = join_range(v.as_slice(), &ranges, cur, i);
                let ghost before = msgs@;
                msgs.push(m);
                assert(texts(msgs@) =~= before.map_values(|s: String| s@).push(
                    m@,
                ));
            }
            cur = i + 1;
        }
        i += 1;
    }
    if cur < ranges.len() {
        let m = join_range(v.as_slice(), &ranges, cur, ranges.len());
        let ghost before = msgs@;
        msgs.push(m);
        assert(texts(msgs@) =~= before.map_values(|s: String| s@).push(m@));
    }
    msgs
}

// ── Threads ──────────────────────────────────────────────────────────

/// The last email among the first `n` whose message id is `id`.
pub open spec fn id_index(es: Seq<ParsedEmail>, id: Seq<char>, n: int) -> Option<int>
    decreases n,
{
    if n <= 0 {
        None
    } else if es[n - 1].message_id@ == id {
        Some(n - 1)
    } else {
        id_index(es, id, n - 1)
    }
}

/// The email that email `i` replies to, if it is in the archive.
pub open spec fn parent_of(es: Seq<ParsedEmail>, i: int) -> Option<int> {
    match es[i].in_reply_to {
        Some(r) => id_index(es, r@, es.len() as int),
        None => None,
    }
}

/// The emails among the first `n` that start threads: those replying to
/// nothing in the archive.
pub open spec fn roots_upto(es: Seq<ParsedEmail>, n: int) -> Seq<int>
    decreases n,
{
    if n <= 0 {
        seq![]
    } else {
        roots_upto(es, n - 1) + if parent_of(es, n - 1) is None {
            seq![n - 1]
        } else {
            seq![]
        }
    }
}

/// The replies to email `p` among the first `n`, in archive order.
pub open spec fn replies_upto(es: Seq<ParsedEmail>, p: int, n: int) -> Seq<int>
    decreases n,
{
    if n <= 0 {
        seq![]
    } else {
        replies_upto(es, p, n - 1) + if parent_of(es, n - 1) == Some(p) {
            seq![n - 1]
        } else {
            seq![]
        }
    }
}

/// Email positions of the thread that root `r` starts: the root, then its
/// direct replies.
pub open spec fn thread_members(es: Seq<ParsedEmail>, r: int) -> Seq<int> {
    seq![r] + replies_upto(es, r, es.len() as int)
}

/// `t` is the thread of root `r`: its subject is the root's, its emails
/// those of `thread_members`.
pub open spec fn is_thread_of(t: EmailThread, es: Seq<ParsedEmail>, r: int) -> bool {
    &&& t.subject@ == es[r].subject@
    &&& t.emails@.len() == thread_members(es, r).len()
    &&& forall|k: int|
        0 <= k < t.emails@.len() ==> email_view(#[trigger] t.emails@[k]) == email_view(
            es[thread_members(es, r)[k]],
        )
}

impl ParsedEmail {
    /// A field-by-field copy.
    pub fn duplicate(&self) -> (r: ParsedEmail)
        ensures
            email_view(r) == email_view(*self),
    {
        ParsedEmail {
            message_id: self.message_id.clone(),
            in_reply_to: match &self.in_reply_to {
                Some(s) => Some(s.clone()),
                None => None,
            },
            from: self.from.clone(),
            to: self.to.clone(),
            subject: self.subject.clone(),
            date: self.date.clone(),
            body: self.body.clone(),
        }
    }
}

fn find_id(es: &Vec<ParsedEmail>, id: &String) -> (r: Option<usize>)
    ensures
        match id_index(es@, id@, es@.len() as int) {
            Some(k) => r == Some(k as usize),
            None => r is None,
        },
{
    let mut n = es.len();
    while n > 0
        invariant
            n <= es@.len(),
            id_index(es@, id@, es@.len() as int) == id_index(es@, id@, n as int),
        decreases n,
    {
        if es[n - 1].message_id == *id {
            return Some(n - 1);
        }
        n -= 1;
    }
    None
}

proof fn lemma_roots_bound(es: Seq<ParsedEmail>, n: int)
    requires
        0 <= n,
    ensures
        forall|k: int| 0 <= k < roots_upto(es, n).len() ==> 0 <= #[trigger] roots_upto(es, n)[k] < n,
        roots_upto(es, n).len() <= n,
    decreases n,
{
    if n > 0 {
        lemma_roots_bound(es, n - 1);
    }
}

proof fn lemma_replies_bound(es: Seq<ParsedEmail>, p: int, n: int)
    requires
        0 <= n,
    ensures
        forall|k: int| 0 <= k < replies_upto(es, p, n).len() ==> 0 <= #[trigger] replies_upto(es, p, n)[k] < n,
    decreases n,
{
    if n > 0 {
        lemma_replies_bound(es, p, n - 1);
        let prev = replies_upto(es, p, n - 1);
        let cur = replies_upto(es, p, n);
        assert forall|k: int| 0 <= k < cur.len() implies 0 <= #[trigger] cur[k] < n by {
            if k < prev.len() {
                assert(cur[k] == prev[k]);
            }
        }
    }
}

proof fn lemma_id_index_bound(es: Seq<ParsedEmail>, id: Seq<char>, n: int)
    requires
        0 <= n,
    ensures
        id_index(es, id, n) matches Some(k) ==> 0 <= k < n,
    decreases n,
{
    if n > 0 {
        lemma_id_index_bound(es, id, n - 1);
    }
}

proof fn lemma_parent_bound(es: Seq<ParsedEmail>, i: int)
    ensures
        parent_of(es, i) matches Some(k) ==> 0 <= k < es.len(),
{
    if let Some(r) = es[i].in_reply_to {
        lemma_id_index_bound(es, r@, es.len() as int);
    }
}

proof fn lemma_replies_upto(es: Seq<ParsedEmail>, p: int, n: int)
    requires
        0 <= n,
    ensures
        forall|k: int|
            0 <= k < replies_upto(es, p, n).len() ==> 0 <= #[trigger] replies_upto(es, p, n)[k] < n
                && parent_of(es, replies_upto(es, p, n)[k]) == Some(p),
        forall|a: int, b: int|
            0 <= a < b < replies_upto(es, p, n).len() ==> replies_upto(es, p, n)[a] < replies_upto(
                es,
                p,
                n,
            )[b],
        forall|i: int|
            0 <= i < n && parent_of(es, i) == Some(p) ==> exists|k: int|
                0 <= k < replies_upto(es, p, n).len() && #[trigger] replies_upto(es, p, n)[k] == i,
    decreases n,
{
    if n > 0 {
        lemma_replies_upto(es, p, n - 1);
        let prev = replies_upto(es, p, n - 1);
        let cur = replies_upto(es, p, n);
        assert forall|k: int| 0 <= k < cur.len() implies 0 <= #[trigger] cur[k] < n && parent_of(es, cur[k]) == Some(p) by {
            if k < prev.len() {
                assert(cur[k] == prev[k]);
            }
        }
        assert forall|a: int, b: int| 0 <= a < b < cur.len() implies cur[a] < cur[b] by {
            assert(cur[a] == prev[a]);
            if b < prev.len() {
                assert(cur[b] == prev[b]);
            }
        }
        assert forall|i: int| 0 <= i < n && parent_of(es, i) == Some(p) implies exists|k: int|
            0 <= k < cur.len() && #[trigger] cur[k] == i by {
            if i < n - 1 {
                let k = choose|k: int| 0 <= k < prev.len() && #[trigger] prev[k] == i;
                assert(cur[k] == prev[k]);
            } else {
                assert(cur[prev.len() as int] == i);
            }
        }
    }
}

/// A thread holds its first email and every email of the archive that
/// replies to it, each once and in archive order, and nothing else: no
/// reply to a thread's first email is left out.
pub proof fn lemma_thread_holds_every_reply(es: Seq<ParsedEmail>, r: int)
    ensures
        thread_members(es, r)[0] == r,
        forall|i: int|
            0 <= i < es.len() && parent_of(es, i) == Some(r) ==> exists|k: int|
                1 <= k < thread_members(es, r).len() && #[trigger] thread_members(es, r)[k] == i,
        forall|k: int|
            1 <= k < thread_members(es, r).len() ==> 0 <= #[trigger] thread_members(es, r)[k] < es.len()
                && parent_of(es, thread_members(es, r)[k]) == Some(r),
        forall|a: int, b: int|
            1 <= a < b < thread_members(es, r).len() ==> thread_members(es, r)[a] < thread_members(
                es,
                r,
            )[b],
{
    let rs = replies_upto(es, r, es.len() as int);
    let t = thread_members(es, r);
    lemma_replies_upto(es, r, es.len() as int);
    assert forall|k: int| 1 <= k < t.len() implies t[k] == rs[k - 1] by {}
    assert forall|i: int| 0 <= i < es.len() && parent_of(es, i) == Some(r) implies exists|k: int|
        1 <= k < t.len() && #[trigger] t[k] == i by {
        let k = choose|k: int| 0 <= k < rs.len() && #[trigger] rs[k] == i;
        assert(t[k + 1] == rs[k]);
    }
    assert forall|k: int| 1 <= k < t.len() implies 0 <= #[trigger] t[k] < es.len() && parent_of(es, t[k]) == Some(r) by {
        assert(t[k] == rs[k - 1]);
    }
    assert forall|a: int, b: int| 1 <= a < b < t.len() implies t[a] < t[b] by {
        assert(t[a] == rs[a - 1]);
        assert(t[b] == rs[b - 1]);
    }
}

/// Groups emails into threads: one per email that replies to nothing in the
/// archive, holding it and its direct replies in archive order. A reply to a
/// reply belongs to no thread.
pub fn group_into_threads(emails: &Vec<ParsedEmail>) -> (r: Vec<EmailThread>)
    ensures
        r@.len() == roots_upto(emails@, emails@.len() as int).len(),
        forall|t: int|
            0 <= t < r@.len() ==> is_thread_of(
                #[trigger] r@[t],
                emails@,
                roots_upto(emails@, emails@.len() as int)[t],
            ),
{
    let n = emails.len();
    let mut parents: Vec<Option<usize>> = Vec::new();
    let mut i: usize = 0;
    while i < n
        invariant
            n == emails@.len(),
            i <= n,
            parents@.len() == i,
            forall|j: int|
                0 <= j < i ==> match parent_of(emails@, j) {
                    Some(p) => #[trigger] parents@[j] == Some(p as usize),
                    None => parents@[j] is None,
                },
        decreases n - i,
    {
        let p = match &emails[i].in_reply_to {
            Some(r) => find_id(emails, r),
            None => None,
        };
        parents.push(p);
        i += 1;
    }
    let ghost roots = roots_upto(emails@, n as int);
    proof {
        lemma_roots_bound(emails@, n as int);
    }
    let mut threads: Vec<EmailThread> = Vec::new();
    let mut r: usize = 0;
    let ghost mut seen: int = 0;
    while r < n
        invariant
            n == emails@.len(),
            parents@.len() == n,
            forall|j: int|
                0 <= j < n ==> match parent_of(emails@, j) {
                    Some(p) => #[trigger] parents@[j] == Some(p as usize),
                    None => parents@[j] is None,
                },
            r <= n,
            threads@.len() == roots_upto(emails@, r as int).len(),
            forall|t: int|
                0 <= t < threads@.len() ==> is_thread_of(
                    #[trigger] threads@[t],
                    emails@,
                    roots_upto(emails@, r as int)[t],
                ),
        decreases n - r,
    {
        if parents[r].is_none() {
            let mut members: Vec<ParsedEmail> = Vec::new();
            members.push(emails[r].duplicate());
            let mut c: usize = 0;
            while c < n
                invariant
                    n == emails@.len(),
                    parents@.len() == n,
                    forall|j: int|
                        0 <= j < n ==> match parent_of(emails@, j) {
                            Some(p) => #[trigger] parents@[j] == Some(p as usize),
                            None => parents@[j] is None,
                        },
                    r < n,
                    c <= n,
                    members@.len() == 1 + replies_upto(emails@, r as int, c as int).len(),
                    email_view(members@[0]) == email_view(emails@[r as int]),
                    forall|k: int|
                        1 <= k < members@.len() ==> email_view(#[trigger] members@[k]) == email_view(
                            emails@[replies_upto(emails@, r as int, c as int)[k - 1]],
                        ),
                decreases n - c,
            {
                let ghost before = members@;
                if parents[c] == Some(r) {
                    members.push(emails[c].duplicate());
                    proof {
                        lemma_parent_bound(emails@, c as int);
                        assert(parent_of(emails@, c as int) == Some(r as int)) by {
                            if parent_of(emails@, c as int) is None {
                                assert(parents@[c as int] is None);
                            } else {
                                let p = parent_of(emails@, c as int)->0;
                                assert(parents@[c as int] == Some(p as usize));
                            }
                        }
                    }
                } else {
                    proof {
                        if parent_of(emails@, c as int) == Some(r as int) {
                            assert(parents@[c as int] == Some(r));
                        }
                    }
                }
                c += 1;
            }
            let subject = emails[r].subject.clone();
            let ghost before_threads = threads@;
            threads.push(EmailThread { subject, emails: members });
            proof {
                assert(parent_of(emails@, r as int) is None) by {
                    if parent_of(emails@, r as int) is Some {
                        let p = parent_of(emails@, r as int)->0;
                        assert(parents@[r as int] == Some(p as usize));
                    }
                }
                let t = threads@.len() - 1;
                assert(roots_upto(emails@, r + 1) == roots_upto(emails@, r as int).push(r as int));
                assert forall|u: int|
                    0 <= u < threads@.len() implies is_thread_of(
                    #[trigger] threads@[u],
                    emails@,
                    roots_upto(emails@, r + 1)[u],
                ) by {
                    if u < t {
                        assert(threads@[u] == before_threads[u]);
                    } else {
                        let th = threads@[u];
                        assert forall|k: int| 0 <= k < th.emails@.len() implies email_view(
                            #[trigger] th.emails@[k],
                        ) == email_view(emails@[thread_members(emails@, r as int)[k]]) by {
                            if k >= 1 {
                                assert(thread_members(emails@, r as int)[k] == replies_upto(
                                    emails@,
                                    r as int,
                                    n as int,
                                )[k - 1]);
                            }
                        }
                    }
                }
            }
        } else {
            proof {
                assert(parent_of(emails@, r as int) is Some) by {
                    if parent_of(emails@, r as int) is None {
                        assert(parents@[r as int] is None);
                    }
                }
                assert(roots_upto(emails@, r + 1) =~= roots_upto(emails@, r as int));
            }
        }
        r += 1;
    }
    threads
}

// ── Documents ────────────────────────────────────────────────────────

/// `**From:** <from> **To:** <to> **Date:** <date>` and a blank line.
pub open spec fn email_header(e: ParsedEmail) -> Seq<char> {
    "**From:** "@ + e.from@ + " **To:** "@ + e.to@ + " **Date:** "@ + e.date@ + "\n\n"@
}

/// The text of the first `k` emails of a thread.
pub open spec fn thread_body(es: Seq<ParsedEmail>, k: int) -> Seq<char>
    decreases k,
{
    if k <= 0 {
        seq![]
    } else {
        thread_body(es, k - 1) + email_header(es[k - 1]) + es[k - 1].body@ + "\n\n---\n\n"@
    }
}

/// A thread as one Markdown document: the subject as heading, then each
/// email's header line and body, separated by rules.
pub open spec fn thread_text(t: EmailThread) -> Seq<char> {
    "# "@ + t.subject@ + "\n\n"@ + thread_body(t.emails@, t.emails@.len() as int)
}

/// The Markdown text of a thread.
pub fn thread_markdown(t: &EmailThread) -> (r: String)
    ensures
        r@ == thread_text(*t),
{
    let mut text = String::from_str("# ");
    text.append(t.subject.as_str());
    text.append("\n\n");
    let ghost head = text@;
    let mut k: usize = 0;
    while k < t.emails.len()
        invariant
            k <= t.emails@.len(),
            text@ == head + thread_body(t.emails@, k as int),
        decreases t.emails.len() - k,
    {
        let e = &t.emails[k];
        text.append("**From:** ");
        text.append(e.from.as_str());
        text.append(" **To:** ");
        text.append(e.to.as_str());
        text.append(" **Date:** ");
        text.append(e.date.as_str());
        text.append("\n\n");
        text.append(e.body.as_str());
        text.append("\n\n---\n\n");
        k += 1;
    }
    text
}

/// The document of thread number `idx` of an archive: `thread_NNNN`,
/// titled by its subject, private.
pub fn thread_document(t: &EmailThread, idx: usize, source_id: Uuid) -> (r: (Document, String))
    ensures
        r.1@ == thread_text(*t),
        r.0.external_id@ == "thread_"@ + crate::text::zero_pad(crate::text::dec_digits(idx as nat), 4),
        r.0.title@ == t.subject@,
        r.0.source_id == source_id,
        r.0.content_type == ContentType::EmailThread,
        r.0.privacy_level == PrivacyLevel::Private,
        r.0.content_hash.0@ == text_hash(thread_text(*t)),
        r.0.language is None,
        r.0.parent_id is None,
        r.0.depth == 0,
{
    let text = thread_markdown(t);
    let mut external_id = String::from_str("thread_");
    crate::text::push_decimal(&mut external_id, idx as u64, 4);
    proof {
        reveal_strlit("thread_");
    }
    let created = now_rfc3339();
    let indexed = now_rfc3339();
    let doc = Document {
        id: new_id(),
        source_id,
        external_id,
        parent_id: None,
        depth: 0,
        title: t.subject.clone(),
        content_type: ContentType::EmailThread,
        language: None,
        content_hash: hash_text(text.as_str()),
        content_size: text.as_str().as_bytes().len() as u64,
        created_at: created,
        indexed_at: indexed,
        privacy_level: PrivacyLevel::Private,
    };
    (doc, text)
}

/// The text of members `ms[..k]` of a thread drawn from `es`.
pub open spec fn members_body(es: Seq<ParsedEmail>, ms: Seq<int>, k: int) -> Seq<char>
    decreases k,
{
    if k <= 0 {
        seq![]
    } else {
        members_body(es, ms, k - 1) + email_header(es[ms[k - 1]]) + es[ms[k - 1]].body@
            + "\n\n---\n\n"@
    }
}

/// The document text of the thread that root `r` of `es` starts.
pub open spec fn root_thread_text(es: Seq<ParsedEmail>, r: int) -> Seq<char> {
    "# "@ + es[r].subject@ + "\n\n"@ + members_body(
        es,
        thread_members(es, r),
        thread_members(es, r).len() as int,
    )
}

proof fn lemma_thread_body(th: EmailThread, es: Seq<ParsedEmail>, r: int, k: int)
    requires
        is_thread_of(th, es, r),
        0 <= k <= th.emails@.len(),
    ensures
        thread_body(th.emails@, k) == members_body(es, thread_members(es, r), k),
    decreases k,
{
    if k > 0 {
        lemma_thread_body(th, es, r, k - 1);
        assert(email_view(th.emails@[k - 1]) == email_view(es[thread_members(es, r)[k - 1]]));
    }
}

/// The views of a list of emails.
pub open spec fn email_views(
    es: Seq<ParsedEmail>,
) -> Seq<(Seq<char>, Option<Seq<char>>, Seq<char>, Seq<char>, Seq<char>, Seq<char>, Seq<char>)> {
    es.map_values(|e: ParsedEmail| email_view(e))
}

/// The emails read from the first `n` raw messages, skipping those that do
/// not parse or hold nothing; `convs[i]` is what converting the HTML body
/// of message `i` gave.
pub open spec fn parsed_views(
    msgs: Seq<Seq<char>>,
    convs: Seq<Option<String>>,
    n: int,
) -> Seq<(Seq<char>, Option<Seq<char>>, Seq<char>, Seq<char>, Seq<char>, Seq<char>, Seq<char>)>
    decreases n,
{
    if n <= 0 {
        seq![]
    } else {
        parsed_views(msgs, convs, n - 1) + match mail_message(msgs[n - 1]) {
            Some(v) => match email_of(v, converted_at(convs, n - 1)) {
                Some(e) => seq![e],
                None => seq![],
            },
            None => seq![],
        }
    }
}

/// Parses an archive's text into thread documents: the emails read from
/// its messages, grouped into threads, document `t` holding the thread of
/// the `t`-th email that replies to nothing in the archive.
/// `html_markdown[i]` is what converting the HTML body of message `i` of
/// `split_mbox(content)` to Markdown gave.
pub fn parse_mbox(content: &str, source_id: Uuid, html_markdown: &[Option<String>]) -> (r: Vec<(Document, String)>)
    ensures
        exists|es: Seq<ParsedEmail>|
            #[trigger] email_views(es) == parsed_views(
                mbox_messages(content@),
                html_markdown@,
                mbox_messages(content@).len() as int,
            ) && r@.len() == roots_upto(es, es.len() as int).len() && forall|t: int|
                0 <= t < r@.len() ==> (#[trigger] r@[t]).1@ == root_thread_text(
                    es,
                    roots_upto(es, es.len() as int)[t],
                ) && r@[t].0.title@ == es[roots_upto(es, es.len() as int)[t]].subject@,
        forall|t: int|
            0 <= t < r@.len() ==> (#[trigger] r@[t]).0.external_id@ == "thread_"@
                + crate::text::zero_pad(crate::text::dec_digits(t as nat), 4) && r@[t].0.source_id
                == source_id && r@[t].0.content_type == ContentType::EmailThread
                && r@[t].0.privacy_level == PrivacyLevel::Private && r@[t].0.content_hash.0@
                == text_hash(r@[t].1@) && r@[t].0.parent_id is None && r@[t].0.depth == 0,
{
    let raw_msgs = split_mbox(content);
    let ghost msgs = mbox_messages(content@);
    let mut emails: Vec<ParsedEmail> = Vec::new();
    let mut i: usize = 0;
    while i < raw_msgs.len()
        invariant
            i <= raw_msgs@.len(),
            texts(raw_msgs@) == msgs,
            emails@.map_values(|e: ParsedEmail| email_view(e)) == parsed_views(msgs, html_markdown@, i as int),
        decreases raw_msgs.len() - i,
    {
        let ghost before = emails@;
        assert(msgs[i as int] == raw_msgs@[i as int]@);
        let conv = if i < html_markdown.len() {
            opt_clone(&html_markdown[i])
        } else {
            None
        };
        if let Some(e) = parse_single_email(raw_msgs[i].as_str(), conv) {
            emails.push(e);
            assert(emails@.map_values(|e: ParsedEmail| email_view(e)) =~= before.map_values(
                |e: ParsedEmail| email_view(e),
            ).push(email_view(e)));
        } else {
            assert(emails@.map_values(|e: ParsedEmail| email_view(e)) =~= before.map_values(
                |e: ParsedEmail| email_view(e),
            ) + Seq::empty());
        }
        i += 1;
    }
    let threads = group_into_threads(&emails);
    let mut docs: Vec<(Document, String)> = Vec::new();
    let mut k: usize = 0;
    while k < threads.len()
        invariant
            k <= threads@.len(),
            threads@.len() == roots_upto(emails@, emails@.len() as int).len(),
            forall|t: int|
                0 <= t < threads@.len() ==> is_thread_of(
                    #[trigger] threads@[t],
                    emails@,
                    roots_upto(emails@, emails@.len() as int)[t],
                ),
            docs@.len() == k,
            forall|t: int|
                0 <= t < k ==> (#[trigger] docs@[t]).1@ == thread_text(threads@[t]) && docs@[t].0.title@
                    == threads@[t].subject@,
            forall|t: int|
                0 <= t < k ==> (#[trigger] docs@[t]).0.external_id@ == "thread_"@
                    + crate::text::zero_pad(crate::text::dec_digits(t as nat), 4) && docs@[t].0.source_id
                    == source_id && docs@[t].0.content_type == ContentType::EmailThread
                    && docs@[t].0.privacy_level == PrivacyLevel::Private && docs@[t].0.content_hash.0@
                    == text_hash(docs@[t].1@) && docs@[t].0.parent_id is None && docs@[t].0.depth == 0,
        decreases threads.len() - k,
    {
        docs.push(thread_document(&threads[k], k, source_id));
        k += 1;
    }
    assert(docs@.len() == roots_upto(emails@, emails@.len() as int).len());
    assert forall|t: int| 0 <= t < docs@.len() implies (#[trigger] docs@[t]).1@ == root_thread_text(
        emails@,
        roots_upto(emails@, emails@.len() as int)[t],
    ) && docs@[t].0.title@ == emails@[roots_upto(emails@, emails@.len() as int)[t]].subject@ by {
        let th = threads@[t];
        let root = roots_upto(emails@, emails@.len() as int)[t];
        assert(is_thread_of(th, emails@, root));
        lemma_thread_body(th, emails@, root, th.emails@.len() as int);
    }
    assert(email_views(emails@) == parsed_views(
        mbox_messages(content@),
        html_markdown@,
        mbox_messages(content@).len() as int,
    ));
    docs
}

// ── Contacts ─────────────────────────────────────────────────────────

/// The sender named on a `**From:** ` line: the text up to the next `**`,
/// trimmed.
pub open spec fn contact_on_line(line: Seq<char>) -> Option<Seq<char>> {
    if starts_with(line, "**From:** "@) {
        let rest = line.subrange(10, line.len() as int);
        let name = trim(match crate::text::find(rest, "**"@) {
            Some(k) => rest.subrange(0, k),
            None => rest,
        });
        if name.len() > 0 {
            Some(name)
        } else {
            None
        }
    } else {
        None
    }
}

/// Contact names of thread documents: every sender named on a `**From:** `
/// line, each once.
pub fn extract_contacts(docs: &Vec<(Document, String)>) -> (r: Vec<String>)
    ensures
        texts(r@).no_duplicates(),
        forall|n: Seq<char>| #[trigger] texts(r@).contains(n) ==> exists|d: int, l: int|
            0 <= d < docs@.len() && 0 <= l < lines(docs@[d].1@).len() && contact_on_line(
                lines(docs@[d].1@)[l],
            ) == Some(n),
        forall|d: int, l: int|
            #![trigger contact_on_line(lines(docs@[d].1@)[l])]
            0 <= d < docs@.len() && 0 <= l < lines(docs@[d].1@).len() ==> match contact_on_line(
                lines(docs@[d].1@)[l],
            ) {
                Some(n) => texts(r@).contains(n),
                None => true,
            },
{
    let mut out: Vec<String> = Vec::new();
    let prefix = str_chars("**From:** ");
    let stars = str_chars("**");
    proof {
        reveal_strlit("**From:** ");
        reveal_strlit("**");
    }
    let mut d: usize = 0;
    while d < docs.len()
        invariant
            d <= docs@.len(),
            prefix@ == "**From:** "@,
            stars@ == "**"@,
            texts(out@).no_duplicates(),
            forall|n: Seq<char>| #[trigger] texts(out@).contains(n) ==> exists|dd: int, l: int|
                0 <= dd < docs@.len() && 0 <= l < lines(docs@[dd].1@).len() && contact_on_line(
                    lines(docs@[dd].1@)[l],
                ) == Some(n),
            forall|dd: int, ll: int|
                #![trigger contact_on_line(lines(docs@[dd].1@)[ll])]
                0 <= dd < d && 0 <= ll < lines(docs@[dd].1@).len() ==> match contact_on_line(
                    lines(docs@[dd].1@)[ll],
                ) {
                    Some(n) => texts(out@).contains(n),
                    None => true,
                },
        decreases docs.len() - d,
    {
        let v = str_chars(docs[d].1.as_str());
        let ranges = line_ranges(v.as_slice());
        let mut l: usize = 0;
        while l < ranges.len()
            invariant
                d < docs@.len(),
                v@ == docs@[d as int].1@,
                pieces(v@, ranges@) == lines(v@),
                l <= ranges@.len(),
                forall|j: int| 0 <= j < ranges@.len() ==> (#[trigger] ranges@[j]).0 <= ranges@[j].1 <= v@.len(),
                prefix@ == "**From:** "@,
                stars@ == "**"@,
                texts(out@).no_duplicates(),
                forall|n: Seq<char>| #[trigger] texts(out@).contains(n) ==> exists|dd: int, ll: int|
                    0 <= dd < docs@.len() && 0 <= ll < lines(docs@[dd].1@).len() && contact_on_line(
                        lines(docs@[dd].1@)[ll],
                    ) == Some(n),
                forall|dd: int, ll: int|
                    #![trigger contact_on_line(lines(docs@[dd].1@)[ll])]
                    0 <= dd < docs@.len() && 0 <= ll < lines(docs@[dd].1@).len() && (dd < d || (dd == d
                        && ll < l)) ==> match contact_on_line(lines(docs@[dd].1@)[ll]) {
                        Some(n) => texts(out@).contains(n),
                        None => true,
                    },
            decreases ranges@.len() - l,
        {
            let ghost out0 = out@;
            let (a, b) = ranges[l];
            let line = &v.as_slice()[a..b];
            assert(line@ == v@.subrange(a as int, b as int));
            assert(lines(v@)[l as int] == line@);
            if crate::text::starts_with_exec(line, prefix.as_slice()) {
                proof {
                    reveal_strlit("**From:** ");
                }
                assert(prefix@.len() == 10);
                assert(line@.len() >= 10);
                let rest = &v.as_slice()[a + 10..b];
                assert(rest@ == line@.subrange(10, line@.len() as int));
                let end = match crate::text::find_exec(rest, stars.as_slice()) {
                    Some(k) => {
                        proof {
                            crate::text::lemma_find(rest@, stars@);
                        }
                        k
                    },
                    None => rest.len(),
                };
                let (ta, tb) = trim_range(rest, 0, end);
                proof {
                    if end == rest@.len() {
                        assert(rest@.subrange(0, end as int) =~= rest@);
                    }
                    if ta >= tb {
                        assert(contact_on_line(lines(docs@[d as int].1@)[l as int]) is None);
                    }
                }
                if ta < tb {
                    let name = string_from_range(rest, ta, tb);
                    proof {
                        if end == rest@.len() {
                            assert(rest@.subrange(0, end as int) =~= rest@);
                        }
                        assert(contact_on_line(lines(docs@[d as int].1@)[l as int]) == Some(name@));
                    }
                    let mut dup = false;
                    let mut q: usize = 0;
                    while q < out.len()
                        invariant
                            q <= out@.len(),
                            !dup ==> forall|j: int| 0 <= j < q ==> out@[j]@ != name@,
                            dup ==> texts(out@).contains(name@),
                        decreases out.len() - q,
                    {
                        if out[q] == name {
                            dup = true;
                            assert(texts(out@)[q as int] == name@);
                        }
                        q += 1;
                    }
                    if !dup {
                        let ghost before = out@;
                        out.push(name);
                        proof {
                            assert(texts(out@) =~= before.map_values(|s: String| s@).push(name@));
                            assert(texts(out@)[before.len() as int] == name@);
                            assert forall|x: Seq<char>| #[trigger] texts(before).contains(x) implies texts(
                                out@,
                            ).contains(x) by {
                                let j = choose|j: int| 0 <= j < texts(before).len() && #[trigger] texts(before)[j]
                                    == x;
                                assert(texts(out@)[j] == x);
                            }
                            assert forall|n: Seq<char>| #[trigger] texts(out@).contains(n) implies exists|dd: int, ll: int|
                                0 <= dd < docs@.len() && 0 <= ll < lines(docs@[dd].1@).len() && contact_on_line(
                                    lines(docs@[dd].1@)[ll],
                                ) == Some(n) by {
                                if n == name@ {
                                    assert(contact_on_line(lines(docs@[d as int].1@)[l as int]) == Some(n));
                                } else {
                                    let j = choose|j: int| 0 <= j < out@.len() && texts(out@)[j] == n;
                                    assert(before.map_values(|s: String| s@)[j] == n);
                                    assert(before.map_values(|s: String| s@).contains(n));
                                }
                            }
                        }
                    }
                }
            }
            proof {
                assert forall|x: Seq<char>| #[trigger] texts(out0).contains(x) implies texts(out@).contains(x) by {
                    if out@ != out0 {
                        assert(texts(out0).contains(x));
                    }
                }
                assert(match contact_on_line(lines(docs@[d as int].1@)[l as int]) {
                    Some(n) => texts(out@).contains(n),
                    None => true,
                });
                assert forall|dd: int, ll: int|
                    #![trigger contact_on_line(lines(docs@[dd].1@)[ll])]
                    0 <= dd < docs@.len() && 0 <= ll < lines(docs@[dd].1@).len() && (dd < d || (dd == d
                        && ll < l + 1)) implies match contact_on_line(lines(docs@[dd].1@)[ll]) {
                        Some(n) => texts(out@).contains(n),
                        None => true,
                    } by {
                    if dd < d || ll < l {
                        match contact_on_line(lines(docs@[dd].1@)[ll]) {
                            Some(n) => assert(texts(out0).contains(n)),
                            None => {},
                        }
                    }
                }
            }
            l += 1;
        }
        d += 1;
    }
    out
}

} // verus!
