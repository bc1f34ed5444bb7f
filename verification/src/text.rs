//! Character-level text utilities shared by the parsers.
//!
//! Text is handled as sequences of `char`s; every operation here is stated
//! over `Seq<char>` so that callers can reason about what they extract.
use vstd::prelude::*;

verus! {

// ── Specifications ───────────────────────────────────────────────────

/// Unicode `White_Space`, as `char::is_whitespace` documents it.
pub open spec fn is_ws(c: char) -> bool {
    c == '\t' || c == '\n' || c == '\u{0B}' || c == '\u{0C}' || c == '\r' || c == ' '
        || c == '\u{85}' || c == '\u{A0}' || c == '\u{1680}' || ('\u{2000}' <= c
        && c <= '\u{200A}') || c == '\u{2028}' || c == '\u{2029}' || c == '\u{202F}'
        || c == '\u{205F}' || c == '\u{3000}'
}

/// `s` with leading whitespace removed.
pub open spec fn trim_start(s: Seq<char>) -> Seq<char>
    decreases s.len(),
{
    if s.len() > 0 && is_ws(s[0]) {
        trim_start(s.drop_first())
    } else {
        s
    }
}

/// `s` with trailing whitespace removed.
pub open spec fn trim_end(s: Seq<char>) -> Seq<char>
    decreases s.len(),
{
    if s.len() > 0 && is_ws(s.last()) {
        trim_end(s.drop_last())
    } else {
        s
    }
}

/// `s` with whitespace removed at both ends (`str::trim`).
pub open spec fn trim(s: Seq<char>) -> Seq<char> {
    trim_end(trim_start(s))
}

/// `pat` occurs in `s` at position `i`.
pub open spec fn occurs_at(s: Seq<char>, pat: Seq<char>, i: int) -> bool {
    0 <= i && i + pat.len() <= s.len() && s.subrange(i, i + pat.len()) == pat
}

/// `s` starts with `pat`.
pub open spec fn starts_with(s: Seq<char>, pat: Seq<char>) -> bool {
    occurs_at(s, pat, 0)
}

/// `s` ends with `pat`.
pub open spec fn ends_with(s: Seq<char>, pat: Seq<char>) -> bool {
    pat.len() <= s.len() && occurs_at(s, pat, s.len() - pat.len())
}

/// `pat` occurs somewhere in `s`.
pub open spec fn contains(s: Seq<char>, pat: Seq<char>) -> bool {
    exists|i: int| occurs_at(s, pat, i)
}

/// The first position at which `pat` occurs in `s` (`str::find`).
pub open spec fn find(s: Seq<char>, pat: Seq<char>) -> Option<int> {
    if contains(s, pat) {
        Some(choose|i: int| occurs_at(s, pat, i) && forall|j: int| 0 <= j < i ==> !occurs_at(s, pat, j))
    } else {
        None
    }
}

/// The first position of character `c` in `s`.
pub open spec fn find_char(s: Seq<char>, c: char) -> Option<int> {
    find(s, seq![c])
}

/// A line without its `\n`, and without a `\r` just before that `\n`.
pub open spec fn strip_cr(l: Seq<char>) -> Seq<char> {
    if l.len() > 0 && l.last() == '\r' {
        l.drop_last()
    } else {
        l
    }
}

/// The lines of `s`, as `str::lines` yields them.
#[verifier::opaque]
pub open spec fn lines(s: Seq<char>) -> Seq<Seq<char>>
    decreases s.len(),
{
    if s.len() == 0 {
        seq![]
    } else {
        match find_char(s, '\n') {
            Some(k) => if 0 <= k < s.len() {
                seq![strip_cr(s.subrange(0, k))] + lines(s.subrange(k + 1, s.len() as int))
            } else {
                seq![s]
            },
            None => seq![s],
        }
    }
}

/// `s` with every occurrence of `from` replaced by `to`.
pub open spec fn replace_char(s: Seq<char>, from: char, to: char) -> Seq<char> {
    s.map_values(|c: char| if c == from { to } else { c })
}

// ── Lemmas ───────────────────────────────────────────────────────────

/// The first occurrence found by `find` is an occurrence, and no earlier one exists.
pub proof fn lemma_find(s: Seq<char>, pat: Seq<char>)
    ensures
        find(s, pat) matches Some(i) ==> occurs_at(s, pat, i) && forall|j: int|
            0 <= j < i ==> !occurs_at(s, pat, j),
        find(s, pat) is None <==> forall|i: int| !occurs_at(s, pat, i),
{
    if contains(s, pat) {
        let w = choose|i: int| occurs_at(s, pat, i);
        lemma_least_occurrence(s, pat, w);
    }
}

proof fn lemma_least_occurrence(s: Seq<char>, pat: Seq<char>, w: int)
    requires
        occurs_at(s, pat, w),
    ensures
        exists|i: int| occurs_at(s, pat, i) && forall|j: int| 0 <= j < i ==> !occurs_at(s, pat, j),
    decreases w,
{
    if exists|j: int| 0 <= j < w && occurs_at(s, pat, j) {
        let j = choose|j: int| 0 <= j < w && occurs_at(s, pat, j);
        lemma_least_occurrence(s, pat, j);
    } else {
        assert(forall|j: int| 0 <= j < w ==> !occurs_at(s, pat, j));
    }
}

/// Whitespace trimming keeps a contiguous middle part of `s`.
pub proof fn lemma_trim_start_suffix(s: Seq<char>)
    ensures
        trim_start(s).len() <= s.len(),
        trim_start(s) == s.subrange(s.len() - trim_start(s).len(), s.len() as int),
        trim_start(s).len() > 0 ==> !is_ws(trim_start(s)[0]),
    decreases s.len(),
{
    if s.len() > 0 && is_ws(s[0]) {
        lemma_trim_start_suffix(s.drop_first());
        assert(s.drop_first().subrange(
            s.drop_first().len() - trim_start(s).len(),
            s.drop_first().len() as int,
        ) =~= s.subrange(s.len() - trim_start(s).len(), s.len() as int));
    } else {
        assert(s.subrange(0, s.len() as int) =~= s);
    }
}

pub proof fn lemma_trim_end_prefix(s: Seq<char>)
    ensures
        trim_end(s).len() <= s.len(),
        trim_end(s) == s.subrange(0, trim_end(s).len() as int),
        trim_end(s).len() > 0 ==> !is_ws(trim_end(s).last()),
    decreases s.len(),
{
    if s.len() > 0 && is_ws(s.last()) {
        lemma_trim_end_prefix(s.drop_last());
        assert(s.drop_last().subrange(0, trim_end(s).len() as int) =~= s.subrange(
            0,
            trim_end(s).len() as int,
        ));
    } else {
        assert(s.subrange(0, s.len() as int) =~= s);
    }
}

// ── Executable operations ────────────────────────────────────────────

/// The characters of a string slice, in order.
pub fn str_chars(s: &str) -> (res: Vec<char>)
    ensures
        res@ == s@,
{
    let mut res: Vec<char> = Vec::new();
    for c in it: s.chars()
        invariant
            res@ == it.seq().take(it.index() as int),
            it.seq() == s@,
    {
        res.push(c);
    }
    res
}

/// Appends one character to a string (`String::push`).
#[verifier::external_body]
pub fn string_push(s: &mut String, c: char)
    ensures
        final(s)@ == old(s)@.push(c),
{
    s.push(c);
}

/// A string holding the characters `v[from..to]`.
pub fn string_from_range(v: &[char], from: usize, to: usize) -> (res: String)
    requires
        from <= to <= v@.len(),
    ensures
        res@ == v@.subrange(from as int, to as int),
{
    let mut res = String::new();
    let mut i = from;
    while i < to
        invariant
            from <= i <= to <= v@.len(),
            res@ == v@.subrange(from as int, i as int),
        decreases to - i,
    {
        string_push(&mut res, v[i]);
        assert(v@.subrange(from as int, i + 1) =~= v@.subrange(from as int, i as int).push(v@[i as int]));
        i += 1;
    }
    res
}

/// A string holding all the characters of `v`.
pub fn string_from_chars(v: &[char]) -> (res: String)
    ensures
        res@ == v@,
{
    let res = string_from_range(v, 0, v.len());
    assert(v@.subrange(0, v@.len() as int) =~= v@);
    res
}

/// Appends the characters `v[from..to]` to `s`.
pub fn push_range(s: &mut String, v: &[char], from: usize, to: usize)
    requires
        from <= to <= v@.len(),
    ensures
        final(s)@ == old(s)@ + v@.subrange(from as int, to as int),
{
    let mut i = from;
    while i < to
        invariant
            from <= i <= to <= v@.len(),
            s@ == old(s)@ + v@.subrange(from as int, i as int),
        decreases to - i,
    {
        string_push(s, v[i]);
        assert(v@.subrange(from as int, i + 1) =~= v@.subrange(from as int, i as int).push(v@[i as int]));
        i += 1;
    }
}

/// `char::is_whitespace`.
pub fn char_is_ws(c: char) -> (b: bool)
    ensures
        b == is_ws(c),
{
    c == '\t' || c == '\n' || c == '\u{0B}' || c == '\u{0C}' || c == '\r' || c == ' '
        || c == '\u{85}' || c == '\u{A0}' || c == '\u{1680}' || ('\u{2000}' <= c && c
        <= '\u{200A}') || c == '\u{2028}' || c == '\u{2029}' || c == '\u{202F}' || c
        == '\u{205F}' || c == '\u{3000}'
}

/// The bounds `(a, b)` of `v[from..to]` with whitespace trimmed at both ends.
pub fn trim_range(v: &[char], from: usize, to: usize) -> (res: (usize, usize))
    requires
        from <= to <= v@.len(),
    ensures
        from <= res.0 <= res.1 <= to,
        v@.subrange(res.0 as int, res.1 as int) == trim(v@.subrange(from as int, to as int)),
{
    let ghost s = v@.subrange(from as int, to as int);
    let mut a = from;
    while a < to && char_is_ws(v[a])
        invariant
            from <= a <= to <= v@.len(),
            trim_start(s) == trim_start(v@.subrange(a as int, to as int)),
        decreases to - a,
    {
        assert(v@.subrange(a as int, to as int).drop_first() =~= v@.subrange(a + 1, to as int));
        a += 1;
    }
    assert(trim_start(s) == v@.subrange(a as int, to as int));
    let mut b = to;
    while b > a && char_is_ws(v[b - 1])
        invariant
            from <= a <= b <= to <= v@.len(),
            trim(s) == trim_end(v@.subrange(a as int, b as int)),
        decreases b - a,
    {
        assert(v@.subrange(a as int, b as int).drop_last() =~= v@.subrange(a as int, b - 1));
        b -= 1;
    }
    (a, b)
}

/// Whether `pat` occurs in `v` at position `i`.
pub fn occurs_at_exec(v: &[char], pat: &[char], i: usize) -> (b: bool)
    ensures
        b == occurs_at(v@, pat@, i as int),
{
    if i > v.len() || pat.len() > v.len() - i {
        return false;
    }
    let mut k: usize = 0;
    while k < pat.len()
        invariant
            i + pat@.len() <= v@.len(),
            v@.len() == v.len(),
            k <= pat@.len(),
            forall|j: int| 0 <= j < k ==> v@[i + j] == pat@[j],
        decreases pat.len() - k,
    {
        if v[i + k] != pat[k] {
            assert(v@.subrange(i as int, i + pat@.len())[k as int] != pat@[k as int]);
            return false;
        }
        k += 1;
    }
    assert(v@.subrange(i as int, i + pat@.len()) =~= pat@);
    true
}

/// The first position at or after `start` where `pat` occurs in `v`, before `end`.
pub fn find_from(v: &[char], pat: &[char], start: usize) -> (res: Option<usize>)
    ensures
        match res {
            Some(i) => start <= i && occurs_at(v@, pat@, i as int) && forall|j: int|
                start <= j < i ==> !occurs_at(v@, pat@, j),
            None => forall|j: int| start <= j ==> !occurs_at(v@, pat@, j),
        },
{
    if start > v.len() {
        return None;
    }
    let mut i = start;
    loop
        invariant
            start <= i <= v.len(),
            forall|j: int| start <= j < i ==> !occurs_at(v@, pat@, j),
        decreases v.len() - i,
    {
        if occurs_at_exec(v, pat, i) {
            return Some(i);
        }
        if i == v.len() {
            return None;
        }
        i += 1;
    }
}

/// `str::find` on a character sequence.
pub fn find_exec(v: &[char], pat: &[char]) -> (res: Option<usize>)
    ensures
        match res {
            Some(i) => find(v@, pat@) == Some(i as int),
            None => find(v@, pat@) is None,
        },
{
    proof {
        lemma_find(v@, pat@);
    }
    let r = find_from(v, pat, 0);
    match r {
        Some(i) => {
            proof {
                if find(v@, pat@) != Some(i as int) {
                    let k = find(v@, pat@)->0;
                    assert(k < i || i < k);
                }
            }
        },
        None => {},
    }
    r
}

/// Whether `v` starts with `pat`.
pub fn starts_with_exec(v: &[char], pat: &[char]) -> (b: bool)
    ensures
        b == starts_with(v@, pat@),
{
    occurs_at_exec(v, pat, 0)
}

/// Whether `v` ends with `pat`.
pub fn ends_with_exec(v: &[char], pat: &[char]) -> (b: bool)
    ensures
        b == ends_with(v@, pat@),
{
    if pat.len() > v.len() {
        false
    } else {
        occurs_at_exec(v, pat, v.len() - pat.len())
    }
}

/// Whether `pat` occurs anywhere in `v`.
pub fn contains_exec(v: &[char], pat: &[char]) -> (b: bool)
    ensures
        b == contains(v@, pat@),
{
    match find_from(v, pat, 0) {
        Some(i) => true,
        None => false,
    }
}

} // verus!

verus! {

// ── Number formatting ────────────────────────────────────────────────

/// The lower-case hexadecimal digit for `n < 16`.
pub open spec fn hex_char(n: nat) -> char {
    if n < 10 {
        (('0' as nat) + n) as char
    } else {
        (('a' as nat) + n - 10) as char
    }
}

/// Hexadecimal digits of `v`, without leading zeros (`"0"` for zero).
pub open spec fn hex_digits(v: nat) -> Seq<char>
    decreases v,
{
    if v < 16 {
        seq![hex_char(v)]
    } else {
        hex_digits(v / 16) + seq![hex_char(v % 16)]
    }
}

/// Decimal digits of `v`, without leading zeros (`"0"` for zero).
pub open spec fn dec_digits(v: nat) -> Seq<char>
    decreases v,
{
    if v < 10 {
        seq![(('0' as nat) + v) as char]
    } else {
        dec_digits(v / 10) + seq![(('0' as nat) + v % 10) as char]
    }
}

/// `s` padded on the left with `'0'` up to `width` characters.
pub open spec fn zero_pad(s: Seq<char>, width: nat) -> Seq<char> {
    if s.len() >= width {
        s
    } else {
        Seq::new((width - s.len()) as nat, |i: int| '0') + s
    }
}

/// `{:#x}`: `0x` followed by the hexadecimal digits of `v`.
pub fn format_hex_prefixed(v: u64) -> (res: String)
    ensures
        res@ == "0x"@ + hex_digits(v as nat),
{
    let digits = hex_digit_vec(v);
    let mut res = String::from_str("0x");
    push_range(&mut res, digits.as_slice(), 0, digits.len());
    proof {
        reveal_strlit("0x");
        assert(digits@.subrange(0, digits@.len() as int) =~= digits@);
    }
    res
}

fn hex_digit_vec(v: u64) -> (res: Vec<char>)
    ensures
        res@ == hex_digits(v as nat),
    decreases v,
{
    let d = (v % 16) as u8;
    let c = if d < 10 { (48u8 + d) as char } else { (97u8 + d - 10) as char };
    if v < 16 {
        let mut r = Vec::new();
        r.push(c);
        r
    } else {
        let mut r = hex_digit_vec(v / 16);
        r.push(c);
        r
    }
}

fn dec_digit_vec(v: u64) -> (res: Vec<char>)
    ensures
        res@ == dec_digits(v as nat),
    decreases v,
{
    let d = (v % 10) as u8;
    let c = (48u8 + d) as char;
    if v < 10 {
        let mut r = Vec::new();
        r.push(c);
        r
    } else {
        let mut r = dec_digit_vec(v / 10);
        r.push(c);
        r
    }
}

/// Appends the decimal digits of `v`, left-padded with zeros to `width` (`{:0width$}`).
pub fn push_decimal(s: &mut String, v: u64, width: usize)
    ensures
        final(s)@ == old(s)@ + zero_pad(dec_digits(v as nat), width as nat),
{
    let digits = dec_digit_vec(v);
    let mut k = digits.len();
    let ghost pad_start = s@;
    while k < width
        invariant
            digits@.len() <= k <= width || (width <= digits@.len() && k == digits@.len()),
            s@ == pad_start + Seq::new((k - digits@.len()) as nat, |i: int| '0'),
        decreases width - k,
    {
        string_push(s, '0');
        assert(Seq::new((k + 1 - digits@.len()) as nat, |i: int| '0') =~= Seq::new(
            (k - digits@.len()) as nat,
            |i: int| '0',
        ).push('0'));
        k += 1;
    }
    push_range(s, digits.as_slice(), 0, digits.len());
    proof {
        assert(digits@.subrange(0, digits@.len() as int) =~= digits@);
        if digits@.len() >= width {
            assert(Seq::new((k - digits@.len()) as nat, |i: int| '0') =~= Seq::<char>::empty());
        }
        assert(s@ =~= old(s)@ + zero_pad(dec_digits(v as nat), width as nat));
    }
}

/// The decimal representation of `v` (`v.to_string()` for integers).
pub fn decimal_string(v: u64) -> (res: String)
    ensures
        res@ == dec_digits(v as nat),
{
    let mut s = String::new();
    push_decimal(&mut s, v, 0);
    s
}

} // verus!

verus! {

// ── Single characters ────────────────────────────────────────────────

/// `s` up to (not including) its first `c`, or all of `s` (`s.split(c).next()`).
pub open spec fn before_char(s: Seq<char>, c: char) -> Seq<char> {
    match find_char(s, c) {
        Some(k) => s.subrange(0, k),
        None => s,
    }
}

/// The text before the first `c` holds no `c`, and is a prefix of `s`.
pub proof fn lemma_before_char_free(s: Seq<char>, c: char)
    ensures
        forall|i: int| 0 <= i < before_char(s, c).len() ==> #[trigger] before_char(s, c)[i] != c,
        before_char(s, c).len() <= s.len(),
        forall|i: int| 0 <= i < before_char(s, c).len() ==> #[trigger] before_char(s, c)[i] == s[i],
{
    lemma_find(s, seq![c]);
    assert forall|i: int| 0 <= i < before_char(s, c).len() implies #[trigger] before_char(s, c)[i] != c by {
        lemma_occurs_single(s, c, i);
    }
}

/// A single-character pattern occurs exactly where that character stands.
pub proof fn lemma_occurs_single(s: Seq<char>, c: char, i: int)
    ensures
        occurs_at(s, seq![c], i) <==> (0 <= i < s.len() && s[i] == c),
{
    if 0 <= i < s.len() {
        if s[i] == c {
            assert(s.subrange(i, i + 1) =~= seq![c]);
        } else {
            assert(s.subrange(i, i + 1)[0] != seq![c][0]);
        }
    }
}

/// The first `c` in `s` stands at `k`, or (`k == s.len()`) there is none.
pub proof fn lemma_find_char_at(s: Seq<char>, c: char, k: int)
    requires
        0 <= k <= s.len(),
        forall|j: int| 0 <= j < k ==> s[j] != c,
        k == s.len() || s[k] == c,
    ensures
        k < s.len() ==> find_char(s, c) == Some(k),
        k == s.len() ==> find_char(s, c) is None,
        before_char(s, c) == s.subrange(0, k),
{
    let pat = seq![c];
    lemma_find(s, pat);
    if k < s.len() {
        lemma_occurs_single(s, c, k);
        assert(contains(s, pat));
        let f = find(s, pat)->0;
        lemma_occurs_single(s, c, f);
        if f < k {
            assert(s[f] != c);
        }
        if k < f {
            assert(!occurs_at(s, pat, k));
        }
        assert(f == k);
    } else {
        assert forall|i: int| !occurs_at(s, pat, i) by {
            lemma_occurs_single(s, c, i);
        }
        assert(s.subrange(0, k) =~= s);
    }
}

/// The first position in `[from, to)` holding `c`, or `to` when there is none.
pub fn find_char_in(v: &[char], c: char, from: usize, to: usize) -> (k: usize)
    requires
        from <= to <= v@.len(),
    ensures
        from <= k <= to,
        forall|j: int| from <= j < k ==> v@[j] != c,
        k < to ==> v@[k as int] == c,
        before_char(v@.subrange(from as int, to as int), c) == v@.subrange(from as int, k as int),
{
    let mut k = from;
    while k < to && v[k] != c
        invariant
            from <= k <= to <= v@.len(),
            forall|j: int| from <= j < k ==> v@[j] != c,
        decreases to - k,
    {
        k += 1;
    }
    proof {
        let s = v@.subrange(from as int, to as int);
        lemma_find_char_at(s, c, k - from);
        assert(s.subrange(0, k - from) =~= v@.subrange(from as int, k as int));
    }
    k
}

// ── UTF-8 length ─────────────────────────────────────────────────────

/// Bytes taken by `c` in UTF-8 (`char::len_utf8`).
pub open spec fn char_utf8_len(c: char) -> nat {
    if (c as u32) < 0x80 {
        1
    } else if (c as u32) < 0x800 {
        2
    } else if (c as u32) < 0x10000 {
        3
    } else {
        4
    }
}

/// Bytes taken by `s` in UTF-8 (`str::len`).
pub open spec fn utf8_len(s: Seq<char>) -> nat
    decreases s.len(),
{
    if s.len() == 0 {
        0
    } else {
        utf8_len(s.drop_last()) + char_utf8_len(s.last())
    }
}

/// `char::len_utf8`.
pub fn char_len_utf8(c: char) -> (n: usize)
    ensures
        n == char_utf8_len(c),
{
    let u = c as u32;
    if u < 0x80 {
        1
    } else if u < 0x800 {
        2
    } else if u < 0x10000 {
        3
    } else {
        4
    }
}

/// Whether `v[from..to]` takes more than `limit` bytes in UTF-8.
pub fn utf8_len_exceeds(v: &[char], from: usize, to: usize, limit: usize) -> (b: bool)
    requires
        from <= to <= v@.len(),
        limit < usize::MAX - 4,
    ensures
        b == (utf8_len(v@.subrange(from as int, to as int)) > limit),
{
    let mut total: usize = 0;
    let mut i = from;
    while i < to
        invariant
            from <= i <= to <= v@.len(),
            limit < usize::MAX - 4,
            total == utf8_len(v@.subrange(from as int, i as int)),
            total <= limit,
        decreases to - i,
    {
        assert(v@.subrange(from as int, i + 1).drop_last() =~= v@.subrange(from as int, i as int));
        total = total + char_len_utf8(v[i]);
        i += 1;
        if total > limit {
            proof {
                lemma_utf8_len_prefix_mono(v@.subrange(from as int, to as int), i - from);
                assert(v@.subrange(from as int, to as int).subrange(0, i - from) =~= v@.subrange(
                    from as int,
                    i as int,
                ));
            }
            return true;
        }
    }
    false
}

/// A prefix takes no more UTF-8 bytes than the whole.
pub proof fn lemma_utf8_len_prefix_mono(s: Seq<char>, k: int)
    requires
        0 <= k <= s.len(),
    ensures
        utf8_len(s.subrange(0, k)) <= utf8_len(s),
    decreases s.len(),
{
    if k < s.len() {
        lemma_utf8_len_prefix_mono(s.drop_last(), k);
        assert(s.drop_last().subrange(0, k) =~= s.subrange(0, k));
    } else {
        assert(s.subrange(0, k) =~= s);
    }
}


// ── Lines ────────────────────────────────────────────────────────────

/// The pieces of `v` named by `ranges`, in order.
pub open spec fn pieces(v: Seq<char>, ranges: Seq<(usize, usize)>) -> Seq<Seq<char>> {
    ranges.map_values(|r: (usize, usize)| v.subrange(r.0 as int, r.1 as int))
}

/// A line ending at the first newline of `t`.
pub proof fn lemma_lines_cons(t: Seq<char>, k: int)
    requires
        0 <= k < t.len(),
        t[k] == '\n',
        forall|j: int| 0 <= j < k ==> t[j] != '\n',
    ensures
        lines(t) == seq![strip_cr(t.subrange(0, k))] + lines(t.subrange(k + 1, t.len() as int)),
{
    reveal(lines);
    lemma_find_char_at(t, '\n', k);
}

/// Empty text has no lines.
pub proof fn lemma_lines_empty(t: Seq<char>)
    requires
        t.len() == 0,
    ensures
        lines(t) == Seq::<Seq<char>>::empty(),
{
    reveal(lines);
}

/// Text without a newline is one line.
pub proof fn lemma_lines_last(t: Seq<char>)
    requires
        t.len() > 0,
        forall|j: int| 0 <= j < t.len() ==> t[j] != '\n',
    ensures
        lines(t) == seq![t],
{
    reveal(lines);
    lemma_find_char_at(t, '\n', t.len() as int);
}

/// One step of `line_ranges`: the line that ends at the newline at `k`.
proof fn lemma_line_step(
    v: Seq<char>,
    before: Seq<(usize, usize)>,
    after: Seq<(usize, usize)>,
    pos: usize,
    k: usize,
    end: usize,
)
    requires
        pos <= k < v.len(),
        v[k as int] == '\n',
        forall|j: int| pos <= j < k ==> v[j] != '\n',
        end == (if k > pos && v[k - 1] == '\r' { k - 1 } else { k as int }),
        after == before.push((pos, end)),
    ensures
        pieces(v, after) + lines(v.subrange(k + 1, v.len() as int)) == pieces(v, before) + lines(
            v.subrange(pos as int, v.len() as int),
        ),
{
    let (p, q, e) = (pos as int, k as int, end as int);
    let t = v.subrange(p, v.len() as int);
    assert(lines(t) == seq![v.subrange(p, e)] + lines(v.subrange(q + 1, v.len() as int))) by {
        lemma_lines_cons(t, q - p);
        assert(t.subrange(0, q - p) =~= v.subrange(p, q));
        assert(strip_cr(t.subrange(0, q - p)) =~= v.subrange(p, e));
        assert(t.subrange(q - p + 1, t.len() as int) =~= v.subrange(q + 1, v.len() as int));
    }
    assert(pieces(v, after) =~= pieces(v, before).push(v.subrange(p, e)));
    assert(pieces(v, after) + lines(v.subrange(q + 1, v.len() as int)) =~= pieces(v, before)
        + lines(t));
}

/// The last step of `line_ranges`: the rest of the text has no newline.
proof fn lemma_last_line_step(
    v: Seq<char>,
    before: Seq<(usize, usize)>,
    after: Seq<(usize, usize)>,
    pos: usize,
    len: usize,
)
    requires
        pos < v.len(),
        len == v.len(),
        forall|j: int| pos <= j < v.len() ==> v[j] != '\n',
        after == before.push((pos, len)),
    ensures
        pieces(v, after) + lines(v.subrange(v.len() as int, v.len() as int)) == pieces(v, before)
            + lines(v.subrange(pos as int, v.len() as int)),
{
    let t = v.subrange(pos as int, v.len() as int);
    assert(lines(t) == seq![t]) by {
        lemma_lines_last(t);
    }
    assert(pieces(v, after) =~= pieces(v, before).push(t));
    lemma_lines_empty(v.subrange(v.len() as int, v.len() as int));
    assert(pieces(v, after) + lines(v.subrange(v.len() as int, v.len() as int)) =~= pieces(
        v,
        before,
    ) + lines(t));
}

/// The bounds of each line of `v`, as `str::lines` splits it.
#[verifier::rlimit(50)]
pub fn line_ranges(v: &[char]) -> (res: Vec<(usize, usize)>)
    ensures
        pieces(v@, res@) == lines(v@),
        forall|i: int|
            0 <= i < res@.len() ==> (#[trigger] res@[i]).0 <= res@[i].1 <= v@.len(),
        forall|i: int| 0 < i < res@.len() ==> res@[i - 1].1 <= (#[trigger] res@[i]).0,
        res@.len() <= v@.len(),
{
    let len = v.len();
    let mut res: Vec<(usize, usize)> = Vec::new();
    let mut pos: usize = 0;
    assert(v@.subrange(0, len as int) =~= v@);
    while pos < len
        invariant
            len == v@.len(),
            pos <= len,
            pieces(v@, res@) + lines(v@.subrange(pos as int, len as int)) == lines(v@),
            forall|i: int|
                0 <= i < res@.len() ==> (#[trigger] res@[i]).0 <= res@[i].1 <= v@.len(),
            forall|i: int| 0 < i < res@.len() ==> res@[i - 1].1 <= (#[trigger] res@[i]).0,
            forall|i: int| 0 <= i < res@.len() ==> (#[trigger] res@[i]).1 <= pos,
            res@.len() <= pos,
        decreases len - pos,
    {
        let k = find_char_in(v, '\n', pos, len);
        let ghost t = v@.subrange(pos as int, len as int);
        let ghost before = res@;
        if k < len {
            let end = if k > pos && v[k - 1] == '\r' {
                k - 1
            } else {
                k
            };
            res.push((pos, end));
            proof {
                lemma_line_step(v@, before, res@, pos, k, end);
            }
            pos = k + 1;
        } else {
            res.push((pos, len));
            proof {
                lemma_last_line_step(v@, before, res@, pos, len);
            }
            pos = len;
        }
    }
    proof {
        lemma_lines_empty(v@.subrange(pos as int, len as int));
        assert(pieces(v@, res@) + Seq::<Seq<char>>::empty() =~= pieces(v@, res@));
    }
    res
}


// ── Case ─────────────────────────────────────────────────────────────

/// What `str::to_lowercase` makes of `s` (Unicode lower-casing).
pub uninterp spec fn lowercase(s: Seq<char>) -> Seq<char>;

/// `str::to_lowercase`: the named Unicode lower-casing of `s`.
#[verifier::external_body]
pub fn to_lowercase(s: &str) -> (r: String)
    ensures
        r@ == lowercase(s@),
{
    s.to_lowercase()
}

/// `s` with each character for which `pick` holds replaced by `to`.
pub open spec fn replace_where(s: Seq<char>, pick: spec_fn(char) -> bool, to: char) -> Seq<char> {
    s.map_values(|c: char| if pick(c) { to } else { c })
}

/// `s` with spaces replaced by `_`.
pub open spec fn underscored(s: Seq<char>) -> Seq<char> {
    replace_where(s, |c: char| c == ' ', '_')
}

/// `s.replace(' ', "_")`.
pub fn underscore_spaces(s: &str) -> (r: String)
    ensures
        r@ == underscored(s@),
{
    let v = str_chars(s);
    let mut out = String::new();
    let mut i: usize = 0;
    while i < v.len()
        invariant
            i <= v@.len(),
            out@ == underscored(v@.take(i as int)),
        decreases v.len() - i,
    {
        let c = v[i];
        string_push(&mut out, if c == ' ' { '_' } else { c });
        assert(underscored(v@.take(i + 1)) =~= underscored(v@.take(i as int)).push(
            if c == ' ' { '_' } else { c },
        ));
        i += 1;
    }
    assert(v@.take(v@.len() as int) =~= v@);
    out
}


// ── Words ────────────────────────────────────────────────────────────

/// The first whitespace position of `t` at or after `i`, or `t.len()`.
pub open spec fn run_end(t: Seq<char>, i: int) -> int
    decreases t.len() - i,
{
    if i < 0 || i >= t.len() || is_ws(t[i]) {
        i
    } else {
        run_end(t, i + 1)
    }
}

/// The end of a run of non-whitespace lies inside the text.
pub proof fn lemma_run_end_bounds(t: Seq<char>, i: int)
    requires
        0 <= i <= t.len(),
    ensures
        i <= run_end(t, i) <= t.len(),
    decreases t.len() - i,
{
    if i < t.len() && !is_ws(t[i]) {
        lemma_run_end_bounds(t, i + 1);
    }
}

/// The whitespace-separated words of `s` (`str::split_whitespace`).
#[verifier::opaque]
pub open spec fn words(s: Seq<char>) -> Seq<Seq<char>>
    decreases s.len(),
{
    let t = trim_start(s);
    proof {
        lemma_trim_start_suffix(s);
    }
    if t.len() == 0 {
        seq![]
    } else {
        let k = run_end(t, 1);
        proof {
            lemma_run_end_bounds(t, 1);
        }
        seq![t.subrange(0, k)] + words(t.subrange(k, t.len() as int))
    }
}

proof fn lemma_trim_start_skip(v: Seq<char>, i: int, i2: int)
    requires
        0 <= i <= i2 <= v.len(),
        forall|m: int| i <= m < i2 ==> is_ws(v[m]),
        i2 == v.len() || !is_ws(v[i2]),
    ensures
        trim_start(v.subrange(i, v.len() as int)) == v.subrange(i2, v.len() as int),
    decreases i2 - i,
{
    if i < i2 {
        assert(v.subrange(i, v.len() as int).drop_first() =~= v.subrange(i + 1, v.len() as int));
        lemma_trim_start_skip(v, i + 1, i2);
    }
}

proof fn lemma_run_end_at(t: Seq<char>, i: int, j: int)
    requires
        0 <= i <= j <= t.len(),
        forall|m: int| i <= m < j ==> !is_ws(t[m]),
        j == t.len() || is_ws(t[j]),
    ensures
        run_end(t, i) == j,
    decreases j - i,
{
    if i < j {
        lemma_run_end_at(t, i + 1, j);
    }
}

/// Unfolds `words` on text whose leading whitespace ends at `i2` and whose
/// first word ends at `j`.
proof fn lemma_words_step(v: Seq<char>, i: int, i2: int, j: int)
    requires
        0 <= i <= i2 <= v.len(),
        forall|m: int| i <= m < i2 ==> is_ws(v[m]),
        i2 == v.len() || !is_ws(v[i2]),
        i2 < v.len() ==> i2 < j <= v.len(),
        i2 < v.len() ==> forall|m: int| i2 <= m < j ==> !is_ws(v[m]),
        i2 < v.len() ==> j == v.len() || is_ws(v[j]),
    ensures
        i2 == v.len() ==> words(v.subrange(i, v.len() as int)) == Seq::<Seq<char>>::empty(),
        i2 < v.len() ==> words(v.subrange(i, v.len() as int)) == seq![v.subrange(i2, j)] + words(
            v.subrange(j, v.len() as int),
        ),
{
    reveal(words);
    let s = v.subrange(i, v.len() as int);
    lemma_trim_start_skip(v, i, i2);
    let t = trim_start(s);
    assert(t == v.subrange(i2, v.len() as int));
    if i2 < v.len() {
        lemma_run_end_at(t, 1, j - i2);
        assert(t.subrange(0, j - i2) =~= v.subrange(i2, j));
        assert(t.subrange(j - i2, t.len() as int) =~= v.subrange(j, v.len() as int));
    }
}

/// The bounds of each whitespace-separated word of `v`.
#[verifier::rlimit(40)]
pub fn word_ranges(v: &[char]) -> (res: Vec<(usize, usize)>)
    ensures
        pieces(v@, res@) == words(v@),
        forall|i: int|
            0 <= i < res@.len() ==> (#[trigger] res@[i]).0 <= res@[i].1 <= v@.len(),
{
    let len = v.len();
    let mut res: Vec<(usize, usize)> = Vec::new();
    let mut i: usize = 0;
    assert(v@.subrange(0, len as int) =~= v@);
    loop
        invariant
            len == v@.len(),
            i <= len,
            pieces(v@, res@) + words(v@.subrange(i as int, len as int)) == words(v@),
            forall|k: int| 0 <= k < res@.len() ==> (#[trigger] res@[k]).0 <= res@[k].1 <= v@.len(),
        decreases len - i,
    {
        let mut i2 = i;
        while i2 < len && char_is_ws(v[i2])
            invariant
                len == v@.len(),
                i <= i2 <= len,
                forall|m: int| i <= m < i2 ==> is_ws(v@[m]),
            decreases len - i2,
        {
            i2 += 1;
        }
        if i2 == len {
            proof {
                lemma_words_step(v@, i as int, i2 as int, i2 as int);
                assert(pieces(v@, res@) + Seq::<Seq<char>>::empty() =~= pieces(v@, res@));
            }
            return res;
        }
        let mut j = i2 + 1;
        while j < len && !char_is_ws(v[j])
            invariant
                len == v@.len(),
                i2 < j <= len,
                !is_ws(v@[i2 as int]),
                forall|m: int| i2 <= m < j ==> !is_ws(v@[m]),
            decreases len - j,
        {
            j += 1;
        }
        let ghost before = res@;
        res.push((i2, j));
        proof {
            lemma_words_step(v@, i as int, i2 as int, j as int);
            assert(pieces(v@, res@) =~= pieces(v@, before).push(v@.subrange(i2 as int, j as int)));
            assert(pieces(v@, res@) + words(v@.subrange(j as int, len as int)) =~= pieces(
                v@,
                before,
            ) + words(v@.subrange(i as int, len as int)));
        }
        i = j;
    }
}

/// Words joined with single spaces (`[..].join(" ")`).
pub open spec fn join_words(ws: Seq<Seq<char>>) -> Seq<char>
    decreases ws.len(),
{
    if ws.len() == 0 {
        seq![]
    } else if ws.len() == 1 {
        ws[0]
    } else {
        join_words(ws.drop_last()) + seq![' '] + ws.last()
    }
}

} // verus!
