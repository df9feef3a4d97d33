//! The email text model: lines, header folding, the header/body boundary, and
//! the lookup of the `From` and `To` fields.

use vstd::prelude::*;
use vstd::utf8::{decode_utf8, valid_utf8};

verus! {

/// A character that starts a folded continuation line.
pub open spec fn is_fold_char(c: char) -> bool {
    c == ' ' || c == '\t'
}

/// A character removed from both ends of header names and values.
pub open spec fn is_trim_char(c: char) -> bool {
    c == ' ' || c == '\t' || c == '\r'
}

/// The first position at or after `i` that holds `c`, or the text length.
pub open spec fn index_from(t: Seq<char>, c: char, i: int) -> int
    decreases t.len() - i,
{
    if i >= t.len() {
        t.len() as int
    } else if t[i] == c {
        i
    } else {
        index_from(t, c, i + 1)
    }
}

/// `index_from` gives the first position at or after `i` that holds `c`.
pub proof fn lemma_index_from(t: Seq<char>, c: char, i: int)
    requires
        0 <= i <= t.len(),
    ensures
        i <= index_from(t, c, i) <= t.len(),
        index_from(t, c, i) < t.len() ==> t[index_from(t, c, i)] == c,
        forall|j: int| i <= j < index_from(t, c, i) ==> t[j] != c,
    decreases t.len() - i,
{
    if i < t.len() && t[i] != c {
        lemma_index_from(t, c, i + 1);
    }
}

/// `s` without the trim characters at its start.
pub open spec fn trim_start(s: Seq<char>) -> Seq<char>
    decreases s.len(),
{
    if s.len() > 0 && is_trim_char(s[0]) {
        trim_start(s.drop_first())
    } else {
        s
    }
}

/// `s` without the trim characters at its end.
pub open spec fn trim_end(s: Seq<char>) -> Seq<char>
    decreases s.len(),
{
    if s.len() > 0 && is_trim_char(s.last()) {
        trim_end(s.drop_last())
    } else {
        s
    }
}

/// `s` without the trim characters at either end.
pub open spec fn trim(s: Seq<char>) -> Seq<char> {
    trim_end(trim_start(s))
}

/// The bounds `(lo, hi)` of `v[a..b]` with the trim characters at both ends
/// removed.
fn trim_range(v: &Vec<char>, a: usize, b: usize) -> (r: (usize, usize))
    requires
        a <= b <= v@.len(),
    ensures
        a <= r.0 <= r.1 <= b,
        v@.subrange(r.0 as int, r.1 as int) == trim(v@.subrange(a as int, b as int)),
{
    let mut lo: usize = a;
    while lo < b && (v[lo] == ' ' || v[lo] == '\t' || v[lo] == '\r')
        invariant
            a <= lo <= b <= v@.len(),
            trim_start(v@.subrange(a as int, b as int)) == trim_start(v@.subrange(lo as int, b as int)),
        decreases b - lo,
    {
        assert(v@.subrange(lo as int, b as int).drop_first() =~= v@.subrange(lo + 1, b as int));
        lo = lo + 1;
    }
    let mut hi: usize = b;
    while hi > lo && (v[hi - 1] == ' ' || v[hi - 1] == '\t' || v[hi - 1] == '\r')
        invariant
            a <= lo <= hi <= b <= v@.len(),
            trim_start(v@.subrange(a as int, b as int)) == trim_start(v@.subrange(lo as int, b as int)),
            trim(v@.subrange(a as int, b as int)) == trim_end(v@.subrange(lo as int, hi as int)),
        decreases hi - lo,
    {
        assert(v@.subrange(lo as int, hi as int).drop_last() =~= v@.subrange(lo as int, hi - 1));
        hi = hi - 1;
    }
    (lo, hi)
}


/// A position `k` with `c` at it, or at the end, and no `c` between `i` and
/// `k`, is the one that `index_from` gives.
pub proof fn lemma_index_from_unique(t: Seq<char>, c: char, i: int, k: int)
    requires
        0 <= i <= k <= t.len(),
        k < t.len() ==> t[k] == c,
        forall|j: int| i <= j < k ==> t[j] != c,
    ensures
        index_from(t, c, i) == k,
{
    lemma_index_from(t, c, i);
    let m = index_from(t, c, i);
    if m < k {
        assert(t[m] != c);
    } else if k < m {
        assert(t[k] != c);
    }
}

/// The first position in `v[i..e]` that holds `c`, or `e` where none does.
fn find_from(v: &Vec<char>, c: char, i: usize, e: usize) -> (k: usize)
    requires
        i <= e <= v@.len(),
    ensures
        i <= k <= e,
        k < e ==> v@[k as int] == c,
        forall|j: int| i <= j < k ==> v@[j] != c,
{
    let mut k: usize = i;
    while k < e && v[k] != c
        invariant
            i <= k <= e <= v@.len(),
            forall|j: int| i <= j < k ==> v@[j] != c,
        decreases e - k,
    {
        k = k + 1;
    }
    k
}

/// Relies on `FromIterator<&char>` for `String`: the string holds the
/// characters of `v[lo..hi]` in order.
#[verifier::external_body]
fn string_of(v: &Vec<char>, lo: usize, hi: usize) -> (r: String)
    requires
        lo <= hi <= v@.len(),
    ensures
        r@ == v@.subrange(lo as int, hi as int),
{
    v[lo..hi].iter().collect()
}

/// Relies on `str::chars` collected into a `Vec`: the characters of `s` in
/// order.
#[verifier::external_body]
fn chars_of(s: &str) -> (r: Vec<char>)
    ensures
        r@ == s@,
{
    s.chars().collect()
}

/// A line that separates the header block from the body.
pub open spec fn is_blank(l: Seq<char>) -> bool {
    l.len() == 0 || (l.len() == 1 && l[0] == '\r')
}

/// A header value extended by a folded continuation `w`: joined with one
/// space, where both parts are non-empty.
pub open spec fn join_folded(v: Seq<char>, w: Seq<char>) -> Seq<char> {
    if w.len() == 0 {
        v
    } else if v.len() == 0 {
        w
    } else {
        v + seq![' '] + w
    }
}

/// A header field as a (name, value) pair.
pub type Field = (Seq<char>, Seq<char>);

/// One header line applied to the fields read so far; the flag says whether
/// the last field is still open to continuation lines.
pub open spec fn fold_step(st: (Seq<Field>, bool), l: Seq<char>) -> (Seq<Field>, bool) {
    if l.len() > 0 && is_fold_char(l[0]) {
        if st.1 {
            let last = st.0.last();
            (st.0.update(st.0.len() - 1, (last.0, join_folded(last.1, trim(l)))), true)
        } else {
            (st.0, false)
        }
    } else {
        let k = index_from(l, ':', 0);
        if k < l.len() {
            (st.0.push((trim(l.subrange(0, k)), trim(l.subrange(k + 1, l.len() as int)))), true)
        } else {
            (st.0, false)
        }
    }
}

/// The fields that a sequence of header lines holds, in order: a line that
/// starts with a space or tab continues the field before it, a line with a
/// colon starts a field, any other line is dropped together with its
/// continuations.
pub open spec fn scan_header_lines(ls: Seq<Seq<char>>) -> (Seq<Field>, bool)
    decreases ls.len(),
{
    if ls.len() == 0 {
        (seq![], false)
    } else {
        fold_step(scan_header_lines(ls.drop_last()), ls.last())
    }
}

#[via_fn]
proof fn lines_decreases(t: Seq<char>, i: nat) {
    if i < t.len() {
        lemma_index_from(t, '\n', i as int);
    }
}

/// The lines of `t` from position `i` up to the first blank line.
pub open spec fn header_lines(t: Seq<char>, i: nat) -> Seq<Seq<char>>
    decreases t.len() + 1 - i,
    via lines_decreases
{
    if i >= t.len() {
        seq![]
    } else {
        let e = index_from(t, '\n', i as int);
        let l = t.subrange(i as int, e);
        if is_blank(l) {
            seq![]
        } else {
            seq![l] + header_lines(t, (e + 1) as nat)
        }
    }
}

#[via_fn]
proof fn body_decreases(t: Seq<char>, i: nat) {
    if i < t.len() {
        lemma_index_from(t, '\n', i as int);
    }
}

/// The text after the first blank line at or after position `i`, if any.
pub open spec fn body_after(t: Seq<char>, i: nat) -> Option<Seq<char>>
    decreases t.len() + 1 - i,
    via body_decreases
{
    if i >= t.len() {
        None
    } else {
        let e = index_from(t, '\n', i as int);
        if is_blank(t.subrange(i as int, e)) {
            Some(t.subrange(if e < t.len() { e + 1 } else { e }, t.len() as int))
        } else {
            body_after(t, (e + 1) as nat)
        }
    }
}

/// Two characters equal up to ASCII case.
pub open spec fn same_letter(a: char, b: char) -> bool {
    ||| a == b
    ||| ('A' <= a <= 'Z' && a as u32 + 32 == b as u32)
    ||| ('A' <= b <= 'Z' && b as u32 + 32 == a as u32)
}

/// Two names equal up to ASCII case.
pub open spec fn same_name(n: Seq<char>, k: Seq<char>) -> bool {
    n.len() == k.len() && forall|i: int| 0 <= i < n.len() ==> same_letter(n[i], k[i])
}

/// The value of the first field named `key`, up to ASCII case.
pub open spec fn first_value(hs: Seq<Field>, key: Seq<char>) -> Option<Seq<char>>
    decreases hs.len(),
{
    if hs.len() == 0 {
        None
    } else if same_name(hs[0].0, key) {
        Some(hs[0].1)
    } else {
        first_value(hs.drop_first(), key)
    }
}

/// The name of the sender field.
pub open spec fn from_key() -> Seq<char> {
    seq!['F', 'r', 'o', 'm']
}

/// The name of the recipient field.
pub open spec fn to_key() -> Seq<char> {
    seq!['T', 'o']
}

/// What a message text holds.
pub struct Message {
    pub headers: Seq<Field>,
    pub body: Option<Seq<char>>,
    pub from: Option<Seq<char>>,
    pub to: Option<Seq<char>>,
}

/// The headers of a message text.
pub open spec fn headers_of(t: Seq<char>) -> Seq<Field> {
    scan_header_lines(header_lines(t, 0)).0
}

/// The structured reading of a message text.
pub open spec fn message_of(t: Seq<char>) -> Message {
    let hs = headers_of(t);
    Message {
        headers: hs,
        body: body_after(t, 0),
        from: first_value(hs, from_key()),
        to: first_value(hs, to_key()),
    }
}


/// One header field: its name and its unfolded value, both trimmed.
#[derive(Debug, PartialEq, Eq)]
pub struct HeaderField {
    pub name: String,
    pub value: String,
}

impl View for HeaderField {
    type V = Field;

    open spec fn view(&self) -> Field {
        (self.name@, self.value@)
    }
}

/// The fields of a header list.
pub open spec fn fields_of(hs: Seq<HeaderField>) -> Seq<Field> {
    hs.map_values(|h: HeaderField| h@)
}

/// The text of an optional string.
pub open spec fn text_of(o: Option<String>) -> Option<Seq<char>> {
    match o {
        Some(s) => Some(s@),
        None => None,
    }
}

/// A parsed message: its header fields in file order, the body after the
/// first blank line, and the values of the first `From` and `To` fields.
#[derive(Debug, PartialEq, Eq)]
pub struct ParsedMessage {
    pub headers: Vec<HeaderField>,
    pub body: Option<String>,
    pub from: Option<String>,
    pub to: Option<String>,
}

impl View for ParsedMessage {
    type V = Message;

    open spec fn view(&self) -> Message {
        Message {
            headers: fields_of(self.headers@),
            body: text_of(self.body),
            from: text_of(self.from),
            to: text_of(self.to),
        }
    }
}

/// The one way a parse fails.
#[derive(Clone, Copy, Debug, PartialEq, Eq)]
pub enum ParseError {
    /// The bytes are not UTF-8 text.
    InvalidEncoding,
}

/// `v[a..b]` as a vector of its own.
fn copy_range(v: &Vec<char>, a: usize, b: usize) -> (r: Vec<char>)
    requires
        a <= b <= v@.len(),
    ensures
        r@ == v@.subrange(a as int, b as int),
{
    let mut r: Vec<char> = Vec::new();
    let mut k: usize = a;
    while k < b
        invariant
            a <= k <= b <= v@.len(),
            r@ == v@.subrange(a as int, k as int),
        decreases b - k,
    {
        r.push(v[k]);
        k = k + 1;
        assert(r@ =~= v@.subrange(a as int, k as int));
    }
    r
}

/// Extends a header value by the continuation `v[a..b]`.
fn append_folded(value: &mut Vec<char>, v: &Vec<char>, a: usize, b: usize)
    requires
        a <= b <= v@.len(),
    ensures
        final(value)@ == join_folded(old(value)@, v@.subrange(a as int, b as int)),
{
    if a < b {
        let ghost before = value@;
        if value.len() > 0 {
            value.push(' ');
        }
        let ghost start = value@;
        let mut k: usize = a;
        while k < b
            invariant
                a <= k <= b <= v@.len(),
                value@ == start + v@.subrange(a as int, k as int),
            decreases b - k,
        {
            value.push(v[k]);
            k = k + 1;
            assert(value@ =~= start + v@.subrange(a as int, k as int));
        }
        proof {
            if before.len() > 0 {
                assert(value@ =~= before + seq![' '] + v@.subrange(a as int, b as int));
            } else {
                assert(value@ =~= v@.subrange(a as int, b as int));
            }
        }
    }
}

/// Whether two characters are equal up to ASCII case.
fn letters_match(a: char, b: char) -> (r: bool)
    ensures
        r == same_letter(a, b),
{
    let x = a as u32;
    let y = b as u32;
    x == y || ('A' <= a && a <= 'Z' && x + 32 == y) || ('A' <= b && b <= 'Z' && y + 32 == x)
}

/// Whether two names are equal up to ASCII case.
pub fn names_match(n: &str, k: &str) -> (r: bool)
    ensures
        r == same_name(n@, k@),
{
    let len = n.unicode_len();
    if len != k.unicode_len() {
        return false;
    }
    let mut i: usize = 0;
    while i < len
        invariant
            len == n@.len() == k@.len(),
            i <= len,
            forall|j: int| 0 <= j < i ==> same_letter(n@[j], k@[j]),
        decreases len - i,
    {
        if !letters_match(n.get_char(i), k.get_char(i)) {
            return false;
        }
        i = i + 1;
    }
    true
}

/// The value of the first field in `headers` whose name is `key` up to ASCII
/// case.
pub fn field_value(headers: &Vec<HeaderField>, key: &str) -> (r: Option<String>)
    ensures
        text_of(r) == first_value(fields_of(headers@), key@),
{
    let mut i: usize = 0;
    assert(fields_of(headers@).skip(0) =~= fields_of(headers@));
    while i < headers.len()
        invariant
            i <= headers@.len(),
            first_value(fields_of(headers@), key@) == first_value(
                fields_of(headers@).skip(i as int),
                key@,
            ),
        decreases headers@.len() - i,
    {
        let ghost rest = fields_of(headers@).skip(i as int);
        assert(rest.drop_first() =~= fields_of(headers@).skip(i + 1));
        if names_match(headers[i].name.as_str(), key) {
            return Some(headers[i].value.clone());
        }
        i = i + 1;
    }
    None
}

/// The scan state as the parser holds it: the closed fields, and the open
/// field where there is one.
pub open spec fn scan_state(closed: Seq<Field>, open: bool, name: Seq<char>, value: Seq<char>) -> (
    Seq<Field>,
    bool,
) {
    if open {
        (closed.push((name, value)), true)
    } else {
        (closed, false)
    }
}

/// Parses message text: the header fields up to the first blank line, with
/// folded lines joined and lines without a colon dropped; the text after that
/// line as the body; and the first `From` and `To` values.
pub fn parse_text(text: &str) -> (r: ParsedMessage)
    ensures
        r@ == message_of(text@),
{
    let cs = chars_of(text);
    let n = cs.len();
    let ghost t = text@;
    let mut headers: Vec<HeaderField> = Vec::new();
    let mut open = false;
    let mut name = String::new();
    let mut value: Vec<char> = Vec::new();
    let mut body: Option<String> = None;
    let mut in_body = false;
    let mut i: usize = 0;
    let ghost mut done: Seq<Seq<char>> = seq![];
    assert(done + header_lines(t, 0) =~= header_lines(t, 0));
    while i < n && !in_body
        invariant
            cs@ == t,
            n == t.len(),
            i <= n,
            scan_state(fields_of(headers@), open, name@, value@) == scan_header_lines(done),
            !in_body ==> done + header_lines(t, i as nat) == header_lines(t, 0),
            !in_body ==> body_after(t, i as nat) == body_after(t, 0),
            !in_body ==> body is None,
            in_body ==> done == header_lines(t, 0),
            in_body ==> text_of(body) == body_after(t, 0),
        decreases n - i,
    {
        let e = find_from(&cs, '\n', i, n);
        proof {
            lemma_index_from_unique(t, '\n', i as int, e as int);
        }
        let ghost l = t.subrange(i as int, e as int);
        if e == i || (e == i + 1 && cs[i] == '\r') {
            assert(is_blank(l));
            let start = if e < n {
                e + 1
            } else {
                e
            };
            body = Some(string_of(&cs, start, n));
            assert(header_lines(t, i as nat) == Seq::<Seq<char>>::empty());
            assert(done + header_lines(t, i as nat) =~= done);
            in_body = true;
            i = n;
        } else {
            assert(!is_blank(l));
            let ghost before = scan_header_lines(done);
            let ghost closed = fields_of(headers@);
            if cs[i] == ' ' || cs[i] == '\t' {
                if open {
                    let (a, b) = trim_range(&cs, i, e);
                    assert(cs@.subrange(i as int, e as int) == l);
                    append_folded(&mut value, &cs, a, b);
                    assert(closed.push((name@, value@)) =~= before.0.update(
                        before.0.len() - 1,
                        (before.0.last().0, join_folded(before.0.last().1, trim(l))),
                    ));
                }
            } else {
                let k = find_from(&cs, ':', i, e);
                proof {
                    lemma_index_from_unique(l, ':', 0, k - i);
                }
                if open {
                    let v = string_of(&value, 0, value.len());
                    assert(value@.subrange(0, value@.len() as int) =~= value@);
                    headers.push(HeaderField { name: name.clone(), value: v });
                    assert(fields_of(headers@) =~= closed.push((name@, value@)));
                }
                if k < e {
                    let (a, b) = trim_range(&cs, i, k);
                    name = string_of(&cs, a, b);
                    let (c, d) = trim_range(&cs, k + 1, e);
                    value = copy_range(&cs, c, d);
                    open = true;
                    assert(l.subrange(0, k - i) =~= t.subrange(i as int, k as int));
                    assert(l.subrange(k - i + 1, l.len() as int) =~= t.subrange(k + 1, e as int));
                } else {
                    open = false;
                }
            }
            proof {
                assert(done.push(l).drop_last() =~= done);
                done = done.push(l);
            }
            assert(header_lines(t, i as nat) == seq![l] + header_lines(t, (e + 1) as nat));
            assert(body_after(t, i as nat) == body_after(t, (e + 1) as nat));
            i = if e < n {
                e + 1
            } else {
                n
            };
            assert(done + header_lines(t, i as nat) =~= header_lines(t, 0));
        }
    }
    if !in_body {
        assert(done + header_lines(t, i as nat) =~= done);
    }
    if open {
        let v = string_of(&value, 0, value.len());
        assert(value@.subrange(0, value@.len() as int) =~= value@);
        let ghost closed = fields_of(headers@);
        headers.push(HeaderField { name: name.clone(), value: v });
        assert(fields_of(headers@) =~= closed.push((name@, value@)));
    }
    let from = field_value(&headers, "From");
    let to = field_value(&headers, "To");
    proof {
        reveal_strlit("From");
        reveal_strlit("To");
        assert("From"@ =~= from_key());
        assert("To"@ =~= to_key());
    }
    ParsedMessage { headers, body, from, to }
}


/// Relies on `std::str::from_utf8`: it succeeds exactly on valid UTF-8, and
/// the text it gives holds the decoded characters.
#[verifier::external_body]
pub(crate) fn decode_text(b: &[u8]) -> (r: Option<&str>)
    ensures
        r is Some <==> valid_utf8(b@),
        r is Some ==> r->0@ == decode_utf8(b@),
{
    std::str::from_utf8(b).ok()
}

/// Parses a raw message: fails only where the bytes are not UTF-8, and
/// otherwise reads the decoded text as `parse_text` does.
pub fn parse(raw: &[u8]) -> (r: Result<ParsedMessage, ParseError>)
    ensures
        r is Err <==> !valid_utf8(raw@),
        r is Err ==> r->Err_0 == ParseError::InvalidEncoding,
        r is Ok ==> r->Ok_0@ == message_of(decode_utf8(raw@)),
{
    match decode_text(raw) {
        Some(text) => Ok(parse_text(text)),
        None => Err(ParseError::InvalidEncoding),
    }
}

} // verus!
