//! One header line: its name, classified against the known names, and its
//! trimmed value.

use vstd::prelude::*;

use crate::error::ParseError;
use crate::text::{
    all_ws, chars_of, colon_index, eq_ignore_case, find_colon, is_ws, lemma_colon_after,
    lemma_colon_index, lemma_same_ignoring_case_trans, lemma_trim_leading_space,
    lemma_trim_ws_around, lemma_word_chars, same_ignoring_case, trim, trim_range,
};

verus! {

/// The name of a header: one of the known names, or the text as written.
#[derive(Debug, PartialEq)]
pub enum HttpHeaderName {
    Accept,
    AcceptCharset,
    AcceptEncoding,
    Host,
    Referer,
    UserAgent,
    Custom(String),
}

/// What a `HttpHeaderName` stands for.
pub enum HeaderNameView {
    Accept,
    AcceptCharset,
    AcceptEncoding,
    Host,
    Referer,
    UserAgent,
    Custom(Seq<char>),
}

impl View for HttpHeaderName {
    type V = HeaderNameView;

    open spec fn view(&self) -> HeaderNameView {
        match self {
            HttpHeaderName::Accept => HeaderNameView::Accept,
            HttpHeaderName::AcceptCharset => HeaderNameView::AcceptCharset,
            HttpHeaderName::AcceptEncoding => HeaderNameView::AcceptEncoding,
            HttpHeaderName::Host => HeaderNameView::Host,
            HttpHeaderName::Referer => HeaderNameView::Referer,
            HttpHeaderName::UserAgent => HeaderNameView::UserAgent,
            HttpHeaderName::Custom(s) => HeaderNameView::Custom(s@),
        }
    }
}

/// A parsed header line.
#[derive(Debug, PartialEq)]
pub struct HttpHeader {
    pub name: HttpHeaderName,
    pub value: String,
}

/// What a `HttpHeader` stands for.
pub struct HeaderView {
    pub name: HeaderNameView,
    pub value: Seq<char>,
}

impl View for HttpHeader {
    type V = HeaderView;

    open spec fn view(&self) -> HeaderView {
        HeaderView { name: self.name@, value: self.value@ }
    }
}

/// The class of a (trimmed) header name: a known name when it equals one
/// up to ASCII case, else the name as written.
pub open spec fn header_name_of(name: Seq<char>) -> HeaderNameView {
    if same_ignoring_case(name, "accept"@) {
        HeaderNameView::Accept
    } else if same_ignoring_case(name, "accept-charset"@) {
        HeaderNameView::AcceptCharset
    } else if same_ignoring_case(name, "accept-encoding"@) {
        HeaderNameView::AcceptEncoding
    } else if same_ignoring_case(name, "host"@) {
        HeaderNameView::Host
    } else if same_ignoring_case(name, "user-agent"@) {
        HeaderNameView::UserAgent
    } else if same_ignoring_case(name, "referer"@) {
        HeaderNameView::Referer
    } else {
        HeaderNameView::Custom(name)
    }
}

/// The header that `line` holds: it is split at its first colon, the name
/// is what stands before it and the value what follows, both trimmed. A
/// line without a colon, or with an empty name, is malformed.
pub open spec fn header_of(line: Seq<char>) -> Result<HeaderView, ParseError> {
    let k = colon_index(line);
    let name = trim(line.take(k));
    if k >= line.len() || name.len() == 0 {
        Err(ParseError::MalformedHeader)
    } else {
        Ok(HeaderView { name: header_name_of(name), value: trim(line.skip(k + 1)) })
    }
}

/// The class of the name `v[lo..hi]`, where `v` holds the characters of
/// `line`.
fn classify_name(v: &Vec<char>, lo: usize, hi: usize, line: &str) -> (r: HttpHeaderName)
    requires
        v@ == line@,
        lo <= hi <= v@.len(),
    ensures
        r@ == header_name_of(v@.subrange(lo as int, hi as int)),
{
    if eq_ignore_case(v, lo, hi, "accept") {
        HttpHeaderName::Accept
    } else if eq_ignore_case(v, lo, hi, "accept-charset") {
        HttpHeaderName::AcceptCharset
    } else if eq_ignore_case(v, lo, hi, "accept-encoding") {
        HttpHeaderName::AcceptEncoding
    } else if eq_ignore_case(v, lo, hi, "host") {
        HttpHeaderName::Host
    } else if eq_ignore_case(v, lo, hi, "user-agent") {
        HttpHeaderName::UserAgent
    } else if eq_ignore_case(v, lo, hi, "referer") {
        HttpHeaderName::Referer
    } else {
        HttpHeaderName::Custom(String::from_str(line.substring_char(lo, hi)))
    }
}

impl HttpHeader {
    /// Parses one header line.
    pub fn new(line: &str) -> (r: Result<HttpHeader, ParseError>)
        ensures
            header_of(line@) == match r {
                Ok(h) => Ok(h@),
                Err(e) => Err(e),
            },
            !line@.contains(':') ==> r == Err::<HttpHeader, ParseError>(
                ParseError::MalformedHeader,
            ),
    {
        let v = chars_of(line);
        let n = v.len();
        let k = find_colon(&v, 0, n);
        proof {
            assert(v@.subrange(0, n as int) =~= v@);
            lemma_colon_index(v@);
        }
        if k == n {
            return Err(ParseError::MalformedHeader);
        }
        let (a, b) = trim_range(&v, 0, k);
        if a == b {
            return Err(ParseError::MalformedHeader);
        }
        let (c, d) = trim_range(&v, k + 1, n);
        let name = classify_name(&v, a, b, line);
        let value = String::from_str(line.substring_char(c, d));
        Ok(HttpHeader { name, value })
    }
}

/// A known header name is not empty and holds no whitespace and no colon.
proof fn lemma_known_name_chars(name: Seq<char>)
    requires
        !(header_name_of(name) is Custom),
    ensures
        name.len() > 0,
        forall|i: int| 0 <= i < name.len() ==> !is_ws(#[trigger] name[i]) && name[i] != ':',
{
    reveal_strlit("accept");
    reveal_strlit("accept-charset");
    reveal_strlit("accept-encoding");
    reveal_strlit("host");
    reveal_strlit("user-agent");
    reveal_strlit("referer");
    if same_ignoring_case(name, "accept"@) {
        lemma_word_chars(name, "accept"@);
    } else if same_ignoring_case(name, "accept-charset"@) {
        lemma_word_chars(name, "accept-charset"@);
    } else if same_ignoring_case(name, "accept-encoding"@) {
        lemma_word_chars(name, "accept-encoding"@);
    } else if same_ignoring_case(name, "host"@) {
        lemma_word_chars(name, "host"@);
    } else if same_ignoring_case(name, "user-agent"@) {
        lemma_word_chars(name, "user-agent"@);
    } else {
        lemma_word_chars(name, "referer"@);
    }
}

/// A known header name is recognized in any letter case: two names equal
/// up to ASCII case, one of them known, get the same class.
pub proof fn lemma_header_name_case_insensitive(a: Seq<char>, b: Seq<char>)
    requires
        same_ignoring_case(a, b),
        !(header_name_of(a) is Custom),
    ensures
        header_name_of(a) == header_name_of(b),
{
    lemma_same_ignoring_case_trans(a, b, "accept"@);
    lemma_same_ignoring_case_trans(a, b, "accept-charset"@);
    lemma_same_ignoring_case_trans(a, b, "accept-encoding"@);
    lemma_same_ignoring_case_trans(a, b, "host"@);
    lemma_same_ignoring_case_trans(a, b, "user-agent"@);
    lemma_same_ignoring_case_trans(a, b, "referer"@);
}

/// A name that is none of the known ones is kept exactly as written.
pub proof fn lemma_custom_name_kept(name: Seq<char>)
    ensures
        header_name_of(name) is Custom ==> header_name_of(name) == HeaderNameView::Custom(name),
{
}

/// A line without a colon is a malformed header.
pub proof fn lemma_no_colon(line: Seq<char>)
    requires
        !line.contains(':'),
    ensures
        header_of(line) == Err::<HeaderView, ParseError>(ParseError::MalformedHeader),
{
    lemma_colon_index(line);
}

/// A line is split at its first colon: a name that holds no colon and is
/// not blank, a colon, then any value, give the trimmed name's class and
/// the trimmed value.
pub proof fn lemma_header_split(name: Seq<char>, value: Seq<char>)
    requires
        !name.contains(':'),
        trim(name).len() > 0,
    ensures
        header_of(name + seq![':'] + value) == Ok::<HeaderView, ParseError>(
            HeaderView { name: header_name_of(trim(name)), value: trim(value) },
        ),
{
    let line = name + seq![':'] + value;
    lemma_colon_after(name, value);
    assert(line.take(name.len() as int) =~= name);
    assert(line.skip(name.len() as int + 1) =~= value);
}

/// A line written `name: value` gives the value trimmed, whatever the
/// value, for a name that holds no colon and is not blank.
pub proof fn lemma_header_line_value(name: Seq<char>, value: Seq<char>)
    requires
        !name.contains(':'),
        trim(name).len() > 0,
    ensures
        header_of(name + seq![':', ' '] + value) == Ok::<HeaderView, ParseError>(
            HeaderView { name: header_name_of(trim(name)), value: trim(value) },
        ),
{
    assert(name + seq![':', ' '] + value =~= name + seq![':'] + (seq![' '] + value));
    lemma_header_split(name, seq![' '] + value);
    lemma_trim_leading_space(value);
}

/// A known name, in any letter case and with whitespace around it, is
/// classified as that name, and the value after the colon is kept with
/// only its surrounding whitespace removed.
pub proof fn lemma_known_header_line(
    w1: Seq<char>,
    name: Seq<char>,
    w2: Seq<char>,
    value: Seq<char>,
)
    requires
        all_ws(w1),
        all_ws(w2),
        !(header_name_of(name) is Custom),
    ensures
        header_of(w1 + name + w2 + seq![':'] + value) == Ok::<HeaderView, ParseError>(
            HeaderView { name: header_name_of(name), value: trim(value) },
        ),
{
    let n = w1 + name + w2;
    lemma_known_name_chars(name);
    lemma_trim_ws_around(w1, name, w2);
    assert(!n.contains(':')) by {
        assert forall|i: int| 0 <= i < n.len() implies n[i] != ':' by {
            if i < w1.len() {
                assert(is_ws(w1[i]));
            } else if i < w1.len() + name.len() {
                assert(n[i] == name[i - w1.len()]);
            } else {
                assert(is_ws(w2[i - w1.len() - name.len()]));
            }
        }
    }
    lemma_header_split(n, value);
}

} // verus!
