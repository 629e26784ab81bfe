//! A whole request: its request line, tokenized into method and target,
//! and the header lines that follow it.

use vstd::prelude::*;

use crate::error::ParseError;
use crate::header::{HeaderView, HttpHeader, header_of};
use crate::text::{
    chars_of, eq_ignore_case, find_ws, is_ws, lemma_lines_from_nonempty,
    lemma_same_ignoring_case_trans, lemma_ws_index, lines_from, same_ignoring_case, skip_ws,
    split_crlf, split_crlf_ranges, trim, trim_end, trim_range, trim_start, ws_index,
};

verus! {

/// The method of a request: one of the known verbs, or the token as
/// written.
#[derive(Debug, PartialEq)]
pub enum HttpMethod {
    Options,
    Get,
    Header,
    Post,
    Put,
    Delete,
    Trace,
    Extension(String),
}

/// What a `HttpMethod` stands for.
pub enum MethodView {
    Options,
    Get,
    Header,
    Post,
    Put,
    Delete,
    Trace,
    Extension(Seq<char>),
}

impl View for HttpMethod {
    type V = MethodView;

    open spec fn view(&self) -> MethodView {
        match self {
            HttpMethod::Options => MethodView::Options,
            HttpMethod::Get => MethodView::Get,
            HttpMethod::Header => MethodView::Header,
            HttpMethod::Post => MethodView::Post,
            HttpMethod::Put => MethodView::Put,
            HttpMethod::Delete => MethodView::Delete,
            HttpMethod::Trace => MethodView::Trace,
            HttpMethod::Extension(s) => MethodView::Extension(s@),
        }
    }
}

/// A parsed request.
#[derive(Debug, PartialEq)]
pub struct HttpRequest {
    pub method: HttpMethod,
    pub uri: String,
    pub headers: Vec<HttpHeader>,
}

/// What a `HttpRequest` stands for.
pub struct RequestView {
    pub method: MethodView,
    pub uri: Seq<char>,
    pub headers: Seq<HeaderView>,
}

impl View for HttpRequest {
    type V = RequestView;

    open spec fn view(&self) -> RequestView {
        RequestView {
            method: self.method@,
            uri: self.uri@,
            headers: self.headers@.map_values(|h: HttpHeader| h@),
        }
    }
}

/// The class of a method token: a known verb when it equals one up to
/// ASCII case, else the token as written.
pub open spec fn method_of(token: Seq<char>) -> MethodView {
    if same_ignoring_case(token, "options"@) {
        MethodView::Options
    } else if same_ignoring_case(token, "get"@) {
        MethodView::Get
    } else if same_ignoring_case(token, "header"@) {
        MethodView::Header
    } else if same_ignoring_case(token, "post"@) {
        MethodView::Post
    } else if same_ignoring_case(token, "put"@) {
        MethodView::Put
    } else if same_ignoring_case(token, "delete"@) {
        MethodView::Delete
    } else if same_ignoring_case(token, "trace"@) {
        MethodView::Trace
    } else {
        MethodView::Extension(token)
    }
}

/// The first whitespace-delimited token of `s` (empty when `s` holds none).
pub open spec fn first_token(s: Seq<char>) -> Seq<char> {
    trim_start(s).take(ws_index(trim_start(s)))
}

/// What follows the first whitespace-delimited token of `s`.
pub open spec fn after_first_token(s: Seq<char>) -> Seq<char> {
    trim_start(s).skip(ws_index(trim_start(s)))
}

/// The headers of the given lines, in order, each line trimmed; lines that
/// are no header are left out.
pub open spec fn headers_of(lines: Seq<Seq<char>>) -> Seq<HeaderView>
    decreases lines.len(),
{
    if lines.len() == 0 {
        Seq::empty()
    } else {
        let rest = headers_of(lines.drop_last());
        match header_of(trim(lines.last())) {
            Ok(h) => rest.push(h),
            Err(_) => rest,
        }
    }
}

/// The request that `raw` holds. Its lines are split at CR LF and
/// trimmed. The first one's first token is the method and its second the
/// target: without a first token there is no request line, without a
/// second it is malformed. The other lines give the headers.
pub open spec fn request_of(raw: Seq<char>) -> Result<RequestView, ParseError> {
    let lines = split_crlf(raw);
    let first = trim(lines[0]);
    let method = first_token(first);
    let target = first_token(after_first_token(first));
    if method.len() == 0 {
        Err(ParseError::NoRequestLine)
    } else if target.len() == 0 {
        Err(ParseError::MalformedRequestLine)
    } else {
        Ok(
            RequestView {
                method: method_of(method),
                uri: target,
                headers: headers_of(lines.drop_first()),
            },
        )
    }
}

/// The class of the method token `v[lo..hi]`, where `v` holds the
/// characters of `raw`.
fn classify_method(v: &Vec<char>, lo: usize, hi: usize, raw: &str) -> (r: HttpMethod)
    requires
        v@ == raw@,
        lo <= hi <= v@.len(),
    ensures
        r@ == method_of(v@.subrange(lo as int, hi as int)),
{
    if eq_ignore_case(v, lo, hi, "options") {
        HttpMethod::Options
    } else if eq_ignore_case(v, lo, hi, "get") {
        HttpMethod::Get
    } else if eq_ignore_case(v, lo, hi, "header") {
        HttpMethod::Header
    } else if eq_ignore_case(v, lo, hi, "post") {
        HttpMethod::Post
    } else if eq_ignore_case(v, lo, hi, "put") {
        HttpMethod::Put
    } else if eq_ignore_case(v, lo, hi, "delete") {
        HttpMethod::Delete
    } else if eq_ignore_case(v, lo, hi, "trace") {
        HttpMethod::Trace
    } else {
        HttpMethod::Extension(String::from_str(raw.substring_char(lo, hi)))
    }
}

/// The bounds within `v` of `first_token(v[lo..hi])`, and where what
/// follows it begins.
fn token_range(v: &Vec<char>, lo: usize, hi: usize) -> (r: (usize, usize))
    requires
        lo <= hi <= v@.len(),
    ensures
        lo <= r.0 <= r.1 <= hi,
        v@.subrange(r.0 as int, r.1 as int) == first_token(v@.subrange(lo as int, hi as int)),
        v@.subrange(r.1 as int, hi as int) == after_first_token(
            v@.subrange(lo as int, hi as int),
        ),
{
    let a = skip_ws(v, lo, hi);
    let e = find_ws(v, a, hi);
    assert(v@.subrange(a as int, e as int) =~= v@.subrange(a as int, hi as int).take(e - a));
    assert(v@.subrange(e as int, hi as int) =~= v@.subrange(a as int, hi as int).skip(e - a));
    (a, e)
}

impl HttpRequest {
    /// Parses a request: its request line and the header lines after it.
    /// Header lines that do not parse are left out.
    pub fn new(raw: &str) -> (r: Result<HttpRequest, ParseError>)
        ensures
            request_of(raw@) == match r {
                Ok(q) => Ok(q@),
                Err(e) => Err(e),
            },
    {
        let v = chars_of(raw);
        let lines = split_crlf_ranges(&v);
        let ghost ls = split_crlf(v@);
        proof {
            lemma_lines_from_nonempty(v@, 0, 0);
        }
        let (a, b) = trim_range(&v, lines[0].0, lines[0].1);
        let (m0, m1) = token_range(&v, a, b);
        let (t0, t1) = token_range(&v, m1, b);
        if m0 == m1 {
            return Err(ParseError::NoRequestLine);
        }
        if t0 == t1 {
            return Err(ParseError::MalformedRequestLine);
        }
        let method = classify_method(&v, m0, m1, raw);
        let uri = String::from_str(raw.substring_char(t0, t1));
        let mut headers: Vec<HttpHeader> = Vec::new();
        let mut i: usize = 1;
        while i < lines.len()
            invariant
                v@ == raw@,
                ls == split_crlf(v@),
                lines@.len() == ls.len(),
                forall|k: int|
                    0 <= k < lines@.len() ==> {
                        &&& (#[trigger] lines@[k]).0 <= lines@[k].1 <= v@.len()
                        &&& v@.subrange(lines@[k].0 as int, lines@[k].1 as int) == ls[k]
                    },
                1 <= i <= lines@.len(),
                headers@.map_values(|h: HttpHeader| h@) == headers_of(ls.subrange(1, i as int)),
            decreases lines.len() - i,
        {
            let (c, d) = trim_range(&v, lines[i].0, lines[i].1);
            let parsed = HttpHeader::new(raw.substring_char(c, d));
            let ghost before = headers@;
            assert(ls.subrange(1, i + 1).drop_last() =~= ls.subrange(1, i as int));
            match parsed {
                Ok(h) => {
                    headers.push(h);
                    assert(headers@.map_values(|h: HttpHeader| h@) =~= before.map_values(
                        |h: HttpHeader| h@,
                    ).push(h@));
                },
                Err(_) => {},
            }
            i = i + 1;
        }
        assert(ls.subrange(1, ls.len() as int) =~= ls.drop_first());
        Ok(HttpRequest { method, uri, headers })
    }
}

/// A known verb is recognized in any letter case: two tokens equal up to
/// ASCII case, one of them a known verb, get the same class.
pub proof fn lemma_method_case_insensitive(a: Seq<char>, b: Seq<char>)
    requires
        same_ignoring_case(a, b),
        !(method_of(a) is Extension),
    ensures
        method_of(a) == method_of(b),
{
    lemma_same_ignoring_case_trans(a, b, "options"@);
    lemma_same_ignoring_case_trans(a, b, "get"@);
    lemma_same_ignoring_case_trans(a, b, "header"@);
    lemma_same_ignoring_case_trans(a, b, "post"@);
    lemma_same_ignoring_case_trans(a, b, "put"@);
    lemma_same_ignoring_case_trans(a, b, "delete"@);
    lemma_same_ignoring_case_trans(a, b, "trace"@);
}

/// A token that is none of the known verbs is kept exactly as written.
pub proof fn lemma_extension_kept(token: Seq<char>)
    ensures
        method_of(token) is Extension ==> method_of(token) == MethodView::Extension(token),
{
}

/// The first line of `line + CR LF + rest` is `line`, where `line` holds
/// no CR.
proof fn lemma_first_line(line: Seq<char>, rest: Seq<char>, i: int)
    requires
        0 <= i <= line.len(),
        forall|j: int| 0 <= j < line.len() ==> #[trigger] line[j] != '\r',
    ensures
        lines_from(line + seq!['\r', '\n'] + rest, 0, i)[0] == line,
    decreases line.len() - i,
{
    let s = line + seq!['\r', '\n'] + rest;
    if i == line.len() {
        assert(s[i] == '\r' && s[i + 1] == '\n');
        assert(s.subrange(0, i) =~= line);
    } else {
        assert(s[i] == line[i]);
        lemma_first_line(line, rest, i + 1);
    }
}

/// A request whose first line is a single token, with no target after it,
/// is a malformed request line.
pub proof fn lemma_single_token_request(token: Seq<char>, rest: Seq<char>)
    requires
        token.len() > 0,
        forall|i: int| 0 <= i < token.len() ==> !is_ws(#[trigger] token[i]),
    ensures
        request_of(token + seq!['\r', '\n'] + rest) == Err::<RequestView, ParseError>(
            ParseError::MalformedRequestLine,
        ),
{
    assert forall|j: int| 0 <= j < token.len() implies #[trigger] token[j] != '\r' by {
        assert(!is_ws(token[j]));
    }
    lemma_first_line(token, rest, 0);
    assert(!is_ws(token[0]));
    assert(!is_ws(token.last()));
    assert(trim_start(token) == token);
    assert(trim_end(token) == token);
    lemma_ws_index(token);
    assert(ws_index(token) == token.len());
    assert(token.take(token.len() as int) =~= token);
    assert(token.skip(token.len() as int) =~= Seq::<char>::empty());
}

} // verus!
