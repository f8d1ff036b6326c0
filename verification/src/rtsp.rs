//! The RTSP client of the relay: the requests it sends (OPTIONS, DESCRIBE,
//! SETUP, PLAY), how it reads responses and SDP descriptions, and the
//! parameter sets it takes from the SDP.
//!
//! The connection itself is driven on the async runtime, which sends the
//! texts built here and hands back what it reads.
use vstd::prelude::*;
use crate::keyed::KeyedList;
use crate::text::{
    chars_equal, chars_of, decimal, find_char, index_of, join, join_from, lines, push_char,
    push_decimal, push_str, split_bounds, split_lines, split_on, split_words, starts_with_at,
    string_of, trim, trim_bounds, views, words,
};

verus! {

// ---------------------------------------------------------------------------
// Responses
// ---------------------------------------------------------------------------

/// A parsed RTSP response.
#[derive(Debug)]
pub struct RtspResponse {
    pub status_code: u16,
    pub status_text: String,
    pub headers: KeyedList<String>,
    pub body: Option<String>,
}

/// The steps of an RTSP session.
#[derive(Debug, Clone, Copy, PartialEq, Eq)]
pub enum RtspStep {
    Options,
    Describe,
    Setup,
    Play,
}

/// Why an RTSP exchange failed.
#[derive(Debug)]
pub enum RtspError {
    /// The response holds no line.
    EmptyResponse,
    /// The status line has fewer than three words.
    InvalidStatusLine,
    /// The status code is not a number in range.
    InvalidStatusCode,
    /// A step was answered with a status other than 200.
    StepFailed { step: RtspStep, status_text: String },
    /// The DESCRIBE response has no body.
    NoSdpBody,
    /// The SDP describes no video stream.
    NoVideoStream,
    /// An event that the session's current step does not wait for.
    UnexpectedEvent,
}

/// Whether every character is an ASCII digit.
pub open spec fn all_digits(s: Seq<char>) -> bool {
    forall|i: int| 0 <= i < s.len() ==> '0' <= #[trigger] s[i] <= '9'
}

/// Value of a string of ASCII digits.
pub open spec fn digits_value(s: Seq<char>) -> nat
    decreases s.len(),
{
    if s.len() == 0 {
        0
    } else {
        digits_value(s.drop_last()) * 10 + (s.last() as nat - '0' as nat) as nat
    }
}

/// `u16::from_str`: an optional `+`, then at least one digit; the value
/// must fit.
pub open spec fn parse_u16_spec(s: Seq<char>) -> Option<u16> {
    let d = if s.len() > 0 && s[0] == '+' {
        s.drop_first()
    } else {
        s
    };
    if d.len() == 0 || !all_digits(d) || digits_value(d) > 65535 {
        None
    } else {
        Some(digits_value(d) as u16)
    }
}

/// Key and value of a header line: around its first `:`, each trimmed.
pub open spec fn header_kv(line: Seq<char>) -> Option<(Seq<char>, Seq<char>)> {
    match index_of(line, ':') {
        Some(c) => Some((trim(line.take(c)), trim(line.skip(c + 1)))),
        None => None,
    }
}

/// The headers read from lines `1..k`, later ones replacing earlier ones.
pub open spec fn headers_upto(ls: Seq<Seq<char>>, k: int) -> Map<Seq<char>, Seq<char>>
    decreases k,
{
    if k <= 1 {
        Map::empty()
    } else {
        let m = headers_upto(ls, k - 1);
        match header_kv(ls[k - 1]) {
            Some((key, value)) => m.insert(key, value),
            None => m,
        }
    }
}

/// Index of the first empty line at or after line `i`, if any.
pub open spec fn blank_from(ls: Seq<Seq<char>>, i: int) -> Option<int>
    decreases ls.len() - i,
{
    if i < 0 || i >= ls.len() {
        None
    } else if ls[i].len() == 0 {
        Some(i)
    } else {
        blank_from(ls, i + 1)
    }
}

/// Index of the first empty line after the status line, if any.
pub open spec fn blank_line(ls: Seq<Seq<char>>) -> Option<int> {
    blank_from(ls, 1)
}

/// The parsed parts of a response, with texts as character sequences.
pub struct ResponseView {
    pub status_code: u16,
    pub status_text: Seq<char>,
    pub headers: Map<Seq<char>, Seq<char>>,
    pub body: Option<Seq<char>>,
}

/// What a response text parses to. Headers run from the second line to the
/// first empty line; the body is the lines after that empty line joined
/// with `\n`. Without an empty line, all lines after the status line are
/// read as headers and also make up the body.
pub open spec fn parse_response_spec(r: Seq<char>) -> Result<ResponseView, RtspError> {
    let ls = lines(r);
    if ls.len() == 0 {
        Err(RtspError::EmptyResponse)
    } else {
        let parts = words(ls[0]);
        if parts.len() < 3 {
            Err(RtspError::InvalidStatusLine)
        } else {
            match parse_u16_spec(parts[1]) {
                None => Err(RtspError::InvalidStatusCode),
                Some(code) => {
                    let (hdr_end, body_start) = match blank_line(ls) {
                        Some(b) => (b, b + 1),
                        None => (ls.len() as int, 1),
                    };
                    Ok(
                        ResponseView {
                            status_code: code,
                            status_text: join(parts.skip(2), seq![' ']),
                            headers: headers_upto(ls, hdr_end),
                            body: if body_start < ls.len() {
                                Some(join(ls.skip(body_start), seq!['\n']))
                            } else {
                                None
                            },
                        },
                    )
                },
            }
        }
    }
}

/// A response taken by its texts.
pub open spec fn response_view(r: RtspResponse) -> ResponseView {
    ResponseView {
        status_code: r.status_code,
        status_text: r.status_text@,
        headers: r.headers@.map_values(|v: String| v@),
        body: match r.body {
            Some(b) => Some(b@),
            None => None,
        },
    }
}

/// A parse result taken by its texts.
pub open spec fn parsed_view(r: Result<RtspResponse, RtspError>) -> Result<ResponseView, RtspError> {
    match r {
        Ok(resp) => Ok(response_view(resp)),
        Err(e) => Err(e),
    }
}

/// Parses the digits of a status code.
pub fn parse_u16(s: &[char]) -> (res: Option<u16>)
    ensures
        res == parse_u16_spec(s@),
{
    let start: usize = if s.len() > 0 && s[0] == '+' {
        1
    } else {
        0
    };
    let ghost d = if s@.len() > 0 && s@[0] == '+' {
        s@.drop_first()
    } else {
        s@
    };
    assert(d =~= s@.subrange(start as int, s@.len() as int));
    if start == s.len() {
        return None;
    }
    let mut value: u32 = 0;
    let mut i: usize = start;
    while i < s.len()
        invariant
            start <= i <= s@.len(),
            start < s@.len(),
            d == s@.subrange(start as int, s@.len() as int),
            d == (if s@.len() > 0 && s@[0] == '+' {
                s@.drop_first()
            } else {
                s@
            }),
            all_digits(s@.subrange(start as int, i as int)),
            value as nat == digits_value(s@.subrange(start as int, i as int)),
            value <= 65535,
        decreases s.len() - i,
    {
        let c = s[i];
        if !('0' <= c && c <= '9') {
            proof {
                assert(d[i - start] == c);
            }
            return None;
        }
        let dv = (c as u32) - ('0' as u32);
        let ghost prefix = s@.subrange(start as int, i + 1);
        proof {
            assert(prefix.drop_last() =~= s@.subrange(start as int, i as int));
            assert(prefix.last() == c);
        }
        let next = value * 10 + dv;
        if next > 65535 {
            proof {
                assert(d.take(i + 1 - start) =~= prefix);
                if all_digits(d) {
                    lemma_digits_value_monotone(d, i + 1 - start);
                }
            }
            return None;
        }
        value = next;
        i = i + 1;
    }
    assert(s@.subrange(start as int, s@.len() as int) =~= d);
    Some(value as u16)
}

/// The value of a digit string is at least that of each of its prefixes.
pub proof fn lemma_digits_value_monotone(d: Seq<char>, k: int)
    requires
        0 <= k <= d.len(),
        all_digits(d),
    ensures
        digits_value(d.take(k)) <= digits_value(d),
    decreases d.len(),
{
    if k < d.len() {
        assert(d.drop_last().take(k) =~= d.take(k));
        assert forall|i: int| 0 <= i < d.drop_last().len() implies '0' <= #[trigger] d.drop_last()[i]
            <= '9' by {
            assert(d.drop_last()[i] == d[i]);
        }
        lemma_digits_value_monotone(d.drop_last(), k);
    } else {
        assert(d.take(k) =~= d);
    }
}

/// The key and value of a header line, when it has a `:`.
fn header_line(line: &[char]) -> (res: Option<(String, String)>)
    ensures
        match res {
            Some((k, v)) => header_kv(line@) == Some((k@, v@)),
            None => header_kv(line@) is None,
        },
{
    let n = line.len();
    assert(line@.subrange(0, n as int) =~= line@);
    match find_char(line, ':', 0, n) {
        Some(c) => {
            let (a, b) = trim_bounds(line, 0, c);
            let (a2, b2) = trim_bounds(line, c + 1, n);
            let key = string_of(line, a, b);
            let value = string_of(line, a2, b2);
            assert(line@.take(c as int) =~= line@.subrange(0, c as int));
            assert(line@.skip(c + 1) =~= line@.subrange(c + 1, n as int));
            Some((key, value))
        },
        None => None,
    }
}

/// Parses a response text.
pub fn parse_response(response: &str) -> (res: Result<RtspResponse, RtspError>)
    ensures
        parsed_view(res) == parse_response_spec(response@),
{
    let cs = chars_of(response);
    let ls = split_lines(cs.as_slice());
    let ghost big_l = lines(response@);
    assert(views(ls@) == big_l);
    let n = ls.len();
    if n == 0 {
        return Err(RtspError::EmptyResponse);
    }
    let first = &ls[0];
    assert(big_l[0] == first@);
    let parts = split_words(first.as_slice(), 0, first.len());
    assert(first@.subrange(0, first@.len() as int) =~= first@);
    if parts.len() < 3 {
        return Err(RtspError::InvalidStatusLine);
    }
    let ghost wparts = words(big_l[0]);
    assert(wparts[1] == parts@[1]@);
    let status_code = match parse_u16(parts[1].as_slice()) {
        Some(c) => c,
        None => {
            return Err(RtspError::InvalidStatusCode);
        },
    };
    let status_text = join_from(parts.as_slice(), 2, ' ');
    assert(views(parts@.skip(2)) =~= wparts.skip(2));
    let mut headers: KeyedList<String> = KeyedList::new();
    let mut i: usize = 1;
    let mut body_start: usize = 1;
    let mut hdr_end: usize = n;
    assert(headers@.map_values(|v: String| v@) =~= headers_upto(big_l, 1));
    while i < n
        invariant_except_break
            1 <= i <= n,
            n == ls@.len(),
            views(ls@) == big_l,
            blank_line(big_l) == blank_from(big_l, i as int),
            headers@.map_values(|v: String| v@) == headers_upto(big_l, i as int),
            body_start == 1,
            hdr_end == n,
        ensures
            headers@.map_values(|v: String| v@) == headers_upto(big_l, hdr_end as int),
            match blank_line(big_l) {
                Some(b) => hdr_end == b && body_start == b + 1,
                None => hdr_end == n && body_start == 1,
            },
            body_start <= n,
        decreases n - i,
    {
        let line = &ls[i];
        assert(big_l[i as int] == line@);
        if line.len() == 0 {
            body_start = i + 1;
            hdr_end = i;
            break;
        }
        let ghost before = headers@;
        match header_line(line.as_slice()) {
            Some((key, value)) => {
                headers.insert(key, value);
                proof {
                    assert(headers@.map_values(|v: String| v@) =~= before.map_values(
                        |v: String| v@,
                    ).insert(key@, value@));
                }
            },
            None => {},
        }
        i = i + 1;
    }
    let body = if body_start < n {
        let b = join_from(ls.as_slice(), body_start, '\n');
        assert(views(ls@.skip(body_start as int)) =~= big_l.skip(body_start as int));
        Some(b)
    } else {
        None
    };
    let res = RtspResponse { status_code, status_text, headers, body };
    proof {
        let v = response_view(res);
        let sv = parse_response_spec(response@);
        assert(sv matches Ok(x) && x.status_code == v.status_code);
        assert(sv matches Ok(x) && x.status_text == v.status_text);
        assert(sv matches Ok(x) && x.headers == v.headers);
        assert(sv matches Ok(x) && x.body == v.body);
    }
    Ok(res)
}

// ---------------------------------------------------------------------------
// SDP
// ---------------------------------------------------------------------------

/// A media description of an SDP: its type and its attributes.
#[derive(Debug)]
pub struct SdpMedia {
    pub media_type: String,
    pub attributes: KeyedList<String>,
}

/// A media description taken by its texts.
pub type MediaView = (Seq<char>, Map<Seq<char>, Seq<char>>);

/// A media description taken by its texts.
pub open spec fn media_view(m: SdpMedia) -> MediaView {
    (m.media_type@, m.attributes@.map_values(|v: String| v@))
}

/// Media descriptions taken by their texts.
pub open spec fn media_views(ms: Seq<SdpMedia>) -> Seq<MediaView> {
    ms.map_values(|m: SdpMedia| media_view(m))
}

/// Whether a line opens with `<letter>=`.
pub open spec fn opens_with(line: Seq<char>, letter: char) -> bool {
    line.len() >= 2 && line[0] == letter && line[1] == '='
}

/// The attribute read from the text after `a=`: around its first `:`, or
/// the whole text with an empty value.
pub open spec fn attribute_kv(attr: Seq<char>) -> (Seq<char>, Seq<char>) {
    match index_of(attr, ':') {
        Some(c) => (attr.take(c), attr.skip(c + 1)),
        None => (attr, seq![]),
    }
}

/// One SDP line read: the finished descriptions and the one being read.
pub open spec fn sdp_step(st: (Seq<MediaView>, Option<MediaView>), raw: Seq<char>) -> (
    Seq<MediaView>,
    Option<MediaView>,
) {
    let line = trim(raw);
    if opens_with(line, 'm') {
        let done = match st.1 {
            Some(m) => st.0.push(m),
            None => st.0,
        };
        let parts = words(line.skip(2));
        (done, if parts.len() >= 1 {
            Some((parts[0], Map::empty()))
        } else {
            None
        })
    } else if opens_with(line, 'a') {
        match st.1 {
            Some((ty, attrs)) => {
                let (k, v) = attribute_kv(line.skip(2));
                (st.0, Some((ty, attrs.insert(k, v))))
            },
            None => st,
        }
    } else {
        st
    }
}

/// The first `k` lines read.
pub open spec fn sdp_fold(ls: Seq<Seq<char>>, k: int) -> (Seq<MediaView>, Option<MediaView>)
    decreases k,
{
    if k <= 0 {
        (seq![], None)
    } else {
        sdp_step(sdp_fold(ls, k - 1), ls[k - 1])
    }
}

/// The media descriptions of an SDP text, in order. Lines are trimmed; an
/// `m=` line opens a description (typed by its first word), an `a=` line
/// adds an attribute to the open one; other lines are skipped.
pub open spec fn parse_sdp_spec(sdp: Seq<char>) -> Seq<MediaView> {
    let ls = lines(sdp);
    let (done, cur) = sdp_fold(ls, ls.len() as int);
    match cur {
        Some(m) => done.push(m),
        None => done,
    }
}

/// An optional media description taken by its texts.
pub open spec fn opt_media_view(m: Option<SdpMedia>) -> Option<MediaView> {
    match m {
        Some(x) => Some(media_view(x)),
        None => None,
    }
}

/// Parses the media descriptions of an SDP text; this never fails.
pub fn parse_sdp(sdp: &str) -> (res: Result<Vec<SdpMedia>, RtspError>)
    ensures
        res matches Ok(ms) && media_views(ms@) == parse_sdp_spec(sdp@),
{
    let cs = chars_of(sdp);
    let ls = split_lines(cs.as_slice());
    let ghost big_l = lines(sdp@);
    let mut media_list: Vec<SdpMedia> = Vec::new();
    let mut current: Option<SdpMedia> = None;
    let mut i: usize = 0;
    assert(media_views(media_list@) =~= Seq::<MediaView>::empty());
    while i < ls.len()
        invariant
            0 <= i <= ls@.len(),
            views(ls@) == big_l,
            (media_views(media_list@), opt_media_view(current)) == sdp_fold(big_l, i as int),
        decreases ls.len() - i,
    {
        let raw = &ls[i];
        assert(big_l[i as int] == raw@);
        let (a, b) = trim_bounds(raw.as_slice(), 0, raw.len());
        assert(raw@.subrange(0, raw@.len() as int) =~= raw@);
        let ghost line = trim(raw@);
        assert(raw@.subrange(a as int, b as int) == line);
        let is_m = b - a >= 2 && raw[a] == 'm' && raw[a + 1] == '=';
        let is_a = b - a >= 2 && raw[a] == 'a' && raw[a + 1] == '=';
        assert(is_m == opens_with(line, 'm'));
        assert(is_a == opens_with(line, 'a'));
        if is_m {
            let ghost prev = media_views(media_list@);
            match current.take() {
                Some(m) => {
                    media_list.push(m);
                    assert(media_views(media_list@) =~= prev.push(media_view(m)));
                },
                None => {},
            }
            let parts = split_words(raw.as_slice(), a + 2, b);
            assert(raw@.subrange(a + 2, b as int) =~= line.skip(2));
            if parts.len() >= 1 {
                let ty = &parts[0];
                let media_type = string_of(ty.as_slice(), 0, ty.len());
                assert(ty@.subrange(0, ty@.len() as int) =~= ty@);
                let attributes: KeyedList<String> = KeyedList::new();
                let m = SdpMedia { media_type, attributes };
                assert(m.attributes@.map_values(|v: String| v@) =~= Map::<Seq<char>, Seq<char>>::empty());
                current = Some(m);
            }
        } else if is_a {
            match current.take() {
                Some(m) => {
                    let SdpMedia { media_type, mut attributes } = m;
                    let ghost before = attributes@;
                    let ghost attr = line.skip(2);
                    assert(raw@.subrange(a + 2, b as int) =~= attr);
                    let (k, v) = match find_char(raw.as_slice(), ':', a + 2, b) {
                        Some(c) => {
                            assert(attr.take(c - (a + 2)) =~= raw@.subrange(a + 2, c as int));
                            assert(attr.skip(c - (a + 2) + 1) =~= raw@.subrange(c + 1, b as int));
                            (string_of(raw.as_slice(), a + 2, c), string_of(raw.as_slice(), c + 1, b))
                        },
                        None => (string_of(raw.as_slice(), a + 2, b), String::new()),
                    };
                    assert((k@, v@) == attribute_kv(attr));
                    attributes.insert(k, v);
                    assert(attributes@.map_values(|s: String| s@) =~= before.map_values(
                        |s: String| s@,
                    ).insert(k@, v@));
                    current = Some(SdpMedia { media_type, attributes });
                },
                None => {},
            }
        }
        i = i + 1;
    }
    let ghost done = media_views(media_list@);
    match current {
        Some(m) => {
            media_list.push(m);
            assert(media_views(media_list@) =~= done.push(media_view(m)));
        },
        None => {},
    }
    Ok(media_list)
}

// ---------------------------------------------------------------------------
// Base64 (the `base64` crate)
// ---------------------------------------------------------------------------

/// The digit for a 6-bit value in the standard base64 alphabet
/// (`A`-`Z`, `a`-`z`, `0`-`9`, `+`, `/`).
pub open spec fn base64_digit(v: int) -> char {
    if v < 26 {
        (65 + v) as char
    } else if v < 52 {
        (71 + v) as char
    } else if v < 62 {
        (v - 4) as char
    } else if v == 62 {
        '+'
    } else {
        '/'
    }
}

/// Standard padded base64 (RFC 4648, section 4): each group of three bytes,
/// read as a 24-bit big-endian number, gives four digits of six bits each;
/// a final group of one or two bytes is filled with zero bits and the
/// missing digits are written as `=`.
pub open spec fn base64_bytes(b: Seq<u8>) -> Seq<char>
    decreases b.len(),
{
    if b.len() == 0 {
        seq![]
    } else if b.len() == 1 {
        let n = b[0] as int * 65536;
        seq![base64_digit(n / 262144), base64_digit(n / 4096 % 64), '=', '=']
    } else if b.len() == 2 {
        let n = b[0] as int * 65536 + b[1] as int * 256;
        seq![base64_digit(n / 262144), base64_digit(n / 4096 % 64), base64_digit(n / 64 % 64), '=']
    } else {
        let n = b[0] as int * 65536 + b[1] as int * 256 + b[2] as int;
        seq![
            base64_digit(n / 262144),
            base64_digit(n / 4096 % 64),
            base64_digit(n / 64 % 64),
            base64_digit(n % 64),
        ] + base64_bytes(b.skip(3))
    }
}

/// The standard, padded base64 encoding of the UTF-8 bytes of a text.
pub open spec fn base64_standard_encode(text: Seq<char>) -> Seq<char> {
    base64_bytes(vstd::utf8::encode_utf8(text))
}

/// The bytes a text decodes to under standard base64, or `None` when the
/// `base64` crate rejects it.
pub uninterp spec fn base64_standard_decode(text: Seq<char>) -> Option<Seq<u8>>;

/// `base64::prelude::BASE64_STANDARD.encode`: claims that the result is the
/// standard padded base64 of the text's UTF-8 bytes. The crate panics when the
/// encoded length overflows `usize`; inputs of at most `usize::MAX / 2`
/// bytes stay clear of that.
#[verifier::external_body]
fn base64_encode(text: &str) -> (res: String)
    requires
        vstd::utf8::encode_utf8(text@).len() <= usize::MAX / 2,
    ensures
        res@ == base64_standard_encode(text@),
{
    base64::Engine::encode(&base64::prelude::BASE64_STANDARD, text)
}

/// `base64::prelude::BASE64_STANDARD.decode`: claims only that the result is
/// the crate's decoding of the text's bytes, `None` where the crate returns
/// an error.
#[verifier::external_body]
fn base64_decode(text: &str) -> (res: Option<Vec<u8>>)
    ensures
        match res {
            Some(v) => base64_standard_decode(text@) == Some(v@),
            None => base64_standard_decode(text@) is None,
        },
{
    base64::Engine::decode(&base64::prelude::BASE64_STANDARD, text).ok()
}

// ---------------------------------------------------------------------------
// Requests
// ---------------------------------------------------------------------------

/// The RTSP client's session state.
#[derive(Debug)]
pub struct RtspClient {
    pub host: String,
    pub port: u16,
    pub path: String,
    pub auth: Option<(String, String)>,
    pub session_id: Option<String>,
    pub cseq: u32,
}

/// Header pairs taken by their texts.
pub open spec fn pairs_view(hs: Seq<(String, String)>) -> Seq<(Seq<char>, Seq<char>)> {
    hs.map_values(|p: (String, String)| (p.0@, p.1@))
}

/// The header lines of a request: `name: value`, each ended by CRLF.
pub open spec fn header_lines(hs: Seq<(Seq<char>, Seq<char>)>) -> Seq<char>
    decreases hs.len(),
{
    if hs.len() == 0 {
        seq![]
    } else {
        hs[0].0 + ": "@ + hs[0].1 + "\r\n"@ + header_lines(hs.drop_first())
    }
}

/// The text of a request: request line, sequence number, user agent, the
/// given headers, and an empty line.
pub open spec fn request_text(
    method: Seq<char>,
    url: Seq<char>,
    cseq: u32,
    hs: Seq<(Seq<char>, Seq<char>)>,
) -> Seq<char> {
    method + seq![' '] + url + " RTSP/1.0\r\n"@ + "CSeq: "@ + decimal(cseq as nat) + "\r\n"@
        + "User-Agent: orb-relay/1.0\r\n"@ + header_lines(hs) + "\r\n"@
}

/// The credentials fit the base64 encoder's limit.
pub open spec fn auth_fits(auth: Option<(String, String)>) -> bool {
    match auth {
        Some((u, p)) => vstd::utf8::encode_utf8(u@ + seq![':'] + p@).len() <= usize::MAX / 2,
        None => true,
    }
}

/// The `Authorization` header for the credentials, if any.
pub open spec fn auth_headers(auth: Option<(String, String)>) -> Seq<(Seq<char>, Seq<char>)> {
    match auth {
        Some((u, p)) => seq![
            ("Authorization"@, "Basic "@ + base64_standard_encode(u@ + seq![':'] + p@)),
        ],
        None => seq![],
    }
}

/// The `Session` header for the session, if any.
pub open spec fn session_headers(session: Option<String>) -> Seq<(Seq<char>, Seq<char>)> {
    match session {
        Some(s) => seq![("Session"@, s@)],
        None => seq![],
    }
}

/// The URL of the stream: `rtsp://host:port/path`.
pub open spec fn base_url_spec(host: Seq<char>, port: u16, path: Seq<char>) -> Seq<char> {
    "rtsp://"@ + host + seq![':'] + decimal(port as nat) + path
}

/// The URL a SETUP goes to: an absolute control URL as it is, otherwise
/// the control path appended to the base URL with one `/` between them.
pub open spec fn setup_url_spec(base: Seq<char>, control: Seq<char>) -> Seq<char> {
    if control.len() >= "rtsp://"@.len() && control.take("rtsp://"@.len() as int) == "rtsp://"@ {
        control
    } else if (base.len() > 0 && base.last() == '/') || (control.len() > 0 && control[0] == '/') {
        base + control
    } else {
        base + seq!['/'] + control
    }
}

/// The control attribute of a media description, `trackID=0` by default.
pub open spec fn control_of(attrs: Map<Seq<char>, Seq<char>>) -> Seq<char> {
    if attrs.contains_key("control"@) {
        attrs["control"@]
    } else {
        "trackID=0"@
    }
}

/// A string holding the characters of a literal.
pub(crate) fn literal(s: &str) -> (res: String)
    ensures
        res@ == s@,
{
    let mut out = String::new();
    push_str(&mut out, s);
    out
}

/// A copy of a string's characters appended to `out`.
fn push_string(out: &mut String, s: &String)
    ensures
        final(out)@ == old(out)@ + s@,
{
    push_str(out, s.as_str());
}

impl RtspClient {
    /// A client for `rtsp://host:port/path`, with no session yet and the
    /// sequence number at 1.
    pub fn new(host: String, port: u16, path: String, auth: Option<(String, String)>) -> (res:
        Self)
        ensures
            res.host == host,
            res.port == port,
            res.path == path,
            res.auth == auth,
            res.session_id is None,
            res.cseq == 1,
    {
        RtspClient { host, port, path, auth, session_id: None, cseq: 1 }
    }

    /// The URL of the stream.
    pub fn base_url(&self) -> (res: String)
        ensures
            res@ == base_url_spec(self.host@, self.port, self.path@),
    {
        let mut url = literal("rtsp://");
        push_string(&mut url, &self.host);
        push_char(&mut url, ':');
        push_decimal(&mut url, self.port as u64);
        push_string(&mut url, &self.path);
        url
    }

    /// The `Authorization` header, if the client has credentials.
    pub fn auth_header(&self) -> (res: Vec<(String, String)>)
        requires
            auth_fits(self.auth),
        ensures
            pairs_view(res@) == auth_headers(self.auth),
    {
        let mut res: Vec<(String, String)> = Vec::new();
        match &self.auth {
            Some((username, password)) => {
                let mut auth_string = String::new();
                push_string(&mut auth_string, username);
                push_char(&mut auth_string, ':');
                push_string(&mut auth_string, password);
                assert(auth_string@ =~= username@ + seq![':'] + password@);
                let encoded = base64_encode(auth_string.as_str());
                let mut value = literal("Basic ");
                push_string(&mut value, &encoded);
                res.push((literal("Authorization"), value));
                assert(pairs_view(res@) =~= auth_headers(self.auth));
            },
            None => {
                assert(pairs_view(res@) =~= auth_headers(self.auth));
            },
        }
        res
    }

    /// The `Session` header, if a session was set up.
    pub fn session_header(&self) -> (res: Vec<(String, String)>)
        ensures
            pairs_view(res@) == session_headers(self.session_id),
    {
        let mut res: Vec<(String, String)> = Vec::new();
        match &self.session_id {
            Some(s) => {
                res.push((literal("Session"), s.clone()));
            },
            None => {},
        }
        assert(pairs_view(res@) =~= session_headers(self.session_id));
        res
    }

    /// Headers of OPTIONS: the credentials, if any.
    pub fn options_headers(&self) -> (res: Vec<(String, String)>)
        requires
            auth_fits(self.auth),
        ensures
            pairs_view(res@) == auth_headers(self.auth),
    {
        self.auth_header()
    }

    /// Headers of DESCRIBE: `Accept: application/sdp`, then the credentials.
    pub fn describe_headers(&self) -> (res: Vec<(String, String)>)
        requires
            auth_fits(self.auth),
        ensures
            pairs_view(res@) == seq![("Accept"@, "application/sdp"@)] + auth_headers(self.auth),
    {
        let mut res: Vec<(String, String)> = Vec::new();
        res.push((literal("Accept"), literal("application/sdp")));
        let mut auth = self.auth_header();
        let ghost a = res@;
        res.append(&mut auth);
        assert(pairs_view(res@) =~= seq![("Accept"@, "application/sdp"@)] + auth_headers(
            self.auth,
        ));
        res
    }

    /// Headers of a SETUP over TCP (interleaved channels 0-1), with the
    /// session, if any.
    pub fn setup_tcp_headers(&self) -> (res: Vec<(String, String)>)
        ensures
            pairs_view(res@) == seq![("Transport"@, "RTP/AVP/TCP;unicast;interleaved=0-1"@)]
                + session_headers(self.session_id),
    {
        let mut res: Vec<(String, String)> = Vec::new();
        res.push((literal("Transport"), literal("RTP/AVP/TCP;unicast;interleaved=0-1")));
        let mut s = self.session_header();
        res.append(&mut s);
        assert(pairs_view(res@) =~= seq![
            ("Transport"@, "RTP/AVP/TCP;unicast;interleaved=0-1"@),
        ] + session_headers(self.session_id));
        res
    }

    /// Headers of a SETUP over UDP to client ports `client_port` and the
    /// next one.
    pub fn setup_udp_headers(client_port: u16) -> (res: Vec<(String, String)>)
        requires
            client_port < u16::MAX,
        ensures
            pairs_view(res@) == seq![
                (
                    "Transport"@,
                    "RTP/AVP;unicast;client_port="@ + decimal(client_port as nat) + seq!['-']
                        + decimal((client_port + 1) as nat),
                ),
            ],
    {
        let mut value = literal("RTP/AVP;unicast;client_port=");
        push_decimal(&mut value, client_port as u64);
        push_char(&mut value, '-');
        push_decimal(&mut value, (client_port + 1) as u64);
        assert(value@ =~= "RTP/AVP;unicast;client_port="@ + decimal(client_port as nat) + seq!['-']
            + decimal((client_port + 1) as nat));
        let mut res: Vec<(String, String)> = Vec::new();
        res.push((literal("Transport"), value));
        assert(pairs_view(res@) =~= seq![
            (
                "Transport"@,
                "RTP/AVP;unicast;client_port="@ + decimal(client_port as nat) + seq!['-']
                    + decimal((client_port + 1) as nat),
            ),
        ]);
        res
    }

    /// Headers of PLAY: the session, if any.
    pub fn play_headers(&self) -> (res: Vec<(String, String)>)
        ensures
            pairs_view(res@) == session_headers(self.session_id),
    {
        self.session_header()
    }

    /// The URL a SETUP for `media` goes to.
    pub fn setup_url(&self, media: &SdpMedia) -> (res: String)
        ensures
            res@ == setup_url_spec(
                base_url_spec(self.host@, self.port, self.path@),
                control_of(media_view(*media).1),
            ),
    {
        let key = literal("control");
        let control = match media.attributes.get(&key) {
            Some(c) => c.clone(),
            None => literal("trackID=0"),
        };
        assert(control@ == control_of(media_view(*media).1));
        let cc = chars_of(control.as_str());
        if starts_with_at(cc.as_slice(), 0, cc.len(), "rtsp://") {
            assert(cc@.subrange(0, "rtsp://"@.len() as int) =~= cc@.take("rtsp://"@.len() as int));
            return control;
        }
        proof {
            if cc@.len() >= "rtsp://"@.len() {
                assert(cc@.subrange(0, "rtsp://"@.len() as int) =~= cc@.take("rtsp://"@.len() as int));
            }
        }
        let base = self.base_url();
        let bc = chars_of(base.as_str());
        let mut url = base.clone();
        if (bc.len() > 0 && bc[bc.len() - 1] == '/') || (cc.len() > 0 && cc[0] == '/') {
            push_string(&mut url, &control);
        } else {
            push_char(&mut url, '/');
            push_string(&mut url, &control);
        }
        url
    }

    /// The text of a request; advances the sequence number.
    pub fn build_request(&mut self, method: &str, url: &String, headers: &Vec<(String, String)>) -> (res: String)
        requires
            old(self).cseq < u32::MAX,
        ensures
            res@ == request_text(method@, url@, old(self).cseq, pairs_view(headers@)),
            final(self).cseq == old(self).cseq + 1,
            final(self).host == old(self).host,
            final(self).port == old(self).port,
            final(self).path == old(self).path,
            final(self).auth == old(self).auth,
            final(self).session_id == old(self).session_id,
            (seq![res@], final(self).cseq as int) == request_run(
                old(self).cseq,
                seq![(method@, url@, pairs_view(headers@))],
            ),
    {
        let mut request = String::new();
        push_str(&mut request, method);
        push_char(&mut request, ' ');
        push_string(&mut request, url);
        push_str(&mut request, " RTSP/1.0\r\n");
        push_str(&mut request, "CSeq: ");
        push_decimal(&mut request, self.cseq as u64);
        push_str(&mut request, "\r\n");
        self.cseq = self.cseq + 1;
        push_str(&mut request, "User-Agent: orb-relay/1.0\r\n");
        let ghost hs = pairs_view(headers@);
        let ghost prefix = request@;
        let mut i: usize = 0;
        assert(hs.skip(0) =~= hs);
        while i < headers.len()
            invariant
                0 <= i <= headers@.len(),
                hs == pairs_view(headers@),
                request@ + header_lines(hs.skip(i as int)) == prefix + header_lines(hs),
            decreases headers.len() - i,
        {
            let (name, value) = &headers[i];
            let ghost before = request@;
            push_string(&mut request, name);
            push_str(&mut request, ": ");
            push_string(&mut request, value);
            push_str(&mut request, "\r\n");
            proof {
                let rest = hs.skip(i as int);
                assert(rest[0] == (name@, value@));
                assert(rest.drop_first() =~= hs.skip(i + 1));
                assert(request@ + header_lines(hs.skip(i + 1)) =~= before + header_lines(rest));
            }
            i = i + 1;
        }
        proof {
            assert(hs.skip(headers@.len() as int) =~= Seq::<(Seq<char>, Seq<char>)>::empty());
        }
        push_str(&mut request, "\r\n");
        assert(request@ =~= request_text(method@, url@, old(self).cseq, hs));
        proof {
            let one = seq![(method@, url@, hs)];
            assert(one.drop_first() =~= Seq::<(Seq<char>, Seq<char>, Seq<(Seq<char>, Seq<char>)>)>::empty());
            assert(request_run(self.cseq, one.drop_first()) == (Seq::<Seq<char>>::empty(), self.cseq as int));
            assert(seq![request@] =~= seq![request@] + Seq::<Seq<char>>::empty());
        }
        request
    }

    /// Records the session of a SETUP response: the `Session` header up to
    /// its first `;`, when the header is present.
    pub fn record_session(&mut self, response: &RtspResponse)
        ensures
            final(self).host == old(self).host,
            final(self).port == old(self).port,
            final(self).path == old(self).path,
            final(self).auth == old(self).auth,
            final(self).cseq == old(self).cseq,
            response.headers@.contains_key("Session"@) ==> (final(self).session_id matches Some(s)
                && s@ == split_on(response.headers@["Session"@]@, ';')[0]),
            !response.headers@.contains_key("Session"@) ==> final(self).session_id
                == old(self).session_id,
    {
        let key = literal("Session");
        match response.headers.get(&key) {
            Some(value) => {
                let vc = chars_of(value.as_str());
                let bounds = split_bounds(vc.as_slice(), 0, vc.len(), ';');
                assert(vc@.subrange(0, vc@.len() as int) =~= value@);
                proof {
                    lemma_split_on_nonempty(value@, ';');
                }
                let (a, b) = bounds[0];
                self.session_id = Some(string_of(vc.as_slice(), a, b));
            },
            None => {},
        }
    }
}

/// `str::split` yields at least one piece.
pub proof fn lemma_split_on_nonempty(s: Seq<char>, c: char)
    ensures
        split_on(s, c).len() >= 1,
{
}

/// Succeeds on a 200 response; otherwise fails with the step and the status
/// text.
pub fn check_status(response: &RtspResponse, step: RtspStep) -> (res: Result<(), RtspError>)
    ensures
        response.status_code == 200 ==> res is Ok,
        response.status_code != 200 ==> (res matches Err(RtspError::StepFailed { step: s, status_text: t })
            && s == step && t == response.status_text),
{
    if response.status_code != 200 {
        return Err(RtspError::StepFailed { step, status_text: response.status_text.clone() });
    }
    Ok(())
}

/// The SDP of a DESCRIBE response: its body, if the status is 200.
pub fn describe_sdp(response: &RtspResponse) -> (res: Result<String, RtspError>)
    ensures
        response.status_code != 200 ==> (res matches Err(RtspError::StepFailed { step: s, status_text: t })
            && s == RtspStep::Describe && t == response.status_text),
        response.status_code == 200 ==> match response.body {
            Some(b) => res == Ok::<String, RtspError>(b),
            None => res matches Err(RtspError::NoSdpBody),
        },
{
    check_status(response, RtspStep::Describe)?;
    match &response.body {
        Some(b) => Ok(b.clone()),
        None => Err(RtspError::NoSdpBody),
    }
}

/// Position of the first video description.
pub fn video_media_index(media: &Vec<SdpMedia>) -> (res: Result<usize, RtspError>)
    ensures
        match res {
            Ok(i) => i < media@.len() && media@[i as int].media_type@ == "video"@ && forall|k: int|
                0 <= k < i ==> #[trigger] media@[k].media_type@ != "video"@,
            Err(e) => e == RtspError::NoVideoStream && forall|k: int|
                0 <= k < media@.len() ==> #[trigger] media@[k].media_type@ != "video"@,
        },
{
    let mut i: usize = 0;
    while i < media.len()
        invariant
            0 <= i <= media@.len(),
            forall|k: int| 0 <= k < i ==> #[trigger] media@[k].media_type@ != "video"@,
        decreases media.len() - i,
    {
        let t = chars_of(media[i].media_type.as_str());
        if chars_equal(t.as_slice(), 0, t.len(), "video") {
            assert(t@.subrange(0, t@.len() as int) =~= t@);
            return Ok(i);
        }
        assert(t@.subrange(0, t@.len() as int) =~= t@);
        i = i + 1;
    }
    Err(RtspError::NoVideoStream)
}

// ---------------------------------------------------------------------------
// Parameter sets (`sprop-parameter-sets` of the `fmtp` attribute)
// ---------------------------------------------------------------------------

/// The units that decode among base64 texts (each trimmed); the others are
/// skipped.
pub open spec fn decoded_units(vs: Seq<Seq<char>>) -> Seq<Seq<u8>>
    decreases vs.len(),
{
    if vs.len() == 0 {
        seq![]
    } else {
        let head = match base64_standard_decode(trim(vs[0])) {
            Some(b) => seq![b],
            None => seq![],
        };
        head + decoded_units(vs.drop_first())
    }
}

/// The units a `key=value` part of an `fmtp` attribute contributes: those of
/// its comma-separated value, when the trimmed part's key is
/// `sprop-parameter-sets`.
pub open spec fn part_units(part: Seq<char>) -> Seq<Seq<u8>> {
    let p = trim(part);
    match index_of(p, '=') {
        Some(e) => if p.take(e) == "sprop-parameter-sets"@ {
            decoded_units(split_on(p.skip(e + 1), ','))
        } else {
            seq![]
        },
        None => seq![],
    }
}

/// The units of all parts, in order.
pub open spec fn parts_units(parts: Seq<Seq<char>>) -> Seq<Seq<u8>>
    decreases parts.len(),
{
    if parts.len() == 0 {
        seq![]
    } else {
        part_units(parts[0]) + parts_units(parts.drop_first())
    }
}

/// The parameter sets of a media description: from the `;`-separated parts
/// of its `fmtp` attribute.
pub open spec fn parameter_sets_spec(attrs: Map<Seq<char>, Seq<char>>) -> Seq<Seq<u8>> {
    if attrs.contains_key("fmtp"@) {
        parts_units(split_on(attrs["fmtp"@], ';'))
    } else {
        seq![]
    }
}

/// The units of the comma-separated base64 texts in `s[lo..hi]`.
fn decode_units(s: &[char], lo: usize, hi: usize, out: &mut Vec<Vec<u8>>)
    requires
        lo <= hi <= s@.len(),
    ensures
        crate::rtp::byte_views(final(out)@) == crate::rtp::byte_views(old(out)@) + decoded_units(
            split_on(s@.subrange(lo as int, hi as int), ','),
        ),
{
    let bounds = split_bounds(s, lo, hi, ',');
    let ghost vs = split_on(s@.subrange(lo as int, hi as int), ',');
    let ghost start = crate::rtp::byte_views(out@);
    let mut k: usize = 0;
    assert(vs.skip(0) =~= vs);
    assert(start + decoded_units(vs) =~= crate::rtp::byte_views(out@) + decoded_units(vs.skip(0)));
    while k < bounds.len()
        invariant
            0 <= k <= bounds@.len(),
            bounds@.len() == vs.len(),
            forall|j: int|
                0 <= j < bounds@.len() ==> lo <= (#[trigger] bounds@[j]).0 <= bounds@[j].1 <= hi
                    && s@.subrange(bounds@[j].0 as int, bounds@[j].1 as int) == vs[j],
            start + decoded_units(vs) == crate::rtp::byte_views(out@) + decoded_units(vs.skip(k as int)),
            hi <= s@.len(),
        decreases bounds.len() - k,
    {
        let (a, b) = bounds[k];
        let (ta, tb) = trim_bounds(s, a, b);
        let text = string_of(s, ta, tb);
        let ghost before = crate::rtp::byte_views(out@);
        proof {
            let rest = vs.skip(k as int);
            assert(rest[0] == vs[k as int]);
            assert(rest.drop_first() =~= vs.skip(k + 1));
        }
        match base64_decode(text.as_str()) {
            Some(nal) => {
                out.push(nal);
                assert(crate::rtp::byte_views(out@) =~= before.push(nal@));
                assert(before.push(nal@) + decoded_units(vs.skip(k + 1)) =~= before + decoded_units(vs.skip(k as int)));
            },
            None => {
                assert(before + decoded_units(vs.skip(k + 1)) =~= before + decoded_units(vs.skip(k as int)));
            },
        }
        k = k + 1;
    }
    assert(vs.skip(bounds@.len() as int) =~= Seq::<Seq<char>>::empty());
    assert(crate::rtp::byte_views(out@) + decoded_units(Seq::<Seq<char>>::empty()) =~= crate::rtp::byte_views(out@));
}

/// The parameter sets (SPS, PPS) a media description carries in its
/// `fmtp` attribute, decoded; texts that do not decode are skipped.
pub fn parameter_sets(media: &SdpMedia) -> (res: Vec<Vec<u8>>)
    ensures
        crate::rtp::byte_views(res@) == parameter_sets_spec(media_view(*media).1),
{
    let mut out: Vec<Vec<u8>> = Vec::new();
    let key = literal("fmtp");
    let fmtp = match media.attributes.get(&key) {
        Some(f) => f,
        None => {
            assert(crate::rtp::byte_views(out@) =~= Seq::<Seq<u8>>::empty());
            return out;
        },
    };
    let fc = chars_of(fmtp.as_str());
    let n = fc.len();
    assert(fc@.subrange(0, n as int) =~= fc@);
    let parts = split_bounds(fc.as_slice(), 0, n, ';');
    let ghost ps = split_on(fc@, ';');
    let mut k: usize = 0;
    assert(ps.skip(0) =~= ps);
    assert(crate::rtp::byte_views(out@) =~= Seq::<Seq<u8>>::empty());
    assert(parts_units(ps) =~= crate::rtp::byte_views(out@) + parts_units(ps.skip(0)));
    while k < parts.len()
        invariant
            0 <= k <= parts@.len(),
            parts@.len() == ps.len(),
            n == fc@.len(),
            forall|j: int|
                0 <= j < parts@.len() ==> 0 <= (#[trigger] parts@[j]).0 <= parts@[j].1 <= n
                    && fc@.subrange(parts@[j].0 as int, parts@[j].1 as int) == ps[j],
            parts_units(ps) == crate::rtp::byte_views(out@) + parts_units(ps.skip(k as int)),
        decreases parts.len() - k,
    {
        let (a, b) = parts[k];
        let (ta, tb) = trim_bounds(fc.as_slice(), a, b);
        let ghost p = trim(ps[k as int]);
        assert(fc@.subrange(ta as int, tb as int) == p);
        let ghost before = crate::rtp::byte_views(out@);
        proof {
            let rest = ps.skip(k as int);
            assert(rest[0] == ps[k as int]);
            assert(rest.drop_first() =~= ps.skip(k + 1));
        }
        match find_char(fc.as_slice(), '=', ta, tb) {
            Some(e) => {
                assert(p.take(e - ta) =~= fc@.subrange(ta as int, e as int));
                assert(p.skip(e - ta + 1) =~= fc@.subrange(e + 1, tb as int));
                if chars_equal(fc.as_slice(), ta, e, "sprop-parameter-sets") {
                    decode_units(fc.as_slice(), e + 1, tb, &mut out);
                    assert(crate::rtp::byte_views(out@) + parts_units(ps.skip(k + 1)) =~= before + parts_units(ps.skip(k as int)));
                } else {
                    assert(before + parts_units(ps.skip(k + 1)) =~= before + parts_units(ps.skip(k as int)));
                }
            },
            None => {
                assert(before + parts_units(ps.skip(k + 1)) =~= before + parts_units(ps.skip(k as int)));
            },
        }
        k = k + 1;
    }
    assert(ps.skip(parts@.len() as int) =~= Seq::<Seq<char>>::empty());
    assert(crate::rtp::byte_views(out@) + parts_units(Seq::<Seq<char>>::empty()) =~= crate::rtp::byte_views(out@));
    out
}

/// The ports a SETUP gives: interleaved channels 0 and 1 (reported as
/// ports 0 and 1) over TCP, or the client port pair over UDP.
pub fn setup_ports(udp_client_port: Option<u16>) -> (res: (u16, u16))
    requires
        udp_client_port matches Some(p) ==> p < u16::MAX,
    ensures
        match udp_client_port {
            Some(p) => res == (p, (p + 1) as u16),
            None => res == (0u16, 1u16),
        },
{
    match udp_client_port {
        Some(p) => (p, p + 1),
        None => (0, 1),
    }
}

/// The texts of successive requests from a client whose next sequence
/// number is `cseq`, each request given by its method, URL and headers, as
/// [`RtspClient::build_request`] builds them one call after the other; and
/// the sequence number afterwards.
pub open spec fn request_run(
    cseq: u32,
    reqs: Seq<(Seq<char>, Seq<char>, Seq<(Seq<char>, Seq<char>)>)>,
) -> (Seq<Seq<char>>, int)
    decreases reqs.len(),
{
    if reqs.len() == 0 {
        (seq![], cseq as int)
    } else {
        let r = reqs[0];
        let (rest, next) = request_run((cseq + 1) as u32, reqs.drop_first());
        (seq![request_text(r.0, r.1, cseq, r.2)] + rest, next)
    }
}

/// Sequence numbering: the requests a client sends carry consecutive
/// sequence numbers, the first its current one; from a new client (whose
/// number is 1) they carry CSeq 1, 2, 3, and so on. Stated while the
/// numbers fit in `u32`, beyond which the counter would overflow.
pub proof fn lemma_cseq_consecutive(
    cseq: u32,
    reqs: Seq<(Seq<char>, Seq<char>, Seq<(Seq<char>, Seq<char>)>)>,
)
    requires
        cseq as int + reqs.len() <= u32::MAX,
    ensures
        request_run(cseq, reqs).1 == cseq as int + reqs.len(),
        request_run(cseq, reqs).0.len() == reqs.len(),
        forall|i: int|
            0 <= i < reqs.len() ==> #[trigger] request_run(cseq, reqs).0[i] == request_text(
                reqs[i].0,
                reqs[i].1,
                (cseq + i) as u32,
                reqs[i].2,
            ),
    decreases reqs.len(),
{
    if reqs.len() > 0 {
        let rest = reqs.drop_first();
        lemma_cseq_consecutive((cseq + 1) as u32, rest);
        let (texts, _) = request_run((cseq + 1) as u32, rest);
        assert forall|i: int| 0 <= i < reqs.len() implies #[trigger] request_run(cseq, reqs).0[i]
            == request_text(reqs[i].0, reqs[i].1, (cseq + i) as u32, reqs[i].2) by {
            if i > 0 {
                assert(rest[i - 1] == reqs[i]);
                assert(request_run(cseq, reqs).0[i] == texts[i - 1]);
                assert(((cseq + 1) as u32 + (i - 1)) as u32 == (cseq + i) as u32);
            }
        }
    }
}

} // verus!
