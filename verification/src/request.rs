//! Request-message parsing: split a raw byte buffer into control
//! line, header table and optional body.
//!
//! The grammar is fixed-delimiter: the head and the body are separated
//! by the first blank line (`\r\n\r\n`), the head splits on `\r\n`
//! into the control line and header lines, the control line splits on
//! single spaces into method, target and protocol, and each header
//! line splits once on `": "` into a name and a value. Unrecognized
//! method tokens leave the method unset, unrecognized protocol tokens
//! leave the protocol at its initial HTTP/1.1, and unrecognized header
//! names are dropped: a deliberate leniency toward unknown
//! extensions.

use vstd::prelude::*;
use vstd::string::StrSliceExecFns;
use vstd::string::StringSliceAdditionalSpecFns;
use vstd::utf8::decode_utf8;
use vstd::utf8::encode_utf8_decode_utf8;
use vstd::utf8::valid_utf8;

use crate::header::Header;
use crate::header::HeaderTable;
use crate::header::SpecHeader;
use crate::header::spec_table_insert;
use crate::header::table_wf;
use crate::method::HTTPMethod;
use crate::protocol::HTTPProtocol;
use crate::text::split_all;
use crate::text::split_once_at;
use crate::text::split_once_str;
use crate::text::split_str;
use crate::text::str_eq;
use crate::text::trim_both;
use crate::text::trim_char;

verus! {

/// The parse failure value: the buffer held no parsable request. It
/// carries no further detail.
#[derive(Debug, Clone, Copy, PartialEq, Eq, Structural)]
pub struct MessageParseError;

/// The mathematical value of a [`ControlData`].
pub ghost struct GControl {
    pub method: HTTPMethod,
    pub path: Seq<char>,
    pub protocol: HTTPProtocol,
}

/// The mathematical value of a [`RequestMessage`].
pub ghost struct GRequest {
    pub control: GControl,
    pub headers: Option<Seq<SpecHeader>>,
    pub body: Option<Seq<char>>,
}

/// The method a control-line token names; unrecognized tokens map to
/// the unset method.
pub open spec fn spec_method_of(s: Seq<char>) -> HTTPMethod {
    if s == "GET"@ {
        HTTPMethod::GET
    } else if s == "POST"@ {
        HTTPMethod::POST
    } else if s == "HEAD"@ {
        HTTPMethod::HEAD
    } else if s == "PUT"@ {
        HTTPMethod::PUT
    } else if s == "DELETE"@ {
        HTTPMethod::DELETE
    } else if s == "CONNECT"@ {
        HTTPMethod::CONNECT
    } else if s == "OPTIONS"@ {
        HTTPMethod::OPTIONS
    } else if s == "TRACE"@ {
        HTTPMethod::TRACE
    } else if s == "PATCH"@ {
        HTTPMethod::PATCH
    } else {
        HTTPMethod::EMPTY
    }
}

/// The header a header line denotes: the line splits once on `": "`,
/// and the name must be one of the known request header names. A line
/// without the separator, or with an unknown name, denotes no header
/// and is dropped.
pub open spec fn spec_header_entry(line: Seq<char>) -> Option<SpecHeader> {
    match split_once_at(line, ": "@) {
        None => None,
        Some(pair) => {
            let name = pair.0;
            let value = pair.1;
            if name == "User-Agent"@ {
                Some(SpecHeader { kind: crate::header::HeaderKind::UserAgent, value })
            } else if name == "Content-Type"@ {
                Some(SpecHeader { kind: crate::header::HeaderKind::ContentType, value })
            } else if name == "Content-Length"@ {
                Some(SpecHeader { kind: crate::header::HeaderKind::ContentLength, value })
            } else if name == "Host"@ {
                Some(SpecHeader { kind: crate::header::HeaderKind::Host, value })
            } else if name == "Accept"@ {
                Some(SpecHeader { kind: crate::header::HeaderKind::Accept, value })
            } else if name == "Accept-Language"@ {
                Some(SpecHeader { kind: crate::header::HeaderKind::AcceptLanguage, value })
            } else if name == "Accept-Encoding"@ {
                Some(SpecHeader { kind: crate::header::HeaderKind::AcceptEncoding, value })
            } else if name == "Referer"@ {
                Some(SpecHeader { kind: crate::header::HeaderKind::Referer, value })
            } else if name == "Content-Disposition"@ {
                Some(SpecHeader { kind: crate::header::HeaderKind::ContentDisposition, value })
            } else {
                None
            }
        },
    }
}

/// Fold the header lines `lines[i..]` into the table `t`, inserting
/// each recognized header by kind.
pub open spec fn spec_fold_headers(t: Seq<SpecHeader>, lines: Seq<Seq<char>>, i: int) -> Seq<
    SpecHeader,
>
    decreases lines.len() - i
    when 0 <= i
{
    if i >= lines.len() {
        t
    } else {
        let t2 = match spec_header_entry(lines[i]) {
            Some(h) => spec_table_insert(t, h),
            None => t,
        };
        spec_fold_headers(t2, lines, i + 1)
    }
}

/// The request denoted by the character buffer `s` (already decoded,
/// not yet trimmed of NUL padding), or a parse failure: the trimmed
/// buffer is empty, or the control line has fewer than three
/// space-separated fields.
pub open spec fn spec_parse_chars(s: Seq<char>) -> Result<GRequest, ()> {
    let trimmed = trim_both(s, '\0');
    if trimmed.len() == 0 {
        Err(())
    } else {
        let head = match split_once_at(trimmed, "\r\n\r\n"@) {
            Some(pair) => pair.0,
            None => trimmed,
        };
        let body_opt = match split_once_at(trimmed, "\r\n\r\n"@) {
            Some(pair) => Some(pair.1),
            None => None,
        };
        let lines = split_all(head, "\r\n"@);
        let fields = split_all(lines[0], " "@);
        if fields.len() < 3 {
            Err(())
        } else {
            let headers = spec_fold_headers(Seq::empty(), lines, 1);
            Ok(
                GRequest {
                    control: GControl {
                        method: spec_method_of(fields[0]),
                        path: fields[1],
                        protocol: HTTPProtocol::Http1_1,
                    },
                    headers: if headers.len() > 0 {
                        Some(headers)
                    } else {
                        None
                    },
                    body: match body_opt {
                        Some(b) => if b.len() > 0 {
                            Some(b)
                        } else {
                            None
                        },
                        None => None,
                    },
                },
            )
        }
    }
}

/// The request denoted by a raw byte buffer: bytes that are not valid
/// UTF-8 are a parse failure; otherwise the decoded characters are
/// parsed by [`spec_parse_chars`].
pub open spec fn spec_parse_request(bytes: Seq<u8>) -> Result<GRequest, ()> {
    if valid_utf8(bytes) {
        spec_parse_chars(decode_utf8(bytes))
    } else {
        Err(())
    }
}

/// The control data of a request: method, target path, protocol.
#[derive(Debug, Clone)]
pub struct ControlData {
    method: HTTPMethod,
    path: String,
    protocol: HTTPProtocol,
}

impl View for ControlData {
    type V = GControl;

    closed spec fn view(&self) -> GControl {
        GControl { method: self.method, path: self.path@, protocol: self.protocol }
    }
}

impl ControlData {
    pub fn get_method(&self) -> (r: HTTPMethod)
        ensures
            r == self@.method,
    {
        self.method
    }

    pub fn get_path(&self) -> (r: &str)
        ensures
            r@ == self@.path,
    {
        self.path.as_str()
    }

    pub fn get_protocol(&self) -> (r: HTTPProtocol)
        ensures
            r == self@.protocol,
    {
        self.protocol
    }
}

/// A parsed request message: control data, an optional header table,
/// and an optional body.
#[derive(Debug, Clone)]
pub struct RequestMessage {
    control_data: ControlData,
    headers_table: Option<HeaderTable>,
    message: Option<String>,
}

impl View for RequestMessage {
    type V = GRequest;

    closed spec fn view(&self) -> GRequest {
        GRequest {
            control: self.control_data@,
            headers: match &self.headers_table {
                Some(t) => Some(t@),
                None => None,
            },
            body: match &self.message {
                Some(b) => Some(b@),
                None => None,
            },
        }
    }
}

/// Relies on core::str::from_utf8: it succeeds exactly on valid UTF-8
/// input and returns the string whose encoding is those bytes.
#[verifier::external_body]
fn bytes_to_str(v: &[u8]) -> (r: Option<&str>)
    ensures
        r is Some <==> valid_utf8(v@),
        r matches Some(s) ==> s.spec_bytes() == v@,
{
    match core::str::from_utf8(v) {
        Ok(s) => Some(s),
        Err(_) => None,
    }
}

/// The method named by a control-line token.
fn method_of_str(s: &str) -> (r: HTTPMethod)
    ensures
        r == spec_method_of(s@),
{
    if str_eq(s, "GET") {
        HTTPMethod::GET
    } else if str_eq(s, "POST") {
        HTTPMethod::POST
    } else if str_eq(s, "HEAD") {
        HTTPMethod::HEAD
    } else if str_eq(s, "PUT") {
        HTTPMethod::PUT
    } else if str_eq(s, "DELETE") {
        HTTPMethod::DELETE
    } else if str_eq(s, "CONNECT") {
        HTTPMethod::CONNECT
    } else if str_eq(s, "OPTIONS") {
        HTTPMethod::OPTIONS
    } else if str_eq(s, "TRACE") {
        HTTPMethod::TRACE
    } else if str_eq(s, "PATCH") {
        HTTPMethod::PATCH
    } else {
        HTTPMethod::EMPTY
    }
}

/// The header a header line denotes, if its name is recognized.
fn header_entry(line: &str) -> (r: Option<Header>)
    ensures
        match r {
            Some(h) => spec_header_entry(line@) == Some(h@),
            None => spec_header_entry(line@) is None,
        },
{
    proof {
        reveal_strlit(": ");
    }
    match split_once_str(line, ": ") {
        None => None,
        Some((name, value)) => {
            if str_eq(name.as_str(), "User-Agent") {
                Some(Header::UserAgent(value))
            } else if str_eq(name.as_str(), "Content-Type") {
                Some(Header::ContentType(value))
            } else if str_eq(name.as_str(), "Content-Length") {
                Some(Header::ContentLength(value))
            } else if str_eq(name.as_str(), "Host") {
                Some(Header::Host(value))
            } else if str_eq(name.as_str(), "Accept") {
                Some(Header::Accept(value))
            } else if str_eq(name.as_str(), "Accept-Language") {
                Some(Header::AcceptLanguage(value))
            } else if str_eq(name.as_str(), "Accept-Encoding") {
                Some(Header::AcceptEncoding(value))
            } else if str_eq(name.as_str(), "Referer") {
                Some(Header::Referer(value))
            } else if str_eq(name.as_str(), "Content-Disposition") {
                Some(Header::ContentDisposition(value))
            } else {
                None
            }
        },
    }
}

impl RequestMessage {
    /// Parse a raw byte buffer (possibly NUL-padded) into a request
    /// message. Fails on bytes that are not valid UTF-8, on an empty
    /// buffer after trimming, and on a control line with fewer than
    /// three space-separated fields; never panics.
    pub fn parse_request(request: &[u8]) -> (r: Result<Self, MessageParseError>)
        ensures
            match r {
                Ok(m) => spec_parse_request(request@) == Ok::<_, ()>(m@),
                Err(_) => spec_parse_request(request@) is Err,
            },
    {
        let s = match bytes_to_str(request) {
            Some(s) => s,
            None => {
                return Err(MessageParseError);
            },
        };
        proof {
            encode_utf8_decode_utf8(s@);
        }
        let trimmed = trim_char(s, '\0');
        if trimmed.as_str().unicode_len() == 0 {
            return Err(MessageParseError);
        }

        proof {
            reveal_strlit("\r\n\r\n");
            reveal_strlit("\r\n");
            reveal_strlit(" ");
        }
        let (head, body_opt): (String, Option<String>) = match split_once_str(
            trimmed.as_str(),
            "\r\n\r\n",
        ) {
            Some((h, b)) => (h, Some(b)),
            None => (trimmed, None),
        };

        let lines: Vec<String> = split_str(head.as_str(), "\r\n");
        proof {
            assert(lines.deep_view().len() >= 1);
            assert(lines.deep_view()[0] == lines@[0]@);
        }
        let fields: Vec<String> = split_str(lines[0].as_str(), " ");
        if fields.len() < 3 {
            return Err(MessageParseError);
        }
        proof {
            assert(fields.deep_view()[0] == fields@[0]@);
            assert(fields.deep_view()[1] == fields@[1]@);
        }

        let method = method_of_str(fields[0].as_str());
        let path = fields[1].clone();
        let protocol = HTTPProtocol::Http1_1;

        let ghost lv = lines.deep_view();
        let mut table = HeaderTable::new();
        let n = lines.len();
        let mut i: usize = 1;
        #[verifier::loop_isolation(false)]
        while i < n
            invariant
                1 <= i <= n,
                n == lv.len(),
                table_wf(table@),
                spec_fold_headers(table@, lv, i as int) == spec_fold_headers(
                    Seq::empty(),
                    lv,
                    1,
                ),
            decreases n - i,
        {
            proof {
                assert(lv[i as int] == lines@[i as int]@);
            }
            match header_entry(lines[i].as_str()) {
                Some(h) => {
                    table.insert(h);
                },
                None => {},
            }
            i = i + 1;
        }

        let headers_table = if table.len() > 0 {
            Some(table)
        } else {
            None
        };
        let message = match body_opt {
            Some(b) => {
                if b.as_str().unicode_len() > 0 {
                    Some(b)
                } else {
                    None
                }
            },
            None => None,
        };

        Ok(Self { control_data: ControlData { method, path, protocol }, headers_table, message })
    }

    pub fn get_control_line(&self) -> (r: &ControlData)
        ensures
            r@ == self@.control,
    {
        &self.control_data
    }

    pub fn get_body(&self) -> (r: Option<&str>)
        ensures
            match r {
                Some(b) => self@.body matches Some(bb) && b@ == bb,
                None => self@.body is None,
            },
    {
        if let Some(body) = &self.message {
            Some(body.as_str())
        } else {
            None
        }
    }

    pub fn get_headers_table(&self) -> (r: Option<&HeaderTable>)
        ensures
            match r {
                Some(t) => self@.headers matches Some(tt) && t@ == tt,
                None => self@.headers is None,
            },
    {
        match &self.headers_table {
            Some(t) => Some(&t),
            None => None,
        }
    }
}

} // verus!
