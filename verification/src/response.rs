//! The response builder and response serialization.
//!
//! Building a response is split into a planning step and an assembly
//! step so that the filesystem effect between them stays outside the
//! engine: [`ResponseMessage::plan_response`] decides, from the
//! request and the route table, which single filesystem action is
//! called for; the surrounding application performs it; and
//! [`ResponseMessage::build_response`] turns the action's outcome
//! into the response, fixing the status code, headers and body for
//! every possible outcome.

use vstd::prelude::*;
use vstd::string::StringExecFns;
use vstd::utf8::encode_utf8;

use crate::header::Header;
use crate::header::HeaderKind;
use crate::header::SpecHeader;
use crate::header::spec_header_wire;
use crate::method::HTTPMethod;
use crate::protocol::HTTPProtocol;
use crate::protocol::spec_protocol_name;
use crate::request::GRequest;
use crate::request::RequestMessage;
use crate::route::Route;
use crate::router::Router;
use crate::status::StatusCodeEnum;
use crate::status::spec_status_phrase;
use crate::text::dec_rep;
use crate::text::usize_to_string;

verus! {

/// The failure value of response generation: the request asked for an
/// effect it did not supply the data for (a PUT without a body).
#[derive(Debug, Clone, Copy, PartialEq, Eq, Structural)]
pub struct RequestGenerationError;

/// The single filesystem action a request calls for. The path of a
/// request whose route is unbound resolves to the sentinel
/// `INVALID PATH`, which no real file matches, so the action then
/// fails and the response reports it.
pub enum FsPlan {
    /// Read the file at the path (a GET).
    Read(String),
    /// Write the second string to the file at the first (a PUT).
    Write(String, String),
    /// No filesystem action (any other method).
    NoEffect,
}

/// The mathematical value of an [`FsPlan`].
pub ghost enum GPlan {
    Read(Seq<char>),
    Write(Seq<char>, Seq<char>),
    NoEffect,
}

impl View for FsPlan {
    type V = GPlan;

    open spec fn view(&self) -> GPlan {
        match self {
            FsPlan::Read(p) => GPlan::Read(p@),
            FsPlan::Write(p, b) => GPlan::Write(p@, b@),
            FsPlan::NoEffect => GPlan::NoEffect,
        }
    }
}

/// What came back from the planned filesystem action.
pub enum FsOutcome {
    /// A read: the file's contents, or `None` where resolution or the
    /// read failed.
    Read(Option<String>),
    /// A write: whether the target existed beforehand (`None` where
    /// even that probe failed), and whether the write succeeded.
    Write(Option<bool>, bool),
    /// Nothing was done.
    NoEffect,
}

/// The mathematical value of an [`FsOutcome`].
pub ghost enum GOutcome {
    Read(Option<Seq<char>>),
    Write(Option<bool>, bool),
    NoEffect,
}

impl View for FsOutcome {
    type V = GOutcome;

    open spec fn view(&self) -> GOutcome {
        match self {
            FsOutcome::Read(Some(c)) => GOutcome::Read(Some(c@)),
            FsOutcome::Read(None) => GOutcome::Read(None),
            FsOutcome::Write(e, ok) => GOutcome::Write(*e, *ok),
            FsOutcome::NoEffect => GOutcome::NoEffect,
        }
    }
}

/// The status line of a response: the protocol, then the status.
#[derive(Debug, Clone, Copy)]
pub struct StatusLine {
    protocol: HTTPProtocol,
    status_code: StatusCodeEnum,
}

/// The mathematical value of a [`StatusLine`].
pub ghost struct GStatusLine {
    pub protocol: HTTPProtocol,
    pub code: StatusCodeEnum,
}

impl View for StatusLine {
    type V = GStatusLine;

    closed spec fn view(&self) -> GStatusLine {
        GStatusLine { protocol: self.protocol, code: self.status_code }
    }
}

impl StatusLine {
    pub fn init(protocol: HTTPProtocol, status_code: StatusCodeEnum) -> (r: Self)
        ensures
            r@ == (GStatusLine { protocol, code: status_code }),
    {
        Self { protocol, status_code }
    }

    pub fn status_code(&self) -> (r: StatusCodeEnum)
        ensures
            r == self@.code,
    {
        self.status_code
    }

    pub fn protocol(&self) -> (r: HTTPProtocol)
        ensures
            r == self@.protocol,
    {
        self.protocol
    }
}

/// The mathematical value of a [`ResponseMessage`].
pub ghost struct GResponse {
    pub status: GStatusLine,
    pub headers: Seq<SpecHeader>,
    pub body: Option<Seq<char>>,
}

/// A response message: status line, headers in insertion order, and
/// an optional body.
#[derive(Debug)]
pub struct ResponseMessage {
    status_line: StatusLine,
    headers_table: Vec<Header>,
    body: Option<String>,
}

impl View for ResponseMessage {
    type V = GResponse;

    closed spec fn view(&self) -> GResponse {
        GResponse {
            status: self.status_line@,
            headers: self.headers_table@.map_values(|h: Header| h@),
            body: match &self.body {
                Some(b) => Some(b@),
                None => None,
            },
        }
    }
}

/// What a request asks the filesystem for, given the route table:
/// a GET reads its resolved path, a PUT writes its body to its
/// resolved path and must carry a body, and any other method does
/// nothing. An unbound route resolves to the sentinel `INVALID PATH`.
pub open spec fn spec_plan(req: GRequest, table: Map<(HTTPMethod, Seq<char>), Seq<char>>) -> Result<
    GPlan,
    (),
> {
    let key = (req.control.method, req.control.path);
    let resolved = if table.contains_key(key) {
        table[key]
    } else {
        "INVALID PATH"@
    };
    match req.control.method {
        HTTPMethod::GET => Ok(GPlan::Read(resolved)),
        HTTPMethod::PUT => match req.body {
            Some(b) => Ok(GPlan::Write(resolved, b)),
            None => Err(()),
        },
        _ => Ok(GPlan::NoEffect),
    }
}

/// The content headers a successful GET response carries for a body
/// of `n` bytes.
pub open spec fn spec_get_headers(n: nat) -> Seq<SpecHeader> {
    seq![
        SpecHeader { kind: HeaderKind::ContentType, value: "text/html; charset=utf-8"@ },
        SpecHeader { kind: HeaderKind::ContentDisposition, value: "inline"@ },
        SpecHeader { kind: HeaderKind::ContentLength, value: dec_rep(n) },
    ]
}

/// The response each outcome determines:
/// - a successful read: 200, the file as body, with Content-Type,
///   Content-Disposition and a Content-Length equal to the body's
///   byte length;
/// - a failed read (or no route): 400, no body, no headers;
/// - a write over an existing file: 200 on success, 500 on failure;
/// - a write creating a new file: 201 on success, 501 on failure;
/// - a write whose existence probe failed: 500;
/// - no action (a method the engine does not implement): 501.
pub open spec fn spec_build(protocol: HTTPProtocol, outcome: GOutcome) -> GResponse {
    match outcome {
        GOutcome::Read(Some(content)) => GResponse {
            status: GStatusLine { protocol, code: StatusCodeEnum::Code200 },
            headers: spec_get_headers(encode_utf8(content).len()),
            body: Some(content),
        },
        GOutcome::Read(None) => GResponse {
            status: GStatusLine { protocol, code: StatusCodeEnum::Code400 },
            headers: Seq::empty(),
            body: None,
        },
        GOutcome::Write(Some(true), true) => GResponse {
            status: GStatusLine { protocol, code: StatusCodeEnum::Code200 },
            headers: Seq::empty(),
            body: None,
        },
        GOutcome::Write(Some(true), false) => GResponse {
            status: GStatusLine { protocol, code: StatusCodeEnum::Code500 },
            headers: Seq::empty(),
            body: None,
        },
        GOutcome::Write(Some(false), true) => GResponse {
            status: GStatusLine { protocol, code: StatusCodeEnum::Code201 },
            headers: Seq::empty(),
            body: None,
        },
        GOutcome::Write(Some(false), false) => GResponse {
            status: GStatusLine { protocol, code: StatusCodeEnum::Code501 },
            headers: Seq::empty(),
            body: None,
        },
        GOutcome::Write(None, _) => GResponse {
            status: GStatusLine { protocol, code: StatusCodeEnum::Code500 },
            headers: Seq::empty(),
            body: None,
        },
        GOutcome::NoEffect => GResponse {
            status: GStatusLine { protocol, code: StatusCodeEnum::Code501 },
            headers: Seq::empty(),
            body: None,
        },
    }
}

/// The headers section of the wire form: each header line followed by
/// its terminator.
pub open spec fn spec_serialize_headers(hs: Seq<SpecHeader>) -> Seq<char>
    decreases hs.len(),
{
    if hs.len() == 0 {
        Seq::empty()
    } else {
        spec_header_wire(hs[0]) + "\r\n"@ + spec_serialize_headers(hs.drop_first())
    }
}

/// Serializing headers distributes over concatenation.
pub proof fn lemma_serialize_headers_append(a: Seq<SpecHeader>, b: Seq<SpecHeader>)
    ensures
        spec_serialize_headers(a + b) =~= spec_serialize_headers(a) + spec_serialize_headers(b),
    decreases a.len(),
{
    if a.len() == 0 {
        assert(a + b =~= b);
    } else {
        assert((a + b).drop_first() =~= a.drop_first() + b);
        assert((a + b)[0] == a[0]);
        lemma_serialize_headers_append(a.drop_first(), b);
    }
}

/// The wire form of a response: the status line (protocol before the
/// numeric code — this engine's chosen wire order, which deviates
/// from the standard status line), the header lines, a blank line,
/// then the body verbatim and a final terminator.
pub open spec fn spec_serialize_response(r: GResponse) -> Seq<char> {
    spec_protocol_name(r.status.protocol) + " "@ + spec_status_phrase(r.status.code) + "\r\n"@
        + spec_serialize_headers(r.headers) + "\r\n"@ + (match r.body {
        Some(b) => b,
        None => Seq::empty(),
    }) + "\r\n"@
}

impl ResponseMessage {
    /// Decide the filesystem action a request calls for. A PUT with
    /// no body is the one caller error: it yields
    /// `RequestGenerationError` instead of an action.
    pub fn plan_response(request: &RequestMessage, router: &Router) -> (r: Result<
        FsPlan,
        RequestGenerationError,
    >)
        requires
            router.wf(),
        ensures
            match r {
                Ok(p) => spec_plan(request@, router@) == Ok::<_, ()>(p@),
                Err(_) => spec_plan(request@, router@) is Err,
            },
    {
        let method = request.get_control_line().get_method();
        let path = request.get_control_line().get_path().to_owned();
        let resolved: String = match router.get_abs_path(Route(method, path)) {
            Some(p) => p.to_owned(),
            None => String::from_str("INVALID PATH"),
        };
        match method {
            HTTPMethod::GET => Ok(FsPlan::Read(resolved)),
            HTTPMethod::PUT => match request.get_body() {
                Some(b) => Ok(FsPlan::Write(resolved, b.to_owned())),
                None => Err(RequestGenerationError),
            },
            _ => Ok(FsPlan::NoEffect),
        }
    }

    /// Assemble the response an outcome determines (see
    /// [`spec_build`] for the full decision table).
    pub fn build_response(protocol: HTTPProtocol, outcome: FsOutcome) -> (r: ResponseMessage)
        ensures
            r@ == spec_build(protocol, outcome@),
    {
        match outcome {
            FsOutcome::Read(Some(file)) => {
                let blen = file.as_str().as_bytes().len();
                let mut headers_table: Vec<Header> = Vec::new();
                headers_table.push(
                    Header::ContentType(String::from_str("text/html; charset=utf-8")),
                );
                headers_table.push(Header::ContentDisposition(String::from_str("inline")));
                headers_table.push(Header::ContentLength(usize_to_string(blen)));
                let r = ResponseMessage {
                    status_line: StatusLine::init(protocol, StatusCodeEnum::Code200),
                    headers_table,
                    body: Some(file),
                };
                proof {
                    assert(r@.headers =~= spec_get_headers(encode_utf8(r@.body->Some_0).len()));
                }
                r
            },
            FsOutcome::Read(None) => Self::plain_status(protocol, StatusCodeEnum::Code400),
            FsOutcome::Write(Some(true), true) => Self::plain_status(
                protocol,
                StatusCodeEnum::Code200,
            ),
            FsOutcome::Write(Some(true), false) => Self::plain_status(
                protocol,
                StatusCodeEnum::Code500,
            ),
            FsOutcome::Write(Some(false), true) => Self::plain_status(
                protocol,
                StatusCodeEnum::Code201,
            ),
            FsOutcome::Write(Some(false), false) => Self::plain_status(
                protocol,
                StatusCodeEnum::Code501,
            ),
            FsOutcome::Write(None, _) => Self::plain_status(protocol, StatusCodeEnum::Code500),
            FsOutcome::NoEffect => Self::plain_status(protocol, StatusCodeEnum::Code501),
        }
    }

    /// A response with the given status and neither headers nor body.
    fn plain_status(protocol: HTTPProtocol, code: StatusCodeEnum) -> (r: ResponseMessage)
        ensures
            r@ == (GResponse {
                status: GStatusLine { protocol, code },
                headers: Seq::empty(),
                body: None,
            }),
    {
        let r = ResponseMessage {
            status_line: StatusLine::init(protocol, code),
            headers_table: Vec::new(),
            body: None,
        };
        proof {
            assert(r@.headers =~= Seq::<SpecHeader>::empty());
        }
        r
    }

    pub fn status_line(&self) -> (r: &StatusLine)
        ensures
            r@ == self@.status,
    {
        &self.status_line
    }

    pub fn headers(&self) -> (r: &Vec<Header>)
        ensures
            r@.map_values(|h: Header| h@) == self@.headers,
    {
        &self.headers_table
    }

    pub fn body(&self) -> (r: Option<&str>)
        ensures
            match r {
                Some(b) => self@.body matches Some(bb) && b@ == bb,
                None => self@.body is None,
            },
    {
        match &self.body {
            Some(b) => Some(b.as_str()),
            None => None,
        }
    }

    /// Serialize the response into its wire form.
    pub fn serialize(&self) -> (r: String)
        ensures
            r@ == spec_serialize_response(self@),
    {
        let mut out = self.status_line.protocol.name();
        out.append(" ");
        let phrase = self.status_line.status_code.phrase();
        out.append(phrase.as_str());
        out.append("\r\n");

        let ghost hv = self@.headers;
        let n = self.headers_table.len();
        let ghost pre = out@;
        let mut i: usize = 0;
        #[verifier::loop_isolation(false)]
        while i < n
            invariant
                0 <= i <= n,
                n == hv.len(),
                out@ == pre + spec_serialize_headers(hv.take(i as int)),
            decreases n - i,
        {
            proof {
                assert(hv[i as int] == self.headers_table@[i as int]@);
            }
            let line = self.headers_table[i].wire_string();
            out.append(line.as_str());
            out.append("\r\n");
            proof {
                assert(hv.take(i + 1) =~= hv.take(i as int) + seq![hv[i as int]]);
                lemma_serialize_headers_append(hv.take(i as int), seq![hv[i as int]]);
                let single = seq![hv[i as int]];
                assert(single.drop_first() =~= Seq::<SpecHeader>::empty());
                assert(spec_serialize_headers(single.drop_first()) =~= Seq::<char>::empty());
                assert(spec_serialize_headers(single) =~= spec_header_wire(hv[i as int])
                    + "\r\n"@);
                assert(out@ =~= pre + spec_serialize_headers(hv.take(i + 1)));
            }
            i = i + 1;
        }
        proof {
            assert(hv.take(n as int) =~= hv);
        }

        out.append("\r\n");
        match &self.body {
            Some(b) => out.append(b.as_str()),
            None => {},
        }
        out.append("\r\n");
        proof {
            assert(out@ =~= spec_serialize_response(self@));
        }
        out
    }
}

} // verus!
