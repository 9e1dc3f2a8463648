//! Absolute-URI parsing on top of the tokenizer: folds the token
//! stream into a typed [`Uri`] value with scheme, host, port and
//! query, applying the default-port policy when no port token exists.

use vstd::prelude::*;
use vstd::string::StrSliceExecFns;

use crate::text::str_eq;
use crate::tokenizer::GTok;
use crate::tokenizer::InvalidToken;
use crate::tokenizer::Tag;
use crate::tokenizer::Tokenizer;
use crate::tokenizer::gtoks;
use crate::tokenizer::is_digit_char;
use crate::tokenizer::lemma_tokens_wf;
use crate::tokenizer::spec_tokens;

verus! {

/// A parsed request, pairing a method with its target URI.
pub struct HttpRequest {
    method: HttpMethodEnum,
    target: Uri,
}

/// The request methods this layer models.
pub enum HttpMethodEnum {
    GET,
    HEAD,
    POST,
}

/// The schemes the URI parser accepts.
#[derive(Debug, Clone, Copy, PartialEq, Eq, Structural)]
pub enum HttpSchemeEnum {
    Unknown,
    HTTP,
    HTTPS,
}

/// The mathematical value of a [`Uri`].
pub ghost struct GUri {
    pub scheme: HttpSchemeEnum,
    pub host: Seq<char>,
    pub port: u16,
    pub query: Option<Seq<char>>,
}

/// Every character of `s` is an ASCII decimal digit.
pub open spec fn all_digits(s: Seq<char>) -> bool {
    forall|k: int| 0 <= k < s.len() ==> is_digit_char(#[trigger] s[k])
}

/// The decimal value of a digit string (most significant digit first).
pub open spec fn dec_val(s: Seq<char>) -> int
    decreases s.len(),
{
    if s.len() == 0 {
        0
    } else {
        dec_val(s.drop_last()) * 10 + (s.last() as u32 - 48)
    }
}

/// The port number a digit string denotes, if it is a non-empty digit
/// string whose value fits in sixteen bits.
pub open spec fn chars_to_port(s: Seq<char>) -> Option<u16> {
    if s.len() > 0 && all_digits(s) && 0 <= dec_val(s) <= 65535 {
        Some(dec_val(s) as u16)
    } else {
        None
    }
}

proof fn lemma_dec_val_nonneg(s: Seq<char>)
    requires
        all_digits(s),
    ensures
        dec_val(s) >= 0,
    decreases s.len(),
{
    if s.len() > 0 {
        assert(all_digits(s.drop_last()));
        lemma_dec_val_nonneg(s.drop_last());
    }
}

/// Extending a digit string never lowers its value.
proof fn lemma_dec_val_prefix(s: Seq<char>, k: int)
    requires
        all_digits(s),
        0 <= k <= s.len(),
    ensures
        dec_val(s.subrange(0, k)) <= dec_val(s),
    decreases s.len() - k,
{
    if k == s.len() {
        assert(s.subrange(0, k) =~= s);
    } else {
        let t = s.subrange(0, k + 1);
        assert(t.drop_last() =~= s.subrange(0, k));
        assert(all_digits(t.drop_last()));
        lemma_dec_val_nonneg(t.drop_last());
        lemma_dec_val_prefix(s, k + 1);
    }
}

/// One step of the URI fold: how token `i` updates the accumulated
/// URI. Unknown scheme text and malformed or oversized port digits
/// reject the whole URI.
pub open spec fn spec_uri_fold(buf: Seq<char>, toks: Seq<GTok>, i: int, acc: GUri) -> Result<
    GUri,
    (),
>
    decreases toks.len() - i
    when 0 <= i
{
    if i >= toks.len() {
        Ok(acc)
    } else {
        let t = toks[i];
        let s = buf.subrange(t.start, t.end);
        match t.tag {
            Tag::Scheme => if s == "http"@ {
                spec_uri_fold(
                    buf,
                    toks,
                    i + 1,
                    GUri { scheme: HttpSchemeEnum::HTTP, host: acc.host, port: 80, query: acc.query },
                )
            } else if s == "https"@ {
                spec_uri_fold(
                    buf,
                    toks,
                    i + 1,
                    GUri { scheme: HttpSchemeEnum::HTTPS, host: acc.host, port: 443, query: acc.query },
                )
            } else {
                Err(())
            },
            Tag::Authority => spec_uri_fold(
                buf,
                toks,
                i + 1,
                GUri { scheme: acc.scheme, host: s, port: acc.port, query: acc.query },
            ),
            Tag::Port => if s.len() > 0 {
                match chars_to_port(s) {
                    Some(p) => spec_uri_fold(
                        buf,
                        toks,
                        i + 1,
                        GUri { scheme: acc.scheme, host: acc.host, port: p, query: acc.query },
                    ),
                    None => Err(()),
                }
            } else {
                match acc.scheme {
                    HttpSchemeEnum::HTTP => spec_uri_fold(
                        buf,
                        toks,
                        i + 1,
                        GUri { scheme: acc.scheme, host: acc.host, port: 80, query: acc.query },
                    ),
                    HttpSchemeEnum::HTTPS => spec_uri_fold(
                        buf,
                        toks,
                        i + 1,
                        GUri { scheme: acc.scheme, host: acc.host, port: 443, query: acc.query },
                    ),
                    HttpSchemeEnum::Unknown => Err(()),
                }
            },
            Tag::Query => spec_uri_fold(
                buf,
                toks,
                i + 1,
                GUri { scheme: acc.scheme, host: acc.host, port: acc.port, query: Some(s) },
            ),
            _ => spec_uri_fold(buf, toks, i + 1, acc),
        }
    }
}

/// The URI an initial fold starts from.
pub open spec fn init_uri() -> GUri {
    GUri { scheme: HttpSchemeEnum::Unknown, host: Seq::empty(), port: 0, query: None }
}

/// The URI denoted by `buf`: tokenize, then fold the tokens.
pub open spec fn spec_parse_uri(buf: Seq<char>) -> Result<GUri, ()> {
    match spec_tokens(buf) {
        Err(_) => Err(()),
        Ok(toks) => spec_uri_fold(buf, toks, 0, init_uri()),
    }
}

/// A parsed absolute URI: scheme, host, effective port and optional
/// query. A URI with no port token gets the scheme's default port
/// (80 for `http`, 443 for `https`).
#[derive(Debug)]
pub struct Uri {
    scheme: HttpSchemeEnum,
    host: String,
    port: u16,
    query: Option<String>,
}

impl View for Uri {
    type V = GUri;

    closed spec fn view(&self) -> GUri {
        GUri {
            scheme: self.scheme,
            host: self.host@,
            port: self.port,
            query: match self.query {
                Some(q) => Some(q@),
                None => None,
            },
        }
    }
}

impl Uri {
    pub fn scheme(&self) -> (r: HttpSchemeEnum)
        ensures
            r == self@.scheme,
    {
        self.scheme
    }

    pub fn host(&self) -> (r: &str)
        ensures
            r@ == self@.host,
    {
        self.host.as_str()
    }

    pub fn port(&self) -> (r: u16)
        ensures
            r == self@.port,
    {
        self.port
    }

    pub fn query(&self) -> (r: Option<&str>)
        ensures
            match r {
                Some(s) => self@.query matches Some(q) && s@ == q,
                None => self@.query is None,
            },
    {
        match &self.query {
            Some(s) => Some(s.as_str()),
            None => None,
        }
    }

    /// Run the tokenizer over its buffer and fold the tokens into a
    /// `Uri`. Fails where tokenization fails, where a scheme token is
    /// neither `http` nor `https`, and where a port token does not
    /// denote a sixteen-bit number.
    pub fn parse_tokens(tokenizer: &mut Tokenizer) -> (r: Result<Self, InvalidToken>)
        ensures
            final(tokenizer)@.buffer == old(tokenizer)@.buffer,
            match r {
                Ok(u) => spec_parse_uri(old(tokenizer)@.buffer) == Ok::<_, ()>(u@),
                Err(_) => spec_parse_uri(old(tokenizer)@.buffer) is Err,
            },
    {
        let ghost buf = tokenizer@.buffer;
        let mut scheme = HttpSchemeEnum::Unknown;
        let mut host = String::new();
        let mut port: u16 = 0;
        let mut query: Option<String> = None;

        let tokens = match tokenizer.tokens() {
            Ok(t) => t,
            Err(e) => {
                return Err(e);
            },
        };
        let ghost ts = gtoks(tokens@);
        proof {
            lemma_tokens_wf(buf, 0, Tag::Start);
        }

        let n = tokens.len();
        let mut i: usize = 0;
        #[verifier::loop_isolation(false)]
        while i < n
            invariant
                n == tokens.len(),
                0 <= i <= n,
                spec_uri_fold(buf, ts, 0, init_uri()) == spec_uri_fold(
                    buf,
                    ts,
                    i as int,
                    GUri {
                        scheme,
                        host: host@,
                        port,
                        query: match query {
                            Some(q) => Some(q@),
                            None => None,
                        },
                    },
                ),
            decreases n - i,
        {
            let token = &tokens[i];
            proof {
                assert(ts[i as int] == token@);
            }
            let token_str = tokenizer.token_text(token);

            match token.tag() {
                Tag::Scheme => {
                    if str_eq(token_str.as_str(), "http") {
                        scheme = HttpSchemeEnum::HTTP;
                        port = 80;
                    } else if str_eq(token_str.as_str(), "https") {
                        scheme = HttpSchemeEnum::HTTPS;
                        port = 443;
                    } else {
                        return Err(InvalidToken {});
                    }
                },
                Tag::Authority => {
                    host = token_str;
                },
                Tag::Port => {
                    if token_str.as_str().unicode_len() > 0 {
                        match parse_port(token_str.as_str()) {
                            Some(p) => {
                                port = p;
                            },
                            None => {
                                return Err(InvalidToken {});
                            },
                        }
                    } else {
                        port = match scheme {
                            HttpSchemeEnum::HTTP => 80,
                            HttpSchemeEnum::HTTPS => 443,
                            HttpSchemeEnum::Unknown => {
                                return Err(InvalidToken {});
                            },
                        };
                    }
                },
                Tag::Query => {
                    query = Some(token_str);
                },
                _ => {},
            };
            i = i + 1;
        }

        Ok(Self { scheme, host, port, query })
    }
}

/// Parse a non-empty digit string into a port number; `None` for an
/// empty string, a non-digit, or a value over 65535.
fn parse_port(s: &str) -> (r: Option<u16>)
    ensures
        r == chars_to_port(s@),
{
    let n = s.unicode_len();
    if n == 0 {
        return None;
    }
    let mut acc: u32 = 0;
    let mut i: usize = 0;
    #[verifier::loop_isolation(false)]
    while i < n
        invariant
            0 <= i <= n,
            n == s@.len(),
            acc <= 65535,
            all_digits(s@.subrange(0, i as int)),
            acc == dec_val(s@.subrange(0, i as int)),
        decreases n - i,
    {
        let c = s.get_char(i);
        let u = c as u32;
        if !(48 <= u && u <= 57) {
            assert(!all_digits(s@));
            return None;
        }
        proof {
            let t = s@.subrange(0, i + 1);
            assert(t.drop_last() =~= s@.subrange(0, i as int));
            assert(t.last() == s@[i as int]);
            assert(all_digits(t));
        }
        acc = acc * 10 + (u - 48);
        i = i + 1;
        if acc > 65535 {
            proof {
                if chars_to_port(s@) is Some {
                    lemma_dec_val_prefix(s@, i as int);
                    assert(s@.subrange(0, n as int) =~= s@);
                    assert(false);
                }
            }
            return None;
        }
    }
    proof {
        assert(s@.subrange(0, n as int) =~= s@);
    }
    Some(acc as u16)
}

} // verus!
