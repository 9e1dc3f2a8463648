//! The tokenizer round-trip law: for every well-formed absolute URI
//! assembled from components, tokenizing the assembled buffer yields
//! exactly one token per component, and the tokens' spans recover the
//! original component substrings.

use vstd::prelude::*;

use crate::tokenizer::GTok;
use crate::tokenizer::Tag;
use crate::tokenizer::is_authority_char;
use crate::tokenizer::is_digit_char;
use crate::tokenizer::is_scheme_char;
use crate::tokenizer::spec_next;
use crate::tokenizer::spec_scan;
use crate::tokenizer::spec_tokenize_from;
use crate::tokenizer::spec_tokens;

verus! {

/// The characters on which state `state` keeps accumulating the
/// current token (no delimiter, no failure).
pub open spec fn cont_char(state: Tag, c: char) -> bool {
    match state {
        Tag::Scheme => is_scheme_char(c),
        Tag::Authority => is_authority_char(c),
        Tag::Port => is_digit_char(c),
        Tag::Path => c != '?' && c != '#',
        Tag::Query => c != '#',
        Tag::Fragment => true,
        _ => false,
    }
}

/// Scanning over a run of accumulating characters moves the cursor
/// without changing anything else.
proof fn lemma_scan_run(buf: Seq<char>, i: int, j: int, state: Tag, ttag: Tag, tstart: int)
    requires
        0 <= tstart <= i <= j <= buf.len(),
        forall|k: int| i <= k < j ==> cont_char(state, #[trigger] buf[k]),
        state == Tag::Scheme || state == Tag::Authority || state == Tag::Port || state == Tag::Path
            || state == Tag::Query || state == Tag::Fragment,
    ensures
        spec_scan(buf, i, state, ttag, tstart) == spec_scan(buf, j, state, ttag, tstart),
    decreases j - i,
{
    if i < j {
        assert(cont_char(state, buf[i]));
        assert(is_authority_char(buf[i]) ==> buf[i] != '@' && buf[i] != ':' && buf[i] != '/');
        lemma_scan_run(buf, i + 1, j, state, ttag, tstart);
    }
}

/// The port section of an assembled URI: `:` and the digits, or
/// nothing.
pub open spec fn opt_port_part(port: Option<Seq<char>>) -> Seq<char> {
    match port {
        Some(p) => seq![':'] + p,
        None => Seq::empty(),
    }
}

/// The query section: `?` and the text, or nothing.
pub open spec fn opt_query_part(q: Option<Seq<char>>) -> Seq<char> {
    match q {
        Some(q) => seq!['?'] + q,
        None => Seq::empty(),
    }
}

/// The fragment section: `#` and the text, or nothing.
pub open spec fn opt_frag_part(f: Option<Seq<char>>) -> Seq<char> {
    match f {
        Some(f) => seq!['#'] + f,
        None => Seq::empty(),
    }
}

/// An absolute URI assembled from its components:
/// `scheme://host[:port][/path[?query][#fragment]]`.
pub open spec fn abs_uri(
    scheme: Seq<char>,
    host: Seq<char>,
    port: Option<Seq<char>>,
    tail: Option<(Seq<char>, Option<Seq<char>>, Option<Seq<char>>)>,
) -> Seq<char> {
    scheme + seq![':', '/', '/'] + host + opt_port_part(port) + (match tail {
        Some(t) => seq!['/'] + t.0 + opt_query_part(t.1) + opt_frag_part(t.2),
        None => Seq::empty(),
    })
}

/// The tokens an assembled URI must produce: one per present
/// component, with spans placed exactly where the components stand in
/// the assembled buffer. An authority followed directly by the end of
/// the buffer is followed by a zero-length path token.
pub open spec fn expected_uri_tokens(
    scheme: Seq<char>,
    host: Seq<char>,
    port: Option<Seq<char>>,
    tail: Option<(Seq<char>, Option<Seq<char>>, Option<Seq<char>>)>,
) -> Seq<GTok> {
    let slen = scheme.len() as int;
    let a0 = slen + 3;
    let a1 = a0 + host.len();
    let base = seq![
        GTok { tag: Tag::Scheme, start: 0, end: slen },
        GTok { tag: Tag::Authority, start: a0, end: a1 },
    ];
    let pts = match port {
        Some(p) => seq![GTok { tag: Tag::Port, start: a1 + 1, end: a1 + 1 + p.len() }],
        None => Seq::empty(),
    };
    let p1 = match port {
        Some(p) => a1 + 1 + p.len(),
        None => a1,
    };
    let tts = match tail {
        Some(t) => {
            let pe = p1 + 1 + t.0.len();
            let qe = match t.1 {
                Some(q) => pe + 1 + q.len(),
                None => pe,
            };
            (seq![GTok { tag: Tag::Path, start: p1 + 1, end: pe }] + (match t.1 {
                Some(q) => seq![GTok { tag: Tag::Query, start: pe + 1, end: qe }],
                None => Seq::empty(),
            })) + (match t.2 {
                Some(f) => seq![GTok { tag: Tag::Fragment, start: qe + 1, end: qe + 1 + f.len() }],
                None => Seq::empty(),
            })
        },
        None => match port {
            Some(_) => Seq::empty(),
            None => seq![GTok { tag: Tag::Path, start: a1, end: a1 }],
        },
    };
    base + pts + tts
}

/// Law: tokenizing a well-formed absolute URI
/// `scheme://host[:port][/path[?query][#fragment]]` succeeds and
/// yields exactly the expected token per component; in particular the
/// spans, read back against the buffer, recover the original
/// component substrings (shown here for scheme and host; the other
/// components' spans stand in [`expected_uri_tokens`] at their
/// assembly offsets in the same way).
#[verifier::rlimit(60)]
pub proof fn lemma_tokenize_round_trip(
    scheme: Seq<char>,
    host: Seq<char>,
    port: Option<Seq<char>>,
    tail: Option<(Seq<char>, Option<Seq<char>>, Option<Seq<char>>)>,
)
    requires
        scheme.len() >= 1,
        scheme[0] == 'h',
        forall|k: int| 1 <= k < scheme.len() ==> is_scheme_char(#[trigger] scheme[k]),
        forall|k: int| 0 <= k < host.len() ==> is_authority_char(#[trigger] host[k]),
        port matches Some(p) ==> forall|k: int| 0 <= k < p.len() ==> is_digit_char(#[trigger] p[k]),
        tail matches Some(t) ==> (forall|k: int|
            0 <= k < t.0.len() ==> #[trigger] t.0[k] != '?' && t.0[k] != '#'),
        tail matches Some(t) ==> (t.1 matches Some(q) ==> forall|k: int|
            0 <= k < q.len() ==> #[trigger] q[k] != '#'),
    ensures
        spec_tokens(abs_uri(scheme, host, port, tail)) == Ok::<_, (int, Tag)>(
            expected_uri_tokens(scheme, host, port, tail),
        ),
        abs_uri(scheme, host, port, tail).subrange(0, scheme.len() as int) == scheme,
        abs_uri(scheme, host, port, tail).subrange(
            scheme.len() + 3 as int,
            scheme.len() + 3 + host.len() as int,
        ) == host,
{
    let buf = abs_uri(scheme, host, port, tail);
    let slen = scheme.len() as int;
    let a0 = slen + 3;
    let a1 = a0 + host.len();
    let p1 = match port {
        Some(p) => a1 + 1 + p.len() as int,
        None => a1,
    };
    let n = buf.len() as int;

    // Where each region of the assembled buffer stands.
    assert(buf.subrange(0, slen) =~= scheme);
    assert(buf[slen] == ':');
    assert(buf[slen + 1] == '/');
    assert(buf[slen + 2] == '/');
    assert(buf.subrange(a0, a1) =~= host);
    assert forall|k: int| 0 <= k < slen implies #[trigger] buf[k] == scheme[k] by {}
    assert forall|k: int| a0 <= k < a1 implies #[trigger] buf[k] == host[k - a0] by {}
    if let Some(p) = port {
        assert(buf[a1] == ':');
        assert forall|k: int| a1 + 1 <= k < p1 implies #[trigger] buf[k] == p[k - (a1 + 1)] by {}
    }
    if let Some(t) = tail {
        assert(buf[p1] == '/');
    }

    // Scheme: the leading `h`, a run of scheme characters, then `:`.
    assert(spec_scan(buf, 0, Tag::Start, Tag::Start, 0) == spec_scan(
        buf,
        1,
        Tag::Scheme,
        Tag::Scheme,
        0,
    ));
    lemma_scan_run(buf, 1, slen, Tag::Scheme, Tag::Scheme, 0);
    let sch_tok = GTok { tag: Tag::Scheme, start: 0, end: slen };
    assert(spec_scan(buf, slen, Tag::Scheme, Tag::Scheme, 0) == Ok::<_, (int, Tag)>(
        (sch_tok, a0, Tag::Authority),
    ));

    // Authority: a run of host characters, closed by `:`, `/`, or the
    // end of the buffer.
    lemma_scan_run(buf, a0, a1, Tag::Authority, Tag::Authority, a0);
    let auth_tok = GTok { tag: Tag::Authority, start: a0, end: a1 };

    if let Some(t) = tail {
        let pre = scheme + seq![':', '/', '/'] + host + opt_port_part(port);
        assert(pre.len() == p1);
        assert(buf.subrange(p1, n) =~= seq!['/'] + t.0 + opt_query_part(t.1) + opt_frag_part(
            t.2,
        ));
    }

    match port {
        Some(p) => {
            assert(spec_scan(buf, a1, Tag::Authority, Tag::Authority, a0) == Ok::<_, (int, Tag)>(
                (auth_tok, a1 + 1, Tag::Port),
            ));
            lemma_scan_run(buf, a1 + 1, p1, Tag::Port, Tag::Port, a1 + 1);
            let port_tok = GTok { tag: Tag::Port, start: a1 + 1, end: p1 };
            match tail {
                Some(t) => {
                    assert(spec_scan(buf, p1, Tag::Port, Tag::Port, a1 + 1) == Ok::<_, (int, Tag)>(
                        (port_tok, p1 + 1, Tag::Path),
                    ));
                    lemma_tail_tokens(buf, p1, t.0, t.1, t.2);
                    assert(spec_tokenize_from(buf, a1 + 1, Tag::Port) == Ok::<_, (int, Tag)>(
                        seq![port_tok] + tail_tokens(p1, t.0, t.1, t.2),
                    ));
                    assert(spec_tokenize_from(buf, a0, Tag::Authority) == Ok::<_, (int, Tag)>(
                        seq![auth_tok] + (seq![port_tok] + tail_tokens(p1, t.0, t.1, t.2)),
                    ));
                    assert(spec_tokenize_from(buf, 0, Tag::Start) == Ok::<_, (int, Tag)>(
                        seq![sch_tok] + (seq![auth_tok] + (seq![port_tok] + tail_tokens(
                            p1,
                            t.0,
                            t.1,
                            t.2,
                        ))),
                    ));
                },
                None => {
                    assert(p1 == n);
                    assert(spec_scan(buf, p1, Tag::Port, Tag::Port, a1 + 1) == Ok::<_, (int, Tag)>(
                        (port_tok, p1, Tag::End),
                    ));
                    assert(spec_tokenize_from(buf, a1 + 1, Tag::Port) == Ok::<_, (int, Tag)>(
                        seq![port_tok],
                    ));
                    assert(spec_tokenize_from(buf, a0, Tag::Authority) == Ok::<_, (int, Tag)>(
                        seq![auth_tok] + seq![port_tok],
                    ));
                    assert(spec_tokenize_from(buf, 0, Tag::Start) == Ok::<_, (int, Tag)>(
                        seq![sch_tok] + (seq![auth_tok] + seq![port_tok]),
                    ));
                },
            }
        },
        None => {
            match tail {
                Some(t) => {
                    assert(spec_scan(buf, a1, Tag::Authority, Tag::Authority, a0) == Ok::<_, (int, Tag)>(
                        (auth_tok, a1 + 1, Tag::Path),
                    ));
                    lemma_tail_tokens(buf, a1, t.0, t.1, t.2);
                    assert(spec_tokenize_from(buf, a0, Tag::Authority) == Ok::<_, (int, Tag)>(
                        seq![auth_tok] + tail_tokens(a1, t.0, t.1, t.2),
                    ));
                    assert(spec_tokenize_from(buf, 0, Tag::Start) == Ok::<_, (int, Tag)>(
                        seq![sch_tok] + (seq![auth_tok] + tail_tokens(a1, t.0, t.1, t.2)),
                    ));
                },
                None => {
                    assert(a1 == n);
                    assert(spec_scan(buf, a1, Tag::Authority, Tag::Authority, a0) == Ok::<
                        _,
                        (int, Tag),
                    >((auth_tok, a1, Tag::Path)));
                    let path_tok = GTok { tag: Tag::Path, start: a1, end: a1 };
                    assert(spec_next(buf, a1, Tag::Path) == Ok::<_, (int, Tag)>(
                        (path_tok, a1, Tag::End),
                    ));
                    assert(spec_tokenize_from(buf, a1, Tag::Path) == Ok::<_, (int, Tag)>(
                        seq![path_tok],
                    ));
                    assert(spec_tokenize_from(buf, a0, Tag::Authority) == Ok::<_, (int, Tag)>(
                        seq![auth_tok] + seq![path_tok],
                    ));
                    assert(spec_tokenize_from(buf, 0, Tag::Start) == Ok::<_, (int, Tag)>(
                        seq![sch_tok] + (seq![auth_tok] + seq![path_tok]),
                    ));
                },
            }
        },
    }
    assert(spec_tokens(buf)->Ok_0 =~= expected_uri_tokens(scheme, host, port, tail));
}

/// The tokens of the `/path[?query][#fragment]` tail when the `/`
/// stands at position `p1`.
pub open spec fn tail_tokens(
    p1: int,
    path: Seq<char>,
    query: Option<Seq<char>>,
    frag: Option<Seq<char>>,
) -> Seq<GTok> {
    let pe = p1 + 1 + path.len();
    let qe = match query {
        Some(q) => pe + 1 + q.len(),
        None => pe,
    };
    (seq![GTok { tag: Tag::Path, start: p1 + 1, end: pe }] + (match query {
        Some(q) => seq![GTok { tag: Tag::Query, start: pe + 1, end: qe }],
        None => Seq::empty(),
    })) + (match frag {
        Some(f) => seq![GTok { tag: Tag::Fragment, start: qe + 1, end: qe + 1 + f.len() }],
        None => Seq::empty(),
    })
}

/// Scanning the tail from its `/` produces exactly its tokens.
proof fn lemma_tail_tokens(
    buf: Seq<char>,
    p1: int,
    path: Seq<char>,
    query: Option<Seq<char>>,
    frag: Option<Seq<char>>,
)
    requires
        0 <= p1 < buf.len(),
        buf.subrange(p1, buf.len() as int) =~= seq!['/'] + path + opt_query_part(query)
            + opt_frag_part(frag),
        forall|k: int| 0 <= k < path.len() ==> #[trigger] path[k] != '?' && path[k] != '#',
        query matches Some(q) ==> forall|k: int| 0 <= k < q.len() ==> #[trigger] q[k] != '#',
    ensures
        spec_tokenize_from(buf, p1 + 1, Tag::Path) == Ok::<_, (int, Tag)>(
            tail_tokens(p1, path, query, frag),
        ),
{
    let n = buf.len() as int;
    let pe = p1 + 1 + path.len() as int;
    let qe = match query {
        Some(q) => pe + 1 + q.len() as int,
        None => pe,
    };
    assert(buf.subrange(p1, n).len() == n - p1);
    assert(n == p1 + 1 + path.len() + opt_query_part(query).len() + opt_frag_part(frag).len());
    assert forall|k: int| p1 <= k < n implies #[trigger] buf[k] == buf.subrange(p1, n)[k - p1] by {}
    assert forall|k: int| p1 + 1 <= k < pe implies #[trigger] buf[k] == path[k - (p1 + 1)] by {
        assert(buf.subrange(p1, n)[k - p1] == buf[k]);
    }

    lemma_scan_run(buf, p1 + 1, pe, Tag::Path, Tag::Path, p1 + 1);
    let path_tok = GTok { tag: Tag::Path, start: p1 + 1, end: pe };
    match query {
        Some(q) => {
            assert(buf[pe] == '?');
            assert(spec_scan(buf, pe, Tag::Path, Tag::Path, p1 + 1) == Ok::<_, (int, Tag)>(
                (path_tok, pe + 1, Tag::Query),
            ));
            assert forall|k: int| pe + 1 <= k < qe implies #[trigger] buf[k] == q[k - (pe + 1)] by {}
            lemma_scan_run(buf, pe + 1, qe, Tag::Query, Tag::Query, pe + 1);
            let q_tok = GTok { tag: Tag::Query, start: pe + 1, end: qe };
            match frag {
                Some(f) => {
                    assert(buf[qe] == '#');
                    assert(spec_scan(buf, qe, Tag::Query, Tag::Query, pe + 1) == Ok::<_, (int, Tag)>(
                        (q_tok, qe + 1, Tag::Fragment),
                    ));
                    lemma_scan_run(buf, qe + 1, n, Tag::Fragment, Tag::Fragment, qe + 1);
                    let f_tok = GTok { tag: Tag::Fragment, start: qe + 1, end: n };
                    assert(qe + 1 + f.len() == n);
                    assert(spec_tokenize_from(buf, qe + 1, Tag::Fragment) == Ok::<_, (int, Tag)>(
                        seq![f_tok],
                    ));
                    assert(spec_tokenize_from(buf, pe + 1, Tag::Query) == Ok::<_, (int, Tag)>(
                        seq![q_tok] + seq![f_tok],
                    ));
                    assert(spec_tokenize_from(buf, p1 + 1, Tag::Path) == Ok::<_, (int, Tag)>(
                        seq![path_tok] + (seq![q_tok] + seq![f_tok]),
                    ));
                    assert(seq![path_tok] + (seq![q_tok] + seq![f_tok]) =~= tail_tokens(
                        p1,
                        path,
                        query,
                        frag,
                    ));
                },
                None => {
                    assert(qe == n);
                    assert(spec_scan(buf, qe, Tag::Query, Tag::Query, pe + 1) == Ok::<_, (int, Tag)>(
                        (q_tok, qe, Tag::End),
                    ));
                    assert(spec_tokenize_from(buf, pe + 1, Tag::Query) == Ok::<_, (int, Tag)>(
                        seq![q_tok],
                    ));
                    assert(spec_tokenize_from(buf, p1 + 1, Tag::Path) == Ok::<_, (int, Tag)>(
                        seq![path_tok] + seq![q_tok],
                    ));
                    assert(seq![path_tok] + seq![q_tok] =~= tail_tokens(p1, path, query, frag));
                },
            }
        },
        None => {
            match frag {
                Some(f) => {
                    assert(buf[pe] == '#');
                    assert(spec_scan(buf, pe, Tag::Path, Tag::Path, p1 + 1) == Ok::<_, (int, Tag)>(
                        (path_tok, pe + 1, Tag::Fragment),
                    ));
                    lemma_scan_run(buf, pe + 1, n, Tag::Fragment, Tag::Fragment, pe + 1);
                    let f_tok = GTok { tag: Tag::Fragment, start: pe + 1, end: n };
                    assert(pe + 1 + f.len() == n);
                    assert(spec_tokenize_from(buf, pe + 1, Tag::Fragment) == Ok::<_, (int, Tag)>(
                        seq![f_tok],
                    ));
                    assert(spec_tokenize_from(buf, p1 + 1, Tag::Path) == Ok::<_, (int, Tag)>(
                        seq![path_tok] + seq![f_tok],
                    ));
                    assert(seq![path_tok] + seq![f_tok] =~= tail_tokens(p1, path, query, frag));
                },
                None => {
                    assert(pe == n);
                    assert(spec_scan(buf, pe, Tag::Path, Tag::Path, p1 + 1) == Ok::<_, (int, Tag)>(
                        (path_tok, pe, Tag::End),
                    ));
                    assert(spec_tokenize_from(buf, p1 + 1, Tag::Path) == Ok::<_, (int, Tag)>(
                        seq![path_tok],
                    ));
                    assert(seq![path_tok] =~= tail_tokens(p1, path, query, frag));
                },
            }
        },
    }
}


/// What a token may contain, by its tag: a scheme starts with `h` and
/// continues with scheme characters, user-info and authority hold
/// authority characters, a port holds digits, a path holds no `?` or
/// `#`, a query holds no `#`.
pub open spec fn token_content_ok(buf: Seq<char>, t: GTok) -> bool {
    match t.tag {
        Tag::Scheme => t.start < t.end && buf[t.start] == 'h' && (forall|j: int|
            t.start < j < t.end ==> is_scheme_char(#[trigger] buf[j])),
        Tag::UserInfo => forall|j: int| t.start <= j < t.end ==> is_authority_char(#[trigger] buf[j]),
        Tag::Authority => forall|j: int| t.start <= j < t.end ==> is_authority_char(#[trigger] buf[j]),
        Tag::Port => forall|j: int| t.start <= j < t.end ==> is_digit_char(#[trigger] buf[j]),
        Tag::Path => forall|j: int| t.start <= j < t.end ==> #[trigger] buf[j] != '?' && buf[j] != '#',
        Tag::Query => forall|j: int| t.start <= j < t.end ==> #[trigger] buf[j] != '#',
        _ => true,
    }
}

/// What must already hold of the partially scanned token for the scan
/// to emit a well-policed token.
spec fn scan_seed(buf: Seq<char>, i: int, state: Tag, ttag: Tag, tstart: int) -> bool {
    match state {
        Tag::Start => ttag == Tag::Start && tstart == i,
        Tag::Scheme => ttag == Tag::Scheme && tstart < i && buf[tstart] == 'h' && (forall|j: int|
            tstart < j < i ==> is_scheme_char(#[trigger] buf[j])),
        Tag::Authority => ttag == Tag::Authority && (forall|j: int|
            tstart <= j < i ==> is_authority_char(#[trigger] buf[j])),
        Tag::Port => ttag == Tag::Port && (forall|j: int|
            tstart <= j < i ==> is_digit_char(#[trigger] buf[j])),
        Tag::Path => ttag == Tag::Path && (forall|j: int|
            tstart <= j < i ==> #[trigger] buf[j] != '?' && buf[j] != '#'),
        Tag::Query => ttag == Tag::Query && (forall|j: int|
            tstart <= j < i ==> #[trigger] buf[j] != '#'),
        Tag::Fragment => ttag == Tag::Fragment,
        _ => false,
    }
}

/// A scan step only ever emits a token whose content obeys its tag's
/// character policy.
proof fn lemma_scan_content(buf: Seq<char>, i: int, state: Tag, ttag: Tag, tstart: int)
    requires
        0 <= tstart <= i <= buf.len(),
        scan_seed(buf, i, state, ttag, tstart),
    ensures
        spec_scan(buf, i, state, ttag, tstart) matches Ok(step) ==> token_content_ok(buf, step.0),
    decreases buf.len() - i,
{
    if i >= buf.len() {
    } else {
        let c = buf[i];
        match state {
            Tag::Start => if c == 'h' {
                lemma_scan_content(buf, i + 1, Tag::Scheme, Tag::Scheme, i);
            },
            Tag::Scheme => if is_scheme_char(c) {
                lemma_scan_content(buf, i + 1, Tag::Scheme, ttag, tstart);
            },
            Tag::Authority => if !(c == '@' || c == ':' || c == '/') && is_authority_char(c) {
                lemma_scan_content(buf, i + 1, Tag::Authority, ttag, tstart);
            },
            Tag::Port => if is_digit_char(c) {
                lemma_scan_content(buf, i + 1, Tag::Port, ttag, tstart);
            },
            Tag::Path => if !(c == '?' || c == '#') {
                lemma_scan_content(buf, i + 1, Tag::Path, ttag, tstart);
            },
            Tag::Query => if c != '#' {
                lemma_scan_content(buf, i + 1, Tag::Query, ttag, tstart);
            },
            Tag::Fragment => {
                lemma_scan_content(buf, i + 1, Tag::Fragment, ttag, tstart);
            },
            _ => {},
        }
    }
}

/// Law: every token of a successful pass obeys its tag's character
/// policy — the soundness counterpart of the round-trip law.
pub proof fn lemma_tokens_content(buf: Seq<char>, i: int, state: Tag)
    requires
        0 <= i <= buf.len(),
        state != Tag::Scheme,
        state != Tag::UserInfo,
        state != Tag::Invalid,
        state != Tag::End,
    ensures
        spec_tokenize_from(buf, i, state) matches Ok(ts) ==> forall|k: int|
            0 <= k < ts.len() ==> token_content_ok(buf, #[trigger] ts[k]),
    decreases
            buf.len() - i,
            (if state == Tag::Authority {
                1int
            } else {
                0int
            }),
{
    crate::tokenizer::lemma_scan_bounds(buf, i, state, state, i);
    lemma_scan_content(buf, i, state, state, i);
    match spec_next(buf, i, state) {
        Err(_) => {},
        Ok((t, ni, ns)) => if ns != Tag::End {
            lemma_tokens_content(buf, ni, ns);
            if let Ok(rest) = spec_tokenize_from(buf, ni, ns) {
                assert forall|k: int|
                    0 <= k < (seq![t] + rest).len() implies token_content_ok(
                    buf,
                    #[trigger] (seq![t] + rest)[k],
                ) by {
                    if k > 0 {
                        assert((seq![t] + rest)[k] == rest[k - 1]);
                    }
                }
            }
        },
    }
}

} // verus!
