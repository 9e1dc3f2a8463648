//! The URI/request-line tokenizer: a character-by-character finite
//! state machine that splits an absolute URI into typed segments
//! (scheme, authority, user info, port, path, query, fragment).
//!
//! The machine is specified by [`spec_scan`] (a single token) and
//! [`spec_tokens`] (a whole pass); the executable tokenizer is proved
//! to return exactly what those functions describe.

use vstd::prelude::*;
use vstd::string::StrSliceExecFns;

verus! {

/// Section labels for tokens, doubling as the machine's states.
#[derive(Debug, Clone, Copy, PartialEq, Eq, Structural)]
pub enum Tag {
    Start,
    End,
    Scheme,
    UserInfo,
    Authority,
    Port,
    Path,
    Query,
    Fragment,
    Invalid,
}

/// Local scanning status inside a single token.
#[derive(Debug, Clone, Copy, PartialEq, Eq, Structural)]
pub enum LocalState {
    InToken,
    EndOfToken,
}

/// The failure value of the tokenizer: a disallowed character was met.
/// It carries no detail; callers that need the position consult the
/// tokenizer's cursor, which stops at the failing character.
#[derive(Debug, Clone, Copy, PartialEq, Eq, Structural)]
pub struct InvalidToken {}

/// A half-open span `[start, end)` of character offsets into the
/// tokenized buffer.
#[derive(Debug, Clone, Copy)]
pub struct Location {
    start_idx: usize,
    end_idx: usize,
}

/// The mathematical value of a [`Location`].
pub ghost struct GLoc {
    pub start: int,
    pub end: int,
}

impl View for Location {
    type V = GLoc;

    closed spec fn view(&self) -> GLoc {
        GLoc { start: self.start_idx as int, end: self.end_idx as int }
    }
}

impl Location {
    pub fn new(start_idx: usize, end_idx: usize) -> (r: Self)
        ensures
            r@ == (GLoc { start: start_idx as int, end: end_idx as int }),
    {
        Self { start_idx, end_idx }
    }

    pub fn start(&self) -> (r: usize)
        ensures
            r == self@.start,
    {
        self.start_idx
    }

    pub fn end(&self) -> (r: usize)
        ensures
            r == self@.end,
    {
        self.end_idx
    }
}

/// A typed segment of the buffer: a tag and the span it covers.
#[derive(Debug, Clone, Copy)]
pub struct Token {
    tag: Tag,
    location: Location,
}

/// The mathematical value of a [`Token`].
pub ghost struct GTok {
    pub tag: Tag,
    pub start: int,
    pub end: int,
}

impl View for Token {
    type V = GTok;

    closed spec fn view(&self) -> GTok {
        GTok { tag: self.tag, start: self.location.start_idx as int, end: self.location.end_idx as int }
    }
}

impl Token {
    pub fn new(tag: Tag, location: Location) -> (r: Self)
        ensures
            r@ == (GTok { tag, start: location@.start, end: location@.end }),
    {
        Self { tag, location }
    }

    pub fn tag(&self) -> (r: Tag)
        ensures
            r == self@.tag,
    {
        self.tag
    }

    pub fn location(&self) -> (r: Location)
        ensures
            r@.start == self@.start,
            r@.end == self@.end,
    {
        self.location
    }

    pub fn update_tag_and_end(&mut self, tag: Tag, end_idx: usize)
        ensures
            final(self)@ == (GTok { tag, start: old(self)@.start, end: end_idx as int }),
    {
        self.tag = tag;
        self.location.end_idx = end_idx;
    }

    pub fn set_end(&mut self, end: usize)
        ensures
            final(self)@ == (GTok { tag: old(self)@.tag, start: old(self)@.start, end: end as int }),
    {
        self.location.end_idx = end;
    }
}

/// Characters that may continue a scheme after its leading `h`.
pub open spec fn is_scheme_char(c: char) -> bool {
    c == 't' || c == 'p' || c == 's'
}

/// An ASCII decimal digit.
pub open spec fn is_digit_char(c: char) -> bool {
    48 <= c as u32 && c as u32 <= 57
}

/// The host characters the authority section accepts: unreserved plus
/// sub-delimiters (and the bracket and underscore relatives the
/// machine tolerates).
pub open spec fn is_authority_char(c: char) -> bool {
    ||| c == '[' ||| c == ']' ||| c == '_'
    ||| (65 <= c as u32 && c as u32 <= 90)  // A-Z
    ||| (97 <= c as u32 && c as u32 <= 122)  // a-z
    ||| is_digit_char(c)
    ||| c == '-' ||| c == '.' ||| c == '~' ||| c == '!' ||| c == '$'
    ||| c == '&' ||| c == '\'' ||| c == '(' ||| c == ')' ||| c == '*' ||| c == '+'
    ||| c == ',' ||| c == ';' ||| c == '='
}

/// One step of the machine: scan a single token of `buf` starting at
/// `i` in state `state`, with `ttag`/`tstart` the tag and start of the
/// token being accumulated. Returns the finished token, the index to
/// resume at, and the next state — or, at the first disallowed
/// character, its position and the section state that met it. A `:`
/// closing the scheme must leave room for the two `//` characters it
/// skips; otherwise the pass fails there. The end of the buffer
/// closes the current token; in the authority section it moves to the
/// path section first, so that an authority followed directly by the
/// end of the buffer is followed by a zero-length path token rather
/// than none.
pub open spec fn spec_scan(buf: Seq<char>, i: int, state: Tag, ttag: Tag, tstart: int) -> Result<
    (GTok, int, Tag),
    (int, Tag),
>
    decreases buf.len() - i
    when 0 <= i
{
    if i >= buf.len() {
        if state == Tag::Authority {
            Ok((GTok { tag: ttag, start: tstart, end: buf.len() as int }, i, Tag::Path))
        } else {
            Ok((GTok { tag: ttag, start: tstart, end: buf.len() as int }, i, Tag::End))
        }
    } else {
        let c = buf[i];
        match state {
            Tag::Start => if c == 'h' {
                spec_scan(buf, i + 1, Tag::Scheme, Tag::Scheme, i)
            } else {
                Err((i, state))
            },
            Tag::Scheme => if is_scheme_char(c) {
                spec_scan(buf, i + 1, Tag::Scheme, ttag, tstart)
            } else if c == ':' {
                if i + 3 <= buf.len() {
                    Ok((GTok { tag: ttag, start: tstart, end: i }, i + 3, Tag::Authority))
                } else {
                    Err((i, state))
                }
            } else {
                Err((i, state))
            },
            Tag::Authority => if c == '@' {
                Ok((GTok { tag: Tag::UserInfo, start: tstart, end: i }, i + 1, Tag::Authority))
            } else if c == ':' {
                Ok((GTok { tag: ttag, start: tstart, end: i }, i + 1, Tag::Port))
            } else if c == '/' {
                Ok((GTok { tag: ttag, start: tstart, end: i }, i + 1, Tag::Path))
            } else if is_authority_char(c) {
                spec_scan(buf, i + 1, Tag::Authority, ttag, tstart)
            } else {
                Err((i, state))
            },
            Tag::Port => if is_digit_char(c) {
                spec_scan(buf, i + 1, Tag::Port, ttag, tstart)
            } else if c == '/' {
                Ok((GTok { tag: ttag, start: tstart, end: i }, i + 1, Tag::Path))
            } else {
                Err((i, state))
            },
            Tag::Path => if c == '?' {
                Ok((GTok { tag: ttag, start: tstart, end: i }, i + 1, Tag::Query))
            } else if c == '#' {
                Ok((GTok { tag: ttag, start: tstart, end: i }, i + 1, Tag::Fragment))
            } else {
                spec_scan(buf, i + 1, Tag::Path, ttag, tstart)
            },
            Tag::Query => if c == '#' {
                Ok((GTok { tag: ttag, start: tstart, end: i }, i + 1, Tag::Fragment))
            } else {
                spec_scan(buf, i + 1, Tag::Query, ttag, tstart)
            },
            Tag::Fragment => spec_scan(buf, i + 1, Tag::Fragment, ttag, tstart),
            _ => Err((i, state)),
        }
    }
}

/// One call of [`Tokenizer::next`], as a function of the buffer, the
/// cursor and the machine state.
pub open spec fn spec_next(buf: Seq<char>, i: int, state: Tag) -> Result<
    (GTok, int, Tag),
    (int, Tag),
> {
    spec_scan(buf, i, state, state, i)
}

/// Basic facts about a scan step: spans are well formed, the cursor
/// never moves backwards, and it strictly advances unless the pass is
/// over.
pub proof fn lemma_scan_bounds(buf: Seq<char>, i: int, state: Tag, ttag: Tag, tstart: int)
    requires
        0 <= tstart <= i <= buf.len(),
    ensures
        match spec_scan(buf, i, state, ttag, tstart) {
            Ok((t, ni, ns)) => {
                &&& tstart <= t.start <= t.end <= buf.len()
                &&& t.end <= ni <= buf.len()
                &&& i <= ni
                &&& (ns != Tag::End ==> ni > i || (state == Tag::Authority && ns == Tag::Path))
                &&& (ns == Tag::Authority || ns == Tag::Port || ns == Tag::Path || ns == Tag::Query
                    || ns == Tag::Fragment || ns == Tag::End)
            },
            Err(e) => i <= e.0 < buf.len(),
        },
    decreases buf.len() - i,
{
    if i >= buf.len() {
    } else {
        let c = buf[i];
        match state {
            Tag::Start => if c == 'h' {
                lemma_scan_bounds(buf, i + 1, Tag::Scheme, Tag::Scheme, i);
            },
            Tag::Scheme => if is_scheme_char(c) {
                lemma_scan_bounds(buf, i + 1, Tag::Scheme, ttag, tstart);
            },
            Tag::Authority => if !(c == '@' || c == ':' || c == '/') && is_authority_char(c) {
                lemma_scan_bounds(buf, i + 1, Tag::Authority, ttag, tstart);
            },
            Tag::Port => if is_digit_char(c) {
                lemma_scan_bounds(buf, i + 1, Tag::Port, ttag, tstart);
            },
            Tag::Path => if !(c == '?' || c == '#') {
                lemma_scan_bounds(buf, i + 1, Tag::Path, ttag, tstart);
            },
            Tag::Query => if c != '#' {
                lemma_scan_bounds(buf, i + 1, Tag::Query, ttag, tstart);
            },
            Tag::Fragment => lemma_scan_bounds(buf, i + 1, Tag::Fragment, ttag, tstart),
            _ => {},
        }
    }
}

/// A whole tokenization pass from cursor `i` in state `state`: the
/// sequence of tokens up to and including the one closed by the end of
/// the buffer, or the position of the first disallowed character.
pub open spec fn spec_tokenize_from(buf: Seq<char>, i: int, state: Tag) -> Result<
    Seq<GTok>,
    (int, Tag),
>
    decreases
            buf.len() - i,
            (if state == Tag::Authority {
                1int
            } else {
                0int
            }),
    when 0 <= i <= buf.len()
    via spec_tokenize_from_decreases
{
    match spec_next(buf, i, state) {
        Err(e) => Err(e),
        Ok((t, ni, ns)) => if ns == Tag::End {
            Ok(seq![t])
        } else {
            match spec_tokenize_from(buf, ni, ns) {
                Err(e) => Err(e),
                Ok(rest) => Ok(seq![t] + rest),
            }
        },
    }
}

#[via_fn]
proof fn spec_tokenize_from_decreases(buf: Seq<char>, i: int, state: Tag) {
    lemma_scan_bounds(buf, i, state, state, i);
}

/// The full pass over `buf`, starting from scratch.
pub open spec fn spec_tokens(buf: Seq<char>) -> Result<Seq<GTok>, (int, Tag)> {
    spec_tokenize_from(buf, 0, Tag::Start)
}

/// Every token of a successful pass has a well-formed span within the
/// buffer.
pub proof fn lemma_tokens_wf(buf: Seq<char>, i: int, state: Tag)
    requires
        0 <= i <= buf.len(),
        spec_tokenize_from(buf, i, state) is Ok,
    ensures
        forall|k: int|
            0 <= k < spec_tokenize_from(buf, i, state)->Ok_0.len() ==> {
                let t = #[trigger] spec_tokenize_from(buf, i, state)->Ok_0[k];
                0 <= t.start <= t.end <= buf.len()
            },
    decreases
            buf.len() - i,
            (if state == Tag::Authority {
                1int
            } else {
                0int
            }),
{
    lemma_scan_bounds(buf, i, state, state, i);
    match spec_next(buf, i, state) {
        Err(_) => {},
        Ok((t, ni, ns)) => if ns != Tag::End {
            lemma_tokens_wf(buf, ni, ns);
        },
    }
}

/// The token views of a vector of tokens.
pub open spec fn gtoks(v: Seq<Token>) -> Seq<GTok> {
    v.map_values(|t: Token| t@)
}

/// The mathematical state of a [`Tokenizer`].
pub ghost struct GTokenizer {
    pub buffer: Seq<char>,
    pub index: int,
    pub state: Tag,
}

/// The cursor never leaves the buffer.
pub open spec fn tokenizer_wf(t: GTokenizer) -> bool {
    0 <= t.index <= t.buffer.len()
}

/// The tokenizer: owns the buffer for the pass, a cursor that only
/// increases, and the state of the machine.
#[derive(Clone)]
pub struct Tokenizer {
    buffer: String,
    index: usize,
    processing_tag: Tag,
}

impl View for Tokenizer {
    type V = GTokenizer;

    closed spec fn view(&self) -> GTokenizer {
        GTokenizer { buffer: self.buffer@, index: self.index as int, state: self.processing_tag }
    }
}

impl Tokenizer {
    pub fn new(buffer: String) -> (r: Self)
        ensures
            r@.buffer == buffer@,
            r@.index == 0,
            r@.state == Tag::Start,
    {
        Self { buffer, index: 0, processing_tag: Tag::Start }
    }

    pub fn current_tag(&self) -> (r: Tag)
        ensures
            r == self@.state,
    {
        self.processing_tag
    }

    /// The text a token covers, as a fresh string.
    pub fn token_text(&self, token: &Token) -> (r: String)
        requires
            0 <= token@.start <= token@.end <= self@.buffer.len(),
        ensures
            r@ == self@.buffer.subrange(token@.start, token@.end),
    {
        self.buffer.as_str().substring_char(token.location.start_idx, token.location.end_idx).to_owned()
    }

    /// Emit the next token, or fail at the first disallowed character.
    /// The cursor is left after the token's delimiter on success, and
    /// exactly at the offending character on failure.
    #[verifier::loop_isolation(false)]
    pub fn next(&mut self) -> (r: Result<Token, InvalidToken>)
        requires
            tokenizer_wf(old(self)@),
            old(self)@.state != Tag::End,
            old(self)@.state != Tag::UserInfo,
            old(self)@.state != Tag::Invalid,
        ensures
            final(self)@.buffer == old(self)@.buffer,
            tokenizer_wf(final(self)@),
            match r {
                Ok(tok) => spec_next(old(self)@.buffer, old(self)@.index, old(self)@.state)
                    == Ok::<_, (int, Tag)>((tok@, final(self)@.index, final(self)@.state)),
                Err(_) => spec_next(old(self)@.buffer, old(self)@.index, old(self)@.state)
                    matches Err(e) && final(self)@.index == e.0 && final(self)@.state == e.1,
            },
    {
        let ghost buf = self@.buffer;
        let ghost i0 = self@.index;
        let ghost s0 = self@.state;
        let n = self.buffer.as_str().unicode_len();
        let mut result = Token::new(
            self.processing_tag,
            Location::new(self.index, self.index),
        );
        loop
            invariant
                self@.buffer == buf,
                n == buf.len(),
                0 <= self.index <= n,
                0 <= result@.start <= self.index as int,
                self@.state != Tag::End,
                self@.state != Tag::UserInfo,
                self@.state != Tag::Invalid,
                spec_next(buf, i0, s0) == spec_scan(
                    buf,
                    self.index as int,
                    self.processing_tag,
                    result@.tag,
                    result@.start,
                ),
            decreases n - self.index,
        {
            if self.index >= n {
                result.set_end(self.index);
                if self.processing_tag == Tag::Authority {
                    self.processing_tag = Tag::Path;
                } else {
                    self.processing_tag = Tag::End;
                }
                return Ok(result);
            }
            let c = self.buffer.as_str().get_char(self.index);
            match self.processing_tag {
                Tag::Start => {
                    if c == 'h' {
                        result.tag = Tag::Scheme;
                        result.location.start_idx = self.index;
                        self.processing_tag = Tag::Scheme;
                        self.index = self.index + 1;
                    } else {
                        return Err(InvalidToken {});
                    }
                },
                Tag::Scheme => {
                    if c == 't' || c == 'p' || c == 's' {
                        self.index = self.index + 1;
                    } else if c == ':' {
                        if n - self.index >= 3 {
                            result.set_end(self.index);
                            self.processing_tag = Tag::Authority;
                            self.index = self.index + 3;
                            return Ok(result);
                        } else {
                            return Err(InvalidToken {});
                        }
                    } else {
                        return Err(InvalidToken {});
                    }
                },
                Tag::Authority => {
                    if c == '@' {
                        result.update_tag_and_end(Tag::UserInfo, self.index);
                        self.index = self.index + 1;
                        return Ok(result);
                    } else if c == ':' {
                        result.set_end(self.index);
                        self.processing_tag = Tag::Port;
                        self.index = self.index + 1;
                        return Ok(result);
                    } else if c == '/' {
                        result.set_end(self.index);
                        self.processing_tag = Tag::Path;
                        self.index = self.index + 1;
                        return Ok(result);
                    } else if is_authority_char_exec(c) {
                        self.index = self.index + 1;
                    } else {
                        return Err(InvalidToken {});
                    }
                },
                Tag::Port => {
                    let u = c as u32;
                    if 48 <= u && u <= 57 {
                        self.index = self.index + 1;
                    } else if c == '/' {
                        result.set_end(self.index);
                        self.processing_tag = Tag::Path;
                        self.index = self.index + 1;
                        return Ok(result);
                    } else {
                        return Err(InvalidToken {});
                    }
                },
                Tag::Path => {
                    if c == '?' {
                        result.set_end(self.index);
                        self.processing_tag = Tag::Query;
                        self.index = self.index + 1;
                        return Ok(result);
                    } else if c == '#' {
                        result.set_end(self.index);
                        self.processing_tag = Tag::Fragment;
                        self.index = self.index + 1;
                        return Ok(result);
                    } else {
                        self.index = self.index + 1;
                    }
                },
                Tag::Query => {
                    if c == '#' {
                        result.set_end(self.index);
                        self.processing_tag = Tag::Fragment;
                        self.index = self.index + 1;
                        return Ok(result);
                    } else {
                        self.index = self.index + 1;
                    }
                },
                Tag::Fragment => {
                    self.index = self.index + 1;
                },
                _ => {
                    proof {
                        assert(false);
                    }
                    return Err(InvalidToken {});
                },
            }
        }
    }

    /// Run a whole pass over the buffer from the beginning, collecting
    /// every token, or fail at the first disallowed character, leaving
    /// the cursor there.
    #[verifier::loop_isolation(false)]
    pub fn tokens(&mut self) -> (r: Result<Vec<Token>, InvalidToken>)
        ensures
            final(self)@.buffer == old(self)@.buffer,
            tokenizer_wf(final(self)@),
            match r {
                Ok(v) => spec_tokens(final(self)@.buffer) == Ok::<_, (int, Tag)>(gtoks(v@))
                    && final(self)@.state == Tag::End,
                Err(_) => spec_tokens(final(self)@.buffer) matches Err(e) && final(self)@.index
                    == e.0 && final(self)@.state == e.1,
            },
    {
        let mut toks: Vec<Token> = Vec::new();
        self.index = 0;
        self.processing_tag = Tag::Start;
        let ghost buf = self@.buffer;
        let n = self.buffer.as_str().unicode_len();
        proof {
            assert(gtoks(toks@) =~= Seq::<GTok>::empty());
        }
        loop
            invariant
                self@.buffer == buf,
                n == buf.len(),
                tokenizer_wf(self@),
                self@.state != Tag::End,
                self@.state != Tag::UserInfo,
                self@.state != Tag::Invalid,
                match spec_tokenize_from(buf, self@.index, self@.state) {
                    Ok(rest) => spec_tokens(buf) == Ok::<_, (int, Tag)>(gtoks(toks@) + rest),
                    Err(e) => spec_tokens(buf) == Err::<Seq<GTok>, _>(e),
                },
            decreases
                    buf.len() - self@.index,
                    (if self@.state == Tag::Authority {
                        1int
                    } else {
                        0int
                    }),
        {
            let ghost pre_i = self@.index;
            let ghost pre_s = self@.state;
            proof {
                lemma_scan_bounds(buf, pre_i, pre_s, pre_s, pre_i);
            }
            let ghost prev = toks@;
            match self.next() {
                Ok(token) => {
                    toks.push(token);
                    proof {
                        assert(toks@ =~= prev.push(token));
                        assert(gtoks(prev.push(token)) =~= gtoks(prev).push(token@));
                        if self@.state == Tag::End {
                            assert(spec_tokenize_from(buf, pre_i, pre_s) == Ok::<_, (int, Tag)>(
                                seq![token@],
                            ));
                            assert(gtoks(prev) + seq![token@] =~= gtoks(toks@));
                        } else {
                            match spec_tokenize_from(buf, self@.index, self@.state) {
                                Ok(rest) => {
                                    assert(spec_tokenize_from(buf, pre_i, pre_s) == Ok::<
                                        _,
                                        (int, Tag),
                                    >(seq![token@] + rest));
                                    assert(gtoks(prev) + (seq![token@] + rest) =~= gtoks(toks@)
                                        + rest);
                                },
                                Err(e) => {
                                    assert(spec_tokenize_from(buf, pre_i, pre_s) == Err::<
                                        Seq<GTok>,
                                        _,
                                    >(e));
                                },
                            }
                        }
                    }
                },
                Err(e) => {
                    return Err(e);
                },
            };
            if self.current_tag() == Tag::End {
                proof {
                    assert(gtoks(toks@) + Seq::<GTok>::empty() =~= gtoks(toks@));
                }
                return Ok(toks);
            }
        }
    }
}

/// Executable check for [`is_authority_char`].
fn is_authority_char_exec(c: char) -> (r: bool)
    ensures
        r == is_authority_char(c),
{
    let u = c as u32;
    c == '[' || c == ']' || c == '_' || (65 <= u && u <= 90) || (97 <= u && u <= 122) || (48 <= u
        && u <= 57) || c == '-' || c == '.' || c == '~' || c == '!' || c == '$' || c == '&' || c
        == '\'' || c == '(' || c == ')' || c == '*' || c == '+' || c == ',' || c == ';' || c == '='
}

} // verus!
