//! Typed headers and the kind-keyed header table.
//!
//! A header's identity is its kind alone: the value takes no part in
//! equality. A header table is therefore a set keyed on kind, and
//! inserting a header whose kind is already present replaces the old
//! entry (the later value wins) while keeping its position, so the
//! serialization order stays stable.

use vstd::prelude::*;
use vstd::string::StringExecFns;

verus! {

/// The identity-bearing tag of a header.
#[derive(Debug, Clone, Copy, PartialEq, Eq, Structural)]
pub enum HeaderKind {
    Empty,
    UserAgent,
    ContentType,
    ContentLength,
    Host,
    Accept,
    AcceptLanguage,
    AcceptEncoding,
    Referer,
    ContentDisposition,
}

/// A header over the fixed set of known names, carrying its value.
#[derive(Debug, Clone)]
pub enum Header {
    EMPTY,
    UserAgent(String),
    ContentType(String),
    ContentLength(String),
    Host(String),
    Accept(String),
    AcceptLanguage(String),
    AcceptEncoding(String),
    Referer(String),
    ContentDisposition(String),
}

/// The mathematical value of a [`Header`]: its kind and value text.
pub ghost struct SpecHeader {
    pub kind: HeaderKind,
    pub value: Seq<char>,
}

impl View for Header {
    type V = SpecHeader;

    open spec fn view(&self) -> SpecHeader {
        match self {
            Header::EMPTY => SpecHeader { kind: HeaderKind::Empty, value: Seq::empty() },
            Header::UserAgent(v) => SpecHeader { kind: HeaderKind::UserAgent, value: v@ },
            Header::ContentType(v) => SpecHeader { kind: HeaderKind::ContentType, value: v@ },
            Header::ContentLength(v) => SpecHeader { kind: HeaderKind::ContentLength, value: v@ },
            Header::Host(v) => SpecHeader { kind: HeaderKind::Host, value: v@ },
            Header::Accept(v) => SpecHeader { kind: HeaderKind::Accept, value: v@ },
            Header::AcceptLanguage(v) => SpecHeader { kind: HeaderKind::AcceptLanguage, value: v@ },
            Header::AcceptEncoding(v) => SpecHeader { kind: HeaderKind::AcceptEncoding, value: v@ },
            Header::Referer(v) => SpecHeader { kind: HeaderKind::Referer, value: v@ },
            Header::ContentDisposition(v) => SpecHeader {
                kind: HeaderKind::ContentDisposition,
                value: v@,
            },
        }
    }
}

/// Equality of headers goes by kind only: two headers of one kind are
/// "the same header", whatever their values.
impl PartialEq for Header {
    fn eq(&self, other: &Self) -> (r: bool) {
        self.kind() == other.kind()
    }
}

impl vstd::std_specs::cmp::PartialEqSpecImpl for Header {
    open spec fn obeys_eq_spec() -> bool {
        true
    }

    open spec fn eq_spec(&self, other: &Self) -> bool {
        self@.kind == other@.kind
    }
}

/// The wire name of a header kind; the unset kind has none and is
/// written `EMPTY`.
pub open spec fn spec_header_name(k: HeaderKind) -> Seq<char> {
    match k {
        HeaderKind::Empty => "EMPTY"@,
        HeaderKind::UserAgent => "User-Agent"@,
        HeaderKind::ContentType => "Content-Type"@,
        HeaderKind::ContentLength => "Content-Length"@,
        HeaderKind::Host => "Host"@,
        HeaderKind::Accept => "Accept"@,
        HeaderKind::AcceptLanguage => "Accept-Language"@,
        HeaderKind::AcceptEncoding => "Accept-Encoding"@,
        HeaderKind::Referer => "Referer"@,
        HeaderKind::ContentDisposition => "Content-Disposition"@,
    }
}

/// A header as it appears on the wire: `Name: value`, or `EMPTY` for
/// the unset header.
pub open spec fn spec_header_wire(h: SpecHeader) -> Seq<char> {
    if h.kind == HeaderKind::Empty {
        "EMPTY"@
    } else {
        spec_header_name(h.kind) + ": "@ + h.value
    }
}

impl Header {
    /// The kind of this header.
    pub fn kind(&self) -> (r: HeaderKind)
        ensures
            r == self@.kind,
    {
        match self {
            Header::EMPTY => HeaderKind::Empty,
            Header::UserAgent(_) => HeaderKind::UserAgent,
            Header::ContentType(_) => HeaderKind::ContentType,
            Header::ContentLength(_) => HeaderKind::ContentLength,
            Header::Host(_) => HeaderKind::Host,
            Header::Accept(_) => HeaderKind::Accept,
            Header::AcceptLanguage(_) => HeaderKind::AcceptLanguage,
            Header::AcceptEncoding(_) => HeaderKind::AcceptEncoding,
            Header::Referer(_) => HeaderKind::Referer,
            Header::ContentDisposition(_) => HeaderKind::ContentDisposition,
        }
    }

    /// The value this header carries; the unset header has none.
    pub fn value(&self) -> (r: Option<&str>)
        ensures
            match r {
                Some(s) => s@ == self@.value && self@.kind != HeaderKind::Empty,
                None => self@.kind == HeaderKind::Empty,
            },
    {
        match self {
            Header::EMPTY => None,
            Header::UserAgent(v) => Some(v.as_str()),
            Header::ContentType(v) => Some(v.as_str()),
            Header::ContentLength(v) => Some(v.as_str()),
            Header::Host(v) => Some(v.as_str()),
            Header::Accept(v) => Some(v.as_str()),
            Header::AcceptLanguage(v) => Some(v.as_str()),
            Header::AcceptEncoding(v) => Some(v.as_str()),
            Header::Referer(v) => Some(v.as_str()),
            Header::ContentDisposition(v) => Some(v.as_str()),
        }
    }

    /// Render the header as one wire line (without the terminator).
    pub fn wire_string(&self) -> (r: String)
        ensures
            r@ == spec_header_wire(self@),
    {
        match self {
            Header::EMPTY => String::from_str("EMPTY"),
            Header::UserAgent(v) => header_line("User-Agent", v.as_str()),
            Header::ContentType(v) => header_line("Content-Type", v.as_str()),
            Header::ContentLength(v) => header_line("Content-Length", v.as_str()),
            Header::Host(v) => header_line("Host", v.as_str()),
            Header::Accept(v) => header_line("Accept", v.as_str()),
            Header::AcceptLanguage(v) => header_line("Accept-Language", v.as_str()),
            Header::AcceptEncoding(v) => header_line("Accept-Encoding", v.as_str()),
            Header::Referer(v) => header_line("Referer", v.as_str()),
            Header::ContentDisposition(v) => header_line("Content-Disposition", v.as_str()),
        }
    }
}

/// Build `name: value`.
fn header_line(name: &str, value: &str) -> (r: String)
    ensures
        r@ == name@ + ": "@ + value@,
{
    let mut out = name.to_owned();
    out.append(": ");
    out.append(value);
    proof {
        assert(out@ =~= name@ + ": "@ + value@);
    }
    out
}

/// How many entries of kind `k` a table holds.
pub open spec fn count_kind(t: Seq<SpecHeader>, k: HeaderKind) -> int
    decreases t.len(),
{
    if t.len() == 0 {
        0
    } else {
        (if t[0].kind == k {
            1int
        } else {
            0int
        }) + count_kind(t.drop_first(), k)
    }
}

/// A well-formed table holds at most one entry of each kind.
pub open spec fn table_wf(t: Seq<SpecHeader>) -> bool {
    forall|k: HeaderKind| count_kind(t, k) <= 1
}

/// Kind-keyed insertion: replace the entry of the same kind in place,
/// or append at the end when the kind is new.
pub open spec fn spec_table_insert(t: Seq<SpecHeader>, h: SpecHeader) -> Seq<SpecHeader>
    decreases t.len(),
{
    if t.len() == 0 {
        seq![h]
    } else if t[0].kind == h.kind {
        seq![h] + t.drop_first()
    } else {
        seq![t[0]] + spec_table_insert(t.drop_first(), h)
    }
}

/// A table holds no entry of kind `k` exactly when its count is zero.
pub proof fn lemma_count_zero(t: Seq<SpecHeader>, k: HeaderKind)
    ensures
        count_kind(t, k) == 0 <==> (forall|i: int| 0 <= i < t.len() ==> t[i].kind != k),
    decreases t.len(),
{
    if t.len() > 0 {
        lemma_count_zero(t.drop_first(), k);
        lemma_count_nonneg(t.drop_first(), k);
        if count_kind(t, k) == 0 {
            assert forall|i: int| 0 <= i < t.len() implies t[i].kind != k by {
                if i > 0 {
                    assert(t.drop_first()[i - 1] == t[i]);
                }
            }
        } else {
            if t[0].kind != k {
                let i = choose|i: int| 0 <= i < t.drop_first().len() && t.drop_first()[i].kind == k;
                assert(t[i + 1].kind == k);
            }
        }
    }
}

pub proof fn lemma_count_nonneg(t: Seq<SpecHeader>, k: HeaderKind)
    ensures
        count_kind(t, k) >= 0,
    decreases t.len(),
{
    if t.len() > 0 {
        lemma_count_nonneg(t.drop_first(), k);
    }
}

/// How insertion changes the per-kind counts: the inserted kind ends
/// at exactly one entry, every other kind keeps its count.
pub proof fn lemma_insert_count(t: Seq<SpecHeader>, h: SpecHeader, k: HeaderKind)
    requires
        count_kind(t, h.kind) <= 1,
    ensures
        count_kind(spec_table_insert(t, h), k) == if k == h.kind {
            1int
        } else {
            count_kind(t, k)
        },
    decreases t.len(),
{
    lemma_count_nonneg(t, h.kind);
    let r = spec_table_insert(t, h);
    if t.len() == 0 {
        assert(r == seq![h]);
        assert(r[0] == h);
        assert(r.drop_first() =~= Seq::<SpecHeader>::empty());
        assert(count_kind(r.drop_first(), k) == 0);
    } else if t[0].kind == h.kind {
        assert(r == seq![h] + t.drop_first());
        assert(r[0] == h);
        assert(r.drop_first() =~= t.drop_first());
        lemma_count_nonneg(t.drop_first(), h.kind);
        assert(count_kind(t, h.kind) == 1 + count_kind(t.drop_first(), h.kind));
        assert(count_kind(t.drop_first(), h.kind) == 0);
        assert(count_kind(r, k) == (if r[0].kind == k {
            1int
        } else {
            0int
        }) + count_kind(r.drop_first(), k));
    } else {
        lemma_count_nonneg(t.drop_first(), h.kind);
        lemma_insert_count(t.drop_first(), h, k);
        assert(r == seq![t[0]] + spec_table_insert(t.drop_first(), h));
        assert(r.len() > 0);
        assert(r[0] == t[0]);
        assert(r.drop_first() =~= spec_table_insert(t.drop_first(), h));
        assert(count_kind(r, k) == (if r[0].kind == k {
            1int
        } else {
            0int
        }) + count_kind(r.drop_first(), k));
        assert(count_kind(t, k) == (if t[0].kind == k {
            1int
        } else {
            0int
        }) + count_kind(t.drop_first(), k));
    }
}

/// After inserting `h`, every entry of `h`'s kind is `h` itself.
pub proof fn lemma_insert_value(t: Seq<SpecHeader>, h: SpecHeader)
    requires
        count_kind(t, h.kind) <= 1,
    ensures
        forall|i: int|
            0 <= i < spec_table_insert(t, h).len() && #[trigger] spec_table_insert(t, h)[i].kind
                == h.kind ==> spec_table_insert(t, h)[i] == h,
    decreases t.len(),
{
    let r = spec_table_insert(t, h);
    if t.len() == 0 {
    } else if t[0].kind == h.kind {
        lemma_count_nonneg(t.drop_first(), h.kind);
        lemma_count_zero(t.drop_first(), h.kind);
        assert forall|i: int| 0 <= i < r.len() && #[trigger] r[i].kind == h.kind implies r[i]
            == h by {
            if i > 0 {
                assert(r[i] == t.drop_first()[i - 1]);
            }
        }
    } else {
        lemma_count_nonneg(t.drop_first(), h.kind);
        lemma_insert_value(t.drop_first(), h);
        let sub = spec_table_insert(t.drop_first(), h);
        assert forall|i: int| 0 <= i < r.len() && #[trigger] r[i].kind == h.kind implies r[i]
            == h by {
            if i > 0 {
                assert(r[i] == sub[i - 1]);
            }
        }
    }
}

/// Insertion keeps a table well formed.
pub proof fn lemma_insert_wf(t: Seq<SpecHeader>, h: SpecHeader)
    requires
        table_wf(t),
    ensures
        table_wf(spec_table_insert(t, h)),
{
    assert forall|k: HeaderKind| count_kind(spec_table_insert(t, h), k) <= 1 by {
        lemma_insert_count(t, h, k);
    }
}

/// Inserting two headers of one kind, one after the other, leaves
/// exactly one entry of that kind, and it holds the later header's
/// value: the table is a set keyed on kind where the later value wins.
pub proof fn lemma_insert_same_kind_replaces(t: Seq<SpecHeader>, h1: SpecHeader, h2: SpecHeader)
    requires
        table_wf(t),
        h1.kind == h2.kind,
    ensures
        table_wf(spec_table_insert(spec_table_insert(t, h1), h2)),
        count_kind(spec_table_insert(spec_table_insert(t, h1), h2), h2.kind) == 1,
        forall|i: int|
            0 <= i < spec_table_insert(spec_table_insert(t, h1), h2).len()
                && #[trigger] spec_table_insert(spec_table_insert(t, h1), h2)[i].kind == h2.kind
                ==> spec_table_insert(spec_table_insert(t, h1), h2)[i] == h2,
{
    let t1 = spec_table_insert(t, h1);
    lemma_insert_wf(t, h1);
    lemma_insert_wf(t1, h2);
    lemma_insert_count(t1, h2, h2.kind);
    lemma_insert_value(t1, h2);
}

/// When the kind is present at position `i`, insertion is an in-place
/// update there.
pub proof fn lemma_insert_at(t: Seq<SpecHeader>, h: SpecHeader, i: int)
    requires
        0 <= i < t.len(),
        t[i].kind == h.kind,
        forall|j: int| 0 <= j < i ==> t[j].kind != h.kind,
    ensures
        spec_table_insert(t, h) == t.update(i, h),
    decreases i,
{
    if i == 0 {
        assert(seq![h] + t.drop_first() =~= t.update(0, h));
    } else {
        assert(t.drop_first()[i - 1] == t[i]);
        assert forall|j: int| 0 <= j < i - 1 implies t.drop_first()[j].kind != h.kind by {
            assert(t.drop_first()[j] == t[j + 1]);
        }
        lemma_insert_at(t.drop_first(), h, i - 1);
        assert(seq![t[0]] + t.drop_first().update(i - 1, h) =~= t.update(i, h));
    }
}

/// When the kind is absent, insertion appends.
pub proof fn lemma_insert_absent(t: Seq<SpecHeader>, h: SpecHeader)
    requires
        forall|j: int| 0 <= j < t.len() ==> t[j].kind != h.kind,
    ensures
        spec_table_insert(t, h) == t.push(h),
    decreases t.len(),
{
    if t.len() == 0 {
        assert(seq![h] =~= t.push(h));
    } else {
        assert forall|j: int| 0 <= j < t.drop_first().len() implies t.drop_first()[j].kind
            != h.kind by {
            assert(t.drop_first()[j] == t[j + 1]);
        }
        lemma_insert_absent(t.drop_first(), h);
        assert(seq![t[0]] + t.drop_first().push(h) =~= t.push(h));
    }
}

/// An ordered collection of headers, at most one of each kind, with
/// insert-or-replace semantics and a stable serialization order.
#[derive(Debug, Clone)]
pub struct HeaderTable {
    entries: Vec<Header>,
}

impl View for HeaderTable {
    type V = Seq<SpecHeader>;

    closed spec fn view(&self) -> Seq<SpecHeader> {
        self.entries@.map_values(|h: Header| h@)
    }
}

impl HeaderTable {
    /// The empty table.
    pub fn new() -> (r: Self)
        ensures
            r@ =~= Seq::<SpecHeader>::empty(),
            table_wf(r@),
    {
        let r = Self { entries: Vec::new() };
        proof {
            assert(r@ =~= Seq::<SpecHeader>::empty());
            assert forall|k: HeaderKind| count_kind(r@, k) <= 1 by {}
        }
        r
    }

    pub fn len(&self) -> (r: usize)
        ensures
            r == self@.len(),
    {
        self.entries.len()
    }

    pub fn get(&self, i: usize) -> (r: &Header)
        requires
            i < self@.len(),
        ensures
            r@ == self@[i as int],
    {
        &self.entries[i]
    }

    /// Insert `h` by its kind: replace the entry of the same kind in
    /// place if there is one, append otherwise. The later value wins.
    pub fn insert(&mut self, h: Header)
        requires
            table_wf(old(self)@),
        ensures
            final(self)@ == spec_table_insert(old(self)@, h@),
            table_wf(final(self)@),
    {
        proof {
            lemma_insert_wf(old(self)@, h@);
        }
        let k = h.kind();
        let n = self.entries.len();
        let mut i: usize = 0;
        #[verifier::loop_isolation(false)]
        while i < n
            invariant
                0 <= i <= n,
                n == self@.len(),
                self == old(self),
                forall|j: int| 0 <= j < i ==> self@[j].kind != h@.kind,
            decreases n - i,
        {
            if self.entries[i].kind() == k {
                self.entries.set(i, h);
                proof {
                    lemma_insert_at(old(self)@, h@, i as int);
                    assert(self@ =~= old(self)@.update(i as int, h@));
                }
                return ;
            }
            i = i + 1;
        }
        self.entries.push(h);
        proof {
            lemma_insert_absent(old(self)@, h@);
            assert(self@ =~= old(self)@.push(h@));
        }
    }
}

} // verus!
