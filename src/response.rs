use std::io::Write;
use vstd::prelude::*;

use crate::bytes::{
    bytes_eq, bytes_lt, decimal, lemma_lex_asymmetric, lemma_lex_irreflexive, lemma_lex_total,
    lemma_lex_transitive, lex_lt, push_bytes, push_decimal, push_str, text,
};
use crate::http::{reason_phrase, version_text, Body, BodyView, StatusCode, Version};

verus! {

/// Header fields as (key, value) byte strings, in emission order.
pub type HeaderList = Seq<(Seq<u8>, Seq<u8>)>;

/// The mathematical content of a response.
pub ghost struct ResponseView {
    pub version: Version,
    pub status: u16,
    pub headers: HeaderList,
    pub body: BodyView,
}

/// Keys strictly increasing: each key present once, in sorted order.
pub open spec fn sorted_headers(h: HeaderList) -> bool {
    forall|i: int, j: int| 0 <= i < j < h.len() ==> lex_lt(#[trigger] h[i].0, #[trigger] h[j].0)
}

/// Sets `key` to `value`: replaces the value of an equal key, otherwise places the
/// pair before the first greater key.
pub open spec fn insert_header(h: HeaderList, key: Seq<u8>, value: Seq<u8>) -> HeaderList
    decreases h.len(),
{
    if h.len() == 0 {
        seq![(key, value)]
    } else if h[0].0 == key {
        seq![(key, value)] + h.drop_first()
    } else if lex_lt(key, h[0].0) {
        seq![(key, value)] + h
    } else {
        seq![h[0]] + insert_header(h.drop_first(), key, value)
    }
}

pub open spec fn header_line(p: (Seq<u8>, Seq<u8>)) -> Seq<u8> {
    p.0 + text(": ") + p.1 + text("\r\n")
}

pub open spec fn header_lines(h: HeaderList) -> Seq<u8>
    decreases h.len(),
{
    if h.len() == 0 {
        Seq::empty()
    } else {
        header_lines(h.drop_last()) + header_line(h.last())
    }
}

pub open spec fn status_line(r: ResponseView) -> Seq<u8> {
    text(version_text(r.version)) + text(" ") + decimal(r.status as nat) + text(" ") + text(
        reason_phrase(r.status),
    ) + text("\r\n")
}

/// `Content-Length`, the blank line, then the body bytes.
pub open spec fn length_block(b: Seq<u8>) -> Seq<u8> {
    text("Content-Length: ") + decimal(b.len()) + text("\r\n") + text("\r\n") + b
}

/// The bytes of a response on the wire; `gz` is the compressed form of a byte
/// body when compression is on.
pub open spec fn wire(r: ResponseView, gz: Option<Seq<u8>>) -> Seq<u8> {
    status_line(r) + header_lines(r.headers) + match r.body {
        BodyView::Bytes(b) => match gz {
            Some(c) => text("Content-Encoding: gzip\r\n") + length_block(c),
            None => length_block(b),
        },
        _ => text("Content-Length: 0\r\n"),
    }
}

/// What the gzip encoder produces from the given bytes.
pub uninterp spec fn gzip_of(b: Seq<u8>) -> Seq<u8>;

/// Relies on flate2's `GzEncoder` (default header, default level) writing into a
/// `Vec`: the finished stream is the gzip member for `b`.
#[verifier::external_body]
fn gzip(b: &Vec<u8>) -> (r: Option<Vec<u8>>)
    ensures
        r matches Some(c) ==> c@ == gzip_of(b@),
{
    let mut encoder = flate2::write::GzEncoder::new(Vec::new(), flate2::Compression::default());
    match encoder.write_all(b) {
        Ok(()) => encoder.finish().ok(),
        Err(_) => None,
    }
}

pub open spec fn headers_view(h: Seq<(Vec<u8>, Vec<u8>)>) -> HeaderList {
    h.map_values(|p: (Vec<u8>, Vec<u8>)| (p.0@, p.1@))
}

/// A response: status, headers kept sorted by key, and a body.
pub struct HttpResponse {
    version: Version,
    status: StatusCode,
    headers: Vec<(Vec<u8>, Vec<u8>)>,
    body: Body,
}

impl View for HttpResponse {
    type V = ResponseView;

    closed spec fn view(&self) -> ResponseView {
        ResponseView {
            version: self.version,
            status: self.status.0,
            headers: headers_view(self.headers@),
            body: self.body@,
        }
    }
}

/// Accumulates status, headers and body of one response.
pub struct HttpResponseBuilder {
    inner: HttpResponse,
}

impl View for HttpResponseBuilder {
    type V = ResponseView;

    closed spec fn view(&self) -> ResponseView {
        self.inner@
    }
}

/// A fresh response of the given status: HTTP/1.0, no headers, empty body.
pub open spec fn fresh(status: u16) -> ResponseView {
    ResponseView {
        version: Version::Http10,
        status,
        headers: Seq::empty(),
        body: BodyView::Empty,
    }
}

impl HttpResponse {
    pub fn new(status: StatusCode) -> (r: HttpResponseBuilder)
        ensures
            r@ == fresh(status.0),
    {
        let r = HttpResponseBuilder {
            inner: HttpResponse {
                version: Version::Http10,
                status,
                headers: Vec::new(),
                body: Body::Empty,
            },
        };
        assert(headers_view(r.inner.headers@) =~= Seq::empty());
        r
    }

    pub fn ok() -> (r: HttpResponseBuilder)
        ensures
            r@ == fresh(200),
    {
        Self::new(StatusCode(200))
    }

    pub fn not_found() -> (r: HttpResponseBuilder)
        ensures
            r@ == fresh(404),
    {
        Self::new(StatusCode(404))
    }

    pub fn internal_server_error() -> (r: HttpResponseBuilder)
        ensures
            r@ == fresh(500),
    {
        Self::new(StatusCode(500))
    }

    pub fn bad_request() -> (r: HttpResponseBuilder)
        ensures
            r@ == fresh(400),
    {
        Self::new(StatusCode(400))
    }

    pub fn version(&self) -> (r: Version)
        ensures
            r == self@.version,
    {
        self.version
    }

    pub fn status(&self) -> (r: StatusCode)
        ensures
            r.0 == self@.status,
    {
        self.status
    }

    /// The wire form of this response, with `compressed` standing for the
    /// compressed form of a byte body (ignored for other bodies).
    pub fn to_wire(&self, compressed: Option<&Vec<u8>>) -> (r: Vec<u8>)
        ensures
            r@ == wire(
                self@,
                match compressed {
                    Some(c) => Some(c@),
                    None => None,
                },
            ),
    {
        let mut out: Vec<u8> = Vec::new();
        push_str(&mut out, self.version.as_str());
        push_str(&mut out, " ");
        push_decimal(&mut out, self.status.0 as usize);
        push_str(&mut out, " ");
        push_str(&mut out, self.status.phrase());
        push_str(&mut out, "\r\n");
        assert(out@ =~= status_line(self@));
        let ghost head = out@;
        let ghost hv = headers_view(self.headers@);
        let mut i: usize = 0;
        while i < self.headers.len()
            invariant
                i <= self.headers@.len(),
                hv == headers_view(self.headers@),
                out@ == head + header_lines(hv.take(i as int)),
            decreases self.headers.len() - i,
        {
            let ghost before = out@;
            push_bytes(&mut out, self.headers[i].0.as_slice());
            push_str(&mut out, ": ");
            push_bytes(&mut out, self.headers[i].1.as_slice());
            push_str(&mut out, "\r\n");
            assert(hv.take(i + 1).drop_last() =~= hv.take(i as int));
            assert(out@ =~= before + header_line(hv[i as int]));
            i = i + 1;
        }
        assert(hv.take(i as int) =~= hv);
        let ghost before_body = out@;
        match &self.body {
            Body::Bytes(b) => {
                match compressed {
                    Some(c) => {
                        push_str(&mut out, "Content-Encoding: gzip\r\n");
                        push_length_block(&mut out, c);
                    },
                    None => {
                        push_length_block(&mut out, b);
                    },
                }
            },
            _ => {
                push_str(&mut out, "Content-Length: 0\r\n");
            },
        }
        assert(out@ =~= wire(
            self@,
            match compressed {
                Some(c) => Some(c@),
                None => None,
            },
        ));
        out
    }

    /// Serializes this response, compressing a byte body when `compress` is set.
    /// Gives `None` only when the compressor fails.
    pub fn encode(&self, compress: bool) -> (r: Option<Vec<u8>>)
        ensures
            !(compress && self@.body is Bytes) ==> (r matches Some(v) && v@ == wire(self@, None)),
            compress && self@.body is Bytes ==> (r matches Some(v) ==> v@ == wire(
                self@,
                Some(gzip_of(self@.body->Bytes_0)),
            )),
    {
        match &self.body {
            Body::Bytes(b) => {
                if compress {
                    match gzip(b) {
                        Some(c) => Some(self.to_wire(Some(&c))),
                        None => None,
                    }
                } else {
                    Some(self.to_wire(None))
                }
            },
            _ => Some(self.to_wire(None)),
        }
    }
}

impl HttpResponseBuilder {
    pub fn status(self, status: StatusCode) -> (r: Self)
        ensures
            r@ == (ResponseView { status: status.0, ..self@ }),
    {
        let mut b = self;
        b.inner.status = status;
        b
    }

    /// Sets header `key` to `value`; an earlier value of the same key is replaced.
    pub fn header(self, key: &str, value: &str) -> (r: Self)
        ensures
            r@ == (ResponseView {
                headers: insert_header(self@.headers, text(key), text(value)),
                ..self@
            }),
            sorted_headers(self@.headers) ==> sorted_headers(r@.headers),
    {
        let mut b = self;
        let mut k: Vec<u8> = Vec::new();
        push_str(&mut k, key);
        let mut v: Vec<u8> = Vec::new();
        push_str(&mut v, value);
        assert(k@ =~= text(key));
        assert(v@ =~= text(value));
        set_header(&mut b.inner.headers, k, v);
        b
    }

    /// Sets the body and finishes the response.
    pub fn body(self, body: Body) -> (r: HttpResponse)
        ensures
            r@ == (ResponseView { body: body@, ..self@ }),
    {
        let mut b = self;
        b.inner.body = body;
        b.inner
    }

    pub fn finish(self) -> (r: HttpResponse)
        ensures
            r@ == self@,
    {
        self.inner
    }
}

proof fn lemma_insert_at(h: HeaderList, key: Seq<u8>, value: Seq<u8>, i: int)
    requires
        0 <= i <= h.len(),
        forall|j: int| 0 <= j < i ==> lex_lt(#[trigger] h[j].0, key),
        i < h.len() ==> !lex_lt(h[i].0, key),
    ensures
        i < h.len() && h[i].0 == key ==> insert_header(h, key, value) == h.update(i, (key, value)),
        !(i < h.len() && h[i].0 == key) ==> insert_header(h, key, value) == h.insert(
            i,
            (key, value),
        ),
    decreases i,
{
    if i == 0 {
        if h.len() > 0 {
            lemma_lex_total(key, h[0].0);
            assert(h.update(0, (key, value)) =~= seq![(key, value)] + h.drop_first());
        }
        assert(h.insert(0, (key, value)) =~= seq![(key, value)] + h);
    } else {
        let t = h.drop_first();
        lemma_lex_asymmetric(h[0].0, key);
        lemma_lex_irreflexive(key);
        assert forall|j: int| 0 <= j < i - 1 implies lex_lt(#[trigger] t[j].0, key) by {
            assert(t[j] == h[j + 1]);
        }
        lemma_insert_at(t, key, value, i - 1);
        if i < h.len() {
            assert(h.update(i, (key, value)) =~= seq![h[0]] + t.update(i - 1, (key, value)));
        }
        assert(h.insert(i, (key, value)) =~= seq![h[0]] + t.insert(i - 1, (key, value)));
    }
}

/// Every lower bound of the old keys and of `key` bounds the new keys; sortedness is kept.
proof fn lemma_insert_sorted(h: HeaderList, key: Seq<u8>, value: Seq<u8>)
    requires
        sorted_headers(h),
    ensures
        sorted_headers(insert_header(h, key, value)),
        forall|x: Seq<u8>, j: int|
            #![trigger lex_lt(x, insert_header(h, key, value)[j].0)]
            lex_lt(x, key) && (forall|m: int| 0 <= m < h.len() ==> lex_lt(x, #[trigger] h[m].0))
                && 0 <= j < insert_header(h, key, value).len() ==> lex_lt(
                x,
                insert_header(h, key, value)[j].0,
            ),
    decreases h.len(),
{
    let r = insert_header(h, key, value);
    if h.len() == 0 {
    } else if h[0].0 == key {
        assert forall|i: int, j: int| 0 <= i < j < r.len() implies lex_lt(
            #[trigger] r[i].0,
            #[trigger] r[j].0,
        ) by {
            assert(r[j] == h[j]);
            if i > 0 {
                assert(r[i] == h[i]);
            }
        }
        assert forall|x: Seq<u8>, j: int|
            #![trigger lex_lt(x, r[j].0)]
            lex_lt(x, key) && (forall|m: int| 0 <= m < h.len() ==> lex_lt(x, #[trigger] h[m].0))
                && 0 <= j < r.len() implies lex_lt(x, r[j].0) by {
            if j > 0 {
                assert(r[j] == h[j]);
            }
        }
    } else if lex_lt(key, h[0].0) {
        assert forall|i: int, j: int| 0 <= i < j < r.len() implies lex_lt(
            #[trigger] r[i].0,
            #[trigger] r[j].0,
        ) by {
            assert(r[j] == h[j - 1]);
            if i > 0 {
                assert(r[i] == h[i - 1]);
            } else if j > 1 {
                lemma_lex_transitive(key, h[0].0, h[j - 1].0);
            }
        }
        assert forall|x: Seq<u8>, j: int|
            #![trigger lex_lt(x, r[j].0)]
            lex_lt(x, key) && (forall|m: int| 0 <= m < h.len() ==> lex_lt(x, #[trigger] h[m].0))
                && 0 <= j < r.len() implies lex_lt(x, r[j].0) by {
            if j > 0 {
                assert(r[j] == h[j - 1]);
            }
        }
    } else {
        let t = h.drop_first();
        assert(sorted_headers(t)) by {
            assert forall|i: int, j: int| 0 <= i < j < t.len() implies lex_lt(
                #[trigger] t[i].0,
                #[trigger] t[j].0,
            ) by {
                assert(t[i] == h[i + 1]);
                assert(t[j] == h[j + 1]);
            }
        }
        lemma_insert_sorted(t, key, value);
        let rt = insert_header(t, key, value);
        lemma_lex_total(key, h[0].0);
        assert(forall|m: int| 0 <= m < t.len() ==> lex_lt(h[0].0, #[trigger] t[m].0)) by {
            assert forall|m: int| 0 <= m < t.len() implies lex_lt(h[0].0, #[trigger] t[m].0) by {
                assert(t[m] == h[m + 1]);
            }
        }
        assert(lex_lt(h[0].0, key));
        assert forall|i: int, j: int| 0 <= i < j < r.len() implies lex_lt(
            #[trigger] r[i].0,
            #[trigger] r[j].0,
        ) by {
            assert(r[j] == rt[j - 1]);
            if i > 0 {
                assert(r[i] == rt[i - 1]);
            }
        }
        assert forall|x: Seq<u8>, j: int|
            #![trigger lex_lt(x, r[j].0)]
            lex_lt(x, key) && (forall|m: int| 0 <= m < h.len() ==> lex_lt(x, #[trigger] h[m].0))
                && 0 <= j < r.len() implies lex_lt(x, r[j].0) by {
            if j > 0 {
                assert(r[j] == rt[j - 1]);
                assert forall|m: int| 0 <= m < t.len() implies lex_lt(x, #[trigger] t[m].0) by {
                    assert(t[m] == h[m + 1]);
                }
            }
        }
    }
}

/// Setting two distinct header keys gives the same header list, and hence the same
/// emitted bytes, whichever key is set first.
pub proof fn lemma_header_order_independent(
    h: HeaderList,
    a: Seq<u8>,
    va: Seq<u8>,
    b: Seq<u8>,
    vb: Seq<u8>,
)
    requires
        a != b,
    ensures
        insert_header(insert_header(h, a, va), b, vb) == insert_header(
            insert_header(h, b, vb),
            a,
            va,
        ),
    decreases h.len(),
{
    lemma_lex_total(a, b);
    lemma_lex_asymmetric(a, b);
    if h.len() == 0 {
        let sa: HeaderList = seq![(a, va)];
        let sb: HeaderList = seq![(b, vb)];
        assert(insert_header(sa, b, vb) =~= insert_header(sb, a, va)) by {
            assert(sa.drop_first() =~= h);
            assert(sb.drop_first() =~= h);
            assert(insert_header(h, a, va) == sa);
            assert(insert_header(h, b, vb) == sb);
            assert(seq![(a, va)] + sb =~= seq![(a, va), (b, vb)]);
            assert(seq![(b, vb)] + sa =~= seq![(b, vb), (a, va)]);
        }
    } else {
        let x = h[0].0;
        let t = h.drop_first();
        lemma_lex_total(a, x);
        lemma_lex_total(b, x);
        lemma_lex_asymmetric(a, x);
        lemma_lex_asymmetric(b, x);
        lemma_lex_irreflexive(a);
        lemma_lex_irreflexive(b);
        if lex_lt(a, x) && lex_lt(x, b) {
            lemma_lex_transitive(a, x, b);
        }
        if lex_lt(b, x) && lex_lt(x, a) {
            lemma_lex_transitive(b, x, a);
        }
        if !lex_lt(a, x) && a != x && !lex_lt(b, x) && b != x {
            lemma_header_order_independent(t, a, va, b, vb);
        }
        let l = insert_header(insert_header(h, a, va), b, vb);
        let r = insert_header(insert_header(h, b, vb), a, va);
        let ia = insert_header(h, a, va);
        let ib = insert_header(h, b, vb);
        assert(ia.len() > 0 && ib.len() > 0);
        assert(ia.drop_first() =~= if a == x {
            t
        } else if lex_lt(a, x) {
            h
        } else {
            insert_header(t, a, va)
        });
        assert(ib.drop_first() =~= if b == x {
            t
        } else if lex_lt(b, x) {
            h
        } else {
            insert_header(t, b, vb)
        });
        if lex_lt(a, x) && lex_lt(b, x) {
            assert(h.drop_first() =~= t);
        }
        if a == x && lex_lt(b, x) {
            let sa: HeaderList = seq![(a, va)] + t;
            assert(sa.drop_first() =~= t);
            assert((seq![(b, vb)] + h).drop_first() =~= h);
        }
        if b == x && lex_lt(a, x) {
            let sb: HeaderList = seq![(b, vb)] + t;
            assert(sb.drop_first() =~= t);
            assert((seq![(a, va)] + h).drop_first() =~= h);
        }
        assert(l =~= r);
    }
}

fn set_header(headers: &mut Vec<(Vec<u8>, Vec<u8>)>, key: Vec<u8>, value: Vec<u8>)
    ensures
        headers_view(final(headers)@) == insert_header(headers_view(old(headers)@), key@, value@),
        sorted_headers(headers_view(old(headers)@)) ==> sorted_headers(
            headers_view(final(headers)@),
        ),
{
    let ghost h = headers_view(headers@);
    let mut i: usize = 0;
    while i < headers.len() && bytes_lt(&headers[i].0, &key)
        invariant
            i <= headers@.len(),
            h == headers_view(headers@),
            forall|j: int| 0 <= j < i ==> lex_lt(#[trigger] h[j].0, key@),
        decreases headers.len() - i,
    {
        i = i + 1;
    }
    proof {
        lemma_insert_at(h, key@, value@, i as int);
        if sorted_headers(h) {
            lemma_insert_sorted(h, key@, value@);
        }
    }
    let ghost kv = (key@, value@);
    if i < headers.len() && bytes_eq(&headers[i].0, &key) {
        headers.set(i, (key, value));
        assert(headers_view(headers@) =~= h.update(i as int, kv));
    } else {
        headers.insert(i, (key, value));
        assert(headers_view(headers@) =~= h.insert(i as int, kv));
    }
}

fn push_length_block(out: &mut Vec<u8>, b: &Vec<u8>)
    ensures
        final(out)@ == old(out)@ + length_block(b@),
{
    let ghost start = out@;
    push_str(out, "Content-Length: ");
    push_decimal(out, b.len());
    push_str(out, "\r\n");
    push_str(out, "\r\n");
    push_bytes(out, b.as_slice());
    assert(out@ =~= start + length_block(b@));
}

} // verus!
