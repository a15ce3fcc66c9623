//! The cached reply to a command: what a replay hands back byte for byte.

use vstd::prelude::*;
use vstd::utf8::encode_utf8;

verus! {

/// Status code of a `303 See Other` redirect.
pub const SEE_OTHER: u16 = 303;

/// One response header: a name and its raw value.
pub struct HeaderPair {
    pub name: String,
    pub value: Vec<u8>,
}

/// A complete reply: status code, ordered headers and raw body.
pub struct CachedResponse {
    pub status: u16,
    pub headers: Vec<HeaderPair>,
    pub body: Vec<u8>,
}

/// What a response is, as data.
pub struct ResponseView {
    pub status: u16,
    pub headers: Seq<(Seq<char>, Seq<u8>)>,
    pub body: Seq<u8>,
}

impl View for HeaderPair {
    type V = (Seq<char>, Seq<u8>);

    open spec fn view(&self) -> (Seq<char>, Seq<u8>) {
        (self.name@, self.value@)
    }
}

impl View for CachedResponse {
    type V = ResponseView;

    open spec fn view(&self) -> ResponseView {
        ResponseView {
            status: self.status,
            headers: self.headers@.map_values(|h: HeaderPair| h@),
            body: self.body@,
        }
    }
}

/// Status codes that a reply can carry: three decimal digits.
pub open spec fn is_valid_status(code: int) -> bool {
    100 <= code <= 999
}

fn copy_bytes(v: &Vec<u8>) -> (r: Vec<u8>)
    ensures
        r@ == v@,
{
    let r = v.clone();
    assert(r@ =~= v@);
    r
}

impl HeaderPair {
    pub fn duplicate(&self) -> (r: HeaderPair)
        ensures
            r@ == self@,
    {
        HeaderPair { name: self.name.clone(), value: copy_bytes(&self.value) }
    }
}

impl CachedResponse {
    /// An identical, independently owned copy.
    pub fn duplicate(&self) -> (r: CachedResponse)
        ensures
            r@ == self@,
    {
        let mut headers: Vec<HeaderPair> = Vec::new();
        let mut i: usize = 0;
        while i < self.headers.len()
            invariant
                0 <= i <= self.headers@.len(),
                headers@.len() == i,
                forall|j: int| 0 <= j < i ==> (#[trigger] headers@[j])@ == self.headers@[j]@,
            decreases self.headers@.len() - i,
        {
            let h = self.headers[i].duplicate();
            headers.push(h);
            i = i + 1;
        }
        assert(headers@.map_values(|h: HeaderPair| h@) =~= self.headers@.map_values(
            |h: HeaderPair| h@,
        ));
        CachedResponse { status: self.status, headers, body: copy_bytes(&self.body) }
    }
}

/// A response as a database row holds it: the status code as a signed
/// 16-bit column.
pub struct StoredResponse {
    pub status_code: i16,
    pub headers: Vec<HeaderPair>,
    pub body: Vec<u8>,
}

pub struct StoredView {
    pub status_code: i16,
    pub headers: Seq<(Seq<char>, Seq<u8>)>,
    pub body: Seq<u8>,
}

impl View for StoredResponse {
    type V = StoredView;

    open spec fn view(&self) -> StoredView {
        StoredView {
            status_code: self.status_code,
            headers: self.headers@.map_values(|h: HeaderPair| h@),
            body: self.body@,
        }
    }
}

/// A stored row names a status that no reply can carry.
#[derive(Debug, Clone, Copy, PartialEq, Eq, Structural)]
pub enum ResponseError {
    InvalidStatusCode,
}

/// The row that saving `r` writes.
pub open spec fn stored_form(r: ResponseView) -> StoredView {
    StoredView { status_code: r.status as i16, headers: r.headers, body: r.body }
}

/// The reply that a row describes, if its status is valid.
pub open spec fn restored_form(st: StoredView) -> Option<ResponseView> {
    if is_valid_status(st.status_code as int) {
        Some(ResponseView { status: st.status_code as u16, headers: st.headers, body: st.body })
    } else {
        None
    }
}

fn copy_headers(v: &Vec<HeaderPair>) -> (r: Vec<HeaderPair>)
    ensures
        r@.map_values(|h: HeaderPair| h@) == v@.map_values(|h: HeaderPair| h@),
{
    let mut out: Vec<HeaderPair> = Vec::new();
    let mut i: usize = 0;
    while i < v.len()
        invariant
            0 <= i <= v@.len(),
            out@.len() == i,
            forall|j: int| 0 <= j < i ==> (#[trigger] out@[j])@ == v@[j]@,
        decreases v@.len() - i,
    {
        out.push(v[i].duplicate());
        i = i + 1;
    }
    assert(out@.map_values(|h: HeaderPair| h@) =~= v@.map_values(|h: HeaderPair| h@));
    out
}

impl CachedResponse {
    /// The row to save for this reply; refused when the status is not a
    /// three-digit code.
    pub fn to_stored(&self) -> (r: Result<StoredResponse, ResponseError>)
        ensures
            match r {
                Ok(st) => is_valid_status(self.status as int) && st@ == stored_form(self@),
                Err(_) => !is_valid_status(self.status as int),
            },
    {
        if self.status < 100 || self.status > 999 {
            return Err(ResponseError::InvalidStatusCode);
        }
        Ok(
            StoredResponse {
                status_code: self.status as i16,
                headers: copy_headers(&self.headers),
                body: copy_bytes(&self.body),
            },
        )
    }
}

impl StoredResponse {
    /// Rebuilds the saved reply exactly as it was saved.
    pub fn into_response(self) -> (r: Result<CachedResponse, ResponseError>)
        ensures
            match restored_form(self@) {
                Some(v) => r is Ok && r->Ok_0@ == v,
                None => r == Err::<CachedResponse, ResponseError>(ResponseError::InvalidStatusCode),
            },
    {
        if self.status_code < 100 || self.status_code > 999 {
            return Err(ResponseError::InvalidStatusCode);
        }
        Ok(
            CachedResponse {
                status: self.status_code as u16,
                headers: self.headers,
                body: self.body,
            },
        )
    }
}

/// Saving a reply and reading it back yields the same reply, byte for byte.
pub proof fn lemma_stored_round_trip(r: ResponseView)
    requires
        is_valid_status(r.status as int),
    ensures
        restored_form(stored_form(r)) == Some(r),
{
}

/// A `303 See Other` redirect to `location`, with an empty body.
pub fn see_other(location: &str) -> (r: CachedResponse)
    ensures
        r@ == (ResponseView {
            status: SEE_OTHER,
            headers: seq![(seq!['l', 'o', 'c', 'a', 't', 'i', 'o', 'n'], encode_utf8(location@))],
            body: Seq::empty(),
        }),
{
    proof {
        reveal_strlit("location");
    }
    let mut headers: Vec<HeaderPair> = Vec::new();
    headers.push(HeaderPair { name: String::from_str("location"), value: location.as_bytes_vec() });
    let r = CachedResponse { status: SEE_OTHER, headers, body: Vec::new() };
    assert(r@.headers[0].0 =~= seq!['l', 'o', 'c', 'a', 't', 'i', 'o', 'n']);
    assert(r@.headers =~= seq![(seq!['l', 'o', 'c', 'a', 't', 'i', 'o', 'n'], encode_utf8(location@))]);
    r
}

} // verus!
