use vstd::prelude::*;
use vstd::slice::slice_to_vec;

verus! {

/// One response header: its name and its raw value.
pub struct HeaderPair {
    pub name: String,
    pub value: Vec<u8>,
}

impl View for HeaderPair {
    type V = (Seq<char>, Seq<u8>);

    open spec fn view(&self) -> (Seq<char>, Seq<u8>) {
        (self.name@, self.value@)
    }
}

impl Clone for HeaderPair {
    fn clone(&self) -> (r: Self)
        ensures
            r@ == self@,
    {
        HeaderPair { name: self.name.clone(), value: slice_to_vec(self.value.as_slice()) }
    }
}

/// What a saved response is: status, headers in order (duplicates kept), body bytes.
pub struct ResponseModel {
    pub status_code: u16,
    pub headers: Seq<(Seq<char>, Seq<u8>)>,
    pub body: Seq<u8>,
}

/// An HTTP response as the response cache keeps it.
pub struct SavedResponse {
    pub status_code: u16,
    pub headers: Vec<HeaderPair>,
    pub body: Vec<u8>,
}

/// The views of a sequence of headers.
pub open spec fn headers_view(hs: Seq<HeaderPair>) -> Seq<(Seq<char>, Seq<u8>)> {
    hs.map_values(|h: HeaderPair| h@)
}

impl View for SavedResponse {
    type V = ResponseModel;

    open spec fn view(&self) -> ResponseModel {
        ResponseModel {
            status_code: self.status_code,
            headers: headers_view(self.headers@),
            body: self.body@,
        }
    }
}

impl Clone for SavedResponse {
    fn clone(&self) -> (r: Self)
        ensures
            r@ == self@,
    {
        let mut headers: Vec<HeaderPair> = Vec::new();
        let n = self.headers.len();
        let mut i: usize = 0;
        while i < n
            invariant
                n == self.headers@.len(),
                i <= n,
                headers@.len() == i,
                forall|j: int| 0 <= j < i ==> #[trigger] headers@[j]@ == self.headers@[j]@,
            decreases n - i,
        {
            headers.push(self.headers[i].clone());
            i = i + 1;
        }
        assert(headers_view(headers@) =~= headers_view(self.headers@));
        SavedResponse {
            status_code: self.status_code,
            headers,
            body: slice_to_vec(self.body.as_slice()),
        }
    }
}

/// The status code of a redirect to another page.
pub const SEE_OTHER: u16 = 303;

/// The response that redirects to `location`: status 303, one `location` header, no body.
pub open spec fn see_other_model(location: Seq<char>) -> ResponseModel {
    ResponseModel {
        status_code: SEE_OTHER,
        headers: seq![("location"@, vstd::utf8::encode_utf8(location))],
        body: Seq::empty(),
    }
}

/// Builds a redirect to `location`.
pub fn see_other(location: &str) -> (r: SavedResponse)
    ensures
        r@ == see_other_model(location@),
{
    let header = HeaderPair { name: String::from_str("location"), value: location.as_bytes_vec() };
    let mut headers: Vec<HeaderPair> = Vec::new();
    headers.push(header);
    let r = SavedResponse { status_code: SEE_OTHER, headers, body: Vec::new() };
    assert(headers_view(r.headers@) =~= see_other_model(location@).headers);
    r
}

} // verus!
