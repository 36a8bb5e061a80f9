//! The response model: a status code, a header list and a body.
//!
//! Success responses carry a JSON body with status 200; the dispatcher may
//! afterwards clear the body (HEAD fallback) and inject endpoint-level extra
//! headers, never overriding a header the response already carries.

use vstd::prelude::*;
use vstd::string::StringSliceAdditionalSpecFns;
use crate::config::{HeadersView, RawHeaders};

verus! {

/// An HTTP response in plain form.
pub struct Response {
    status: u16,
    headers: RawHeaders,
    body: Vec<u8>,
}

/// Whether the header list `h` already carries a header named `name`.
pub open spec fn headers_contain(h: HeadersView, name: Seq<char>) -> bool {
    exists|i: int| 0 <= i < h.len() && (#[trigger] h[i]).0 == name
}

/// The header list after injecting `extra` into `h` one entry at a time,
/// adding each entry only when its name is not yet present.
pub open spec fn spec_apply_extra(h: HeadersView, extra: HeadersView) -> HeadersView
    decreases extra.len(),
{
    if extra.len() == 0 {
        h
    } else {
        let h2 = if headers_contain(h, extra[0].0) {
            h
        } else {
            h.push(extra[0])
        };
        spec_apply_extra(h2, extra.skip(1))
    }
}

impl Response {
    /// The HTTP status code.
    pub closed spec fn spec_status(&self) -> u16 {
        self.status
    }

    /// The headers, in insertion order.
    pub closed spec fn spec_headers(&self) -> HeadersView {
        self.headers.deep_view()
    }

    /// The body bytes.
    pub closed spec fn spec_body(&self) -> Seq<u8> {
        self.body@
    }

    /// A response with the given status, a JSON content type and `body`.
    pub fn json_response(status: u16, body: Vec<u8>) -> (r: Self)
        ensures
            r.spec_status() == status,
            r.spec_body() == body@,
            r.spec_headers() =~~= seq![
                ("Content-Type"@, seq!["application/json".spec_bytes()]),
            ],
    {
        let mut value: Vec<Vec<u8>> = Vec::new();
        value.push("application/json".as_bytes_vec());
        let mut headers: RawHeaders = Vec::new();
        headers.push(("Content-Type".to_owned(), value));
        Response { status, headers, body }
    }

    /// A successful response: status 200 with the given JSON body.
    pub fn success_json(body: Vec<u8>) -> (r: Self)
        ensures
            r.spec_status() == 200,
            r.spec_body() == body@,
            r.spec_headers() =~~= seq![
                ("Content-Type"@, seq!["application/json".spec_bytes()]),
            ],
    {
        Response::json_response(200, body)
    }

    /// Replaces the body, keeping status and headers.
    pub fn set_body(&mut self, body: Vec<u8>)
        ensures
            final(self).spec_status() == old(self).spec_status(),
            final(self).spec_headers() == old(self).spec_headers(),
            final(self).spec_body() == body@,
    {
        self.body = body;
    }

    /// The status code.
    pub fn status(&self) -> (r: u16)
        ensures
            r == self.spec_status(),
    {
        self.status
    }

    /// A reference to the body bytes.
    pub fn body(&self) -> (r: &Vec<u8>)
        ensures
            r@ == self.spec_body(),
    {
        &self.body
    }

    /// A reference to the header list.
    pub fn headers(&self) -> (r: &RawHeaders)
        ensures
            r.deep_view() == self.spec_headers(),
    {
        &self.headers
    }

    /// Whether a header named `name` is already set.
    pub fn has_header(&self, name: &String) -> (r: bool)
        ensures
            r == headers_contain(self.spec_headers(), name@),
    {
        let mut i: usize = 0;
        while i < self.headers.len()
            invariant
                i <= self.headers@.len(),
                self.spec_headers().len() == self.headers@.len(),
                forall|j: int| 0 <= j < i ==> (#[trigger] self.spec_headers()[j]).0 != name@,
            decreases self.headers@.len() - i,
        {
            if self.headers[i].0 == *name {
                proof {
                    assert(self.spec_headers()[i as int].0 == name@);
                }
                return true;
            }
            proof {
                assert(self.spec_headers()[i as int].0 == self.headers@[i as int].0@);
            }
            i = i + 1;
        }
        false
    }

    /// Adds each entry of `extra` whose name the response does not yet
    /// carry, in order; entries with already-present names are dropped.
    pub fn add_extra_headers(&mut self, extra: &RawHeaders)
        ensures
            final(self).spec_status() == old(self).spec_status(),
            final(self).spec_body() == old(self).spec_body(),
            final(self).spec_headers() == spec_apply_extra(
                old(self).spec_headers(),
                extra.deep_view(),
            ),
    {
        let ghost goal = spec_apply_extra(old(self).spec_headers(), extra.deep_view());
        proof {
            assert(extra.deep_view().skip(0) =~= extra.deep_view());
        }
        let mut i: usize = 0;
        while i < extra.len()
            invariant
                i <= extra@.len(),
                extra.deep_view().len() == extra@.len(),
                self.status == old(self).spec_status(),
                self.body@ == old(self).spec_body(),
                goal == spec_apply_extra(self.spec_headers(), extra.deep_view().skip(i as int)),
            decreases extra@.len() - i,
        {
            let ghost pre = self.spec_headers();
            let (name, values) = &extra[i];
            proof {
                assert(extra.deep_view()[i as int] == (name@, values.deep_view()));
                assert(extra.deep_view().skip(i as int)[0] == extra.deep_view()[i as int]);
            }
            if !self.has_header(name) {
                let mut vs: Vec<Vec<u8>> = Vec::new();
                let mut j: usize = 0;
                while j < values.len()
                    invariant
                        j <= values@.len(),
                        vs.deep_view() == values.deep_view().take(j as int),
                        vs@.len() == j,
                    decreases values@.len() - j,
                {
                    vs.push(copy_byte_vec(&values[j]));
                    proof {
                        assert(vs.deep_view() =~~= values.deep_view().take(j as int + 1));
                    }
                    j = j + 1;
                }
                proof {
                    assert(vs.deep_view() =~~= values.deep_view());
                }
                self.headers.push((name.clone(), vs));
                proof {
                    assert(self.spec_headers() =~~= pre.push((name@, values.deep_view())));
                    assert(extra.deep_view().skip(i as int).skip(1) =~= extra.deep_view().skip(
                        i as int + 1,
                    ));
                }
            } else {
                proof {
                    assert(extra.deep_view().skip(i as int).skip(1) =~= extra.deep_view().skip(
                        i as int + 1,
                    ));
                }
            }
            i = i + 1;
        }
        proof {
            assert(extra.deep_view().skip(extra.deep_view().len() as int).len() == 0);
        }
    }
}

/// Copies a byte string.
fn copy_byte_vec(v: &Vec<u8>) -> (r: Vec<u8>)
    ensures
        r@ == v@,
{
    let mut r: Vec<u8> = Vec::new();
    let mut i: usize = 0;
    while i < v.len()
        invariant
            i <= v@.len(),
            r@ == v@.take(i as int),
        decreases v@.len() - i,
    {
        r.push(v[i]);
        proof {
            assert(r@ =~= v@.take(i as int + 1));
        }
        i = i + 1;
    }
    proof {
        assert(v@.take(v@.len() as int) =~= v@);
    }
    r
}

} // verus!
