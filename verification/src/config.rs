//! Router configuration: a sparse option record with inheritance.
//!
//! Every option is either unset or carries a value. `add` fills options left
//! unset from another configuration; `materialize` collapses the record to
//! concrete values using the documented defaults (`handle_head` on, no extra
//! headers).

use vstd::prelude::*;

verus! {

/// Header list in raw form: each entry pairs a header name with the list of
/// raw value byte strings set under that name.
pub type RawHeaders = Vec<(String, Vec<Vec<u8>>)>;

/// The mathematical value of a raw header list.
pub type HeadersView = Seq<(Seq<char>, Seq<Seq<u8>>)>;

/// A router configuration.
pub struct Config {
    handle_head: Option<bool>,
    extra_headers: Option<RawHeaders>,
}

/// A configuration with every option resolved to a concrete value.
pub struct MaterializedConfig {
    /// Answer HEAD requests with the GET handler (body stripped) when no HEAD
    /// handler is registered.
    pub handle_head: bool,
    /// Headers added to every response produced at the endpoint, unless the
    /// response already carries a header of the same name.
    pub extra_headers: RawHeaders,
}

impl Config {
    /// The `handle_head` option: unset, or an explicit choice.
    pub closed spec fn spec_handle_head(&self) -> Option<bool> {
        self.handle_head
    }

    /// The `extra_headers` option: unset, or an explicit header list.
    pub closed spec fn spec_extra_headers(&self) -> Option<HeadersView> {
        self.extra_headers.deep_view()
    }

    /// Creates a default config without any options.
    pub fn new() -> (c: Self)
        ensures
            c.spec_handle_head() is None,
            c.spec_extra_headers() is None,
    {
        Config { handle_head: None, extra_headers: None }
    }

    /// Creates a base config with default values explicitly set.
    ///
    /// Providing this config to a sub-router will not cause inheritance of
    /// any option from a parent router.
    pub fn base_config() -> (c: Self)
        ensures
            c.spec_handle_head() == Some(true),
            c.spec_extra_headers() == Some(Seq::<(Seq<char>, Seq<Seq<u8>>)>::empty()),
    {
        let c = Config { handle_head: Some(true), extra_headers: Some(Vec::new()) };
        proof {
            assert(c.extra_headers.deep_view() =~= Some(Seq::<(Seq<char>, Seq<Seq<u8>>)>::empty()));
        }
        c
    }

    /// Set to `Some(false)` to disable automatic handling of HEAD requests;
    /// `None` leaves the option unset.
    pub fn handle_head(self, handle_head: Option<bool>) -> (c: Self)
        ensures
            c.spec_handle_head() == handle_head,
            c.spec_extra_headers() == self.spec_extra_headers(),
    {
        Config { handle_head, ..self }
    }

    /// Additional headers that should be added to every response.
    /// Headers already set on a response are never overridden.
    pub fn extra_headers(self, extra_headers: Option<RawHeaders>) -> (c: Self)
        ensures
            c.spec_extra_headers() == extra_headers.deep_view(),
            c.spec_handle_head() == self.spec_handle_head(),
    {
        Config { extra_headers, ..self }
    }

    /// Use the other config's settings for options this one leaves unset.
    pub fn add(&mut self, other: &Config)
        ensures
            final(self).spec_handle_head() == (if old(self).spec_handle_head() is Some {
                old(self).spec_handle_head()
            } else {
                other.spec_handle_head()
            }),
            final(self).spec_extra_headers() == (if old(self).spec_extra_headers() is Some {
                old(self).spec_extra_headers()
            } else {
                other.spec_extra_headers()
            }),
    {
        if self.handle_head.is_none() {
            self.handle_head = other.handle_head;
        }
        if self.extra_headers.is_none() {
            self.extra_headers = match &other.extra_headers {
                Some(h) => Some(clone_raw_headers(h)),
                None => None,
            };
        }
    }

    /// Convert this config into a materialized config, resolving unset
    /// options to their defaults.
    pub fn materialize(&self) -> (m: MaterializedConfig)
        ensures
            m.handle_head == (match self.spec_handle_head() {
                Some(b) => b,
                None => true,
            }),
            m.extra_headers.deep_view() == (match self.spec_extra_headers() {
                Some(h) => h,
                None => Seq::<(Seq<char>, Seq<Seq<u8>>)>::empty(),
            }),
    {
        let handle_head = match self.handle_head {
            Some(b) => b,
            None => true,
        };
        let extra_headers = match &self.extra_headers {
            Some(h) => clone_raw_headers(h),
            None => Vec::new(),
        };
        proof {
            if self.spec_extra_headers() is None {
                assert(extra_headers.deep_view() =~= Seq::<(Seq<char>, Seq<Seq<u8>>)>::empty());
            }
        }
        MaterializedConfig { handle_head, extra_headers }
    }
}

impl Clone for Config {
    /// An exact copy: both options compare equal to the original's.
    fn clone(&self) -> (c: Self)
        ensures
            c.spec_handle_head() == self.spec_handle_head(),
            c.spec_extra_headers() == self.spec_extra_headers(),
    {
        Config {
            handle_head: self.handle_head,
            extra_headers: match &self.extra_headers {
                Some(h) => Some(clone_raw_headers(h)),
                None => None,
            },
        }
    }
}

/// Copies a byte string.
fn clone_bytes(v: &Vec<u8>) -> (r: Vec<u8>)
    ensures
        r@ == v@,
{
    let mut r: Vec<u8> = Vec::new();
    let mut i: usize = 0;
    while i < v.len()
        invariant
            i <= v.len(),
            r@ == v@.take(i as int),
        decreases v.len() - i,
    {
        r.push(v[i]);
        proof {
            assert(r@ =~= v@.take(i as int + 1));
        }
        i = i + 1;
    }
    proof {
        assert(v@.take(v@.len() as int) =~= v@);
    }
    r
}

/// Copies a header list, preserving its mathematical value.
pub fn clone_raw_headers(h: &RawHeaders) -> (r: RawHeaders)
    ensures
        r.deep_view() == h.deep_view(),
{
    let mut r: RawHeaders = Vec::new();
    let mut i: usize = 0;
    while i < h.len()
        invariant
            i <= h.len(),
            r@.len() == i,
            r.deep_view() == h.deep_view().take(i as int),
        decreases h.len() - i,
    {
        let (name, values) = &h[i];
        let mut vs: Vec<Vec<u8>> = Vec::new();
        let mut j: usize = 0;
        while j < values.len()
            invariant
                j <= values.len(),
                vs@.len() == j,
                vs.deep_view() == values.deep_view().take(j as int),
            decreases values.len() - j,
        {
            vs.push(clone_bytes(&values[j]));
            proof {
                assert(vs.deep_view() =~~= values.deep_view().take(j as int + 1));
            }
            j = j + 1;
        }
        proof {
            assert(vs.deep_view() =~= values.deep_view());
        }
        r.push((name.clone(), vs));
        proof {
            assert(r.deep_view() =~~= h.deep_view().take(i as int + 1));
        }
        i = i + 1;
    }
    proof {
        assert(h.deep_view().take(h@.len() as int) =~= h.deep_view());
    }
    r
}

} // verus!

