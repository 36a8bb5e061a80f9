//! The router: registration, composition and dispatch.
//!
//! A router owns a prefix tree of endpoints keyed by the UTF-8 bytes of each
//! registered pattern's static prefix, together with a draft configuration.
//! Each endpoint bundles up to six handler slots, distinguished by HTTP
//! method and by the number of path segments their pattern consumes. At
//! dispatch time the longest matching prefix selects the endpoint, and the
//! slot scan, HEAD fallback, method-not-allowed answer and extra-header
//! injection follow the rules proved here.

use vstd::prelude::*;
use vstd::string::StringSliceAdditionalSpecFns;
use vstd::utf8::{decode_utf8, encode_scalar, encode_utf8, is_char_boundary, valid_utf8};
use crate::config::{Config, HeadersView, MaterializedConfig};
use crate::error::{spec_error_body, Error};
use crate::prefix_tree::{lex_lt, visited_opt, Tree, TreeVisitor};
use crate::request::params::{first_brace, lemma_first_brace_le, param_entries, spec_pattern_of, Params, Parser};
use crate::response::{spec_apply_extra, Response};
use crate::segments::{count_segments, spec_arity, spec_split};

verus! {

/// HTTP method.
#[derive(Debug, PartialEq, Eq, Hash, Clone, Copy, Structural)]
pub enum Method {
    /// HEAD.
    Head,
    /// GET.
    Get,
    /// POST.
    Post,
    /// PATCH.
    Patch,
    /// DELETE.
    Delete,
    /// PUT.
    Put,
    /// OPTIONS.
    Options,
}

impl Method {
    /// The method's upper-case name.
    pub open spec fn spec_name(self) -> Seq<char> {
        match self {
            Method::Head => "HEAD"@,
            Method::Get => "GET"@,
            Method::Post => "POST"@,
            Method::Delete => "DELETE"@,
            Method::Put => "PUT"@,
            Method::Patch => "PATCH"@,
            Method::Options => "OPTIONS"@,
        }
    }

    /// The method's upper-case name.
    pub fn as_str(&self) -> (r: &'static str)
        ensures
            r@ == self.spec_name(),
    {
        match self {
            Method::Head => "HEAD",
            Method::Get => "GET",
            Method::Post => "POST",
            Method::Delete => "DELETE",
            Method::Put => "PUT",
            Method::Patch => "PATCH",
            Method::Options => "OPTIONS",
        }
    }
}

/// The most handler slots one endpoint can carry.
pub const MAX_NUMBER_OF_ENDPOINTS: usize = 6;

/// One registered handler slot: a method, the declared segment count with
/// its printable pattern, and the handler payload.
pub struct EndpointHandler<H> {
    /// The HTTP method this slot answers.
    pub method: Method,
    /// The declared segment count and the printable pattern.
    pub params: (usize, String),
    /// The handler payload.
    pub handler: H,
}

/// The first slot answering `m` with the declared segment count `arity`,
/// scanning from `i` in registration order.
pub open spec fn find_slot_from<H>(
    slots: Seq<EndpointHandler<H>>,
    m: Method,
    arity: int,
    i: int,
) -> Option<int>
    decreases slots.len() - i,
{
    if i < 0 || i >= slots.len() {
        None
    } else if slots[i].method == m && slots[i].params.0 == arity {
        Some(i)
    } else {
        find_slot_from(slots, m, arity, i + 1)
    }
}

/// The first slot answering `m` with the declared segment count `arity`.
pub open spec fn find_slot<H>(slots: Seq<EndpointHandler<H>>, m: Method, arity: int) -> Option<
    int,
> {
    find_slot_from(slots, m, arity, 0)
}

/// Whether any slot answers `m`, at whatever arity.
pub open spec fn has_method<H>(slots: Seq<EndpointHandler<H>>, m: Method) -> bool {
    exists|i: int| 0 <= i < slots.len() && (#[trigger] slots[i]).method == m
}

/// The comma-separated method names of the slots, in registration order.
pub open spec fn allowed_list<H>(slots: Seq<EndpointHandler<H>>, i: int) -> Seq<char>
    decreases i,
{
    if i <= 0 {
        Seq::empty()
    } else if i == 1 {
        slots[0].method.spec_name()
    } else {
        allowed_list(slots, i - 1) + ","@ + slots[i - 1].method.spec_name()
    }
}

/// The value stored at each terminal of the route tree: up to six handler
/// slots plus the endpoint's configuration.
pub struct Endpoint<H> {
    handlers: Vec<EndpointHandler<H>>,
    base_config: Config,
    config: MaterializedConfig,
}

/// What the dispatcher should do with a request that reached an endpoint.
pub enum Handling<'a, H> {
    /// Run this handler; afterwards the endpoint's [`Endpoint::finish`]
    /// must be applied to the produced response with the same `strip_body`
    /// flag.
    Invoke {
        /// The endpoint the handler belongs to.
        endpoint: &'a Endpoint<H>,
        /// The handler payload to run.
        handler: &'a H,
        /// Replace the response body with empty bytes (HEAD fallback).
        strip_body: bool,
    },
    /// Answer with this response without running any handler.
    Respond(Response),
}

/// `r` answers 404 with the given details, carrying the endpoint's extra
/// headers.
pub open spec fn responds_not_found<H>(r: Handling<H>, details: Seq<char>, extra: HeadersView) -> bool {
    r matches Handling::Respond(resp) && resp.spec_status() == 404 && resp.spec_body()
        == spec_error_body(404, "Requested resource was not found."@, details) && resp.spec_headers()
        == spec_apply_extra(
        seq![("Content-Type"@, seq!["application/json".spec_bytes()])],
        extra,
    )
}

/// `r` answers 405 naming the refused method and listing the allowed ones,
/// carrying the endpoint's extra headers.
pub open spec fn responds_not_allowed<H>(
    r: Handling<H>,
    m: Method,
    slots: Seq<EndpointHandler<H>>,
    extra: HeadersView,
) -> bool {
    r matches Handling::Respond(resp) && resp.spec_status() == 405 && resp.spec_body()
        == spec_error_body(
        405,
        "Method "@ + m.spec_name() + " is not allowed."@,
        "Allowed methods: "@ + allowed_list(slots, slots.len() as int),
    ) && resp.spec_headers() == spec_apply_extra(
        seq![("Content-Type"@, seq!["application/json".spec_bytes()])],
        extra,
    )
}

/// What [`Endpoint::handle`] decides for method `m` and the path suffix
/// `suffix` past the matched prefix: the first slot matching method and
/// observed arity is invoked; a right-method wrong-arity endpoint is 404; a
/// HEAD without a HEAD slot falls back to GET with a stripped body when the
/// configuration allows it; anything else is 405.
pub open spec fn handle_post<H>(
    e: Endpoint<H>,
    m: Method,
    suffix: Seq<char>,
    r: Handling<H>,
) -> bool {
    let ar = spec_arity(suffix);
    let slots = e.spec_slots();
    match find_slot(slots, m, ar) {
        Some(i) => r matches Handling::Invoke { endpoint, handler, strip_body } && *endpoint == e
            && *handler == slots[i].handler && strip_body == false,
        None => if has_method(slots, m) {
            responds_not_found(r, "Unable to find a handler."@, e.spec_extra_headers())
        } else if m == Method::Head && e.spec_handle_head() {
            match find_slot(slots, Method::Get, ar) {
                Some(i) => r matches Handling::Invoke { endpoint, handler, strip_body } && *endpoint
                    == e && *handler == slots[i].handler && strip_body == true,
                None => if has_method(slots, Method::Get) {
                    responds_not_found(r, "Unable to find a handler."@, e.spec_extra_headers())
                } else {
                    responds_not_allowed(r, Method::Get, slots, e.spec_extra_headers())
                },
            }
        } else {
            responds_not_allowed(r, m, slots, e.spec_extra_headers())
        },
    }
}

impl<H> Endpoint<H> {
    /// The handler slots, in registration order.
    pub closed spec fn spec_slots(&self) -> Seq<EndpointHandler<H>> {
        self.handlers@
    }

    /// The `handle_head` option the endpoint was left with.
    pub closed spec fn spec_handle_head(&self) -> bool {
        self.config.handle_head
    }

    /// The extra headers the endpoint adds to every response.
    pub closed spec fn spec_extra_headers(&self) -> HeadersView {
        self.config.extra_headers.deep_view()
    }

    /// The endpoint's sparse base configuration: the `handle_head` option.
    pub closed spec fn spec_base_handle_head(&self) -> Option<bool> {
        self.base_config.spec_handle_head()
    }

    /// The endpoint's sparse base configuration: the `extra_headers` option.
    pub closed spec fn spec_base_extra_headers(&self) -> Option<HeadersView> {
        self.base_config.spec_extra_headers()
    }

    /// An endpoint with no handlers whose configuration materializes
    /// `base_config`.
    pub fn with_config(base_config: Config) -> (e: Self)
        ensures
            e.spec_slots().len() == 0,
            e.spec_base_handle_head() == base_config.spec_handle_head(),
            e.spec_base_extra_headers() == base_config.spec_extra_headers(),
            e.spec_handle_head() == (match base_config.spec_handle_head() {
                Some(b) => b,
                None => true,
            }),
            e.spec_extra_headers() == (match base_config.spec_extra_headers() {
                Some(h) => h,
                None => Seq::<(Seq<char>, Seq<Seq<u8>>)>::empty(),
            }),
    {
        let config = base_config.materialize();
        Endpoint { handlers: Vec::new(), base_config, config }
    }

    /// Fills options the endpoint's base configuration leaves unset from
    /// `config`, and rematerializes.
    fn add_config(&mut self, config: &Config)
        ensures
            final(self).spec_slots() == old(self).spec_slots(),
            config_applied(*config, *old(self), *final(self)),
    {
        self.base_config.add(config);
        self.config = self.base_config.materialize();
    }

    /// Appends a handler slot, if a free one is left: at most six slots are
    /// supported, and slots never reorder.
    pub fn add(&mut self, method: Method, params: (usize, String), handler: H) -> (added: bool)
        ensures
            old(self).spec_slots().len() < 6 ==> added && final(self).spec_slots() == old(
                self,
            ).spec_slots().push(EndpointHandler { method, params, handler }),
            old(self).spec_slots().len() >= 6 ==> !added && final(self).spec_slots() == old(
                self,
            ).spec_slots(),
            final(self).spec_base_handle_head() == old(self).spec_base_handle_head(),
            final(self).spec_base_extra_headers() == old(self).spec_base_extra_headers(),
            final(self).spec_handle_head() == old(self).spec_handle_head(),
            final(self).spec_extra_headers() == old(self).spec_extra_headers(),
    {
        if self.handlers.len() < MAX_NUMBER_OF_ENDPOINTS {
            self.handlers.push(EndpointHandler { method, params, handler });
            true
        } else {
            false
        }
    }

    fn find_slot_exec(&self, m: Method, arity: usize) -> (r: Option<usize>)
        ensures
            match r {
                Some(i) => i < self.spec_slots().len() && find_slot(self.spec_slots(), m, arity as int)
                    == Some(i as int),
                None => find_slot(self.spec_slots(), m, arity as int) is None,
            },
    {
        let mut i: usize = 0;
        while i < self.handlers.len()
            invariant
                i <= self.handlers@.len(),
                find_slot(self.spec_slots(), m, arity as int) == find_slot_from(
                    self.spec_slots(),
                    m,
                    arity as int,
                    i as int,
                ),
            decreases self.handlers@.len() - i,
        {
            let slot = &self.handlers[i];
            if slot.method == m && slot.params.0 == arity {
                return Some(i);
            }
            i = i + 1;
        }
        None
    }

    fn has_method_exec(&self, m: Method) -> (r: bool)
        ensures
            r == has_method(self.spec_slots(), m),
    {
        let mut i: usize = 0;
        while i < self.handlers.len()
            invariant
                i <= self.handlers@.len(),
                forall|j: int| 0 <= j < i ==> (#[trigger] self.spec_slots()[j]).method != m,
            decreases self.handlers@.len() - i,
        {
            if self.handlers[i].method == m {
                return true;
            }
            i = i + 1;
        }
        false
    }

    /// The comma-separated names of the methods the endpoint answers.
    pub fn allowed_methods(&self) -> (r: String)
        ensures
            r@ == allowed_list(self.spec_slots(), self.spec_slots().len() as int),
    {
        let mut s = String::new();
        let mut i: usize = 0;
        while i < self.handlers.len()
            invariant
                i <= self.handlers@.len(),
                s@ == allowed_list(self.spec_slots(), i as int),
            decreases self.handlers@.len() - i,
        {
            if i > 0 {
                s.append(",");
            }
            s.append(self.handlers[i].method.as_str());
            i = i + 1;
        }
        s
    }

    /// Decides what to do for method `m` and the path suffix past the
    /// matched prefix.
    pub fn handle<'a>(&'a self, m: Method, suffix: &str) -> (r: Handling<'a, H>)
        ensures
            handle_post(*self, m, suffix@, r),
    {
        proof {
            assert(suffix@.skip(0) =~= suffix@);
        }
        let observed = count_segments(suffix, 0);
        match self.find_slot_exec(m, observed) {
            Some(i) => Handling::Invoke {
                endpoint: self,
                handler: &self.handlers[i].handler,
                strip_body: false,
            },
            None => {
                if self.has_method_exec(m) {
                    self.respond_not_found()
                } else if m == Method::Head && self.config.handle_head {
                    match self.find_slot_exec(Method::Get, observed) {
                        Some(i) => Handling::Invoke {
                            endpoint: self,
                            handler: &self.handlers[i].handler,
                            strip_body: true,
                        },
                        None => {
                            if self.has_method_exec(Method::Get) {
                                self.respond_not_found()
                            } else {
                                self.respond_not_allowed(Method::Get)
                            }
                        },
                    }
                } else {
                    self.respond_not_allowed(m)
                }
            },
        }
    }

    fn respond_not_found<'a>(&self) -> (r: Handling<'a, H>)
        ensures
            responds_not_found(r, "Unable to find a handler."@, self.spec_extra_headers()),
    {
        let mut resp = Error::not_found("Unable to find a handler.").to_response();
        resp.add_extra_headers(&self.config.extra_headers);
        Handling::Respond(resp)
    }

    fn respond_not_allowed<'a>(&self, m: Method) -> (r: Handling<'a, H>)
        ensures
            responds_not_allowed(r, m, self.spec_slots(), self.spec_extra_headers()),
    {
        let mut message = "Method ".to_owned();
        message.append(m.as_str());
        message.append(" is not allowed.");
        let mut details = "Allowed methods: ".to_owned();
        let allowed = self.allowed_methods();
        details.append(allowed.as_str());
        let mut resp = Error::method_not_allowed(message.as_str(), details.as_str()).to_response();
        resp.add_extra_headers(&self.config.extra_headers);
        Handling::Respond(resp)
    }

    /// Applies the endpoint's response post-processing after a handler ran:
    /// strips the body when asked (HEAD fallback), then injects the
    /// endpoint's extra headers without overriding existing ones.
    pub fn finish(&self, response: &mut Response, strip_body: bool)
        ensures
            final(response).spec_status() == old(response).spec_status(),
            final(response).spec_body() == (if strip_body {
                Seq::<u8>::empty()
            } else {
                old(response).spec_body()
            }),
            final(response).spec_headers() == spec_apply_extra(
                old(response).spec_headers(),
                self.spec_extra_headers(),
            ),
    {
        if strip_body {
            response.set_body(Vec::new());
        }
        response.add_extra_headers(&self.config.extra_headers);
    }
}

/// How composition rewrites a child endpoint: the slots stay, the parent's
/// configuration fills exactly the options the child left unset, and the
/// materialized configuration follows.
pub open spec fn config_applied<H>(parent: Config, before: Endpoint<H>, after: Endpoint<H>) -> bool {
    &&& after.spec_slots() == before.spec_slots()
    &&& after.spec_base_handle_head() == (if before.spec_base_handle_head() is Some {
        before.spec_base_handle_head()
    } else {
        parent.spec_handle_head()
    })
    &&& after.spec_base_extra_headers() == (if before.spec_base_extra_headers() is Some {
        before.spec_base_extra_headers()
    } else {
        parent.spec_extra_headers()
    })
    &&& after.spec_handle_head() == (match after.spec_base_handle_head() {
        Some(b) => b,
        None => true,
    })
    &&& after.spec_extra_headers() == (match after.spec_base_extra_headers() {
        Some(h) => h,
        None => Seq::<(Seq<char>, Seq<Seq<u8>>)>::empty(),
    })
}

struct ConfigApplier<'a> {
    config: &'a Config,
}

impl<'a, H> TreeVisitor<Endpoint<H>> for ConfigApplier<'a> {
    closed spec fn rel(&self, before: Endpoint<H>, after: Endpoint<H>) -> bool {
        config_applied(*self.config, before, after)
    }

    fn visit(&self, e: &mut Endpoint<H>) {
        e.add_config(self.config);
    }
}

/// The characters of a pattern before its first `'{'`: the static prefix
/// under which the endpoint is stored.
pub open spec fn pattern_prefix(pattern: Seq<char>) -> Seq<char> {
    pattern.take(first_brace(pattern))
}

/// The tree key of a pattern: the UTF-8 bytes of its static prefix.
pub open spec fn route_key_of(pattern: Seq<char>) -> Seq<u8> {
    encode_utf8(pattern_prefix(pattern))
}

/// The arity a pattern declares: the number of `/`-separated tokens past
/// its static prefix, none when the pattern has no braces.
pub open spec fn pattern_arity(pattern: Seq<char>) -> int {
    if first_brace(pattern) == pattern.len() {
        0
    } else {
        spec_split(pattern.skip(first_brace(pattern))).len() as int
    }
}

/// The printable form of a pattern's parameters, `/{a}/{b}/...`.
pub open spec fn pattern_display(pattern: Seq<char>) -> Seq<char> {
    if first_brace(pattern) == pattern.len() {
        Seq::empty()
    } else {
        let toks = spec_split(pattern.skip(first_brace(pattern)));
        spec_pattern_of(param_entries(toks, toks.len() as int))
    }
}

/// What registration leaves behind: the endpoint at the pattern's key gains
/// one slot for the method, with the pattern's arity and display form and
/// the given handler; a fresh endpoint takes the router's configuration;
/// every other key and the router's own configuration stay unchanged.
pub open spec fn on_post<H>(
    pre: Router<H>,
    post: Router<H>,
    method: Method,
    pattern: Seq<char>,
    handler: H,
) -> bool {
    let kb = route_key_of(pattern);
    &&& post.wf()
    &&& post.spec_config_handle_head() == pre.spec_config_handle_head()
    &&& post.spec_config_extra_headers() == pre.spec_config_extra_headers()
    &&& forall|k: Seq<u8>| k != kb ==> post.spec_route_at(k) == pre.spec_route_at(k)
    &&& post.spec_route_at(kb) matches Some(e) && {
        let slot_ok = {
            let s = e.spec_slots().last();
            &&& s.method == method
            &&& s.params.0 as int == pattern_arity(pattern)
            &&& s.params.1@ == pattern_display(pattern)
            &&& s.handler == handler
        };
        match pre.spec_route_at(kb) {
            Some(olde) => {
                &&& e.spec_slots().len() == olde.spec_slots().len() + 1
                &&& e.spec_slots().take(olde.spec_slots().len() as int) == olde.spec_slots()
                &&& slot_ok
                &&& e.spec_base_handle_head() == olde.spec_base_handle_head()
                &&& e.spec_base_extra_headers() == olde.spec_base_extra_headers()
                &&& e.spec_handle_head() == olde.spec_handle_head()
                &&& e.spec_extra_headers() == olde.spec_extra_headers()
            },
            None => {
                &&& e.spec_slots().len() == 1
                &&& slot_ok
                &&& e.spec_base_handle_head() == pre.spec_config_handle_head()
                &&& e.spec_base_extra_headers() == pre.spec_config_extra_headers()
                &&& e.spec_handle_head() == (match pre.spec_config_handle_head() {
                    Some(b) => b,
                    None => true,
                })
                &&& e.spec_extra_headers() == (match pre.spec_config_extra_headers() {
                    Some(h) => h,
                    None => Seq::<(Seq<char>, Seq<Seq<u8>>)>::empty(),
                })
            },
        }
    }
}

/// A router: a prefix tree of endpoints and a draft configuration that
/// takes effect when the router is composed into a parent or bound.
pub struct Router<H> {
    routes: Tree<Endpoint<H>>,
    config: Config,
}

impl<H> Router<H> {
    /// The route tree is structurally sound.
    pub closed spec fn wf(&self) -> bool {
        self.routes.wf()
    }

    /// The endpoint stored under the byte key `k`.
    pub closed spec fn spec_route_at(&self, k: Seq<u8>) -> Option<Endpoint<H>> {
        self.routes.spec_get(k)
    }

    /// The router's draft `handle_head` option.
    pub closed spec fn spec_config_handle_head(&self) -> Option<bool> {
        self.config.spec_handle_head()
    }

    /// The router's draft `extra_headers` option.
    pub closed spec fn spec_config_extra_headers(&self) -> Option<HeadersView> {
        self.config.spec_extra_headers()
    }

    /// Creates a new instance of router.
    pub fn new() -> (r: Self)
        ensures
            r.wf(),
            forall|k: Seq<u8>| r.spec_route_at(k) is None,
            r.spec_config_handle_head() is None,
            r.spec_config_extra_headers() is None,
    {
        Router { routes: Tree::new(), config: Config::new() }
    }

    /// Creates a new instance of router with the given config.
    pub fn with_config(config: Config) -> (r: Self)
        ensures
            r.wf(),
            forall|k: Seq<u8>| r.spec_route_at(k) is None,
            r.spec_config_handle_head() == config.spec_handle_head(),
            r.spec_config_extra_headers() == config.spec_extra_headers(),
    {
        Router { routes: Tree::new(), config }
    }

    /// Declare an endpoint: parse the pattern into a prefix and a parser,
    /// and add a slot for `method` to the endpoint stored at the prefix.
    pub fn on(&mut self, method: Method, pattern: &str, handler: H)
        requires
            old(self).wf(),
            first_brace(pattern@) > 0,
            match old(self).spec_route_at(route_key_of(pattern@)) {
                Some(e) => e.spec_slots().len() < 6,
                None => true,
            },
        ensures
            on_post(*old(self), *final(self), method, pattern@, handler),
    {
        let params = Params::from_pattern(pattern);
        let (arity, display) = params.parser.expected_params();
        let prefix = params.prefix;
        let key = prefix.as_bytes();
        proof {
            lemma_first_brace_le(pattern@);
            assert(prefix@.len() > 0);
            lemma_encode_utf8_nonempty(prefix@);
            assert(key@ == route_key_of(pattern@));
        }
        let mut endpoint = match self.routes.remove(key) {
            Some(e) => e,
            None => Endpoint::with_config(self.config.clone()),
        };
        let ghost before_add = endpoint;
        let added = endpoint.add(method, (arity, display), handler);
        proof {
            assert(added);
            assert(endpoint.spec_slots().last() == (EndpointHandler {
                method,
                params: (arity, display),
                handler,
            }));
            assert(endpoint.spec_slots().take(before_add.spec_slots().len() as int)
                =~= before_add.spec_slots());
        }
        self.routes.insert(key, endpoint);
    }

    /// Declare GET endpoint.
    pub fn get(&mut self, pattern: &str, handler: H)
        requires
            old(self).wf(),
            first_brace(pattern@) > 0,
            match old(self).spec_route_at(route_key_of(pattern@)) {
                Some(e) => e.spec_slots().len() < 6,
                None => true,
            },
        ensures
            on_post(*old(self), *final(self), Method::Get, pattern@, handler),
    {
        self.on(Method::Get, pattern, handler)
    }

    /// Declare POST endpoint.
    pub fn post(&mut self, pattern: &str, handler: H)
        requires
            old(self).wf(),
            first_brace(pattern@) > 0,
            match old(self).spec_route_at(route_key_of(pattern@)) {
                Some(e) => e.spec_slots().len() < 6,
                None => true,
            },
        ensures
            on_post(*old(self), *final(self), Method::Post, pattern@, handler),
    {
        self.on(Method::Post, pattern, handler)
    }

    /// Declare PUT endpoint.
    pub fn put(&mut self, pattern: &str, handler: H)
        requires
            old(self).wf(),
            first_brace(pattern@) > 0,
            match old(self).spec_route_at(route_key_of(pattern@)) {
                Some(e) => e.spec_slots().len() < 6,
                None => true,
            },
        ensures
            on_post(*old(self), *final(self), Method::Put, pattern@, handler),
    {
        self.on(Method::Put, pattern, handler)
    }

    /// Declare PATCH endpoint.
    pub fn patch(&mut self, pattern: &str, handler: H)
        requires
            old(self).wf(),
            first_brace(pattern@) > 0,
            match old(self).spec_route_at(route_key_of(pattern@)) {
                Some(e) => e.spec_slots().len() < 6,
                None => true,
            },
        ensures
            on_post(*old(self), *final(self), Method::Patch, pattern@, handler),
    {
        self.on(Method::Patch, pattern, handler)
    }

    /// Declare DELETE endpoint.
    pub fn delete(&mut self, pattern: &str, handler: H)
        requires
            old(self).wf(),
            first_brace(pattern@) > 0,
            match old(self).spec_route_at(route_key_of(pattern@)) {
                Some(e) => e.spec_slots().len() < 6,
                None => true,
            },
        ensures
            on_post(*old(self), *final(self), Method::Delete, pattern@, handler),
    {
        self.on(Method::Delete, pattern, handler)
    }

    /// Compose with some other router under the given prefix: the parent's
    /// configuration fills every option a child endpoint left unset, then
    /// the child's routes merge in under the prefix bytes, the child
    /// winning where both routers stored an endpoint.
    pub fn add(&mut self, prefix: &str, router: Router<H>)
        requires
            old(self).wf(),
            router.wf(),
        ensures
            final(self).wf(),
            final(self).spec_config_handle_head() == old(self).spec_config_handle_head(),
            final(self).spec_config_extra_headers() == old(self).spec_config_extra_headers(),
            forall|k: Seq<u8>|
                #![trigger final(self).spec_route_at(k)]
                ({
                    let pb = prefix.spec_bytes();
                    if k.len() > pb.len() && k.take(pb.len() as int) == pb && router.spec_route_at(
                        k.skip(pb.len() as int),
                    ) is Some {
                        final(self).spec_route_at(k) matches Some(e)
                            && router.spec_route_at(k.skip(pb.len() as int)) matches Some(b)
                            && config_applied(old(self).spec_config(), b, e)
                    } else {
                        final(self).spec_route_at(k) == old(self).spec_route_at(k)
                    }
                }),
    {
        let mut router = router;
        let applier = ConfigApplier { config: &self.config };
        router.routes.for_each(&applier);
        self.routes.merge(prefix.as_bytes(), router.routes);
    }


    /// Pretty-prints the endpoints handled by the given router: each stored
    /// prefix in lexicographic order, followed by one line per handler
    /// slot.
    pub fn routes(&self) -> (r: String)
        requires
            self.wf(),
        ensures
            exists|es: Seq<(Seq<u8>, Endpoint<H>)>|
                #![all_triggers]
                route_entries(*self, es) && r@ == render_routes(es),
    {
        let entries = self.routes.iter();
        let ghost es = Seq::new(
            entries@.len() as nat,
            |j: int| (entries@[j].0@, *entries@[j].1),
        );
        let mut s = String::new();
        let mut i: usize = 0;
        while i < entries.len()
            invariant
                i <= entries@.len(),
                es.len() == entries@.len(),
                forall|j: int| 0 <= j < es.len() ==> #[trigger] es[j] == (
                    entries@[j].0@,
                    *entries@[j].1,
                ),
                s@ == render_routes(es.take(i as int)),
            decreases entries@.len() - i,
        {
            let (key, endpoint) = &entries[i];
            proof {
                assert(es.take(i as int + 1).drop_last() =~= es.take(i as int));
                assert(es.take(i as int + 1).last() == es[i as int]);
            }
            match bytes_to_string(key) {
                Some(prefix) => {
                    s.append(prefix.as_str());
                    s.append("\n");
                    let ghost before = s@;
                    let ep: &Endpoint<H> = endpoint;
                    let mut j: usize = 0;
                    if ep.handlers.len() == 0 {
                        s.append("  ?empty handler?\n");
                    } else {
                        while j < ep.handlers.len()
                            invariant
                                j <= ep.handlers@.len(),
                                s@ == before + render_slots(ep.spec_slots(), j as int),
                            decreases ep.handlers@.len() - j,
                        {
                            s.append("  ");
                            s.append(ep.handlers[j].method.as_str());
                            s.append(" ");
                            if ep.handlers[j].params.0 == 0 {
                                s.append("/");
                            } else {
                                s.append(ep.handlers[j].params.1.as_str());
                            }
                            s.append("\n");
                            j = j + 1;
                        }
                    }
                    s.append("\n");
                },
                None => {},
            }
            i = i + 1;
        }
        proof {
            assert(es.take(es.len() as int) =~= es);
            assert forall|j: int|
                0 <= j < es.len() implies (#[trigger] es[j]).0.len() > 0 && self.spec_route_at(
                es[j].0,
            ) == Some(es[j].1) by {
                assert(entries@[j].0@.len() > 0 && self.routes.spec_get(entries@[j].0@) == Some(
                    *entries@[j].1,
                ));
            }
            assert forall|k: Seq<u8>| self.spec_route_at(k) is Some implies exists|j: int|
                0 <= j < es.len() && (#[trigger] es[j]).0 == k by {
                let j = choose|j: int|
                    0 <= j < entries@.len() && (#[trigger] entries@[j]).0@ == k;
                assert(es[j].0 == k);
            }
        }
        s
    }

    /// The router's draft configuration as a value (for contracts).
    pub closed spec fn spec_config(&self) -> Config {
        self.config
    }

    /// Consumes the router, handing out its route tree for binding: the
    /// dispatcher works on the tree by shared reference.
    pub fn into_routes(self) -> (t: Tree<Endpoint<H>>)
        requires
            self.wf(),
        ensures
            t.wf(),
            forall|k: Seq<u8>| t.spec_get(k) == self.spec_route_at(k),
    {
        let Router { routes, config: _ } = self;
        routes
    }
}

proof fn lemma_encode_utf8_nonempty(s: Seq<char>)
    requires
        s.len() > 0,
    ensures
        encode_utf8(s).len() > 0,
{
    assert(encode_scalar(s[0] as u32).len() >= 1);
    assert(encode_utf8(s) == encode_scalar(s[0] as u32) + encode_utf8(s.drop_first()));
}


/// The rendered lines of the slots: two-space indent, the method name, a
/// space, then `/` for a zero-arity slot or the slot's pattern.
pub open spec fn render_slots<H>(slots: Seq<EndpointHandler<H>>, i: int) -> Seq<char>
    decreases i,
{
    if i <= 0 {
        Seq::empty()
    } else {
        render_slots(slots, i - 1) + "  "@ + slots[i - 1].method.spec_name() + " "@ + (
        if slots[i - 1].params.0 == 0 {
            "/"@
        } else {
            slots[i - 1].params.1@
        }) + "\n"@
    }
}

/// The rendered form of one endpoint: its slot lines, or a placeholder
/// line when it has none.
pub open spec fn render_endpoint<H>(e: Endpoint<H>) -> Seq<char> {
    if e.spec_slots().len() == 0 {
        "  ?empty handler?\n"@
    } else {
        render_slots(e.spec_slots(), e.spec_slots().len() as int)
    }
}

/// The rendered form of a route list: for each entry whose key decodes as
/// UTF-8, the prefix line followed by the endpoint's lines; keys that are
/// not valid UTF-8 are skipped.
pub open spec fn render_routes<H>(es: Seq<(Seq<u8>, Endpoint<H>)>) -> Seq<char>
    decreases es.len(),
{
    if es.len() == 0 {
        Seq::empty()
    } else {
        render_routes(es.drop_last()) + (if valid_utf8(es.last().0) {
            decode_utf8(es.last().0) + "\n"@ + render_endpoint(es.last().1) + "\n"@
        } else {
            Seq::empty()
        })
    }
}

/// The complete ordered entry list of a router's route tree: sound,
/// complete, and strictly sorted in lexicographic byte order.
pub open spec fn route_entries<H>(router: Router<H>, es: Seq<(Seq<u8>, Endpoint<H>)>) -> bool {
    &&& forall|j: int|
        0 <= j < es.len() ==> (#[trigger] es[j]).0.len() > 0 && router.spec_route_at(es[j].0)
            == Some(es[j].1)
    &&& forall|k: Seq<u8>| router.spec_route_at(k) is Some ==> exists|j: int|
        0 <= j < es.len() && (#[trigger] es[j]).0 == k
    &&& forall|j1: int, j2: int| 0 <= j1 < j2 < es.len() ==> lex_lt(es[j1].0, es[j2].0)
}

/// Relies on String::from_utf8: it accepts exactly the valid UTF-8 byte
/// strings and decodes them.
#[verifier::external_body]
fn bytes_to_string(v: &Vec<u8>) -> (r: Option<String>)
    ensures
        r matches Some(s) ==> valid_utf8(v@) && s@ == decode_utf8(v@),
        r is None ==> !valid_utf8(v@),
{
    String::from_utf8(v.clone()).ok()
}

/// Routes a request: finds the endpoint under the longest stored prefix of
/// the path bytes and lets it decide; a path with no matching prefix, or
/// one whose match ends inside a multi-byte character, is answered 404.
/// The suffix handed to the endpoint holds the path's characters past the
/// matched bytes.
pub fn dispatch<'a, H>(routes: &'a Tree<Endpoint<H>>, method: Method, path: &str) -> (r: Handling<
    'a,
    H,
>)
    requires
        routes.wf(),
    ensures
        ({
            let pb = path.spec_bytes();
            &&& ((forall|l: int|
                1 <= l <= pb.len() ==> routes.spec_get(#[trigger] pb.take(l)) is None)
                ==> plain_not_found(r))
            &&& (forall|l: int|
                {
                    &&& 1 <= l <= pb.len()
                    &&& routes.spec_get(#[trigger] pb.take(l)) is Some
                    &&& (forall|m: int|
                        l < m <= pb.len() ==> routes.spec_get(#[trigger] pb.take(m)) is None)
                } ==> (if is_char_boundary(pb, l) {
                    routes.spec_get(pb.take(l)) matches Some(e) && handle_post(
                        e,
                        method,
                        decode_utf8(pb.skip(l)),
                        r,
                    )
                } else {
                    plain_not_found(r)
                }))
        }),
{
    let bytes = path.as_bytes();
    match routes.find(bytes) {
        None => {
            let resp = Error::not_found("Requested resource was not found.").to_response();
            Handling::Respond(resp)
        },
        Some((l, endpoint)) => {
            if path.is_char_boundary(l) {
                let (_, suffix) = path.split_at(l);
                proof {
                    vstd::utf8::encode_utf8_decode_utf8(suffix@);
                    assert(suffix.spec_bytes() =~= path.spec_bytes().skip(l as int));
                    assert(suffix@ == decode_utf8(path.spec_bytes().skip(l as int)));
                }
                endpoint.handle(method, suffix)
            } else {
                let resp = Error::not_found("Requested resource was not found.").to_response();
                Handling::Respond(resp)
            }
        },
    }
}

/// `r` answers a plain 404 without endpoint headers: what the dispatcher
/// does when no route matches.
pub open spec fn plain_not_found<H>(r: Handling<H>) -> bool {
    r matches Handling::Respond(resp) && resp.spec_status() == 404 && resp.spec_body()
        == spec_error_body(
        404,
        "Requested resource was not found."@,
        "Requested resource was not found."@,
    ) && resp.spec_headers() == seq![("Content-Type"@, seq!["application/json".spec_bytes()])]
}

} // verus!
