use resty::config::Config;
use resty::error::Error;
use resty::request::params::{Params, Parser};
use resty::response::Response;
use resty::router::{dispatch, Handling, Method, Router};

fn content_type(resp: &Response) -> Option<Vec<u8>> {
    for (name, values) in resp.headers() {
        if name == "Content-Type" {
            return values.first().cloned();
        }
    }
    None
}

fn header_values(resp: &Response, wanted: &str) -> Option<Vec<Vec<u8>>> {
    for (name, values) in resp.headers() {
        if name == wanted {
            return Some(values.clone());
        }
    }
    None
}

#[test]
fn get_root_returns_hello_world() {
    let mut router = Router::new();
    router.get("/", 1u32);
    let routes = router.into_routes();

    match dispatch(&routes, Method::Get, "/") {
        Handling::Invoke { endpoint, handler, strip_body } => {
            assert_eq!(*handler, 1);
            assert!(!strip_body);
            let body = serde_json::to_vec("Hello World!").unwrap();
            let mut resp = Response::success_json(body);
            endpoint.finish(&mut resp, strip_body);
            assert_eq!(resp.status(), 200);
            assert_eq!(resp.body().as_slice(), b"\"Hello World!\"");
            assert_eq!(content_type(&resp).unwrap(), b"application/json".to_vec());
        },
        Handling::Respond(resp) => panic!("expected a handler, got status {}", resp.status()),
    }
}

#[test]
fn post_root_increments_test_field() {
    let mut router = Router::new();
    router.post("/", 2u32);
    let routes = router.into_routes();

    match dispatch(&routes, Method::Post, "/") {
        Handling::Invoke { endpoint, handler, strip_body } => {
            assert_eq!(*handler, 2);
            let request_body: &[u8] = b"{\"test\":1}";
            let value: serde_json::Value = serde_json::from_slice(request_body).unwrap();
            let incremented = value.get("test").unwrap().as_u64().unwrap() + 1;
            let mut object = serde_json::Map::new();
            object.insert("test".to_string(), serde_json::Value::from(incremented));
            let body = serde_json::to_vec(&serde_json::Value::Object(object)).unwrap();
            let mut resp = Response::success_json(body);
            endpoint.finish(&mut resp, strip_body);
            assert_eq!(resp.status(), 200);
            assert_eq!(resp.body().as_slice(), b"{\"test\":2}");
        },
        Handling::Respond(resp) => panic!("expected a handler, got status {}", resp.status()),
    }
}

fn product(id: u64, name: &str) -> serde_json::Value {
    let mut object = serde_json::Map::new();
    object.insert("id".to_string(), serde_json::Value::from(id));
    object.insert("name".to_string(), serde_json::Value::from(name));
    serde_json::Value::Object(object)
}

fn products_handler(routes: &resty::prefix_tree::Tree<resty::router::Endpoint<u32>>, path: &str) -> Response {
    // Plays the transport's role: runs the dispatch decision for `path` and
    // the registered product handlers.
    match dispatch(routes, Method::Get, path) {
        Handling::Invoke { endpoint, handler, strip_body } => {
            let mut resp = match *handler {
                1 => {
                    // list handler
                    let all = serde_json::Value::Array(vec![
                        product(0, "Bread"),
                        product(1, "Butter"),
                    ]);
                    Response::success_json(serde_json::to_vec(&all).unwrap())
                },
                2 => {
                    // single-item handler: parse {id} from the path
                    let params = Params::from_pattern("/v1/products/{id}");
                    let parsed = params.parser.parse(path, params.prefix.len()).unwrap();
                    match parsed.get::<u64>("id") {
                        Ok(0) => Response::success_json(
                            serde_json::to_vec(&product(0, "Bread")).unwrap(),
                        ),
                        Ok(1) => Response::success_json(
                            serde_json::to_vec(&product(1, "Butter")).unwrap(),
                        ),
                        Ok(_) => Error::not_found("no such product").to_response(),
                        Err(e) => e.to_api_error().to_response(),
                    }
                },
                _ => panic!("unknown handler"),
            };
            endpoint.finish(&mut resp, strip_body);
            resp
        },
        Handling::Respond(resp) => resp,
    }
}

#[test]
fn products_list_item_and_missing_item() {
    let mut router = Router::new();
    router.get("/v1/products/", 1u32);
    router.get("/v1/products/{id}", 2u32);
    let routes = router.into_routes();

    let resp = products_handler(&routes, "/v1/products/");
    assert_eq!(resp.status(), 200);
    let listed: serde_json::Value = serde_json::from_slice(resp.body()).unwrap();
    assert_eq!(
        listed,
        serde_json::Value::Array(vec![product(0, "Bread"), product(1, "Butter")])
    );

    let resp = products_handler(&routes, "/v1/products/1");
    assert_eq!(resp.status(), 200);
    let item: serde_json::Value = serde_json::from_slice(resp.body()).unwrap();
    assert_eq!(item, product(1, "Butter"));

    let resp = products_handler(&routes, "/v1/products/99");
    assert_eq!(resp.status(), 404);
}

#[test]
fn wrong_method_is_405_and_head_falls_back_to_get() {
    let mut router = Router::new();
    router.get("/x", 9u32);
    let routes = router.into_routes();

    // POST /x -> 405 listing the allowed methods.
    match dispatch(&routes, Method::Post, "/x") {
        Handling::Respond(resp) => {
            assert_eq!(resp.status(), 405);
            assert_eq!(
                resp.body().as_slice(),
                &b"{\"code\":405,\"message\":\"Method POST is not allowed.\",\"details\":\"Allowed methods: GET\"}"[..]
            );
        },
        Handling::Invoke { .. } => panic!("expected a response"),
    }

    // HEAD /x with handle_head left at its default (on): the GET handler
    // runs and the body is stripped, keeping status and headers.
    match dispatch(&routes, Method::Head, "/x") {
        Handling::Invoke { endpoint, handler, strip_body } => {
            assert_eq!(*handler, 9);
            assert!(strip_body);
            let mut resp = Response::success_json(serde_json::to_vec("payload").unwrap());
            endpoint.finish(&mut resp, strip_body);
            assert_eq!(resp.status(), 200);
            assert!(resp.body().is_empty());
            assert_eq!(content_type(&resp).unwrap(), b"application/json".to_vec());
        },
        Handling::Respond(resp) => panic!("expected fallback, got status {}", resp.status()),
    }
}

#[test]
fn head_is_405_when_fallback_disabled() {
    let mut router = Router::with_config(Config::new().handle_head(Some(false)));
    router.get("/x", 9u32);
    let routes = router.into_routes();

    match dispatch(&routes, Method::Head, "/x") {
        Handling::Respond(resp) => assert_eq!(resp.status(), 405),
        Handling::Invoke { .. } => panic!("expected 405"),
    }
}

#[test]
fn composed_child_inherits_parent_extra_headers() {
    let parent_headers = vec![("X-Api".to_string(), vec![b"v1".to_vec()])];
    let mut parent = Router::with_config(Config::new().extra_headers(Some(parent_headers)));
    let mut child = Router::new();
    child.get("/items", 3u32);
    parent.add("/v1", child);
    let routes = parent.into_routes();

    match dispatch(&routes, Method::Get, "/v1/items") {
        Handling::Invoke { endpoint, handler, strip_body } => {
            assert_eq!(*handler, 3);

            // The handler did not set X-Api: the inherited header appears.
            let mut resp = Response::success_json(b"1".to_vec());
            endpoint.finish(&mut resp, strip_body);
            assert_eq!(header_values(&resp, "X-Api").unwrap(), vec![b"v1".to_vec()]);

            // The handler set X-Api itself: its value is kept.
            let mut resp = Response::success_json(b"1".to_vec());
            resp.add_extra_headers(&vec![("X-Api".to_string(), vec![b"mine".to_vec()])]);
            endpoint.finish(&mut resp, strip_body);
            assert_eq!(header_values(&resp, "X-Api").unwrap(), vec![b"mine".to_vec()]);
        },
        Handling::Respond(resp) => panic!("expected a handler, got status {}", resp.status()),
    }
}

#[test]
fn child_with_set_options_is_not_overridden_by_parent() {
    let parent_headers = vec![("X-Api".to_string(), vec![b"v1".to_vec()])];
    let mut parent = Router::with_config(Config::new().extra_headers(Some(parent_headers)));
    let mut child = Router::with_config(Config::base_config());
    child.get("/items", 3u32);
    parent.add("/v1", child);
    let routes = parent.into_routes();

    match dispatch(&routes, Method::Get, "/v1/items") {
        Handling::Invoke { endpoint, strip_body, .. } => {
            let mut resp = Response::success_json(b"1".to_vec());
            endpoint.finish(&mut resp, strip_body);
            // The child had explicitly decided on no extra headers.
            assert!(header_values(&resp, "X-Api").is_none());
        },
        Handling::Respond(resp) => panic!("expected a handler, got status {}", resp.status()),
    }
}

#[test]
fn same_prefix_dispatches_by_arity() {
    let mut router = Router::new();
    router.get("/items", 0u32);
    router.get("/items/{id}", 1u32);
    let routes = router.into_routes();

    match dispatch(&routes, Method::Get, "/items") {
        Handling::Invoke { handler, .. } => assert_eq!(*handler, 0),
        Handling::Respond(resp) => panic!("expected list handler, got {}", resp.status()),
    }
    match dispatch(&routes, Method::Get, "/items/5") {
        Handling::Invoke { handler, .. } => assert_eq!(*handler, 1),
        Handling::Respond(resp) => panic!("expected item handler, got {}", resp.status()),
    }
    match dispatch(&routes, Method::Get, "/items/5/extra") {
        Handling::Respond(resp) => {
            assert_eq!(resp.status(), 404);
            assert_eq!(
                resp.body().as_slice(),
                &b"{\"code\":404,\"message\":\"Requested resource was not found.\",\"details\":\"Unable to find a handler.\"}"[..]
            );
        },
        Handling::Invoke { .. } => panic!("expected 404"),
    }
}

#[test]
fn unmatched_path_is_404() {
    let mut router = Router::new();
    router.get("/a", 1u32);
    let routes = router.into_routes();
    match dispatch(&routes, Method::Get, "/nope") {
        Handling::Respond(resp) => {
            assert_eq!(resp.status(), 404);
            assert_eq!(
                resp.body().as_slice(),
                &b"{\"code\":404,\"message\":\"Requested resource was not found.\",\"details\":\"Requested resource was not found.\"}"[..]
            );
        },
        Handling::Invoke { .. } => panic!("expected 404"),
    }
}

#[test]
fn trailing_slash_changes_arity() {
    // "/items" has arity 0 while "/items/" ends in an empty trailing
    // segment, so a handler registered for the bare prefix does not answer
    // it.
    let mut router = Router::new();
    router.get("/items", 0u32);
    let routes = router.into_routes();
    match dispatch(&routes, Method::Get, "/items/") {
        Handling::Respond(resp) => assert_eq!(resp.status(), 404),
        Handling::Invoke { .. } => panic!("expected 404"),
    }
}

#[test]
fn routes_lists_endpoints_in_order() {
    let mut router = Router::new();
    router.get("/b", 1u32);
    router.post("/a/{id}", 2u32);
    router.get("/a/{id}", 3u32);
    let listing = router.routes();
    assert_eq!(listing, "/a/\n  POST /{id}\n  GET /{id}\n\n/b\n  GET /\n\n");
}

#[test]
fn error_constructors_carry_their_statuses() {
    assert_eq!(Error::internal("m", "d").code, 500);
    assert_eq!(Error::not_found("d").code, 404);
    assert_eq!(Error::bad_request("m", "d").code, 400);
    assert_eq!(Error::method_not_allowed("m", "d").code, 405);
    let resp = Error::bad_request("oops", "detail \"quoted\"").to_response();
    assert_eq!(resp.status(), 400);
    assert_eq!(
        resp.body().as_slice(),
        &b"{\"code\":400,\"message\":\"oops\",\"details\":\"detail \\\"quoted\\\"\"}"[..]
    );
}

#[test]
fn endpoint_slot_limit_is_six() {
    let mut endpoint = resty::router::Endpoint::with_config(Config::new());
    for i in 0..6u32 {
        assert!(endpoint.add(Method::Get, (i as usize, String::new()), i));
    }
    assert!(!endpoint.add(Method::Get, (6usize, String::new()), 6));
}

#[test]
fn request_wrapper_hands_out_params_once() {
    let mut request = resty::Request::new(b"{}".to_vec(), 42u32);
    assert_eq!(*request.params(), 42);
    assert_eq!(request.take_params(), 42);
    assert_eq!(request.body().as_slice(), b"{}");
}
