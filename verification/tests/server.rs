use http_server::consume::Consume;
use http_server::http_request::{HttpMethod, HttpRequest, HttpVersion};
use http_server::http_response::{HttpResponse, Phase};
use http_server::http_server::{respond_not_found, HttpServer, Route};
use http_server::request_parser::parse_request;
use http_server::to_bytes::ToBytes;

type Handler = fn(&HttpRequest, &mut HttpResponse);
type StaticHandler = fn(&str, &mut HttpResponse);

fn hello(_request: &HttpRequest, response: &mut HttpResponse) {
    response.send("hello").consume();
}

fn echo(request: &HttpRequest, response: &mut HttpResponse) {
    response.send(&request.body[..]).consume();
}

fn listing(path: &str, response: &mut HttpResponse) {
    response.send(path).consume();
}

fn handler_of<'a>(route: Route<'a, u32>) -> Option<u32> {
    match route {
        Route::Handler(h) => Some(*h),
        _ => None,
    }
}

fn file_of<H>(route: Route<'_, H>) -> Option<(usize, String)> {
    match route {
        Route::StaticFile { index, path } => Some((index, path)),
        _ => None,
    }
}

#[test]
fn empty_table_finds_nothing() {
    let server: HttpServer<u32, u32> = HttpServer::new();
    assert!(matches!(server.resolve(HttpMethod::GET, "/"), Route::NotFound));
    assert!(server.get_request_handler("/", HttpMethod::GET).is_none());
    assert!(server.get_static_file("/", 0).is_none());
    assert!(server.custom_static_handler().is_none());
}

#[test]
fn endpoint_matches_method_and_exact_path() {
    let mut server: HttpServer<u32, u32> = HttpServer::new();
    server.get("/a", 1);
    server.post("/a", 2);
    server.put("/a", 3);
    server.delete("/a", 4);
    server.get("/b", 5);
    assert_eq!(server.get_request_handler("/a", HttpMethod::GET), Some(&1));
    assert_eq!(server.get_request_handler("/a", HttpMethod::POST), Some(&2));
    assert_eq!(server.get_request_handler("/a", HttpMethod::PUT), Some(&3));
    assert_eq!(server.get_request_handler("/a", HttpMethod::DELETE), Some(&4));
    assert_eq!(server.get_request_handler("/b", HttpMethod::GET), Some(&5));
    assert_eq!(server.get_request_handler("/b", HttpMethod::POST), None);
    assert_eq!(server.get_request_handler("/a/", HttpMethod::GET), None);
    assert_eq!(server.get_request_handler("/A", HttpMethod::GET), None);
    assert_eq!(server.get_request_handler("/a", HttpMethod::UNKNOWN), None);
    assert_eq!(handler_of(server.resolve(HttpMethod::PUT, "/a")), Some(3));
}

#[test]
fn first_registered_endpoint_wins() {
    let mut server: HttpServer<u32, u32> = HttpServer::new();
    server.get("/a", 1);
    server.get("/a", 2);
    assert_eq!(handler_of(server.resolve(HttpMethod::GET, "/a")), Some(1));
}

#[test]
fn endpoint_takes_priority_over_static_path() {
    let mut server: HttpServer<u32, u32> = HttpServer::new();
    server.static_path("/public/", "public");
    server.get("/public/x", 7);
    assert_eq!(handler_of(server.resolve(HttpMethod::GET, "/public/x")), Some(7));
    assert_eq!(
        file_of(server.resolve(HttpMethod::POST, "/public/x")),
        Some((0, String::from("public/x")))
    );
    assert_eq!(
        file_of(server.resolve(HttpMethod::GET, "/public/y")),
        Some((0, String::from("public/y")))
    );
}

#[test]
fn static_path_maps_prefix_to_directory() {
    let mut server: HttpServer<u32, u32> = HttpServer::new();
    server.static_path("/assets/", "./files");
    assert_eq!(
        server.get_static_file("/assets/a.txt", 0),
        Some((0, String::from("./files/a.txt")))
    );
    assert_eq!(
        server.get_static_file("/assets/css/site.css", 0),
        Some((0, String::from("./files/css/site.css")))
    );
    assert_eq!(server.get_static_file("/assets/", 0), Some((0, String::from("./files/"))));
    assert_eq!(server.get_static_file("/assets", 0), None);
    assert_eq!(server.get_static_file("/other/a.txt", 0), None);
    assert_eq!(server.get_static_file("assets/a.txt", 0), None);
}

#[test]
fn static_path_refuses_to_leave_its_directory() {
    let mut server: HttpServer<u32, u32> = HttpServer::new();
    server.static_path("/assets/", "./files");
    assert_eq!(server.get_static_file("/assets/../secret", 0), None);
    assert_eq!(server.get_static_file("/assets/a/../../secret", 0), None);
    assert_eq!(server.get_static_file("/assets/a/..", 0), None);
    assert_eq!(server.get_static_file("/assets/..", 0), None);
    assert_eq!(server.get_static_file("/assets//etc/passwd", 0), None);
    assert!(matches!(server.resolve(HttpMethod::GET, "/assets/../secret"), Route::NotFound));
    assert_eq!(
        server.get_static_file("/assets/..a/b..", 0),
        Some((0, String::from("./files/..a/b..")))
    );
    assert_eq!(
        server.get_static_file("/assets/a/./b", 0),
        Some((0, String::from("./files/a/./b")))
    );
    assert_eq!(
        server.get_static_file("/assets/...", 0),
        Some((0, String::from("./files/...")))
    );
}

#[test]
fn prefix_gets_a_slash_at_its_end() {
    let mut server: HttpServer<u32, u32> = HttpServer::new();
    server.static_path("/public", "public");
    assert_eq!(
        server.get_static_file("/public/index.html", 0),
        Some((0, String::from("public/index.html")))
    );
    assert_eq!(server.get_static_file("/publicity", 0), None);
    assert_eq!(server.get_static_file("/public", 0), None);
}

#[test]
fn directory_with_a_slash_is_not_given_another() {
    let mut server: HttpServer<u32, u32> = HttpServer::new();
    server.static_path("/a/", "root/");
    server.static_path("/b/", "");
    server.static_path("", "all");
    assert_eq!(server.get_static_file("/a/x", 0), Some((0, String::from("root/x"))));
    assert_eq!(server.get_static_file("/b/x", 0), Some((1, String::from("x"))));
    assert_eq!(server.get_static_file("/c/x", 0), Some((2, String::from("all/c/x"))));
}

#[test]
fn static_paths_are_tried_in_order() {
    let mut server: HttpServer<u32, u32> = HttpServer::new();
    server.static_path("/s/", "one");
    server.static_path("/t/", "skip");
    server.static_path("/s/", "two");
    assert_eq!(
        file_of(server.resolve(HttpMethod::GET, "/s/f")),
        Some((0, String::from("one/f")))
    );
    assert_eq!(file_of(server.resolve_after("/s/f", 1)), Some((2, String::from("two/f"))));
    assert_eq!(server.get_static_file("/s/f", 2), Some((2, String::from("two/f"))));
    assert!(matches!(server.resolve_after("/s/f", 3), Route::NotFound));
    assert!(matches!(server.resolve_after("/s/f", 99), Route::NotFound));
}

#[test]
fn static_handler_can_be_replaced() {
    let mut server: HttpServer<Handler, StaticHandler> = HttpServer::new();
    assert!(server.custom_static_handler().is_none());
    server.static_serve(listing);
    let request = parse_request(b"GET /s/f HTTP/1.1\r\n\r\n").0.unwrap().unwrap();
    let mut response = http_server::http_response::new(&request);
    let handler = server.custom_static_handler().unwrap();
    handler("one/f", &mut response);
    assert!(response.take_output().ends_with(b"\r\n\r\none/f"));
}

#[test]
fn handlers_are_called_with_request_and_response() {
    let mut server: HttpServer<Handler, StaticHandler> = HttpServer::new();
    server.get("/hello", hello);
    server.post("/echo", echo);
    let request = parse_request(b"POST /echo HTTP/1.1\r\nContent-Length: 4\r\n\r\nping").0.unwrap().unwrap();
    let mut response = http_server::http_response::new(&request);
    match server.resolve(request.method, &request.url) {
        Route::Handler(handler) => handler(&request, &mut response),
        _ => panic!("no handler"),
    }
    assert_eq!(response.phase(), Phase::Finished);
    assert!(response.take_output().ends_with(b"content-length: 4\r\n\r\nping"));
}

#[test]
fn unmatched_request_gets_404() {
    let request = parse_request(b"GET /nowhere HTTP/1.1\r\nConnection: keep-alive\r\n\r\n").0.unwrap().unwrap();
    let mut response = respond_not_found(&request);
    assert_eq!(response.status_code(), 404);
    assert_eq!(response.phase(), Phase::Finished);
    assert_eq!(
        String::from_utf8(response.take_output()).unwrap(),
        "HTTP/1.1 404 Not Found\r\nconnection: keep-alive\r\n\r\n"
    );
    assert!(!response.should_close());
}

#[test]
fn version_and_method_have_a_text() {
    assert_eq!(HttpVersion::from_str("HTTP/1.1"), HttpVersion::V1_1);
    assert_eq!(HttpVersion::from_str("HTTP/2"), HttpVersion::V2);
    assert_eq!(HttpVersion::from_str("HTTP/1.0"), HttpVersion::UNKNOWN);
    assert_eq!(HttpVersion::from_str("http/1.1"), HttpVersion::UNKNOWN);
    assert_eq!(HttpVersion::from_str(""), HttpVersion::UNKNOWN);
    assert_eq!(HttpVersion::V1_1.to_str(), "HTTP/1.1");
    assert_eq!(HttpVersion::V2.to_str(), "");
    assert_eq!(HttpVersion::UNKNOWN.to_str(), "");
    assert_eq!(HttpMethod::from_str("GET"), HttpMethod::GET);
    assert_eq!(HttpMethod::from_str("POST"), HttpMethod::POST);
    assert_eq!(HttpMethod::from_str("PUT"), HttpMethod::PUT);
    assert_eq!(HttpMethod::from_str("DELETE"), HttpMethod::DELETE);
    assert_eq!(HttpMethod::from_str("get"), HttpMethod::UNKNOWN);
    assert_eq!(HttpMethod::from_str("GETS"), HttpMethod::UNKNOWN);
    assert_eq!(HttpMethod::from_str(""), HttpMethod::UNKNOWN);
    assert_eq!(HttpMethod::GET.to_str(), "GET");
    assert_eq!(HttpMethod::POST.to_str(), "POST");
    assert_eq!(HttpMethod::PUT.to_str(), "PUT");
    assert_eq!(HttpMethod::DELETE.to_str(), "DELETE");
    assert_eq!(HttpMethod::UNKNOWN.to_str(), "");
}

#[test]
fn method_text_round_trip() {
    let all = [
        HttpMethod::GET,
        HttpMethod::POST,
        HttpMethod::PUT,
        HttpMethod::DELETE,
        HttpMethod::UNKNOWN,
    ];
    for method in all.iter() {
        assert_eq!(HttpMethod::from_str(method.to_str()), *method);
    }
}

#[test]
fn bytes_of_slices_and_strings() {
    let slice: &[u8] = &[1, 2, 3];
    assert_eq!(slice.to_bytes(), &[1u8, 2, 3][..]);
    assert_eq!("h\u{e9}".to_bytes(), &[104u8, 195, 169][..]);
    let owned = String::from("ab");
    assert_eq!(owned.to_bytes(), b"ab");
    assert_eq!((&owned).to_bytes(), b"ab");
}

#[test]
fn consume_uses_a_value_up() {
    let result: Result<(), u8> = Err(3);
    result.consume();
    String::from("x").consume();
}
