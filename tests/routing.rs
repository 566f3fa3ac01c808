use npm_expansions::default_controller::DefaultController;
use npm_expansions::expansions_model::ExpansionsModel;
use npm_expansions::http_response::HttpResponse;
use npm_expansions::npm_controller::{route_config, NpmController, NpmRoute};
use npm_expansions::npm_expansion_error::{NpmErrorKind, NpmExpansionsError};
use npm_expansions::request::Request;
use npm_expansions::router::Router;
use npm_expansions::stream_handler::{handle_connection, respond_to_request, respond_to_request_error};

type ControllerFunction = fn(&Request, &ExpansionsModel) -> Result<HttpResponse, NpmExpansionsError>;

const MOCK_EXPANSIONS: &str = "Nacho Pizza Marinade\nNacho Portion Monitor\nNacho Portmanteau Meltdown\nNacho Printing Machine\nNachos Pillage Milwaukee\nNachos Preventing Motivation\nNadie Programa más\nNagging Penguin Matriarchs\nNahi Pata Mujhe!\nNail Polish Makeover\nNail Polishing Minions\nNaive Pac Man\nNaive Props Mutation\nNaive Puppets Marching";

fn mock_model() -> ExpansionsModel {
    ExpansionsModel::new("expansions.txt", MOCK_EXPANSIONS)
}

fn padded(input_bytes: &[u8]) -> Vec<u8> {
    let mut contents = vec![0u8; 1024];
    contents[..input_bytes.len()].clone_from_slice(input_bytes);
    contents
}

fn random_router() -> Router<ControllerFunction> {
    Router::new(vec![("GET / HTTP/1.1".to_string(), NpmController::random as ControllerFunction)])
}

fn server_router() -> Router<Box<dyn Fn(&Request, &ExpansionsModel) -> Result<HttpResponse, NpmExpansionsError>>> {
    Router::new(
        route_config()
            .into_iter()
            .map(|(key, route)| {
                let handler: Box<dyn Fn(&Request, &ExpansionsModel) -> Result<HttpResponse, NpmExpansionsError>> =
                    Box::new(move |r: &Request, m: &ExpansionsModel| route.handle(r, m));
                (key, handler)
            })
            .collect(),
    )
}

fn request_with_accept(name: &str, value: &str) -> Request {
    Request::new("GET / HTTP/1.1", vec![(name.to_string(), value.to_string())], Vec::new())
}

#[test]
fn router_route_response() {
    let controller_function: ControllerFunction = |_, _| Ok(HttpResponse::new("200 OK", "", "actual_route"));
    let router = Router::new(vec![("GET / HTTP/1.1".to_string(), controller_function)]);
    let request = Request::new("GET / HTTP/1.1", Vec::new(), Vec::new());
    let response = router.route_request(&request, &mock_model());
    assert_eq!(response.unwrap().contents(), "actual_route")
}

#[test]
fn router_route_not_found() {
    let not_found: ControllerFunction = |_, _| Ok(HttpResponse::new("404 NOT FOUND", "", "not found"));
    let router = Router::new(vec![("404".to_string(), not_found)]);
    let request = Request::new("GET /fake_route HTTP/1.1", Vec::new(), Vec::new());
    let response = router.route_request(&request, &mock_model());
    assert!(response.is_ok())
}

#[test]
fn router_no_route() {
    let router: Router<ControllerFunction> = Router::new(Vec::new());
    let request = Request::new("GET / HTTP/1.1", Vec::new(), Vec::new());
    let response = router.route_request(&request, &mock_model());
    assert!(response.is_ok())
}

#[test]
fn stream_handler_valid_http_stream() {
    let contents = padded(b"GET / HTTP/1.1\r\nAccept: text/html\r\n\r\n");
    assert!(respond_to_request(&contents, &random_router(), &mock_model()).is_ok());
    assert!(handle_connection(&contents, &random_router(), &mock_model()).is_ok());
}

#[test]
fn stream_handler_no_not_found_route() {
    let contents = padded(b"GET /non-existant/route HTTP/1.1\r\nAccept: text/html\r\n\r\n");
    let response = respond_to_request(&contents, &random_router(), &mock_model());
    assert!(response.is_ok());
}

#[test]
fn stream_handler_invalid_request() {
    let contents = padded(b"");
    let response = respond_to_request(&contents, &random_router(), &mock_model());
    assert!(response.is_err());
}

#[test]
fn stream_handler_invalid_http_stream() {
    let contents = padded(b"");
    let response = handle_connection(&contents, &random_router(), &mock_model());
    assert!(response.is_ok());
}

#[test]
fn main_valid_http_stream() {
    let contents = padded(b"GET / HTTP/1.1\r\nAccept: text/html\r\n\r\n");
    assert!(respond_to_request(&contents, &random_router(), &mock_model()).is_ok());
    assert!(handle_connection(&contents, &random_router(), &mock_model()).is_ok());
}

#[test]
fn main_invalid_request() {
    let contents = padded(b"");
    assert!(respond_to_request(&contents, &random_router(), &mock_model()).is_err());
}

#[test]
fn main_invalid_http_stream() {
    let contents = padded(b"");
    assert!(handle_connection(&contents, &random_router(), &mock_model()).is_ok());
}

#[test]
fn random_path_scenario() {
    let model = ExpansionsModel::new("expansions.txt", "no please manager");
    let bytes = handle_connection(
        b"GET /api/random HTTP/1.1\r\nAccept: application/json\r\n\r\n",
        &server_router(),
        &model,
    )
    .unwrap();
    let body = "{\"npm-expansion\": \"no please manager\"}";
    let expected = format!(
        "HTTP/1.1 200 OK\r\nContent-Length: {}\r\nContent-Type: application/json\r\n\r\n{}",
        body.len(),
        body
    );
    assert!(bytes.starts_with(format!("HTTP/1.1 200 OK\r\nContent-Length: {}\r\n", body.len()).as_bytes()));
    assert!(bytes.ends_with(body.as_bytes()));
    assert_eq!(bytes, expected.into_bytes());
}

#[test]
fn search_top_k_scenario() {
    let bytes = handle_connection(
        b"GET /api/search?query=Nachos%20Pillage%20Milwaukee HTTP/1.1\r\nAccept: application/json\r\n\r\n",
        &server_router(),
        &mock_model(),
    )
    .unwrap();
    let text = String::from_utf8(bytes).unwrap();
    let body = text.split("\r\n\r\n").nth(1).unwrap();
    assert!(body.starts_with("[\"Nachos Pillage Milwaukee\","));
    assert_eq!(body.matches("\",\"").count() + 1, 10);
}

#[test]
fn unknown_route_scenario() {
    let bytes = handle_connection(b"GET /nope HTTP/1.1\r\nAccept: text/plain\r\n\r\n", &server_router(), &mock_model()).unwrap();
    assert_eq!(bytes, b"HTTP/1.1 404 NOT FOUND\r\nContent-Length: 9\r\n\r\nNOT FOUND".to_vec());
}

#[test]
fn malformed_header_scenario() {
    let bytes = handle_connection(b"GET / HTTP/1.1\r\nContent-Type bad\r\n\r\n", &server_router(), &mock_model()).unwrap();
    assert!(bytes.starts_with(b"HTTP/1.1 400 BAD REQUEST\r\n"));
    assert!(bytes.ends_with(b"\r\n\r\nBAD REQUEST"));
    assert_eq!(bytes, b"HTTP/1.1 400 BAD REQUEST\r\nContent-Length: 11\r\n\r\nBAD REQUEST".to_vec());
}

#[test]
fn client_error_with_plain_text_accept() {
    let request = request_with_accept("Accept", "text/plain");
    let response = DefaultController::client_error(&request).unwrap();
    assert_eq!(response.to_vec(), b"HTTP/1.1 400 BAD REQUEST\r\nContent-Length: 11\r\n\r\nBAD REQUEST".to_vec());
}

#[test]
fn default_controllers_accept_any_type() {
    let request = request_with_accept("accept", "*/*");
    assert_eq!(DefaultController::not_found(&request).unwrap().status_line(), "404 NOT FOUND");
    assert_eq!(DefaultController::internal_server_error(&request).unwrap().contents(), "INTERNAL SERVER ERROR");
    assert_eq!(DefaultController::client_error(&request).unwrap().status_line(), "400 BAD REQUEST");
}

#[test]
fn default_controllers_keep_status_for_html_only() {
    let request = request_with_accept("Accept", "text/html");
    let expected = ["404 NOT FOUND", "500 INTERNAL SERVER ERROR", "400 BAD REQUEST"];
    for (f, status) in [DefaultController::not_found, DefaultController::internal_server_error, DefaultController::client_error]
        .into_iter()
        .zip(expected)
    {
        let response = f(&request).unwrap();
        assert_eq!(response.status_line(), status);
        assert_eq!(response.contents(), "Please accept application/json");
    }
}

#[test]
fn fallback_matches_the_handler_for_the_made_up_request() {
    let request = request_with_accept("Accept", "text/html,application/json");
    let handled = DefaultController::client_error(&request).unwrap().to_vec();
    let fallback = respond_to_request_error(&NpmExpansionsError::from(NpmErrorKind::InvalidRequestHeaders)).unwrap();
    assert_eq!(handled, fallback);
    let handled = DefaultController::not_found(&request).unwrap().to_vec();
    let fallback = respond_to_request_error(&NpmExpansionsError::from(NpmErrorKind::RouteNotFound)).unwrap();
    assert_eq!(handled, fallback);
    let handled = DefaultController::internal_server_error(&request).unwrap().to_vec();
    let fallback = respond_to_request_error(&NpmExpansionsError::from(NpmErrorKind::InvalidHttpRequest)).unwrap();
    assert_eq!(handled, fallback);
}

#[test]
fn default_controllers_fail_on_bad_accept() {
    let request = request_with_accept("Accept", "text/");
    assert!(DefaultController::not_found(&request).is_err());
    assert!(DefaultController::client_error(&request).is_err());
}

#[test]
fn json_controllers() {
    let json = request_with_accept("Accept", "application/json");
    let model = ExpansionsModel::new("e.txt", "a\nb");
    assert_eq!(NpmController::all(&json, &model).unwrap().contents(), "[\"a\",\"b\"]");
    let random = NpmController::random(&json, &model).unwrap();
    assert!(random.contents() == "{\"npm-expansion\": \"a\"}" || random.contents() == "{\"npm-expansion\": \"b\"}");
    let html = request_with_accept("Accept", "text/html");
    assert_eq!(NpmController::search(&html, &model).unwrap().status_line(), "406 NOT ACCEPTABLE");
    let bad = request_with_accept("Accept", "text/");
    assert!(NpmController::random(&bad, &model).is_err());
    let empty = ExpansionsModel::new("e.txt", "");
    assert!(NpmController::random(&json, &empty).is_err());
    assert_eq!(NpmController::all(&json, &empty).unwrap().contents(), "[]");
}

#[test]
fn route_table_and_dispatch() {
    let routes = route_config();
    assert_eq!(routes.len(), 3);
    assert_eq!(routes[0].0, "GET /api/random HTTP/1.1");
    assert_eq!(routes[1].1, NpmRoute::All);
    let json = request_with_accept("Accept", "application/json");
    let model = ExpansionsModel::new("e.txt", "only");
    assert_eq!(NpmRoute::All.handle(&json, &model).unwrap().contents(), "[\"only\"]");
}

#[test]
fn error_response_for_each_kind() {
    let bytes = respond_to_request_error(&NpmExpansionsError::from(NpmErrorKind::RouteNotFound)).unwrap();
    assert_eq!(bytes, b"HTTP/1.1 404 NOT FOUND\r\nContent-Length: 9\r\n\r\nNOT FOUND".to_vec());
}

#[test]
fn expansion_object_text() {
    assert_eq!(
        npm_expansions::npm_controller::expansion_json("no please manager"),
        "{\"npm-expansion\": \"no please manager\"}"
    );
}
