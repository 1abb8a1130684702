use database::http::Response;
use database::request::{req_parser, Paths};
use database::route::{route, Route, RouteError};

fn chars(s: &str) -> Vec<char> {
    s.chars().collect()
}

fn go(method: Option<&str>, path: &str) -> Result<Route, RouteError> {
    let m = method.map(chars);
    route(m.as_deref(), &chars(path))
}

#[test]
fn routes_transacoes_and_extrato() {
    assert_eq!(go(Some("POST"), "/clientes/1/transacoes"), Ok(Route::Transacao(1)));
    assert_eq!(go(Some("GET"), "/clientes/5/extrato"), Ok(Route::Extrato(5)));
    assert_eq!(go(Some("GET"), "/clientes/+3/extrato"), Ok(Route::Extrato(3)));
    assert_eq!(go(Some("GET"), "/clientes/0/extrato/more"), Ok(Route::Extrato(0)));
}

#[test]
fn route_errors() {
    assert_eq!(go(Some("GET"), "/clientes/1"), Err(RouteError::InvalidPath));
    assert_eq!(go(Some("GET"), "/contas/1/extrato"), Err(RouteError::InvalidPath));
    assert_eq!(go(Some("GET"), "/clientes/x/extrato"), Err(RouteError::InvalidId));
    assert_eq!(go(Some("GET"), "/clientes//extrato"), Err(RouteError::InvalidId));
    assert_eq!(go(Some("GET"), "/clientes/256/extrato"), Err(RouteError::InvalidId));
    assert_eq!(go(Some("GET"), "/clientes/-1/extrato"), Err(RouteError::InvalidId));
    assert_eq!(go(Some("GET"), "/clientes/6/extrato"), Err(RouteError::IdTooLarge));
    assert_eq!(go(Some("GET"), "/clientes/255/extrato"), Err(RouteError::IdTooLarge));
    assert_eq!(go(Some("PUT"), "/clientes/1/extrato"), Err(RouteError::MethodNotAllowed));
    assert_eq!(go(None, "/clientes/1/extrato"), Err(RouteError::MethodNotAllowed));
    assert_eq!(go(Some("POST"), "/clientes/1/extrato"), Err(RouteError::WrongMethod));
    assert_eq!(go(Some("GET"), "/clientes/1/transacoes"), Err(RouteError::WrongMethod));
    assert_eq!(go(Some("GET"), "/clientes/1/saldo"), Err(RouteError::InvalidResource));
}

#[test]
fn route_error_responses() {
    let r = Response::from_route_error(RouteError::IdTooLarge);
    assert_eq!((r.code, r.msg, r.reason), (404, "Not Found", Some("ID greater than 6")));
    let r = Response::from_route_error(RouteError::WrongMethod);
    assert_eq!((r.code, r.msg, r.reason), (405, "Method Not Allowed", None));
    let r = Response::from_route_error(RouteError::MethodNotAllowed);
    assert_eq!((r.code, r.msg, r.reason), (405, "Not Found", Some("Method Not Allowed")));
}

#[test]
fn req_parser_routes_requests() {
    let post = b"POST /clientes/1/transacoes HTTP/1.1\r\nHost: x\r\nContent-Length: 2\r\n\r\n{}";
    let head_len = post.len() - 2;
    assert_eq!(req_parser(post).unwrap(), Paths::Transacao(1, head_len));
    let get = b"GET /clientes/2/extrato HTTP/1.1\r\n\r\n";
    assert_eq!(req_parser(get).unwrap(), Paths::Extrato(2));
}

#[test]
fn req_parser_turns_requests_away() {
    let r = req_parser(b"GET /clientes/2/extrato HTTP/1.1\r\nHost").unwrap_err();
    assert_eq!((r.code, r.msg, r.reason), (400, "Bad Request", Some("Partial Request")));
    let r = req_parser(b"GET /clientes/2/extrato HTTP/9.9\r\n\r\n").unwrap_err();
    assert_eq!((r.code, r.msg, r.reason), (400, "Bad Request", Some("Invalid HTTP")));
    let r = req_parser(b"GET /clientes/9/extrato HTTP/1.1\r\n\r\n").unwrap_err();
    assert_eq!((r.code, r.msg, r.reason), (404, "Not Found", Some("ID greater than 6")));
    let r = req_parser(b"DELETE /clientes/1/extrato HTTP/1.1\r\n\r\n").unwrap_err();
    assert_eq!((r.code, r.reason), (405, Some("Method Not Allowed")));
}
