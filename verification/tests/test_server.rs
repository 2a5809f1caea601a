use tux::server::ping_response;

#[test]
fn ping_response_names_method_and_path() {
    assert_eq!(
        ping_response("GET", "/ping/abc"),
        "method: GET\npath: /ping/abc"
    );
    assert_eq!(
        ping_response("POST", "/ping/123"),
        "method: POST\npath: /ping/123"
    );
}

#[test]
fn ping_response_of_empty_values_keeps_the_keys() {
    assert_eq!(ping_response("", ""), "method: \npath: ");
}
