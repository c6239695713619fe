use mock_otel_collector::cart::{
    add_item_to_cart, handler, load_config, reports_span, stock_url, Body, CartError,
    Configuration, SERVER_NAME,
};
use mock_otel_collector::text::{push_decimal, push_signed_decimal};

#[test]
fn the_configuration_is_the_local_one() {
    let config = load_config();
    assert_eq!(config.host, "127.0.0.1");
    assert_eq!(config.port, 12345);
    assert_eq!(config.stock_service_url, "https://stock-server");
    assert_eq!(config.collector_url, "http://127.0.0.1:14268");
}

#[test]
fn the_address_is_host_colon_port() {
    assert_eq!(load_config().address(), "127.0.0.1:12345");
    let config = Configuration {
        host: "localhost".to_string(),
        port: 0,
        stock_service_url: String::new(),
        collector_url: "http://collector".to_string(),
    };
    assert_eq!(config.address(), "localhost:0");
    assert_eq!(config.traces_endpoint(), "http://collector/api/traces");
    assert_eq!(config.clone().port, 0);
}

#[test]
fn decimal_digits_have_no_leading_zeros() {
    for (n, text) in [
        (0u64, "0"),
        (7, "7"),
        (10, "10"),
        (99, "99"),
        (100, "100"),
        (8080, "8080"),
        (65535, "65535"),
        (u64::MAX, "18446744073709551615"),
    ] {
        let mut out = String::from("p");
        push_decimal(&mut out, n);
        assert_eq!(out, format!("p{}", text));
    }
}

#[test]
fn negative_numbers_stand_behind_a_minus_sign() {
    for n in [0i64, 1, -1, 10, -10, 99, -12345, i64::MAX, i64::MIN, i64::MIN + 1] {
        let mut out = String::from("n=");
        push_signed_decimal(&mut out, n);
        assert_eq!(out, format!("n={}", n));
    }
}

#[test]
fn refusals_say_why() {
    assert_eq!(CartError::NoStock.message(), "No stock available");
    assert_eq!(CartError::StockUnknown.message(), "Failed to get stock");
}

#[test]
fn the_stock_address_names_the_item() {
    assert_eq!(
        stock_url("https://stock-server", "42"),
        "https://stock-server/stock/42"
    );
    assert_eq!(stock_url("", ""), "/stock/");
}

#[test]
fn an_item_goes_in_only_while_stock_is_left() {
    assert_eq!(add_item_to_cart(Some(100)), Ok(()));
    assert_eq!(add_item_to_cart(Some(1)), Ok(()));
    assert_eq!(add_item_to_cart(Some(u32::MAX)), Ok(()));
    assert_eq!(add_item_to_cart(Some(0)), Err(CartError::NoStock));
    assert_eq!(add_item_to_cart(None), Err(CartError::StockUnknown));
}

#[test]
fn the_status_is_ok_only_while_stock_is_left() {
    assert_eq!(handler(Some(100)), 200);
    assert_eq!(handler(Some(0)), 500);
    assert_eq!(handler(None), 500);
}

#[test]
fn spans_for_headers_are_not_reported() {
    assert!(!reports_span("parse_headers"));
    assert!(!reports_span("encode_headers"));
    assert!(reports_span("HTTP request"));
    assert!(reports_span("parse_headers "));
    assert!(reports_span(""));
}

#[test]
fn the_service_has_a_name_and_a_request_body() {
    assert_eq!(SERVER_NAME, "cart_server");
    let body = Body {
        item_id: "42".to_string(),
    };
    assert_eq!(body.item_id, "42");
}
