use subforge::proxy::parse_windows_proxy_server;

#[test]
fn parse_simple_windows_proxy() {
    let parsed = parse_windows_proxy_server("127.0.0.1:7890").unwrap().expect("proxy should exist");
    assert_eq!(parsed.url, "http://127.0.0.1:7890");
}

#[test]
fn parse_https_specific_proxy() {
    let parsed = parse_windows_proxy_server("http=127.0.0.1:8080;https=127.0.0.1:7890")
        .unwrap()
        .expect("proxy should exist");
    assert_eq!(parsed.url, "http://127.0.0.1:7890");
}

#[test]
fn parse_socks_proxy() {
    let parsed = parse_windows_proxy_server("socks=127.0.0.1:1080").unwrap().expect("proxy should exist");
    assert_eq!(parsed.url, "socks5://127.0.0.1:1080");
}
