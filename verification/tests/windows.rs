use proxyenv::work::windows::{
    add_protocol_prefix, eval_ipv4, from_registry, is_bare_ip_address, parse_no_proxy,
    parse_proxy_server, read_entry, scan_no_proxy, scan_proxy_server, Diagnostic, Field,
    RegistrySettings,
};
use proxyenv::work::ProxyList;

fn list(http: &str, https: &str, ftp: &str, all: &str, no: &str) -> ProxyList {
    ProxyList {
        http: http.to_string(),
        https: https.to_string(),
        ftp: ftp.to_string(),
        all: all.to_string(),
        no: no.to_string(),
    }
}

#[test]
fn test_parse_proxy_server() {
    let proxy_server = "";
    assert_eq!(parse_proxy_server(proxy_server, false), ProxyList::default());

    let proxy_server = "127.0.0.1:8080";
    assert_eq!(
        parse_proxy_server(proxy_server, false),
        list("", "", "", "http://127.0.0.1:8080", "")
    );

    let proxy_server = "127.0.0.1:7890";
    assert_eq!(
        parse_proxy_server(proxy_server, true),
        list("", "", "", "socks5h://127.0.0.1:7890", "")
    );

    let proxy_server =
        "http=127.0.0.1:7890;https=127.0.0.1:7890;ftp=127.0.0.1:7890;socks=127.0.0.1:7890";
    assert_eq!(
        parse_proxy_server(proxy_server, false),
        list(
            "127.0.0.1:7890",
            "127.0.0.1:7890",
            "127.0.0.1:7890",
            "socks://127.0.0.1:7890",
            ""
        )
    );
}

#[test]
fn test_parse_no_proxy() {
    let proxy_override = "";
    assert_eq!(parse_no_proxy(proxy_override), "");

    let proxy_override = "<local>";
    assert_eq!(parse_no_proxy(proxy_override), "localhost");

    let proxy_override = "localhost;10.0.*.*";
    assert_eq!(
        parse_no_proxy(proxy_override),
        "10.0.0.0/16,localhost".to_string()
    );

    let proxy_override = "10.0.*";
    assert_eq!(parse_no_proxy(proxy_override), "10.0.0.0/16");

    let proxy_override = "*.google.com";
    assert_eq!(parse_no_proxy(proxy_override), "google.com");

    let proxy_override = "*.google.com;*.baidu.com";
    assert_eq!(parse_no_proxy(proxy_override), "baidu.com,google.com");
}

#[test]
fn test_is_bare_ip_address() {
    assert!(is_bare_ip_address("127.0.0.1:8080"));
    assert!(is_bare_ip_address("192.168.1.1:3128"));
    assert!(!is_bare_ip_address("http://127.0.0.1:8080"));
    assert!(!is_bare_ip_address("socks://127.0.0.1:1080"));
    assert!(!is_bare_ip_address("proxy.example.com:8080"));
    assert!(!is_bare_ip_address("127.0.0.1"));
    assert!(!is_bare_ip_address("127.0.0.1:abc"));
}

#[test]
fn test_add_protocol_prefix() {
    assert_eq!(
        add_protocol_prefix("127.0.0.1:7890", false),
        "http://127.0.0.1:7890"
    );
    assert_eq!(
        add_protocol_prefix("127.0.0.1:7890", true),
        "socks5h://127.0.0.1:7890"
    );
    assert_eq!(
        add_protocol_prefix("http://127.0.0.1:7890", false),
        "http://127.0.0.1:7890"
    );
    assert_eq!(
        add_protocol_prefix("proxy.example.com:8080", false),
        "proxy.example.com:8080"
    );
}

#[test]
fn bare_ip_address_limits() {
    assert!(is_bare_ip_address("255.255.255.255:65535"));
    assert!(is_bare_ip_address("0.0.0.0:0"));
    assert!(!is_bare_ip_address("256.0.0.1:80"));
    assert!(!is_bare_ip_address("1.2.3.4:65536"));
    assert!(!is_bare_ip_address("1.2.3:80"));
    assert!(!is_bare_ip_address("1.2.3.4.5:80"));
    assert!(!is_bare_ip_address("1.2.3.4:80:90"));
    assert!(!is_bare_ip_address("1..3.4:80"));
    assert!(!is_bare_ip_address("1.2.3.4:"));
    assert!(!is_bare_ip_address(""));
    assert!(is_bare_ip_address("001.002.003.004:00080"));
    assert!(is_bare_ip_address("+1.2.3.4:+80"));
    assert!(!is_bare_ip_address("-1.2.3.4:80"));
    assert!(!is_bare_ip_address("1.2.3.4:+"));
}

#[test]
fn proxy_server_urls_go_to_the_field_of_their_scheme() {
    assert_eq!(
        parse_proxy_server("http://a:1;https://b:2;socks://c:3", false),
        list("http://a:1", "https://b:2", "", "socks://c:3", "")
    );
}

#[test]
fn proxy_server_socks_value_keeps_its_own_scheme() {
    assert_eq!(
        parse_proxy_server("socks=socks5://h:1", false),
        list("", "", "", "socks5://h:1", "")
    );
    assert_eq!(
        parse_proxy_server("socks=h:1", false),
        list("", "", "", "socks://h:1", "")
    );
}

#[test]
fn proxy_server_bare_host_stays_unprefixed() {
    assert_eq!(
        parse_proxy_server("proxy.example.com:8080", true),
        list("", "", "", "proxy.example.com:8080", "")
    );
}

#[test]
fn proxy_server_later_entry_replaces_earlier() {
    assert_eq!(
        parse_proxy_server("http=a:1;http=b:2", false),
        list("b:2", "", "", "", "")
    );
    assert_eq!(
        parse_proxy_server("http=a:1;http=", false),
        list("", "", "", "", "")
    );
}

#[test]
fn proxy_server_unrecognized_entries_leave_the_list_empty() {
    let (proxies, diagnostics) = scan_proxy_server("a=b=c;gopher://x;=v;x=1;;a://b://c", true);
    assert_eq!(proxies, ProxyList::default());
    assert_eq!(
        diagnostics,
        vec![
            Diagnostic::InvalidDefinition("a=b=c".to_string()),
            Diagnostic::InvalidProtocol("gopher".to_string()),
            Diagnostic::InvalidDefinition("=v".to_string()),
            Diagnostic::InvalidDefinition("x=1".to_string()),
            Diagnostic::InvalidDefinition("a://b://c".to_string()),
        ]
    );
}

#[test]
fn proxy_server_skips_a_bad_entry_and_goes_on() {
    let (proxies, diagnostics) = scan_proxy_server("ftp=f:21;a=b=c;https=s:443", false);
    assert_eq!(proxies, list("", "s:443", "f:21", "", ""));
    assert_eq!(
        diagnostics,
        vec![Diagnostic::InvalidDefinition("a=b=c".to_string())]
    );
}

#[test]
fn read_entry_by_shape() {
    assert_eq!(
        read_entry("http=h:1", false),
        Ok(Some((Field::Http, "h:1".to_string())))
    );
    assert_eq!(
        read_entry("https=h:1", false),
        Ok(Some((Field::Https, "h:1".to_string())))
    );
    assert_eq!(
        read_entry("ftp=h:1", false),
        Ok(Some((Field::Ftp, "h:1".to_string())))
    );
    assert_eq!(
        read_entry("socks=h:1", false),
        Ok(Some((Field::All, "socks://h:1".to_string())))
    );
    assert_eq!(read_entry("", false), Ok(None));
    assert_eq!(
        read_entry("1.2.3.4:5", true),
        Ok(Some((Field::All, "socks5h://1.2.3.4:5".to_string())))
    );
    assert_eq!(
        read_entry("ftp://h:1", false),
        Err(Diagnostic::InvalidProtocol("ftp".to_string()))
    );
}

#[test]
fn eval_ipv4_bits() {
    assert_eq!(eval_ipv4("*.*.*.*"), Some(32));
    assert_eq!(eval_ipv4("10.*.*.*"), Some(24));
    assert_eq!(eval_ipv4("10.*"), Some(24));
    assert_eq!(eval_ipv4("10.0.*.*"), Some(16));
    assert_eq!(eval_ipv4("10.0.0.*"), Some(8));
    assert_eq!(eval_ipv4("10.0.0.1"), Some(0));
    assert_eq!(eval_ipv4("10.0"), Some(0));
    assert_eq!(eval_ipv4("10.*.0.1"), None);
    assert_eq!(eval_ipv4("10.0.0.0.*"), None);
    assert_eq!(eval_ipv4("10..*"), None);
    assert_eq!(eval_ipv4(""), None);
    assert_eq!(eval_ipv4("256.*"), None);
    assert_eq!(eval_ipv4("localhost"), None);
    assert_eq!(eval_ipv4("*.google.com"), None);
}

#[test]
fn no_proxy_subnets() {
    assert_eq!(parse_no_proxy("*.*.*.*"), "0.0.0.0/32");
    assert_eq!(parse_no_proxy("10.*.*.*"), "10.0.0.0/24");
    assert_eq!(parse_no_proxy("10.*"), "10.0.0.0/24");
    assert_eq!(parse_no_proxy("192.168.*.*"), "192.168.0.0/16");
    assert_eq!(parse_no_proxy("192.168.1.*"), "192.168.1.0/8");
}

#[test]
fn no_proxy_drops_what_matches_everything() {
    assert_eq!(parse_no_proxy("*"), "");
    assert_eq!(parse_no_proxy("*;localhost"), "localhost");
    assert_eq!(parse_no_proxy("10.1.2.3;localhost"), "localhost");
}

#[test]
fn no_proxy_is_sorted_and_without_duplicates() {
    assert_eq!(parse_no_proxy("b;a;c;a;b"), "a,b,c");
    assert_eq!(parse_no_proxy("<local>;localhost;<local>"), "localhost");
    assert_eq!(parse_no_proxy("ab;a;B;abc"), "B,a,ab,abc");
    assert_eq!(parse_no_proxy("a;;b"), ",a,b");
}

#[test]
fn no_proxy_local_prefix() {
    assert_eq!(parse_no_proxy("<local>x"), "localhost");
}

#[test]
fn no_proxy_reports_a_wildcard_it_cannot_express() {
    let (value, diagnostics) = scan_no_proxy("*.a.*.com;10.*.1;ok");
    assert_eq!(value, "10.*.1,a.*.com,ok");
    assert_eq!(
        diagnostics,
        vec![
            Diagnostic::UnsupportedWildcard("a.*.com".to_string()),
            Diagnostic::UnsupportedWildcard("10.*.1".to_string()),
        ]
    );
}

#[test]
fn registry_disabled_gives_the_empty_list() {
    let settings = RegistrySettings {
        proxy_enable: 0,
        proxy_server: "http=h:1;a=b=c".to_string(),
        proxy_override: "<local>".to_string(),
    };
    let (proxies, diagnostics) = from_registry(false, &settings);
    assert_eq!(proxies, ProxyList::default());
    assert!(diagnostics.is_empty());
}

#[test]
fn registry_enabled_reads_both_texts() {
    let settings = RegistrySettings {
        proxy_enable: 1,
        proxy_server: "127.0.0.1:7890;bad=".to_string(),
        proxy_override: "<local>;*.corp.*".to_string(),
    };
    let (proxies, diagnostics) = from_registry(true, &settings);
    assert_eq!(
        proxies,
        list("", "", "", "socks5h://127.0.0.1:7890", "corp.*,localhost")
    );
    assert_eq!(
        diagnostics,
        vec![
            Diagnostic::InvalidDefinition("bad=".to_string()),
            Diagnostic::UnsupportedWildcard("corp.*".to_string()),
        ]
    );
}
