use proxyenv::utils::Terminal;
use proxyenv::work::macos::{
    extract_array_value, extract_value, get_proxies, get_proxy_bypass_list,
    get_proxy_for_protocol,
};
use proxyenv::work::ProxyList;

const DUMP: &str = "<dictionary> {\n  ExceptionsList : <array> {\n    0 : *.local\n    1 : 169.254/16\n  }\n  FTPPassive : 1\n  HTTPEnable : 1\n  HTTPPort : 7890\n  HTTPProxy : 127.0.0.1\n  HTTPSEnable : 1\n  HTTPSPort : 7891\n  HTTPSProxy : proxy.example.com\n  SOCKSEnable : 0\n  SOCKSPort : 1080\n  SOCKSProxy : 127.0.0.1\n}\n";

const QUOTED: &str = "<dictionary> {\n  ExceptionsList : {\n    \"*.local\"\n    \"169.254/16\"\n    nested : {\n      \"inner\"\n    }\n    plain\n  }\n  \"outside\"\n  FTPEnable : 1\n  FTPPort : 21\n  FTPProxy :   ftp.example.com  \n  SOCKSEnable : 1\n  SOCKSPort : 1080\n  SOCKSProxy : 10.0.0.1\n}\n";

#[test]
fn extract_value_takes_the_rest_of_the_line() {
    assert_eq!(extract_value(DUMP, "HTTPPort"), Some("7890".to_string()));
    assert_eq!(extract_value(DUMP, "HTTPProxy"), Some("127.0.0.1".to_string()));
    assert_eq!(
        extract_value(DUMP, "HTTPSProxy"),
        Some("proxy.example.com".to_string())
    );
    assert_eq!(
        extract_value(QUOTED, "FTPProxy"),
        Some("ftp.example.com".to_string())
    );
}

#[test]
fn extract_value_without_a_value() {
    assert_eq!(extract_value(DUMP, "Missing"), None);
    assert_eq!(extract_value("Key :  \t \nOther : 1\n", "Key"), None);
    assert_eq!(extract_value("Key : ", "Key"), None);
    assert_eq!(extract_value("", "Key"), None);
}

#[test]
fn extract_value_at_the_end_of_the_text() {
    assert_eq!(extract_value("Key : last", "Key"), Some("last".to_string()));
    assert_eq!(extract_value("Key : a\r\n", "Key"), Some("a".to_string()));
}

#[test]
fn extract_value_takes_the_first_occurrence() {
    assert_eq!(
        extract_value("Key : one\nKey : two\n", "Key"),
        Some("one".to_string())
    );
}

#[test]
fn extract_array_value_collects_the_quoted_lines() {
    assert_eq!(
        extract_array_value(QUOTED, "ExceptionsList"),
        Some(vec![
            "*.local".to_string(),
            "169.254/16".to_string(),
            "inner".to_string()
        ])
    );
}

#[test]
fn extract_array_value_without_items() {
    assert_eq!(extract_array_value(DUMP, "ExceptionsList"), None);
    assert_eq!(extract_array_value(QUOTED, "Missing"), None);
    assert_eq!(extract_array_value("List : {\n}\n", "List"), None);
    assert_eq!(extract_array_value("List : {\n  \"a\"\n", "List"), None);
    assert_eq!(extract_array_value("List : {\n  \"\n}\n", "List"), None);
}

#[test]
fn extract_array_value_keeps_an_empty_item() {
    assert_eq!(
        extract_array_value("List : {\n  \"\"\n  \"a b\"\n}", "List"),
        Some(vec!["".to_string(), "a b".to_string()])
    );
}

#[test]
fn proxy_for_each_protocol() {
    assert_eq!(
        get_proxy_for_protocol(DUMP, "http"),
        Some("http://127.0.0.1:7890".to_string())
    );
    assert_eq!(
        get_proxy_for_protocol(DUMP, "https"),
        Some("https://proxy.example.com:7891".to_string())
    );
    assert_eq!(get_proxy_for_protocol(DUMP, "ftp"), None);
    assert_eq!(get_proxy_for_protocol(DUMP, "socks"), None);
    assert_eq!(
        get_proxy_for_protocol(QUOTED, "ftp"),
        Some("ftp://ftp.example.com:21".to_string())
    );
    assert_eq!(
        get_proxy_for_protocol(QUOTED, "socks"),
        Some("socks://10.0.0.1:1080".to_string())
    );
    assert_eq!(get_proxy_for_protocol(DUMP, "gopher"), None);
}

#[test]
fn proxy_needs_host_and_port() {
    assert_eq!(
        get_proxy_for_protocol("HTTPEnable : 1\nHTTPProxy : h\n", "http"),
        None
    );
    assert_eq!(
        get_proxy_for_protocol("HTTPEnable : 1\nHTTPPort : 80\n", "http"),
        None
    );
    assert_eq!(
        get_proxy_for_protocol("HTTPEnable : 0\nHTTPProxy : h\nHTTPPort : 80\n", "http"),
        None
    );
}

#[test]
fn bypass_list_is_joined_by_commas() {
    assert_eq!(
        get_proxy_bypass_list(QUOTED),
        Some("*.local,169.254/16,inner".to_string())
    );
    assert_eq!(get_proxy_bypass_list(DUMP), None);
}

#[test]
fn proxies_of_a_dump() {
    assert_eq!(
        get_proxies(Terminal::Zsh, QUOTED),
        ProxyList {
            http: String::new(),
            https: String::new(),
            ftp: "ftp://ftp.example.com:21".to_string(),
            all: "socks://10.0.0.1:1080".to_string(),
            no: "*.local,169.254/16,inner".to_string(),
        }
    );
    assert_eq!(get_proxies(Terminal::Zsh, ""), ProxyList::default());
}
