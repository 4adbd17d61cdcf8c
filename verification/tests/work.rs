use proxyenv::cli::OverrideOptions;
use proxyenv::utils::Terminal;
use proxyenv::work::{cat, init, merge, ProxyList, ProxyVariables};

fn list(http: &str, https: &str, ftp: &str, all: &str, no: &str) -> ProxyList {
    ProxyList {
        http: http.to_string(),
        https: https.to_string(),
        ftp: ftp.to_string(),
        all: all.to_string(),
        no: no.to_string(),
    }
}

fn no_overrides() -> OverrideOptions {
    OverrideOptions {
        http_proxy: None,
        https_proxy: None,
        ftp_proxy: None,
        all_proxy: None,
        no_proxy: None,
        no_detect: false,
        force_socks5h: false,
    }
}

#[test]
fn default_list_is_empty() {
    assert_eq!(ProxyList::default(), list("", "", "", "", ""));
    assert!(ProxyList::default().into_vars().is_empty());
}

#[test]
fn into_vars_keeps_the_order_and_drops_empty_fields() {
    assert_eq!(
        list("h", "s", "f", "a", "n").into_vars(),
        vec![
            ("http_proxy", "h".to_string()),
            ("https_proxy", "s".to_string()),
            ("ftp_proxy", "f".to_string()),
            ("all_proxy", "a".to_string()),
            ("no_proxy", "n".to_string()),
        ]
    );
    assert_eq!(
        list("", "s", "", "", "n").into_vars(),
        vec![("https_proxy", "s".to_string()), ("no_proxy", "n".to_string())]
    );
}

#[test]
fn merge_replaces_field_by_field() {
    let mut overrides = no_overrides();
    overrides.https_proxy = Some("S".to_string());
    overrides.no_proxy = Some("".to_string());
    assert_eq!(
        merge(list("h", "s", "f", "a", "n"), overrides),
        list("h", "S", "f", "a", "")
    );
    assert_eq!(
        merge(list("h", "s", "f", "a", "n"), no_overrides()),
        list("h", "s", "f", "a", "n")
    );
}

#[test]
fn init_writes_what_was_detected() {
    assert_eq!(
        init(
            Terminal::Bash,
            list("http://h:1", "", "", "socks://s:2", "localhost"),
            no_overrides()
        ),
        "export http_proxy=\"http://h:1\"\nexport all_proxy=\"socks://s:2\"\nexport no_proxy=\"localhost\""
    );
    assert_eq!(init(Terminal::Bash, ProxyList::default(), no_overrides()), "");
}

#[test]
fn init_override_takes_the_place_of_a_detected_value() {
    let mut overrides = no_overrides();
    overrides.http_proxy = Some("http://mine:9".to_string());
    assert_eq!(
        init(Terminal::Cmd, list("http://h:1", "", "", "", ""), overrides),
        "set http_proxy=http://mine:9"
    );
}

#[test]
fn init_empty_override_drops_the_field() {
    let mut overrides = no_overrides();
    overrides.http_proxy = Some(String::new());
    assert_eq!(
        init(Terminal::Fish, list("http://h:1", "", "f", "", ""), overrides),
        "set -x ftp_proxy \"f\""
    );
}

#[test]
fn init_without_detection_keeps_only_the_overrides() {
    let mut overrides = no_overrides();
    overrides.no_detect = true;
    overrides.all_proxy = Some("socks5://a:1".to_string());
    assert_eq!(
        init(Terminal::PowerShell, list("h", "s", "f", "a", "n"), overrides),
        "$env:all_proxy = \"socks5://a:1\""
    );
    let mut overrides = no_overrides();
    overrides.no_detect = true;
    assert_eq!(init(Terminal::Zsh, list("h", "s", "f", "a", "n"), overrides), "");
}

fn variables(
    http: Option<&str>,
    https: Option<&str>,
    ftp: Option<&str>,
    all: Option<&str>,
    no: Option<&str>,
) -> ProxyVariables {
    ProxyVariables {
        http: http.map(str::to_string),
        https: https.map(str::to_string),
        ftp: ftp.map(str::to_string),
        all: all.map(str::to_string),
        no: no.map(str::to_string),
    }
}

#[test]
fn cat_shows_what_is_set_in_order() {
    let lower = variables(Some("h"), None, Some("f"), None, Some(""));
    let upper = variables(None, Some("S"), None, Some("A"), None);
    assert_eq!(
        cat(&lower, Some(&upper)),
        "http_proxy: h\nftp_proxy: f\nno_proxy: \nHTTPS_PROXY: S\nALL_PROXY: A\n"
    );
    assert_eq!(cat(&lower, None), "http_proxy: h\nftp_proxy: f\nno_proxy: \n");
}

#[test]
fn cat_of_all_ten() {
    let lower = variables(Some("1"), Some("2"), Some("3"), Some("4"), Some("5"));
    let upper = variables(Some("6"), Some("7"), Some("8"), Some("9"), Some("10"));
    assert_eq!(
        cat(&lower, Some(&upper)),
        "http_proxy: 1\nhttps_proxy: 2\nftp_proxy: 3\nall_proxy: 4\nno_proxy: 5\nHTTP_PROXY: 6\nHTTPS_PROXY: 7\nFTP_PROXY: 8\nALL_PROXY: 9\nNO_PROXY: 10\n"
    );
}

#[test]
fn cat_of_nothing_is_empty() {
    let none = variables(None, None, None, None, None);
    assert_eq!(cat(&none, Some(&none)), "");
    assert_eq!(cat(&none, None), "");
}
