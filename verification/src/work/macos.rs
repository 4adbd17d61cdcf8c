//! The proxy settings as macOS shows them: one text of `Key : Value` lines,
//! with lists between braces.

use crate::text::pieces::{join, joined, pieces, split};
use crate::text::search::{
    contains, find, first_occurrence, includes, lemma_first_occurrence_from, same,
};
use crate::text::strings::{chain, chars_of, or_empty, text_of, views};
use crate::text::strip::{trim, trimmed};
use crate::utils::Terminal;
use crate::work::{ProxyList, ProxySet};
use vstd::prelude::*;

verus! {

/// `text` up to its first line feed, or all of it where it has none.
pub open spec fn first_line(text: Seq<char>) -> Seq<char> {
    match first_occurrence(text, "\n"@) {
        Some(end) => text.take(end),
        None => text,
    }
}

/// The value that `text` gives for `key`: what follows the first `key : ` up
/// to the end of its line, without the white space around it. There is none
/// where the key does not occur or nothing but white space follows it.
pub open spec fn value_of(text: Seq<char>, key: Seq<char>) -> Option<Seq<char>> {
    let pattern = key + " : "@;
    match first_occurrence(text, pattern) {
        Some(at) => {
            let value = trimmed(first_line(text.skip(at + pattern.len())));
            if value.len() == 0 {
                None
            } else {
                Some(value)
            }
        },
        None => None,
    }
}

/// The value that `text` gives for `key`.
pub fn extract_value(text: &str, key: &str) -> (r: Option<String>)
    ensures
        text_of(r) == value_of(text@, key@),
{
    let pattern = chain(key, " : ");
    let at = match find(text, pattern.as_str()) {
        Some(at) => at,
        None => {
            return None;
        },
    };
    proof {
        lemma_first_occurrence_from(text@, pattern@, 0);
    }
    let length = text.unicode_len();
    let start = at + pattern.as_str().unicode_len();
    let rest = text.substring_char(start, length);
    assert(rest@ =~= text@.skip(start as int));
    let line = match find(rest, "\n") {
        Some(end) => {
            proof {
                lemma_first_occurrence_from(rest@, "\n"@, 0);
            }
            let line = rest.substring_char(0, end);
            assert(line@ =~= rest@.take(end as int));
            line
        },
        None => rest,
    };
    let value = trim(line);
    if value.as_str().is_empty() {
        None
    } else {
        Some(value)
    }
}

/// The index, from `at` on, of the brace that closes the innermost of the
/// `depth` braces that are open at `at`.
pub open spec fn closing_brace_from(text: Seq<char>, at: int, depth: nat) -> Option<int>
    decreases text.len() - at,
{
    if at < 0 || at >= text.len() {
        None
    } else if text[at] == '{' {
        closing_brace_from(text, at + 1, depth + 1)
    } else if text[at] == '}' {
        if depth <= 1 {
            Some(at)
        } else {
            closing_brace_from(text, at + 1, (depth - 1) as nat)
        }
    } else {
        closing_brace_from(text, at + 1, depth)
    }
}

/// The index in `text` of the brace that closes a brace opened just before
/// `text`: the first closing brace that is not matched by an opening one
/// within `text`.
pub open spec fn closing_brace(text: Seq<char>) -> Option<int> {
    closing_brace_from(text, 0, 1)
}

/// What a list between braces holds up to its closing brace; nothing where
/// the brace is never closed.
pub open spec fn braced(text: Seq<char>) -> Seq<char> {
    match closing_brace(text) {
        Some(end) => text.take(end),
        None => Seq::empty(),
    }
}

/// The line stands between two double quotes.
pub open spec fn quoted(line: Seq<char>) -> bool {
    line.len() >= 2 && line[0] == '"' && line.last() == '"'
}

/// The items among `lines`: of each line that, without the white space around
/// it, stands between double quotes, what is between them.
pub open spec fn items_of(lines: Seq<Seq<char>>) -> Seq<Seq<char>>
    decreases lines.len(),
{
    if lines.len() == 0 {
        Seq::empty()
    } else {
        let before = items_of(lines.drop_last());
        let line = trimmed(lines.last());
        if quoted(line) {
            before.push(line.subrange(1, line.len() - 1))
        } else {
            before
        }
    }
}

/// The list that `text` gives for `key`: the quoted lines between the brace
/// of the first `key : {` and the brace that closes it. There is none where
/// the key does not occur or the list holds no item.
pub open spec fn array_of(text: Seq<char>, key: Seq<char>) -> Option<Seq<Seq<char>>> {
    let pattern = key + " : {"@;
    match first_occurrence(text, pattern) {
        Some(at) => {
            let items = items_of(pieces(braced(text.skip(at + pattern.len())), "\n"@));
            if items.len() == 0 {
                None
            } else {
                Some(items)
            }
        },
        None => None,
    }
}

/// The view of an optional list of texts.
pub open spec fn texts_of(list: Option<Vec<String>>) -> Option<Seq<Seq<char>>> {
    match list {
        Some(list) => Some(views(list@)),
        None => None,
    }
}

/// The index in `text` of the brace that closes a brace opened just before.
fn find_closing_brace(text: &str) -> (r: Option<usize>)
    ensures
        match r {
            Some(end) => end < text@.len() && closing_brace(text@) == Some(end as int),
            None => closing_brace(text@) is None,
        },
{
    let chars = chars_of(text);
    let mut inner: usize = 0;
    let mut at: usize = 0;
    while at < chars.len()
        invariant
            at <= chars.len(),
            chars@ == text@,
            inner <= at,
            closing_brace(text@) == closing_brace_from(text@, at as int, (inner + 1) as nat),
        decreases chars.len() - at,
    {
        let c = chars[at];
        if c == '{' {
            inner += 1;
        } else if c == '}' {
            if inner == 0 {
                return Some(at);
            }
            inner -= 1;
        }
        at += 1;
    }
    None
}

/// The list that `text` gives for `key`.
pub fn extract_array_value(text: &str, key: &str) -> (r: Option<Vec<String>>)
    ensures
        texts_of(r) == array_of(text@, key@),
{
    let pattern = chain(key, " : {");
    let at = match find(text, pattern.as_str()) {
        Some(at) => at,
        None => {
            return None;
        },
    };
    proof {
        lemma_first_occurrence_from(text@, pattern@, 0);
    }
    let length = text.unicode_len();
    let start = at + pattern.as_str().unicode_len();
    let rest = text.substring_char(start, length);
    assert(rest@ =~= text@.skip(start as int));
    let content = match find_closing_brace(rest) {
        Some(end) => {
            let content = rest.substring_char(0, end);
            assert(content@ =~= rest@.take(end as int));
            content
        },
        None => "",
    };
    assert(content@ == braced(rest@)) by {
        reveal_strlit("");
        assert(""@ =~= Seq::<char>::empty());
    }
    let lines = split(content, "\n");
    let ghost all = views(lines@);
    let mut items: Vec<String> = Vec::new();
    let mut i: usize = 0;
    assert(views(items@) =~= Seq::empty());
    while i < lines.len()
        invariant
            i <= lines.len(),
            all == views(lines@),
            views(items@) == items_of(all.take(i as int)),
        decreases lines.len() - i,
    {
        proof {
            let longer = all.take(i + 1);
            assert(longer.drop_last() =~= all.take(i as int));
            assert(longer.last() == lines@[i as int]@);
        }
        let line = trim(lines[i].as_str());
        let length = line.as_str().unicode_len();
        if length >= 2 && line.as_str().get_char(0) == '"' && line.as_str().get_char(length - 1)
            == '"' {
            let item = line.as_str().substring_char(1, length - 1).to_owned();
            assert(views(items@.push(item)) =~= views(items@).push(item@));
            items.push(item);
        }
        i += 1;
    }
    assert(all.take(i as int) =~= all);
    if items.len() == 0 {
        None
    } else {
        Some(items)
    }
}

/// The proxy that `info` gives for one kind of traffic: where `info` holds
/// the text `enabled`, the scheme, the value of `host_key`, a colon and the
/// value of `port_key`. There is none where `enabled` does not occur or
/// either value is missing.
pub open spec fn proxy_of(
    info: Seq<char>,
    enabled: Seq<char>,
    host_key: Seq<char>,
    port_key: Seq<char>,
    scheme: Seq<char>,
) -> Option<Seq<char>> {
    if includes(info, enabled) {
        match (value_of(info, host_key), value_of(info, port_key)) {
            (Some(host), Some(port)) => Some(scheme + host + ":"@ + port),
            _ => None,
        }
    } else {
        None
    }
}

/// The proxy that `info` gives for `protocol`, one of `http`, `https`, `ftp`
/// and `socks`; none for any other name.
pub open spec fn protocol_proxy(info: Seq<char>, protocol: Seq<char>) -> Option<Seq<char>> {
    if protocol == "http"@ {
        proxy_of(info, "HTTPEnable : 1"@, "HTTPProxy"@, "HTTPPort"@, "http://"@)
    } else if protocol == "https"@ {
        proxy_of(info, "HTTPSEnable : 1"@, "HTTPSProxy"@, "HTTPSPort"@, "https://"@)
    } else if protocol == "ftp"@ {
        proxy_of(info, "FTPEnable : 1"@, "FTPProxy"@, "FTPPort"@, "ftp://"@)
    } else if protocol == "socks"@ {
        proxy_of(info, "SOCKSEnable : 1"@, "SOCKSProxy"@, "SOCKSPort"@, "socks://"@)
    } else {
        None
    }
}

/// The proxy that `info` gives for one kind of traffic.
fn enabled_proxy(info: &str, enabled: &str, host_key: &str, port_key: &str, scheme: &str) -> (r:
    Option<String>)
    ensures
        text_of(r) == proxy_of(info@, enabled@, host_key@, port_key@, scheme@),
{
    if !contains(info, enabled) {
        return None;
    }
    let host = match extract_value(info, host_key) {
        Some(host) => host,
        None => {
            return None;
        },
    };
    let port = match extract_value(info, port_key) {
        Some(port) => port,
        None => {
            return None;
        },
    };
    let mut url = scheme.to_owned();
    url.append(host.as_str());
    url.append(":");
    url.append(port.as_str());
    Some(url)
}

/// The proxy that the settings `proxy_info` give for `protocol`.
pub fn get_proxy_for_protocol(proxy_info: &str, protocol: &str) -> (r: Option<String>)
    ensures
        text_of(r) == protocol_proxy(proxy_info@, protocol@),
{
    if same(protocol, "http") {
        enabled_proxy(proxy_info, "HTTPEnable : 1", "HTTPProxy", "HTTPPort", "http://")
    } else if same(protocol, "https") {
        enabled_proxy(proxy_info, "HTTPSEnable : 1", "HTTPSProxy", "HTTPSPort", "https://")
    } else if same(protocol, "ftp") {
        enabled_proxy(proxy_info, "FTPEnable : 1", "FTPProxy", "FTPPort", "ftp://")
    } else if same(protocol, "socks") {
        enabled_proxy(proxy_info, "SOCKSEnable : 1", "SOCKSProxy", "SOCKSPort", "socks://")
    } else {
        None
    }
}

/// The hosts that the settings except from the proxy, separated by commas;
/// none where the settings list no exception.
pub open spec fn bypass_list(info: Seq<char>) -> Option<Seq<char>> {
    match array_of(info, "ExceptionsList"@) {
        Some(items) => Some(joined(items, ","@)),
        None => None,
    }
}

/// The hosts that the settings `proxy_info` except from the proxy.
pub fn get_proxy_bypass_list(proxy_info: &str) -> (r: Option<String>)
    ensures
        text_of(r) == bypass_list(proxy_info@),
{
    match extract_array_value(proxy_info, "ExceptionsList") {
        Some(exceptions) => Some(join(&exceptions, ",")),
        None => None,
    }
}

/// The proxies that the settings `info` describe. The SOCKS proxy is the one
/// for everything else, and the exceptions are taken as they are written.
pub open spec fn system_proxies(info: Seq<char>) -> ProxySet {
    ProxySet {
        http: or_empty(protocol_proxy(info, "http"@)),
        https: or_empty(protocol_proxy(info, "https"@)),
        ftp: or_empty(protocol_proxy(info, "ftp"@)),
        all: or_empty(protocol_proxy(info, "socks"@)),
        no: or_empty(bypass_list(info)),
    }
}

/// The proxies of a macOS system, from the settings `proxy_info` as
/// `scutil --proxy` prints them.
pub fn get_proxies(terminal: Terminal, proxy_info: &str) -> (r: ProxyList)
    ensures
        r@ == system_proxies(proxy_info@),
{
    let mut proxies = ProxyList::default();
    if let Some(http_proxy) = get_proxy_for_protocol(proxy_info, "http") {
        proxies.http = http_proxy;
    }
    if let Some(https_proxy) = get_proxy_for_protocol(proxy_info, "https") {
        proxies.https = https_proxy;
    }
    if let Some(ftp_proxy) = get_proxy_for_protocol(proxy_info, "ftp") {
        proxies.ftp = ftp_proxy;
    }
    if let Some(socks_proxy) = get_proxy_for_protocol(proxy_info, "socks") {
        proxies.all = socks_proxy;
    }
    if let Some(no_proxy) = get_proxy_bypass_list(proxy_info) {
        proxies.no = no_proxy;
    }
    proxies
}

} // verus!
