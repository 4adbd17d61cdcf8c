//! The proxy settings as the desktop's proxy resolver gives them: for each
//! address that it is asked about, the list of the proxies to try.

use crate::cli::QueryOptions;
use crate::text::pieces::{join, joined};
use crate::text::search::same;
use crate::text::strings::views;
use crate::work::{ProxyList, ProxySet};
use vstd::prelude::*;

verus! {

/// What the proxy resolver answered: for each address of the options the
/// proxies to try for it, in the resolver's order.
#[derive(Debug, Clone, PartialEq, Eq)]
pub struct Resolved {
    /// The answer for the address of HTTP.
    pub http: Vec<String>,
    /// The answer for the address of HTTPS.
    pub https: Vec<String>,
    /// The answer for the address of FTP.
    pub ftp: Vec<String>,
    /// The answer for the address of everything else.
    pub all: Vec<String>,
    /// The answers for the addresses that may need no proxy, in the order of
    /// the addresses.
    pub no: Vec<Vec<String>>,
}

/// The proxy that an answer of the resolver stands for: the first of the
/// list, and none (the empty text) where the list is empty or its first
/// says `direct://`.
pub open spec fn first_proxy(answer: Seq<Seq<char>>) -> Seq<char> {
    if answer.len() == 0 || answer[0] == "direct://"@ {
        Seq::empty()
    } else {
        answer[0]
    }
}

/// The proxy that the answer `proxies` of the resolver stands for.
pub fn get_first_proxy(proxies: &Vec<String>) -> (r: String)
    ensures
        r@ == first_proxy(views(proxies@)),
{
    if proxies.len() == 0 {
        return String::new();
    }
    assert(views(proxies@)[0] == proxies@[0]@);
    if same(proxies[0].as_str(), "direct://") {
        String::new()
    } else {
        proxies[0].clone()
    }
}

/// The views of a list of answers, in order.
pub open spec fn answers(list: Seq<Vec<String>>) -> Seq<Seq<Seq<char>>> {
    list.map_values(|answer: Vec<String>| views(answer@))
}

/// Those of `addresses` that are reached without a proxy, in their order:
/// each one whose answer, at the same place in `resolved`, stands for no
/// proxy. An address without an answer is not among them.
pub open spec fn direct(addresses: Seq<Seq<char>>, resolved: Seq<Seq<Seq<char>>>) -> Seq<
    Seq<char>,
>
    decreases addresses.len(),
{
    if addresses.len() == 0 {
        Seq::empty()
    } else {
        let before = direct(addresses.drop_last(), resolved);
        let place = addresses.len() - 1;
        if place < resolved.len() && first_proxy(resolved[place]).len() == 0 {
            before.push(addresses.last())
        } else {
            before
        }
    }
}

/// The proxies that the resolver's answers describe: for each kind of
/// traffic the proxy that its answer stands for, and in `no_proxy` the
/// addresses, of those asked about, that are reached without one.
pub open spec fn resolved_proxies(options: QueryOptions, resolved: Resolved) -> ProxySet {
    ProxySet {
        http: first_proxy(views(resolved.http@)),
        https: first_proxy(views(resolved.https@)),
        ftp: first_proxy(views(resolved.ftp@)),
        all: first_proxy(views(resolved.all@)),
        no: joined(direct(views(options.no_query_addrs@), answers(resolved.no@)), ","@),
    }
}

/// The proxies that the answers `resolved` describe, given to the questions
/// that `options` ask.
pub fn from_dbus(options: &QueryOptions, resolved: &Resolved) -> (r: ProxyList)
    ensures
        r@ == resolved_proxies(*options, *resolved),
{
    let ghost addresses = views(options.no_query_addrs@);
    let ghost all = answers(resolved.no@);
    let mut no_proxies: Vec<String> = Vec::new();
    let mut i: usize = 0;
    assert(views(no_proxies@) =~= Seq::empty());
    while i < options.no_query_addrs.len()
        invariant
            i <= options.no_query_addrs.len(),
            addresses == views(options.no_query_addrs@),
            all == answers(resolved.no@),
            views(no_proxies@) == direct(addresses.take(i as int), all),
        decreases options.no_query_addrs.len() - i,
    {
        proof {
            assert(addresses.take(i + 1).drop_last() =~= addresses.take(i as int));
            assert(addresses.take(i + 1).last() == options.no_query_addrs@[i as int]@);
            if i < resolved.no.len() {
                assert(all[i as int] == views(resolved.no@[i as int]@));
            }
        }
        if i < resolved.no.len() && get_first_proxy(&resolved.no[i]).as_str().is_empty() {
            let addr = options.no_query_addrs[i].clone();
            assert(views(no_proxies@.push(addr)) =~= views(no_proxies@).push(addr@));
            no_proxies.push(addr);
        }
        i += 1;
    }
    assert(addresses.take(i as int) =~= addresses);
    ProxyList {
        http: get_first_proxy(&resolved.http),
        https: get_first_proxy(&resolved.https),
        ftp: get_first_proxy(&resolved.ftp),
        all: get_first_proxy(&resolved.all),
        no: join(&no_proxies, ","),
    }
}

/// The proxies of a Linux desktop, from the answers of its proxy resolver.
pub fn get_proxies(options: &QueryOptions, resolved: &Resolved) -> (r: ProxyList)
    ensures
        r@ == resolved_proxies(*options, *resolved),
{
    from_dbus(options, resolved)
}

} // verus!
