//! The proxy settings as Windows keeps them: one text that lists the proxy
//! servers and one that lists the hosts to reach directly, both separated by
//! semicolons.

use crate::text::number::{parse_bounded, parses_within};
use crate::text::order::{
    lemma_precedes_irreflexive, lemma_precedes_total, lemma_precedes_transitive, less, precedes,
};
use crate::text::pieces::{join, joined, pieces, split};
use crate::text::search::{contains, includes, occurs_at, same, starts_with};
use crate::text::strings::{chain, or_empty, text_of, views};
use crate::text::strip::{
    CharClass, strip_leading, strip_trailing, without_leading, without_trailing,
};
use crate::work::{ProxyList, ProxySet};
use vstd::prelude::*;

verus! {

/// `value` is an IPv4 address and a port and nothing else: four numbers of at
/// most 255 with full stops between them, a colon, and a number of at most
/// 65535.
pub open spec fn bare_ip_address(value: Seq<char>) -> bool {
    let parts = pieces(value, ":"@);
    let octets = pieces(parts[0], "."@);
    &&& !includes(value, "://"@)
    &&& parts.len() == 2
    &&& parses_within(parts[1], 65535)
    &&& octets.len() == 4
    &&& forall|i: int| 0 <= i < 4 ==> parses_within(#[trigger] octets[i], 255)
}

/// Whether `value` is an IPv4 address and a port without a scheme.
#[verifier::loop_isolation(false)]
pub fn is_bare_ip_address(value: &str) -> (r: bool)
    ensures
        r == bare_ip_address(value@),
{
    if contains(value, "://") {
        return false;
    }
    let parts = split(value, ":");
    if parts.len() != 2 {
        return false;
    }
    assert(views(parts@)[0] == parts@[0]@ && views(parts@)[1] == parts@[1]@);
    if parse_bounded(parts[1].as_str(), 65535).is_none() {
        return false;
    }
    let octets = split(parts[0].as_str(), ".");
    if octets.len() != 4 {
        return false;
    }
    let ghost all = views(octets@);
    let mut i: usize = 0;
    while i < 4
        invariant
            i <= 4,
            octets.len() == 4,
            all == views(octets@),
            forall|j: int| 0 <= j < i ==> parses_within(#[trigger] all[j], 255),
        decreases 4 - i,
    {
        assert(all[i as int] == octets@[i as int]@);
        if parse_bounded(octets[i].as_str(), 255).is_none() {
            return false;
        }
        i += 1;
    }
    true
}

/// `value` with the scheme that a bare address is given: `socks5h://` where
/// `force_socks5h` is set, `http://` where it is not. Anything but a bare
/// address stays as it is.
pub open spec fn with_protocol_prefix(value: Seq<char>, force_socks5h: bool) -> Seq<char> {
    if bare_ip_address(value) {
        if force_socks5h {
            "socks5h://"@ + value
        } else {
            "http://"@ + value
        }
    } else {
        value
    }
}

/// Puts a scheme before a bare address.
pub fn add_protocol_prefix(value: &str, force_socks5h: bool) -> (r: String)
    ensures
        r@ == with_protocol_prefix(value@, force_socks5h),
{
    if is_bare_ip_address(value) {
        if force_socks5h {
            chain("socks5h://", value)
        } else {
            chain("http://", value)
        }
    } else {
        value.to_owned()
    }
}

/// One of the four fields that the list of proxy servers can set.
#[derive(Clone, Copy, Debug, PartialEq, Eq, Structural)]
pub enum Field {
    Http,
    Https,
    Ftp,
    All,
}

/// What is wrong with an entry that a parser could not use as it stands.
#[derive(Debug, Clone, PartialEq, Eq)]
pub enum Diagnostic {
    /// The entry is a URL whose scheme, given here, is not that of a proxy.
    InvalidProtocol(String),
    /// The entry, given here, is not of any known shape.
    InvalidDefinition(String),
    /// The bypass entry, given here as it was kept, holds a wildcard in a
    /// place where `no_proxy` cannot express one.
    UnsupportedWildcard(String),
}

/// A [`Diagnostic`] as contracts see it.
pub enum Note {
    InvalidProtocol(Seq<char>),
    InvalidDefinition(Seq<char>),
    UnsupportedWildcard(Seq<char>),
}

impl View for Diagnostic {
    type V = Note;

    open spec fn view(&self) -> Note {
        match self {
            Diagnostic::InvalidProtocol(s) => Note::InvalidProtocol(s@),
            Diagnostic::InvalidDefinition(s) => Note::InvalidDefinition(s@),
            Diagnostic::UnsupportedWildcard(s) => Note::UnsupportedWildcard(s@),
        }
    }
}

/// The views of a list of diagnostics, in order.
pub open spec fn notes(diagnostics: Seq<Diagnostic>) -> Seq<Note> {
    diagnostics.map_values(|d: Diagnostic| d@)
}

/// What one entry of the list of proxy servers says: a field and its value,
/// nothing (the entry is empty), or why the entry is skipped.
///
/// `key=value` sets the field that `key` names; the value of `socks` goes to
/// the field for everything else, with `socks://` before it unless it begins
/// with `socks` already. A URL sets the field of its scheme and stays whole.
/// Any other text goes to the field for everything else, a bare address with
/// a scheme before it.
pub open spec fn entry(proxy: Seq<char>, force_socks5h: bool) -> Result<
    Option<(Field, Seq<char>)>,
    Note,
> {
    let pair = pieces(proxy, "="@);
    if pair.len() == 2 {
        let key = pair[0];
        let value = pair[1];
        if key == "http"@ {
            Ok(Some((Field::Http, value)))
        } else if key == "https"@ {
            Ok(Some((Field::Https, value)))
        } else if key == "ftp"@ {
            Ok(Some((Field::Ftp, value)))
        } else if key == "socks"@ {
            if occurs_at(value, "socks"@, 0) {
                Ok(Some((Field::All, value)))
            } else {
                Ok(Some((Field::All, "socks://"@ + value)))
            }
        } else {
            Err(Note::InvalidDefinition(proxy))
        }
    } else if pair.len() == 1 {
        let value = pair[0];
        let url = pieces(value, "://"@);
        if url.len() == 2 {
            let protocol = url[0];
            if protocol == "http"@ {
                Ok(Some((Field::Http, value)))
            } else if protocol == "https"@ {
                Ok(Some((Field::Https, value)))
            } else if protocol == "socks"@ {
                Ok(Some((Field::All, value)))
            } else {
                Err(Note::InvalidProtocol(protocol))
            }
        } else if url.len() == 1 {
            if value.len() == 0 {
                Ok(None)
            } else {
                Ok(Some((Field::All, with_protocol_prefix(value, force_socks5h))))
            }
        } else {
            Err(Note::InvalidDefinition(value))
        }
    } else {
        Err(Note::InvalidDefinition(proxy))
    }
}

/// What [`read_entry`] returns, as contracts see it.
pub open spec fn entry_view(r: Result<Option<(Field, String)>, Diagnostic>) -> Result<
    Option<(Field, Seq<char>)>,
    Note,
> {
    match r {
        Ok(Some((field, value))) => Ok(Some((field, value@))),
        Ok(None) => Ok(None),
        Err(d) => Err(d@),
    }
}

/// Reads one entry of the list of proxy servers.
pub fn read_entry(proxy: &str, force_socks5h: bool) -> (r: Result<
    Option<(Field, String)>,
    Diagnostic,
>)
    ensures
        entry_view(r) == entry(proxy@, force_socks5h),
{
    let pair = split(proxy, "=");
    if pair.len() == 2 {
        assert(views(pair@)[0] == pair@[0]@ && views(pair@)[1] == pair@[1]@);
        let key = pair[0].as_str();
        let value = pair[1].as_str();
        if same(key, "http") {
            Ok(Some((Field::Http, value.to_owned())))
        } else if same(key, "https") {
            Ok(Some((Field::Https, value.to_owned())))
        } else if same(key, "ftp") {
            Ok(Some((Field::Ftp, value.to_owned())))
        } else if same(key, "socks") {
            if starts_with(value, "socks") {
                Ok(Some((Field::All, value.to_owned())))
            } else {
                Ok(Some((Field::All, chain("socks://", value))))
            }
        } else {
            Err(Diagnostic::InvalidDefinition(proxy.to_owned()))
        }
    } else if pair.len() == 1 {
        assert(views(pair@)[0] == pair@[0]@);
        let value = pair[0].as_str();
        let url = split(value, "://");
        if url.len() == 2 {
            assert(views(url@)[0] == url@[0]@);
            let protocol = url[0].as_str();
            if same(protocol, "http") {
                Ok(Some((Field::Http, value.to_owned())))
            } else if same(protocol, "https") {
                Ok(Some((Field::Https, value.to_owned())))
            } else if same(protocol, "socks") {
                Ok(Some((Field::All, value.to_owned())))
            } else {
                Err(Diagnostic::InvalidProtocol(protocol.to_owned()))
            }
        } else if url.len() == 1 {
            if value.unicode_len() == 0 {
                Ok(None)
            } else {
                Ok(Some((Field::All, add_protocol_prefix(value, force_socks5h))))
            }
        } else {
            Err(Diagnostic::InvalidDefinition(value.to_owned()))
        }
    } else {
        Err(Diagnostic::InvalidDefinition(proxy.to_owned()))
    }
}

/// `set` with `value` in `field`.
pub open spec fn assigned(set: ProxySet, field: Field, value: Seq<char>) -> ProxySet {
    match field {
        Field::Http => ProxySet { http: value, ..set },
        Field::Https => ProxySet { https: value, ..set },
        Field::Ftp => ProxySet { ftp: value, ..set },
        Field::All => ProxySet { all: value, ..set },
    }
}

/// The proxies that `entries` set, read from the first to the last: a later
/// entry for a field replaces an earlier one, and a skipped entry changes
/// nothing.
pub open spec fn servers(entries: Seq<Seq<char>>, force_socks5h: bool) -> ProxySet
    decreases entries.len(),
{
    if entries.len() == 0 {
        ProxySet::empty()
    } else {
        let before = servers(entries.drop_last(), force_socks5h);
        match entry(entries.last(), force_socks5h) {
            Ok(Some((field, value))) => assigned(before, field, value),
            _ => before,
        }
    }
}

/// What is to be said of the skipped ones among `entries`, in their order.
pub open spec fn server_notes(entries: Seq<Seq<char>>, force_socks5h: bool) -> Seq<Note>
    decreases entries.len(),
{
    if entries.len() == 0 {
        Seq::empty()
    } else {
        let before = server_notes(entries.drop_last(), force_socks5h);
        match entry(entries.last(), force_socks5h) {
            Err(note) => before.push(note),
            _ => before,
        }
    }
}

/// The entries of a text that separates them by semicolons.
pub open spec fn entries_of(list: Seq<char>) -> Seq<Seq<char>> {
    pieces(list, ";"@)
}

/// Reads the list of proxy servers, and says which entries it skipped.
pub fn scan_proxy_server(proxy_server: &str, force_socks5h: bool) -> (r: (
    ProxyList,
    Vec<Diagnostic>,
))
    ensures
        r.0@ == servers(entries_of(proxy_server@), force_socks5h),
        notes(r.1@) == server_notes(entries_of(proxy_server@), force_socks5h),
{
    let entries = split(proxy_server, ";");
    let ghost all = views(entries@);
    let mut list = ProxyList::default();
    let mut diagnostics: Vec<Diagnostic> = Vec::new();
    let mut i: usize = 0;
    assert(notes(diagnostics@) =~= Seq::empty());
    while i < entries.len()
        invariant
            i <= entries.len(),
            all == views(entries@),
            list@ == servers(all.take(i as int), force_socks5h),
            notes(diagnostics@) == server_notes(all.take(i as int), force_socks5h),
        decreases entries.len() - i,
    {
        proof {
            let longer = all.take(i + 1);
            assert(longer.drop_last() =~= all.take(i as int));
            assert(longer.last() == entries@[i as int]@);
        }
        match read_entry(entries[i].as_str(), force_socks5h) {
            Ok(Some((field, value))) => {
                match field {
                    Field::Http => {
                        list.http = value;
                    },
                    Field::Https => {
                        list.https = value;
                    },
                    Field::Ftp => {
                        list.ftp = value;
                    },
                    Field::All => {
                        list.all = value;
                    },
                }
            },
            Ok(None) => {},
            Err(diagnostic) => {
                assert(notes(diagnostics@.push(diagnostic)) =~= notes(diagnostics@).push(
                    diagnostic@,
                ));
                diagnostics.push(diagnostic);
            },
        }
        i += 1;
    }
    assert(all.take(i as int) =~= all);
    (list, diagnostics)
}

/// Reads the list of proxy servers.
pub fn parse_proxy_server(proxy_server: &str, force_socks5h: bool) -> (r: ProxyList)
    ensures
        r@ == servers(entries_of(proxy_server@), force_socks5h),
{
    scan_proxy_server(proxy_server, force_socks5h).0
}

/// How many parts at the beginning of `parts` write a number of at most 255.
pub open spec fn leading_octets(parts: Seq<Seq<char>>) -> nat
    decreases parts.len(),
{
    if parts.len() > 0 && parses_within(parts[0], 255) {
        1 + leading_octets(parts.drop_first())
    } else {
        0
    }
}

/// Every part is a lone asterisk.
pub open spec fn all_wildcards(parts: Seq<Seq<char>>) -> bool {
    forall|i: int| 0 <= i < parts.len() ==> #[trigger] parts[i] == "*"@
}

/// The bits that the wildcards of an IPv4 pattern stand for.
///
/// The pattern has at most four parts with full stops between them: first
/// numbers of at most 255, then lone asterisks up to the end. With the first
/// asterisk in place `k`, counted from 0, the bits are `(4 - k) * 8`; without
/// an asterisk they are 0. Any other text is no such pattern.
pub open spec fn wildcard_bits(addr: Seq<char>) -> Option<u8> {
    let parts = pieces(addr, "."@);
    let k = leading_octets(parts);
    if parts.len() <= 4 && all_wildcards(parts.skip(k as int)) {
        if k == parts.len() {
            Some(0u8)
        } else {
            Some(((4 - k) * 8) as u8)
        }
    } else {
        None
    }
}

/// There are no more leading numbers than parts.
pub proof fn lemma_leading_octets_bound(parts: Seq<Seq<char>>)
    ensures
        leading_octets(parts) <= parts.len(),
    decreases parts.len(),
{
    if parts.len() > 0 {
        lemma_leading_octets_bound(parts.drop_first());
    }
}

/// The bits that the wildcards of `addr` stand for, if `addr` is an IPv4
/// pattern.
#[verifier::loop_isolation(false)]
pub fn eval_ipv4(addr: &str) -> (r: Option<u8>)
    ensures
        r == wildcard_bits(addr@),
{
    let parts = split(addr, ".");
    if parts.len() > 4 {
        return None;
    }
    let ghost all = views(parts@);
    let mut k: usize = 0;
    assert(all.skip(0) =~= all);
    while k < parts.len() && parse_bounded(parts[k].as_str(), 255).is_some()
        invariant
            k <= parts.len(),
            all == views(parts@),
            leading_octets(all) == k + leading_octets(all.skip(k as int)),
        decreases parts.len() - k,
    {
        proof {
            let rest = all.skip(k as int);
            assert(rest[0] == parts@[k as int]@);
            assert(rest.drop_first() =~= all.skip(k + 1));
        }
        k += 1;
    }
    proof {
        let rest = all.skip(k as int);
        if k < parts.len() {
            assert(rest[0] == parts@[k as int]@);
        }
        assert(leading_octets(all) == k);
    }
    let mut i: usize = k;
    while i < parts.len()
        invariant
            k <= i <= parts.len(),
            all == views(parts@),
            forall|j: int| k <= j < i ==> #[trigger] all[j] == "*"@,
        decreases parts.len() - i,
    {
        assert(all[i as int] == parts@[i as int]@);
        if !same(parts[i].as_str(), "*") {
            assert(all.skip(k as int)[i - k] == all[i as int]);
            return None;
        }
        i += 1;
    }
    assert forall|j: int| 0 <= j < all.skip(k as int).len() implies #[trigger] all.skip(
        k as int,
    )[j] == "*"@ by {
        assert(all.skip(k as int)[j] == all[k + j]);
    }
    if k == parts.len() {
        Some(0)
    } else {
        Some(((4 - k) * 8) as u8)
    }
}

/// What follows the numbers of a pattern whose wildcards stand for `bits`
/// bits.
pub open spec fn subnet_suffix(bits: u8) -> Seq<char> {
    if bits == 32 {
        "0.0.0.0/32"@
    } else if bits == 24 {
        ".0.0.0/24"@
    } else if bits == 16 {
        ".0.0/16"@
    } else if bits == 8 {
        ".0/8"@
    } else {
        Seq::empty()
    }
}

/// What one entry of the bypass list becomes in `no_proxy`, if anything.
///
/// A lone asterisk is left out. An entry that begins with `<local>` becomes
/// `localhost`. An IPv4 pattern loses the asterisks and full stops at its end
/// and gets its subnet in their place; one without an asterisk covers no bits
/// and is left out. Any other entry loses the asterisks and full stops at its
/// beginning.
pub open spec fn bypass(raw: Seq<char>) -> Option<Seq<char>> {
    if raw == "*"@ {
        None
    } else if occurs_at(raw, "<local>"@, 0) {
        Some("localhost"@)
    } else {
        match wildcard_bits(raw) {
            Some(bits) => {
                if bits == 0 {
                    None
                } else {
                    Some(without_trailing(raw, CharClass::WildcardOrDot) + subnet_suffix(bits))
                }
            },
            None => Some(without_leading(raw, CharClass::WildcardOrDot)),
        }
    }
}

/// What is to be said of one entry of the bypass list, if anything: that an
/// asterisk is left in an entry that is no IPv4 pattern.
pub open spec fn bypass_note(raw: Seq<char>) -> Option<Note> {
    let stripped = without_leading(raw, CharClass::WildcardOrDot);
    if raw != "*"@ && !occurs_at(raw, "<local>"@, 0) && wildcard_bits(raw) is None && includes(
        stripped,
        "*"@,
    ) {
        Some(Note::UnsupportedWildcard(stripped))
    } else {
        None
    }
}

/// The view of an optional diagnostic.
pub open spec fn note_of(d: Option<Diagnostic>) -> Option<Note> {
    match d {
        Some(d) => Some(d@),
        None => None,
    }
}

/// Reads one entry of the bypass list.
pub fn read_bypass(raw: &str) -> (r: (Option<String>, Option<Diagnostic>))
    ensures
        text_of(r.0) == bypass(raw@),
        note_of(r.1) == bypass_note(raw@),
{
    if same(raw, "*") {
        (None, None)
    } else if starts_with(raw, "<local>") {
        (Some("localhost".to_owned()), None)
    } else {
        match eval_ipv4(raw) {
            Some(bits) => {
                if bits == 0 {
                    (None, None)
                } else {
                    let stem = strip_trailing(raw, CharClass::WildcardOrDot);
                    let suffix = if bits == 32 {
                        "0.0.0.0/32"
                    } else if bits == 24 {
                        ".0.0.0/24"
                    } else if bits == 16 {
                        ".0.0/16"
                    } else if bits == 8 {
                        ".0/8"
                    } else {
                        ""
                    };
                    proof {
                        lemma_wildcard_bits_values(raw@);
                    }
                    (Some(chain(stem.as_str(), suffix)), None)
                }
            },
            None => {
                let stripped = strip_leading(raw, CharClass::WildcardOrDot);
                if contains(stripped.as_str(), "*") {
                    let shown = stripped.clone();
                    (Some(stripped), Some(Diagnostic::UnsupportedWildcard(shown)))
                } else {
                    (Some(stripped), None)
                }
            },
        }
    }
}

/// The wildcards of a pattern stand for 0, 8, 16, 24 or 32 bits.
pub proof fn lemma_wildcard_bits_values(addr: Seq<char>)
    ensures
        match wildcard_bits(addr) {
            Some(bits) => bits == 0 || bits == 8 || bits == 16 || bits == 24 || bits == 32,
            None => true,
        },
{
    lemma_leading_octets_bound(pieces(addr, "."@));
}

/// The sorted list `list` with `item` in its place, if it is not there yet.
pub open spec fn inserted(list: Seq<Seq<char>>, item: Seq<char>) -> Seq<Seq<char>>
    decreases list.len(),
{
    if list.len() == 0 {
        seq![item]
    } else if list[0] == item {
        list
    } else if precedes(item, list[0]) {
        seq![item] + list
    } else {
        seq![list[0]] + inserted(list.drop_first(), item)
    }
}

/// The values that the entries `raws` of a bypass list become, each once and
/// in the order of a dictionary.
pub open spec fn bypassed(raws: Seq<Seq<char>>) -> Seq<Seq<char>>
    decreases raws.len(),
{
    if raws.len() == 0 {
        Seq::empty()
    } else {
        let before = bypassed(raws.drop_last());
        match bypass(raws.last()) {
            Some(value) => inserted(before, value),
            None => before,
        }
    }
}

/// What is to be said of the entries `raws` of a bypass list, in their order.
pub open spec fn bypass_notes(raws: Seq<Seq<char>>) -> Seq<Note>
    decreases raws.len(),
{
    if raws.len() == 0 {
        Seq::empty()
    } else {
        let before = bypass_notes(raws.drop_last());
        match bypass_note(raws.last()) {
            Some(note) => before.push(note),
            None => before,
        }
    }
}

/// The value of `no_proxy` for a bypass list.
pub open spec fn no_proxy(proxy_override: Seq<char>) -> Seq<char> {
    joined(bypassed(entries_of(proxy_override)), ","@)
}

/// Puts `item` in its place in the sorted `list`, unless it is there.
pub fn insert_sorted(list: &mut Vec<String>, item: String)
    ensures
        views(final(list)@) == inserted(views(old(list)@), item@),
{
    let ghost all = views(list@);
    let mut p: usize = 0;
    assert(all.take(0) + inserted(all.skip(0), item@) =~= inserted(all, item@)) by {
        assert(all.skip(0) =~= all);
    }
    while p < list.len()
        invariant
            p <= list.len(),
            list@ == old(list)@,
            all == views(list@),
            inserted(all, item@) == all.take(p as int) + inserted(all.skip(p as int), item@),
        ensures
            p < list.len() ==> list@[p as int]@ != item@ && precedes(item@, list@[p as int]@),
        decreases list.len() - p,
    {
        let ghost rest = all.skip(p as int);
        assert(rest[0] == list@[p as int]@);
        if same(list[p].as_str(), item.as_str()) {
            assert(all.take(p as int) + rest =~= all);
            return;
        }
        if less(item.as_str(), list[p].as_str()) {
            break;
        }
        proof {
            assert(rest.drop_first() =~= all.skip(p + 1));
            assert(all.take(p as int) + (seq![rest[0]] + inserted(rest.drop_first(), item@))
                =~= all.take(p + 1) + inserted(rest.drop_first(), item@));
        }
        p += 1;
    }
    proof {
        let rest = all.skip(p as int);
        if p < list.len() {
            assert(rest[0] == list@[p as int]@);
        }
        assert(inserted(rest, item@) =~= seq![item@] + rest);
        assert(views(list@.insert(p as int, item)) =~= all.take(p as int) + (seq![item@] + rest));
    }
    list.insert(p, item);
}

/// Reads the bypass list, and says in which entries it left a wildcard.
pub fn scan_no_proxy(proxy_override: &str) -> (r: (String, Vec<Diagnostic>))
    ensures
        r.0@ == no_proxy(proxy_override@),
        notes(r.1@) == bypass_notes(entries_of(proxy_override@)),
{
    let raws = split(proxy_override, ";");
    let ghost all = views(raws@);
    let mut values: Vec<String> = Vec::new();
    let mut diagnostics: Vec<Diagnostic> = Vec::new();
    let mut i: usize = 0;
    assert(notes(diagnostics@) =~= Seq::empty());
    assert(views(values@) =~= Seq::empty());
    while i < raws.len()
        invariant
            i <= raws.len(),
            all == views(raws@),
            views(values@) == bypassed(all.take(i as int)),
            notes(diagnostics@) == bypass_notes(all.take(i as int)),
        decreases raws.len() - i,
    {
        proof {
            let longer = all.take(i + 1);
            assert(longer.drop_last() =~= all.take(i as int));
            assert(longer.last() == raws@[i as int]@);
        }
        let (value, diagnostic) = read_bypass(raws[i].as_str());
        match value {
            Some(value) => {
                insert_sorted(&mut values, value);
            },
            None => {},
        }
        match diagnostic {
            Some(diagnostic) => {
                assert(notes(diagnostics@.push(diagnostic)) =~= notes(diagnostics@).push(
                    diagnostic@,
                ));
                diagnostics.push(diagnostic);
            },
            None => {},
        }
        i += 1;
    }
    assert(all.take(i as int) =~= all);
    (join(&values, ","), diagnostics)
}

/// Reads the bypass list.
pub fn parse_no_proxy(proxy_override: &str) -> (r: String)
    ensures
        r@ == no_proxy(proxy_override@),
{
    scan_no_proxy(proxy_override).0
}

/// What the Internet settings of the current user hold, as read from the
/// registry; a value that is missing there is 0 or empty here.
#[derive(Debug, Clone, PartialEq, Eq)]
pub struct RegistrySettings {
    /// `ProxyEnable`: 1 where a proxy is in use.
    pub proxy_enable: u32,
    /// `ProxyServer`: the list of proxy servers.
    pub proxy_server: String,
    /// `ProxyOverride`: the bypass list.
    pub proxy_override: String,
}

/// The proxies that the settings describe: none unless the proxy is enabled,
/// else what the list of proxy servers sets together with the value of
/// `no_proxy` for the bypass list.
pub open spec fn registry_proxies(
    proxy_enable: u32,
    proxy_server: Seq<char>,
    proxy_override: Seq<char>,
    force_socks5h: bool,
) -> ProxySet {
    if proxy_enable == 1 {
        ProxySet {
            no: no_proxy(proxy_override),
            ..servers(entries_of(proxy_server), force_socks5h)
        }
    } else {
        ProxySet::empty()
    }
}

/// What is to be said of the settings: nothing unless the proxy is enabled,
/// else first what is to be said of the list of proxy servers, then of the
/// bypass list.
pub open spec fn registry_notes(
    proxy_enable: u32,
    proxy_server: Seq<char>,
    proxy_override: Seq<char>,
    force_socks5h: bool,
) -> Seq<Note> {
    if proxy_enable == 1 {
        server_notes(entries_of(proxy_server), force_socks5h) + bypass_notes(
            entries_of(proxy_override),
        )
    } else {
        Seq::empty()
    }
}

/// The proxies that the registry's settings describe, and what is to be said
/// of the entries that were skipped or kept with a wildcard.
pub fn from_registry(force_socks5h: bool, settings: &RegistrySettings) -> (r: (
    ProxyList,
    Vec<Diagnostic>,
))
    ensures
        r.0@ == registry_proxies(
            settings.proxy_enable,
            settings.proxy_server@,
            settings.proxy_override@,
            force_socks5h,
        ),
        notes(r.1@) == registry_notes(
            settings.proxy_enable,
            settings.proxy_server@,
            settings.proxy_override@,
            force_socks5h,
        ),
{
    if settings.proxy_enable != 1 {
        let none: Vec<Diagnostic> = Vec::new();
        assert(notes(none@) =~= Seq::empty());
        return (ProxyList::default(), none);
    }
    let (mut proxy_list, mut diagnostics) = scan_proxy_server(
        settings.proxy_server.as_str(),
        force_socks5h,
    );
    let (no_proxy, mut more) = scan_no_proxy(settings.proxy_override.as_str());
    proxy_list.no = no_proxy;
    let ghost first = diagnostics@;
    let ghost second = more@;
    diagnostics.append(&mut more);
    assert(notes(first + second) =~= notes(first) + notes(second));
    (proxy_list, diagnostics)
}

/// The proxies of a Windows system, from what its registry holds.
pub fn get_proxies(force_socks5h: bool, settings: &RegistrySettings) -> (r: (
    ProxyList,
    Vec<Diagnostic>,
))
    ensures
        r.0@ == registry_proxies(
            settings.proxy_enable,
            settings.proxy_server@,
            settings.proxy_override@,
            force_socks5h,
        ),
        notes(r.1@) == registry_notes(
            settings.proxy_enable,
            settings.proxy_server@,
            settings.proxy_override@,
            force_socks5h,
        ),
{
    from_registry(force_socks5h, settings)
}

/// The entry sets a field of the proxy list.
pub open spec fn recognized(proxy: Seq<char>, force_socks5h: bool) -> bool {
    entry(proxy, force_socks5h) matches Ok(Some(_))
}

/// Entries of which none is recognized set nothing.
pub proof fn lemma_unrecognized_entries(entries: Seq<Seq<char>>, force_socks5h: bool)
    requires
        forall|i: int| 0 <= i < entries.len() ==> !recognized(#[trigger] entries[i], force_socks5h),
    ensures
        servers(entries, force_socks5h) == ProxySet::empty(),
    decreases entries.len(),
{
    if entries.len() > 0 {
        let before = entries.drop_last();
        assert forall|i: int| 0 <= i < before.len() implies !recognized(
            #[trigger] before[i],
            force_socks5h,
        ) by {
            assert(before[i] == entries[i]);
        }
        lemma_unrecognized_entries(before, force_socks5h);
        assert(!recognized(entries[entries.len() - 1], force_socks5h));
    }
}

/// A list of proxy servers in which no entry is of a recognized shape gives
/// the proxy list in which nothing is configured.
pub proof fn lemma_unrecognized_list_is_empty(proxy_server: Seq<char>, force_socks5h: bool)
    requires
        forall|i: int|
            0 <= i < entries_of(proxy_server).len() ==> !recognized(
                #[trigger] entries_of(proxy_server)[i],
                force_socks5h,
            ),
    ensures
        servers(entries_of(proxy_server), force_socks5h) == ProxySet::empty(),
{
    lemma_unrecognized_entries(entries_of(proxy_server), force_socks5h);
}

/// Each text of the list comes before those after it in the order of a
/// dictionary, so that none occurs twice.
pub open spec fn ascending(list: Seq<Seq<char>>) -> bool {
    forall|i: int, j: int|
        0 <= i < j < list.len() ==> precedes(#[trigger] list[i], #[trigger] list[j])
}

/// Putting an item in its place keeps the list in order, and the list then
/// holds the item and what it held before, nothing else.
pub proof fn lemma_inserted(list: Seq<Seq<char>>, item: Seq<char>)
    requires
        ascending(list),
    ensures
        ascending(inserted(list, item)),
        forall|x: Seq<char>| #[trigger]
            inserted(list, item).contains(x) <==> list.contains(x) || x == item,
    decreases list.len(),
{
    let result = inserted(list, item);
    if list.len() == 0 {
        assert(result[0] == item);
    } else if list[0] == item {
    } else if precedes(item, list[0]) {
        assert(result =~= seq![item] + list);
        assert forall|i: int, j: int| 0 <= i < j < result.len() implies precedes(
            #[trigger] result[i],
            #[trigger] result[j],
        ) by {
            if i == 0 {
                if j > 1 {
                    assert(precedes(list[0], list[j - 1]));
                    lemma_precedes_transitive(item, list[0], list[j - 1]);
                }
            } else {
                assert(precedes(list[i - 1], list[j - 1]));
            }
        }
        assert forall|x: Seq<char>| #[trigger]
            result.contains(x) <==> list.contains(x) || x == item by {
            if list.contains(x) {
                let k = choose|k: int| 0 <= k < list.len() && list[k] == x;
                assert(result[k + 1] == x);
            }
            if x == item {
                assert(result[0] == x);
            }
            if result.contains(x) {
                let k = choose|k: int| 0 <= k < result.len() && result[k] == x;
                if k > 0 {
                    assert(list[k - 1] == x);
                }
            }
        }
    } else {
        let tail = list.drop_first();
        let rest = inserted(tail, item);
        assert forall|i: int, j: int| 0 <= i < j < tail.len() implies precedes(
            #[trigger] tail[i],
            #[trigger] tail[j],
        ) by {
            assert(precedes(list[i + 1], list[j + 1]));
        }
        lemma_inserted(tail, item);
        lemma_precedes_total(list[0], item);
        assert(result =~= seq![list[0]] + rest);
        assert forall|i: int, j: int| 0 <= i < j < result.len() implies precedes(
            #[trigger] result[i],
            #[trigger] result[j],
        ) by {
            if i == 0 {
                let x = rest[j - 1];
                assert(rest.contains(x));
                if tail.contains(x) {
                    let k = choose|k: int| 0 <= k < tail.len() && tail[k] == x;
                    assert(precedes(list[0], list[k + 1]));
                }
            } else {
                assert(precedes(rest[i - 1], rest[j - 1]));
            }
        }
        assert forall|x: Seq<char>| #[trigger]
            result.contains(x) <==> list.contains(x) || x == item by {
            if list.contains(x) {
                let k = choose|k: int| 0 <= k < list.len() && list[k] == x;
                if k == 0 {
                    assert(result[0] == x);
                } else {
                    assert(tail[k - 1] == x);
                    assert(rest.contains(x));
                    let m = choose|m: int| 0 <= m < rest.len() && rest[m] == x;
                    assert(result[m + 1] == x);
                }
            }
            if x == item {
                assert(rest.contains(x));
                let m = choose|m: int| 0 <= m < rest.len() && rest[m] == x;
                assert(result[m + 1] == x);
            }
            if result.contains(x) {
                let k = choose|k: int| 0 <= k < result.len() && result[k] == x;
                if k == 0 {
                    assert(list[0] == x);
                } else {
                    assert(rest[k - 1] == x);
                    assert(rest.contains(x));
                    if tail.contains(x) {
                        let m = choose|m: int| 0 <= m < tail.len() && tail[m] == x;
                        assert(list[m + 1] == x);
                    }
                }
            }
        }
    }
}

/// A list in the order of a dictionary holds nothing twice.
pub proof fn lemma_ascending_holds_nothing_twice(list: Seq<Seq<char>>)
    requires
        ascending(list),
    ensures
        list.no_duplicates(),
{
    assert forall|i: int, j: int|
        0 <= i < list.len() && 0 <= j < list.len() && i != j implies list[i] != list[j] by {
        lemma_precedes_irreflexive(list[i]);
        if i < j {
            assert(precedes(list[i], list[j]));
        } else {
            assert(precedes(list[j], list[i]));
        }
    }
}

/// The values of `no_proxy` stand in the order of a dictionary, each once,
/// and they are the values that the entries of the bypass list become,
/// nothing else.
pub proof fn lemma_bypassed(raws: Seq<Seq<char>>)
    ensures
        ascending(bypassed(raws)),
        bypassed(raws).no_duplicates(),
        forall|x: Seq<char>| #[trigger]
            bypassed(raws).contains(x) <==> exists|i: int|
                0 <= i < raws.len() && bypass(#[trigger] raws[i]) == Some(x),
    decreases raws.len(),
{
    let result = bypassed(raws);
    if raws.len() > 0 {
        let before = raws.drop_last();
        let last = raws.last();
        lemma_bypassed(before);
        lemma_inserted(bypassed(before), or_empty(bypass(last)));
        lemma_ascending_holds_nothing_twice(result);
        assert forall|x: Seq<char>| #[trigger]
            result.contains(x) <==> exists|i: int|
                0 <= i < raws.len() && bypass(#[trigger] raws[i]) == Some(x) by {
            if result.contains(x) {
                if bypassed(before).contains(x) {
                    let i = choose|i: int|
                        0 <= i < before.len() && bypass(#[trigger] before[i]) == Some(x);
                    assert(raws[i] == before[i]);
                } else {
                    assert(bypass(raws[raws.len() - 1]) == Some(x));
                }
            }
            if exists|i: int| 0 <= i < raws.len() && bypass(#[trigger] raws[i]) == Some(x) {
                let i = choose|i: int| 0 <= i < raws.len() && bypass(#[trigger] raws[i]) == Some(x);
                if i < before.len() {
                    assert(before[i] == raws[i]);
                    assert(bypassed(before).contains(x));
                }
            }
        }
    }
}

} // verus!
