//! The normalized proxy list, and what is done with it whatever the platform.

use crate::cli::OverrideOptions;
use crate::utils::{pairs, Terminal, Vars};
use vstd::prelude::*;

pub mod linux;
pub mod macos;
pub mod windows;

verus! {

/// The proxies of a system, one text for each kind of traffic. An empty text
/// means that the field is not configured.
#[derive(Debug, Clone, PartialEq, Eq)]
pub struct ProxyList {
    /// The proxy for HTTP.
    pub http: String,
    /// The proxy for HTTPS.
    pub https: String,
    /// The proxy for FTP.
    pub ftp: String,
    /// The proxy for everything else.
    pub all: String,
    /// The hosts that are reached without a proxy, separated by commas.
    pub no: String,
}

/// A [`ProxyList`] as contracts see it.
pub struct ProxySet {
    pub http: Seq<char>,
    pub https: Seq<char>,
    pub ftp: Seq<char>,
    pub all: Seq<char>,
    pub no: Seq<char>,
}

impl ProxySet {
    /// The set in which nothing is configured.
    pub open spec fn empty() -> ProxySet {
        ProxySet {
            http: Seq::empty(),
            https: Seq::empty(),
            ftp: Seq::empty(),
            all: Seq::empty(),
            no: Seq::empty(),
        }
    }
}

impl View for ProxyList {
    type V = ProxySet;

    open spec fn view(&self) -> ProxySet {
        ProxySet {
            http: self.http@,
            https: self.https@,
            ftp: self.ftp@,
            all: self.all@,
            no: self.no@,
        }
    }
}

impl Default for ProxyList {
    fn default() -> (r: ProxyList)
        ensures
            r@ == ProxySet::empty(),
    {
        ProxyList {
            http: String::new(),
            https: String::new(),
            ftp: String::new(),
            all: String::new(),
            no: String::new(),
        }
    }
}

/// The assignment of `value` to the variable `name`, or none where the value
/// is empty.
pub open spec fn assignment(name: Seq<char>, value: Seq<char>) -> Seq<(Seq<char>, Seq<char>)> {
    if value.len() == 0 {
        Seq::empty()
    } else {
        seq![(name, value)]
    }
}

/// The assignments that make `set` known to programs: one for each field that
/// is configured, in the order HTTP, HTTPS, FTP, everything else, no proxy.
pub open spec fn assignments(set: ProxySet) -> Seq<(Seq<char>, Seq<char>)> {
    assignment("http_proxy"@, set.http) + assignment("https_proxy"@, set.https) + assignment(
        "ftp_proxy"@,
        set.ftp,
    ) + assignment("all_proxy"@, set.all) + assignment("no_proxy"@, set.no)
}

impl ProxyList {
    /// The assignments that make the list known to programs.
    pub fn into_vars(self) -> (vars: Vars)
        ensures
            pairs(vars@) == assignments(self@),
    {
        let mut vars: Vars = Vec::new();
        let ghost set = self@;
        assert(pairs(vars@) =~= Seq::empty());
        if !self.http.as_str().is_empty() {
            vars.push(("http_proxy", self.http));
        }
        assert(pairs(vars@) =~= assignment("http_proxy"@, set.http));
        let ghost one = pairs(vars@);
        if !self.https.as_str().is_empty() {
            vars.push(("https_proxy", self.https));
        }
        assert(pairs(vars@) =~= one + assignment("https_proxy"@, set.https));
        let ghost two = pairs(vars@);
        if !self.ftp.as_str().is_empty() {
            vars.push(("ftp_proxy", self.ftp));
        }
        assert(pairs(vars@) =~= two + assignment("ftp_proxy"@, set.ftp));
        let ghost three = pairs(vars@);
        if !self.all.as_str().is_empty() {
            vars.push(("all_proxy", self.all));
        }
        assert(pairs(vars@) =~= three + assignment("all_proxy"@, set.all));
        let ghost four = pairs(vars@);
        if !self.no.as_str().is_empty() {
            vars.push(("no_proxy", self.no));
        }
        assert(pairs(vars@) =~= four + assignment("no_proxy"@, set.no));
        vars
    }
}

/// `current`, or the text that takes its place.
pub open spec fn replaced(current: Seq<char>, by: Option<String>) -> Seq<char> {
    match by {
        Some(text) => text@,
        None => current,
    }
}

/// `set` with each field for which `by` holds a value replaced by that value.
pub open spec fn merged(set: ProxySet, by: OverrideOptions) -> ProxySet {
    ProxySet {
        http: replaced(set.http, by.http_proxy),
        https: replaced(set.https, by.https_proxy),
        ftp: replaced(set.ftp, by.ftp_proxy),
        all: replaced(set.all, by.all_proxy),
        no: replaced(set.no, by.no_proxy),
    }
}

/// The proxies that the script sets: those detected, or none where detection
/// is switched off, with the chosen values in place of them.
pub open spec fn effective(detected: ProxySet, by: OverrideOptions) -> ProxySet {
    merged(
        if by.no_detect {
            ProxySet::empty()
        } else {
            detected
        },
        by,
    )
}

/// Puts each value that `override_options` holds in the place of the field
/// of `proxies` that it is for.
pub fn merge(proxies: ProxyList, override_options: OverrideOptions) -> (r: ProxyList)
    ensures
        r@ == merged(proxies@, override_options),
{
    let mut proxies = proxies;
    if let Some(http_proxy) = override_options.http_proxy {
        proxies.http = http_proxy;
    }
    if let Some(https_proxy) = override_options.https_proxy {
        proxies.https = https_proxy;
    }
    if let Some(ftp_proxy) = override_options.ftp_proxy {
        proxies.ftp = ftp_proxy;
    }
    if let Some(all_proxy) = override_options.all_proxy {
        proxies.all = all_proxy;
    }
    if let Some(no_proxy) = override_options.no_proxy {
        proxies.no = no_proxy;
    }
    proxies
}

/// The script that sets the proxy variables in `terminal`.
///
/// `detected` is what the system's settings gave; it counts for nothing where
/// `override_options` switches detection off. The values that
/// `override_options` holds take the place of the fields they are for, and the
/// fields that are then configured are written out as assignments.
pub fn init(terminal: Terminal, detected: ProxyList, override_options: OverrideOptions) -> (r:
    String)
    ensures
        r@ == terminal.script(assignments(effective(detected@, override_options))),
{
    let start = if override_options.no_detect {
        ProxyList::default()
    } else {
        detected
    };
    let proxies = merge(start, override_options);
    terminal.set_envs_str(proxies.into_vars())
}

/// The values of the five proxy variables in one spelling of their names,
/// each as far as the environment holds it.
#[derive(Debug, Clone, PartialEq, Eq)]
pub struct ProxyVariables {
    pub http: Option<String>,
    pub https: Option<String>,
    pub ftp: Option<String>,
    pub all: Option<String>,
    pub no: Option<String>,
}

/// The line that shows the variable `name`, or nothing where it is not set.
pub open spec fn shown(name: Seq<char>, value: Option<String>) -> Seq<char> {
    match value {
        Some(value) => name + ": "@ + value@ + "\n"@,
        None => Seq::empty(),
    }
}

/// The lines that show the variables whose names are written in small
/// letters.
pub open spec fn shown_lower(variables: ProxyVariables) -> Seq<char> {
    shown("http_proxy"@, variables.http) + shown("https_proxy"@, variables.https) + shown(
        "ftp_proxy"@,
        variables.ftp,
    ) + shown("all_proxy"@, variables.all) + shown("no_proxy"@, variables.no)
}

/// The lines that show the variables whose names are written in capitals.
pub open spec fn shown_upper(variables: ProxyVariables) -> Seq<char> {
    shown("HTTP_PROXY"@, variables.http) + shown("HTTPS_PROXY"@, variables.https) + shown(
        "FTP_PROXY"@,
        variables.ftp,
    ) + shown("ALL_PROXY"@, variables.all) + shown("NO_PROXY"@, variables.no)
}

/// Adds the line that shows the variable `name` to `text`.
fn show(text: &mut String, name: &str, value: &Option<String>)
    ensures
        final(text)@ == old(text)@ + shown(name@, *value),
{
    match value {
        Some(value) => {
            let ghost before = text@;
            text.append(name);
            text.append(": ");
            text.append(value.as_str());
            text.append("\n");
            assert(text@ =~= before + (name@ + ": "@ + value@ + "\n"@));
        },
        None => {
            assert(text@ + Seq::<char>::empty() =~= text@);
        },
    }
}

/// Shows the proxy variables that are set, one to a line: first those whose
/// names are written in small letters, then, where the system tells the two
/// spellings apart, those in capitals.
pub fn cat(lower: &ProxyVariables, upper: Option<&ProxyVariables>) -> (r: String)
    ensures
        r@ == shown_lower(*lower) + match upper {
            Some(upper) => shown_upper(*upper),
            None => Seq::empty(),
        },
{
    let mut res = String::new();
    show(&mut res, "http_proxy", &lower.http);
    show(&mut res, "https_proxy", &lower.https);
    show(&mut res, "ftp_proxy", &lower.ftp);
    show(&mut res, "all_proxy", &lower.all);
    show(&mut res, "no_proxy", &lower.no);
    assert(res@ =~= shown_lower(*lower));
    match upper {
        Some(upper) => {
            let ghost before = res@;
            show(&mut res, "HTTP_PROXY", &upper.http);
            show(&mut res, "HTTPS_PROXY", &upper.https);
            show(&mut res, "FTP_PROXY", &upper.ftp);
            show(&mut res, "ALL_PROXY", &upper.all);
            show(&mut res, "NO_PROXY", &upper.no);
            assert(res@ =~= before + shown_upper(*upper));
        },
        None => {
            assert(res@ + Seq::<char>::empty() =~= res@);
        },
    }
    res
}

/// The assignments hold one for the variable `name`.
pub open spec fn assigns(vars: Seq<(Seq<char>, Seq<char>)>, name: Seq<char>) -> bool {
    exists|i: int| 0 <= i < vars.len() && (#[trigger] vars[i]).0 == name
}

/// The five names differ from each other.
pub proof fn lemma_names_differ()
    ensures
        "http_proxy"@ != "https_proxy"@,
        "http_proxy"@ != "ftp_proxy"@,
        "http_proxy"@ != "all_proxy"@,
        "http_proxy"@ != "no_proxy"@,
        "https_proxy"@ != "ftp_proxy"@,
        "https_proxy"@ != "all_proxy"@,
        "https_proxy"@ != "no_proxy"@,
        "ftp_proxy"@ != "all_proxy"@,
        "ftp_proxy"@ != "no_proxy"@,
        "all_proxy"@ != "no_proxy"@,
{
    reveal_strlit("http_proxy");
    reveal_strlit("https_proxy");
    reveal_strlit("ftp_proxy");
    reveal_strlit("all_proxy");
    reveal_strlit("no_proxy");
    assert("http_proxy"@.len() == 10 && "https_proxy"@.len() == 11);
    assert("http_proxy"@[0] == 'h' && "https_proxy"@[0] == 'h');
    assert("ftp_proxy"@[0] == 'f' && "all_proxy"@[0] == 'a' && "no_proxy"@[0] == 'n');
}

/// The assignments of a set hold one for a variable exactly where the field
/// of that variable is configured, and then it gives the field's value.
pub proof fn lemma_assignments(set: ProxySet)
    ensures
        assigns(assignments(set), "http_proxy"@) <==> set.http.len() > 0,
        assigns(assignments(set), "https_proxy"@) <==> set.https.len() > 0,
        assigns(assignments(set), "ftp_proxy"@) <==> set.ftp.len() > 0,
        assigns(assignments(set), "all_proxy"@) <==> set.all.len() > 0,
        assigns(assignments(set), "no_proxy"@) <==> set.no.len() > 0,
        forall|i: int|
            0 <= i < assignments(set).len() ==> {
                let var = #[trigger] assignments(set)[i];
                ||| var == ("http_proxy"@, set.http)
                ||| var == ("https_proxy"@, set.https)
                ||| var == ("ftp_proxy"@, set.ftp)
                ||| var == ("all_proxy"@, set.all)
                ||| var == ("no_proxy"@, set.no)
            },
{
    lemma_names_differ();
    let vars = assignments(set);
    let a = assignment("http_proxy"@, set.http);
    let b = assignment("https_proxy"@, set.https);
    let c = assignment("ftp_proxy"@, set.ftp);
    let d = assignment("all_proxy"@, set.all);
    let e = assignment("no_proxy"@, set.no);
    assert(vars == a + b + c + d + e);
    if set.http.len() > 0 {
        assert(vars[0] == ("http_proxy"@, set.http));
    }
    if set.https.len() > 0 {
        assert(vars[a.len() as int] == ("https_proxy"@, set.https));
    }
    if set.ftp.len() > 0 {
        assert(vars[(a.len() + b.len()) as int] == ("ftp_proxy"@, set.ftp));
    }
    if set.all.len() > 0 {
        assert(vars[(a.len() + b.len() + c.len()) as int] == ("all_proxy"@, set.all));
    }
    if set.no.len() > 0 {
        assert(vars[(a.len() + b.len() + c.len() + d.len()) as int] == ("no_proxy"@, set.no));
    }
}

/// A value that the user chose for a field is the field's value in the end,
/// whatever the system held: where the chosen value is not empty, the
/// assignments set the field's variable to it, and where it is empty, they
/// hold none for that variable.
pub proof fn lemma_override_replaces(detected: ProxySet, by: OverrideOptions)
    ensures
        by.http_proxy matches Some(value) ==> {
            &&& effective(detected, by).http == value@
            &&& assigns(assignments(effective(detected, by)), "http_proxy"@) <==> value@.len() > 0
            &&& value@.len() > 0 ==> assignments(effective(detected, by)).contains(
                ("http_proxy"@, value@),
            )
        },
        by.https_proxy matches Some(value) ==> {
            &&& effective(detected, by).https == value@
            &&& assigns(assignments(effective(detected, by)), "https_proxy"@) <==> value@.len() > 0
            &&& value@.len() > 0 ==> assignments(effective(detected, by)).contains(
                ("https_proxy"@, value@),
            )
        },
        by.ftp_proxy matches Some(value) ==> {
            &&& effective(detected, by).ftp == value@
            &&& assigns(assignments(effective(detected, by)), "ftp_proxy"@) <==> value@.len() > 0
            &&& value@.len() > 0 ==> assignments(effective(detected, by)).contains(
                ("ftp_proxy"@, value@),
            )
        },
        by.all_proxy matches Some(value) ==> {
            &&& effective(detected, by).all == value@
            &&& assigns(assignments(effective(detected, by)), "all_proxy"@) <==> value@.len() > 0
            &&& value@.len() > 0 ==> assignments(effective(detected, by)).contains(
                ("all_proxy"@, value@),
            )
        },
        by.no_proxy matches Some(value) ==> {
            &&& effective(detected, by).no == value@
            &&& assigns(assignments(effective(detected, by)), "no_proxy"@) <==> value@.len() > 0
            &&& value@.len() > 0 ==> assignments(effective(detected, by)).contains(
                ("no_proxy"@, value@),
            )
        },
{
    let set = effective(detected, by);
    let vars = assignments(set);
    lemma_assignments(set);
    lemma_names_differ();
    assert forall|name: Seq<char>, value: Seq<char>|
        assigns(vars, name) && ({
            ||| (name == "http_proxy"@ && value == set.http)
            ||| (name == "https_proxy"@ && value == set.https)
            ||| (name == "ftp_proxy"@ && value == set.ftp)
            ||| (name == "all_proxy"@ && value == set.all)
            ||| (name == "no_proxy"@ && value == set.no)
        }) implies vars.contains((name, value)) by {
        let i = choose|i: int| 0 <= i < vars.len() && (#[trigger] vars[i]).0 == name;
        assert(vars[i] == (name, value));
    }
}

} // verus!
