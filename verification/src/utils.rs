//! The shells, and how each of them writes an assignment.

use crate::text::pieces::{join, joined};
use crate::text::search::{contains, includes, same};
use crate::text::strings::{chain, chars_of, views};
use colored::Colorize;
use std::str::FromStr;
use vstd::prelude::*;

verus! {

/// The name of an environment variable and its value.
pub type Var = (&'static str, String);

/// The assignments of a script, in order.
pub type Vars = Vec<Var>;

/// A shell in whose syntax the assignments can be written.
#[derive(Debug, Clone, Copy, PartialEq, Eq, Structural)]
pub enum Terminal {
    Bash,
    Cmd,
    Elvish,
    Fish,
    Ion,
    Nu,
    PowerShell,
    Tcsh,
    Xonsh,
    Zsh,
}

/// The escape code that switches bold type on.
pub open spec fn bold_on() -> Seq<char> {
    "\u{1b}[1m"@
}

/// The escape code that switches every style off.
pub open spec fn style_off() -> Seq<char> {
    "\u{1b}[0m"@
}

/// `styled` is one of the texts that `colored` prints for `text` in bold
/// type: `text` unchanged where colours are switched off; `text` between the
/// code for bold type and the code that ends every style where they are on;
/// `text` with the ending code alone after it where another thread switches
/// colours off while the text is printed.
pub open spec fn in_bold(text: Seq<char>, styled: Seq<char>) -> bool {
    ||| styled == text
    ||| styled == text + style_off()
    ||| styled == bold_on() + text + style_off()
}

/// Prints `text` in bold type through `colored::Colorize::bold` and the
/// `Display` of the `ColoredString` that it returns. Whether `colored` adds
/// its escape codes depends on the environment and on the terminal, so the
/// contract names every text that can come back and not which one does. A
/// text that holds an escape character is kept out, since `colored` changes
/// such a text inside.
#[verifier::external_body]
fn bold(text: &str) -> (styled: String)
    requires
        !includes(text@, "\u{1b}"@),
    ensures
        in_bold(text@, styled@),
{
    text.bold().to_string()
}

/// `text` in bold type, or `text` itself where it holds an escape character
/// already.
pub fn emphasize(text: &str) -> (styled: String)
    ensures
        in_bold(text@, styled@),
        includes(text@, "\u{1b}"@) ==> styled@ == text@,
{
    if contains(text, "\u{1b}") {
        text.to_owned()
    } else {
        bold(text)
    }
}

/// What is said of a name that is no shell's, `names` being the list of the
/// valid ones as it is shown.
pub open spec fn invalid_terminal(names: Seq<char>) -> Seq<char> {
    "Invalid terminal, valid terminals are: "@ + names
}

/// Says that a name is no shell's, and shows `names` as the valid ones.
pub fn invalid_terminal_message(names: &str) -> (r: String)
    ensures
        r@ == invalid_terminal(names@),
{
    chain("Invalid terminal, valid terminals are: ", names)
}

impl Terminal {
    /// The names of the shells, as they are shown to the user.
    pub fn valid_terminals() -> (r: &'static str)
        ensures
            r@ == "bash, cmd, elvish, fish, ion, nu, powershell, tcsh, xonsh, zsh"@,
    {
        "bash, cmd, elvish, fish, ion, nu, powershell, tcsh, xonsh, zsh"
    }

    /// The shell that `name` names.
    pub open spec fn named(name: Seq<char>) -> Option<Terminal> {
        if name == "bash"@ {
            Some(Terminal::Bash)
        } else if name == "cmd"@ {
            Some(Terminal::Cmd)
        } else if name == "elvish"@ {
            Some(Terminal::Elvish)
        } else if name == "fish"@ {
            Some(Terminal::Fish)
        } else if name == "ion"@ {
            Some(Terminal::Ion)
        } else if name == "nu"@ {
            Some(Terminal::Nu)
        } else if name == "powershell"@ {
            Some(Terminal::PowerShell)
        } else if name == "tcsh"@ {
            Some(Terminal::Tcsh)
        } else if name == "xonsh"@ {
            Some(Terminal::Xonsh)
        } else if name == "zsh"@ {
            Some(Terminal::Zsh)
        } else {
            None
        }
    }

    /// The shell that `name` names, if it names one.
    pub fn lookup(name: &str) -> (r: Option<Terminal>)
        ensures
            r == Terminal::named(name@),
    {
        if same(name, "bash") {
            Some(Terminal::Bash)
        } else if same(name, "cmd") {
            Some(Terminal::Cmd)
        } else if same(name, "elvish") {
            Some(Terminal::Elvish)
        } else if same(name, "fish") {
            Some(Terminal::Fish)
        } else if same(name, "ion") {
            Some(Terminal::Ion)
        } else if same(name, "nu") {
            Some(Terminal::Nu)
        } else if same(name, "powershell") {
            Some(Terminal::PowerShell)
        } else if same(name, "tcsh") {
            Some(Terminal::Tcsh)
        } else if same(name, "xonsh") {
            Some(Terminal::Xonsh)
        } else if same(name, "zsh") {
            Some(Terminal::Zsh)
        } else {
            None
        }
    }
}

impl FromStr for Terminal {
    type Err = String;

    /// The shell that `s` names, or what is said of a name that is no
    /// shell's: the valid names follow in bold type.
    fn from_str(s: &str) -> (r: Result<Terminal, String>)
        ensures
            match r {
                Ok(terminal) => Terminal::named(s@) == Some(terminal),
                Err(message) => {
                    &&& Terminal::named(s@) is None
                    &&& exists|names: Seq<char>|
                        {
                            &&& in_bold(
                                "bash, cmd, elvish, fish, ion, nu, powershell, tcsh, xonsh, zsh"@,
                                names,
                            )
                            &&& message@ == #[trigger] invalid_terminal(names)
                        }
                },
            },
    {
        match Terminal::lookup(s) {
            Some(terminal) => Ok(terminal),
            None => {
                let names = emphasize(Terminal::valid_terminals());
                Err(invalid_terminal_message(names.as_str()))
            },
        }
    }
}

/// The assignments `vars` as contracts see them: the name and the value of
/// each, in order.
pub open spec fn pairs(vars: Seq<Var>) -> Seq<(Seq<char>, Seq<char>)> {
    vars.map_values(|var: Var| (var.0@, var.1@))
}

impl Terminal {
    /// What the shell writes in place of the character `c` of a value: a
    /// character that would end the value or start something else is
    /// preceded by the shell's escape character, or doubled.
    pub open spec fn escaped_char(self, c: char) -> Seq<char> {
        match self {
            Terminal::PowerShell => {
                if c == '`' {
                    seq!['`', '`']
                } else if c == '"' {
                    seq!['`', '"']
                } else {
                    seq![c]
                }
            },
            Terminal::Cmd => {
                if c == '%' {
                    seq!['%', '%']
                } else {
                    seq![c]
                }
            },
            _ => {
                if c == '\\' {
                    seq!['\\', '\\']
                } else if c == '"' {
                    seq!['\\', '"']
                } else {
                    seq![c]
                }
            },
        }
    }

    /// The value as the shell writes it: each character in its escaped form.
    pub open spec fn escaped(self, value: Seq<char>) -> Seq<char>
        decreases value.len(),
    {
        if value.len() == 0 {
            Seq::empty()
        } else {
            self.escaped_char(value[0]) + self.escaped(value.drop_first())
        }
    }

    /// One more character at the end of a value adds its escaped form at the
    /// end of the escaped value.
    pub proof fn lemma_escaped_push(self, value: Seq<char>, c: char)
        ensures
            self.escaped(value.push(c)) == self.escaped(value) + self.escaped_char(c),
        decreases value.len(),
    {
        let longer = value.push(c);
        if value.len() == 0 {
            assert(longer.drop_first() =~= Seq::<char>::empty());
            assert(self.escaped(longer.drop_first()) =~= Seq::<char>::empty());
            assert(self.escaped(longer) =~= self.escaped_char(c));
            assert(self.escaped(value) + self.escaped_char(c) =~= self.escaped_char(c));
        } else {
            assert(longer.drop_first() =~= value.drop_first().push(c));
            self.lemma_escaped_push(value.drop_first(), c);
            assert(self.escaped_char(value[0]) + (self.escaped(value.drop_first())
                + self.escaped_char(c)) =~= (self.escaped_char(value[0]) + self.escaped(
                value.drop_first(),
            )) + self.escaped_char(c));
        }
    }

    /// Escapes `value` for the shell.
    pub fn escape_value(&self, value: &str) -> (r: String)
        ensures
            r@ == self.escaped(value@),
    {
        let chars = chars_of(value);
        let mut r = String::new();
        let mut i: usize = 0;
        while i < chars.len()
            invariant
                i <= chars.len(),
                chars@ == value@,
                r@ == self.escaped(chars@.take(i as int)),
            decreases chars.len() - i,
        {
            let c = chars[i];
            proof {
                self.lemma_escaped_push(chars@.take(i as int), c);
                assert(chars@.take(i + 1) =~= chars@.take(i as int).push(c));
            }
            let ghost before = r@;
            match self {
                Terminal::PowerShell => {
                    if c == '`' || c == '"' {
                        r.push('`');
                    }
                },
                Terminal::Cmd => {
                    if c == '%' {
                        r.push('%');
                    }
                },
                _ => {
                    if c == '\\' || c == '"' {
                        r.push('\\');
                    }
                },
            }
            r.push(c);
            assert(r@ =~= before + self.escaped_char(c));
            i += 1;
        }
        assert(chars@.take(i as int) =~= chars@);
        r
    }

    /// What the shell writes before the name of a variable that it sets.
    pub open spec fn opening(self) -> Seq<char> {
        match self {
            Terminal::PowerShell => "$env:"@,
            Terminal::Cmd => "set "@,
            Terminal::Bash => "export "@,
            Terminal::Zsh => "export "@,
            Terminal::Fish => "set -x "@,
            Terminal::Elvish => "set-env "@,
            Terminal::Xonsh => "$env:"@,
            Terminal::Tcsh => "setenv "@,
            Terminal::Ion => "export "@,
            Terminal::Nu => "$nu.env[\""@,
        }
    }

    /// What the shell writes between the name and the value.
    pub open spec fn middle(self) -> Seq<char> {
        match self {
            Terminal::PowerShell => " = \""@,
            Terminal::Cmd => "="@,
            Terminal::Bash => "=\""@,
            Terminal::Zsh => "=\""@,
            Terminal::Fish => " \""@,
            Terminal::Elvish => " \""@,
            Terminal::Xonsh => " = \""@,
            Terminal::Tcsh => " \""@,
            Terminal::Ion => "=\""@,
            Terminal::Nu => "\"] = \""@,
        }
    }

    /// What the shell writes after the value.
    pub open spec fn closing(self) -> Seq<char> {
        match self {
            Terminal::Cmd => ""@,
            _ => "\""@,
        }
    }

    /// The statement that sets the variable `key` to `value` in the shell.
    pub open spec fn statement(self, key: Seq<char>, value: Seq<char>) -> Seq<char> {
        self.opening() + key + self.middle() + self.escaped(value) + self.closing()
    }

    /// The script that sets the variables `vars` in the shell: one statement
    /// for each, in order, with a line feed between each two.
    pub open spec fn script(self, vars: Seq<(Seq<char>, Seq<char>)>) -> Seq<char> {
        joined(vars.map_values(|var: (Seq<char>, Seq<char>)| self.statement(var.0, var.1)), "\n"@)
    }

    /// The three fixed texts of the shell's statement.
    fn template(&self) -> (r: (&'static str, &'static str, &'static str))
        ensures
            r.0@ == self.opening(),
            r.1@ == self.middle(),
            r.2@ == self.closing(),
    {
        match self {
            Terminal::PowerShell => ("$env:", " = \"", "\""),
            Terminal::Cmd => ("set ", "=", ""),
            Terminal::Bash => ("export ", "=\"", "\""),
            Terminal::Zsh => ("export ", "=\"", "\""),
            Terminal::Fish => ("set -x ", " \"", "\""),
            Terminal::Elvish => ("set-env ", " \"", "\""),
            Terminal::Xonsh => ("$env:", " = \"", "\""),
            Terminal::Tcsh => ("setenv ", " \"", "\""),
            Terminal::Ion => ("export ", "=\"", "\""),
            Terminal::Nu => ("$nu.env[\"", "\"] = \"", "\""),
        }
    }

    /// Writes the statement that sets `key` to `value`.
    fn assignment(&self, key: &str, value: &str) -> (r: String)
        ensures
            r@ == self.statement(key@, value@),
    {
        let escaped_value = self.escape_value(value);
        let (opening, middle, closing) = self.template();
        let mut r = opening.to_owned();
        r.append(key);
        r.append(middle);
        r.append(escaped_value.as_str());
        r.append(closing);
        r
    }

    /// Writes the statement that sets the variable of `var` to its value.
    pub fn set_env_str(&self, var: Var) -> (r: String)
        ensures
            r@ == self.statement(var.0@, var.1@),
    {
        self.assignment(var.0, var.1.as_str())
    }

    /// Writes the script that sets the variables `envs`.
    pub fn set_envs_str(&self, envs: Vars) -> (r: String)
        ensures
            r@ == self.script(pairs(envs@)),
    {
        let mut lines: Vec<String> = Vec::new();
        let ghost all = pairs(envs@).map_values(
            |var: (Seq<char>, Seq<char>)| self.statement(var.0, var.1),
        );
        let mut i: usize = 0;
        while i < envs.len()
            invariant
                i <= envs.len(),
                all == pairs(envs@).map_values(
                    |var: (Seq<char>, Seq<char>)| self.statement(var.0, var.1),
                ),
                views(lines@) == all.take(i as int),
            decreases envs.len() - i,
        {
            let line = self.assignment(envs[i].0, envs[i].1.as_str());
            proof {
                let pair = pairs(envs@)[i as int];
                assert(pair == (envs@[i as int].0@, envs@[i as int].1@));
                assert(all[i as int] == self.statement(pair.0, pair.1));
                assert(views(lines@.push(line)) =~= all.take(i as int).push(line@));
                assert(all.take(i + 1) =~= all.take(i as int).push(all[i as int]));
            }
            lines.push(line);
            i += 1;
        }
        assert(all.take(i as int) =~= all);
        join(&lines, "\n")
    }
}

/// `c` before the text that `rest` holds, if it holds one.
pub open spec fn preceded(c: char, rest: Option<Seq<char>>) -> Option<Seq<char>> {
    match rest {
        Some(text) => Some(seq![c] + text),
        None => None,
    }
}

impl Terminal {
    /// The character by which the shell takes the next one literally.
    pub open spec fn escape(self) -> char {
        match self {
            Terminal::PowerShell => '`',
            Terminal::Cmd => '%',
            _ => '\\',
        }
    }

    /// `c` does not stand for itself in a value: it is the shell's escape
    /// character or, where the shell writes the value between double quotes,
    /// a double quote.
    pub open spec fn special(self, c: char) -> bool {
        c == self.escape() || (self != Terminal::Cmd && c == '"')
    }

    /// The value that the shell reads from what stands in the place of a
    /// value in a statement. The escape character and the special character
    /// after it give that character; any other character stands for itself.
    /// There is no value where a special character stands unescaped, since it
    /// would end the value or begin something else.
    pub open spec fn read_back(self, written: Seq<char>) -> Option<Seq<char>>
        decreases written.len(),
    {
        if written.len() == 0 {
            Some(Seq::empty())
        } else if written[0] == self.escape() {
            if written.len() >= 2 && self.special(written[1]) {
                preceded(written[1], self.read_back(written.skip(2)))
            } else {
                None
            }
        } else if self.special(written[0]) {
            None
        } else {
            preceded(written[0], self.read_back(written.skip(1)))
        }
    }

    /// Whatever a value holds, the shell reads that value back from its
    /// escaped form: no character of it ends the statement early.
    pub proof fn lemma_escaped_reads_back(self, value: Seq<char>)
        ensures
            self.read_back(self.escaped(value)) == Some(value),
        decreases value.len(),
    {
        if value.len() > 0 {
            let c = value[0];
            let rest = value.drop_first();
            let written = self.escaped(value);
            self.lemma_escaped_reads_back(rest);
            assert(written == self.escaped_char(c) + self.escaped(rest));
            if self.special(c) {
                assert(self.escaped_char(c) =~= seq![self.escape(), c]);
                assert(written[0] == self.escape() && written[1] == c);
                assert(written.skip(2) =~= self.escaped(rest));
            } else {
                assert(self.escaped_char(c) =~= seq![c]);
                assert(written[0] == c);
                assert(written.skip(1) =~= self.escaped(rest));
            }
            assert(seq![c] + rest =~= value);
        }
    }

    /// The script is a function of the shell and the assignments: two scripts
    /// written for the same shell from the same assignments are the same
    /// text.
    pub proof fn lemma_script_is_determined(
        self,
        vars: Seq<(Seq<char>, Seq<char>)>,
        first: Seq<char>,
        second: Seq<char>,
    )
        requires
            first == self.script(vars),
            second == self.script(vars),
        ensures
            first == second,
    {
    }
}

} // verus!
