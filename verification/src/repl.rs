use vstd::prelude::*;
use crate::common::strings::str_eq;

verus! {

// ---------------------------------------------------------------------
// The interactive shell: what to do with each line typed
// ---------------------------------------------------------------------

/// `std`'s `str::trim` removes leading and trailing whitespace; its result
/// is named by `trimmed`.
pub uninterp spec fn trimmed(s: Seq<char>) -> Seq<char>;

/// `std`'s `str::trim_end` removes trailing whitespace; its result is named
/// by `trimmed_end`.
pub uninterp spec fn trimmed_end(s: Seq<char>) -> Seq<char>;

/// `std`'s `str::trim`, as an owned string.
#[verifier::external_body]
fn trim(s: &str) -> (res: String)
    ensures
        res@ == trimmed(s@),
{
    s.trim().to_string()
}

/// `std`'s `str::trim_end`, as an owned string.
#[verifier::external_body]
fn trim_end(s: &str) -> (res: String)
    ensures
        res@ == trimmed_end(s@),
{
    s.trim_end().to_string()
}

/// `s` without its trailing semicolons.
pub open spec fn strip_semicolons(s: Seq<char>) -> Seq<char>
    decreases s.len(),
{
    if s.len() > 0 && s.last() == ';' {
        strip_semicolons(s.drop_last())
    } else {
        s
    }
}

/// `s` ends with a semicolon.
pub open spec fn ends_with_semicolon(s: Seq<char>) -> bool {
    s.len() > 0 && s.last() == ';'
}

/// What the shell does after a line.
#[derive(Debug, PartialEq, Eq)]
pub enum ReplAction {
    /// leave the shell
    Exit,
    /// show the help text
    Help,
    /// list the tables
    Tables,
    /// read another line
    Continue,
    /// run this statement (without its final semicolons)
    Execute(String),
}

/// The statement typed so far.
pub struct ReplState {
    pub sql: String,
}

/// The statement a complete input stands for: trimmed, without its final
/// semicolons, trimmed again.
pub open spec fn statement_text(input: Seq<char>) -> Seq<char> {
    trimmed(strip_semicolons(trimmed(input)))
}

impl ReplState {
    pub fn new() -> (res: Self)
        ensures
            res.sql@ == Seq::<char>::empty(),
    {
        ReplState { sql: String::new() }
    }

    /// Whether the next line starts a statement.
    pub fn is_start_of_statement(&self) -> (res: bool)
        ensures
            res == (self.sql@.len() == 0),
    {
        self.sql.as_str().unicode_len() == 0
    }

    /// What to do with the line `line`. Commands are recognized only at the
    /// start of a statement; other lines are added to the statement, which
    /// runs once it ends with a semicolon.
    pub fn on_line(&mut self, line: &str) -> (res: ReplAction)
        ensures
            ({
                let cmd = trimmed(line@);
                let buf = old(self).sql@ + line@;
                if old(self).sql@.len() == 0 && (cmd == ".exit"@ || cmd == ".quit"@) {
                    res == ReplAction::Exit && final(self).sql@ == old(self).sql@
                } else if old(self).sql@.len() == 0 && cmd == ".help"@ {
                    res == ReplAction::Help && final(self).sql@ == old(self).sql@
                } else if old(self).sql@.len() == 0 && cmd == ".tables"@ {
                    res == ReplAction::Tables && final(self).sql@ == old(self).sql@
                } else if old(self).sql@.len() == 0 && cmd.len() == 0 {
                    res == ReplAction::Continue && final(self).sql@ == old(self).sql@
                } else if !ends_with_semicolon(trimmed_end(buf)) {
                    res == ReplAction::Continue && final(self).sql@ == buf
                } else {
                    &&& final(self).sql@ == Seq::<char>::empty()
                    &&& if statement_text(buf).len() == 0 {
                        res == ReplAction::Continue
                    } else {
                        res matches ReplAction::Execute(s) && s@ == statement_text(buf)
                    }
                }
            }),
    {
        if self.sql.as_str().unicode_len() == 0 {
            let cmd = trim(line);
            if str_eq(cmd.as_str(), ".exit") || str_eq(cmd.as_str(), ".quit") {
                return ReplAction::Exit;
            }
            if str_eq(cmd.as_str(), ".help") {
                return ReplAction::Help;
            }
            if str_eq(cmd.as_str(), ".tables") {
                return ReplAction::Tables;
            }
            if cmd.as_str().unicode_len() == 0 {
                return ReplAction::Continue;
            }
        }
        self.sql.append(line);
        let tail = trim_end(self.sql.as_str());
        let n = tail.as_str().unicode_len();
        if n == 0 || tail.as_str().get_char(n - 1) != ';' {
            return ReplAction::Continue;
        }
        let input = trim(self.sql.as_str());
        let stripped = strip_trailing_semicolons(input.as_str());
        let statement = trim(stripped.as_str());
        self.sql = String::new();
        if statement.as_str().unicode_len() == 0 {
            ReplAction::Continue
        } else {
            ReplAction::Execute(statement)
        }
    }
}

/// `s` without its trailing semicolons.
pub fn strip_trailing_semicolons(s: &str) -> (res: String)
    ensures
        res@ == strip_semicolons(s@),
{
    let mut n = s.unicode_len();
    assert(s@.subrange(0, n as int) =~= s@);
    while n > 0 && s.get_char(n - 1) == ';'
        invariant
            n <= s@.len(),
            strip_semicolons(s@.subrange(0, n as int)) == strip_semicolons(s@),
        decreases n,
    {
        assert(s@.subrange(0, n as int).drop_last() =~= s@.subrange(0, n - 1));
        n = n - 1;
    }
    assert(strip_semicolons(s@.subrange(0, n as int)) == s@.subrange(0, n as int));
    s.substring_char(0, n).to_owned()
}

} // verus!
