//! The classified errors of the configuration loader, and the exact text
//! of their diagnostic messages.
//!
//! Every failure of loading is one of four disjoint kinds; each carries a
//! human-readable message. The two path-related messages render the path
//! the way a debug printer would: quoted, with quotes, backslashes and the
//! common control characters escaped.

use vstd::prelude::*;
use vstd::string::*;
use crate::text::push_char;
use crate::text::contains_seq;

verus! {

/// A classified loading failure. Each variant carries its diagnostic
/// message.
#[derive(Debug, Clone)]
pub enum ConfigError {
    /// The supplied path has no filesystem entry.
    NotFound(String),
    /// The path exists but is not a regular file.
    NotAFile(String),
    /// The file could not be opened or fully read.
    IoError(String),
    /// The file's contents are not valid configuration data.
    ParseError(String),
}

impl ConfigError {
    /// The diagnostic message carried by this error.
    pub open spec fn message_view(&self) -> Seq<char> {
        match self {
            ConfigError::NotFound(m) => m@,
            ConfigError::NotAFile(m) => m@,
            ConfigError::IoError(m) => m@,
            ConfigError::ParseError(m) => m@,
        }
    }

    /// Returns the diagnostic message.
    pub fn message(&self) -> (m: &String)
        ensures
            m@ == self.message_view(),
    {
        match self {
            ConfigError::NotFound(m) => m,
            ConfigError::NotAFile(m) => m,
            ConfigError::IoError(m) => m,
            ConfigError::ParseError(m) => m,
        }
    }
}

/// How one character is rendered inside a quoted path: quotes, backslashes
/// and the common control characters get a backslash escape, every other
/// character stands for itself.
pub open spec fn esc_char(c: char) -> Seq<char> {
    if c == '"' {
        seq!['\\', '"']
    } else if c == '\\' {
        seq!['\\', '\\']
    } else if c == '\n' {
        seq!['\\', 'n']
    } else if c == '\r' {
        seq!['\\', 'r']
    } else if c == '\t' {
        seq!['\\', 't']
    } else {
        seq![c]
    }
}

/// True when the character is rendered as itself inside a quoted path.
pub open spec fn is_plain_char(c: char) -> bool {
    esc_char(c) == seq![c]
}

/// The escaped rendering of a whole path.
pub open spec fn escape_debug(s: Seq<char>) -> Seq<char>
    decreases s.len(),
{
    if s.len() == 0 {
        Seq::empty()
    } else {
        escape_debug(s.drop_last()) + esc_char(s.last())
    }
}

/// The quoted, escaped rendering of a path, as a debug printer shows it.
pub open spec fn quoted_path(p: Seq<char>) -> Seq<char> {
    seq!['"'] + escape_debug(p) + seq!['"']
}

/// Message of `NotFound` for a given path.
pub open spec fn not_found_msg(p: Seq<char>) -> Seq<char> {
    "Config file at "@ + quoted_path(p) + " does not exist"@
}

/// Message of `NotAFile` for a given path.
pub open spec fn not_a_file_msg(p: Seq<char>) -> Seq<char> {
    "Config file at "@ + quoted_path(p) + " is not a file"@
}

/// Message of `IoError` when the file could not be opened.
pub open spec fn open_error_msg(d: Seq<char>) -> Seq<char> {
    "Could not open config file: "@ + d
}

/// Message of `IoError` when the file could not be read.
pub open spec fn read_error_msg(d: Seq<char>) -> Seq<char> {
    "Could not read config file: "@ + d
}

/// Message of `ParseError` for a given description of the parse failure.
pub open spec fn parse_error_msg(d: Seq<char>) -> Seq<char> {
    "Could not deserialize config file: "@ + d
}

/// Appending one character to a path appends its escape to the rendering.
proof fn lemma_escape_debug_push(s: Seq<char>, c: char)
    ensures
        escape_debug(s.push(c)) == escape_debug(s) + esc_char(c),
{
    assert(s.push(c).drop_last() =~= s);
    assert(s.push(c).last() == c);
}

/// Appends the quoted, escaped rendering of `p` to `out`.
fn push_quoted_path(out: &mut String, p: &str)
    ensures
        final(out)@ == old(out)@ + quoted_path(p@),
{
    push_char(out, '"');
    let n: usize = p.unicode_len();
    let mut i: usize = 0;
    while i < n
        invariant
            n == p@.len(),
            i <= n,
            out@ == old(out)@ + seq!['"'] + escape_debug(p@.subrange(0, i as int)),
        decreases n - i,
    {
        let c: char = p.get_char(i);
        if c == '"' {
            push_char(out, '\\');
            push_char(out, '"');
        } else if c == '\\' {
            push_char(out, '\\');
            push_char(out, '\\');
        } else if c == '\n' {
            push_char(out, '\\');
            push_char(out, 'n');
        } else if c == '\r' {
            push_char(out, '\\');
            push_char(out, 'r');
        } else if c == '\t' {
            push_char(out, '\\');
            push_char(out, 't');
        } else {
            push_char(out, c);
        }
        proof {
            assert(p@.subrange(0, i + 1 as int) =~= p@.subrange(0, i as int).push(p@[i as int]));
            lemma_escape_debug_push(p@.subrange(0, i as int), p@[i as int]);
            assert(out@ =~= old(out)@ + seq!['"'] + escape_debug(p@.subrange(0, i + 1 as int)));
        }
        i = i + 1;
    }
    proof {
        assert(p@.subrange(0, n as int) =~= p@);
    }
    push_char(out, '"');
    proof {
        assert(final(out)@ =~= old(out)@ + quoted_path(p@));
    }
}

impl ConfigError {
    /// The `NotFound` error for a path with no filesystem entry.
    pub fn not_found(path: &str) -> (e: ConfigError)
        ensures
            e matches ConfigError::NotFound(m) && m@ == not_found_msg(path@),
    {
        let mut m = String::from_str("Config file at ");
        push_quoted_path(&mut m, path);
        m.append(" does not exist");
        ConfigError::NotFound(m)
    }

    /// The `NotAFile` error for a path that exists but is not a regular file.
    pub fn not_a_file(path: &str) -> (e: ConfigError)
        ensures
            e matches ConfigError::NotAFile(m) && m@ == not_a_file_msg(path@),
    {
        let mut m = String::from_str("Config file at ");
        push_quoted_path(&mut m, path);
        m.append(" is not a file");
        ConfigError::NotAFile(m)
    }

    /// The `IoError` for a file that could not be opened; `desc` is the
    /// underlying system error's description.
    pub fn open_failed(desc: &str) -> (e: ConfigError)
        ensures
            e matches ConfigError::IoError(m) && m@ == open_error_msg(desc@),
    {
        let mut m = String::from_str("Could not open config file: ");
        m.append(desc);
        ConfigError::IoError(m)
    }

    /// The `IoError` for a file that could not be fully read; `desc` is the
    /// underlying system error's description.
    pub fn read_failed(desc: &str) -> (e: ConfigError)
        ensures
            e matches ConfigError::IoError(m) && m@ == read_error_msg(desc@),
    {
        let mut m = String::from_str("Could not read config file: ");
        m.append(desc);
        ConfigError::IoError(m)
    }

    /// The `ParseError` for contents that are not valid configuration data;
    /// `desc` describes the first parse failure.
    pub fn parse_failed(desc: &str) -> (e: ConfigError)
        ensures
            e matches ConfigError::ParseError(m) && m@ == parse_error_msg(desc@),
    {
        let mut m = String::from_str("Could not deserialize config file: ");
        m.append(desc);
        ConfigError::ParseError(m)
    }
}

/// A path rendered of plain characters only is not changed by escaping.
proof fn lemma_escape_debug_plain(p: Seq<char>)
    requires
        forall|i: int| 0 <= i < p.len() ==> is_plain_char(#[trigger] p[i]),
    ensures
        escape_debug(p) == p,
    decreases p.len(),
{
    if p.len() == 0 {
        assert(escape_debug(p) =~= p);
    } else {
        lemma_escape_debug_plain(p.drop_last());
        assert(esc_char(p.last()) == seq![p.last()]);
        assert(escape_debug(p) =~= p);
    }
}

/// The `NotFound` message contains the offending path verbatim, for every
/// path whose characters are rendered as themselves (no quote, backslash
/// or control character).
pub proof fn lemma_not_found_message_contains_path(p: Seq<char>)
    requires
        forall|i: int| 0 <= i < p.len() ==> is_plain_char(#[trigger] p[i]),
    ensures
        contains_seq(not_found_msg(p), p),
{
    reveal_strlit("Config file at ");
    lemma_escape_debug_plain(p);
    assert(not_found_msg(p).subrange(16, 16 + p.len() as int) =~= p);
}

/// The `NotAFile` message contains the offending path verbatim, under the
/// same proviso.
pub proof fn lemma_not_a_file_message_contains_path(p: Seq<char>)
    requires
        forall|i: int| 0 <= i < p.len() ==> is_plain_char(#[trigger] p[i]),
    ensures
        contains_seq(not_a_file_msg(p), p),
{
    reveal_strlit("Config file at ");
    lemma_escape_debug_plain(p);
    assert(not_a_file_msg(p).subrange(16, 16 + p.len() as int) =~= p);
}

} // verus!
