//! The grammar of the configuration source and its verified parser.
//!
//! The source is line-oriented: blank lines and lines whose first
//! non-blank character is `#` are skipped; every other line must be an
//! assignment `key = value`, where a value is either a nonempty string of
//! decimal digits or a double-quoted string without escape sequences or
//! inner quotes. The four schema keys are each required exactly once and
//! must fit their declared integer width; unknown keys are ignored, though
//! their values must still be well formed. The whole grammar is defined by
//! the specification functions below, and the executable parser is proved
//! to decide it exactly.

use vstd::prelude::*;
use vstd::slice::slice_subrange;
use crate::numbers::parse_uint;
use crate::numbers::is_digit;
use crate::errors::ConfigError;
use crate::errors::parse_error_msg;
use crate::text::str_to_chars;
use crate::text::chars_to_string;

verus! {

/// The blank characters that may surround keys, values and whole lines.
pub open spec fn is_space(c: char) -> bool {
    c == ' ' || c == '\t' || c == '\r'
}

/// `s` without its leading blanks.
pub open spec fn trim_front(s: Seq<char>) -> Seq<char>
    decreases s.len(),
{
    if s.len() > 0 && is_space(s.first()) {
        trim_front(s.drop_first())
    } else {
        s
    }
}

/// `s` without its trailing blanks.
pub open spec fn trim_back(s: Seq<char>) -> Seq<char>
    decreases s.len(),
{
    if s.len() > 0 && is_space(s.last()) {
        trim_back(s.drop_last())
    } else {
        s
    }
}

/// `s` without leading and trailing blanks.
pub open spec fn trim(s: Seq<char>) -> Seq<char> {
    trim_back(trim_front(s))
}

/// Index of the first occurrence of `c` in `s`, or `-1` when `c` does not
/// occur.
pub open spec fn find_char(s: Seq<char>, c: char) -> int
    decreases s.len(),
{
    if s.len() == 0 {
        -1
    } else if s.first() == c {
        0
    } else {
        let r = find_char(s.drop_first(), c);
        if r < 0 {
            -1
        } else {
            r + 1
        }
    }
}

/// If `c` first occurs at `k`, then `find_char` returns `k`.
proof fn lemma_find_char_at(s: Seq<char>, c: char, k: int)
    requires
        0 <= k < s.len(),
        s[k] == c,
        forall|j: int| 0 <= j < k ==> s[j] != c,
    ensures
        find_char(s, c) == k,
    decreases k,
{
    if k == 0 {
    } else {
        lemma_find_char_at(s.drop_first(), c, k - 1);
    }
}

/// If `c` does not occur in `s`, then `find_char` returns `-1`.
proof fn lemma_find_char_none(s: Seq<char>, c: char)
    requires
        forall|j: int| 0 <= j < s.len() ==> s[j] != c,
    ensures
        find_char(s, c) == -1,
    decreases s.len(),
{
    if s.len() > 0 {
        lemma_find_char_none(s.drop_first(), c);
    }
}

/// Trimming the front skips exactly the leading blanks.
proof fn lemma_trim_front_skip(s: Seq<char>, k: int)
    requires
        0 <= k <= s.len(),
        forall|j: int| 0 <= j < k ==> is_space(#[trigger] s[j]),
        k < s.len() ==> !is_space(s[k]),
    ensures
        trim_front(s) == s.subrange(k, s.len() as int),
    decreases k,
{
    if k == 0 {
        assert(s.subrange(0, s.len() as int) =~= s);
    } else {
        assert(is_space(s.first()));
        lemma_trim_front_skip(s.drop_first(), k - 1);
        assert(s.drop_first().subrange(k - 1, s.drop_first().len() as int) =~= s.subrange(
            k,
            s.len() as int,
        ));
    }
}

/// Trimming the back drops exactly the trailing blanks.
proof fn lemma_trim_back_take(s: Seq<char>, k: int)
    requires
        0 <= k <= s.len(),
        forall|j: int| k <= j < s.len() ==> is_space(#[trigger] s[j]),
        k > 0 ==> !is_space(s[k - 1]),
    ensures
        trim_back(s) == s.subrange(0, k),
    decreases s.len() - k,
{
    if k == s.len() {
        assert(s.subrange(0, k) =~= s);
    } else {
        assert(is_space(s.last()));
        lemma_trim_back_take(s.drop_last(), k);
        assert(s.drop_last().subrange(0, k) =~= s.subrange(0, k));
    }
}

/// A quoted string value: at least the two quotes, and no quote or
/// backslash in between (the grammar has no escape sequences).
pub open spec fn is_string_value(v: Seq<char>) -> bool {
    v.len() >= 2 && v.first() == '"' && v.last() == '"' && (forall|i: int|
        0 < i < v.len() - 1 ==> #[trigger] v[i] != '"' && v[i] != '\\')
}

/// The characters denoted by a quoted string value.
pub open spec fn string_value(v: Seq<char>) -> Seq<char> {
    v.subrange(1, v.len() - 1)
}

/// A well-formed value: an unsigned decimal number or a quoted string.
/// Values of unknown keys must satisfy this even though they are ignored.
pub open spec fn is_wellformed_value(v: Seq<char>) -> bool {
    parse_uint(v) is Some || is_string_value(v)
}

/// Finds `c` in `text[from..to]`; the result is the first occurrence, as
/// `find_char` gives it for that subrange.
fn find_range(text: &[char], from: usize, to: usize, c: char) -> (r: Option<usize>)
    requires
        from <= to <= text@.len(),
    ensures
        r matches Some(j) ==> from <= j < to && find_char(
            text@.subrange(from as int, to as int),
            c,
        ) == j - from,
        r is None ==> find_char(text@.subrange(from as int, to as int), c) == -1,
{
    let ghost sub = text@.subrange(from as int, to as int);
    let mut j: usize = from;
    while j < to
        invariant
            from <= j <= to <= text@.len(),
            sub == text@.subrange(from as int, to as int),
            forall|k: int| from <= k < j ==> text@[k] != c,
        decreases to - j,
    {
        if text[j] == c {
            proof {
                lemma_find_char_at(sub, c, j - from);
            }
            return Some(j);
        }
        j = j + 1;
    }
    proof {
        lemma_find_char_none(sub, c);
    }
    None
}

/// Bounds of the trimmed middle of `line`: the subrange from `r.0` to
/// `r.1` is exactly `trim(line)`.
fn trim_slice(line: &[char]) -> (r: (usize, usize))
    ensures
        r.0 <= r.1 <= line@.len(),
        line@.subrange(r.0 as int, r.1 as int) == trim(line@),
{
    let n: usize = line.len();
    let mut lo: usize = 0;
    while lo < n && (line[lo] == ' ' || line[lo] == '\t' || line[lo] == '\r')
        invariant
            lo <= n,
            n == line@.len(),
            forall|j: int| 0 <= j < lo ==> is_space(#[trigger] line@[j]),
        decreases n - lo,
    {
        lo = lo + 1;
    }
    proof {
        lemma_trim_front_skip(line@, lo as int);
    }
    let ghost t1 = line@.subrange(lo as int, n as int);
    let mut hi: usize = n;
    while hi > lo && (line[hi - 1] == ' ' || line[hi - 1] == '\t' || line[hi - 1] == '\r')
        invariant
            lo <= hi <= n,
            n == line@.len(),
            forall|j: int| hi <= j < n ==> is_space(#[trigger] line@[j]),
        decreases hi,
    {
        hi = hi - 1;
    }
    proof {
        assert(forall|j: int|
            hi - lo <= j < t1.len() ==> is_space(#[trigger] t1[j]) == is_space(line@[j + lo]));
        lemma_trim_back_take(t1, hi - lo);
        assert(t1.subrange(0, hi - lo) =~= line@.subrange(lo as int, hi as int));
    }
    (lo, hi)
}

/// True exactly when the characters of `a` spell the string `s`.
fn chars_eq(a: &[char], s: &str) -> (r: bool)
    ensures
        r == (a@ == s@),
{
    let n: usize = s.unicode_len();
    if a.len() != n {
        proof {
            assert(a@ != s@);
        }
        return false;
    }
    let mut i: usize = 0;
    while i < n
        invariant
            i <= n,
            n == s@.len(),
            n == a@.len(),
            forall|j: int| 0 <= j < i ==> a@[j] == s@[j],
        decreases n - i,
    {
        if a[i] != s.get_char(i) {
            proof {
                assert(a@[i as int] != s@[i as int]);
            }
            return false;
        }
        i = i + 1;
    }
    proof {
        assert(a@ =~= s@);
    }
    true
}

/// True exactly when `v` is a nonempty string of decimal digits.
fn is_digits(v: &[char]) -> (r: bool)
    ensures
        r == (parse_uint(v@) is Some),
{
    if v.len() == 0 {
        return false;
    }
    let mut i: usize = 0;
    while i < v.len()
        invariant
            i <= v@.len(),
            0 < v@.len(),
            forall|j: int| 0 <= j < i ==> is_digit(#[trigger] v@[j]),
        decreases v@.len() - i,
    {
        let u: u32 = v[i] as u32;
        if u < 48 || u > 57 {
            proof {
                assert(!is_digit(v@[i as int]));
            }
            return false;
        }
        i = i + 1;
    }
    true
}

/// What the parser has gathered so far: each schema key's value, once
/// seen. A key seen twice, or a malformed line, aborts the parse instead.
#[verifier::ext_equal]
pub struct PartialConfig {
    pub max_backup_bytes: Option<u64>,
    pub retention_days: Option<u32>,
    pub backup_dir: Option<Seq<char>>,
    pub io_threads: Option<usize>,
}

/// The state before any line has been read.
pub open spec fn empty_partial() -> PartialConfig {
    PartialConfig {
        max_backup_bytes: None,
        retention_days: None,
        backup_dir: None,
        io_threads: None,
    }
}

/// The effect of one line on the gathered state: `None` is a parse
/// failure, `Some` the state after the line. Blank and comment lines
/// change nothing; an assignment to a schema key records its value, which
/// must have the key's type and fit its width and may not repeat; an
/// assignment to an unknown key is ignored if its value is well formed.
pub open spec fn line_step(st: PartialConfig, line: Seq<char>) -> Option<PartialConfig> {
    let t = trim(line);
    if t.len() == 0 || t.first() == '#' {
        Some(st)
    } else {
        let e = find_char(t, '=');
        if e < 0 {
            None
        } else {
            let k = trim_back(t.subrange(0, e));
            let v = trim_front(t.subrange(e + 1, t.len() as int));
            if k.len() == 0 {
                None
            } else if k == "max_backup_bytes"@ {
                if st.max_backup_bytes is Some {
                    None
                } else {
                    match parse_uint(v) {
                        Some(n) => if n <= u64::MAX {
                            Some(PartialConfig { max_backup_bytes: Some(n as u64), ..st })
                        } else {
                            None
                        },
                        None => None,
                    }
                }
            } else if k == "retention_days"@ {
                if st.retention_days is Some {
                    None
                } else {
                    match parse_uint(v) {
                        Some(n) => if n <= u32::MAX {
                            Some(PartialConfig { retention_days: Some(n as u32), ..st })
                        } else {
                            None
                        },
                        None => None,
                    }
                }
            } else if k == "backup_dir"@ {
                if st.backup_dir is Some {
                    None
                } else if is_string_value(v) {
                    Some(PartialConfig { backup_dir: Some(string_value(v)), ..st })
                } else {
                    None
                }
            } else if k == "io_threads"@ {
                if st.io_threads is Some {
                    None
                } else {
                    match parse_uint(v) {
                        Some(n) => if n <= usize::MAX {
                            Some(PartialConfig { io_threads: Some(n as usize), ..st })
                        } else {
                            None
                        },
                        None => None,
                    }
                }
            } else {
                if is_wellformed_value(v) {
                    Some(st)
                } else {
                    None
                }
            }
        }
    }
}

/// The lines of the source: the pieces between newline characters. A
/// trailing newline yields a final empty line, which the grammar skips.
pub open spec fn split_lines(s: Seq<char>) -> Seq<Seq<char>>
    decreases s.len(),
{
    let e = find_char(s, '\n');
    if 0 <= e && e < s.len() {
        seq![s.subrange(0, e)] + split_lines(s.subrange(e + 1, s.len() as int))
    } else {
        seq![s]
    }
}

/// Folds `line_step` over the lines, aborting on the first failure.
pub open spec fn fold_lines(st: PartialConfig, lines: Seq<Seq<char>>) -> Option<PartialConfig>
    decreases lines.len(),
{
    if lines.len() == 0 {
        Some(st)
    } else {
        match line_step(st, lines.first()) {
            Some(st2) => fold_lines(st2, lines.drop_first()),
            None => None,
        }
    }
}

/// The gathered state yields a configuration exactly when all four
/// required keys were seen.
pub open spec fn finish_partial(st: PartialConfig) -> Option<crate::config::ConfigView> {
    if st.max_backup_bytes is Some && st.retention_days is Some && st.backup_dir is Some
        && st.io_threads is Some {
        Some(
            crate::config::ConfigView {
                max_backup_bytes: st.max_backup_bytes->Some_0,
                retention_days: st.retention_days->Some_0,
                backup_dir: st.backup_dir->Some_0,
                io_threads: st.io_threads->Some_0,
            },
        )
    } else {
        None
    }
}

/// The meaning of a whole configuration source: the configuration it
/// denotes, or `None` when it is not valid configuration data.
pub open spec fn spec_parse(s: Seq<char>) -> Option<crate::config::ConfigView> {
    match fold_lines(empty_partial(), split_lines(s)) {
        Some(st) => finish_partial(st),
        None => None,
    }
}

/// True exactly when `v` has the shape of a quoted string value.
fn is_string_shaped(v: &[char]) -> (r: bool)
    ensures
        r == is_string_value(v@),
{
    if v.len() < 2 {
        return false;
    }
    if v[0] != '"' || v[v.len() - 1] != '"' {
        return false;
    }
    let mut i: usize = 1;
    while i < v.len() - 1
        invariant
            1 <= i <= v@.len() - 1,
            v@.len() >= 2,
            v@.first() == '"',
            v@.last() == '"',
            forall|j: int| 0 < j < i ==> #[trigger] v@[j] != '"' && v@[j] != '\\',
        decreases v@.len() - i,
    {
        if v[i] == '"' || v[i] == '\\' {
            return false;
        }
        i = i + 1;
    }
    true
}

/// Reads a quoted string value: the characters between the quotes.
fn parse_string_value(v: &[char]) -> (r: Option<Vec<char>>)
    ensures
        r matches Some(w) ==> is_string_value(v@) && w@ == string_value(v@),
        r is None ==> !is_string_value(v@),
{
    if is_string_shaped(v) {
        Some(vstd::slice::slice_to_vec(slice_subrange(v, 1, v.len() - 1)))
    } else {
        None
    }
}

/// The executable counterpart of [`PartialConfig`].
struct PartialState {
    max_backup_bytes: Option<u64>,
    retention_days: Option<u32>,
    backup_dir: Option<Vec<char>>,
    io_threads: Option<usize>,
}

/// The mathematical value of the executable state.
spec fn pview(st: &PartialState) -> PartialConfig {
    PartialConfig {
        max_backup_bytes: st.max_backup_bytes,
        retention_days: st.retention_days,
        backup_dir: match st.backup_dir {
            Some(w) => Some(w@),
            None => None,
        },
        io_threads: st.io_threads,
    }
}

/// Applies one line to the gathered state, deciding `line_step` exactly;
/// a failure reports which rule of the grammar was broken.
fn apply_line(st: &mut PartialState, line: &[char]) -> (r: Result<(), &'static str>)
    ensures
        match line_step(pview(old(st)), line@) {
            Some(n) => r is Ok && pview(final(st)) == n,
            None => r is Err,
        },
{
    let (lo, hi) = trim_slice(line);
    let ghost t = trim(line@);
    if lo == hi {
        return Ok(());
    }
    if line[lo] == '#' {
        proof {
            assert(t.first() == line@[lo as int]);
        }
        return Ok(());
    }
    let eq: usize = match find_range(line, lo, hi, '=') {
        Some(j) => j,
        None => {
            return Err("expected an assignment `key = value`");
        },
    };
    let ghost e = find_char(t, '=');
    proof {
        assert(e == eq - lo);
    }
    let mut khi: usize = eq;
    while khi > lo && (line[khi - 1] == ' ' || line[khi - 1] == '\t' || line[khi - 1] == '\r')
        invariant
            lo <= khi <= eq,
            eq <= line@.len(),
            forall|j: int| khi <= j < eq ==> is_space(#[trigger] line@[j]),
        decreases khi,
    {
        khi = khi - 1;
    }
    let ghost k = trim_back(t.subrange(0, e));
    proof {
        let kraw = t.subrange(0, e);
        assert(kraw =~= line@.subrange(lo as int, eq as int));
        assert(forall|j: int|
            khi - lo <= j < kraw.len() ==> is_space(#[trigger] kraw[j]) == is_space(
                line@[j + lo],
            ));
        lemma_trim_back_take(kraw, khi - lo);
        assert(kraw.subrange(0, khi - lo) =~= line@.subrange(lo as int, khi as int));
        assert(k == line@.subrange(lo as int, khi as int));
    }
    if khi == lo {
        proof {
            assert(k.len() == 0);
        }
        return Err("missing key before `=`");
    }
    let mut vlo: usize = eq + 1;
    while vlo < hi && (line[vlo] == ' ' || line[vlo] == '\t' || line[vlo] == '\r')
        invariant
            eq + 1 <= vlo <= hi,
            hi <= line@.len(),
            forall|j: int| eq + 1 <= j < vlo ==> is_space(#[trigger] line@[j]),
        decreases hi - vlo,
    {
        vlo = vlo + 1;
    }
    let ghost v = trim_front(t.subrange(e + 1, t.len() as int));
    proof {
        let vraw = t.subrange(e + 1, t.len() as int);
        assert(vraw =~= line@.subrange(eq + 1, hi as int));
        assert(forall|j: int|
            0 <= j < vlo - (eq + 1) ==> is_space(#[trigger] vraw[j]) == is_space(
                line@[j + eq + 1],
            ));
        lemma_trim_front_skip(vraw, vlo - (eq + 1));
        assert(vraw.subrange(vlo - (eq + 1), vraw.len() as int) =~= line@.subrange(
            vlo as int,
            hi as int,
        ));
        assert(v == line@.subrange(vlo as int, hi as int));
    }
    let key = slice_subrange(line, lo, khi);
    let val = slice_subrange(line, vlo, hi);
    if chars_eq(key, "max_backup_bytes") {
        if st.max_backup_bytes.is_some() {
            return Err("duplicate key `max_backup_bytes`");
        }
        match crate::numbers::parse_u64_chars(val) {
            Some(x) => {
                st.max_backup_bytes = Some(x);
                Ok(())
            },
            None => Err("invalid value for `max_backup_bytes`"),
        }
    } else if chars_eq(key, "retention_days") {
        if st.retention_days.is_some() {
            return Err("duplicate key `retention_days`");
        }
        match crate::numbers::parse_u32_chars(val) {
            Some(x) => {
                st.retention_days = Some(x);
                Ok(())
            },
            None => Err("invalid value for `retention_days`"),
        }
    } else if chars_eq(key, "backup_dir") {
        if st.backup_dir.is_some() {
            return Err("duplicate key `backup_dir`");
        }
        match parse_string_value(val) {
            Some(w) => {
                st.backup_dir = Some(w);
                Ok(())
            },
            None => Err("invalid value for `backup_dir`"),
        }
    } else if chars_eq(key, "io_threads") {
        if st.io_threads.is_some() {
            return Err("duplicate key `io_threads`");
        }
        match crate::numbers::parse_usize_chars(val) {
            Some(x) => {
                st.io_threads = Some(x);
                Ok(())
            },
            None => Err("invalid value for `io_threads`"),
        }
    } else {
        if is_digits(val) {
            Ok(())
        } else if is_string_shaped(val) {
            Ok(())
        } else {
            Err("invalid value")
        }
    }
}

/// True when the line is an assignment whose (trimmed) key is `k`.
pub open spec fn line_assigns(line: Seq<char>, k: Seq<char>) -> bool {
    let t = trim(line);
    t.len() > 0 && t.first() != '#' && find_char(t, '=') >= 0 && trim_back(
        t.subrange(0, find_char(t, '=')),
    ) == k
}

/// True when the gathered state already holds a value for the schema key
/// `k` (and vacuously for any other key).
pub open spec fn key_recorded(st: PartialConfig, k: Seq<char>) -> bool {
    if k == "max_backup_bytes"@ {
        st.max_backup_bytes is Some
    } else if k == "retention_days"@ {
        st.retention_days is Some
    } else if k == "backup_dir"@ {
        st.backup_dir is Some
    } else if k == "io_threads"@ {
        st.io_threads is Some
    } else {
        true
    }
}

/// A line that does not assign `k` leaves `k`'s slot as it was.
proof fn lemma_step_preserves_unassigned(st: PartialConfig, line: Seq<char>, k: Seq<char>)
    requires
        !line_assigns(line, k),
    ensures
        match line_step(st, line) {
            Some(st2) => key_recorded(st2, k) == key_recorded(st, k),
            None => true,
        },
{
}

/// Folding lines none of which assigns `k` leaves `k`'s slot as it was.
proof fn lemma_fold_preserves_unassigned(st: PartialConfig, lines: Seq<Seq<char>>, k: Seq<char>)
    requires
        forall|i: int| 0 <= i < lines.len() ==> !line_assigns(#[trigger] lines[i], k),
    ensures
        match fold_lines(st, lines) {
            Some(st2) => key_recorded(st2, k) == key_recorded(st, k),
            None => true,
        },
    decreases lines.len(),
{
    if lines.len() > 0 {
        lemma_step_preserves_unassigned(st, lines.first(), k);
        match line_step(st, lines.first()) {
            Some(st2) => {
                assert(forall|i: int|
                    0 <= i < lines.drop_first().len() ==> !line_assigns(
                        #[trigger] lines.drop_first()[i],
                        k,
                    ));
                lemma_fold_preserves_unassigned(st2, lines.drop_first(), k);
            },
            None => {},
        }
    }
}

/// A source none of whose lines assigns one of the four required keys
/// never denotes a configuration: with the contract of `from_source`,
/// loading such a source yields a `ParseError` and never a partially
/// populated configuration.
pub proof fn lemma_missing_key_never_parses(s: Seq<char>, k: Seq<char>)
    requires
        k == "max_backup_bytes"@ || k == "retention_days"@ || k == "backup_dir"@ || k
            == "io_threads"@,
        forall|i: int|
            0 <= i < split_lines(s).len() ==> !line_assigns(#[trigger] split_lines(s)[i], k),
    ensures
        spec_parse(s) is None,
{
    lemma_fold_preserves_unassigned(empty_partial(), split_lines(s), k);
}

/// Loading is deterministic: one source text denotes at most one
/// configuration, so two successful parses of the same source yield
/// equal configuration values.
pub proof fn lemma_load_deterministic(
    s: Seq<char>,
    a: crate::config::ConfigView,
    b: crate::config::ConfigView,
)
    requires
        spec_parse(s) == Some(a),
        spec_parse(s) == Some(b),
    ensures
        a == b,
{
}

impl crate::config::ServerConfig {
    /// Parses the text of one configuration source. Returns the
    /// configuration it denotes exactly when the text is valid
    /// configuration data, as [`spec_parse`] defines it; every other text
    /// is rejected with a `ParseError` describing the first failure.
    pub fn from_source(text: &str) -> (r: Result<crate::config::ServerConfig, ConfigError>)
        ensures
            match spec_parse(text@) {
                Some(v) => r matches Ok(c) && c@ == v,
                None => r matches Err(e) && e matches ConfigError::ParseError(m) && (exists|
                    d: Seq<char>,
                |
                    m@ == parse_error_msg(d)),
            },
    {
        let chars: Vec<char> = str_to_chars(text);
        let n: usize = chars.len();
        let mut st = PartialState {
            max_backup_bytes: None,
            retention_days: None,
            backup_dir: None,
            io_threads: None,
        };
        let mut pos: usize = 0;
        let mut done: bool = false;
        proof {
            assert(pview(&st) =~= empty_partial());
            assert(chars@.subrange(0, n as int) =~= text@);
        }
        while !done
            invariant
                pos <= n,
                n == chars@.len(),
                chars@ == text@,
                !done ==> fold_lines(empty_partial(), split_lines(text@)) == fold_lines(
                    pview(&st),
                    split_lines(chars@.subrange(pos as int, n as int)),
                ),
                done ==> fold_lines(empty_partial(), split_lines(text@)) == Some(pview(&st)),
            decreases n - pos + (if done {
                0int
            } else {
                1int
            }),
        {
            let ghost stv = pview(&st);
            let ghost rest = chars@.subrange(pos as int, n as int);
            match find_range(chars.as_slice(), pos, n, '\n') {
                Some(j) => {
                    let line = slice_subrange(chars.as_slice(), pos, j);
                    let ghost tail = chars@.subrange(j + 1, n as int);
                    proof {
                        assert(rest.subrange(0, j - pos) =~= line@);
                        assert(rest.subrange(j - pos + 1, rest.len() as int) =~= tail);
                        assert(split_lines(rest) == seq![line@] + split_lines(tail));
                        assert((seq![line@] + split_lines(tail)).first() == line@);
                        assert((seq![line@] + split_lines(tail)).drop_first() =~= split_lines(
                            tail,
                        ));
                    }
                    if let Err(d) = apply_line(&mut st, line) {
                        return Err(ConfigError::parse_failed(d));
                    }
                    pos = j + 1;
                },
                None => {
                    let line = slice_subrange(chars.as_slice(), pos, n);
                    proof {
                        assert(line@ == rest);
                        assert(split_lines(rest) == seq![rest]);
                        assert(seq![rest].first() == rest);
                        assert(seq![rest].drop_first() =~= Seq::<Seq<char>>::empty());
                    }
                    if let Err(d) = apply_line(&mut st, line) {
                        return Err(ConfigError::parse_failed(d));
                    }
                    proof {
                        assert(fold_lines(pview(&st), Seq::<Seq<char>>::empty()) == Some(
                            pview(&st),
                        ));
                    }
                    done = true;
                },
            }
        }
        let ghost stv = pview(&st);
        let PartialState { max_backup_bytes, retention_days, backup_dir, io_threads } = st;
        let mb: u64 = match max_backup_bytes {
            Some(x) => x,
            None => {
                return Err(ConfigError::parse_failed("missing field `max_backup_bytes`"));
            },
        };
        let rd: u32 = match retention_days {
            Some(x) => x,
            None => {
                return Err(ConfigError::parse_failed("missing field `retention_days`"));
            },
        };
        let bd: Vec<char> = match backup_dir {
            Some(w) => w,
            None => {
                return Err(ConfigError::parse_failed("missing field `backup_dir`"));
            },
        };
        let io: usize = match io_threads {
            Some(x) => x,
            None => {
                return Err(ConfigError::parse_failed("missing field `io_threads`"));
            },
        };
        let cfg = crate::config::ServerConfig {
            max_backup_bytes: mb,
            retention_days: rd,
            backup_dir: chars_to_string(bd.as_slice()),
            io_threads: io,
        };
        proof {
            assert(cfg@ =~= finish_partial(stv)->Some_0);
        }
        Ok(cfg)
    }
}

} // verus!
