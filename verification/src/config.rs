//! The configuration data model: the full internal record, the restricted
//! public projection, and the projection's serialized form.
//!
//! A `ServerConfig` is constructed once, from one configuration source,
//! and never mutated. `ServerConfigPublic` holds only the two fields that
//! are safe to expose externally; its serialized form renders the field
//! names in lower camel case and, provably, never mentions the private
//! fields.

use vstd::prelude::*;
use vstd::string::*;
use crate::numbers::dec_rep;
use crate::numbers::push_dec_u64;
use crate::numbers::lemma_dec_rep_digits;
use crate::numbers::is_digit;
use crate::text::contains_seq;
use vstd::std_specs::cmp::PartialEqSpec;

verus! {

/// The mathematical value of a `ServerConfig`: its four fields, with the
/// directory path as a sequence of characters.
#[verifier::ext_equal]
pub struct ConfigView {
    pub max_backup_bytes: u64,
    pub retention_days: u32,
    pub backup_dir: Seq<char>,
    pub io_threads: usize,
}

/// The server configuration.
#[derive(Debug, Clone)]
pub struct ServerConfig {
    /// The max file size for backups (e.g. 65536)
    pub max_backup_bytes: u64,
    /// The number of days a backup will be retained (e.g. 180)
    pub retention_days: u32,
    /// The path to the directory where backups will be stored
    pub backup_dir: String,
    /// The number of threads for doing I/O (e.g. 4)
    pub io_threads: usize,
}

impl View for ServerConfig {
    type V = ConfigView;

    open spec fn view(&self) -> ConfigView {
        ConfigView {
            max_backup_bytes: self.max_backup_bytes,
            retention_days: self.retention_days,
            backup_dir: self.backup_dir@,
            io_threads: self.io_threads,
        }
    }
}

impl PartialEq for ServerConfig {
    fn eq(&self, other: &Self) -> (r: bool) {
        self.max_backup_bytes == other.max_backup_bytes && self.retention_days
            == other.retention_days && self.backup_dir == other.backup_dir && self.io_threads
            == other.io_threads
    }
}

impl vstd::std_specs::cmp::PartialEqSpecImpl for ServerConfig {
    open spec fn obeys_eq_spec() -> bool {
        true
    }

    open spec fn eq_spec(&self, other: &Self) -> bool {
        self@ == other@
    }
}

/// Two configurations are equal exactly when their views are: equality is
/// value equality on the four fields.
pub proof fn lemma_config_eq_is_view_eq(a: &ServerConfig, b: &ServerConfig)
    ensures
        a.eq_spec(b) <==> a@ == b@,
{
}

/// The public part of the server configuration.
///
/// This can be queried over the API.
#[derive(Debug, Copy, Clone, PartialEq, Eq, Structural)]
pub struct ServerConfigPublic {
    /// The max file size for backups (e.g. 65536)
    pub max_backup_bytes: u64,
    /// The number of days a backup will be retained (e.g. 180)
    pub retention_days: u32,
}

/// The projection from the full configuration to its public part: it
/// copies `max_backup_bytes` and `retention_days` and nothing else.
pub open spec fn spec_project(c: ConfigView) -> ServerConfigPublic {
    ServerConfigPublic {
        max_backup_bytes: c.max_backup_bytes,
        retention_days: c.retention_days,
    }
}

impl<'a> From<&'a ServerConfig> for ServerConfigPublic {
    fn from(other: &'a ServerConfig) -> (r: Self) {
        Self { max_backup_bytes: other.max_backup_bytes, retention_days: other.retention_days }
    }
}

impl<'a> vstd::std_specs::convert::FromSpecImpl<&'a ServerConfig> for ServerConfigPublic {
    open spec fn obeys_from_spec() -> bool {
        true
    }

    open spec fn from_spec(other: &'a ServerConfig) -> Self {
        spec_project(other@)
    }
}

/// The projection carries over exactly the two public fields of the
/// configuration it was derived from.
pub proof fn lemma_projection_copies_public_fields(c: ConfigView)
    ensures
        spec_project(c).max_backup_bytes == c.max_backup_bytes,
        spec_project(c).retention_days == c.retention_days,
{
}

/// The projection depends on nothing but the two public fields: two
/// configurations that agree on `max_backup_bytes` and `retention_days`
/// project to the same public value, whatever their `backup_dir` and
/// `io_threads` are.
pub proof fn lemma_projection_ignores_private_fields(a: ConfigView, b: ConfigView)
    requires
        a.max_backup_bytes == b.max_backup_bytes,
        a.retention_days == b.retention_days,
    ensures
        spec_project(a) == spec_project(b),
{
}

/// The serialized form of the public projection: a flat record with the
/// two field names rendered in lower camel case.
pub open spec fn json_view(p: ServerConfigPublic) -> Seq<char> {
    "{\"maxBackupBytes\":"@ + dec_rep(p.max_backup_bytes as nat) + ",\"retentionDays\":"@
        + dec_rep(p.retention_days as nat) + "}"@
}

impl ServerConfigPublic {
    /// Serializes the public projection as a flat record with
    /// lower-camel-case keys.
    pub fn to_json(&self) -> (r: String)
        ensures
            r@ == json_view(*self),
    {
        let mut r = String::from_str("{\"maxBackupBytes\":");
        push_dec_u64(&mut r, self.max_backup_bytes);
        r.append(",\"retentionDays\":");
        push_dec_u64(&mut r, self.retention_days as u64);
        r.append("}");
        proof {
            assert(r@ =~= json_view(*self));
        }
        r
    }
}

/// True when no character of `s` is an underscore.
pub open spec fn underscore_free(s: Seq<char>) -> bool {
    forall|i: int| 0 <= i < s.len() ==> #[trigger] s[i] != '_'
}

/// No character of the serialized projection is an underscore.
proof fn lemma_json_underscore_free(p: ServerConfigPublic)
    ensures
        underscore_free(json_view(p)),
{
    reveal_strlit("{\"maxBackupBytes\":");
    reveal_strlit(",\"retentionDays\":");
    reveal_strlit("}");
    lemma_dec_rep_digits(p.max_backup_bytes as nat);
    lemma_dec_rep_digits(p.retention_days as nat);
    assert forall|i: int| 0 <= i < json_view(p).len() implies #[trigger] json_view(p)[i]
        != '_' by {
        let s = json_view(p);
        let a = "{\"maxBackupBytes\":"@;
        let d1 = dec_rep(p.max_backup_bytes as nat);
        let b = ",\"retentionDays\":"@;
        let d2 = dec_rep(p.retention_days as nat);
        let c = "}"@;
        if i < a.len() {
            assert(s[i] == a[i]);
        } else if i < a.len() + d1.len() {
            assert(s[i] == d1[i - a.len()]);
            assert(is_digit(d1[i - a.len()]));
        } else if i < a.len() + d1.len() + b.len() {
            assert(s[i] == b[i - a.len() - d1.len()]);
        } else if i < a.len() + d1.len() + b.len() + d2.len() {
            assert(s[i] == d2[i - a.len() - d1.len() - b.len()]);
            assert(is_digit(d2[i - a.len() - d1.len() - b.len()]));
        } else {
            assert(s[i] == c[i - a.len() - d1.len() - b.len() - d2.len()]);
        }
    }
}

/// A sequence without underscores cannot contain a needle that has one.
proof fn lemma_underscore_free_excludes(s: Seq<char>, needle: Seq<char>, k: int)
    requires
        underscore_free(s),
        0 <= k < needle.len(),
        needle[k] == '_',
    ensures
        !contains_seq(s, needle),
{
    if contains_seq(s, needle) {
        let i = choose|i: int|
            0 <= i && i + needle.len() <= s.len() && #[trigger] s.subrange(i, i + needle.len())
                == needle;
        assert(s.subrange(i, i + needle.len())[k] == needle[k]);
        assert(s[i + k] == '_');
    }
}

/// The serialized projection never mentions the private field names: the
/// substrings `backup_dir` and `io_threads` do not occur in it, for any
/// configuration value.
pub proof fn lemma_serialized_projection_hides_private_fields(p: ServerConfigPublic)
    ensures
        !contains_seq(json_view(p), "backup_dir"@),
        !contains_seq(json_view(p), "io_threads"@),
{
    lemma_json_underscore_free(p);
    reveal_strlit("backup_dir");
    reveal_strlit("io_threads");
    assert("backup_dir"@[6] == '_');
    assert("io_threads"@[2] == '_');
    lemma_underscore_free_excludes(json_view(p), "backup_dir"@, 6);
    lemma_underscore_free_excludes(json_view(p), "io_threads"@, 2);
}

} // verus!
