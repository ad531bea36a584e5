//! Sync configuration: where to sync from and to, how, and what to leave out.
use vstd::prelude::*;
use vstd::string::*;

use crate::path::{file_name, file_name_or_empty};
use crate::pattern::{glob_matches, glob_regex, regex_accepts, regex_finds};
use crate::text::{
    char_index, contains, contains_seq, find_char, is_prefix, parse_u16, parse_u16_spec,
    split_once, split_once_at, starts_with, strip_prefix_all, trim_start_all,
};

verus! {

/// A sync configuration. Paths are held as strings.
pub struct Config {
    /// Source directory to sync
    pub source: String,
    /// Destination (local path, s3://bucket, sftp://host)
    pub destination: String,
    /// Sync mode: bidirectional, push, pull
    pub mode: String,
    /// Files/directories to exclude
    pub exclude: Vec<String>,
    /// Conflict resolution strategy
    pub conflict_strategy: String,
    /// Enable compression for network transfers
    pub compression: bool,
    /// Number of concurrent transfers
    pub concurrency: usize,
    /// S3 configuration
    pub s3: Option<S3Config>,
    /// SFTP configuration
    pub sftp: Option<SftpConfig>,
    /// Backup settings
    pub backup: BackupConfig,
    /// Additional options: each key with its value written as TOML
    pub options: Vec<(String, String)>,
}

pub struct S3Config {
    pub region: String,
    pub access_key_id: String,
    pub secret_access_key: String,
    pub endpoint: Option<String>,
    pub bucket: String,
    pub prefix: Option<String>,
}

pub struct SftpConfig {
    pub host: String,
    pub port: u16,
    pub username: String,
    pub password: Option<String>,
    pub private_key: Option<String>,
    pub remote_path: String,
}

pub struct BackupConfig {
    pub enabled: bool,
    pub location: String,
    pub max_backups: usize,
    pub auto_cleanup: bool,
}

#[derive(Debug, Clone, Copy, PartialEq, Eq, Structural)]
pub enum DestinationType {
    Local,
    S3,
    Sftp,
}

/// The views of a list of strings.
pub open spec fn strings_view(v: Seq<String>) -> Seq<Seq<char>> {
    v.map_values(|s: String| s@)
}

/// What `Config::new` excludes.
pub open spec fn default_excludes() -> Seq<Seq<char>> {
    seq![
        ".git"@,
        ".synclite"@,
        "node_modules"@,
        "target"@,
        ".DS_Store"@,
        "*.tmp"@,
        "*.log"@,
    ]
}

pub open spec fn spec_default_backup_location() -> Seq<char> {
    ".synclite/backups"@
}

pub fn default_mode() -> (r: String)
    ensures
        r@ == "bidirectional"@,
{
    String::from_str("bidirectional")
}

pub fn default_conflict_strategy() -> (r: String)
    ensures
        r@ == "timestamp"@,
{
    String::from_str("timestamp")
}

pub fn default_compression() -> (r: bool)
    ensures
        r,
{
    true
}

pub fn default_concurrency() -> (r: usize)
    ensures
        r == 4,
{
    4
}

pub fn default_backup_enabled() -> (r: bool)
    ensures
        r,
{
    true
}

pub fn default_backup_location() -> (r: String)
    ensures
        r@ == spec_default_backup_location(),
{
    String::from_str(".synclite/backups")
}

pub fn default_max_backups() -> (r: usize)
    ensures
        r == 10,
{
    10
}

/// The configuration file used when none is named.
pub open spec fn default_config_file() -> Seq<char> {
    "synclite.toml"@
}

/// The configuration file to use: the one named, or `synclite.toml`.
pub fn config_file_path(given: Option<String>) -> (r: String)
    ensures
        r@ == match given {
            Some(p) => p@,
            None => default_config_file(),
        },
{
    match given {
        Some(p) => p,
        None => String::from_str("synclite.toml"),
    }
}

impl BackupConfig {
    pub open spec fn is_default(&self) -> bool {
        &&& self.enabled
        &&& self.location@ == spec_default_backup_location()
        &&& self.max_backups == 10
        &&& !self.auto_cleanup
    }
}

impl Default for BackupConfig {
    fn default() -> (r: Self)
        ensures
            r.is_default(),
    {
        BackupConfig {
            enabled: default_backup_enabled(),
            location: default_backup_location(),
            max_backups: default_max_backups(),
            auto_cleanup: false,
        }
    }
}

pub open spec fn s3_scheme() -> Seq<char> {
    "s3://"@
}

pub open spec fn sftp_scheme() -> Seq<char> {
    "sftp://"@
}

/// Bucket and key prefix of an `s3://bucket/prefix` destination.
pub open spec fn s3_dest_spec(dest: Seq<char>) -> Option<(Seq<char>, Seq<char>)> {
    if !is_prefix(s3_scheme(), dest) {
        None
    } else {
        let parts = split_once(strip_prefix_all(dest, s3_scheme()), '/');
        Some(
            (
                parts.0,
                match parts.1 {
                    Some(p) => p,
                    None => seq![],
                },
            ),
        )
    }
}

/// Host, port and path of an `sftp://host:port/path` destination. The port is
/// 22 when it is missing or is not a 16-bit number; the path is `/` followed
/// by what comes after the first `/` of the rest of the destination.
pub open spec fn sftp_dest_spec(dest: Seq<char>) -> Option<(Seq<char>, u16, Seq<char>)> {
    if !is_prefix(sftp_scheme(), dest) {
        None
    } else {
        let parts = split_once(strip_prefix_all(dest, sftp_scheme()), '/');
        let host_port = split_once(parts.0, ':');
        let port: u16 = match host_port.1 {
            Some(p) => match parse_u16_spec(p) {
                Some(v) => v,
                None => 22,
            },
            None => 22,
        };
        let path = match parts.1 {
            Some(p) => seq!['/'] + p,
            None => seq!['/'],
        };
        Some((host_port.0, port, path))
    }
}

/// Whether one exclude pattern covers `path`: the pattern occurs in the path,
/// or equals its file name, or contains `*` and, read as a wildcard, matches
/// the file name.
pub open spec fn pattern_excludes(path: Seq<char>, pattern: Seq<char>) -> bool {
    let name = file_name_or_empty(path);
    ||| contains_seq(path, pattern)
    ||| name == pattern
    ||| (char_index(pattern, '*') is Some && regex_accepts(glob_regex(pattern)) && regex_finds(
        glob_regex(pattern),
        name,
    ))
}

/// Whether some pattern of `patterns` covers `path`.
pub open spec fn excluded_by(patterns: Seq<Seq<char>>, path: Seq<char>) -> bool {
    exists|i: int| 0 <= i < patterns.len() && pattern_excludes(path, #[trigger] patterns[i])
}

/// No character of `s` is a separator or a colon.
pub open spec fn plain_name(s: Seq<char>) -> bool {
    forall|i: int| 0 <= i < s.len() ==> #[trigger] s[i] != '/' && s[i] != ':'
}

proof fn lemma_strip_once(d: Seq<char>, p: Seq<char>, rest: Seq<char>)
    requires
        p.len() > 0,
        d == p + rest,
        !is_prefix(p, rest),
    ensures
        strip_prefix_all(d, p) == rest,
{
    assert(d.subrange(0, p.len() as int) =~= p);
    assert(d.subrange(p.len() as int, d.len() as int) =~= rest);
    assert(strip_prefix_all(rest, p) == rest);
    assert(strip_prefix_all(d, p) == strip_prefix_all(rest, p));
}

proof fn lemma_split_at_first(s: Seq<char>, c: char, a: Seq<char>, b: Seq<char>)
    requires
        s == a + seq![c] + b,
        forall|i: int| 0 <= i < a.len() ==> a[i] != c,
    ensures
        split_once(s, c) == (a, Some(b)),
{
    assert(s[a.len() as int] == c);
    assert forall|j: int| 0 <= j < a.len() implies s[j] != c by {
        assert(s[j] == a[j]);
    }
    crate::text::lemma_char_index_found(s, c, a.len() as int);
    assert(s.subrange(0, a.len() as int) =~= a);
    assert(s.subrange(a.len() as int + 1, s.len() as int) =~= b);
}

proof fn lemma_split_absent(s: Seq<char>, c: char)
    requires
        forall|i: int| 0 <= i < s.len() ==> s[i] != c,
    ensures
        split_once(s, c) == (s, None::<Seq<char>>),
{
    crate::text::lemma_char_index_absent(s, c);
}

/// An S3 destination reads back as the bucket and prefix it was written
/// from, for a bucket name without separators or colons.
pub proof fn law_s3_destination_round_trip(bucket: Seq<char>, prefix: Seq<char>)
    requires
        plain_name(bucket),
    ensures
        s3_dest_spec(s3_scheme() + bucket + seq!['/'] + prefix) == Some((bucket, prefix)),
        s3_dest_spec(s3_scheme() + bucket) == Some((bucket, Seq::<char>::empty())),
{
    reveal_strlit("s3://");
    let sch = s3_scheme();
    assert(sch =~= seq!['s', '3', ':', '/', '/']);
    let rest = bucket + seq!['/'] + prefix;
    let d = sch + rest;
    assert(d == s3_scheme() + bucket + seq!['/'] + prefix) by {
        assert(d =~= s3_scheme() + bucket + seq!['/'] + prefix);
    }
    assert(is_prefix(sch, d)) by {
        assert(d.subrange(0, 5) =~= sch);
    }
    assert(!is_prefix(sch, rest)) by {
        if is_prefix(sch, rest) {
            let k: int = if bucket.len() < 2 { bucket.len() as int } else { 2 };
            assert(rest.subrange(0, 5)[k] == sch[k]);
            if bucket.len() > 2 {
                assert(rest[2] == bucket[2]);
            } else {
                assert(rest[bucket.len() as int] == '/');
            }
        }
    }
    lemma_strip_once(d, sch, rest);
    lemma_split_at_first(rest, '/', bucket, prefix);

    let d2 = sch + bucket;
    assert(is_prefix(sch, d2)) by {
        assert(d2.subrange(0, 5) =~= sch);
    }
    assert(!is_prefix(sch, bucket)) by {
        if is_prefix(sch, bucket) {
            assert(bucket.subrange(0, 5)[2] == sch[2]);
            assert(bucket[2] == ':');
        }
    }
    lemma_strip_once(d2, sch, bucket);
    lemma_split_absent(bucket, '/');
}

/// An SFTP destination reads back as the host, port and path it was written
/// from, for a host name without separators or colons; the path comes back
/// with its leading `/`.
pub proof fn law_sftp_destination_round_trip(host: Seq<char>, port: u16, path: Seq<char>)
    requires
        plain_name(host),
    ensures
        sftp_dest_spec(
            sftp_scheme() + host + seq![':'] + crate::text::decimal(port as nat) + seq!['/'] + path,
        ) == Some((host, port, seq!['/'] + path)),
{
    reveal_strlit("sftp://");
    let sch = sftp_scheme();
    assert(sch =~= seq!['s', 'f', 't', 'p', ':', '/', '/']);
    let dec = crate::text::decimal(port as nat);
    crate::text::law_decimal_parses_back(port);
    crate::text::lemma_decimal_digits(port as nat);
    let host_port = host + seq![':'] + dec;
    let rest = host_port + seq!['/'] + path;
    let d = sch + rest;
    assert(d =~= sftp_scheme() + host + seq![':'] + dec + seq!['/'] + path);
    assert(is_prefix(sch, d)) by {
        assert(d.subrange(0, 7) =~= sch);
    }
    assert(!is_prefix(sch, rest)) by {
        if is_prefix(sch, rest) {
            let w = rest.subrange(0, 7);
            if host.len() > 4 {
                assert(w[4] == host[4]);
            } else if host.len() == 4 {
                assert(w[5] == dec[0]);
                assert(crate::text::is_digit(dec[0]));
            } else {
                assert(w[host.len() as int] == ':');
            }
        }
    }
    lemma_strip_once(d, sch, rest);
    assert forall|i: int| 0 <= i < host_port.len() implies host_port[i] != '/' by {
        if i < host.len() {
            assert(host_port[i] == host[i]);
        } else if i > host.len() {
            assert(host_port[i] == dec[i - host.len() - 1]);
            assert(crate::text::is_digit(dec[i - host.len() - 1]));
        }
    }
    lemma_split_at_first(rest, '/', host_port, path);
    lemma_split_at_first(host_port, ':', host, dec);
}

proof fn lemma_char_index_first(s: Seq<char>, c: char)
    ensures
        match char_index(s, c) {
            Some(i) => i < s.len() && s[i as int] == c && forall|j: int| 0 <= j < i ==> s[j] != c,
            None => forall|j: int| 0 <= j < s.len() ==> s[j] != c,
        },
    decreases s.len(),
{
    if s.len() > 0 && s[0] != c {
        let t = s.drop_first();
        lemma_char_index_first(t, c);
        assert forall|j: int| 1 <= j < s.len() implies s[j] == t[j - 1] by {}
    }
}

/// The part before the first `c` holds no `c`.
proof fn lemma_split_head_free(s: Seq<char>, c: char)
    ensures
        forall|j: int| 0 <= j < split_once(s, c).0.len() ==> #[trigger] split_once(s, c).0[j] != c,
{
    lemma_char_index_first(s, c);
}

/// An SFTP destination without a port reads back as its host, port 22 and
/// its path with a leading `/`, for a host name without separators or colons:
/// the path never ends up in the host.
pub proof fn law_sftp_destination_without_port(host: Seq<char>, path: Seq<char>)
    requires
        plain_name(host),
    ensures
        sftp_dest_spec(sftp_scheme() + host + seq!['/'] + path) == Some((host, 22u16, seq!['/'] + path)),
        sftp_dest_spec(sftp_scheme() + host) == Some((host, 22u16, seq!['/'])),
{
    reveal_strlit("sftp://");
    let sch = sftp_scheme();
    assert(sch =~= seq!['s', 'f', 't', 'p', ':', '/', '/']);
    let rest = host + seq!['/'] + path;
    let d = sch + rest;
    assert(d =~= sftp_scheme() + host + seq!['/'] + path);
    assert(is_prefix(sch, d)) by {
        assert(d.subrange(0, 7) =~= sch);
    }
    assert(!is_prefix(sch, rest)) by {
        if is_prefix(sch, rest) {
            let w = rest.subrange(0, 7);
            if host.len() > 4 {
                assert(w[4] == host[4]);
            } else {
                assert(w[host.len() as int] == '/');
            }
        }
    }
    lemma_strip_once(d, sch, rest);
    lemma_split_at_first(rest, '/', host, path);
    lemma_split_absent(host, ':');

    let d2 = sch + host;
    assert(is_prefix(sch, d2)) by {
        assert(d2.subrange(0, 7) =~= sch);
    }
    assert(!is_prefix(sch, host)) by {
        if is_prefix(sch, host) {
            assert(host.subrange(0, 7)[4] == sch[4]);
            assert(host[4] == ':');
        }
    }
    lemma_strip_once(d2, sch, host);
    lemma_split_absent(host, '/');
}

/// Whatever the destination, the SFTP host never holds a separator or a
/// colon (the path and the port are split off it), and the path always
/// starts with `/`.
pub proof fn law_sftp_host_is_plain(dest: Seq<char>)
    ensures
        sftp_dest_spec(dest) matches Some((h, _, p)) ==> plain_name(h) && p.len() > 0 && p[0] == '/',
{
    if is_prefix(sftp_scheme(), dest) {
        let parts = split_once(strip_prefix_all(dest, sftp_scheme()), '/');
        let host_port = split_once(parts.0, ':');
        lemma_split_head_free(strip_prefix_all(dest, sftp_scheme()), '/');
        lemma_split_head_free(parts.0, ':');
        lemma_char_index_first(parts.0, ':');
        assert forall|i: int| 0 <= i < host_port.0.len() implies #[trigger] host_port.0[i] != '/'
            && host_port.0[i] != ':' by {
            assert(host_port.0[i] == parts.0[i]);
        }
    }
}

/// A copy of a list of strings.
pub fn copy_strings(v: &Vec<String>) -> (r: Vec<String>)
    ensures
        strings_view(r@) == strings_view(v@),
        r@.len() == v@.len(),
{
    let mut r: Vec<String> = Vec::new();
    let mut i: usize = 0;
    while i < v.len()
        invariant
            i <= v@.len(),
            r@.len() == i,
            forall|j: int| 0 <= j < i ==> r@[j]@ == v@[j]@,
        decreases v@.len() - i,
    {
        r.push(v[i].clone());
        i = i + 1;
    }
    assert(strings_view(r@) =~= strings_view(v@));
    r
}

/// A copy of an optional string.
pub fn copy_opt_string(s: &Option<String>) -> (r: Option<String>)
    ensures
        r is Some <==> s is Some,
        r matches Some(x) ==> x@ == s->0@,
{
    match s {
        Some(x) => Some(x.clone()),
        None => None,
    }
}

impl S3Config {
    pub open spec fn same_as(&self, other: &S3Config) -> bool {
        &&& self.region@ == other.region@
        &&& self.access_key_id@ == other.access_key_id@
        &&& self.secret_access_key@ == other.secret_access_key@
        &&& (self.endpoint is Some <==> other.endpoint is Some)
        &&& (self.endpoint is Some ==> self.endpoint->0@ == other.endpoint->0@)
        &&& self.bucket@ == other.bucket@
        &&& (self.prefix is Some <==> other.prefix is Some)
        &&& (self.prefix is Some ==> self.prefix->0@ == other.prefix->0@)
    }

    /// A copy of this S3 configuration.
    pub fn copy(&self) -> (r: S3Config)
        ensures
            r.same_as(self),
    {
        S3Config {
            region: self.region.clone(),
            access_key_id: self.access_key_id.clone(),
            secret_access_key: self.secret_access_key.clone(),
            endpoint: copy_opt_string(&self.endpoint),
            bucket: self.bucket.clone(),
            prefix: copy_opt_string(&self.prefix),
        }
    }
}

impl SftpConfig {
    pub open spec fn same_as(&self, other: &SftpConfig) -> bool {
        &&& self.host@ == other.host@
        &&& self.port == other.port
        &&& self.username@ == other.username@
        &&& (self.password is Some <==> other.password is Some)
        &&& (self.password is Some ==> self.password->0@ == other.password->0@)
        &&& (self.private_key is Some <==> other.private_key is Some)
        &&& (self.private_key is Some ==> self.private_key->0@ == other.private_key->0@)
        &&& self.remote_path@ == other.remote_path@
    }

    /// A copy of this SFTP configuration.
    pub fn copy(&self) -> (r: SftpConfig)
        ensures
            r.same_as(self),
    {
        SftpConfig {
            host: self.host.clone(),
            port: self.port,
            username: self.username.clone(),
            password: copy_opt_string(&self.password),
            private_key: copy_opt_string(&self.private_key),
            remote_path: self.remote_path.clone(),
        }
    }
}

impl BackupConfig {
    pub open spec fn same_as(&self, other: &BackupConfig) -> bool {
        &&& self.enabled == other.enabled
        &&& self.location@ == other.location@
        &&& self.max_backups == other.max_backups
        &&& self.auto_cleanup == other.auto_cleanup
    }

    /// A copy of these backup settings.
    pub fn copy(&self) -> (r: BackupConfig)
        ensures
            r.same_as(self),
    {
        BackupConfig {
            enabled: self.enabled,
            location: self.location.clone(),
            max_backups: self.max_backups,
            auto_cleanup: self.auto_cleanup,
        }
    }
}

impl Config {
    /// A configuration with the given source, destination and mode, and
    /// defaults for everything else.
    pub fn new(source: String, destination: String, mode: String) -> (r: Config)
        ensures
            r.source@ == source@,
            r.destination@ == destination@,
            r.mode@ == mode@,
            strings_view(r.exclude@) == default_excludes(),
            r.conflict_strategy@ == "timestamp"@,
            r.compression,
            r.concurrency == 4,
            r.s3 is None,
            r.sftp is None,
            r.backup.is_default(),
            r.options@.len() == 0,
    {
        let mut exclude: Vec<String> = Vec::new();
        exclude.push(String::from_str(".git"));
        exclude.push(String::from_str(".synclite"));
        exclude.push(String::from_str("node_modules"));
        exclude.push(String::from_str("target"));
        exclude.push(String::from_str(".DS_Store"));
        exclude.push(String::from_str("*.tmp"));
        exclude.push(String::from_str("*.log"));
        assert(strings_view(exclude@) =~= default_excludes());
        Config {
            source,
            destination,
            mode,
            exclude,
            conflict_strategy: default_conflict_strategy(),
            compression: default_compression(),
            concurrency: default_concurrency(),
            s3: None,
            sftp: None,
            backup: BackupConfig::default(),
            options: Vec::new(),
        }
    }

    /// Whether this configuration holds the same values as `other`.
    pub open spec fn same_as(&self, other: &Config) -> bool {
        &&& self.source@ == other.source@
        &&& self.destination@ == other.destination@
        &&& self.mode@ == other.mode@
        &&& strings_view(self.exclude@) == strings_view(other.exclude@)
        &&& self.conflict_strategy@ == other.conflict_strategy@
        &&& self.compression == other.compression
        &&& self.concurrency == other.concurrency
        &&& (self.s3 is Some <==> other.s3 is Some)
        &&& (self.s3 is Some ==> self.s3->0.same_as(&other.s3->0))
        &&& (self.sftp is Some <==> other.sftp is Some)
        &&& (self.sftp is Some ==> self.sftp->0.same_as(&other.sftp->0))
        &&& self.backup.same_as(&other.backup)
        &&& self.options@.len() == other.options@.len()
        &&& forall|i: int|
            0 <= i < self.options@.len() ==> #[trigger] self.options@[i].0@ == other.options@[i].0@
                && self.options@[i].1@ == other.options@[i].1@
    }

    /// A copy of this configuration.
    pub fn copy(&self) -> (r: Config)
        ensures
            r.same_as(self),
    {
        let mut options: Vec<(String, String)> = Vec::new();
        let mut i: usize = 0;
        while i < self.options.len()
            invariant
                i <= self.options@.len(),
                options@.len() == i,
                forall|j: int|
                    0 <= j < i ==> #[trigger] options@[j].0@ == self.options@[j].0@
                        && options@[j].1@ == self.options@[j].1@,
            decreases self.options@.len() - i,
        {
            let key = self.options[i].0.clone();
            let value = self.options[i].1.clone();
            options.push((key, value));
            i = i + 1;
        }
        let s3 = match &self.s3 {
            Some(c) => Some(c.copy()),
            None => None,
        };
        let sftp = match &self.sftp {
            Some(c) => Some(c.copy()),
            None => None,
        };
        Config {
            source: self.source.clone(),
            destination: self.destination.clone(),
            mode: self.mode.clone(),
            exclude: copy_strings(&self.exclude),
            conflict_strategy: self.conflict_strategy.clone(),
            compression: self.compression,
            concurrency: self.concurrency,
            s3,
            sftp,
            backup: self.backup.copy(),
            options,
        }
    }

    /// Check if destination is S3
    pub fn is_s3(&self) -> (b: bool)
        ensures
            b == is_prefix(s3_scheme(), self.destination@),
    {
        starts_with(self.destination.as_str(), "s3://")
    }

    /// Check if destination is SFTP
    pub fn is_sftp(&self) -> (b: bool)
        ensures
            b == is_prefix(sftp_scheme(), self.destination@),
    {
        starts_with(self.destination.as_str(), "sftp://")
    }

    /// Get destination type
    pub fn destination_type(&self) -> (t: DestinationType)
        ensures
            t == (if is_prefix(s3_scheme(), self.destination@) {
                DestinationType::S3
            } else if is_prefix(sftp_scheme(), self.destination@) {
                DestinationType::Sftp
            } else {
                DestinationType::Local
            }),
    {
        if self.is_s3() {
            DestinationType::S3
        } else if self.is_sftp() {
            DestinationType::Sftp
        } else {
            DestinationType::Local
        }
    }

    /// Parse S3 destination into bucket and prefix
    pub fn parse_s3_dest(&self) -> (r: Option<(String, String)>)
        ensures
            match r {
                Some((bucket, prefix)) => s3_dest_spec(self.destination@) == Some(
                    (bucket@, prefix@),
                ),
                None => s3_dest_spec(self.destination@) is None,
            },
    {
        if !self.is_s3() {
            return None;
        }
        proof {
            reveal_strlit("s3://");
        }
        let dest = trim_start_all(self.destination.as_str(), "s3://");
        let (bucket, rest) = split_once_at(dest.as_str(), '/');
        let prefix = match rest {
            Some(p) => p,
            None => String::new(),
        };
        Some((bucket, prefix))
    }

    /// Parse SFTP destination
    pub fn parse_sftp_dest(&self) -> (r: Option<(String, u16, String)>)
        ensures
            match r {
                Some((host, port, path)) => sftp_dest_spec(self.destination@) == Some(
                    (host@, port, path@),
                ),
                None => sftp_dest_spec(self.destination@) is None,
            },
    {
        if !self.is_sftp() {
            return None;
        }
        proof {
            reveal_strlit("sftp://");
            reveal_strlit("/");
        }
        let dest = trim_start_all(self.destination.as_str(), "sftp://");
        let (host_port, rest) = split_once_at(dest.as_str(), '/');
        let (host, port_text) = split_once_at(host_port.as_str(), ':');
        let port: u16 = match port_text {
            Some(p) => match parse_u16(p.as_str()) {
                Some(v) => v,
                None => 22,
            },
            None => 22,
        };
        let path = match rest {
            Some(p) => {
                let mut s = String::from_str("/");
                s.append(p.as_str());
                s
            },
            None => String::from_str("/"),
        };
        Some((host, port, path))
    }

    /// Check if a path should be excluded
    pub fn should_exclude(&self, path: &str) -> (b: bool)
        ensures
            b == excluded_by(strings_view(self.exclude@), path@),
    {
        let name = match file_name(path) {
            Some(n) => n,
            None => String::new(),
        };
        assert(name@ == file_name_or_empty(path@));
        let mut i: usize = 0;
        while i < self.exclude.len()
            invariant
                i <= self.exclude@.len(),
                name@ == file_name_or_empty(path@),
                forall|j: int|
                    0 <= j < i ==> !pattern_excludes(path@, #[trigger] self.exclude@[j]@),
            decreases self.exclude@.len() - i,
        {
            let pattern = &self.exclude[i];
            // Check exact match
            if contains(path, pattern.as_str()) || name == *pattern {
                assert(strings_view(self.exclude@)[i as int] == pattern@);
                return true;
            }
            // Check glob pattern (simple implementation)
            if find_char(pattern.as_str(), '*').is_some() {
                if glob_matches(pattern.as_str(), name.as_str()) {
                    assert(strings_view(self.exclude@)[i as int] == pattern@);
                    return true;
                }
            }
            i = i + 1;
        }
        assert forall|j: int|
            0 <= j < strings_view(self.exclude@).len() implies !pattern_excludes(
            path@,
            #[trigger] strings_view(self.exclude@)[j],
        ) by {
            assert(strings_view(self.exclude@)[j] == self.exclude@[j]@);
        }
        false
    }
}

} // verus!
