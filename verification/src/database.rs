//! SQLite persistence settings with optional S3 backups.

use vstd::prelude::*;
use vstd::string::*;
use crate::text::{owned, chars_of};

verus! {

/// SQLite database configuration: path, WAL mode and an optional S3 backup.
#[derive(Debug, Clone)]
pub struct SqliteConfig {
    /// Filesystem path to the SQLite database file
    pub path: String,
    /// Enable Write-Ahead Logging (WAL) mode for better concurrency
    pub wal_mode: bool,
    /// Optional S3 backup configuration
    pub backup: Option<S3BackupConfig>,
}

/// The value WAL mode takes when a configuration leaves it out: enabled.
pub fn default_wal_mode() -> (r: bool)
    ensures
        r == true,
{
    true
}

/// The part of `s` after its last `sep`; all of `s` when `sep` does not occur.
pub open spec fn after_last(s: Seq<char>, sep: char) -> Seq<char>
    decreases s.len(),
{
    if s.len() == 0 {
        s
    } else if s.last() == sep {
        Seq::empty()
    } else {
        after_last(s.drop_last(), sep).push(s.last())
    }
}

/// Index just past the last `sep` in `s`, or 0 when `sep` does not occur.
spec fn start_after_last(s: Seq<char>, sep: char) -> int
    decreases s.len(),
{
    if s.len() == 0 {
        0
    } else if s.last() == sep {
        s.len() as int
    } else {
        start_after_last(s.drop_last(), sep)
    }
}

proof fn lemma_after_last(s: Seq<char>, sep: char)
    ensures
        0 <= start_after_last(s, sep) <= s.len(),
        after_last(s, sep) == s.subrange(start_after_last(s, sep), s.len() as int),
        forall|j: int| start_after_last(s, sep) <= j < s.len() ==> s[j] != sep,
        start_after_last(s, sep) > 0 ==> s[start_after_last(s, sep) - 1] == sep,
    decreases s.len(),
{
    if s.len() > 0 && s.last() != sep {
        lemma_after_last(s.drop_last(), sep);
        assert(after_last(s, sep) =~= s.subrange(start_after_last(s, sep), s.len() as int));
        assert forall|j: int| start_after_last(s, sep) <= j < s.len() implies s[j] != sep by {
            if j < s.len() - 1 {
                assert(s.drop_last()[j] == s[j]);
            }
        }
    } else if s.len() > 0 {
        assert(after_last(s, sep) =~= s.subrange(s.len() as int, s.len() as int));
    }
}

/// The filename is a suffix of the path holding no `/`, and it is the whole
/// path when the path holds none.
pub proof fn lemma_filename_is_last_segment(path: Seq<char>)
    ensures
        !after_last(path, '/').contains('/'),
        path.len() >= after_last(path, '/').len(),
        path.subrange(path.len() - after_last(path, '/').len(), path.len() as int) == after_last(
            path,
            '/',
        ),
        !path.contains('/') ==> after_last(path, '/') == path,
{
    lemma_after_last(path, '/');
    let k = start_after_last(path, '/');
    let name = after_last(path, '/');
    if name.contains('/') {
        let j = choose|j: int| 0 <= j < name.len() && name[j] == '/';
        assert(path[k + j] == '/');
    }
    if !path.contains('/') && k > 0 {
        assert(path[k - 1] == '/');
    }
    if !path.contains('/') {
        assert(path.subrange(k, path.len() as int) =~= path);
    }
}

impl SqliteConfig {
    /// Create a configuration for `path` with WAL mode on and no backup.
    pub fn with_path(path: &str) -> (r: Self)
        ensures
            r.path@ == path@,
            r.wal_mode,
            r.backup is None,
    {
        SqliteConfig { path: owned(path), wal_mode: true, backup: None }
    }

    /// Enable or disable WAL mode, leaving the rest unchanged.
    pub fn with_wal_mode(self, enabled: bool) -> (r: Self)
        ensures
            r == (SqliteConfig { wal_mode: enabled, ..self }),
    {
        let mut s = self;
        s.wal_mode = enabled;
        s
    }

    /// Set the S3 backup configuration, leaving the rest unchanged.
    pub fn with_backup(self, backup: S3BackupConfig) -> (r: Self)
        ensures
            r == (SqliteConfig { backup: Some(backup), ..self }),
    {
        let mut s = self;
        s.backup = Some(backup);
        s
    }

    /// The database filename: the part of the path after its last `/`.
    pub fn filename(&self) -> (r: Option<&str>)
        ensures
            r matches Some(name) && name@ == after_last(self.path@, '/'),
    {
        let cs = chars_of(self.path.as_str());
        let ghost s = self.path@;
        let mut i: usize = cs.len();
        while i > 0 && cs[i - 1] != '/'
            invariant
                cs@ == s,
                i <= cs.len(),
                forall|j: int| i <= j < s.len() ==> s[j] != '/',
            decreases i,
        {
            i = i - 1;
        }
        proof {
            lemma_after_last(s, '/');
            let k = start_after_last(s, '/');
            if k > i as int {
                assert(s[k - 1] == '/');
            }
            if (i as int) > k {
                assert(s[i - 1] == '/');
            }
        }
        Some(self.path.as_str().substring_char(i, cs.len()))
    }

    /// Whether an S3 backup is configured.
    pub fn has_backup(&self) -> (r: bool)
        ensures
            r == self.backup is Some,
    {
        self.backup.is_some()
    }
}

impl Default for SqliteConfig {
    fn default() -> (r: Self)
        ensures
            r.path@ == "/mnt/db/app.db"@,
            r.wal_mode,
            r.backup is None,
    {
        SqliteConfig { path: owned("/mnt/db/app.db"), wal_mode: true, backup: None }
    }
}

/// S3 backup configuration for the SQLite database.
#[derive(Debug, Clone)]
pub struct S3BackupConfig {
    /// S3 bucket name (without s3:// prefix)
    pub bucket: String,
    /// Prefix path within the bucket for backup objects
    pub prefix: Option<String>,
    /// Number of backup versions to retain
    pub retain_versions: u32,
    /// CloudWatch Events schedule expression for backup frequency
    pub schedule: String,
}

/// The number of backup versions kept when a configuration leaves it out.
pub fn default_retain_versions() -> (r: u32)
    ensures
        r == 7,
{
    7
}

/// The backup schedule used when a configuration leaves it out.
pub fn default_schedule() -> (r: String)
    ensures
        r@ == "rate(1 day)"@,
{
    owned("rate(1 day)")
}

/// The S3 location of the backups: `s3://bucket/prefix`, or `s3://bucket`
/// without a prefix.
pub open spec fn key_prefix(bucket: Seq<char>, prefix: Option<Seq<char>>) -> Seq<char> {
    match prefix {
        Some(p) => "s3://"@ + bucket + seq!['/'] + p,
        None => "s3://"@ + bucket,
    }
}

/// The view of an optional string.
pub open spec fn opt_view(o: Option<String>) -> Option<Seq<char>> {
    match o {
        Some(s) => Some(s@),
        None => None,
    }
}

impl S3BackupConfig {
    /// Create a backup configuration for `bucket` under `prefix`, keeping
    /// seven versions on a daily schedule.
    pub fn new(bucket: &str, prefix: &str) -> (r: Self)
        ensures
            r.bucket@ == bucket@,
            r.prefix matches Some(p) && p@ == prefix@,
            r.retain_versions == 7,
            r.schedule@ == "rate(1 day)"@,
    {
        S3BackupConfig {
            bucket: owned(bucket),
            prefix: Some(owned(prefix)),
            retain_versions: 7,
            schedule: owned("rate(1 day)"),
        }
    }

    /// Set the number of backup versions to retain, leaving the rest unchanged.
    pub fn with_retain_versions(self, count: u32) -> (r: Self)
        ensures
            r == (S3BackupConfig { retain_versions: count, ..self }),
    {
        let mut s = self;
        s.retain_versions = count;
        s
    }

    /// Set the backup schedule, leaving the rest unchanged.
    pub fn with_schedule(self, schedule: &str) -> (r: Self)
        ensures
            r.schedule@ == schedule@,
            r.bucket == self.bucket,
            r.prefix == self.prefix,
            r.retain_versions == self.retain_versions,
    {
        let mut s = self;
        s.schedule = owned(schedule);
        s
    }

    /// The full S3 key prefix of the backups.
    pub fn s3_key_prefix(&self) -> (r: String)
        ensures
            r@ == key_prefix(self.bucket@, opt_view(self.prefix)),
    {
        let mut s = owned("s3://");
        s.append(self.bucket.as_str());
        match &self.prefix {
            Some(p) => {
                s.push('/');
                s.append(p.as_str());
            },
            None => {},
        }
        s
    }
}

impl Default for S3BackupConfig {
    fn default() -> (r: Self)
        ensures
            r.bucket@ == "database-backups"@,
            r.prefix matches Some(p) && p@ == "sqlite/"@,
            r.retain_versions == 7,
            r.schedule@ == "rate(1 day)"@,
    {
        S3BackupConfig {
            bucket: owned("database-backups"),
            prefix: Some(owned("sqlite/")),
            retain_versions: 7,
            schedule: owned("rate(1 day)"),
        }
    }
}

} // verus!
