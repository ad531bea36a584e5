//! Backup bookkeeping: names and locations of backups, which files go into
//! one, the newest-first order of the backup history, and which old backups
//! a cleanup removes.
use vstd::prelude::*;
use vstd::string::*;

use crate::config::{excluded_by, strings_view, Config};
use crate::path::{join, join_spec, path_starts_with, starts_with_path};
use crate::text::same_text;

verus! {

/// Backup metadata. `timestamp` is the creation time in nanoseconds since the
/// Unix epoch.
pub struct BackupMetadata {
    pub name: String,
    pub timestamp: i128,
    pub compressed: bool,
    pub tag: Option<String>,
}

impl BackupMetadata {
    /// Whether this backup carries the tag `id`.
    pub fn has_tag(&self, id: &str) -> (b: bool)
        ensures
            b == (self.tag matches Some(t) && t@ == id@),
    {
        match &self.tag {
            Some(t) => same_text(t.as_str(), id),
            None => false,
        }
    }
}

/// The name of a backup: its timestamp, then `_` and the tag when there is one.
pub open spec fn backup_name_spec(timestamp: Seq<char>, tag: Option<Seq<char>>) -> Seq<char> {
    match tag {
        Some(t) => timestamp + seq!['_'] + t,
        None => timestamp,
    }
}

/// The file or directory name that holds a backup's data.
pub open spec fn data_name(name: Seq<char>, compressed: bool) -> Seq<char> {
    if compressed {
        name + ".tar.gz"@
    } else {
        name
    }
}

/// Where a restore looks for a backup named `id`, and where it restores to.
pub struct RestoreTargets {
    /// The compressed archive `id.tar.gz` in the backup directory.
    pub archive: String,
    /// The backup directory `id` in the backup directory.
    pub directory: String,
    /// Where the files go.
    pub destination: String,
}

/// Backup `m` carries the tag `id`.
pub open spec fn tagged_with(m: BackupMetadata, id: Seq<char>) -> bool {
    m.tag matches Some(t) && t@ == id
}

/// Backup `ms[i]` is the first of `ms` that carries the tag `id`.
pub open spec fn first_tagged(ms: Seq<BackupMetadata>, id: Seq<char>, i: int) -> bool {
    &&& 0 <= i < ms.len()
    &&& tagged_with(ms[i], id)
    &&& forall|k: int| 0 <= k < i ==> !tagged_with(#[trigger] ms[k], id)
}

/// What a restore reads its files from.
#[derive(Debug, Clone, PartialEq)]
pub enum RestoreSource {
    /// A compressed archive to unpack.
    Archive(String),
    /// A backup directory to copy.
    Directory(String),
}

/// Why a restore cannot start.
#[derive(Debug, Clone, PartialEq)]
pub enum RestoreError {
    /// No backup is named or tagged with this identifier.
    NotFound(String),
}

impl RestoreError {
    pub fn message(&self) -> (r: String)
        ensures
            match self {
                RestoreError::NotFound(id) => r@ == "Backup not found: "@ + id@,
            },
    {
        match self {
            RestoreError::NotFound(id) => {
                let mut m = String::from_str("Backup not found: ");
                m.append(id.as_str());
                m
            },
        }
    }
}

/// Backup manager
pub struct BackupManager {
    config: Config,
}

impl BackupManager {
    pub closed spec fn config_spec(&self) -> Config {
        self.config
    }

    /// The directory that holds the backups: the backup location under the source.
    pub open spec fn backup_dir_spec(&self) -> Seq<char> {
        join_spec(self.config_spec().source@, self.config_spec().backup.location@)
    }

    pub fn new(config: Config) -> (r: BackupManager)
        ensures
            r.config_spec() == config,
    {
        BackupManager { config }
    }

    pub fn config(&self) -> (r: &Config)
        ensures
            *r == self.config_spec(),
    {
        &self.config
    }

    pub fn backup_dir(&self) -> (r: String)
        ensures
            r@ == self.backup_dir_spec(),
    {
        join(self.config.source.as_str(), self.config.backup.location.as_str())
    }

    /// The name of a new backup made at `timestamp`, with an optional tag.
    pub fn backup_name(timestamp: &str, tag: &Option<String>) -> (r: String)
        ensures
            r@ == backup_name_spec(
                timestamp@,
                match tag {
                    Some(t) => Some(t@),
                    None => None,
                },
            ),
    {
        let mut name = String::from_str(timestamp);
        match tag {
            Some(t) => {
                name.append("_");
                name.append(t.as_str());
                proof {
                    reveal_strlit("_");
                }
            },
            None => {},
        }
        name
    }

    /// Where the data of backup `name` goes: `name.tar.gz` when compressed,
    /// the directory `name` otherwise, in the backup directory.
    pub fn backup_path(&self, name: &str, compressed: bool) -> (r: String)
        ensures
            r@ == join_spec(self.backup_dir_spec(), data_name(name@, compressed)),
    {
        let dir = self.backup_dir();
        let mut file = String::from_str(name);
        if compressed {
            file.append(".tar.gz");
        }
        join(dir.as_str(), file.as_str())
    }

    /// Where the metadata of backup `name` is kept: `name.json` in the backup directory.
    pub fn metadata_path(&self, name: &str) -> (r: String)
        ensures
            r@ == join_spec(self.backup_dir_spec(), name@ + ".json"@),
    {
        let dir = self.backup_dir();
        let mut file = String::from_str(name);
        file.append(".json");
        join(dir.as_str(), file.as_str())
    }

    /// Where the data of the backup that `meta` describes lies.
    pub fn data_path(&self, meta: &BackupMetadata) -> (r: String)
        ensures
            r@ == join_spec(self.backup_dir_spec(), data_name(meta.name@, meta.compressed)),
    {
        self.backup_path(meta.name.as_str(), meta.compressed)
    }

    /// Whether a walked path is left out of a backup: an excluded path, or one
    /// inside the backup directory itself.
    pub fn leaves_out(&self, path: &str) -> (b: bool)
        ensures
            b == (excluded_by(strings_view(self.config_spec().exclude@), path@) || path_starts_with(
                path@,
                self.backup_dir_spec(),
            )),
    {
        if self.config.should_exclude(path) {
            return true;
        }
        let dir = self.backup_dir();
        starts_with_path(path, dir.as_str())
    }

    /// Where a restore of `backup_id` looks and where it writes: to `dest`
    /// when given, otherwise back into the source.
    pub fn restore_targets(&self, backup_id: &str, dest: Option<String>) -> (r: RestoreTargets)
        ensures
            r.archive@ == join_spec(self.backup_dir_spec(), backup_id@ + ".tar.gz"@),
            r.directory@ == join_spec(self.backup_dir_spec(), backup_id@),
            r.destination@ == match dest {
                Some(d) => d@,
                None => self.config_spec().source@,
            },
    {
        let dir = self.backup_dir();
        let mut archive_name = String::from_str(backup_id);
        archive_name.append(".tar.gz");
        let destination = match dest {
            Some(d) => d,
            None => self.config.source.clone(),
        };
        RestoreTargets {
            archive: join(dir.as_str(), archive_name.as_str()),
            directory: join(dir.as_str(), backup_id),
            destination,
        }
    }

    /// Where a restore of `backup_id` reads from, given whether the archive
    /// and the directory of `restore_targets` exist and, for when neither
    /// does, the recorded backups in the order they were found: the archive,
    /// else the directory, else the data of the first backup tagged
    /// `backup_id`; with none of these the backup is not found.
    pub fn restore_source(
        &self,
        backup_id: &str,
        archive_exists: bool,
        directory_exists: bool,
        records: &Vec<BackupMetadata>,
    ) -> (r: Result<RestoreSource, RestoreError>)
        ensures
            archive_exists ==> (r matches Ok(RestoreSource::Archive(p)) && p@ == join_spec(
                self.backup_dir_spec(),
                backup_id@ + ".tar.gz"@,
            )),
            !archive_exists && directory_exists ==> (r matches Ok(RestoreSource::Directory(p))
                && p@ == join_spec(self.backup_dir_spec(), backup_id@)),
            !archive_exists && !directory_exists ==> match r {
                Ok(src) => exists|i: int|
                    first_tagged(records@, backup_id@, i) && match src {
                        RestoreSource::Archive(p) => records@[i].compressed && p@ == join_spec(
                            self.backup_dir_spec(),
                            data_name(records@[i].name@, true),
                        ),
                        RestoreSource::Directory(p) => !records@[i].compressed && p@ == join_spec(
                            self.backup_dir_spec(),
                            data_name(records@[i].name@, false),
                        ),
                    },
                Err(RestoreError::NotFound(id)) => id@ == backup_id@ && forall|i: int|
                    0 <= i < records@.len() ==> !tagged_with(#[trigger] records@[i], backup_id@),
            },
    {
        let dir = self.backup_dir();
        if archive_exists {
            let mut archive_name = String::from_str(backup_id);
            archive_name.append(".tar.gz");
            return Ok(RestoreSource::Archive(join(dir.as_str(), archive_name.as_str())));
        }
        if directory_exists {
            return Ok(RestoreSource::Directory(join(dir.as_str(), backup_id)));
        }
        let mut i: usize = 0;
        while i < records.len()
            invariant
                !archive_exists && !directory_exists,
                i <= records@.len(),
                forall|k: int| 0 <= k < i ==> !tagged_with(#[trigger] records@[k], backup_id@),
            decreases records@.len() - i,
        {
            if records[i].has_tag(backup_id) {
                let p = self.data_path(&records[i]);
                assert(first_tagged(records@, backup_id@, i as int));
                if records[i].compressed {
                    return Ok(RestoreSource::Archive(p));
                } else {
                    return Ok(RestoreSource::Directory(p));
                }
            }
            i = i + 1;
        }
        Err(RestoreError::NotFound(String::from_str(backup_id)))
    }

    /// Whether old backups are removed after each new one.
    pub fn cleans_up(&self) -> (b: bool)
        ensures
            b == self.config_spec().backup.auto_cleanup,
    {
        self.config.backup.auto_cleanup
    }

    /// Which backups a cleanup removes, given their timestamps: the ones
    /// beyond the configured number of newest backups.
    pub fn backups_to_remove(&self, timestamps: &Vec<i128>) -> (r: Vec<usize>)
        ensures
            exists|o: Seq<usize>|
                is_newest_first(timestamps@, o) && r@ == beyond_newest(
                    o,
                    self.config_spec().backup.max_backups,
                ),
    {
        let order = newest_first_order(timestamps);
        keep_newest(&order, self.config.backup.max_backups)
    }
}

/// Backup `a` is listed before backup `b`: it is newer, or as new and listed
/// earlier.
pub open spec fn listed_before(ts: Seq<i128>, a: int, b: int) -> bool {
    ts[a] > ts[b] || (ts[a] == ts[b] && a < b)
}

/// `o` lists every backup exactly once, newest first; backups made at the
/// same time keep their given order.
pub open spec fn is_newest_first(ts: Seq<i128>, o: Seq<usize>) -> bool {
    &&& o.len() == ts.len()
    &&& forall|k: int| 0 <= k < o.len() ==> (#[trigger] o[k]) < ts.len()
    &&& forall|k: int, m: int|
        0 <= k < m < o.len() ==> listed_before(ts, #[trigger] o[k] as int, #[trigger] o[m] as int)
}

/// The entries of `o` after its first `keep`.
pub open spec fn beyond_newest(o: Seq<usize>, keep: usize) -> Seq<usize> {
    if o.len() > keep {
        o.skip(keep as int)
    } else {
        seq![]
    }
}

/// The backups in newest-first order, given their timestamps (as a stable
/// sort by timestamp, newest first, lists them).
pub fn newest_first_order(ts: &Vec<i128>) -> (o: Vec<usize>)
    ensures
        is_newest_first(ts@, o@),
{
    let n = ts.len();
    let mut o: Vec<usize> = Vec::new();
    let mut i: usize = 0;
    while i < n
        invariant
            n == ts@.len(),
            i <= n,
            o@.len() == i,
            forall|k: int| 0 <= k < o@.len() ==> (#[trigger] o@[k]) < i,
            forall|k: int, m: int|
                0 <= k < m < o@.len() ==> listed_before(
                    ts@,
                    #[trigger] o@[k] as int,
                    #[trigger] o@[m] as int,
                ),
        decreases n - i,
    {
        // position of the first listed backup older than backup i
        let mut pos: usize = 0;
        while pos < o.len() && ts[o[pos]] >= ts[i]
            invariant
                n == ts@.len(),
                i < n,
                pos <= o@.len(),
                forall|k: int| 0 <= k < o@.len() ==> (#[trigger] o@[k]) < i,
                forall|k: int| 0 <= k < pos ==> ts@[#[trigger] o@[k] as int] >= ts@[i as int],
            decreases o@.len() - pos,
        {
            pos = pos + 1;
        }
        let ghost before = o@;
        proof {
            // everything from pos on is older than backup i
            assert forall|k: int| pos <= k < before.len() implies ts@[#[trigger] before[k] as int]
                < ts@[i as int] by {
                if k > pos {
                    assert(listed_before(ts@, before[pos as int] as int, before[k] as int));
                }
            }
        }
        o.insert(pos, i);
        assert(o@ == before.insert(pos as int, i));
        assert forall|k: int, m: int| 0 <= k < m < o@.len() implies listed_before(
            ts@,
            #[trigger] o@[k] as int,
            #[trigger] o@[m] as int,
        ) by {
            if k < pos && m < pos {
                assert(o@[k] == before[k] && o@[m] == before[m]);
            } else if k < pos && m == pos {
                assert(o@[k] == before[k]);
                assert(ts@[before[k] as int] >= ts@[i as int]);
            } else if k < pos {
                assert(o@[k] == before[k] && o@[m] == before[m - 1]);
            } else if k == pos {
                assert(o@[m] == before[m - 1]);
                assert(ts@[before[m - 1] as int] < ts@[i as int]);
            } else {
                assert(o@[k] == before[k - 1] && o@[m] == before[m - 1]);
            }
        }
        assert forall|k: int| 0 <= k < o@.len() implies (#[trigger] o@[k]) < i + 1 by {
            if k < pos {
                assert(o@[k] == before[k]);
            } else if k > pos {
                assert(o@[k] == before[k - 1]);
            }
        }
        i = i + 1;
    }
    o
}

/// The entries of `order` after its first `keep` (none when there are no more).
pub fn keep_newest(order: &Vec<usize>, keep: usize) -> (r: Vec<usize>)
    ensures
        r@ == beyond_newest(order@, keep),
{
    let mut r: Vec<usize> = Vec::new();
    if order.len() > keep {
        let mut i: usize = keep;
        while i < order.len()
            invariant
                keep <= i <= order@.len(),
                r@ == order@.subrange(keep as int, i as int),
            decreases order@.len() - i,
        {
            r.push(order[i]);
            assert(r@ =~= order@.subrange(keep as int, i + 1));
            i = i + 1;
        }
    }
    assert(beyond_newest(order@, keep) =~= r@);
    r
}

/// A cleanup keeps the newest backups: every backup it removes is older than,
/// or as new as and listed after, every backup it keeps; and it keeps as many
/// as the limit allows.
pub proof fn law_cleanup_removes_only_oldest(ts: Seq<i128>, o: Seq<usize>, keep: usize)
    requires
        is_newest_first(ts, o),
    ensures
        beyond_newest(o, keep).len() == if ts.len() > keep {
            ts.len() - keep
        } else {
            0
        },
        forall|k: int, m: int|
            0 <= k < keep && k < o.len() && 0 <= m < beyond_newest(o, keep).len() ==> listed_before(
                ts,
                #[trigger] o[k] as int,
                #[trigger] beyond_newest(o, keep)[m] as int,
            ),
{
    if o.len() > keep {
        assert forall|k: int, m: int|
            0 <= k < keep && k < o.len() && 0 <= m < beyond_newest(o, keep).len() implies listed_before(
            ts,
            #[trigger] o[k] as int,
            #[trigger] beyond_newest(o, keep)[m] as int,
        ) by {
            assert(beyond_newest(o, keep)[m] == o[keep + m]);
        }
    }
}


/// The newest-first order lists every backup exactly once.
pub proof fn law_newest_first_is_a_permutation(ts: Seq<i128>, o: Seq<usize>)
    requires
        is_newest_first(ts, o),
    ensures
        o.no_duplicates(),
        forall|i: usize| i < ts.len() ==> #[trigger] o.contains(i),
{
    assert forall|k: int, m: int| 0 <= k < o.len() && 0 <= m < o.len() && k != m implies o[k]
        != o[m] by {
        if k < m {
            assert(listed_before(ts, o[k] as int, o[m] as int));
        } else {
            assert(listed_before(ts, o[m] as int, o[k] as int));
        }
    }
    let s = o.map_values(|x: usize| x as int);
    assert(s.no_duplicates()) by {
        assert forall|k: int, m: int| 0 <= k < s.len() && 0 <= m < s.len() && k != m implies s[k]
            != s[m] by {
            assert(o[k] != o[m]);
        }
    }
    s.unique_seq_to_set();
    let range = vstd::set_lib::set_int_range(0, ts.len() as int);
    vstd::set_lib::lemma_int_range(0, ts.len() as int);
    assert(s.to_set().subset_of(range)) by {
        assert forall|x: int| s.to_set().contains(x) implies range.contains(x) by {
            let k = choose|k: int| 0 <= k < s.len() && s[k] == x;
            assert(o[k] < ts.len());
        }
    }
    vstd::set_lib::lemma_len_subset(s.to_set(), range);
    vstd::set_lib::lemma_subset_equality(s.to_set(), range);
    assert forall|i: usize| i < ts.len() implies #[trigger] o.contains(i) by {
        assert(range.contains(i as int));
        assert(s.to_set().contains(i as int));
        let k = choose|k: int| 0 <= k < s.len() && s[k] == i as int;
        assert(o[k] == i);
    }
}


/// There is only one newest-first order of a backup history, so the order a
/// listing shows, and the backups a cleanup removes, are fully determined by
/// the timestamps.
pub proof fn law_newest_first_is_unique(ts: Seq<i128>, o1: Seq<usize>, o2: Seq<usize>)
    requires
        is_newest_first(ts, o1),
        is_newest_first(ts, o2),
    ensures
        o1 == o2,
{
    law_newest_first_is_a_permutation(ts, o1);
    law_newest_first_is_a_permutation(ts, o2);
    assert forall|k: int| 0 <= k < o1.len() implies o1[k] == o2[k] by {
        lemma_orders_agree_at(ts, o1, o2, k);
    }
    assert(o1 =~= o2);
}

/// Two newest-first orders agree at every position: at the first position
/// where they would differ, each of the two backups there would have to be
/// listed before the other.
proof fn lemma_orders_agree_at(ts: Seq<i128>, o1: Seq<usize>, o2: Seq<usize>, k: int)
    requires
        is_newest_first(ts, o1),
        is_newest_first(ts, o2),
        forall|i: usize| i < ts.len() ==> #[trigger] o1.contains(i),
        forall|i: usize| i < ts.len() ==> #[trigger] o2.contains(i),
        0 <= k < o1.len(),
    ensures
        o1[k] == o2[k],
    decreases k,
{
    assert forall|t: int| 0 <= t < k implies o1[t] == o2[t] by {
        lemma_orders_agree_at(ts, o1, o2, t);
    }
    if o1[k] != o2[k] {
        let a = o1[k];
        let b = o2[k];
        assert(o2.contains(a));
        let m = choose|m: int| 0 <= m < o2.len() && o2[m] == a;
        assert(o1.contains(b));
        let m2 = choose|m: int| 0 <= m < o1.len() && o1[m] == b;
        // each of the two sits after position k in the other order
        if m < k {
            assert(o1[m] == o2[m]);
            assert(listed_before(ts, o1[m] as int, o1[k] as int));
        }
        if m2 < k {
            assert(o1[m2] == o2[m2]);
            assert(listed_before(ts, o2[m2] as int, o2[k] as int));
        }
        assert(m > k);
        assert(m2 > k);
        assert(listed_before(ts, o2[k] as int, o2[m] as int));
        assert(listed_before(ts, o1[k] as int, o1[m2] as int));
    }
}

} // verus!
