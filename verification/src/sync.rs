//! Sync planning: which files to upload, download, delete or flag as
//! conflicts, for each sync mode, and what each planned operation does.
use vstd::prelude::*;
use vstd::string::*;

use crate::config::Config;
use crate::hash::{distinct_keys, FileInfo, HashCache};
use crate::path::{join, join_spec};
use crate::storage::FileEntry;
use crate::text::same_text;

verus! {

#[derive(Debug, Clone, Copy, PartialEq, Eq, Structural)]
pub enum ConflictResolution {
    KeepLocal,
    KeepRemote,
    KeepBoth,
}

/// Sync operation types
#[derive(Debug, Clone, PartialEq)]
pub enum SyncOp {
    Upload(String),
    Download(String),
    DeleteLocal(String),
    DeleteRemote(String),
    Conflict(String, ConflictResolution),
    Skip(String, String),
}

/// A sync operation with its paths taken as character sequences.
pub enum OpView {
    Upload(Seq<char>),
    Download(Seq<char>),
    DeleteLocal(Seq<char>),
    DeleteRemote(Seq<char>),
    Conflict(Seq<char>, ConflictResolution),
    Skip(Seq<char>, Seq<char>),
}

impl View for SyncOp {
    type V = OpView;

    open spec fn view(&self) -> OpView {
        match self {
            SyncOp::Upload(p) => OpView::Upload(p@),
            SyncOp::Download(p) => OpView::Download(p@),
            SyncOp::DeleteLocal(p) => OpView::DeleteLocal(p@),
            SyncOp::DeleteRemote(p) => OpView::DeleteRemote(p@),
            SyncOp::Conflict(p, c) => OpView::Conflict(p@, *c),
            SyncOp::Skip(p, why) => OpView::Skip(p@, why@),
        }
    }
}

pub open spec fn ops_view(ops: Seq<SyncOp>) -> Seq<OpView> {
    ops.map_values(|o: SyncOp| o@)
}

/// The three sync modes; any mode name other than `push` and `pull` means
/// bidirectional.
#[derive(Debug, Clone, Copy, PartialEq, Eq, Structural)]
pub enum SyncMode {
    Push,
    Pull,
    Bidirectional,
}

pub open spec fn sync_mode(name: Seq<char>) -> SyncMode {
    if name == "push"@ {
        SyncMode::Push
    } else if name == "pull"@ {
        SyncMode::Pull
    } else {
        SyncMode::Bidirectional
    }
}

/// The last local file listed under path `p`.
pub open spec fn find_local(l: Seq<(String, FileInfo)>, p: Seq<char>) -> Option<int>
    decreases l.len(),
{
    if l.len() == 0 {
        None
    } else if l.last().0@ == p {
        Some(l.len() - 1)
    } else {
        find_local(l.drop_last(), p)
    }
}

/// The last remote entry listed under path `p`: the one that a map from path
/// to entry, filled in list order, holds for `p`.
pub open spec fn last_remote(r: Seq<FileEntry>, p: Seq<char>) -> Option<int>
    decreases r.len(),
{
    if r.len() == 0 {
        None
    } else if r.last().path@ == p {
        Some(r.len() - 1)
    } else {
        last_remote(r.drop_last(), p)
    }
}

/// Entry `j` is the first remote entry with its path.
pub open spec fn first_of_its_path(r: Seq<FileEntry>, j: int) -> bool {
    forall|k: int| 0 <= k < j ==> (#[trigger] r[k]).path@ != r[j].path@
}

/// The local file `info` and the remote entry `e` hold different contents:
/// their sizes differ, or the destination knows the entry's SHA-256 digest
/// and it is not the local one.
pub open spec fn differs(info: FileInfo, e: FileEntry) -> bool {
    info.size != e.size || (e.hash matches Some(h) && h@ != info.hash@)
}

/// Whether a local file and a remote entry hold different contents.
pub fn contents_differ(info: &FileInfo, e: &FileEntry) -> (b: bool)
    ensures
        b == differs(*info, *e),
{
    if info.size != e.size {
        return true;
    }
    match &e.hash {
        Some(h) => !same_text(h.as_str(), info.hash.as_str()),
        None => false,
    }
}

/// What the local file `l[i]` calls for.
pub open spec fn local_step(
    mode: SyncMode,
    l: Seq<(String, FileInfo)>,
    r: Seq<FileEntry>,
    i: int,
    force: bool,
) -> Option<OpView> {
    let p = l[i].0@;
    let info = l[i].1;
    match mode {
        SyncMode::Push => match last_remote(r, p) {
            Some(j) => if differs(info, r[j]) {
                Some(
                    if force {
                        OpView::Upload(p)
                    } else {
                        OpView::Conflict(p, ConflictResolution::KeepLocal)
                    },
                )
            } else {
                None
            },
            None => Some(OpView::Upload(p)),
        },
        SyncMode::Pull => if last_remote(r, p) is None {
            Some(OpView::DeleteLocal(p))
        } else {
            None
        },
        SyncMode::Bidirectional => match last_remote(r, p) {
            Some(j) => if differs(info, r[j]) {
                match r[j].modified {
                    Some(rm) => if info.modified > rm {
                        Some(OpView::Upload(p))
                    } else if info.modified < rm {
                        Some(OpView::Download(p))
                    } else if force {
                        Some(OpView::Upload(p))
                    } else {
                        Some(OpView::Conflict(p, ConflictResolution::KeepBoth))
                    },
                    None => if force {
                        Some(OpView::Upload(p))
                    } else {
                        Some(OpView::Conflict(p, ConflictResolution::KeepBoth))
                    },
                }
            } else {
                None
            },
            None => Some(OpView::Upload(p)),
        },
    }
}

/// What the remote entry `r[j]` calls for.
pub open spec fn remote_step(
    mode: SyncMode,
    l: Seq<(String, FileInfo)>,
    r: Seq<FileEntry>,
    j: int,
    force: bool,
) -> Option<OpView> {
    let p = r[j].path@;
    match mode {
        SyncMode::Push => if first_of_its_path(r, j) && find_local(l, p) is None {
            Some(OpView::DeleteRemote(p))
        } else {
            None
        },
        SyncMode::Pull => match find_local(l, p) {
            Some(i) => if differs(l[i].1, r[j]) {
                Some(
                    if force {
                        OpView::Download(p)
                    } else {
                        OpView::Conflict(p, ConflictResolution::KeepRemote)
                    },
                )
            } else {
                None
            },
            None => Some(OpView::Download(p)),
        },
        SyncMode::Bidirectional => if find_local(l, p) is None {
            Some(OpView::Download(p))
        } else {
            None
        },
    }
}

pub open spec fn opt_seq(o: Option<OpView>) -> Seq<OpView> {
    match o {
        Some(x) => seq![x],
        None => seq![],
    }
}

/// The operations for the first `n` local files.
pub open spec fn local_ops(
    mode: SyncMode,
    l: Seq<(String, FileInfo)>,
    r: Seq<FileEntry>,
    force: bool,
    n: nat,
) -> Seq<OpView>
    decreases n,
{
    if n == 0 {
        seq![]
    } else {
        local_ops(mode, l, r, force, (n - 1) as nat) + opt_seq(
            local_step(mode, l, r, n - 1, force),
        )
    }
}

/// The operations for the first `n` remote entries.
pub open spec fn remote_ops(
    mode: SyncMode,
    l: Seq<(String, FileInfo)>,
    r: Seq<FileEntry>,
    force: bool,
    n: nat,
) -> Seq<OpView>
    decreases n,
{
    if n == 0 {
        seq![]
    } else {
        remote_ops(mode, l, r, force, (n - 1) as nat) + opt_seq(
            remote_step(mode, l, r, n - 1, force),
        )
    }
}

/// The sync plan: in pull mode the remote entries are gone through first,
/// otherwise the local files are.
pub open spec fn plan_ops(
    mode: SyncMode,
    l: Seq<(String, FileInfo)>,
    r: Seq<FileEntry>,
    force: bool,
) -> Seq<OpView> {
    if mode == SyncMode::Pull {
        remote_ops(mode, l, r, force, r.len()) + local_ops(mode, l, r, force, l.len())
    } else {
        local_ops(mode, l, r, force, l.len()) + remote_ops(mode, l, r, force, r.len())
    }
}

/// Position of the last local file listed under `p`.
fn find_local_exec(l: &Vec<(String, FileInfo)>, p: &str) -> (r: Option<usize>)
    ensures
        match r {
            Some(i) => find_local(l@, p@) == Some(i as int) && i < l@.len(),
            None => find_local(l@, p@) is None,
        },
{
    let mut k: usize = l.len();
    assert(l@.subrange(0, k as int) =~= l@);
    while k > 0
        invariant
            k <= l@.len(),
            find_local(l@, p@) == find_local(l@.subrange(0, k as int), p@),
        decreases k,
    {
        let ghost s = l@.subrange(0, k as int);
        assert(s.last() == l@[k - 1]);
        assert(s.drop_last() =~= l@.subrange(0, k - 1));
        if same_text(l[k - 1].0.as_str(), p) {
            return Some(k - 1);
        }
        k = k - 1;
    }
    None
}

/// Position of the last remote entry listed under `p`.
fn last_remote_exec(r: &Vec<FileEntry>, p: &str) -> (res: Option<usize>)
    ensures
        match res {
            Some(j) => last_remote(r@, p@) == Some(j as int) && j < r@.len(),
            None => last_remote(r@, p@) is None,
        },
{
    let mut k: usize = r.len();
    assert(r@.subrange(0, k as int) =~= r@);
    while k > 0
        invariant
            k <= r@.len(),
            last_remote(r@, p@) == last_remote(r@.subrange(0, k as int), p@),
        decreases k,
    {
        let ghost s = r@.subrange(0, k as int);
        assert(s.last() == r@[k - 1]);
        assert(s.drop_last() =~= r@.subrange(0, k - 1));
        if same_text(r[k - 1].path.as_str(), p) {
            return Some(k - 1);
        }
        k = k - 1;
    }
    None
}

/// Whether remote entry `j` is the first one with its path.
fn first_of_its_path_exec(r: &Vec<FileEntry>, j: usize) -> (b: bool)
    requires
        j < r@.len(),
    ensures
        b == first_of_its_path(r@, j as int),
{
    let mut k: usize = 0;
    while k < j
        invariant
            j < r@.len(),
            k <= j,
            forall|m: int| 0 <= m < k ==> (#[trigger] r@[m]).path@ != r@[j as int].path@,
        decreases j - k,
    {
        if same_text(r[k].path.as_str(), r[j].path.as_str()) {
            return false;
        }
        k = k + 1;
    }
    true
}

/// What a sync run does once its plan is known.
#[derive(Debug, Clone, Copy, PartialEq, Eq, Structural)]
pub enum SyncOutcome {
    /// The plan is empty: everything is up to date.
    UpToDate,
    /// A dry run: the plan is shown and nothing is changed.
    DryRun,
    /// The plan is carried out.
    Execute,
}

/// Whether a sync with a plan of `planned` operations stops or carries it out.
pub fn sync_outcome(planned: usize, dry_run: bool) -> (r: SyncOutcome)
    ensures
        r == (if planned == 0 {
            SyncOutcome::UpToDate
        } else if dry_run {
            SyncOutcome::DryRun
        } else {
            SyncOutcome::Execute
        }),
{
    if planned == 0 {
        SyncOutcome::UpToDate
    } else if dry_run {
        SyncOutcome::DryRun
    } else {
        SyncOutcome::Execute
    }
}

/// Sync engine
pub struct SyncEngine {
    config: Config,
    hash_cache: HashCache,
}

impl SyncEngine {
    pub closed spec fn config_spec(&self) -> Config {
        self.config
    }

    pub fn new(config: Config) -> (r: SyncEngine)
        ensures
            r.config_spec() == config,
    {
        SyncEngine { config, hash_cache: HashCache::new() }
    }

    pub fn config(&self) -> (r: &Config)
        ensures
            *r == self.config_spec(),
    {
        &self.config
    }

    /// The sync mode of the configuration.
    pub fn mode(&self) -> (m: SyncMode)
        ensures
            m == sync_mode(self.config_spec().mode@),
    {
        if same_text(self.config.mode.as_str(), "push") {
            SyncMode::Push
        } else if same_text(self.config.mode.as_str(), "pull") {
            SyncMode::Pull
        } else {
            SyncMode::Bidirectional
        }
    }

    fn local_step_exec(
        mode: SyncMode,
        l: &Vec<(String, FileInfo)>,
        r: &Vec<FileEntry>,
        i: usize,
        force: bool,
    ) -> (o: Option<SyncOp>)
        requires
            i < l@.len(),
        ensures
            match o {
                Some(op) => local_step(mode, l@, r@, i as int, force) == Some(op@),
                None => local_step(mode, l@, r@, i as int, force) is None,
            },
    {
        let p = &l[i].0;
        let info = &l[i].1;
        let found = last_remote_exec(r, p.as_str());
        match mode {
            SyncMode::Push => match found {
                Some(j) => {
                    if contents_differ(info, &r[j]) {
                        if force {
                            Some(SyncOp::Upload(p.clone()))
                        } else {
                            Some(SyncOp::Conflict(p.clone(), ConflictResolution::KeepLocal))
                        }
                    } else {
                        None
                    }
                },
                None => Some(SyncOp::Upload(p.clone())),
            },
            SyncMode::Pull => match found {
                Some(_) => None,
                None => Some(SyncOp::DeleteLocal(p.clone())),
            },
            SyncMode::Bidirectional => match found {
                Some(j) => {
                    if contents_differ(info, &r[j]) {
                        match r[j].modified {
                            Some(rm) => {
                                if info.modified > rm {
                                    Some(SyncOp::Upload(p.clone()))
                                } else if info.modified < rm {
                                    Some(SyncOp::Download(p.clone()))
                                } else if force {
                                    Some(SyncOp::Upload(p.clone()))
                                } else {
                                    Some(SyncOp::Conflict(p.clone(), ConflictResolution::KeepBoth))
                                }
                            },
                            None => {
                                if force {
                                    Some(SyncOp::Upload(p.clone()))
                                } else {
                                    Some(SyncOp::Conflict(p.clone(), ConflictResolution::KeepBoth))
                                }
                            },
                        }
                    } else {
                        None
                    }
                },
                None => Some(SyncOp::Upload(p.clone())),
            },
        }
    }

    fn remote_step_exec(
        mode: SyncMode,
        l: &Vec<(String, FileInfo)>,
        r: &Vec<FileEntry>,
        j: usize,
        force: bool,
    ) -> (o: Option<SyncOp>)
        requires
            j < r@.len(),
        ensures
            match o {
                Some(op) => remote_step(mode, l@, r@, j as int, force) == Some(op@),
                None => remote_step(mode, l@, r@, j as int, force) is None,
            },
    {
        let p = &r[j].path;
        let found = find_local_exec(l, p.as_str());
        match mode {
            SyncMode::Push => {
                if found.is_none() && first_of_its_path_exec(r, j) {
                    Some(SyncOp::DeleteRemote(p.clone()))
                } else {
                    None
                }
            },
            SyncMode::Pull => match found {
                Some(i) => {
                    if contents_differ(&l[i].1, &r[j]) {
                        if force {
                            Some(SyncOp::Download(p.clone()))
                        } else {
                            Some(SyncOp::Conflict(p.clone(), ConflictResolution::KeepRemote))
                        }
                    } else {
                        None
                    }
                },
                None => Some(SyncOp::Download(p.clone())),
            },
            SyncMode::Bidirectional => match found {
                Some(_) => None,
                None => Some(SyncOp::Download(p.clone())),
            },
        }
    }

    fn push_local_ops(
        mode: SyncMode,
        l: &Vec<(String, FileInfo)>,
        r: &Vec<FileEntry>,
        force: bool,
        ops: &mut Vec<SyncOp>,
    )
        ensures
            ops_view(final(ops)@) == ops_view(old(ops)@) + local_ops(mode, l@, r@, force, l@.len()),
    {
        let ghost start = ops_view(ops@);
        let mut i: usize = 0;
        while i < l.len()
            invariant
                i <= l@.len(),
                ops_view(ops@) == start + local_ops(mode, l@, r@, force, i as nat),
            decreases l@.len() - i,
        {
            let ghost before = ops@;
            match Self::local_step_exec(mode, l, r, i, force) {
                Some(op) => {
                    ops.push(op);
                    assert(ops_view(ops@) =~= ops_view(before) + seq![op@]);
                },
                None => {},
            }
            assert(ops_view(ops@) =~= start + local_ops(mode, l@, r@, force, (i + 1) as nat));
            i = i + 1;
        }
    }

    fn push_remote_ops(
        mode: SyncMode,
        l: &Vec<(String, FileInfo)>,
        r: &Vec<FileEntry>,
        force: bool,
        ops: &mut Vec<SyncOp>,
    )
        ensures
            ops_view(final(ops)@) == ops_view(old(ops)@) + remote_ops(mode, l@, r@, force, r@.len()),
    {
        let ghost start = ops_view(ops@);
        let mut j: usize = 0;
        while j < r.len()
            invariant
                j <= r@.len(),
                ops_view(ops@) == start + remote_ops(mode, l@, r@, force, j as nat),
            decreases r@.len() - j,
        {
            let ghost before = ops@;
            match Self::remote_step_exec(mode, l, r, j, force) {
                Some(op) => {
                    ops.push(op);
                    assert(ops_view(ops@) =~= ops_view(before) + seq![op@]);
                },
                None => {},
            }
            assert(ops_view(ops@) =~= start + remote_ops(mode, l@, r@, force, (j + 1) as nat));
            j = j + 1;
        }
    }

    /// What carrying out `op` comes to for this engine's source directory.
    pub fn transfer_for(&self, op: &SyncOp) -> (t: Transfer)
        ensures
            transfer_matches(self.config_spec().source@, op@, t),
    {
        let src = self.config.source.as_str();
        match op {
            SyncOp::Upload(p) => Transfer::Upload {
                local: join(src, p.as_str()),
                remote: p.clone(),
                report_failure: true,
            },
            SyncOp::Download(p) => Transfer::Download {
                remote: p.clone(),
                local: join(src, p.as_str()),
                report_failure: true,
            },
            SyncOp::DeleteLocal(p) => Transfer::RemoveLocal { local: join(src, p.as_str()) },
            SyncOp::DeleteRemote(p) => Transfer::RemoveRemote { remote: p.clone() },
            SyncOp::Conflict(p, ConflictResolution::KeepLocal) => Transfer::Upload {
                local: join(src, p.as_str()),
                remote: p.clone(),
                report_failure: false,
            },
            SyncOp::Conflict(p, ConflictResolution::KeepRemote) => Transfer::Download {
                remote: p.clone(),
                local: join(src, p.as_str()),
                report_failure: false,
            },
            SyncOp::Conflict(p, ConflictResolution::KeepBoth) => {
                let mut aside = p.clone();
                aside.append(".local");
                Transfer::SetAsideThenDownload {
                    local: join(src, p.as_str()),
                    set_aside: join(src, aside.as_str()),
                    remote: p.clone(),
                }
            },
            SyncOp::Skip(_, _) => Transfer::Nothing,
        }
    }

    /// Determine sync operations. `local_files` lists each local file once,
    /// under its path relative to the source; `remote_files` lists the
    /// destination.
    pub fn determine_operations(
        &self,
        local_files: &Vec<(String, FileInfo)>,
        remote_files: &Vec<FileEntry>,
        force: bool,
    ) -> (ops: Vec<SyncOp>)
        requires
            distinct_keys(local_files@),
        ensures
            ops_view(ops@) == plan_ops(
                sync_mode(self.config_spec().mode@),
                local_files@,
                remote_files@,
                force,
            ),
    {
        let mode = self.mode();
        let mut ops: Vec<SyncOp> = Vec::new();
        assert(ops_view(ops@) =~= Seq::<OpView>::empty());
        match mode {
            SyncMode::Pull => {
                Self::push_remote_ops(mode, local_files, remote_files, force, &mut ops);
                Self::push_local_ops(mode, local_files, remote_files, force, &mut ops);
            },
            _ => {
                Self::push_local_ops(mode, local_files, remote_files, force, &mut ops);
                Self::push_remote_ops(mode, local_files, remote_files, force, &mut ops);
            },
        }
        ops
    }
}


/// What performing a sync operation comes to, with the local paths resolved
/// under the source directory.
pub enum Transfer {
    /// Copy `local` to `remote`; a failure is reported when `report_failure`.
    Upload { local: String, remote: String, report_failure: bool },
    /// Copy `remote` to `local`; a failure is reported when `report_failure`.
    Download { remote: String, local: String, report_failure: bool },
    RemoveLocal { local: String },
    RemoveRemote { remote: String },
    /// Rename `local` to `set_aside`, then copy `remote` to `local`.
    SetAsideThenDownload { local: String, set_aside: String, remote: String },
    Nothing,
}

/// The transfer that carries out `op` for a source directory `src`.
pub open spec fn transfer_matches(src: Seq<char>, op: OpView, t: Transfer) -> bool {
    match op {
        OpView::Upload(p) => t matches Transfer::Upload { local, remote, report_failure } && local@
            == join_spec(src, p) && remote@ == p && report_failure,
        OpView::Download(p) => t matches Transfer::Download { remote, local, report_failure }
            && local@ == join_spec(src, p) && remote@ == p && report_failure,
        OpView::DeleteLocal(p) => t matches Transfer::RemoveLocal { local } && local@ == join_spec(
            src,
            p,
        ),
        OpView::DeleteRemote(p) => t matches Transfer::RemoveRemote { remote } && remote@ == p,
        OpView::Conflict(p, ConflictResolution::KeepLocal) => t matches Transfer::Upload {
            local,
            remote,
            report_failure,
        } && local@ == join_spec(src, p) && remote@ == p && !report_failure,
        OpView::Conflict(p, ConflictResolution::KeepRemote) => t matches Transfer::Download {
            remote,
            local,
            report_failure,
        } && local@ == join_spec(src, p) && remote@ == p && !report_failure,
        OpView::Conflict(p, ConflictResolution::KeepBoth) => t matches Transfer::SetAsideThenDownload {
            local,
            set_aside,
            remote,
        } && local@ == join_spec(src, p) && set_aside@ == join_spec(src, p + ".local"@) && remote@
            == p,
        OpView::Skip(_, _) => t is Nothing,
    }
}

/// How many operations of `s` satisfy `f`.
pub open spec fn count_ops(s: Seq<OpView>, f: spec_fn(OpView) -> bool) -> nat
    decreases s.len(),
{
    if s.len() == 0 {
        0
    } else {
        count_ops(s.drop_last(), f) + if f(s.last()) {
            1nat
        } else {
            0nat
        }
    }
}

pub open spec fn is_upload(o: OpView) -> bool {
    o is Upload
}

pub open spec fn is_download(o: OpView) -> bool {
    o is Download
}

pub open spec fn is_delete(o: OpView) -> bool {
    o is DeleteLocal || o is DeleteRemote
}

pub open spec fn is_conflict(o: OpView) -> bool {
    o is Conflict
}

proof fn lemma_count_ops_bound(s: Seq<OpView>, f: spec_fn(OpView) -> bool)
    ensures
        count_ops(s, f) <= s.len(),
    decreases s.len(),
{
    if s.len() > 0 {
        lemma_count_ops_bound(s.drop_last(), f);
    }
}

/// How many operations of a plan there are of each kind.
pub struct OpCounts {
    pub uploads: usize,
    pub downloads: usize,
    pub deletes: usize,
    pub conflicts: usize,
}

/// Counts the uploads, downloads, deletions (local or remote) and conflicts of a plan.
pub fn count_operations(ops: &Vec<SyncOp>) -> (c: OpCounts)
    ensures
        c.uploads == count_ops(ops_view(ops@), |o: OpView| is_upload(o)),
        c.downloads == count_ops(ops_view(ops@), |o: OpView| is_download(o)),
        c.deletes == count_ops(ops_view(ops@), |o: OpView| is_delete(o)),
        c.conflicts == count_ops(ops_view(ops@), |o: OpView| is_conflict(o)),
{
    let ghost fu = |o: OpView| is_upload(o);
    let ghost fd = |o: OpView| is_download(o);
    let ghost fx = |o: OpView| is_delete(o);
    let ghost fc = |o: OpView| is_conflict(o);
    let mut c = OpCounts { uploads: 0, downloads: 0, deletes: 0, conflicts: 0 };
    let mut i: usize = 0;
    assert(ops_view(ops@).subrange(0, 0) =~= Seq::<OpView>::empty());
    while i < ops.len()
        invariant
            i <= ops@.len(),
            fu == (|o: OpView| is_upload(o)),
            fd == (|o: OpView| is_download(o)),
            fx == (|o: OpView| is_delete(o)),
            fc == (|o: OpView| is_conflict(o)),
            c.uploads == count_ops(ops_view(ops@).subrange(0, i as int), fu),
            c.downloads == count_ops(ops_view(ops@).subrange(0, i as int), fd),
            c.deletes == count_ops(ops_view(ops@).subrange(0, i as int), fx),
            c.conflicts == count_ops(ops_view(ops@).subrange(0, i as int), fc),
        decreases ops@.len() - i,
    {
        let ghost pre = ops_view(ops@).subrange(0, i as int);
        let ghost next = ops_view(ops@).subrange(0, i + 1);
        assert(next.drop_last() =~= pre);
        assert(next.last() == ops@[i as int]@);
        proof {
            lemma_count_ops_bound(pre, fu);
            lemma_count_ops_bound(pre, fd);
            lemma_count_ops_bound(pre, fx);
            lemma_count_ops_bound(pre, fc);
        }
        match &ops[i] {
            SyncOp::Upload(_) => {
                c.uploads = c.uploads + 1;
            },
            SyncOp::Download(_) => {
                c.downloads = c.downloads + 1;
            },
            SyncOp::DeleteLocal(_) => {
                c.deletes = c.deletes + 1;
            },
            SyncOp::DeleteRemote(_) => {
                c.deletes = c.deletes + 1;
            },
            SyncOp::Conflict(_, _) => {
                c.conflicts = c.conflicts + 1;
            },
            SyncOp::Skip(_, _) => {},
        }
        i = i + 1;
    }
    assert(ops_view(ops@).subrange(0, ops@.len() as int) =~= ops_view(ops@));
    c
}

/// The total size of the local files.
pub open spec fn local_size_total(l: Seq<(String, FileInfo)>) -> nat
    decreases l.len(),
{
    if l.len() == 0 {
        0
    } else {
        local_size_total(l.drop_last()) + l.last().1.size as nat
    }
}

/// The total size of the remote entries.
pub open spec fn remote_size_total(r: Seq<FileEntry>) -> nat
    decreases r.len(),
{
    if r.len() == 0 {
        0
    } else {
        remote_size_total(r.drop_last()) + r.last().size as nat
    }
}

proof fn lemma_local_size_mono(l: Seq<(String, FileInfo)>, k: int)
    requires
        0 <= k <= l.len(),
    ensures
        local_size_total(l.subrange(0, k)) <= local_size_total(l),
    decreases l.len() - k,
{
    if k < l.len() {
        lemma_local_size_mono(l, k + 1);
        assert(l.subrange(0, k + 1).drop_last() =~= l.subrange(0, k));
    } else {
        assert(l.subrange(0, k) =~= l);
    }
}

proof fn lemma_remote_size_mono(r: Seq<FileEntry>, k: int)
    requires
        0 <= k <= r.len(),
    ensures
        remote_size_total(r.subrange(0, k)) <= remote_size_total(r),
    decreases r.len() - k,
{
    if k < r.len() {
        lemma_remote_size_mono(r, k + 1);
        assert(r.subrange(0, k + 1).drop_last() =~= r.subrange(0, k));
    } else {
        assert(r.subrange(0, k) =~= r);
    }
}

/// The total size of the local files, when it fits in 64 bits.
pub fn total_local_size(l: &Vec<(String, FileInfo)>) -> (t: Option<u64>)
    ensures
        match t {
            Some(v) => v == local_size_total(l@),
            None => local_size_total(l@) > u64::MAX,
        },
{
    let mut total: u64 = 0;
    let mut i: usize = 0;
    assert(l@.subrange(0, 0) =~= Seq::<(String, FileInfo)>::empty());
    while i < l.len()
        invariant
            i <= l@.len(),
            total == local_size_total(l@.subrange(0, i as int)),
        decreases l@.len() - i,
    {
        assert(l@.subrange(0, i + 1).drop_last() =~= l@.subrange(0, i as int));
        match total.checked_add(l[i].1.size) {
            Some(v) => {
                total = v;
            },
            None => {
                proof {
                    lemma_local_size_mono(l@, i + 1);
                }
                return None;
            },
        }
        i = i + 1;
    }
    assert(l@.subrange(0, l@.len() as int) =~= l@);
    Some(total)
}

/// The total size of the remote entries, when it fits in 64 bits.
pub fn total_remote_size(r: &Vec<FileEntry>) -> (t: Option<u64>)
    ensures
        match t {
            Some(v) => v == remote_size_total(r@),
            None => remote_size_total(r@) > u64::MAX,
        },
{
    let mut total: u64 = 0;
    let mut i: usize = 0;
    assert(r@.subrange(0, 0) =~= Seq::<FileEntry>::empty());
    while i < r.len()
        invariant
            i <= r@.len(),
            total == remote_size_total(r@.subrange(0, i as int)),
        decreases r@.len() - i,
    {
        assert(r@.subrange(0, i + 1).drop_last() =~= r@.subrange(0, i as int));
        match total.checked_add(r[i].size) {
            Some(v) => {
                total = v;
            },
            None => {
                proof {
                    lemma_remote_size_mono(r@, i + 1);
                }
                return None;
            },
        }
        i = i + 1;
    }
    assert(r@.subrange(0, r@.len() as int) =~= r@);
    Some(total)
}

proof fn lemma_local_ops_all(
    mode: SyncMode,
    l: Seq<(String, FileInfo)>,
    r: Seq<FileEntry>,
    force: bool,
    n: nat,
    pred: spec_fn(OpView) -> bool,
)
    requires
        forall|k: int|
            0 <= k < n ==> (#[trigger] local_step(mode, l, r, k, force) matches Some(o) ==> pred(o)),
    ensures
        forall|k: int|
            0 <= k < local_ops(mode, l, r, force, n).len() ==> pred(
                #[trigger] local_ops(mode, l, r, force, n)[k],
            ),
    decreases n,
{
    if n > 0 {
        lemma_local_ops_all(mode, l, r, force, (n - 1) as nat, pred);
        let prev = local_ops(mode, l, r, force, (n - 1) as nat);
        let last = opt_seq(local_step(mode, l, r, n - 1, force));
        assert(local_ops(mode, l, r, force, n) == prev + last);
        assert forall|k: int| 0 <= k < (prev + last).len() implies pred(#[trigger] (prev + last)[k]) by {
            if k < prev.len() {
                assert((prev + last)[k] == prev[k]);
            } else {
                assert(local_step(mode, l, r, n - 1, force) matches Some(o) ==> pred(o));
            }
        }
    }
}

proof fn lemma_remote_ops_all(
    mode: SyncMode,
    l: Seq<(String, FileInfo)>,
    r: Seq<FileEntry>,
    force: bool,
    n: nat,
    pred: spec_fn(OpView) -> bool,
)
    requires
        forall|k: int|
            0 <= k < n ==> (#[trigger] remote_step(mode, l, r, k, force) matches Some(o) ==> pred(o)),
    ensures
        forall|k: int|
            0 <= k < remote_ops(mode, l, r, force, n).len() ==> pred(
                #[trigger] remote_ops(mode, l, r, force, n)[k],
            ),
    decreases n,
{
    if n > 0 {
        lemma_remote_ops_all(mode, l, r, force, (n - 1) as nat, pred);
        let prev = remote_ops(mode, l, r, force, (n - 1) as nat);
        let last = opt_seq(remote_step(mode, l, r, n - 1, force));
        assert(remote_ops(mode, l, r, force, n) == prev + last);
        assert forall|k: int| 0 <= k < (prev + last).len() implies pred(#[trigger] (prev + last)[k]) by {
            if k < prev.len() {
                assert((prev + last)[k] == prev[k]);
            } else {
                assert(remote_step(mode, l, r, n - 1, force) matches Some(o) ==> pred(o));
            }
        }
    }
}

/// Every operation of a plan satisfies `pred` when every local and every
/// remote step that yields one does.
proof fn lemma_plan_all(
    mode: SyncMode,
    l: Seq<(String, FileInfo)>,
    r: Seq<FileEntry>,
    force: bool,
    pred: spec_fn(OpView) -> bool,
)
    requires
        forall|k: int|
            0 <= k < l.len() ==> (#[trigger] local_step(mode, l, r, k, force) matches Some(o) ==> pred(o)),
        forall|k: int|
            0 <= k < r.len() ==> (#[trigger] remote_step(mode, l, r, k, force) matches Some(o) ==> pred(o)),
    ensures
        forall|k: int|
            0 <= k < plan_ops(mode, l, r, force).len() ==> pred(
                #[trigger] plan_ops(mode, l, r, force)[k],
            ),
{
    lemma_local_ops_all(mode, l, r, force, l.len(), pred);
    lemma_remote_ops_all(mode, l, r, force, r.len(), pred);
    let lo = local_ops(mode, l, r, force, l.len());
    let ro = remote_ops(mode, l, r, force, r.len());
    if mode == SyncMode::Pull {
        assert forall|k: int| 0 <= k < (ro + lo).len() implies pred(#[trigger] (ro + lo)[k]) by {
            if k < ro.len() {
                assert((ro + lo)[k] == ro[k]);
            } else {
                assert((ro + lo)[k] == lo[k - ro.len()]);
            }
        }
    } else {
        assert forall|k: int| 0 <= k < (lo + ro).len() implies pred(#[trigger] (lo + ro)[k]) by {
            if k < lo.len() {
                assert((lo + ro)[k] == lo[k]);
            } else {
                assert((lo + ro)[k] == ro[k - lo.len()]);
            }
        }
    }
}

/// Push mode only ever changes the destination: every planned operation is an
/// upload, a remote deletion, or a conflict resolved by keeping the local copy.
pub proof fn law_push_changes_only_remote(
    l: Seq<(String, FileInfo)>,
    r: Seq<FileEntry>,
    force: bool,
)
    ensures
        forall|k: int|
            0 <= k < plan_ops(SyncMode::Push, l, r, force).len() ==> {
                let o = #[trigger] plan_ops(SyncMode::Push, l, r, force)[k];
                o is Upload || o is DeleteRemote || o == OpView::Conflict(
                    o->Conflict_0,
                    ConflictResolution::KeepLocal,
                )
            },
{
    let pred = |o: OpView|
        o is Upload || o is DeleteRemote || o == OpView::Conflict(
            o->Conflict_0,
            ConflictResolution::KeepLocal,
        );
    lemma_plan_all(SyncMode::Push, l, r, force, pred);
}

/// Pull mode only ever changes the source: every planned operation is a
/// download, a local deletion, or a conflict resolved by keeping the remote copy.
pub proof fn law_pull_changes_only_local(
    l: Seq<(String, FileInfo)>,
    r: Seq<FileEntry>,
    force: bool,
)
    ensures
        forall|k: int|
            0 <= k < plan_ops(SyncMode::Pull, l, r, force).len() ==> {
                let o = #[trigger] plan_ops(SyncMode::Pull, l, r, force)[k];
                o is Download || o is DeleteLocal || o == OpView::Conflict(
                    o->Conflict_0,
                    ConflictResolution::KeepRemote,
                )
            },
{
    let pred = |o: OpView|
        o is Download || o is DeleteLocal || o == OpView::Conflict(
            o->Conflict_0,
            ConflictResolution::KeepRemote,
        );
    lemma_plan_all(SyncMode::Pull, l, r, force, pred);
}

/// Bidirectional sync never deletes anything.
pub proof fn law_bidirectional_never_deletes(
    l: Seq<(String, FileInfo)>,
    r: Seq<FileEntry>,
    force: bool,
)
    ensures
        forall|k: int|
            0 <= k < plan_ops(SyncMode::Bidirectional, l, r, force).len() ==> !is_delete(
                #[trigger] plan_ops(SyncMode::Bidirectional, l, r, force)[k],
            ),
{
    lemma_plan_all(SyncMode::Bidirectional, l, r, force, |o: OpView| !is_delete(o));
}

/// A forced sync plans no conflicts, in any mode.
pub proof fn law_forced_plan_has_no_conflicts(
    mode: SyncMode,
    l: Seq<(String, FileInfo)>,
    r: Seq<FileEntry>,
)
    ensures
        forall|k: int|
            0 <= k < plan_ops(mode, l, r, true).len() ==> !is_conflict(
                #[trigger] plan_ops(mode, l, r, true)[k],
            ),
{
    lemma_plan_all(mode, l, r, true, |o: OpView| !is_conflict(o));
}

/// Both sides hold the same paths, each with the same contents.
pub open spec fn in_sync(l: Seq<(String, FileInfo)>, r: Seq<FileEntry>) -> bool {
    &&& forall|i: int|
        0 <= i < l.len() ==> (last_remote(r, (#[trigger] l[i]).0@) matches Some(j) && !differs(
            l[i].1,
            r[j],
        ))
    &&& forall|j: int|
        0 <= j < r.len() ==> (find_local(l, (#[trigger] r[j]).path@) matches Some(i) && !differs(
            l[i].1,
            r[j],
        ))
}

/// When both sides are in sync there is nothing to do, in any mode.
pub proof fn law_in_sync_plan_is_empty(
    mode: SyncMode,
    l: Seq<(String, FileInfo)>,
    r: Seq<FileEntry>,
    force: bool,
)
    requires
        in_sync(l, r),
    ensures
        plan_ops(mode, l, r, force).len() == 0,
{
    assert forall|k: int| 0 <= k < l.len() implies (#[trigger] local_step(mode, l, r, k, force) matches Some(o) ==> false) by {
        assert(l[k] == l[k]);
    }
    assert forall|k: int| 0 <= k < r.len() implies (#[trigger] remote_step(mode, l, r, k, force) matches Some(o) ==> false) by {
        assert(r[k] == r[k]);
    }
    lemma_plan_all(mode, l, r, force, |o: OpView| false);
    if plan_ops(mode, l, r, force).len() > 0 {
        assert((|o: OpView| false)(plan_ops(mode, l, r, force)[0]));
    }
}

/// In push mode a local file that the destination lacks is uploaded.
pub proof fn law_push_uploads_missing(
    l: Seq<(String, FileInfo)>,
    r: Seq<FileEntry>,
    force: bool,
    i: int,
)
    requires
        0 <= i < l.len(),
        last_remote(r, l[i].0@) is None,
    ensures
        plan_ops(SyncMode::Push, l, r, force).contains(OpView::Upload(l[i].0@)),
{
    lemma_local_ops_contains(SyncMode::Push, l, r, force, l.len(), i);
    let lo = local_ops(SyncMode::Push, l, r, force, l.len());
    let ro = remote_ops(SyncMode::Push, l, r, force, r.len());
    let k = choose|k: int| 0 <= k < lo.len() && lo[k] == OpView::Upload(l[i].0@);
    assert((lo + ro)[k] == lo[k]);
}

/// A forced push uploads every file whose contents differ from the
/// destination's copy, same-size files with another SHA-256 digest included.
pub proof fn law_forced_push_uploads_changed(l: Seq<(String, FileInfo)>, r: Seq<FileEntry>, i: int)
    requires
        0 <= i < l.len(),
        last_remote(r, l[i].0@) matches Some(j) && differs(l[i].1, r[j]),
    ensures
        plan_ops(SyncMode::Push, l, r, true).contains(OpView::Upload(l[i].0@)),
{
    lemma_local_ops_contains(SyncMode::Push, l, r, true, l.len(), i);
    let lo = local_ops(SyncMode::Push, l, r, true, l.len());
    let ro = remote_ops(SyncMode::Push, l, r, true, r.len());
    let k = choose|k: int| 0 <= k < lo.len() && lo[k] == OpView::Upload(l[i].0@);
    assert((lo + ro)[k] == lo[k]);
}

/// A forced pull downloads every remote file whose contents differ from the
/// local copy, same-size files with another SHA-256 digest included.
pub proof fn law_forced_pull_downloads_changed(l: Seq<(String, FileInfo)>, r: Seq<FileEntry>, j: int)
    requires
        0 <= j < r.len(),
        find_local(l, r[j].path@) matches Some(i) && differs(l[i].1, r[j]),
    ensures
        plan_ops(SyncMode::Pull, l, r, true).contains(OpView::Download(r[j].path@)),
{
    lemma_remote_ops_contains(SyncMode::Pull, l, r, true, r.len(), j);
    let lo = local_ops(SyncMode::Pull, l, r, true, l.len());
    let ro = remote_ops(SyncMode::Pull, l, r, true, r.len());
    let k = choose|k: int| 0 <= k < ro.len() && ro[k] == OpView::Download(r[j].path@);
    assert((ro + lo)[k] == ro[k]);
}

/// In pull mode a remote file that the source lacks is downloaded.
pub proof fn law_pull_downloads_missing(
    l: Seq<(String, FileInfo)>,
    r: Seq<FileEntry>,
    force: bool,
    j: int,
)
    requires
        0 <= j < r.len(),
        find_local(l, r[j].path@) is None,
    ensures
        plan_ops(SyncMode::Pull, l, r, force).contains(OpView::Download(r[j].path@)),
{
    lemma_remote_ops_contains(SyncMode::Pull, l, r, force, r.len(), j);
    let lo = local_ops(SyncMode::Pull, l, r, force, l.len());
    let ro = remote_ops(SyncMode::Pull, l, r, force, r.len());
    let k = choose|k: int| 0 <= k < ro.len() && ro[k] == OpView::Download(r[j].path@);
    assert((ro + lo)[k] == ro[k]);
}

/// Bidirectional sync copies what one side lacks to it: a local file missing
/// from the destination is uploaded, and a remote file missing locally is
/// downloaded.
pub proof fn law_bidirectional_copies_missing(
    l: Seq<(String, FileInfo)>,
    r: Seq<FileEntry>,
    force: bool,
)
    ensures
        forall|i: int|
            0 <= i < l.len() && last_remote(r, l[i].0@) is None ==> plan_ops(
                SyncMode::Bidirectional,
                l,
                r,
                force,
            ).contains(OpView::Upload((#[trigger] l[i]).0@)),
        forall|j: int|
            0 <= j < r.len() && find_local(l, r[j].path@) is None ==> plan_ops(
                SyncMode::Bidirectional,
                l,
                r,
                force,
            ).contains(OpView::Download((#[trigger] r[j]).path@)),
{
    let mode = SyncMode::Bidirectional;
    let lo = local_ops(mode, l, r, force, l.len());
    let ro = remote_ops(mode, l, r, force, r.len());
    assert forall|i: int|
        0 <= i < l.len() && last_remote(r, l[i].0@) is None implies plan_ops(
        mode,
        l,
        r,
        force,
    ).contains(OpView::Upload((#[trigger] l[i]).0@)) by {
        lemma_local_ops_contains(mode, l, r, force, l.len(), i);
        let k = choose|k: int| 0 <= k < lo.len() && lo[k] == OpView::Upload(l[i].0@);
        assert((lo + ro)[k] == lo[k]);
    }
    assert forall|j: int|
        0 <= j < r.len() && find_local(l, r[j].path@) is None implies plan_ops(
        mode,
        l,
        r,
        force,
    ).contains(OpView::Download((#[trigger] r[j]).path@)) by {
        lemma_remote_ops_contains(mode, l, r, force, r.len(), j);
        let k = choose|k: int| 0 <= k < ro.len() && ro[k] == OpView::Download(r[j].path@);
        assert((lo + ro)[lo.len() + k] == ro[k]);
    }
}

/// In bidirectional sync, when the two copies of a file differ, the
/// newer copy wins: a newer local copy is uploaded, a newer remote one downloaded.
pub proof fn law_bidirectional_newer_wins(
    l: Seq<(String, FileInfo)>,
    r: Seq<FileEntry>,
    force: bool,
    i: int,
)
    requires
        0 <= i < l.len(),
        last_remote(r, l[i].0@) matches Some(j) && differs(l[i].1, r[j]) && r[j].modified is Some,
    ensures
        ({
            let j = last_remote(r, l[i].0@)->0;
            let rm = r[j].modified->0;
            &&& l[i].1.modified > rm ==> plan_ops(SyncMode::Bidirectional, l, r, force).contains(
                OpView::Upload(l[i].0@),
            )
            &&& l[i].1.modified < rm ==> plan_ops(SyncMode::Bidirectional, l, r, force).contains(
                OpView::Download(l[i].0@),
            )
        }),
{
    let mode = SyncMode::Bidirectional;
    let lo = local_ops(mode, l, r, force, l.len());
    let ro = remote_ops(mode, l, r, force, r.len());
    let j = last_remote(r, l[i].0@)->0;
    let rm = r[j].modified->0;
    if l[i].1.modified != rm {
        lemma_local_ops_contains(mode, l, r, force, l.len(), i);
        let k = choose|k: int| 0 <= k < lo.len() && lo[k] == local_step(mode, l, r, i, force)->0;
        assert((lo + ro)[k] == lo[k]);
    }
}

proof fn lemma_local_ops_contains(
    mode: SyncMode,
    l: Seq<(String, FileInfo)>,
    r: Seq<FileEntry>,
    force: bool,
    n: nat,
    i: int,
)
    requires
        0 <= i < n,
        local_step(mode, l, r, i, force) is Some,
    ensures
        exists|k: int|
            0 <= k < local_ops(mode, l, r, force, n).len() && local_ops(mode, l, r, force, n)[k]
                == local_step(mode, l, r, i, force)->0,
    decreases n,
{
    let prev = local_ops(mode, l, r, force, (n - 1) as nat);
    let last = opt_seq(local_step(mode, l, r, n - 1, force));
    assert(local_ops(mode, l, r, force, n) == prev + last);
    if i < n - 1 {
        lemma_local_ops_contains(mode, l, r, force, (n - 1) as nat, i);
        let k = choose|k: int| 0 <= k < prev.len() && prev[k] == local_step(mode, l, r, i, force)->0;
        assert((prev + last)[k] == prev[k]);
    } else {
        assert((prev + last)[prev.len() as int] == last[0]);
    }
}

proof fn lemma_remote_ops_contains(
    mode: SyncMode,
    l: Seq<(String, FileInfo)>,
    r: Seq<FileEntry>,
    force: bool,
    n: nat,
    j: int,
)
    requires
        0 <= j < n,
        remote_step(mode, l, r, j, force) is Some,
    ensures
        exists|k: int|
            0 <= k < remote_ops(mode, l, r, force, n).len() && remote_ops(mode, l, r, force, n)[k]
                == remote_step(mode, l, r, j, force)->0,
    decreases n,
{
    let prev = remote_ops(mode, l, r, force, (n - 1) as nat);
    let last = opt_seq(remote_step(mode, l, r, n - 1, force));
    assert(remote_ops(mode, l, r, force, n) == prev + last);
    if j < n - 1 {
        lemma_remote_ops_contains(mode, l, r, force, (n - 1) as nat, j);
        let k = choose|k: int| 0 <= k < prev.len() && prev[k] == remote_step(mode, l, r, j, force)->0;
        assert((prev + last)[k] == prev[k]);
    } else {
        assert((prev + last)[prev.len() as int] == last[0]);
    }
}


/// A local file and a remote entry of different sizes never count as the same
/// contents, whichever is larger; nor do two whose SHA-256 digests are both
/// known and differ. With equal sizes and a remote digest that is unknown or
/// equal to the local one, they count as the same.
pub proof fn law_size_or_digest_change_is_a_change(info: FileInfo, e: FileEntry)
    ensures
        info.size < e.size ==> differs(info, e),
        info.size > e.size ==> differs(info, e),
        (e.hash matches Some(h) && h@ != info.hash@) ==> differs(info, e),
        info.size == e.size && (e.hash is None || e.hash->0@ == info.hash@) ==> !differs(info, e),
{
}

/// The contents of the local file `l[i]` and of the remote entry `r[j]`
/// differ: in size, or in a SHA-256 digest that the destination knows.
pub open spec fn changed_between(l: Seq<(String, FileInfo)>, i: int, r: Seq<FileEntry>, j: int) -> bool {
    l[i].1.size != r[j].size || (r[j].hash matches Some(h) && h@ != l[i].1.hash@)
}

/// In push mode, a file present on both sides whose contents changed is
/// uploaded when forced, and flagged as a conflict that keeps the local copy
/// otherwise; whether the local copy grew or shrank.
pub proof fn law_push_acts_on_changed_file(
    l: Seq<(String, FileInfo)>,
    r: Seq<FileEntry>,
    force: bool,
    i: int,
)
    requires
        0 <= i < l.len(),
        last_remote(r, l[i].0@) matches Some(j) && changed_between(l, i, r, j),
    ensures
        force ==> plan_ops(SyncMode::Push, l, r, force).contains(OpView::Upload(l[i].0@)),
        !force ==> plan_ops(SyncMode::Push, l, r, force).contains(
            OpView::Conflict(l[i].0@, ConflictResolution::KeepLocal),
        ),
{
    lemma_local_ops_contains(SyncMode::Push, l, r, force, l.len(), i);
    let lo = local_ops(SyncMode::Push, l, r, force, l.len());
    let ro = remote_ops(SyncMode::Push, l, r, force, r.len());
    let want = local_step(SyncMode::Push, l, r, i, force)->0;
    let k = choose|k: int| 0 <= k < lo.len() && lo[k] == want;
    assert((lo + ro)[k] == lo[k]);
}

/// In pull mode, a remote file present on both sides whose contents changed
/// is downloaded when forced, and flagged as a conflict that keeps the remote
/// copy otherwise.
pub proof fn law_pull_acts_on_changed_file(
    l: Seq<(String, FileInfo)>,
    r: Seq<FileEntry>,
    force: bool,
    j: int,
)
    requires
        0 <= j < r.len(),
        find_local(l, r[j].path@) matches Some(i) && changed_between(l, i, r, j),
    ensures
        force ==> plan_ops(SyncMode::Pull, l, r, force).contains(OpView::Download(r[j].path@)),
        !force ==> plan_ops(SyncMode::Pull, l, r, force).contains(
            OpView::Conflict(r[j].path@, ConflictResolution::KeepRemote),
        ),
{
    lemma_remote_ops_contains(SyncMode::Pull, l, r, force, r.len(), j);
    let lo = local_ops(SyncMode::Pull, l, r, force, l.len());
    let ro = remote_ops(SyncMode::Pull, l, r, force, r.len());
    let want = remote_step(SyncMode::Pull, l, r, j, force)->0;
    let k = choose|k: int| 0 <= k < ro.len() && ro[k] == want;
    assert((ro + lo)[k] == ro[k]);
}

/// In bidirectional mode, a file present on both sides whose contents changed
/// goes the way of the newer copy: uploaded when the local copy is newer,
/// downloaded when the remote one is.
pub proof fn law_bidirectional_changed_file_follows_newer(
    l: Seq<(String, FileInfo)>,
    r: Seq<FileEntry>,
    force: bool,
    i: int,
)
    requires
        0 <= i < l.len(),
        last_remote(r, l[i].0@) matches Some(j) && changed_between(l, i, r, j) && r[j].modified is Some,
    ensures
        ({
            let j = last_remote(r, l[i].0@)->0;
            let rm = r[j].modified->0;
            &&& l[i].1.modified > rm ==> plan_ops(SyncMode::Bidirectional, l, r, force).contains(
                OpView::Upload(l[i].0@),
            )
            &&& l[i].1.modified < rm ==> plan_ops(SyncMode::Bidirectional, l, r, force).contains(
                OpView::Download(l[i].0@),
            )
        }),
{
    let mode = SyncMode::Bidirectional;
    let lo = local_ops(mode, l, r, force, l.len());
    let ro = remote_ops(mode, l, r, force, r.len());
    let j = last_remote(r, l[i].0@)->0;
    let rm = r[j].modified->0;
    if l[i].1.modified != rm {
        lemma_local_ops_contains(mode, l, r, force, l.len(), i);
        let k = choose|k: int| 0 <= k < lo.len() && lo[k] == local_step(mode, l, r, i, force)->0;
        assert((lo + ro)[k] == lo[k]);
    }
}

/// In push mode, a file whose copy at the destination has the same size and a
/// digest that is unknown or the same is neither uploaded nor flagged.
pub proof fn law_push_leaves_unchanged_file(
    l: Seq<(String, FileInfo)>,
    r: Seq<FileEntry>,
    force: bool,
    i: int,
)
    requires
        crate::hash::distinct_keys(l),
        0 <= i < l.len(),
        last_remote(r, l[i].0@) matches Some(j) && !changed_between(l, i, r, j),
    ensures
        !plan_ops(SyncMode::Push, l, r, force).contains(OpView::Upload(l[i].0@)),
        !plan_ops(SyncMode::Push, l, r, force).contains(
            OpView::Conflict(l[i].0@, ConflictResolution::KeepLocal),
        ),
{
    let p = l[i].0@;
    let pred = |o: OpView| o != OpView::Upload(p) && o != OpView::Conflict(p, ConflictResolution::KeepLocal);
    assert forall|k: int| 0 <= k < l.len() implies (#[trigger] local_step(SyncMode::Push, l, r, k, force) matches Some(o) ==> pred(o)) by {
        if k != i {
            if k < i {
                assert(l[k].0@ != l[i].0@);
            } else {
                assert(l[i].0@ != l[k].0@);
            }
        }
    }
    assert forall|k: int| 0 <= k < r.len() implies (#[trigger] remote_step(SyncMode::Push, l, r, k, force) matches Some(o) ==> pred(o)) by {
    }
    lemma_plan_all(SyncMode::Push, l, r, force, pred);
    let plan = plan_ops(SyncMode::Push, l, r, force);
    if plan.contains(OpView::Upload(p)) {
        let k = choose|k: int| 0 <= k < plan.len() && plan[k] == OpView::Upload(p);
        assert(pred(plan[k]));
    }
    if plan.contains(OpView::Conflict(p, ConflictResolution::KeepLocal)) {
        let k = choose|k: int| 0 <= k < plan.len() && plan[k] == OpView::Conflict(p, ConflictResolution::KeepLocal);
        assert(pred(plan[k]));
    }
}

proof fn lemma_first_with_path(r: Seq<FileEntry>, j: int) -> (k: int)
    requires
        0 <= j < r.len(),
    ensures
        0 <= k <= j,
        r[k].path@ == r[j].path@,
        first_of_its_path(r, k),
    decreases j,
{
    if first_of_its_path(r, j) {
        j
    } else {
        let m = choose|m: int| 0 <= m < j && (#[trigger] r[m]).path@ == r[j].path@;
        lemma_first_with_path(r, m)
    }
}

/// In push mode, a file at the destination that the source lacks is deleted there.
pub proof fn law_push_deletes_what_source_lacks(
    l: Seq<(String, FileInfo)>,
    r: Seq<FileEntry>,
    force: bool,
    j: int,
)
    requires
        0 <= j < r.len(),
        find_local(l, r[j].path@) is None,
    ensures
        plan_ops(SyncMode::Push, l, r, force).contains(OpView::DeleteRemote(r[j].path@)),
{
    let k = lemma_first_with_path(r, j);
    lemma_remote_ops_contains(SyncMode::Push, l, r, force, r.len(), k);
    let lo = local_ops(SyncMode::Push, l, r, force, l.len());
    let ro = remote_ops(SyncMode::Push, l, r, force, r.len());
    let m = choose|m: int| 0 <= m < ro.len() && ro[m] == OpView::DeleteRemote(r[j].path@);
    assert((lo + ro)[lo.len() + m] == ro[m]);
}

/// In pull mode, a local file that the destination lacks is deleted locally.
pub proof fn law_pull_deletes_what_destination_lacks(
    l: Seq<(String, FileInfo)>,
    r: Seq<FileEntry>,
    force: bool,
    i: int,
)
    requires
        0 <= i < l.len(),
        last_remote(r, l[i].0@) is None,
    ensures
        plan_ops(SyncMode::Pull, l, r, force).contains(OpView::DeleteLocal(l[i].0@)),
{
    lemma_local_ops_contains(SyncMode::Pull, l, r, force, l.len(), i);
    let lo = local_ops(SyncMode::Pull, l, r, force, l.len());
    let ro = remote_ops(SyncMode::Pull, l, r, force, r.len());
    let m = choose|m: int| 0 <= m < lo.len() && lo[m] == OpView::DeleteLocal(l[i].0@);
    assert((ro + lo)[ro.len() + m] == lo[m]);
}

/// The path an operation is about.
pub open spec fn op_path(o: OpView) -> Seq<char> {
    match o {
        OpView::Upload(p) => p,
        OpView::Download(p) => p,
        OpView::DeleteLocal(p) => p,
        OpView::DeleteRemote(p) => p,
        OpView::Conflict(p, _) => p,
        OpView::Skip(p, _) => p,
    }
}

/// The local path a transfer reads or writes, if any.
pub open spec fn transfer_local(t: Transfer) -> Option<Seq<char>> {
    match t {
        Transfer::Upload { local, .. } => Some(local@),
        Transfer::Download { local, .. } => Some(local@),
        Transfer::RemoveLocal { local } => Some(local@),
        Transfer::SetAsideThenDownload { local, .. } => Some(local@),
        _ => None,
    }
}

/// The destination path a transfer reads or writes, if any.
pub open spec fn transfer_remote(t: Transfer) -> Option<Seq<char>> {
    match t {
        Transfer::Upload { remote, .. } => Some(remote@),
        Transfer::Download { remote, .. } => Some(remote@),
        Transfer::RemoveRemote { remote } => Some(remote@),
        Transfer::SetAsideThenDownload { remote, .. } => Some(remote@),
        _ => None,
    }
}

/// The transfer changes something in the source directory.
pub open spec fn writes_source(t: Transfer) -> bool {
    t is Download || t is RemoveLocal || t is SetAsideThenDownload
}

/// The transfer changes something at the destination.
pub open spec fn writes_destination(t: Transfer) -> bool {
    t is Upload || t is RemoveRemote
}

/// How an operation is carried out (see `SyncEngine::transfer_for`):
/// every local path used is the operation's path resolved under the source,
/// every destination path used is the operation's path itself; an upload,
/// a remote deletion and a conflict that keeps the local copy never change
/// the source, and a download, a local deletion and a conflict that keeps the
/// remote copy (or both) never change the destination; keeping the local copy
/// is an upload of the same file that reports no failure.
pub proof fn law_transfer_paths_and_direction(src: Seq<char>, op: OpView, t: Transfer)
    requires
        transfer_matches(src, op, t),
    ensures
        transfer_local(t) matches Some(x) ==> x == join_spec(src, op_path(op)),
        transfer_remote(t) matches Some(y) ==> y == op_path(op),
        (op is Upload || op is Download || op is DeleteLocal || op is Conflict) ==> transfer_local(t)
            is Some,
        (op is Upload || op is Download || op is DeleteRemote || op is Conflict) ==> transfer_remote(t)
            is Some,
        (op is Upload || op is DeleteRemote || op == OpView::Conflict(
            op_path(op),
            ConflictResolution::KeepLocal,
        )) ==> !writes_source(t),
        (op is Download || op is DeleteLocal || op == OpView::Conflict(
            op_path(op),
            ConflictResolution::KeepRemote,
        ) || op == OpView::Conflict(op_path(op), ConflictResolution::KeepBoth)) ==> !writes_destination(t),
        op is Upload ==> (t matches Transfer::Upload { report_failure, .. } && report_failure),
        op == OpView::Conflict(op_path(op), ConflictResolution::KeepLocal) ==> (t matches Transfer::Upload {
            report_failure,
            ..
        } && !report_failure),
        op is Download ==> (t matches Transfer::Download { report_failure, .. } && report_failure),
        op is Skip ==> !writes_source(t) && !writes_destination(t),
        op is DeleteLocal ==> t is RemoveLocal,
        op is DeleteRemote ==> t is RemoveRemote,
        op == OpView::Conflict(op_path(op), ConflictResolution::KeepBoth) ==> (
        t matches Transfer::SetAsideThenDownload { set_aside, .. } && set_aside@ == join_spec(
            src,
            op_path(op) + ".local"@,
        )),
{
}

/// Carrying out a push plan never changes the source directory, and carrying
/// out a pull plan never changes the destination.
pub proof fn law_one_way_plans_change_one_side(
    src: Seq<char>,
    l: Seq<(String, FileInfo)>,
    r: Seq<FileEntry>,
    force: bool,
    k: int,
    t: Transfer,
)
    ensures
        0 <= k < plan_ops(SyncMode::Push, l, r, force).len() && transfer_matches(
            src,
            plan_ops(SyncMode::Push, l, r, force)[k],
            t,
        ) ==> !writes_source(t),
        0 <= k < plan_ops(SyncMode::Pull, l, r, force).len() && transfer_matches(
            src,
            plan_ops(SyncMode::Pull, l, r, force)[k],
            t,
        ) ==> !writes_destination(t),
{
    law_push_changes_only_remote(l, r, force);
    law_pull_changes_only_local(l, r, force);
    if 0 <= k < plan_ops(SyncMode::Push, l, r, force).len() && transfer_matches(
        src,
        plan_ops(SyncMode::Push, l, r, force)[k],
        t,
    ) {
        law_transfer_paths_and_direction(src, plan_ops(SyncMode::Push, l, r, force)[k], t);
    }
    if 0 <= k < plan_ops(SyncMode::Pull, l, r, force).len() && transfer_matches(
        src,
        plan_ops(SyncMode::Pull, l, r, force)[k],
        t,
    ) {
        law_transfer_paths_and_direction(src, plan_ops(SyncMode::Pull, l, r, force)[k], t);
    }
}

} // verus!
