//! Watching for changes: which file events to ignore, and when a change,
//! once things have been quiet for the debounce time, triggers a sync.
use vstd::prelude::*;
use vstd::string::*;

use crate::config::{excluded_by, strings_view, Config};
use crate::text::{contains, contains_seq};

verus! {

/// A path of an event is ignored when the configuration excludes it (see
/// `Config::should_exclude`), or when it lies in the tool's own `.synclite`
/// directory.
pub open spec fn path_ignored(patterns: Seq<Seq<char>>, path: Seq<char>) -> bool {
    excluded_by(patterns, path) || contains_seq(path, ".synclite"@)
}

/// An event is ignored when any of its paths is.
pub open spec fn event_ignored(patterns: Seq<Seq<char>>, paths: Seq<Seq<char>>) -> bool {
    exists|i: int| 0 <= i < paths.len() && path_ignored(patterns, #[trigger] paths[i])
}

/// Check if a file event, given by its paths, should be ignored
pub fn should_ignore_event(paths: &Vec<String>, config: &Config) -> (b: bool)
    ensures
        b == event_ignored(strings_view(config.exclude@), strings_view(paths@)),
{
    let ghost pats = strings_view(config.exclude@);
    let mut i: usize = 0;
    while i < paths.len()
        invariant
            i <= paths@.len(),
            pats == strings_view(config.exclude@),
            forall|j: int| 0 <= j < i ==> !path_ignored(pats, #[trigger] paths@[j]@),
        decreases paths@.len() - i,
    {
        let path = paths[i].as_str();
        if config.should_exclude(path) || contains(path, ".synclite") {
            assert(strings_view(paths@)[i as int] == path@);
            return true;
        }
        i = i + 1;
    }
    assert forall|j: int|
        0 <= j < strings_view(paths@).len() implies !path_ignored(
        pats,
        #[trigger] strings_view(paths@)[j],
    ) by {
        assert(strings_view(paths@)[j] == paths@[j]@);
    }
    false
}

/// File watcher for automatic sync
pub struct FileWatcher {
    config: Config,
    debounce_secs: u64,
}

/// The watcher's state: whether a change is waiting to be synced.
#[derive(Debug, Clone, Copy, PartialEq, Eq, Structural)]
pub struct WatchState {
    pub pending_sync: bool,
}

/// What the watch loop sees.
pub enum WatchInput {
    /// A file event with these paths.
    Changed(Vec<String>),
    /// A quiet tick, this many whole seconds after the last recorded change.
    Tick(u64),
}

/// What the watch loop does in answer.
#[derive(Debug, Clone, Copy, PartialEq, Eq, Structural)]
pub enum WatchAction {
    /// Nothing: the event concerns ignored paths.
    Ignore,
    /// Note the change and the time of it.
    RecordChange,
    /// Nothing yet.
    Wait,
    /// Run a sync now.
    Sync,
}

impl FileWatcher {
    pub closed spec fn config_spec(&self) -> Config {
        self.config
    }

    pub closed spec fn debounce_spec(&self) -> u64 {
        self.debounce_secs
    }

    pub fn new(config: Config, debounce_secs: u64) -> (r: FileWatcher)
        ensures
            r.config_spec() == config,
            r.debounce_spec() == debounce_secs,
    {
        FileWatcher { config, debounce_secs }
    }

    pub fn config(&self) -> (r: &Config)
        ensures
            *r == self.config_spec(),
    {
        &self.config
    }

    pub fn debounce_secs(&self) -> (r: u64)
        ensures
            r == self.debounce_spec(),
    {
        self.debounce_secs
    }

    /// The state the watcher starts in: nothing pending.
    pub fn initial_state() -> (s: WatchState)
        ensures
            !s.pending_sync,
    {
        WatchState { pending_sync: false }
    }

    /// One step of the watch loop. An event that is not ignored makes a sync
    /// pending; a tick runs the pending sync once the debounce time has passed
    /// since the last change, and then nothing is pending.
    pub fn step(&self, state: WatchState, input: &WatchInput) -> (r: (WatchState, WatchAction))
        ensures
            r == watch_step(self.config_spec(), self.debounce_spec(), state, *input),
    {
        proof {
            reveal(watch_step);
        }
        match input {
            WatchInput::Changed(paths) => {
                if should_ignore_event(paths, &self.config) {
                    (state, WatchAction::Ignore)
                } else {
                    (WatchState { pending_sync: true }, WatchAction::RecordChange)
                }
            },
            WatchInput::Tick(elapsed) => {
                if state.pending_sync && *elapsed >= self.debounce_secs {
                    (WatchState { pending_sync: false }, WatchAction::Sync)
                } else {
                    (state, WatchAction::Wait)
                }
            },
        }
    }
}

/// What one step of the watch loop does (see `FileWatcher::step`).
#[verifier::opaque]
pub open spec fn watch_step(config: Config, debounce: u64, state: WatchState, input: WatchInput) -> (
    WatchState,
    WatchAction,
) {
    match input {
        WatchInput::Changed(paths) => if event_ignored(
            strings_view(config.exclude@),
            strings_view(paths@),
        ) {
            (state, WatchAction::Ignore)
        } else {
            (WatchState { pending_sync: true }, WatchAction::RecordChange)
        },
        WatchInput::Tick(elapsed) => if state.pending_sync && elapsed >= debounce {
            (WatchState { pending_sync: false }, WatchAction::Sync)
        } else {
            (state, WatchAction::Wait)
        },
    }
}

/// A sync runs only for a pending change and only once the debounce time has
/// passed since it, and afterwards nothing is pending; an ignored event
/// changes nothing, and any other event leaves a sync pending.
pub proof fn law_debounced_sync(config: Config, debounce: u64, state: WatchState, input: WatchInput)
    ensures
        ({
            let (next, action) = watch_step(config, debounce, state, input);
            &&& action == WatchAction::Sync ==> state.pending_sync && (input matches WatchInput::Tick(
                e,
            ) && e >= debounce) && !next.pending_sync
            &&& action == WatchAction::Ignore ==> next == state
            &&& action == WatchAction::RecordChange ==> next.pending_sync
            &&& action == WatchAction::Wait ==> next == state
        }),
{
    reveal(watch_step);
}


/// Every file event that is not ignored is recorded, whatever the state: a
/// sync becomes pending and the debounce time starts again from this change,
/// also when a sync was already pending. An ignored event changes nothing. A
/// file event never runs a sync by itself, and a tick never records a change.
pub proof fn law_every_change_is_recorded(
    config: Config,
    debounce: u64,
    state: WatchState,
    paths: Vec<String>,
    elapsed: u64,
)
    ensures
        !event_ignored(strings_view(config.exclude@), strings_view(paths@)) ==> watch_step(
            config,
            debounce,
            state,
            WatchInput::Changed(paths),
        ) == (WatchState { pending_sync: true }, WatchAction::RecordChange),
        event_ignored(strings_view(config.exclude@), strings_view(paths@)) ==> watch_step(
            config,
            debounce,
            state,
            WatchInput::Changed(paths),
        ) == (state, WatchAction::Ignore),
        watch_step(config, debounce, state, WatchInput::Tick(elapsed)).1 != WatchAction::RecordChange,
        !state.pending_sync ==> watch_step(config, debounce, state, WatchInput::Tick(elapsed)) == (
            state,
            WatchAction::Wait,
        ),
        elapsed < debounce ==> watch_step(config, debounce, state, WatchInput::Tick(elapsed)) == (
            state,
            WatchAction::Wait,
        ),
{
    reveal(watch_step);
}

/// The watcher's state after the first `k` inputs of a run that starts in `s0`.
pub open spec fn state_after(
    config: Config,
    debounce: u64,
    s0: WatchState,
    inputs: Seq<WatchInput>,
    k: nat,
) -> WatchState
    decreases k,
{
    if k == 0 {
        s0
    } else {
        watch_step(config, debounce, state_after(config, debounce, s0, inputs, (k - 1) as nat), inputs[k - 1]).0
    }
}

/// What the watcher does with input `k` of a run that starts in `s0`.
pub open spec fn action_at(
    config: Config,
    debounce: u64,
    s0: WatchState,
    inputs: Seq<WatchInput>,
    k: nat,
) -> WatchAction {
    watch_step(config, debounce, state_after(config, debounce, s0, inputs, k), inputs[k as int]).1
}

/// Before input `k`, some change was recorded and no sync has run since.
pub open spec fn change_since_last_sync(
    config: Config,
    debounce: u64,
    s0: WatchState,
    inputs: Seq<WatchInput>,
    k: nat,
) -> bool {
    exists|j: nat| #[trigger] change_kept(config, debounce, s0, inputs, j, k)
}

/// What one step does to the pending flag.
proof fn lemma_step_effect(config: Config, debounce: u64, state: WatchState, input: WatchInput)
    ensures
        ({
            let (next, action) = watch_step(config, debounce, state, input);
            &&& action == WatchAction::RecordChange ==> next.pending_sync
            &&& action == WatchAction::Sync ==> !next.pending_sync && state.pending_sync && (
            input matches WatchInput::Tick(e) && e >= debounce)
            &&& (action == WatchAction::Ignore || action == WatchAction::Wait) ==> next == state
            &&& (state.pending_sync && (input matches WatchInput::Tick(e) && e >= debounce)) ==> action
                == WatchAction::Sync
        }),
{
    reveal(watch_step);
}

/// A change recorded at `j`, with no sync from `j` up to `k`.
pub open spec fn change_kept(
    config: Config,
    debounce: u64,
    s0: WatchState,
    inputs: Seq<WatchInput>,
    j: nat,
    k: nat,
) -> bool {
    j < k && action_at(config, debounce, s0, inputs, j) == WatchAction::RecordChange && forall|t: nat|
        j < t < k ==> #[trigger] action_at(config, debounce, s0, inputs, t) != WatchAction::Sync
}

proof fn lemma_change_kept_extend(
    config: Config,
    debounce: u64,
    s0: WatchState,
    inputs: Seq<WatchInput>,
    j: nat,
    k: nat,
)
    requires
        change_kept(config, debounce, s0, inputs, j, k),
        action_at(config, debounce, s0, inputs, k) != WatchAction::Sync,
    ensures
        change_kept(config, debounce, s0, inputs, j, k + 1),
{
}

proof fn lemma_change_kept_shrink(
    config: Config,
    debounce: u64,
    s0: WatchState,
    inputs: Seq<WatchInput>,
    j: nat,
    k: nat,
)
    requires
        change_kept(config, debounce, s0, inputs, j, k + 1),
        action_at(config, debounce, s0, inputs, k) != WatchAction::RecordChange,
    ensures
        change_kept(config, debounce, s0, inputs, j, k),
        action_at(config, debounce, s0, inputs, k) != WatchAction::Sync,
{
    assert(j != k);
    assert(j < k ==> (k as nat > j && (k as nat) < k + 1));
}

proof fn lemma_pending_means_change(
    config: Config,
    debounce: u64,
    s0: WatchState,
    inputs: Seq<WatchInput>,
    k: nat,
)
    requires
        !s0.pending_sync,
        k <= inputs.len(),
    ensures
        state_after(config, debounce, s0, inputs, k).pending_sync == change_since_last_sync(
            config,
            debounce,
            s0,
            inputs,
            k,
        ),
    decreases k,
{
    if k > 0 {
        let p = (k - 1) as nat;
        lemma_pending_means_change(config, debounce, s0, inputs, p);
        let a = action_at(config, debounce, s0, inputs, p);
        lemma_step_effect(config, debounce, state_after(config, debounce, s0, inputs, p), inputs[p as int]);
        if a == WatchAction::RecordChange {
            assert(change_kept(config, debounce, s0, inputs, p, k));
        } else {
            if change_since_last_sync(config, debounce, s0, inputs, k) {
                let j = choose|j: nat| #[trigger] change_kept(config, debounce, s0, inputs, j, k);
                lemma_change_kept_shrink(config, debounce, s0, inputs, j, p);
                assert(change_kept(config, debounce, s0, inputs, j, p));
            }
            if a != WatchAction::Sync && change_since_last_sync(config, debounce, s0, inputs, p) {
                let j = choose|j: nat| #[trigger] change_kept(config, debounce, s0, inputs, j, p);
                lemma_change_kept_extend(config, debounce, s0, inputs, j, p);
            }
        }
    }
}

/// Over a whole run of events and ticks that starts with nothing pending: a
/// sync runs only at a tick that comes at least the debounce time after the
/// last recorded change, and only when a change that was not ignored has been
/// recorded since the previous sync; and at such a tick, with a change
/// pending, the sync does run.
pub proof fn law_debounced_sync_over_a_run(
    config: Config,
    debounce: u64,
    s0: WatchState,
    inputs: Seq<WatchInput>,
    k: nat,
)
    requires
        !s0.pending_sync,
        k < inputs.len(),
    ensures
        action_at(config, debounce, s0, inputs, k) == WatchAction::Sync ==> (inputs[k as int] matches WatchInput::Tick(e) && e >= debounce) && change_since_last_sync(
            config,
            debounce,
            s0,
            inputs,
            k,
        ),
        change_since_last_sync(config, debounce, s0, inputs, k) && (inputs[k as int] matches WatchInput::Tick(e) && e >= debounce) ==> action_at(config, debounce, s0, inputs, k) == WatchAction::Sync,
        action_at(config, debounce, s0, inputs, k) == WatchAction::Sync ==> !state_after(config, debounce, s0, inputs, k + 1).pending_sync,
{
    lemma_pending_means_change(config, debounce, s0, inputs, k);
    lemma_step_effect(config, debounce, state_after(config, debounce, s0, inputs, k), inputs[k as int]);
}

} // verus!
