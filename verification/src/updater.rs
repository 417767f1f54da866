use vstd::prelude::*;
use crate::error::{PlazaError, PlazaResult, is_internal};

verus! {

/// The state of the over-the-air update machine.
#[derive(Debug, Clone, PartialEq, Eq)]
pub enum UpdateState {
    Idle,
    Checking,
    Downloading { progress_percent: u8 },
    Applying,
    PendingReboot,
    RollingBack,
    Failed(String),
}

/// An available OS update.
#[derive(Debug, Clone)]
pub struct OsUpdate {
    pub version: String,
    pub release_notes: String,
    pub size_bytes: u64,
    pub sha256: String,
    pub mandatory: bool,
}

/// Over-the-air updater for guest OS instances.
pub struct OsUpdater {
    current_version: String,
    state: UpdateState,
    pending_update: Option<OsUpdate>,
}

/// What an updater holds: the installed version, the state of the machine
/// and the update staged for installation, if any.
pub struct UpdaterView {
    pub current_version: Seq<char>,
    pub state: UpdateState,
    pub pending_update: Option<OsUpdate>,
}

impl View for OsUpdater {
    type V = UpdaterView;

    closed spec fn view(&self) -> UpdaterView {
        UpdaterView {
            current_version: self.current_version@,
            state: self.state,
            pending_update: self.pending_update,
        }
    }
}

/// A fresh updater: the given version installed, idle, nothing staged.
pub open spec fn initial(version: Seq<char>) -> UpdaterView {
    UpdaterView { current_version: version, state: UpdateState::Idle, pending_update: None }
}

/// After a check for updates, of which none is ever found: idle.
pub open spec fn after_check(u: UpdaterView) -> UpdaterView {
    UpdaterView { state: UpdateState::Idle, ..u }
}

/// Staging succeeds only from the idle state.
pub open spec fn can_stage(u: UpdaterView) -> bool {
    u.state is Idle
}

/// After staging `update`: downloading from zero percent, with the update
/// pending; unchanged where staging is refused.
pub open spec fn after_stage(u: UpdaterView, update: OsUpdate) -> UpdaterView {
    if can_stage(u) {
        UpdaterView {
            state: UpdateState::Downloading { progress_percent: 0 },
            pending_update: Some(update),
            ..u
        }
    } else {
        u
    }
}

/// After a report of download progress: waiting for the reboot once the
/// download is complete, downloading otherwise.
pub open spec fn after_progress(u: UpdaterView, percent: u8) -> UpdaterView {
    UpdaterView {
        state: if percent >= 100 {
            UpdateState::PendingReboot
        } else {
            UpdateState::Downloading { progress_percent: percent }
        },
        ..u
    }
}

/// Applying succeeds only when an update waits for the reboot.
pub open spec fn can_apply(u: UpdaterView) -> bool {
    u.state is PendingReboot
}

/// After applying: the pending update's version installed, idle, nothing
/// pending; unchanged where applying is refused.
pub open spec fn after_apply(u: UpdaterView) -> UpdaterView {
    if can_apply(u) {
        UpdaterView {
            current_version: match u.pending_update {
                Some(p) => p.version@,
                None => u.current_version,
            },
            state: UpdateState::Idle,
            pending_update: None,
        }
    } else {
        u
    }
}

/// After a rollback: idle, nothing pending, the installed version kept.
pub open spec fn after_rollback(u: UpdaterView) -> UpdaterView {
    UpdaterView { state: UpdateState::Idle, pending_update: None, ..u }
}

impl OsUpdater {
    /// An idle updater with `current_version` installed.
    pub fn new(current_version: &str) -> (u: Self)
        ensures
            u@ == initial(current_version@),
            u@.current_version == current_version@,
            u@.state == UpdateState::Idle,
            u@.pending_update is None,
    {
        OsUpdater {
            current_version: current_version.to_owned(),
            state: UpdateState::Idle,
            pending_update: None,
        }
    }

    /// The state of the machine.
    pub fn state(&self) -> (s: &UpdateState)
        ensures
            *s == self@.state,
    {
        &self.state
    }

    /// The installed version.
    pub fn current_version(&self) -> (v: &str)
        ensures
            v@ == self@.current_version,
    {
        self.current_version.as_str()
    }

    /// Checks for an update; none is ever found, and the machine ends idle.
    pub fn check_for_update(&mut self) -> (r: PlazaResult<Option<OsUpdate>>)
        ensures
            r matches Ok(None),
            final(self)@ == after_check(old(self)@),
            final(self)@.state == UpdateState::Idle,
            final(self)@.current_version == old(self)@.current_version,
            final(self)@.pending_update == old(self)@.pending_update,
    {
        self.state = UpdateState::Checking;
        self.state = UpdateState::Idle;
        Ok(None)
    }

    /// Stages `update` for download; refused unless the machine is idle.
    pub fn stage_update(&mut self, update: OsUpdate) -> (r: PlazaResult<()>)
        ensures
            final(self)@ == after_stage(old(self)@, update),
            r is Ok <==> can_stage(old(self)@),
            !can_stage(old(self)@) ==> is_internal(r, "Update already in progress"@),
            r is Ok ==> old(self)@.state == UpdateState::Idle,
            old(self)@.state != UpdateState::Idle ==> r is Err && final(self)@ == old(self)@,
            old(self)@.state == UpdateState::Idle ==> {
                &&& final(self)@.state == UpdateState::Downloading { progress_percent: 0 }
                &&& final(self)@.pending_update == Some(update)
                &&& final(self)@.current_version == old(self)@.current_version
            },
    {
        match self.state {
            UpdateState::Idle => {},
            _ => {
                return Err(PlazaError::Internal(String::from_str("Update already in progress")));
            },
        }
        self.pending_update = Some(update);
        self.state = UpdateState::Downloading { progress_percent: 0 };
        Ok(())
    }

    /// Records download progress; at 100 percent or more the update waits
    /// for the reboot.
    pub fn simulate_download_progress(&mut self, percent: u8)
        ensures
            final(self)@ == after_progress(old(self)@, percent),
            final(self)@.state == if percent >= 100 {
                UpdateState::PendingReboot
            } else {
                UpdateState::Downloading { progress_percent: percent }
            },
            final(self)@.current_version == old(self)@.current_version,
            final(self)@.pending_update == old(self)@.pending_update,
    {
        if percent >= 100 {
            self.state = UpdateState::PendingReboot;
        } else {
            self.state = UpdateState::Downloading { progress_percent: percent };
        }
    }

    /// Installs the pending update; refused unless it waits for the reboot.
    pub fn apply(&mut self) -> (r: PlazaResult<()>)
        ensures
            final(self)@ == after_apply(old(self)@),
            r is Ok <==> can_apply(old(self)@),
            !can_apply(old(self)@) ==> is_internal(r, "No update pending reboot"@),
            r is Ok <==> old(self)@.state == UpdateState::PendingReboot,
            r is Err ==> final(self)@ == old(self)@,
            r is Ok ==> {
                &&& final(self)@.state == UpdateState::Idle
                &&& final(self)@.pending_update is None
                &&& final(self)@.current_version == match old(self)@.pending_update {
                    Some(p) => p.version@,
                    None => old(self)@.current_version,
                }
            },
    {
        match self.state {
            UpdateState::PendingReboot => {},
            _ => {
                return Err(PlazaError::Internal(String::from_str("No update pending reboot")));
            },
        }
        self.state = UpdateState::Applying;
        match &self.pending_update {
            Some(update) => {
                self.current_version = update.version.clone();
            },
            None => {},
        }
        self.state = UpdateState::Idle;
        self.pending_update = None;
        Ok(())
    }

    /// Abandons any pending update and returns to idle.
    pub fn rollback(&mut self) -> (r: PlazaResult<()>)
        ensures
            r is Ok,
            final(self)@ == after_rollback(old(self)@),
            final(self)@.state == UpdateState::Idle,
            final(self)@.pending_update is None,
            final(self)@.current_version == old(self)@.current_version,
    {
        self.state = UpdateState::RollingBack;
        self.pending_update = None;
        self.state = UpdateState::Idle;
        Ok(())
    }
}

/// Staging is allowed exactly from the idle state: from any other state,
/// including a completed download waiting for the reboot, it is refused and
/// changes nothing; from idle it starts the download of the update at zero
/// percent with the update pending, keeping the installed version.
pub proof fn lemma_stage_meaning(u: UpdaterView, update: OsUpdate)
    ensures
        can_stage(u) <==> u.state == UpdateState::Idle,
        u.state != UpdateState::Idle ==> after_stage(u, update) == u,
        u.state == UpdateState::PendingReboot ==> after_stage(u, update) == u,
        u.state == UpdateState::Idle ==> after_stage(u, update).state == (UpdateState::Downloading {
            progress_percent: 0,
        }),
        u.state == UpdateState::Idle ==> after_stage(u, update).pending_update == Some(update),
        after_stage(u, update).current_version == u.current_version,
{
}

/// Applying is allowed exactly when an update waits for the reboot; it then
/// installs the pending update's version, ends idle and clears the pending
/// update; otherwise it changes nothing.
pub proof fn lemma_apply_meaning(u: UpdaterView)
    ensures
        can_apply(u) <==> u.state == UpdateState::PendingReboot,
        u.state != UpdateState::PendingReboot ==> after_apply(u) == u,
        u.state == UpdateState::PendingReboot ==> after_apply(u).state == UpdateState::Idle,
        u.state == UpdateState::PendingReboot ==> after_apply(u).pending_update is None,
        u.state == UpdateState::PendingReboot && u.pending_update is Some ==> after_apply(u).current_version
            == u.pending_update->0.version@,
        u.state == UpdateState::PendingReboot && u.pending_update is None ==> after_apply(u).current_version
            == u.current_version,
{
}

/// Progress at 100 percent or more completes the download; below, it records
/// the percentage; neither changes the installed version or the pending
/// update. A rollback and a check both end idle; the rollback drops the
/// pending update, the check keeps it; neither changes the installed version.
pub proof fn lemma_progress_rollback_check_meaning(u: UpdaterView, percent: u8)
    ensures
        percent >= 100 ==> after_progress(u, percent).state == UpdateState::PendingReboot,
        percent < 100 ==> after_progress(u, percent).state == (UpdateState::Downloading {
            progress_percent: percent,
        }),
        after_progress(u, percent).current_version == u.current_version,
        after_progress(u, percent).pending_update == u.pending_update,
        after_rollback(u).state == UpdateState::Idle,
        after_rollback(u).pending_update is None,
        after_rollback(u).current_version == u.current_version,
        after_check(u).state == UpdateState::Idle,
        after_check(u).pending_update == u.pending_update,
        after_check(u).current_version == u.current_version,
        initial(u.current_version).state == UpdateState::Idle,
        initial(u.current_version).pending_update is None,
{
}

/// The full update lifecycle: an idle updater that stages an update, sees the
/// download complete and applies it ends idle, with the update's version
/// installed and nothing pending.
pub proof fn lemma_update_lifecycle(u: UpdaterView, update: OsUpdate, percent: u8)
    requires
        u.state is Idle,
        percent >= 100,
    ensures
        ({
            let staged = after_stage(u, update);
            let downloaded = after_progress(staged, percent);
            &&& can_apply(downloaded)
            &&& after_apply(downloaded) == UpdaterView {
                current_version: update.version@,
                state: UpdateState::Idle,
                pending_update: None,
            }
        }),
{
}

/// A rollback undoes staging: an idle updater with nothing pending that
/// stages an update and rolls back is as it was.
pub proof fn lemma_rollback_undoes_stage(u: UpdaterView, update: OsUpdate)
    requires
        u.state is Idle,
        u.pending_update is None,
    ensures
        after_rollback(after_stage(u, update)) == u,
{
}

/// While a download is in progress, staging is refused and changes nothing;
/// applying is refused too until the download completes.
pub proof fn lemma_busy_refuses(u: UpdaterView, update: OsUpdate, percent: u8)
    requires
        percent < 100,
    ensures
        !can_stage(after_progress(u, percent)),
        after_stage(after_progress(u, percent), update) == after_progress(u, percent),
        !can_apply(after_progress(u, percent)),
        after_apply(after_progress(u, percent)) == after_progress(u, percent),
{
}

/// Only applying changes the installed version, and it installs the version
/// of the staged update.
pub proof fn lemma_version_changes_only_by_apply(u: UpdaterView, update: OsUpdate, percent: u8)
    ensures
        after_check(u).current_version == u.current_version,
        after_stage(u, update).current_version == u.current_version,
        after_progress(u, percent).current_version == u.current_version,
        after_rollback(u).current_version == u.current_version,
        can_apply(u) && u.pending_update is Some ==> after_apply(u).current_version
            == u.pending_update->0.version@,
{
}

} // verus!
