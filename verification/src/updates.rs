//! What's new: which Update Log entries a returning player is shown, what entering a save opens first, and the
//! updater's pop-up and its error messages.
use vstd::prelude::*;
use crate::labels::latest_update;
use crate::text::str_eq;

verus! {

/// The Update Log entries (by index, newest first) whose version is newer than the last one seen.
pub open spec fn newer_indices(newer: Seq<bool>) -> Seq<usize>
    decreases newer.len(),
{
    if newer.len() == 0 {
        Seq::empty()
    } else {
        let b = newer_indices(newer.drop_last());
        if newer.last() { b.push((newer.len() - 1) as usize) } else { b }
    }
}

/// The entries shown as "what's new": none when the last one seen is the latest (or the log is empty); only the
/// newest when the last one seen can't be read (a player with no record); else the first 3 newer than it.
pub open spec fn spec_unseen(seen_is_latest: bool, seen_readable: bool, newer: Seq<bool>) -> Seq<usize> {
    if seen_is_latest || newer.len() == 0 {
        Seq::empty()
    } else if !seen_readable {
        seq![0usize]
    } else {
        let all = newer_indices(newer);
        if all.len() <= 3 { all } else { all.subrange(0, 3) }
    }
}

/// Update Log entries newer than the last one this player saw (`seen`, the "last_update_seen" setting):
/// `seen_readable` = its version number could be read; `newer[i]` = entry i's version is newer than it.
pub fn unseen_updates(seen: &str, seen_readable: bool, newer: &Vec<bool>) -> (r: Vec<usize>)
    ensures
        r@ == spec_unseen(seen@ == "v3.0.4"@, seen_readable, newer@),
{
    let latest = latest_update();
    if str_eq(seen, latest) || newer.len() == 0 {
        return Vec::new();
    }
    if !seen_readable {
        return vec![0];
    }
    let mut r: Vec<usize> = Vec::new();
    let mut i: usize = 0;
    while i < newer.len()
        invariant
            i <= newer@.len(),
            r@ == newer_indices(newer@.subrange(0, i as int)),
        decreases newer@.len() - i,
    {
        proof {
            assert(newer@.subrange(0, i + 1).drop_last() =~= newer@.subrange(0, i as int));
        }
        if newer[i] {
            r.push(i);
        }
        i = i + 1;
    }
    proof {
        assert(newer@.subrange(0, newer@.len() as int) =~= newer@);
    }
    if r.len() <= 3 {
        r
    } else {
        let mut first: Vec<usize> = Vec::new();
        let mut k: usize = 0;
        while k < 3
            invariant
                k <= 3 < r@.len(),
                first@ == r@.subrange(0, k as int),
            decreases 3 - k,
        {
            first.push(r[k]);
            k = k + 1;
            proof {
                assert(first@ =~= r@.subrange(0, k as int));
            }
        }
        first
    }
}

/// What entering a save opens first.
#[derive(Clone, Copy, PartialEq, Eq, Debug, Structural)]
pub enum OnEnter {
    /// a brand-new player: the tutorial (which covers what's new)
    Tutorial,
    /// a returning player with unseen updates: the "what's new" pop-up
    WhatsNew,
    Nothing,
}

/// On opening a save: a brand-new player (no rolls, nothing owned) who hasn't done the tutorial gets it; anyone
/// else sees what's new, once, when there is something unseen.
pub fn on_enter_game(fresh: bool, tutorial_done: bool, unseen: usize) -> (r: OnEnter)
    ensures
        r == if fresh && !tutorial_done { OnEnter::Tutorial } else if unseen > 0 { OnEnter::WhatsNew } else { OnEnter::Nothing },
{
    if fresh && !tutorial_done {
        OnEnter::Tutorial
    } else if unseen > 0 {
        OnEnter::WhatsNew
    } else {
        OnEnter::Nothing
    }
}

/// The updater's phases that show its pop-up (and hold the game).
pub open spec fn modal_phase(phase: Seq<char>) -> bool {
    phase == "available"@ || phase == "downloading"@ || phase == "installing"@ || phase == "error"@
}

/// The update pop-up is up (the game waits behind it).
pub fn update_modal_active(phase: &str) -> (b: bool)
    ensures
        b == modal_phase(phase@),
{
    str_eq(phase, "available") || str_eq(phase, "downloading") || str_eq(phase, "installing") || str_eq(phase, "error")
}

/// The message for an update that went wrong.
pub open spec fn spec_update_error(code: Seq<char>, detail: Seq<char>) -> Seq<char> {
    if code == "net"@ {
        "Couldn't download the update. Check your internet connection."@
    } else if code == "corrupt"@ {
        "The downloaded file is damaged. Please try again."@
    } else if code == "perm"@ {
        "The game can't replace itself in this folder. Move it to another folder (for example the Desktop) or download the new version by hand."@
    } else {
        "Something went wrong ("@ + (if detail.len() == 0 { code } else { detail }) + ")."@
    }
}

/// What the update pop-up says went wrong (the error's code, and its detail when there is one).
pub fn update_error_text(code: &str, detail: &str) -> (r: String)
    ensures
        r@ == spec_update_error(code@, detail@),
{
    if str_eq(code, "net") {
        String::from_str("Couldn't download the update. Check your internet connection.")
    } else if str_eq(code, "corrupt") {
        String::from_str("The downloaded file is damaged. Please try again.")
    } else if str_eq(code, "perm") {
        String::from_str(
            "The game can't replace itself in this folder. Move it to another folder (for example the Desktop) or download the new version by hand.",
        )
    } else {
        let mut r = String::from_str("Something went wrong (");
        if detail.unicode_len() == 0 {
            r.append(code);
        } else {
            r.append(detail);
        }
        r.append(").");
        r
    }
}

/// Where the updater is.
#[derive(Clone, Copy, PartialEq, Eq, Debug, Structural)]
pub enum UpdPhase {
    Idle,
    Checking,
    Available,
    Downloading,
    Installing,
    Error,
}

/// What happens to the updater.
#[derive(Clone, Copy, PartialEq, Eq, Debug, Structural)]
pub enum UpdEvent {
    /// a frame: whether updates are on, and whether the time for the next check has come
    Tick { enabled: bool, due: bool },
    /// the check found a newer version
    Found,
    /// the check found none
    UpToDate,
    /// the check failed (no internet, the server down)
    CheckFailed,
    /// "Update now": whether the new version is known
    StartDownload { known: bool },
    /// "Try again": whether the file is already downloaded, and whether the new version is known
    Retry { downloaded: bool, known: bool },
    /// the download is ready to install
    Downloaded,
    /// the download or the install failed
    Failed,
}

/// What the game does next for the updater.
#[derive(Clone, Copy, PartialEq, Eq, Debug, Structural)]
pub enum UpdAction {
    Nothing,
    /// ask for the latest version (in the background)
    Check,
    /// check again after the usual interval
    WaitLong,
    /// check again a little later
    WaitShort,
    Download,
    /// save everything and hand over to the installer
    Install,
}

/// The updater's steps: it checks only when idle, on and due; a version found shows the pop-up; a check that
/// fails tries again later without holding the game; "Try again" doesn't download a file twice.
pub open spec fn spec_updater(phase: UpdPhase, ev: UpdEvent) -> (UpdPhase, UpdAction) {
    match ev {
        UpdEvent::Tick { enabled, due } => if enabled && phase == UpdPhase::Idle && due {
            (UpdPhase::Checking, UpdAction::Check)
        } else {
            (phase, UpdAction::Nothing)
        },
        UpdEvent::Found => (UpdPhase::Available, UpdAction::Nothing),
        UpdEvent::UpToDate => (UpdPhase::Idle, UpdAction::WaitLong),
        UpdEvent::CheckFailed => (UpdPhase::Idle, UpdAction::WaitShort),
        UpdEvent::StartDownload { known } => if known {
            (UpdPhase::Downloading, UpdAction::Download)
        } else {
            (phase, UpdAction::Nothing)
        },
        UpdEvent::Retry { downloaded, known } => if downloaded {
            (UpdPhase::Installing, UpdAction::Install)
        } else if known {
            (UpdPhase::Downloading, UpdAction::Download)
        } else {
            (phase, UpdAction::Nothing)
        },
        UpdEvent::Downloaded => (UpdPhase::Installing, UpdAction::Install),
        UpdEvent::Failed => (UpdPhase::Error, UpdAction::Nothing),
    }
}

/// The updater's next phase and what to do.
pub fn updater_step(phase: UpdPhase, ev: UpdEvent) -> (r: (UpdPhase, UpdAction))
    ensures
        r == spec_updater(phase, ev),
{
    match ev {
        UpdEvent::Tick { enabled, due } => if enabled && phase == UpdPhase::Idle && due {
            (UpdPhase::Checking, UpdAction::Check)
        } else {
            (phase, UpdAction::Nothing)
        },
        UpdEvent::Found => (UpdPhase::Available, UpdAction::Nothing),
        UpdEvent::UpToDate => (UpdPhase::Idle, UpdAction::WaitLong),
        UpdEvent::CheckFailed => (UpdPhase::Idle, UpdAction::WaitShort),
        UpdEvent::StartDownload { known } => if known {
            (UpdPhase::Downloading, UpdAction::Download)
        } else {
            (phase, UpdAction::Nothing)
        },
        UpdEvent::Retry { downloaded, known } => if downloaded {
            (UpdPhase::Installing, UpdAction::Install)
        } else if known {
            (UpdPhase::Downloading, UpdAction::Download)
        } else {
            (phase, UpdAction::Nothing)
        },
        UpdEvent::Downloaded => (UpdPhase::Installing, UpdAction::Install),
        UpdEvent::Failed => (UpdPhase::Error, UpdAction::Nothing),
    }
}

/// The phases that hold the game behind the update pop-up.
pub open spec fn holds_game(p: UpdPhase) -> bool {
    p == UpdPhase::Available || p == UpdPhase::Downloading || p == UpdPhase::Installing || p == UpdPhase::Error
}

/// A failed check never holds the game (no internet doesn't stop anyone playing), and once a newer version is
/// found the game stays held whatever the player does with the pop-up (the game must be up to date).
pub proof fn law_updater_holds_only_for_updates(phase: UpdPhase, ev: UpdEvent)
    ensures
        ev == UpdEvent::CheckFailed ==> !holds_game(spec_updater(phase, ev).0),
        holds_game(phase) && !(ev is Found) && !(ev is UpToDate) && !(ev is CheckFailed) ==> holds_game(spec_updater(phase, ev).0),
{
}

} // verus!
