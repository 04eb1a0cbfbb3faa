//! Decisions of the desktop shell: the tray icon and command replies.
use vstd::prelude::*;
use vstd::string::StringExecFns;

verus! {

/// The icon the tray shows.
#[derive(PartialEq, Eq, Structural, Clone, Copy, Debug)]
pub enum TrayIcon {
    Normal,
    Recording,
}

/// What the tray watcher does after reading the recording flag.
#[derive(PartialEq, Eq, Structural, Clone, Copy, Debug)]
pub struct TrayStep {
    /// The flag to remember for the next reading.
    pub last_recording: bool,
    /// The icon to switch to, where the flag changed.
    pub switch_to: Option<TrayIcon>,
}

/// The watcher's step: when the flag differs from the one last seen, it is
/// remembered and the icon follows it; otherwise nothing changes.
pub fn tray_step(last_recording: bool, recording: bool) -> (r: TrayStep)
    ensures
        r.last_recording == recording,
        recording != last_recording ==> r.switch_to == Some(
            if recording {
                TrayIcon::Recording
            } else {
                TrayIcon::Normal
            },
        ),
        recording == last_recording ==> r.switch_to is None,
{
    if recording != last_recording {
        let icon = if recording {
            TrayIcon::Recording
        } else {
            TrayIcon::Normal
        };
        TrayStep { last_recording: recording, switch_to: Some(icon) }
    } else {
        TrayStep { last_recording, switch_to: None }
    }
}

/// The tooltip that goes with an icon.
pub fn tooltip_for(icon: TrayIcon) -> (r: String)
    ensures
        icon == TrayIcon::Recording ==> r@ == "Synthia - Recording..."@,
        icon == TrayIcon::Normal ==> r@ == "Synthia - Voice Assistant"@,
{
    match icon {
        TrayIcon::Recording => String::from_str("Synthia - Recording..."),
        TrayIcon::Normal => String::from_str("Synthia - Voice Assistant"),
    }
}

/// The status word for whether the assistant process runs.
pub fn status_label(running: bool) -> (r: String)
    ensures
        running ==> r@ == "running"@,
        !running ==> r@ == "stopped"@,
{
    if running {
        String::from_str("running")
    } else {
        String::from_str("stopped")
    }
}

/// The reply to a change of mode: `Mode set to: <mode>`.
pub fn set_mode(mode: &str) -> (r: Result<String, String>)
    ensures
        r is Ok,
        r matches Ok(s) && s@ == "Mode set to: "@ + mode@,
{
    let mut s = String::from_str("Mode set to: ");
    s.append(mode);
    Ok(s)
}

} // verus!
