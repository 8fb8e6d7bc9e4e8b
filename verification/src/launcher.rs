//! The launcher's decisions: bringing an application's open window to the
//! front, or starting the application when none is open.
use vstd::prelude::*;
use crate::text::same_text;

verus! {

/// The lower-case form of `s`, as `str::to_lowercase` gives it (full
/// Unicode case mapping).
pub uninterp spec fn lowercase(s: Seq<char>) -> Seq<char>;

/// `str::to_lowercase`: the lower-case form of `s`.
#[verifier::external_body]
fn to_lowercase(s: &str) -> (r: String)
    ensures
        r@ == lowercase(s@),
{
    s.to_lowercase()
}

/// A message the launcher receives from the shell's dispatcher.
pub enum LauncherMessage {
    /// Open application `app_id`, started with the shell command line
    /// `exec_line`.
    LaunchApp { app_id: String, exec_line: String },
    /// Go to the home screen.
    MinimizeToHome,
    /// Any message the launcher does not handle.
    Other,
}

/// What the launcher does with a message.
pub enum LauncherAction {
    /// Maximize and activate the open window at this position.
    Activate(usize),
    /// Run `command` with `args`.
    Spawn { command: String, args: Vec<String> },
    /// Minimize every open window.
    MinimizeAll,
    /// Nothing to do.
    Nothing,
}

/// Whether the window application id `w` names application `app_id`,
/// ignoring case.
pub open spec fn names_app(w: Option<String>, app_id: Seq<char>) -> bool {
    match w {
        Some(id) => lowercase(id@) == lowercase(app_id),
        None => false,
    }
}

/// The position of the first open window of `app_id`, comparing application
/// ids without regard to case; windows without an application id never
/// match.
pub fn find_app_window(app_id: &str, windows: &Vec<Option<String>>) -> (r: Option<usize>)
    ensures
        match r {
            Some(i) => i < windows.len() && names_app(windows@[i as int], app_id@) && forall|k: int|
                0 <= k < i ==> !names_app(#[trigger] windows@[k], app_id@),
            None => forall|k: int| 0 <= k < windows.len() ==> !names_app(#[trigger] windows@[k], app_id@),
        },
{
    let wanted = to_lowercase(app_id);
    let mut i: usize = 0;
    while i < windows.len()
        invariant
            i <= windows.len(),
            wanted@ == lowercase(app_id@),
            forall|k: int| 0 <= k < i ==> !names_app(#[trigger] windows@[k], app_id@),
        decreases windows.len() - i,
    {
        match &windows[i] {
            Some(id) => {
                let low = to_lowercase(id.as_str());
                if same_text(low.as_str(), wanted.as_str()) {
                    return Some(i);
                }
            },
            None => {},
        }
        i = i + 1;
    }
    None
}

/// How the launcher starts an application from its shell command line:
/// `sh -c` followed by the line, and nothing for an empty line.
pub fn start_command(exec_line: &str) -> (r: Option<(String, Vec<String>)>)
    ensures
        exec_line@.len() == 0 ==> r is None,
        exec_line@.len() > 0 ==> (r matches Some((command, args)) && command@ == "sh"@ && args@.len() == 2
            && args@[0]@ == "-c"@ && args@[1]@ == exec_line@),
{
    if exec_line.unicode_len() == 0 {
        return None;
    }
    let mut args: Vec<String> = Vec::new();
    args.push("-c".to_owned());
    args.push(exec_line.to_owned());
    Some(("sh".to_owned(), args))
}

/// What the launcher does with `msg` while the windows whose application
/// ids are `windows` are open: an application with an open window is
/// brought to the front, one without is started with `sh -c` (unless its
/// command is empty); going home minimizes every window; other messages
/// are ignored.
pub fn on_launcher_message(msg: LauncherMessage, windows: &Vec<Option<String>>) -> (r: LauncherAction)
    ensures
        match msg {
            LauncherMessage::LaunchApp { app_id, exec_line } => {
                if exists|k: int| 0 <= k < windows.len() && names_app(#[trigger] windows@[k], app_id@) {
                    r matches LauncherAction::Activate(i) && i < windows.len() && names_app(
                        windows@[i as int],
                        app_id@,
                    ) && forall|k: int| 0 <= k < i ==> !names_app(#[trigger] windows@[k], app_id@)
                } else if exec_line@.len() == 0 {
                    r is Nothing
                } else {
                    r matches LauncherAction::Spawn { command, args } && command@ == "sh"@ && args@.len()
                        == 2 && args@[0]@ == "-c"@ && args@[1]@ == exec_line@
                }
            },
            LauncherMessage::MinimizeToHome => r is MinimizeAll,
            LauncherMessage::Other => r is Nothing,
        },
{
    match msg {
        LauncherMessage::LaunchApp { app_id, exec_line } => match find_app_window(app_id.as_str(), windows) {
            Some(i) => LauncherAction::Activate(i),
            None => match start_command(exec_line.as_str()) {
                Some((command, args)) => LauncherAction::Spawn { command, args },
                None => LauncherAction::Nothing,
            },
        },
        LauncherMessage::MinimizeToHome => LauncherAction::MinimizeAll,
        LauncherMessage::Other => LauncherAction::Nothing,
    }
}

} // verus!
