//! Which windows and keys desktop automation refuses to touch.

use vstd::prelude::*;
use crate::text::{all_space, chars_of, contains_seq, contains_str, eq_str, is_space, lower_chars, lower_seq, trim_chars, trim_seq};

verus! {

/// Applications that are never automated: shells and terminals, system security and
/// sign-in surfaces, password managers, and assistant applications.
pub open spec fn denied_app(a: Seq<char>) -> bool {
    ||| a == "cmd.exe"@ || a == "powershell.exe"@ || a == "pwsh.exe"@ || a == "windowsterminal.exe"@
    ||| a == "wt.exe"@ || a == "conhost.exe"@ || a == "wsl.exe"@ || a == "bash.exe"@
    ||| a == "mintty.exe"@ || a == "wezterm-gui.exe"@ || a == "alacritty.exe"@ || a == "tabby.exe"@
    ||| a == "hyper.exe"@ || a == "putty.exe"@ || a == "regedit.exe"@ || a == "credentialuibroker.exe"@
    ||| a == "logonui.exe"@ || a == "lockapp.exe"@ || a == "securityhealthhost.exe"@
    ||| a == "securityhealthsystray.exe"@ || a == "msmpeng.exe"@ || a == "1password.exe"@
    ||| a == "bitwarden.exe"@ || a == "keepass.exe"@ || a == "keepassxc.exe"@ || a == "enpass.exe"@
    ||| a == "dashlane.exe"@ || a == "lastpass.exe"@ || a == "nordpass.exe"@ || a == "chatgpt.exe"@
    ||| a == "codex.exe"@
}

/// Window titles that mark a sensitive or terminal window.
pub open spec fn denied_title(t: Seq<char>) -> bool {
    ||| contains_seq(t, "windows security"@) || contains_seq(t, "windows powershell"@)
    ||| contains_seq(t, "command prompt"@) || contains_seq(t, "chatgpt"@) || contains_seq(t, "codex"@)
    ||| contains_seq(t, "sign in to windows"@) || contains_seq(t, "sign-in"@) || contains_seq(t, "sign in"@)
    ||| contains_seq(t, "log in"@) || contains_seq(t, "login"@) || contains_seq(t, "authentication"@)
    ||| contains_seq(t, "verify your identity"@) || contains_seq(t, "verification code"@)
    ||| contains_seq(t, "credential"@) || contains_seq(t, "password"@) || contains_seq(t, "password manager"@)
    ||| trim_seq(t) == "run"@
}

/// A window that desktop automation must not touch (names compared in ASCII lower case):
/// this process, denied applications, console classes, the Run dialog, and titles of
/// security, sign-in and terminal windows.
pub open spec fn denied_target(current_pid: u32, process_id: u32, application: Seq<char>, title: Seq<char>, class_name: Seq<char>) -> bool {
    let app = lower_seq(application);
    let t = lower_seq(title);
    let class = lower_seq(class_name);
    ||| process_id == current_pid
    ||| denied_app(app)
    ||| contains_seq(app, "chatcmd"@)
    ||| class == "consolewindowclass"@ || class == "cascadia_hosting_window_class"@ || class == "virtualconsoleclass"@
    ||| (app == "explorer.exe"@ && class == "#32770"@)
    ||| denied_title(t)
}

fn is_denied_app(a: &[char]) -> (r: bool)
    ensures
        r == denied_app(a@),
{
    eq_str(a, "cmd.exe") || eq_str(a, "powershell.exe") || eq_str(a, "pwsh.exe") || eq_str(a, "windowsterminal.exe")
        || eq_str(a, "wt.exe") || eq_str(a, "conhost.exe") || eq_str(a, "wsl.exe") || eq_str(a, "bash.exe")
        || eq_str(a, "mintty.exe") || eq_str(a, "wezterm-gui.exe") || eq_str(a, "alacritty.exe") || eq_str(a, "tabby.exe")
        || eq_str(a, "hyper.exe") || eq_str(a, "putty.exe") || eq_str(a, "regedit.exe") || eq_str(a, "credentialuibroker.exe")
        || eq_str(a, "logonui.exe") || eq_str(a, "lockapp.exe") || eq_str(a, "securityhealthhost.exe")
        || eq_str(a, "securityhealthsystray.exe") || eq_str(a, "msmpeng.exe") || eq_str(a, "1password.exe")
        || eq_str(a, "bitwarden.exe") || eq_str(a, "keepass.exe") || eq_str(a, "keepassxc.exe") || eq_str(a, "enpass.exe")
        || eq_str(a, "dashlane.exe") || eq_str(a, "lastpass.exe") || eq_str(a, "nordpass.exe") || eq_str(a, "chatgpt.exe")
        || eq_str(a, "codex.exe")
}

fn is_denied_title(t: &[char]) -> (r: bool)
    ensures
        r == denied_title(t@),
{
    if contains_str(t, "windows security") || contains_str(t, "windows powershell")
        || contains_str(t, "command prompt") || contains_str(t, "chatgpt") || contains_str(t, "codex")
        || contains_str(t, "sign in to windows") || contains_str(t, "sign-in") || contains_str(t, "sign in")
        || contains_str(t, "log in") || contains_str(t, "login") || contains_str(t, "authentication")
        || contains_str(t, "verify your identity") || contains_str(t, "verification code")
        || contains_str(t, "credential") || contains_str(t, "password") || contains_str(t, "password manager") {
        return true;
    }
    let trimmed = trim_chars(t);
    eq_str(trimmed.as_slice(), "run")
}

/// Decides whether a window is off limits for desktop automation.
pub fn is_denied_target(current_pid: u32, process_id: u32, application: &str, title: &str, class_name: &str) -> (r: bool)
    ensures
        r == denied_target(current_pid, process_id, application@, title@, class_name@),
{
    if process_id == current_pid {
        return true;
    }
    let app = lower_chars(chars_of(application).as_slice());
    let t = lower_chars(chars_of(title).as_slice());
    let class = lower_chars(chars_of(class_name).as_slice());
    is_denied_app(app.as_slice())
        || contains_str(app.as_slice(), "chatcmd")
        || eq_str(class.as_slice(), "consolewindowclass")
        || eq_str(class.as_slice(), "cascadia_hosting_window_class")
        || eq_str(class.as_slice(), "virtualconsoleclass")
        || (eq_str(app.as_slice(), "explorer.exe") && eq_str(class.as_slice(), "#32770"))
        || is_denied_title(t.as_slice())
}

/// Key names that reach the operating system shell (Windows, Meta, Command, Super).
pub open spec fn forbidden_key(k: Seq<char>) -> bool {
    let n = lower_seq(trim_seq(k));
    n == "win"@ || n == "windows"@ || n == "meta"@ || n == "cmd"@ || n == "command"@ || n == "super"@ || n == "os"@
}

/// Refuses shortcuts with the Windows, Meta or Command key.
pub fn is_forbidden_key(key: &str) -> (r: bool)
    ensures
        r == forbidden_key(key@),
{
    let trimmed = trim_chars(chars_of(key).as_slice());
    let n = lower_chars(trimmed.as_slice());
    let s = n.as_slice();
    eq_str(s, "win") || eq_str(s, "windows") || eq_str(s, "meta") || eq_str(s, "cmd") || eq_str(s, "command")
        || eq_str(s, "super") || eq_str(s, "os")
}

} // verus!
