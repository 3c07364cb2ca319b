//! Mapping a process's command name to the application that hosts it: the
//! terminal or editor whose window a session can be brought to.

use vstd::prelude::*;
use crate::text::{contains_seq, lower_seq, lower_str, str_contains, str_eq, str_ends_with};

verus! {

broadcast use vstd::std_specs::vec::group_vec_axioms, vstd::seq::group_seq_axioms;

/// The base name of a command: what follows the last slash.
pub open spec fn command_base(p: Seq<char>) -> Seq<char>
    decreases p.len(),
{
    if p.len() == 0 {
        p
    } else if p.last() == '/' {
        Seq::empty()
    } else {
        command_base(p.drop_last()).push(p.last())
    }
}

/// The base name without a trailing ".exe".
pub open spec fn strip_exe(p: Seq<char>) -> Seq<char> {
    if crate::text::ends_with(p, ".exe"@) {
        p.take(p.len() - 4)
    } else {
        p
    }
}

/// The application a bundle path names, when the case-folded command holds
/// a known bundle.
pub open spec fn bundle_app(lower: Seq<char>) -> Option<Seq<char>> {
    if contains_seq(lower, "zed.app"@) {
        Some("Zed"@)
    } else if contains_seq(lower, "visual studio code.app"@) || contains_seq(lower, "code.app"@) {
        Some("Visual Studio Code"@)
    } else if contains_seq(lower, "cursor.app"@) {
        Some("Cursor"@)
    } else if contains_seq(lower, "windsurf.app"@) {
        Some("Windsurf"@)
    } else if contains_seq(lower, "iterm.app"@) || contains_seq(lower, "iterm2.app"@) {
        Some("iTerm"@)
    } else if contains_seq(lower, "terminal.app"@) {
        Some("Terminal"@)
    } else if contains_seq(lower, "alacritty.app"@) {
        Some("Alacritty"@)
    } else if contains_seq(lower, "kitty.app"@) {
        Some("kitty"@)
    } else if contains_seq(lower, "warp.app"@) {
        Some("Warp"@)
    } else if contains_seq(lower, "hyper.app"@) {
        Some("Hyper"@)
    } else if contains_seq(lower, "sublime text.app"@) {
        Some("Sublime Text"@)
    } else {
        None
    }
}

/// The application a plain command name names, case folded, path and
/// platform suffix stripped.
pub open spec fn base_app(base: Seq<char>) -> Option<Seq<char>> {
    if base == "terminal"@ {
        Some("Terminal"@)
    } else if base == "iterm2"@ || base == "iterm"@ {
        Some("iTerm"@)
    } else if base == "alacritty"@ {
        Some("Alacritty"@)
    } else if base == "kitty"@ {
        Some("kitty"@)
    } else if base == "warp"@ {
        Some("Warp"@)
    } else if base == "hyper"@ {
        Some("Hyper"@)
    } else if base == "wezterm"@ || base == "wezterm-gui"@ {
        Some("WezTerm"@)
    } else if base == "windowsterminal"@ {
        Some("Windows Terminal"@)
    } else if base == "pwsh"@ || base == "powershell"@ {
        Some("PowerShell"@)
    } else if base == "cmd"@ {
        Some("Command Prompt"@)
    } else if base == "gnome-terminal-server"@ || base == "gnome-terminal"@ {
        Some("GNOME Terminal"@)
    } else if base == "konsole"@ {
        Some("Konsole"@)
    } else if base == "xterm"@ {
        Some("XTerm"@)
    } else if base == "zed"@ || base == "zed-editor"@ {
        Some("Zed"@)
    } else if base == "code"@ || base == "code helper"@ || base == "electron"@ {
        Some("Visual Studio Code"@)
    } else if base == "cursor"@ {
        Some("Cursor"@)
    } else if base == "windsurf"@ {
        Some("Windsurf"@)
    } else if base == "sublime_text"@ || base == "subl"@ {
        Some("Sublime Text"@)
    } else if base == "atom"@ {
        Some("Atom"@)
    } else {
        None
    }
}

/// The application a command names: a known bundle inside the path first,
/// else the case-folded base name, with a platform executable suffix
/// stripped, looked up in the fixed table.
pub open spec fn app_name_of(comm: Seq<char>) -> Option<Seq<char>> {
    let lower = lower_seq(comm);
    if contains_seq(lower, ".app"@) && bundle_app(lower) is Some {
        bundle_app(lower)
    } else {
        base_app(strip_exe(command_base(lower)))
    }
}

proof fn lemma_command_base_range(p: Seq<char>, cut: int)
    requires
        0 <= cut <= p.len(),
        forall|j: int| cut <= j < p.len() ==> p[j] != '/',
        cut == 0 || p[cut - 1] == '/',
    ensures
        command_base(p) =~= p.subrange(cut, p.len() as int),
    decreases p.len() - cut,
{
    if cut == p.len() {
        if p.len() > 0 {
            assert(p.last() == '/');
        }
    } else {
        lemma_command_base_range(p.drop_last(), cut);
        assert(p.drop_last().subrange(cut, p.len() - 1) =~= p.subrange(cut, p.len() - 1));
        assert(command_base(p) =~= p.subrange(cut, p.len() as int));
    }
}

/// The base name of a command after its last slash, case already folded.
fn base_of(lower: &str) -> (r: String)
    ensures
        r@ == command_base(lower@),
{
    let cs = crate::text::chars_of(lower);
    let n = cs.len();
    let mut cut: usize = n;
    while cut > 0 && cs[cut - 1] != '/'
        invariant
            0 <= cut <= n,
            n == cs@.len(),
            cs@ == lower@,
            forall|j: int| cut <= j < n ==> cs@[j] != '/',
        decreases cut,
    {
        cut -= 1;
    }
    let mut out: Vec<char> = Vec::new();
    let mut i: usize = cut;
    while i < n
        invariant
            cut <= i <= n,
            n == cs@.len(),
            cs@ == lower@,
            out@ == lower@.subrange(cut as int, i as int),
        decreases n - i,
    {
        out.push(cs[i]);
        i += 1;
        proof {
            assert(out@ =~= lower@.subrange(cut as int, i as int));
        }
    }
    proof {
        lemma_command_base_range(lower@, cut as int);
        assert(out@ =~= lower@.subrange(cut as int, n as int));
    }
    crate::text::string_of_chars(&out)
}

/// The application a process command names, or nothing for an unknown one.
pub fn get_app_name(comm: &str) -> (r: Option<&'static str>)
    ensures
        match r {
            Some(s) => app_name_of(comm@) == Some(s@),
            None => app_name_of(comm@) is None,
        },
{
    proof {
        reveal_strlit(".app");
        reveal_strlit("zed.app");
        reveal_strlit("visual studio code.app");
        reveal_strlit("code.app");
        reveal_strlit("cursor.app");
        reveal_strlit("windsurf.app");
        reveal_strlit("iterm.app");
        reveal_strlit("iterm2.app");
        reveal_strlit("terminal.app");
        reveal_strlit("alacritty.app");
        reveal_strlit("kitty.app");
        reveal_strlit("warp.app");
        reveal_strlit("hyper.app");
        reveal_strlit("sublime text.app");
        reveal_strlit(".exe");
    }
    let lower = lower_str(comm);
    let l = lower.as_str();
    if str_contains(l, ".app") {
        if str_contains(l, "zed.app") {
            return Some("Zed");
        }
        if str_contains(l, "visual studio code.app") || str_contains(l, "code.app") {
            return Some("Visual Studio Code");
        }
        if str_contains(l, "cursor.app") {
            return Some("Cursor");
        }
        if str_contains(l, "windsurf.app") {
            return Some("Windsurf");
        }
        if str_contains(l, "iterm.app") || str_contains(l, "iterm2.app") {
            return Some("iTerm");
        }
        if str_contains(l, "terminal.app") {
            return Some("Terminal");
        }
        if str_contains(l, "alacritty.app") {
            return Some("Alacritty");
        }
        if str_contains(l, "kitty.app") {
            return Some("kitty");
        }
        if str_contains(l, "warp.app") {
            return Some("Warp");
        }
        if str_contains(l, "hyper.app") {
            return Some("Hyper");
        }
        if str_contains(l, "sublime text.app") {
            return Some("Sublime Text");
        }
    }
    let base_full = base_of(l);
    let base: String = if str_ends_with(base_full.as_str(), ".exe") {
        let nb = base_full.as_str().unicode_len();
        base_full.as_str().substring_char(0, nb - 4).to_owned()
    } else {
        base_full
    };
    let b = base.as_str();
    proof {
        reveal_strlit("terminal");
        reveal_strlit("iterm2");
        reveal_strlit("iterm");
        reveal_strlit("alacritty");
        reveal_strlit("kitty");
        reveal_strlit("warp");
        reveal_strlit("hyper");
        reveal_strlit("wezterm");
        reveal_strlit("wezterm-gui");
        reveal_strlit("windowsterminal");
        reveal_strlit("pwsh");
        reveal_strlit("powershell");
        reveal_strlit("cmd");
        reveal_strlit("gnome-terminal-server");
        reveal_strlit("gnome-terminal");
        reveal_strlit("konsole");
        reveal_strlit("xterm");
        reveal_strlit("zed");
        reveal_strlit("zed-editor");
        reveal_strlit("code");
        reveal_strlit("code helper");
        reveal_strlit("electron");
        reveal_strlit("cursor");
        reveal_strlit("windsurf");
        reveal_strlit("sublime_text");
        reveal_strlit("subl");
        reveal_strlit("atom");
    }
    if str_eq(b, "terminal") {
        Some("Terminal")
    } else if str_eq(b, "iterm2") || str_eq(b, "iterm") {
        Some("iTerm")
    } else if str_eq(b, "alacritty") {
        Some("Alacritty")
    } else if str_eq(b, "kitty") {
        Some("kitty")
    } else if str_eq(b, "warp") {
        Some("Warp")
    } else if str_eq(b, "hyper") {
        Some("Hyper")
    } else if str_eq(b, "wezterm") || str_eq(b, "wezterm-gui") {
        Some("WezTerm")
    } else if str_eq(b, "windowsterminal") {
        Some("Windows Terminal")
    } else if str_eq(b, "pwsh") || str_eq(b, "powershell") {
        Some("PowerShell")
    } else if str_eq(b, "cmd") {
        Some("Command Prompt")
    } else if str_eq(b, "gnome-terminal-server") || str_eq(b, "gnome-terminal") {
        Some("GNOME Terminal")
    } else if str_eq(b, "konsole") {
        Some("Konsole")
    } else if str_eq(b, "xterm") {
        Some("XTerm")
    } else if str_eq(b, "zed") || str_eq(b, "zed-editor") {
        Some("Zed")
    } else if str_eq(b, "code") || str_eq(b, "code helper") || str_eq(b, "electron") {
        Some("Visual Studio Code")
    } else if str_eq(b, "cursor") {
        Some("Cursor")
    } else if str_eq(b, "windsurf") {
        Some("Windsurf")
    } else if str_eq(b, "sublime_text") || str_eq(b, "subl") {
        Some("Sublime Text")
    } else if str_eq(b, "atom") {
        Some("Atom")
    } else {
        None
    }
}

/// The candidate command-line launchers of a hosting application, in the
/// order they are probed; whether one exists on disk is the caller's
/// business.
pub open spec fn cli_candidates(app: Seq<char>) -> Seq<Seq<char>> {
    if app == "Zed"@ {
        seq![
            "/Applications/Zed.app/Contents/MacOS/cli"@,
            "/usr/bin/zed"@,
            "/usr/local/bin/zed"@,
        ]
    } else if app == "Visual Studio Code"@ {
        seq![
            "/Applications/Visual Studio Code.app/Contents/Resources/app/bin/code"@,
            "/usr/local/bin/code"@,
            "/usr/bin/code"@,
            "/snap/bin/code"@,
        ]
    } else if app == "Cursor"@ {
        seq![
            "/Applications/Cursor.app/Contents/Resources/app/bin/cursor"@,
            "/Applications/Cursor.app/Contents/Resources/app/bin/code"@,
            "/usr/local/bin/cursor"@,
            "/usr/bin/cursor"@,
        ]
    } else if app == "Windsurf"@ {
        seq![
            "/Applications/Windsurf.app/Contents/Resources/app/bin/windsurf"@,
            "/Applications/Windsurf.app/Contents/Resources/app/bin/code"@,
        ]
    } else {
        Seq::empty()
    }
}

/// Whether an application's launcher reuses a window with the reuse and
/// goto flags, as the code-derived editors do.
pub open spec fn uses_reuse_flags(app: Seq<char>) -> bool {
    app == "Visual Studio Code"@ || app == "Cursor"@ || app == "Windsurf"@
}

/// The candidate launcher paths of a hosting application, in probe order.
pub fn app_cli_candidates(app_name: &str) -> (r: Vec<String>)
    ensures
        crate::text::strs_view(r@) == cli_candidates(app_name@),
{
    proof {
        reveal_strlit("Zed");
        reveal_strlit("Visual Studio Code");
        reveal_strlit("Cursor");
        reveal_strlit("Windsurf");
    }
    let mut out: Vec<String> = Vec::new();
    if str_eq(app_name, "Zed") {
        out.push("/Applications/Zed.app/Contents/MacOS/cli".to_owned());
        out.push("/usr/bin/zed".to_owned());
        out.push("/usr/local/bin/zed".to_owned());
    } else if str_eq(app_name, "Visual Studio Code") {
        out.push("/Applications/Visual Studio Code.app/Contents/Resources/app/bin/code".to_owned());
        out.push("/usr/local/bin/code".to_owned());
        out.push("/usr/bin/code".to_owned());
        out.push("/snap/bin/code".to_owned());
    } else if str_eq(app_name, "Cursor") {
        out.push("/Applications/Cursor.app/Contents/Resources/app/bin/cursor".to_owned());
        out.push("/Applications/Cursor.app/Contents/Resources/app/bin/code".to_owned());
        out.push("/usr/local/bin/cursor".to_owned());
        out.push("/usr/bin/cursor".to_owned());
    } else if str_eq(app_name, "Windsurf") {
        out.push("/Applications/Windsurf.app/Contents/Resources/app/bin/windsurf".to_owned());
        out.push("/Applications/Windsurf.app/Contents/Resources/app/bin/code".to_owned());
    }
    proof {
        assert(crate::text::strs_view(out@) =~= cli_candidates(app_name@));
    }
    out
}

/// True exactly when the application's launcher takes the reuse flags.
pub fn app_uses_reuse_flags(app_name: &str) -> (r: bool)
    ensures
        r == uses_reuse_flags(app_name@),
{
    proof {
        reveal_strlit("Visual Studio Code");
        reveal_strlit("Cursor");
        reveal_strlit("Windsurf");
    }
    str_eq(app_name, "Visual Studio Code") || str_eq(app_name, "Cursor") || str_eq(
        app_name,
        "Windsurf",
    )
}

} // verus!
