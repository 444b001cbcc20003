//! The setup wizard: the menus it shows and the settings its answers amount to.

use crate::config::{Config, ConfigView};
use crate::shell::Shell;
use vstd::prelude::*;

verus! {

/// How many lines the menu of editors has: five editors and "other".
pub const EDITOR_MENU_LEN: usize = 6;

/// The line at position `i` of the menu of editors.
pub open spec fn menu_line(i: int) -> Seq<char> {
    if i == 0 {
        "code"@
    } else if i == 1 {
        "zed"@
    } else if i == 2 {
        "cursor"@
    } else if i == 3 {
        "nvim"@
    } else if i == 4 {
        "vim"@
    } else {
        "other"@
    }
}

/// The line at position `i` of the menu of editors.
pub fn editor_menu_line(i: usize) -> (line: &'static str)
    requires
        i < EDITOR_MENU_LEN,
    ensures
        line@ == menu_line(i as int),
{
    if i == 0 {
        "code"
    } else if i == 1 {
        "zed"
    } else if i == 2 {
        "cursor"
    } else if i == 3 {
        "nvim"
    } else if i == 4 {
        "vim"
    } else {
        "other"
    }
}

/// The editor behind a line of the menu; none behind the last line, "other",
/// after which the user is asked for a command.
pub fn menu_editor(selection: usize) -> (editor: Option<&'static str>)
    requires
        selection < EDITOR_MENU_LEN,
    ensures
        selection == EDITOR_MENU_LEN - 1 ==> editor is None,
        selection < EDITOR_MENU_LEN - 1 ==> (editor matches Some(name) && name@ == menu_line(
            selection as int,
        )),
{
    if selection == EDITOR_MENU_LEN - 1 {
        None
    } else {
        Some(editor_menu_line(selection))
    }
}

/// Whether a line of the menu "yes, no" means yes: the first line does.
pub fn means_yes(selection: usize) -> (yes: bool)
    ensures
        yes == (selection == 0),
{
    selection == 0
}

/// Whether the wizard asks about GitHub remotes: where the user has just
/// chosen git initialisation, or the settings on disk have it.
pub fn should_ask_github(git_init_on_add: bool, existing: Option<&Config>) -> (ask: bool)
    ensures
        ask == (git_init_on_add || (existing matches Some(c) && c.git_init_on_add)),
{
    if git_init_on_add {
        true
    } else {
        match existing {
            Some(c) => c.git_init_on_add,
            None => false,
        }
    }
}

/// The settings that the answers amount to. A GitHub remote needs a git
/// repository, so asking for the one switches the other on.
pub open spec fn settings_from_answers(
    editor: Seq<char>,
    cd_on_select: bool,
    git_init_on_add: bool,
    gh_create_on_add: bool,
) -> ConfigView {
    ConfigView {
        editor,
        cd_on_select,
        git_init_on_add: git_init_on_add || gh_create_on_add,
        gh_create_on_add,
    }
}

/// What the wizard arrives at.
#[derive(Debug, PartialEq, Eq)]
pub struct WizardResult {
    /// The settings to save.
    pub config: Config,
    /// Whether git initialisation was switched on for the sake of GitHub
    /// remotes, of which the user is warned.
    pub git_init_forced: bool,
}

/// The settings that the user's answers amount to.
pub fn finish_wizard(
    editor: String,
    cd_on_select: bool,
    git_init_on_add: bool,
    gh_create_on_add: bool,
) -> (r: WizardResult)
    ensures
        r.config@ == settings_from_answers(
            editor@,
            cd_on_select,
            git_init_on_add,
            gh_create_on_add,
        ),
        r.git_init_forced == (gh_create_on_add && !git_init_on_add),
        r.config.gh_create_on_add ==> r.config.git_init_on_add,
{
    let forced = gh_create_on_add && !git_init_on_add;
    WizardResult {
        config: Config {
            editor,
            cd_on_select,
            git_init_on_add: git_init_on_add || forced,
            gh_create_on_add,
        },
        git_init_forced: forced,
    }
}

/// The shell whose startup file takes the wrapper function: none where the
/// user does not want to change directory on selection; else the detected
/// shell, or bash where none was detected.
pub fn shell_to_set_up(cd_on_select: bool, detected: Option<Shell>) -> (r: Option<Shell>)
    ensures
        r == (if !cd_on_select {
            None
        } else {
            match detected {
                Some(shell) => Some(shell),
                None => Some(Shell::Bash),
            }
        }),
{
    if !cd_on_select {
        None
    } else {
        match detected {
            Some(shell) => Some(shell),
            None => Some(Shell::Bash),
        }
    }
}

} // verus!
