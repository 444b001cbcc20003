//! The shells whose startup file can take the wrapper function, the function
//! itself, and the marker by which an installed function is recognised.

use crate::config::{home_view, path_view, ConfigError};
use crate::paths::{home_dir, join_path, joined_path};
use crate::text::{contains, contains_text, ends_with, lemma_contains_in_context};
use vstd::prelude::*;

verus! {

/// A shell whose startup file can take the wrapper function.
#[derive(Debug, Clone, Copy, PartialEq, Eq, Structural)]
pub enum Shell {
    Bash,
    Zsh,
    Sh,
    Fish,
}

/// The comment that marks the wrapper function in a startup file.
pub const MARKER: &'static str = "# pj - Project Launcher shell integration";

/// The wrapper function for bash and zsh.
pub const BASH_FUNCTION: &'static str = r#"
# pj - Project Launcher shell integration
pj() {
    local result
    result=$(command pj "$@")
    local exit_code=$?
    if [[ $exit_code -eq 0 && -n "$result" ]]; then
        cd "$result"
    elif [[ $exit_code -ne 130 ]]; then
        echo "$result"
    fi
}
"#;

/// The wrapper function for a plain POSIX shell.
pub const SH_FUNCTION: &'static str = r#"
# pj - Project Launcher shell integration
pj() {
    result=$(command pj "$@")
    exit_code=$?
    if [ $exit_code -eq 0 ] && [ -n "$result" ]; then
        cd "$result"
    elif [ $exit_code -ne 130 ]; then
        echo "$result"
    fi
}
"#;

/// The wrapper function for fish.
pub const FISH_FUNCTION: &'static str = r#"
# pj - Project Launcher shell integration
function pj
    set -l result (command pj $argv)
    set -l exit_code $status
    if test $exit_code -eq 0 -a -n "$result"
        cd $result
    else if test $exit_code -ne 130
        echo $result
    end
end
"#;

/// The shell that a login shell's path names, by its ending.
pub open spec fn shell_of_path(shell_path: Seq<char>) -> Option<Shell> {
    if "bash"@.is_suffix_of(shell_path) {
        Some(Shell::Bash)
    } else if "zsh"@.is_suffix_of(shell_path) {
        Some(Shell::Zsh)
    } else if "fish"@.is_suffix_of(shell_path) {
        Some(Shell::Fish)
    } else if "sh"@.is_suffix_of(shell_path) {
        Some(Shell::Sh)
    } else {
        None
    }
}

/// The name of a shell.
pub open spec fn shell_name(shell: Shell) -> Seq<char> {
    match shell {
        Shell::Bash => "bash"@,
        Shell::Zsh => "zsh"@,
        Shell::Sh => "sh"@,
        Shell::Fish => "fish"@,
    }
}

/// The startup file of a shell, relative to the home directory.
pub open spec fn rc_file_name(shell: Shell) -> Seq<char> {
    match shell {
        Shell::Bash => ".bashrc"@,
        Shell::Zsh => ".zshrc"@,
        Shell::Sh => ".profile"@,
        Shell::Fish => ".config/fish/config.fish"@,
    }
}

/// The wrapper function in the language of a shell.
pub open spec fn function_text(shell: Shell) -> Seq<char> {
    match shell {
        Shell::Bash | Shell::Zsh => BASH_FUNCTION@,
        Shell::Sh => SH_FUNCTION@,
        Shell::Fish => FISH_FUNCTION@,
    }
}

/// The startup file of a shell: below the home directory where the system
/// names one, else an error.
pub open spec fn rc_file_for(shell: Shell, home: Option<Seq<char>>) -> Result<
    Seq<char>,
    ConfigError,
> {
    match home {
        Some(h) => Ok(joined_path(h, rc_file_name(shell))),
        None => Err(ConfigError::NoHomeDirectory),
    }
}

impl Shell {
    /// The shell that a login shell's path names.
    pub fn from_path(shell_path: &str) -> (r: Option<Shell>)
        ensures
            r == shell_of_path(shell_path@),
    {
        if ends_with(shell_path, "bash") {
            Some(Shell::Bash)
        } else if ends_with(shell_path, "zsh") {
            Some(Shell::Zsh)
        } else if ends_with(shell_path, "fish") {
            Some(Shell::Fish)
        } else if ends_with(shell_path, "sh") {
            Some(Shell::Sh)
        } else {
            None
        }
    }

    /// The name of the shell.
    pub fn name(&self) -> (r: &'static str)
        ensures
            r@ == shell_name(*self),
    {
        match self {
            Shell::Bash => "bash",
            Shell::Zsh => "zsh",
            Shell::Sh => "sh",
            Shell::Fish => "fish",
        }
    }

    /// The shell's startup file for a user whose home is `home`.
    pub fn rc_file_in(&self, home: &str) -> (r: String)
        ensures
            r@ == joined_path(home@, rc_file_name(*self)),
    {
        match self {
            Shell::Bash => join_path(home, ".bashrc"),
            Shell::Zsh => join_path(home, ".zshrc"),
            Shell::Sh => join_path(home, ".profile"),
            Shell::Fish => join_path(home, ".config/fish/config.fish"),
        }
    }

    /// The shell's startup file, for the home directory that the system
    /// named, if it named one.
    pub fn rc_file_from(&self, home: Option<String>) -> (r: Result<String, ConfigError>)
        ensures
            path_view(r) == rc_file_for(*self, home_view(home)),
    {
        match home {
            Some(h) => Ok(self.rc_file_in(h.as_str())),
            None => Err(ConfigError::NoHomeDirectory),
        }
    }

    /// The shell's startup file below the home directory that the system names
    /// at the moment of the call; an error where it names none.
    pub fn rc_file(&self) -> (r: Result<String, ConfigError>)
        ensures
            exists|home: Option<Seq<char>>| path_view(r) == rc_file_for(*self, home),
    {
        self.rc_file_from(home_dir())
    }

    /// The wrapper function in the shell's language. It begins with an empty
    /// line and the marker comment.
    pub fn function_code(&self) -> (r: &'static str)
        ensures
            r@ == function_text(*self),
    {
        match self {
            Shell::Bash | Shell::Zsh => BASH_FUNCTION,
            Shell::Sh => SH_FUNCTION,
            Shell::Fish => FISH_FUNCTION,
        }
    }

    /// Whether a startup file with this content has the wrapper function already.
    pub fn is_installed(content: &str) -> (r: bool)
        ensures
            r == contains_text(content@, MARKER@),
    {
        contains(content, MARKER)
    }
}

/// A shell is known by its own name.
pub proof fn lemma_name_names_shell(shell: Shell)
    ensures
        shell_of_path(shell_name(shell)) == Some(shell),
{
    reveal_strlit("bash");
    reveal_strlit("zsh");
    reveal_strlit("fish");
    reveal_strlit("sh");
    let name = shell_name(shell);
    assert forall|other: Seq<char>| other.len() == name.len() && other.is_suffix_of(name) implies other
        == name by {
        assert(name.subrange(0, name.len() as int) == other);
    }
    match shell {
        Shell::Bash => {},
        Shell::Zsh => {
            assert("bash"@.len() > "zsh"@.len());
        },
        Shell::Fish => {
            // "fish" ends in "ish", not in "zsh".
            assert("fish"@[1] != "zsh"@[0]);
        },
        Shell::Sh => {},
    }
}

/// The wrapper function of every shell holds the marker comment.
pub proof fn lemma_function_holds_marker(shell: Shell)
    ensures
        contains_text(function_text(shell), MARKER@),
{
    reveal_strlit("# pj - Project Launcher shell integration");
    let code = function_text(shell);
    match shell {
        Shell::Bash | Shell::Zsh => {
            reveal_strlit(r#"
# pj - Project Launcher shell integration
pj() {
    local result
    result=$(command pj "$@")
    local exit_code=$?
    if [[ $exit_code -eq 0 && -n "$result" ]]; then
        cd "$result"
    elif [[ $exit_code -ne 130 ]]; then
        echo "$result"
    fi
}
"#);
        },
        Shell::Sh => {
            reveal_strlit(r#"
# pj - Project Launcher shell integration
pj() {
    result=$(command pj "$@")
    exit_code=$?
    if [ $exit_code -eq 0 ] && [ -n "$result" ]; then
        cd "$result"
    elif [ $exit_code -ne 130 ]; then
        echo "$result"
    fi
}
"#);
        },
        Shell::Fish => {
            reveal_strlit(r#"
# pj - Project Launcher shell integration
function pj
    set -l result (command pj $argv)
    set -l exit_code $status
    if test $exit_code -eq 0 -a -n "$result"
        cd $result
    else if test $exit_code -ne 130
        echo $result
    end
end
"#);
        },
    }
    assert(code.subrange(1, 1 + MARKER@.len() as int) == MARKER@);
}

/// Installing is idempotent: a startup file to which the wrapper function was
/// appended, whatever stood before and whatever follows, counts as installed.
pub proof fn lemma_installed_after_append(shell: Shell, before: Seq<char>, after: Seq<char>)
    ensures
        contains_text(before + function_text(shell) + after, MARKER@),
{
    lemma_function_holds_marker(shell);
    lemma_contains_in_context(before, function_text(shell), after, MARKER@);
}

} // verus!
