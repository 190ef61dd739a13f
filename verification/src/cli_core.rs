//! Helpers shared by the command-line tools: finding the shell's startup
//! file for the shell integration.

use vstd::prelude::*;
use crate::text::{ends_with, ends_with_str, chars_of, path_join, path_join_exec};

verus! {

/// Whether something exists at `path` (`Path::exists`). What is on disk
/// decides, so nothing is promised of the answer.
#[verifier::external_body]
pub(crate) fn path_exists(path: &str) -> (r: bool) {
    std::path::Path::new(path).exists()
}

/// The startup file for a shell: `.zshrc` for zsh; for bash `.bashrc` when
/// it exists, `.bash_profile` otherwise; none for any other shell.
pub open spec fn shell_rc_choice(home: Seq<char>, shell: Seq<char>, bashrc_exists: bool) -> Option<Seq<char>> {
    if ends_with(shell, "zsh"@) {
        Some(path_join(home, ".zshrc"@))
    } else if ends_with(shell, "bash"@) {
        if bashrc_exists {
            Some(path_join(home, ".bashrc"@))
        } else {
            Some(path_join(home, ".bash_profile"@))
        }
    } else {
        None
    }
}

/// The startup file for the shell at path `shell` under `home`, given
/// whether `home/.bashrc` exists.
pub fn choose_shell_rc(home: &str, shell: &str, bashrc_exists: bool) -> (r: Option<String>)
    ensures
        match r {
            Some(p) => shell_rc_choice(home@, shell@, bashrc_exists) == Some(p@),
            None => shell_rc_choice(home@, shell@, bashrc_exists) is None,
        },
{
    let s = chars_of(shell);
    if ends_with_str(&s, "zsh") {
        Some(path_join_exec(home, ".zshrc"))
    } else if ends_with_str(&s, "bash") {
        if bashrc_exists {
            Some(path_join_exec(home, ".bashrc"))
        } else {
            Some(path_join_exec(home, ".bash_profile"))
        }
    } else {
        None
    }
}

/// The user's shell startup file for the shell at path `shell` (such as
/// `/bin/zsh`) under the home directory `home`, or `None` for a shell other
/// than zsh and bash. For bash, `.bashrc` is preferred when it exists.
pub fn detect_shell_rc(home: &str, shell: &str) -> (r: Option<String>)
    ensures
        exists|bashrc_exists: bool|
            match r {
                Some(p) => #[trigger] shell_rc_choice(home@, shell@, bashrc_exists) == Some(p@),
                None => shell_rc_choice(home@, shell@, bashrc_exists) is None,
            },
{
    let s = chars_of(shell);
    let exists = if !ends_with_str(&s, "zsh") && ends_with_str(&s, "bash") {
        let bashrc = path_join_exec(home, ".bashrc");
        path_exists(bashrc.as_str())
    } else {
        false
    };
    let r = choose_shell_rc(home, shell, exists);
    assert(match r {
        Some(p) => shell_rc_choice(home@, shell@, exists) == Some(p@),
        None => shell_rc_choice(home@, shell@, exists) is None,
    });
    r
}

} // verus!
