//! The shell integration of the navigator.

use vstd::prelude::*;
use crate::text::{push_str, string_of};

verus! {

/// The line that the shell startup file evaluates.
pub const SHELL_EVAL_LINE: &'static str = "eval \"$(cdt init-shell)\"";

/// The shell function that `cdt init-shell` prints: it changes to the
/// directory that `cdt` prints.
pub const INIT_SHELL: &'static str = "# Add to your .zshrc or .bashrc:\ncdt() {\n  local dir\n  dir=\"$(command cdt \"$@\")\"\n  if [ -n \"$dir\" ] && [ -d \"$dir\" ]; then\n    cd \"$dir\" || return\n  fi\n}\n";

/// What is appended to the shell startup file: a comment naming the tool,
/// then the evaluation line.
pub fn shell_integration_block() -> (r: String)
    ensures
        r@ == "# cdt — Conductor workspace navigator\n"@ + SHELL_EVAL_LINE@,
{
    let mut out: Vec<char> = Vec::new();
    push_str(&mut out, "# cdt — Conductor workspace navigator\n");
    push_str(&mut out, SHELL_EVAL_LINE);
    string_of(&out)
}

} // verus!
