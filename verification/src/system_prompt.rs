//! The values the system prompt for small models is rendered with, and the
//! prompt used when it cannot be rendered.

use vstd::prelude::*;
use crate::text::{chars_of, string_of};

verus! {

/// The prompt used when the system prompt template cannot be rendered.
pub const FALLBACK_PROMPT: &'static str = "You are Goose, an AI assistant. You can execute shell commands by starting lines with $.";

/// The values the system prompt template is rendered with.
pub struct PromptContext {
    pub os: String,
    pub working_directory: String,
    pub shell: String,
}

/// The operating systems the prompt names; any other is `unknown`.
pub open spec fn os_label(target_os: Seq<char>) -> Seq<char> {
    if target_os == "macos"@ || target_os == "linux"@ || target_os == "windows"@ {
        target_os
    } else {
        "unknown"@
    }
}

fn equal_chars(a: &[char], b: &[char]) -> (r: bool)
    ensures
        r == (a@ == b@),
{
    if a.len() != b.len() {
        return false;
    }
    let mut i: usize = 0;
    while i < a.len()
        invariant
            a@.len() == b@.len(),
            i <= a@.len(),
            forall|j: int| 0 <= j < i ==> a@[j] == b@[j],
        decreases a@.len() - i,
    {
        if a[i] != b[i] {
            return false;
        }
        i = i + 1;
    }
    assert(a@ =~= b@);
    true
}

/// The context for the prompt: the operating system the program was built
/// for (see `os_label`), the working directory and the user's shell, where
/// they could be read, else `unknown` and `/bin/sh`.
pub fn prompt_context(target_os: &str, working_directory: Option<String>, shell: Option<String>) -> (r:
    PromptContext)
    ensures
        r.os@ == os_label(target_os@),
        r.working_directory@ == match working_directory {
            Some(d) => d@,
            None => "unknown"@,
        },
        r.shell@ == match shell {
            Some(s) => s@,
            None => "/bin/sh"@,
        },
{
    let os = chars_of(target_os);
    let known = equal_chars(os.as_slice(), chars_of("macos").as_slice()) || equal_chars(
        os.as_slice(),
        chars_of("linux").as_slice(),
    ) || equal_chars(os.as_slice(), chars_of("windows").as_slice());
    let os = if known {
        string_of(os.as_slice())
    } else {
        string_of(chars_of("unknown").as_slice())
    };
    let working_directory = match working_directory {
        Some(d) => d,
        None => string_of(chars_of("unknown").as_slice()),
    };
    let shell = match shell {
        Some(s) => s,
        None => string_of(chars_of("/bin/sh").as_slice()),
    };
    PromptContext { os, working_directory, shell }
}

/// The rendered system prompt, or the fallback prompt when rendering failed.
pub fn prompt_or_fallback(rendered: Option<String>) -> (r: String)
    ensures
        r@ == match rendered {
            Some(p) => p@,
            None => FALLBACK_PROMPT@,
        },
{
    match rendered {
        Some(p) => p,
        None => string_of(chars_of(FALLBACK_PROMPT).as_slice()),
    }
}

} // verus!
