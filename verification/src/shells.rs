//! The shells that completions are generated for, and the file names that
//! hold a tool's completions in each shell's completion directory.
//!
//! zsh loads a completion function from a file named `_tool`, bash-completion
//! from a file named after the tool, and fish from `tool.fish`.

use vstd::prelude::*;

use crate::text::str_eq;

verus! {

/// The name `zsh`.
pub open spec fn zsh_name() -> Seq<char> {
    seq!['z', 's', 'h']
}

/// The name `bash`.
pub open spec fn bash_name() -> Seq<char> {
    seq!['b', 'a', 's', 'h']
}

/// The name `fish`.
pub open spec fn fish_name() -> Seq<char> {
    seq!['f', 'i', 's', 'h']
}

/// The suffix `.fish` of fish completion files.
pub open spec fn fish_suffix() -> Seq<char> {
    seq!['.', 'f', 'i', 's', 'h']
}

/// Whether completions can be generated for `shell`.
pub open spec fn is_supported_shell(shell: Seq<char>) -> bool {
    shell == zsh_name() || shell == bash_name() || shell == fish_name()
}

/// The name of the file that holds `tool`'s completions for `shell`.
pub open spec fn completion_file_name(shell: Seq<char>, tool: Seq<char>) -> Seq<char> {
    if shell == zsh_name() {
        seq!['_'] + tool
    } else if shell == fish_name() {
        tool + fish_suffix()
    } else {
        tool
    }
}

/// The tool whose completions a file of `shell`'s completion directory holds,
/// if its name has the shape that `shell` uses.
pub open spec fn tool_of_file_name(shell: Seq<char>, file: Seq<char>) -> Option<Seq<char>> {
    if shell == zsh_name() {
        if file.len() >= 1 && file[0] == '_' {
            Some(file.skip(1))
        } else {
            None
        }
    } else if shell == bash_name() {
        Some(file)
    } else if shell == fish_name() {
        if file.len() >= 5 && file.skip(file.len() - 5) == fish_suffix() {
            Some(file.take(file.len() - 5))
        } else {
            None
        }
    } else {
        None
    }
}

proof fn lemma_shell_literals()
    ensures
        "zsh"@ == zsh_name(),
        "bash"@ == bash_name(),
        "fish"@ == fish_name(),
        ".fish"@ == fish_suffix(),
        "_"@ == seq!['_'],
{
    reveal_strlit("zsh");
    reveal_strlit("bash");
    reveal_strlit("fish");
    reveal_strlit(".fish");
    reveal_strlit("_");
    assert("zsh"@ =~= zsh_name());
    assert("bash"@ =~= bash_name());
    assert("fish"@ =~= fish_name());
    assert(".fish"@ =~= fish_suffix());
    assert("_"@ =~= seq!['_']);
}

/// Whether `shell` is one of `zsh`, `bash` and `fish`.
pub fn supported_shell(shell: &str) -> (r: bool)
    ensures
        r == is_supported_shell(shell@),
{
    proof {
        lemma_shell_literals();
    }
    str_eq(shell, "zsh") || str_eq(shell, "bash") || str_eq(shell, "fish")
}

/// The file name under which `tool`'s completions for `shell` are written.
pub fn completion_filename(shell: &str, tool: &str) -> (r: String)
    ensures
        r@ == completion_file_name(shell@, tool@),
{
    proof {
        lemma_shell_literals();
    }
    if str_eq(shell, "zsh") {
        let mut r = "_".to_owned();
        r.append(tool);
        r
    } else if str_eq(shell, "fish") {
        let mut r = tool.to_owned();
        r.append(".fish");
        r
    } else {
        tool.to_owned()
    }
}

/// The tool whose completions the file `filename` of `shell`'s completion
/// directory holds, or `None` if the name does not have `shell`'s shape.
pub fn tool_from_filename(shell: &str, filename: &str) -> (r: Option<String>)
    ensures
        match r {
            Some(t) => tool_of_file_name(shell@, filename@) == Some(t@),
            None => tool_of_file_name(shell@, filename@) is None,
        },
{
    proof {
        lemma_shell_literals();
    }
    let n = filename.unicode_len();
    if str_eq(shell, "zsh") {
        if n >= 1 && filename.get_char(0) == '_' {
            let rest = filename.substring_char(1, n);
            assert(rest@ =~= filename@.skip(1));
            Some(rest.to_owned())
        } else {
            None
        }
    } else if str_eq(shell, "bash") {
        Some(filename.to_owned())
    } else if str_eq(shell, "fish") {
        if n >= 5 {
            let suffix = filename.substring_char(n - 5, n);
            assert(suffix@ =~= filename@.skip(n - 5));
            if str_eq(suffix, ".fish") {
                let stem = filename.substring_char(0, n - 5);
                assert(stem@ =~= filename@.take(n - 5));
                Some(stem.to_owned())
            } else {
                None
            }
        } else {
            None
        }
    } else {
        None
    }
}

/// A completion file name leads back to its tool: for every supported shell
/// and every tool, the tool read from the name of the tool's completion file
/// is the tool itself.
pub proof fn lemma_completion_file_names_round_trip(shell: Seq<char>, tool: Seq<char>)
    requires
        is_supported_shell(shell),
    ensures
        tool_of_file_name(shell, completion_file_name(shell, tool)) == Some(tool),
{
    if shell == zsh_name() {
        assert((seq!['_'] + tool).skip(1) =~= tool);
    } else if shell == fish_name() {
        let f = tool + fish_suffix();
        assert(f.skip(f.len() - 5) =~= fish_suffix());
        assert(f.take(f.len() - 5) =~= tool);
    }
}

/// The completion file of a tool is named as each shell expects it: `_<tool>`
/// for zsh, `<tool>` for bash and `<tool>.fish` for fish.
pub proof fn lemma_completion_file_names_by_shell(tool: Seq<char>)
    ensures
        completion_file_name(seq!['z', 's', 'h'], tool) == seq!['_'] + tool,
        completion_file_name(seq!['b', 'a', 's', 'h'], tool) == tool,
        completion_file_name(seq!['f', 'i', 's', 'h'], tool) == tool + seq!['.', 'f', 'i', 's', 'h'],
{
    assert(zsh_name() =~= seq!['z', 's', 'h']);
    assert(bash_name() =~= seq!['b', 'a', 's', 'h']);
    assert(fish_name() =~= seq!['f', 'i', 's', 'h']);
    assert(fish_suffix() =~= seq!['.', 'f', 'i', 's', 'h']);
}

} // verus!
