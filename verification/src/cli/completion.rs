//! Shell completion scripts (bash, zsh, fish).  The word list is the
//! commands' top-level segments followed by the built-in words and the
//! common flags.
use vstd::prelude::*;
use crate::builtins;
use crate::text;

verus! {

/// The built-in words after the commands.
pub open spec fn builtin_words() -> Seq<Seq<char>> {
    seq![
        "completion"@,
        "help"@,
        "serve"@,
        "mcp"@,
        "-h"@,
        "--help"@,
        "-v"@,
        "--version"@,
    ]
}

/// The completion word list: the top-level words without repeats, then the
/// built-in words.
pub open spec fn word_list(top: Seq<Seq<char>>) -> Seq<Seq<char>> {
    builtins::add_unique(Seq::empty(), top) + builtin_words()
}

/// The bash script.
pub open spec fn bash_script(bin: Seq<char>, words: Seq<char>) -> Seq<char> {
    "# "@ + bin + " completion for bash\n_"@ + bin
        + "_completions() {\n  local cur\n  cur=\"${COMP_WORDS[COMP_CWORD]}\"\n  COMPREPLY=( $(compgen -W \""@
        + words + "\" -- \"$cur\") )\n}\ncomplete -F _"@ + bin + "_completions "@ + bin + "\n"@
}

/// The zsh script.
pub open spec fn zsh_script(bin: Seq<char>, words: Seq<char>) -> Seq<char> {
    "#compdef "@ + bin + "\n_"@ + bin + "_completions() {\n  local -a cmds\n  cmds=("@ + words
        + ")\n  _describe '"@ + bin + "' cmds\n}\ncompdef _"@ + bin + "_completions "@ + bin
        + "\n"@
}

/// One fish completion line.
pub open spec fn fish_line(bin: Seq<char>, n: Seq<char>) -> Seq<char> {
    "complete -c "@ + bin + " -f -a "@ + n + "\n"@
}

/// The fish lines of a list of words.
pub open spec fn fish_lines(bin: Seq<char>, names: Seq<Seq<char>>) -> Seq<char>
    decreases names.len(),
{
    if names.len() == 0 {
        Seq::empty()
    } else {
        fish_lines(bin, names.drop_last()) + fish_line(bin, names.last())
    }
}

/// The fish script: one line per word but the last six of the list, then
/// one for `completion`.
pub open spec fn fish_script(bin: Seq<char>, list: Seq<Seq<char>>) -> Seq<char> {
    fish_lines(bin, list.take(list.len() - 6)) + fish_line(bin, "completion"@)
}

/// Exit code, standard output and standard error of the `completion`
/// command for `shell`.
pub open spec fn completion_spec(top: Seq<Seq<char>>, bin: Seq<char>, shell: Seq<char>) -> (
    int,
    Seq<char>,
    Seq<char>,
) {
    let list = word_list(top);
    let words = text::join(list, " "@);
    if shell == "bash"@ {
        (0, bash_script(bin, words), Seq::empty())
    } else if shell == "zsh"@ {
        (0, zsh_script(bin, words), Seq::empty())
    } else if shell == "fish"@ {
        (0, fish_script(bin, list), Seq::empty())
    } else {
        (2, Seq::empty(), "unknown shell "@ + text::quoted(shell) + " (want bash|zsh|fish)\n"@)
    }
}

fn push_fish_line(out: &mut String, bin: &str, n: &str)
    ensures
        final(out)@ == old(out)@ + fish_line(bin@, n@),
{
    text::append(out, "complete -c ");
    text::append(out, bin);
    text::append(out, " -f -a ");
    text::append(out, n);
    text::append(out, "\n");
}

/// The completion script for `shell` over the commands' top-level words:
/// the exit code, what goes to standard output and what goes to standard
/// error (an unknown shell exits 2).
pub fn print_completion(top_words: &[String], bin: &str, shell: &str) -> (r: (i32, String, String))
    ensures
        completion_spec(top_words@.map_values(|s: String| s@), bin@, shell@) == (
            r.0 as int,
            r.1@,
            r.2@,
        ),
{
    let ghost top = top_words@.map_values(|s: String| s@);
    let mut list: Vec<String> = Vec::new();
    let mut tv: Vec<String> = Vec::new();
    let mut k: usize = 0;
    while k < top_words.len()
        invariant
            k <= top_words.len(),
            top == top_words@.map_values(|s: String| s@),
            text::views(tv@) == top.take(k as int),
        decreases top_words.len() - k,
    {
        let ghost before = tv@;
        tv.push(top_words[k].clone());
        assert(text::views(tv@) == text::views(before).push(top_words@[k as int]@));
        assert(top.take(k + 1) == top.take(k as int).push(top[k as int]));
        k += 1;
    }
    assert(top.take(top_words.len() as int) == top);
    assert(text::views(list@) == Seq::<Seq<char>>::empty());
    builtins::add_unique_into(&mut list, &tv);
    let ghost names = text::views(list@);
    list.push(text::owned("completion"));
    list.push(text::owned("help"));
    list.push(text::owned("serve"));
    list.push(text::owned("mcp"));
    list.push(text::owned("-h"));
    list.push(text::owned("--help"));
    list.push(text::owned("-v"));
    list.push(text::owned("--version"));
    assert(text::views(list@) == word_list(top));
    let words = text::join_strings(&list, " ");
    proof {
        reveal_strlit("bash");
        reveal_strlit("zsh");
        reveal_strlit("fish");
        reveal_strlit(" ");
    }
    let mut out = String::new();
    if text::str_eq(shell, "bash") {
        text::append(&mut out, "# ");
        text::append(&mut out, bin);
        text::append(&mut out, " completion for bash\n_");
        text::append(&mut out, bin);
        text::append(
            &mut out,
            "_completions() {\n  local cur\n  cur=\"${COMP_WORDS[COMP_CWORD]}\"\n  COMPREPLY=( $(compgen -W \"",
        );
        text::append(&mut out, words.as_str());
        text::append(&mut out, "\" -- \"$cur\") )\n}\ncomplete -F _");
        text::append(&mut out, bin);
        text::append(&mut out, "_completions ");
        text::append(&mut out, bin);
        text::append(&mut out, "\n");
        return (0, out, String::new());
    }
    if text::str_eq(shell, "zsh") {
        text::append(&mut out, "#compdef ");
        text::append(&mut out, bin);
        text::append(&mut out, "\n_");
        text::append(&mut out, bin);
        text::append(&mut out, "_completions() {\n  local -a cmds\n  cmds=(");
        text::append(&mut out, words.as_str());
        text::append(&mut out, ")\n  _describe '");
        text::append(&mut out, bin);
        text::append(&mut out, "' cmds\n}\ncompdef _");
        text::append(&mut out, bin);
        text::append(&mut out, "_completions ");
        text::append(&mut out, bin);
        text::append(&mut out, "\n");
        return (0, out, String::new());
    }
    if text::str_eq(shell, "fish") {
        let ghost lv = text::views(list@);
        let n = list.len() - 6;
        let mut i: usize = 0;
        while i < n
            invariant
                i <= n,
                n == list.len() - 6,
                lv == text::views(list@),
                out@ == fish_lines(bin@, lv.take(i as int)),
            decreases n - i,
        {
            proof {
                assert(lv.take(i + 1).drop_last() == lv.take(i as int));
                assert(lv.take(i + 1).last() == list@[i as int]@);
            }
            push_fish_line(&mut out, bin, list[i].as_str());
            i += 1;
        }
        push_fish_line(&mut out, bin, "completion");
        return (0, out, String::new());
    }
    let mut err = text::owned("unknown shell ");
    let q = text::quote(shell);
    text::append(&mut err, q.as_str());
    text::append(&mut err, " (want bash|zsh|fish)\n");
    (2, String::new(), err)
}

} // verus!
