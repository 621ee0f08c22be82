//! Merge-view support: the file bundle handed to an editor view, language
//! detection from a path's extension, and the pure text rules used to
//! derive branch labels from git's state files.

use vstd::prelude::*;

use crate::detector::file_name_of;
use crate::detector::rfind_char;
use crate::detector::rfind_char_vec;
use crate::text::ascii_lower;
use crate::text::find_from;
use crate::text::find_sub;
use crate::text::from_chars;
use crate::text::has_prefix;
use crate::text::spec_split_once_char;
use crate::text::split_once_at_char;
use crate::text::starts_with_lit;
use crate::text::sub_vec;
use crate::text::to_ascii_lowercase;
use crate::text::to_chars;
use crate::text::trim;
use crate::text::trim_spec;

verus! {

/// A single file's content with its path.
#[derive(Debug, Clone, PartialEq)]
pub struct MergeFileContent {
    pub path: String,
    pub content: String,
}

/// The files of a merge: the two sides, the optional base, the working
/// copy, and display metadata.
#[derive(Debug, Clone, PartialEq)]
pub struct MergeFiles {
    pub local: MergeFileContent,
    pub remote: MergeFileContent,
    pub base: Option<MergeFileContent>,
    pub merged: MergeFileContent,
    pub language: String,
    pub local_label: String,
    pub remote_label: String,
}

/// The extension of a path's final component: the text after its last
/// dot, when that dot is not its first character.
pub open spec fn extension_of(path: Seq<char>) -> Seq<char> {
    let name = file_name_of(path);
    match rfind_char(name, '.') {
        Some(i) => {
            if i > 0 {
                name.skip(i + 1)
            } else {
                Seq::empty()
            }
        },
        None => Seq::empty(),
    }
}

/// The display language for an extension, lowercased.
pub open spec fn language_for(ext: Seq<char>) -> Seq<char> {
    let e = ascii_lower(ext);
    if e == "rs"@ {
        "rust"@
    } else if e == "ts"@ || e == "tsx"@ {
        "typescript"@
    } else if e == "js"@ || e == "jsx"@ || e == "mjs"@ || e == "cjs"@ {
        "javascript"@
    } else if e == "py"@ {
        "python"@
    } else if e == "rb"@ {
        "ruby"@
    } else if e == "go"@ {
        "go"@
    } else if e == "java"@ {
        "java"@
    } else if e == "c"@ || e == "h"@ {
        "c"@
    } else if e == "cpp"@ || e == "cxx"@ || e == "cc"@ || e == "hpp"@ {
        "cpp"@
    } else if e == "cs"@ {
        "csharp"@
    } else if e == "swift"@ {
        "swift"@
    } else if e == "kt"@ || e == "kts"@ {
        "kotlin"@
    } else if e == "php"@ {
        "php"@
    } else if e == "html"@ || e == "htm"@ {
        "html"@
    } else if e == "css"@ {
        "css"@
    } else if e == "scss"@ {
        "scss"@
    } else if e == "less"@ {
        "less"@
    } else if e == "json"@ {
        "json"@
    } else if e == "yaml"@ || e == "yml"@ {
        "yaml"@
    } else if e == "toml"@ {
        "toml"@
    } else if e == "xml"@ {
        "xml"@
    } else if e == "md"@ || e == "markdown"@ {
        "markdown"@
    } else if e == "sql"@ {
        "sql"@
    } else if e == "sh"@ || e == "bash"@ || e == "zsh"@ {
        "shell"@
    } else if e == "ps1"@ {
        "powershell"@
    } else if e == "lua"@ {
        "lua"@
    } else if e == "r"@ {
        "r"@
    } else if e == "dart"@ {
        "dart"@
    } else if e == "zig"@ {
        "zig"@
    } else if e == "vue"@ {
        "vue"@
    } else if e == "svelte"@ {
        "svelte"@
    } else {
        "plaintext"@
    }
}

pub open spec fn spec_detect_language(path: Seq<char>) -> Seq<char> {
    language_for(extension_of(path))
}

/// Detect the display language from a file path's extension.
pub fn detect_language(path: &str) -> (r: String)
    ensures
        r@ == spec_detect_language(path@),
{
    let chars = to_chars(path);
    let n = chars.len();
    let name = match rfind_char_vec(&chars, '/') {
        Some(i) => {
            let v = sub_vec(&chars, i + 1, n);
            assert(v@ =~= chars@.skip(i + 1));
            v
        },
        None => chars,
    };
    let nn = name.len();
    let ext = match rfind_char_vec(&name, '.') {
        Some(i) => {
            if i > 0 {
                let v = sub_vec(&name, i + 1, nn);
                assert(v@ =~= name@.skip(i + 1));
                v
            } else {
                Vec::new()
            }
        },
        None => Vec::new(),
    };
    assert(ext@ =~= extension_of(path@));
    let e = to_ascii_lowercase(&ext);
    let r = if crate::text::chars_eq_lit(&e, "rs") {
        "rust"
    } else if crate::text::chars_eq_lit(&e, "ts") || crate::text::chars_eq_lit(&e, "tsx") {
        "typescript"
    } else if crate::text::chars_eq_lit(&e, "js") || crate::text::chars_eq_lit(&e, "jsx")
        || crate::text::chars_eq_lit(&e, "mjs") || crate::text::chars_eq_lit(&e, "cjs") {
        "javascript"
    } else if crate::text::chars_eq_lit(&e, "py") {
        "python"
    } else if crate::text::chars_eq_lit(&e, "rb") {
        "ruby"
    } else if crate::text::chars_eq_lit(&e, "go") {
        "go"
    } else if crate::text::chars_eq_lit(&e, "java") {
        "java"
    } else if crate::text::chars_eq_lit(&e, "c") || crate::text::chars_eq_lit(&e, "h") {
        "c"
    } else if crate::text::chars_eq_lit(&e, "cpp") || crate::text::chars_eq_lit(&e, "cxx")
        || crate::text::chars_eq_lit(&e, "cc") || crate::text::chars_eq_lit(&e, "hpp") {
        "cpp"
    } else if crate::text::chars_eq_lit(&e, "cs") {
        "csharp"
    } else if crate::text::chars_eq_lit(&e, "swift") {
        "swift"
    } else if crate::text::chars_eq_lit(&e, "kt") || crate::text::chars_eq_lit(&e, "kts") {
        "kotlin"
    } else if crate::text::chars_eq_lit(&e, "php") {
        "php"
    } else if crate::text::chars_eq_lit(&e, "html") || crate::text::chars_eq_lit(&e, "htm") {
        "html"
    } else if crate::text::chars_eq_lit(&e, "css") {
        "css"
    } else if crate::text::chars_eq_lit(&e, "scss") {
        "scss"
    } else if crate::text::chars_eq_lit(&e, "less") {
        "less"
    } else if crate::text::chars_eq_lit(&e, "json") {
        "json"
    } else if crate::text::chars_eq_lit(&e, "yaml") || crate::text::chars_eq_lit(&e, "yml") {
        "yaml"
    } else if crate::text::chars_eq_lit(&e, "toml") {
        "toml"
    } else if crate::text::chars_eq_lit(&e, "xml") {
        "xml"
    } else if crate::text::chars_eq_lit(&e, "md") || crate::text::chars_eq_lit(&e, "markdown") {
        "markdown"
    } else if crate::text::chars_eq_lit(&e, "sql") {
        "sql"
    } else if crate::text::chars_eq_lit(&e, "sh") || crate::text::chars_eq_lit(&e, "bash")
        || crate::text::chars_eq_lit(&e, "zsh") {
        "shell"
    } else if crate::text::chars_eq_lit(&e, "ps1") {
        "powershell"
    } else if crate::text::chars_eq_lit(&e, "lua") {
        "lua"
    } else if crate::text::chars_eq_lit(&e, "r") {
        "r"
    } else if crate::text::chars_eq_lit(&e, "dart") {
        "dart"
    } else if crate::text::chars_eq_lit(&e, "zig") {
        "zig"
    } else if crate::text::chars_eq_lit(&e, "vue") {
        "vue"
    } else if crate::text::chars_eq_lit(&e, "svelte") {
        "svelte"
    } else {
        "plaintext"
    };
    r.to_owned()
}

/// The branch name quoted in a merge-commit message's first line, after
/// `Merge branch '` or `Merge remote-tracking branch '`.
pub open spec fn spec_merge_msg_label(line: Seq<char>) -> Option<Seq<char>> {
    if find_from(line, "Merge branch '"@, 0) is Some {
        let start = find_from(line, "Merge branch '"@, 0)->Some_0;
        let after = line.skip(start + 14);
        match spec_split_once_char(after, '\'').1 {
            Some(_) => Some(spec_split_once_char(after, '\'').0),
            None => None,
        }
    } else if find_from(line, "Merge remote-tracking branch '"@, 0) is Some {
        let start = find_from(line, "Merge remote-tracking branch '"@, 0)->Some_0;
        let after = line.skip(start + 30);
        match spec_split_once_char(after, '\'').1 {
            Some(_) => Some(spec_split_once_char(after, '\'').0),
            None => None,
        }
    } else {
        None
    }
}

/// Extract the incoming branch name from a merge message's first line.
pub fn merge_msg_label(line: &str) -> (r: Option<String>)
    ensures
        match r {
            Some(l) => spec_merge_msg_label(line@) == Some(l@),
            None => spec_merge_msg_label(line@) is None,
        },
{
    let chars = to_chars(line);
    let n = chars.len();
    proof {
        reveal_strlit("Merge branch '");
        reveal_strlit("Merge remote-tracking branch '");
    }
    match find_sub(&chars, "Merge branch '") {
        Some(start) => {
            let after = sub_vec(&chars, start + 14, n);
            assert(after@ =~= chars@.skip(start + 14));
            let (before, rest) = split_once_at_char(&after, '\'');
            match rest {
                Some(_) => Some(from_chars(&before)),
                None => None,
            }
        },
        None => {
            match find_sub(&chars, "Merge remote-tracking branch '") {
                Some(start) => {
                    let after = sub_vec(&chars, start + 30, n);
                    assert(after@ =~= chars@.skip(start + 30));
                    let (before, rest) = split_once_at_char(&after, '\'');
                    match rest {
                        Some(_) => Some(from_chars(&before)),
                        None => None,
                    }
                },
                None => None,
            }
        },
    }
}

/// The branch name in a `head-name` state file: trimmed, with a leading
/// `refs/heads/` removed.
pub open spec fn spec_head_branch_name(content: Seq<char>) -> Seq<char> {
    let t = trim_spec(content);
    if has_prefix(t, "refs/heads/"@) {
        t.skip(11)
    } else {
        t
    }
}

/// Read the branch name out of a rebase `head-name` file's content.
pub fn head_branch_name(content: &str) -> (r: String)
    ensures
        r@ == spec_head_branch_name(content@),
{
    let chars = to_chars(content);
    let t = trim(&chars);
    proof {
        reveal_strlit("refs/heads/");
    }
    if starts_with_lit(&t, "refs/heads/") {
        let v = sub_vec(&t, 11, t.len());
        assert(v@ =~= t@.skip(11));
        from_chars(&v)
    } else {
        from_chars(&t)
    }
}

/// The text before the first `~`, as `name.split('~').next()` yields it.
pub open spec fn spec_strip_tilde(name: Seq<char>) -> Seq<char> {
    spec_split_once_char(name, '~').0
}

/// Drop a `~N` ancestry suffix from a rev name.
pub fn strip_tilde_suffix(name: &str) -> (r: String)
    ensures
        r@ == spec_strip_tilde(name@),
{
    let chars = to_chars(name);
    let (before, _) = split_once_at_char(&chars, '~');
    from_chars(&before)
}

} // verus!
