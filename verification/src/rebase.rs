//! Parser and serializer for the git-rebase-todo instruction script: one
//! command per line, `#` comment lines, blank lines. Command keywords are
//! matched case-insensitively in long or single-letter form; serialization
//! always emits the single-letter form, with comments as one trailing
//! block after a blank line.

use vstd::prelude::*;

use crate::error::AppError;
use crate::text::ascii_lower;
use crate::text::chars_eq_lit;
use crate::text::from_chars;
use crate::text::join_parts;
use crate::text::join_with;
use crate::text::spec_lines;
use crate::text::spec_split_once_ws;
use crate::text::spec_split_ws;
use crate::text::split_lines;
use crate::text::split_once_ws;
use crate::text::split_whitespace;
use crate::text::strip_leading;
use crate::text::strip_leading_char;
use crate::text::sub_vec;
use crate::text::to_ascii_lowercase;
use crate::text::to_chars;
use crate::text::trim;
use crate::text::trim_spec;

verus! {
/// One rebase instruction.
#[derive(Debug, Clone, PartialEq)]
pub enum RebaseCommand {
    Pick,
    Reword,
    Edit,
    Squash,
    Fixup,
    Drop,
    Exec(String),
    Break,
    Label(String),
    Reset(String),
    Merge { commit: Option<String>, label: String, message: Option<String> },
}

/// Mathematical model of a `RebaseCommand`.
pub enum RebaseCommandModel {
    Pick,
    Reword,
    Edit,
    Squash,
    Fixup,
    Drop,
    Exec(Seq<char>),
    Break,
    Label(Seq<char>),
    Reset(Seq<char>),
    Merge { commit: Option<Seq<char>>, label: Seq<char>, message: Option<Seq<char>> },
}

impl View for RebaseCommand {
    type V = RebaseCommandModel;

    open spec fn view(&self) -> RebaseCommandModel {
        match self {
            RebaseCommand::Pick => RebaseCommandModel::Pick,
            RebaseCommand::Reword => RebaseCommandModel::Reword,
            RebaseCommand::Edit => RebaseCommandModel::Edit,
            RebaseCommand::Squash => RebaseCommandModel::Squash,
            RebaseCommand::Fixup => RebaseCommandModel::Fixup,
            RebaseCommand::Drop => RebaseCommandModel::Drop,
            RebaseCommand::Exec(c) => RebaseCommandModel::Exec(c@),
            RebaseCommand::Break => RebaseCommandModel::Break,
            RebaseCommand::Label(l) => RebaseCommandModel::Label(l@),
            RebaseCommand::Reset(l) => RebaseCommandModel::Reset(l@),
            RebaseCommand::Merge { commit, label, message } => RebaseCommandModel::Merge {
                commit: match commit {
                    Some(c) => Some(c@),
                    None => None,
                },
                label: label@,
                message: match message {
                    Some(m) => Some(m@),
                    None => None,
                },
            },
        }
    }
}

/// One line of the todo file. The `id` is a freshly drawn identity for UI
/// reordering; it never reaches the serialized form and is not part of the
/// entry's model.
#[derive(Debug, Clone)]
pub struct RebaseEntry {
    pub id: String,
    pub command: RebaseCommand,
    pub commit_hash: String,
    pub message: String,
}

/// Mathematical model of a `RebaseEntry`: its command, hash and message.
pub struct RebaseEntryModel {
    pub command: RebaseCommandModel,
    pub commit_hash: Seq<char>,
    pub message: Seq<char>,
}

impl View for RebaseEntry {
    type V = RebaseEntryModel;

    open spec fn view(&self) -> RebaseEntryModel {
        RebaseEntryModel {
            command: self.command@,
            commit_hash: self.commit_hash@,
            message: self.message@,
        }
    }
}

impl DeepView for RebaseEntry {
    type V = RebaseEntryModel;

    open spec fn deep_view(&self) -> RebaseEntryModel {
        self.view()
    }
}

/// A parsed todo file: instructions in order, and the trailing comment
/// block's lines.
#[derive(Debug, Clone)]
pub struct RebaseTodoFile {
    pub entries: Vec<RebaseEntry>,
    pub comments: Vec<String>,
}

/// Relies on `uuid::Uuid::new_v4` (a random version-4 UUID) rendered
/// through its `Display` impl by `to_string`; nothing is assumed of the
/// produced text.
#[verifier::external_body]
fn fresh_entry_id() -> String {
    uuid::Uuid::new_v4().to_string()
}

impl RebaseEntry {
    /// A new entry with a freshly drawn id.
    pub fn new(command: RebaseCommand, commit_hash: String, message: String) -> (r: RebaseEntry)
        ensures
            r.command == command,
            r.commit_hash == commit_hash,
            r.message == message,
    {
        RebaseEntry { id: fresh_entry_id(), command, commit_hash, message }
    }
}

/// What `RebaseCommand::from_str` recognizes: long or single-letter
/// keyword, ASCII-case-insensitively.
pub open spec fn from_str_model(s: Seq<char>) -> Option<RebaseCommandModel> {
    let kw = ascii_lower(s);
    if kw == "pick"@ || kw == "p"@ {
        Some(RebaseCommandModel::Pick)
    } else if kw == "reword"@ || kw == "r"@ {
        Some(RebaseCommandModel::Reword)
    } else if kw == "edit"@ || kw == "e"@ {
        Some(RebaseCommandModel::Edit)
    } else if kw == "squash"@ || kw == "s"@ {
        Some(RebaseCommandModel::Squash)
    } else if kw == "fixup"@ || kw == "f"@ {
        Some(RebaseCommandModel::Fixup)
    } else if kw == "drop"@ || kw == "d"@ {
        Some(RebaseCommandModel::Drop)
    } else if kw == "break"@ || kw == "b"@ {
        Some(RebaseCommandModel::Break)
    } else {
        None
    }
}

impl RebaseCommand {
    /// Parse a command keyword, long or single-letter form, any ASCII case.
    pub fn from_str(s: &str) -> (r: Option<RebaseCommand>)
        ensures
            match r {
                Some(c) => from_str_model(s@) == Some(c@),
                None => from_str_model(s@) is None,
            },
    {
        let chars = to_chars(s);
        let kw = to_ascii_lowercase(&chars);
        if chars_eq_lit(&kw, "pick") || chars_eq_lit(&kw, "p") {
            Some(RebaseCommand::Pick)
        } else if chars_eq_lit(&kw, "reword") || chars_eq_lit(&kw, "r") {
            Some(RebaseCommand::Reword)
        } else if chars_eq_lit(&kw, "edit") || chars_eq_lit(&kw, "e") {
            Some(RebaseCommand::Edit)
        } else if chars_eq_lit(&kw, "squash") || chars_eq_lit(&kw, "s") {
            Some(RebaseCommand::Squash)
        } else if chars_eq_lit(&kw, "fixup") || chars_eq_lit(&kw, "f") {
            Some(RebaseCommand::Fixup)
        } else if chars_eq_lit(&kw, "drop") || chars_eq_lit(&kw, "d") {
            Some(RebaseCommand::Drop)
        } else if chars_eq_lit(&kw, "break") || chars_eq_lit(&kw, "b") {
            Some(RebaseCommand::Break)
        } else {
            None
        }
    }
}

/// The single-letter rendering of each command.
pub open spec fn short_of(c: RebaseCommandModel) -> Seq<char> {
    match c {
        RebaseCommandModel::Pick => "p"@,
        RebaseCommandModel::Reword => "r"@,
        RebaseCommandModel::Edit => "e"@,
        RebaseCommandModel::Squash => "s"@,
        RebaseCommandModel::Fixup => "f"@,
        RebaseCommandModel::Drop => "d"@,
        RebaseCommandModel::Exec(_) => "x"@,
        RebaseCommandModel::Break => "b"@,
        RebaseCommandModel::Label(_) => "l"@,
        RebaseCommandModel::Reset(_) => "t"@,
        RebaseCommandModel::Merge { .. } => "m"@,
    }
}

impl RebaseCommand {
    /// The command's single-letter form.
    pub fn to_short(&self) -> (r: &'static str)
        ensures
            r@ == short_of(self@),
    {
        match self {
            RebaseCommand::Pick => "p",
            RebaseCommand::Reword => "r",
            RebaseCommand::Edit => "e",
            RebaseCommand::Squash => "s",
            RebaseCommand::Fixup => "f",
            RebaseCommand::Drop => "d",
            RebaseCommand::Exec(_) => "x",
            RebaseCommand::Break => "b",
            RebaseCommand::Label(_) => "l",
            RebaseCommand::Reset(_) => "t",
            RebaseCommand::Merge { .. } => "m",
        }
    }
}

/// `splitn(3, char::is_whitespace)`: at most three fields, the last one
/// being the unsplit remainder.
pub open spec fn splitn3_ws(s: Seq<char>) -> Seq<Seq<char>> {
    let first = spec_split_once_ws(s);
    match first.1 {
        None => seq![first.0],
        Some(r) => {
            let second = spec_split_once_ws(r);
            match second.1 {
                None => seq![first.0, second.0],
                Some(rest) => seq![first.0, second.0, rest],
            }
        },
    }
}

/// Field `k` of the split, or empty, as `parts.get(k).unwrap_or(&"")`.
pub open spec fn part_or_empty(parts: Seq<Seq<char>>, k: int) -> Seq<char> {
    if 0 <= k < parts.len() {
        parts[k]
    } else {
        Seq::empty()
    }
}

/// The remainder after the keyword, rejoined with single spaces, as
/// `parts[1..].join(" ")`.
pub open spec fn rest_of(parts: Seq<Seq<char>>) -> Seq<char> {
    join_with(parts.skip(1), seq![' '])
}

/// The `merge` operand walk: `-C`/`-c` consumes the next token as the
/// commit, a `#` token starts the message (remaining tokens joined with
/// spaces, leading `#` characters stripped, trimmed), the first other
/// token becomes the label.
pub open spec fn merge_args_from(
    toks: Seq<Seq<char>>,
    i: int,
    commit: Option<Seq<char>>,
    label: Seq<char>,
) -> (Option<Seq<char>>, Seq<char>, Option<Seq<char>>)
    decreases toks.len() - i,
{
    if i < 0 || i >= toks.len() {
        (commit, label, None::<Seq<char>>)
    } else {
        let part = toks[i];
        if (part == "-C"@ || part == "-c"@) && i + 1 < toks.len() {
            merge_args_from(toks, i + 2, Some(toks[i + 1]), label)
        } else if part.len() > 0 && part[0] == '#' {
            (
                commit,
                label,
                Some(trim_spec(strip_leading(join_with(toks.skip(i), seq![' ']), '#'))),
            )
        } else if label.len() == 0 {
            merge_args_from(toks, i + 1, commit, part)
        } else {
            merge_args_from(toks, i + 1, commit, label)
        }
    }
}

pub open spec fn spec_parse_merge_args(args: Seq<char>) -> (
    Option<Seq<char>>,
    Seq<char>,
    Option<Seq<char>>,
) {
    merge_args_from(spec_split_ws(args), 0, None::<Seq<char>>, Seq::empty())
}

/// What a trimmed, non-blank, non-comment line yields: an entry, or the
/// unrecognized keyword.
pub open spec fn todo_line_entry(trimmed: Seq<char>) -> Result<RebaseEntryModel, Seq<char>> {
    let parts = splitn3_ws(trimmed);
    let kw = ascii_lower(parts[0]);
    if kw == "exec"@ || kw == "x"@ {
        Ok(
            RebaseEntryModel {
                command: RebaseCommandModel::Exec(rest_of(parts)),
                commit_hash: Seq::empty(),
                message: Seq::empty(),
            },
        )
    } else if kw == "break"@ || kw == "b"@ {
        Ok(
            RebaseEntryModel {
                command: RebaseCommandModel::Break,
                commit_hash: Seq::empty(),
                message: Seq::empty(),
            },
        )
    } else if kw == "label"@ || kw == "l"@ {
        Ok(
            RebaseEntryModel {
                command: RebaseCommandModel::Label(part_or_empty(parts, 1)),
                commit_hash: Seq::empty(),
                message: Seq::empty(),
            },
        )
    } else if kw == "reset"@ || kw == "t"@ {
        Ok(
            RebaseEntryModel {
                command: RebaseCommandModel::Reset(part_or_empty(parts, 1)),
                commit_hash: Seq::empty(),
                message: Seq::empty(),
            },
        )
    } else if kw == "merge"@ || kw == "m"@ {
        let args = spec_parse_merge_args(rest_of(parts));
        Ok(
            RebaseEntryModel {
                command: RebaseCommandModel::Merge {
                    commit: args.0,
                    label: args.1,
                    message: args.2,
                },
                commit_hash: Seq::empty(),
                message: Seq::empty(),
            },
        )
    } else {
        match from_str_model(parts[0]) {
            Some(cmd) => Ok(
                RebaseEntryModel {
                    command: cmd,
                    commit_hash: part_or_empty(parts, 1),
                    message: part_or_empty(parts, 2),
                },
            ),
            None => Err(parts[0]),
        }
    }
}

/// The file-level walk from line `i`: blank lines are dropped, or kept as
/// empty comment entries once a comment has been seen; `#` lines append
/// verbatim to the comments; other lines parse as commands, an unknown
/// keyword failing with its 1-based line number.
pub open spec fn todo_scan(
    lines: Seq<Seq<char>>,
    i: int,
    seen_comment: bool,
    entries: Seq<RebaseEntryModel>,
    comments: Seq<Seq<char>>,
) -> Result<(Seq<RebaseEntryModel>, Seq<Seq<char>>), (int, Seq<char>)>
    decreases lines.len() - i,
{
    if i < 0 || i >= lines.len() {
        Ok((entries, comments))
    } else {
        let trimmed = trim_spec(lines[i]);
        if trimmed.len() == 0 {
            if seen_comment {
                todo_scan(lines, i + 1, seen_comment, entries, comments.push(Seq::empty()))
            } else {
                todo_scan(lines, i + 1, seen_comment, entries, comments)
            }
        } else if trimmed[0] == '#' {
            todo_scan(lines, i + 1, true, entries, comments.push(lines[i]))
        } else {
            match todo_line_entry(trimmed) {
                Ok(e) => todo_scan(lines, i + 1, seen_comment, entries.push(e), comments),
                Err(tok) => Err((i + 1, tok)),
            }
        }
    }
}

pub open spec fn spec_parse_rebase_todo(text: Seq<char>) -> Result<
    (Seq<RebaseEntryModel>, Seq<Seq<char>>),
    (int, Seq<char>),
> {
    todo_scan(spec_lines(text), 0, false, Seq::empty(), Seq::empty())
}

fn from_str_chars(v: &Vec<char>) -> (r: Option<RebaseCommand>)
    ensures
        match r {
            Some(c) => from_str_model(v@) == Some(c@),
            None => from_str_model(v@) is None,
        },
{
    let kw = to_ascii_lowercase(v);
    if chars_eq_lit(&kw, "pick") || chars_eq_lit(&kw, "p") {
        Some(RebaseCommand::Pick)
    } else if chars_eq_lit(&kw, "reword") || chars_eq_lit(&kw, "r") {
        Some(RebaseCommand::Reword)
    } else if chars_eq_lit(&kw, "edit") || chars_eq_lit(&kw, "e") {
        Some(RebaseCommand::Edit)
    } else if chars_eq_lit(&kw, "squash") || chars_eq_lit(&kw, "s") {
        Some(RebaseCommand::Squash)
    } else if chars_eq_lit(&kw, "fixup") || chars_eq_lit(&kw, "f") {
        Some(RebaseCommand::Fixup)
    } else if chars_eq_lit(&kw, "drop") || chars_eq_lit(&kw, "d") {
        Some(RebaseCommand::Drop)
    } else if chars_eq_lit(&kw, "break") || chars_eq_lit(&kw, "b") {
        Some(RebaseCommand::Break)
    } else {
        None
    }
}

/// Parse the operands of a `merge` instruction.
pub fn parse_merge_args(args: &str) -> (r: (Option<String>, String, Option<String>))
    ensures
        ({
            let m = spec_parse_merge_args(args@);
            &&& match r.0 {
                Some(c) => m.0 == Some(c@),
                None => m.0 is None,
            }
            &&& r.1@ == m.1
            &&& match r.2 {
                Some(msg) => m.2 == Some(msg@),
                None => m.2 is None,
            }
        }),
{
    let chars = to_chars(args);
    let toks = split_whitespace(&chars);
    let ghost tdv = toks.deep_view();
    let mut commit: Option<Vec<char>> = None;
    let mut label: Vec<char> = Vec::new();
    let mut i: usize = 0;
    while i < toks.len()
        invariant
            i <= toks@.len(),
            tdv == toks.deep_view(),
            tdv.len() == toks@.len(),
            spec_parse_merge_args(args@) == merge_args_from(
                tdv,
                i as int,
                match commit {
                    Some(ref v) => Some(v@),
                    None => None::<Seq<char>>,
                },
                label@,
            ),
        decreases toks@.len() - i,
    {
        assert(toks@[i as int]@ == tdv[i as int]);
        let part = &toks[i];
        let is_flag = chars_eq_lit(part, "-C") || chars_eq_lit(part, "-c");
        if is_flag && i + 1 < toks.len() {
            assert(toks@[i as int + 1]@ == tdv[i as int + 1]);
            commit = Some(sub_vec(&toks[i + 1], 0, toks[i + 1].len()));
            proof {
                let c = commit.unwrap()@;
                assert(c =~= tdv[i as int + 1]);
            }
            i = i + 2;
        } else if part.len() > 0 && part[0] == '#' {
            let mut tail: Vec<Vec<char>> = Vec::new();
            let mut k: usize = i;
            assert(tail.deep_view() =~~= tdv.subrange(i as int, i as int));
            while k < toks.len()
                invariant
                    i <= k <= toks@.len(),
                    tdv == toks.deep_view(),
                    tdv.len() == toks@.len(),
                    tail.deep_view() == tdv.subrange(i as int, k as int),
                decreases toks@.len() - k,
            {
                let ghost prev = tail.deep_view();
                assert(toks@[k as int]@ == tdv[k as int]);
                tail.push(sub_vec(&toks[k], 0, toks[k].len()));
                assert(tail.deep_view() =~~= prev.push(tdv[k as int]));
                assert(tail.deep_view() =~~= tdv.subrange(i as int, k as int + 1));
                k = k + 1;
            }
            assert(tail.deep_view() =~~= tdv.skip(i as int));
            let joined = join_parts(&tail, " ");
            proof {
                reveal_strlit(" ");
                assert(" "@ =~= seq![' ']);
            }
            let stripped = strip_leading_char(&joined, '#');
            let msg = trim(&stripped);
            let r0 = match commit {
                Some(ref c) => Some(from_chars(c)),
                None => None,
            };
            return (r0, from_chars(&label), Some(from_chars(&msg)));
        } else {
            if label.len() == 0 {
                assert(label@ =~= Seq::<char>::empty());
                label = sub_vec(part, 0, part.len());
                assert(label@ =~= tdv[i as int]);
            }
            i = i + 1;
        }
    }
    let r0 = match commit {
        Some(ref c) => Some(from_chars(c)),
        None => None,
    };
    (r0, from_chars(&label), None)
}

fn parse_todo_line(trimmed: &Vec<char>) -> (r: Result<RebaseEntry, Vec<char>>)
    requires
        trimmed@.len() > 0,
    ensures
        match r {
            Ok(e) => todo_line_entry(trimmed@) == Ok::<RebaseEntryModel, Seq<char>>(e@),
            Err(tok) => todo_line_entry(trimmed@) == Err::<RebaseEntryModel, Seq<char>>(tok@),
        },
{
    let ghost parts = splitn3_ws(trimmed@);
    let (p0, r1) = split_once_ws(trimmed);
    let empty_string = from_chars(&Vec::new());
    assert(empty_string@ =~= Seq::<char>::empty());
    let (p1, p2): (Option<Vec<char>>, Option<Vec<char>>) = match r1 {
        None => (None, None),
        Some(r) => {
            let (b, r2) = split_once_ws(&r);
            (Some(b), r2)
        },
    };
    proof {
        match p1 {
            None => {
                assert(parts =~~= seq![p0@]);
            },
            Some(ref b) => {
                match p2 {
                    None => {
                        assert(parts =~~= seq![p0@, b@]);
                    },
                    Some(ref r2) => {
                        assert(parts =~~= seq![p0@, b@, r2@]);
                    },
                }
            },
        }
    }
    let kw = to_ascii_lowercase(&p0);
    // the remainder after the keyword, as `parts[1..].join(" ")`
    let rest: Vec<char> = match (&p1, &p2) {
        (None, _) => Vec::new(),
        (Some(b), None) => sub_vec(b, 0, b.len()),
        (Some(b), Some(r2)) => {
            let mut out = sub_vec(b, 0, b.len());
            out.push(' ');
            let mut tailv = sub_vec(r2, 0, r2.len());
            out.append(&mut tailv);
            out
        },
    };
    proof {
        match p1 {
            None => {
                assert(parts.skip(1) =~~= Seq::<Seq<char>>::empty());
                assert(rest@ =~= rest_of(parts));
            },
            Some(ref b) => {
                match p2 {
                    None => {
                        assert(parts.skip(1) =~~= seq![b@]);
                        assert(rest@ =~= rest_of(parts));
                    },
                    Some(ref r2) => {
                        assert(parts.skip(1) =~~= seq![b@, r2@]);
                        let two = seq![b@, r2@];
                        assert(two.drop_first() =~~= seq![r2@]);
                        assert(join_with(seq![r2@], seq![' ']) == r2@);
                        assert(join_with(two, seq![' ']) == two[0] + seq![' '] + join_with(
                            two.drop_first(),
                            seq![' '],
                        ));
                        assert(rest@ =~= rest_of(parts));
                    },
                }
            },
        }
    }
    if chars_eq_lit(&kw, "exec") || chars_eq_lit(&kw, "x") {
        Ok(
            RebaseEntry::new(
                RebaseCommand::Exec(from_chars(&rest)),
                empty_string.clone(),
                empty_string,
            ),
        )
    } else if chars_eq_lit(&kw, "break") || chars_eq_lit(&kw, "b") {
        Ok(RebaseEntry::new(RebaseCommand::Break, empty_string.clone(), empty_string))
    } else if chars_eq_lit(&kw, "label") || chars_eq_lit(&kw, "l") {
        let operand = match &p1 {
            Some(b) => from_chars(b),
            None => empty_string.clone(),
        };
        Ok(RebaseEntry::new(RebaseCommand::Label(operand), empty_string.clone(), empty_string))
    } else if chars_eq_lit(&kw, "reset") || chars_eq_lit(&kw, "t") {
        let operand = match &p1 {
            Some(b) => from_chars(b),
            None => empty_string.clone(),
        };
        Ok(RebaseEntry::new(RebaseCommand::Reset(operand), empty_string.clone(), empty_string))
    } else if chars_eq_lit(&kw, "merge") || chars_eq_lit(&kw, "m") {
        let rest_str = from_chars(&rest);
        let (commit, label, message) = parse_merge_args(rest_str.as_str());
        Ok(
            RebaseEntry::new(
                RebaseCommand::Merge { commit, label, message },
                empty_string.clone(),
                empty_string,
            ),
        )
    } else {
        match from_str_chars(&p0) {
            Some(command) => {
                let hash = match &p1 {
                    Some(b) => from_chars(b),
                    None => empty_string.clone(),
                };
                let message = match &p2 {
                    Some(r2) => from_chars(r2),
                    None => empty_string,
                };
                Ok(RebaseEntry::new(command, hash, message))
            },
            None => {
                let tok = sub_vec(&p0, 0, p0.len());
                assert(tok@ =~= p0@);
                Err(tok)
            },
        }
    }
}

/// Parse git-rebase-todo file content. An unrecognized command keyword
/// fails with its 1-based line number; all other lines are instructions,
/// comments or blanks.
pub fn parse_rebase_todo(content: &str) -> (result: Result<RebaseTodoFile, AppError>)
    ensures
        match result {
            Ok(f) => {
                &&& spec_parse_rebase_todo(content@) is Ok
                &&& f.entries@.len() == spec_parse_rebase_todo(content@)->Ok_0.0.len()
                &&& forall|j: int|
                    0 <= j < f.entries@.len() ==> #[trigger] f.entries@[j]@
                        == spec_parse_rebase_todo(content@)->Ok_0.0[j]
                &&& f.comments@.len() == spec_parse_rebase_todo(content@)->Ok_0.1.len()
                &&& forall|j: int|
                    0 <= j < f.comments@.len() ==> #[trigger] f.comments@[j]@
                        == spec_parse_rebase_todo(content@)->Ok_0.1[j]
            },
            Err(e) => {
                &&& spec_parse_rebase_todo(content@) is Err
                &&& e matches AppError::ParseError { line, message } && line as int
                    == spec_parse_rebase_todo(content@)->Err_0.0 && message@ == "Unknown command: "@
                    + spec_parse_rebase_todo(content@)->Err_0.1
            },
        },
{
    let chars = to_chars(content);
    let lines = split_lines(&chars);
    let ghost ldv = lines.deep_view();
    let ghost model = spec_parse_rebase_todo(content@);
    let mut entries: Vec<RebaseEntry> = Vec::new();
    let mut comments: Vec<String> = Vec::new();
    let mut seen_comment = false;
    let mut i: usize = 0;
    proof {
        assert(entries.deep_view() =~~= Seq::<RebaseEntryModel>::empty());
        assert(comments.deep_view() =~~= Seq::<Seq<char>>::empty());
    }
    while i < lines.len()
        invariant
            i <= lines@.len(),
            ldv == lines.deep_view(),
            ldv.len() == lines@.len(),
            model == spec_parse_rebase_todo(content@),
            model == todo_scan(
                ldv,
                i as int,
                seen_comment,
                entries.deep_view(),
                comments.deep_view(),
            ),
        decreases lines@.len() - i,
    {
        let ghost edv = entries.deep_view();
        let ghost cdv = comments.deep_view();
        assert(lines@[i as int]@ == ldv[i as int]);
        let line = &lines[i];
        let trimmed = trim(line);
        if trimmed.len() == 0 {
            if seen_comment {
                let empty_string = from_chars(&Vec::new());
                assert(empty_string@ =~= Seq::<char>::empty());
                comments.push(empty_string);
                assert(comments.deep_view() =~~= cdv.push(Seq::<char>::empty()));
            }
        } else if trimmed[0] == '#' {
            seen_comment = true;
            comments.push(from_chars(line));
            assert(comments.deep_view() =~~= cdv.push(ldv[i as int]));
        } else {
            match parse_todo_line(&trimmed) {
                Ok(e) => {
                    entries.push(e);
                    assert(entries.deep_view() =~~= edv.push(
                        todo_line_entry(trim_spec(ldv[i as int]))->Ok_0,
                    ));
                },
                Err(tok) => {
                    let mut msg = to_chars("Unknown command: ");
                    let mut tokv = tok;
                    let ghost tokd = tokv@;
                    msg.append(&mut tokv);
                    return Err(
                        AppError::ParseError { line: i + 1, message: from_chars(&msg) },
                    );
                },
            }
        }
        i = i + 1;
    }
    let ghost edv = entries.deep_view();
    let ghost cdv = comments.deep_view();
    proof {
        assert(model == Ok::<(Seq<RebaseEntryModel>, Seq<Seq<char>>), (int, Seq<char>)>(
            (edv, cdv),
        ));
        assert(forall|j: int|
            0 <= j < entries@.len() ==> #[trigger] entries@[j]@ == edv[j]);
        assert(forall|j: int|
            0 <= j < comments@.len() ==> #[trigger] comments@[j]@ == cdv[j]);
    }
    Ok(RebaseTodoFile { entries, comments })
}

/// The serialized form of one entry: single-letter command, then its
/// operands; the pick family renders as `<letter> <hash> <message>`.
pub open spec fn serialize_entry_line(e: RebaseEntryModel) -> Seq<char> {
    match e.command {
        RebaseCommandModel::Exec(c) => "x "@ + c,
        RebaseCommandModel::Break => "b"@,
        RebaseCommandModel::Label(l) => "l "@ + l,
        RebaseCommandModel::Reset(l) => "t "@ + l,
        RebaseCommandModel::Merge { commit, label, message } => "m"@ + (match commit {
            Some(c) => seq![' '] + "-C "@ + c,
            None => Seq::<char>::empty(),
        }) + seq![' '] + label + (match message {
            Some(m) => seq![' '] + "# "@ + m,
            None => Seq::<char>::empty(),
        }),
        _ => short_of(e.command) + seq![' '] + e.commit_hash + seq![' '] + e.message,
    }
}

/// The serialized lines of the entries, in order.
pub open spec fn entry_lines(entries: Seq<RebaseEntryModel>) -> Seq<Seq<char>> {
    Seq::new(entries.len(), |i: int| serialize_entry_line(entries[i]))
}

/// The serialized file: one line per entry; when comments exist, one blank
/// line and then the comment lines; all joined with newlines.
pub open spec fn spec_serialize_todo(
    entries: Seq<RebaseEntryModel>,
    comments: Seq<Seq<char>>,
) -> Seq<char> {
    let lines = if comments.len() == 0 {
        entry_lines(entries)
    } else {
        entry_lines(entries) + seq![Seq::<char>::empty()] + comments
    };
    join_with(lines, seq!['\n'])
}

fn render_entry_line(entry: &RebaseEntry) -> (r: Vec<char>)
    ensures
        r@ == serialize_entry_line(entry@),
{
    match &entry.command {
        RebaseCommand::Exec(cmd) => {
            let mut out = to_chars("x ");
            let mut c = to_chars(cmd.as_str());
            out.append(&mut c);
            out
        },
        RebaseCommand::Break => to_chars("b"),
        RebaseCommand::Label(label) => {
            let mut out = to_chars("l ");
            let mut c = to_chars(label.as_str());
            out.append(&mut c);
            out
        },
        RebaseCommand::Reset(label) => {
            let mut out = to_chars("t ");
            let mut c = to_chars(label.as_str());
            out.append(&mut c);
            out
        },
        RebaseCommand::Merge { commit, label, message } => {
            let mut out = to_chars("m");
            match commit {
                Some(c) => {
                    out.push(' ');
                    let mut f = to_chars("-C ");
                    out.append(&mut f);
                    let mut cv = to_chars(c.as_str());
                    out.append(&mut cv);
                },
                None => {},
            }
            out.push(' ');
            let mut lv = to_chars(label.as_str());
            out.append(&mut lv);
            match message {
                Some(m) => {
                    out.push(' ');
                    let mut h = to_chars("# ");
                    out.append(&mut h);
                    let mut mv = to_chars(m.as_str());
                    out.append(&mut mv);
                },
                None => {},
            }
            assert(out@ =~= serialize_entry_line(entry@));
            out
        },
        _ => {
            let short = entry.command.to_short();
            let mut out = to_chars(short);
            out.push(' ');
            let mut h = to_chars(entry.commit_hash.as_str());
            out.append(&mut h);
            out.push(' ');
            let mut m = to_chars(entry.message.as_str());
            out.append(&mut m);
            assert(out@ =~= serialize_entry_line(entry@));
            out
        },
    }
}

/// Serialize a todo file back to git-rebase-todo text.
pub fn serialize_rebase_todo(file: &RebaseTodoFile) -> (r: String)
    ensures
        r@ == spec_serialize_todo(file.entries.deep_view(), file.comments.deep_view()),
{
    let ghost edv = file.entries.deep_view();
    let ghost cdv = file.comments.deep_view();
    let mut lines: Vec<Vec<char>> = Vec::new();
    let mut i: usize = 0;
    while i < file.entries.len()
        invariant
            i <= file.entries@.len(),
            edv == file.entries.deep_view(),
            edv.len() == file.entries@.len(),
            lines.deep_view() =~~= entry_lines(edv).take(i as int),
        decreases file.entries@.len() - i,
    {
        let ghost prev = lines.deep_view();
        assert(file.entries@[i as int]@ == edv[i as int]);
        let line = render_entry_line(&file.entries[i]);
        lines.push(line);
        assert(lines.deep_view() =~~= prev.push(serialize_entry_line(edv[i as int])));
        assert(lines.deep_view() =~~= entry_lines(edv).take(i as int + 1));
        i = i + 1;
    }
    assert(lines.deep_view() =~~= entry_lines(edv));
    if file.comments.len() > 0 {
        lines.push(Vec::new());
        let ghost mid = lines.deep_view();
        assert(mid =~~= entry_lines(edv) + seq![Seq::<char>::empty()]);
        let mut k: usize = 0;
        while k < file.comments.len()
            invariant
                k <= file.comments@.len(),
                cdv == file.comments.deep_view(),
                cdv.len() == file.comments@.len(),
                lines.deep_view() =~~= (entry_lines(edv) + seq![Seq::<char>::empty()]) + cdv.take(
                    k as int,
                ),
            decreases file.comments@.len() - k,
        {
            let ghost prev = lines.deep_view();
            assert(file.comments@[k as int]@ == cdv[k as int]);
            let cv = to_chars(file.comments[k].as_str());
            lines.push(cv);
            assert(lines.deep_view() =~~= prev.push(cdv[k as int]));
            assert(lines.deep_view() =~~= (entry_lines(edv) + seq![Seq::<char>::empty()])
                + cdv.take(k as int + 1));
            k = k + 1;
        }
        assert(lines.deep_view() =~~= entry_lines(edv) + seq![Seq::<char>::empty()] + cdv);
    }
    let joined = join_parts(&lines, "\n");
    proof {
        reveal_strlit("\n");
        assert("\n"@ =~= seq!['\n']);
    }
    from_chars(&joined)
}

/// A nonempty token without whitespace.
pub open spec fn token_ok(s: Seq<char>) -> bool {
    s.len() > 0 && crate::text::ws_free(s)
}

/// Free text that can stand as the tail of a command line: nonempty, free
/// of line breaks, not ending in whitespace.
pub open spec fn tail_ok(s: Seq<char>) -> bool {
    &&& s.len() > 0
    &&& !crate::text::is_ws(s.last())
    &&& forall|i: int| 0 <= i < s.len() ==> s[i] != '\n' && s[i] != '\r'
}

/// An exec command line tail: nonempty, its only whitespace plain spaces,
/// not ending in a space.
pub open spec fn exec_ok(s: Seq<char>) -> bool {
    &&& s.len() > 0
    &&& crate::text::space_only_ws(s)
    &&& s.last() != ' '
}

/// A merge message in its space-normalized form: what remains unchanged by
/// splitting on whitespace and rejoining with single spaces.
pub open spec fn merge_msg_ok(m: Seq<char>) -> bool {
    &&& m.len() > 0
    &&& !crate::text::is_ws(m[0])
    &&& !crate::text::is_ws(m.last())
    &&& m == join_with(spec_split_ws(m), seq![' '])
    &&& forall|i: int| 0 <= i < m.len() ==> m[i] != '\n' && m[i] != '\r'
}

/// The instructions whose serialized line parses back to the same
/// instruction: operands are whitespace-free tokens where the grammar
/// splits on whitespace, free text where it takes the line's tail, and a
/// merge label is not itself a flag or a message introducer.
pub open spec fn serializable_entry(e: RebaseEntryModel) -> bool {
    match e.command {
        RebaseCommandModel::Exec(c) => exec_ok(c) && e.commit_hash.len() == 0 && e.message.len()
            == 0,
        RebaseCommandModel::Break => e.commit_hash.len() == 0 && e.message.len() == 0,
        RebaseCommandModel::Label(l) => token_ok(l) && e.commit_hash.len() == 0 && e.message.len()
            == 0,
        RebaseCommandModel::Reset(l) => token_ok(l) && e.commit_hash.len() == 0 && e.message.len()
            == 0,
        RebaseCommandModel::Merge { commit, label, message } => {
            &&& token_ok(label)
            &&& label[0] != '#'
            &&& label != "-C"@
            &&& label != "-c"@
            &&& match commit {
                Some(c) => token_ok(c),
                None => true,
            }
            &&& match message {
                Some(m) => merge_msg_ok(m),
                None => true,
            }
            &&& e.commit_hash.len() == 0
            &&& e.message.len() == 0
        },
        _ => token_ok(e.commit_hash) && tail_ok(e.message),
    }
}

proof fn reveal_keywords()
    ensures
        "p"@ =~= seq!['p'] && "r"@ =~= seq!['r'] && "e"@ =~= seq!['e'] && "s"@ =~= seq!['s']
            && "f"@ =~= seq!['f'] && "d"@ =~= seq!['d'] && "x"@ =~= seq!['x'] && "b"@ =~= seq!['b']
            && "l"@ =~= seq!['l'] && "t"@ =~= seq!['t'] && "m"@ =~= seq!['m'],
        "x "@ =~= seq!['x', ' '] && "l "@ =~= seq!['l', ' '] && "t "@ =~= seq!['t', ' '],
        "-C "@ =~= seq!['-', 'C', ' '] && "# "@ =~= seq!['#', ' '],
        "-C"@ =~= seq!['-', 'C'] && "-c"@ =~= seq!['-', 'c'] && "#"@ =~= seq!['#'],
        "pick"@.len() == 4 && "reword"@.len() == 6 && "edit"@.len() == 4 && "squash"@.len() == 6
            && "fixup"@.len() == 5 && "drop"@.len() == 4 && "break"@.len() == 5 && "exec"@.len()
            == 4 && "label"@.len() == 5 && "reset"@.len() == 5 && "merge"@.len() == 5,
{
    reveal_strlit("p");
    reveal_strlit("r");
    reveal_strlit("e");
    reveal_strlit("s");
    reveal_strlit("f");
    reveal_strlit("d");
    reveal_strlit("x");
    reveal_strlit("b");
    reveal_strlit("l");
    reveal_strlit("t");
    reveal_strlit("m");
    reveal_strlit("x ");
    reveal_strlit("l ");
    reveal_strlit("t ");
    reveal_strlit("-C ");
    reveal_strlit("# ");
    reveal_strlit("-C");
    reveal_strlit("-c");
    reveal_strlit("#");
    reveal_strlit("pick");
    reveal_strlit("reword");
    reveal_strlit("edit");
    reveal_strlit("squash");
    reveal_strlit("fixup");
    reveal_strlit("drop");
    reveal_strlit("break");
    reveal_strlit("exec");
    reveal_strlit("label");
    reveal_strlit("reset");
    reveal_strlit("merge");
}

/// A lowercase letter is its own ASCII-lowercase form.
proof fn lemma_lower_single(c: char)
    requires
        'a' <= c && c <= 'z',
    ensures
        ascii_lower(seq![c]) =~= seq![c],
{
    assert(ascii_lower(seq![c]).len() == 1);
    assert(ascii_lower(seq![c])[0] == crate::text::lower_char(c));
}

/// The round-trip facts of one serialized line.
pub open spec fn line_round_trips(e: RebaseEntryModel) -> bool {
    let line = serialize_entry_line(e);
    &&& line.len() > 0
    &&& !crate::text::is_ws(line[0])
    &&& line[0] != '#'
    &&& forall|k: int| 0 <= k < line.len() ==> line[k] != '\n' && line[k] != '\r'
    &&& trim_spec(line) == line
    &&& todo_line_entry(line) == Ok::<RebaseEntryModel, Seq<char>>(e)
}

proof fn lemma_pick_like_round_trip(e: RebaseEntryModel, letter: char)
    requires
        short_of(e.command) == seq![letter],
        ascii_lower(seq![letter]) == seq![letter],
        from_str_model(seq![letter]) == Some(e.command),
        letter != 'x' && letter != 'b' && letter != 'l' && letter != 't' && letter != 'm',
        letter != '#' && letter != '\n' && letter != '\r',
        !crate::text::is_ws(letter),
        serialize_entry_line(e) == seq![letter] + seq![' '] + e.commit_hash + seq![' ']
            + e.message,
        token_ok(e.commit_hash),
        tail_ok(e.message),
    ensures
        line_round_trips(e),
{
    reveal_keywords();
    let line = serialize_entry_line(e);
    let hash = e.commit_hash;
    let msg = e.message;
    let tail = hash + seq![' '] + msg;
    assert(line =~= seq![letter] + seq![' '] + tail);
    assert(crate::text::ws_free(seq![letter]));
    crate::text::lemma_split_once_ws_sep(Seq::empty(), seq![letter], tail);
    assert(Seq::<char>::empty() + seq![letter] =~= seq![letter]);
    crate::text::lemma_split_once_ws_sep(Seq::empty(), hash, msg);
    assert(Seq::<char>::empty() + hash =~= hash);
    let parts = splitn3_ws(line);
    assert(parts == seq![seq![letter], hash, msg]);
    let kw = ascii_lower(parts[0]);
    assert(kw == seq![letter]);
    assert(kw != "exec"@ && kw != "break"@ && kw != "label"@ && kw != "reset"@ && kw
        != "merge"@);
    assert(kw != "x"@ && kw != "b"@ && kw != "l"@ && kw != "t"@ && kw != "m"@);
    assert(from_str_model(parts[0]) == Some(e.command));
    assert(part_or_empty(parts, 1) == hash && part_or_empty(parts, 2) == msg);
    assert(todo_line_entry(line) == Ok::<RebaseEntryModel, Seq<char>>(e));
    // line shape
    assert(line[0] == letter);
    assert(line.last() == msg.last());
    assert forall|k: int| 0 <= k < line.len() implies line[k] != '\n' && line[k] != '\r' by {
        if k == 0 {
        } else if k == 1 {
            assert(line[k] == ' ');
        } else if k < 2 + hash.len() {
            assert(line[k] == hash[k - 2]);
            assert(!crate::text::is_ws(hash[k - 2]));
        } else if k == 2 + hash.len() {
            assert(line[k] == ' ');
        } else {
            assert(line[k] == msg[k - 3 - hash.len()]);
        }
    }
    crate::text::lemma_trim_stable(line);
}

/// A serializable instruction's serialized line is a stable command line
/// and parses back to the same instruction.
pub proof fn lemma_entry_line_round_trip(e: RebaseEntryModel)
    requires
        serializable_entry(e),
    ensures
        line_round_trips(e),
{
    reveal_keywords();
    match e.command {
        RebaseCommandModel::Pick => {
            lemma_lower_single('p');
            assert(from_str_model(seq!['p']) == Some(e.command));
            assert(serialize_entry_line(e) == seq!['p'] + seq![' '] + e.commit_hash + seq![' ']
                + e.message);
            lemma_pick_like_round_trip(e, 'p');
        },
        RebaseCommandModel::Reword => {
            lemma_lower_single('r');
            assert(ascii_lower(seq!['r'])[0] == 'r');
            assert(ascii_lower(seq!['r']) != "p"@);
            assert(from_str_model(seq!['r']) == Some(e.command));
            assert(serialize_entry_line(e) == seq!['r'] + seq![' '] + e.commit_hash + seq![' ']
                + e.message);
            lemma_pick_like_round_trip(e, 'r');
        },
        RebaseCommandModel::Edit => {
            lemma_lower_single('e');
            assert(ascii_lower(seq!['e'])[0] == 'e');
            assert(ascii_lower(seq!['e']) != "p"@ && ascii_lower(seq!['e']) != "r"@);
            assert(from_str_model(seq!['e']) == Some(e.command));
            assert(serialize_entry_line(e) == seq!['e'] + seq![' '] + e.commit_hash + seq![' ']
                + e.message);
            lemma_pick_like_round_trip(e, 'e');
        },
        RebaseCommandModel::Squash => {
            lemma_lower_single('s');
            assert(ascii_lower(seq!['s'])[0] == 's');
            assert(ascii_lower(seq!['s']) != "p"@ && ascii_lower(seq!['s']) != "r"@ && ascii_lower(seq!['s']) != "e"@);
            assert(from_str_model(seq!['s']) == Some(e.command));
            assert(serialize_entry_line(e) == seq!['s'] + seq![' '] + e.commit_hash + seq![' ']
                + e.message);
            lemma_pick_like_round_trip(e, 's');
        },
        RebaseCommandModel::Fixup => {
            lemma_lower_single('f');
            assert(ascii_lower(seq!['f'])[0] == 'f');
            assert(ascii_lower(seq!['f']) != "p"@ && ascii_lower(seq!['f']) != "r"@ && ascii_lower(seq!['f']) != "e"@ && ascii_lower(seq!['f']) != "s"@);
            assert(from_str_model(seq!['f']) == Some(e.command));
            assert(serialize_entry_line(e) == seq!['f'] + seq![' '] + e.commit_hash + seq![' ']
                + e.message);
            lemma_pick_like_round_trip(e, 'f');
        },
        RebaseCommandModel::Drop => {
            lemma_lower_single('d');
            assert(ascii_lower(seq!['d'])[0] == 'd');
            assert(ascii_lower(seq!['d']) != "p"@ && ascii_lower(seq!['d']) != "r"@ && ascii_lower(seq!['d']) != "e"@ && ascii_lower(seq!['d']) != "s"@ && ascii_lower(seq!['d']) != "f"@);
            assert(from_str_model(seq!['d']) == Some(e.command));
            assert(serialize_entry_line(e) == seq!['d'] + seq![' '] + e.commit_hash + seq![' ']
                + e.message);
            lemma_pick_like_round_trip(e, 'd');
        },
        RebaseCommandModel::Break => {
            let line = serialize_entry_line(e);
            assert(line == "b"@);
            assert(line =~= seq!['b']);
            assert(crate::text::ws_free(line));
            crate::text::lemma_split_once_ws_whole(Seq::empty(), line);
            assert(Seq::<char>::empty() + line =~= line);
            let parts = splitn3_ws(line);
            assert(parts == seq![line]);
            lemma_lower_single('b');
            let kw = ascii_lower(parts[0]);
            assert(kw == seq!['b'] && kw == "b"@);
            assert(kw != "exec"@ && kw != "x"@ && kw != "break"@);
            assert(e.commit_hash =~= Seq::<char>::empty());
            assert(e.message =~= Seq::<char>::empty());
            assert(todo_line_entry(line) == Ok::<RebaseEntryModel, Seq<char>>(e));
            assert forall|k: int| 0 <= k < line.len() implies line[k] != '\n' && line[k]
                != '\r' by {
                assert(line[k] == 'b');
            }
            crate::text::lemma_trim_stable(line);
        },
        RebaseCommandModel::Label(l) => {
            let line = serialize_entry_line(e);
            assert(line =~= seq!['l'] + seq![' '] + l);
            assert(crate::text::ws_free(seq!['l']));
            crate::text::lemma_split_once_ws_sep(Seq::empty(), seq!['l'], l);
            assert(Seq::<char>::empty() + seq!['l'] =~= seq!['l']);
            crate::text::lemma_split_once_ws_whole(Seq::empty(), l);
            assert(Seq::<char>::empty() + l =~= l);
            let parts = splitn3_ws(line);
            assert(parts == seq![seq!['l'], l]);
            lemma_lower_single('l');
            let kw = ascii_lower(parts[0]);
            assert(kw == seq!['l'] && kw == "l"@);
            assert(kw != "exec"@ && kw != "x"@ && kw != "break"@ && kw != "b"@ && kw
                != "label"@);
            assert(part_or_empty(parts, 1) == l);
            assert(e.commit_hash =~= Seq::<char>::empty());
            assert(e.message =~= Seq::<char>::empty());
            assert(todo_line_entry(line) == Ok::<RebaseEntryModel, Seq<char>>(e));
            assert(line[0] == 'l' && line.last() == l.last());
            assert forall|k: int| 0 <= k < line.len() implies line[k] != '\n' && line[k]
                != '\r' by {
                if k == 0 {
                } else if k == 1 {
                    assert(line[k] == ' ');
                } else {
                    assert(line[k] == l[k - 2]);
                    assert(!crate::text::is_ws(l[k - 2]));
                }
            }
            crate::text::lemma_trim_stable(line);
        },
        RebaseCommandModel::Reset(l) => {
            let line = serialize_entry_line(e);
            assert(line =~= seq!['t'] + seq![' '] + l);
            assert(crate::text::ws_free(seq!['t']));
            crate::text::lemma_split_once_ws_sep(Seq::empty(), seq!['t'], l);
            assert(Seq::<char>::empty() + seq!['t'] =~= seq!['t']);
            crate::text::lemma_split_once_ws_whole(Seq::empty(), l);
            assert(Seq::<char>::empty() + l =~= l);
            let parts = splitn3_ws(line);
            assert(parts == seq![seq!['t'], l]);
            lemma_lower_single('t');
            let kw = ascii_lower(parts[0]);
            assert(kw == seq!['t'] && kw == "t"@);
            assert(kw != "exec"@ && kw != "x"@ && kw != "break"@ && kw != "b"@ && kw != "label"@
                && kw != "l"@ && kw != "reset"@);
            assert(part_or_empty(parts, 1) == l);
            assert(e.commit_hash =~= Seq::<char>::empty());
            assert(e.message =~= Seq::<char>::empty());
            assert(todo_line_entry(line) == Ok::<RebaseEntryModel, Seq<char>>(e));
            assert(line[0] == 't' && line.last() == l.last());
            assert forall|k: int| 0 <= k < line.len() implies line[k] != '\n' && line[k]
                != '\r' by {
                if k == 0 {
                } else if k == 1 {
                    assert(line[k] == ' ');
                } else {
                    assert(line[k] == l[k - 2]);
                    assert(!crate::text::is_ws(l[k - 2]));
                }
            }
            crate::text::lemma_trim_stable(line);
        },
        RebaseCommandModel::Exec(c) => {
            let line = serialize_entry_line(e);
            assert(line =~= seq!['x'] + seq![' '] + c);
            assert(crate::text::ws_free(seq!['x']));
            crate::text::lemma_split_once_ws_sep(Seq::empty(), seq!['x'], c);
            assert(Seq::<char>::empty() + seq!['x'] =~= seq!['x']);
            crate::text::lemma_split_once_ws_shape(Seq::empty(), c);
            let second = spec_split_once_ws(c);
            let parts = splitn3_ws(line);
            lemma_lower_single('x');
            let kw = ascii_lower(seq!['x']);
            assert(kw == seq!['x'] && kw == "x"@);
            assert(kw != "exec"@);
            match second.1 {
                None => {
                    assert(second.0 == Seq::<char>::empty() + c);
                    assert(Seq::<char>::empty() + c =~= c);
                    assert(parts == seq![seq!['x'], c]);
                    assert(parts.skip(1) =~~= seq![c]);
                    assert(rest_of(parts) == c);
                },
                Some(r2) => {
                    assert(Seq::<char>::empty() + c == second.0 + seq![' '] + r2);
                    assert(Seq::<char>::empty() + c =~= c);
                    assert(parts == seq![seq!['x'], second.0, r2]);
                    assert(parts.skip(1) =~~= seq![second.0, r2]);
                    let two = seq![second.0, r2];
                    assert(two.drop_first() =~~= seq![r2]);
                    assert(join_with(seq![r2], seq![' ']) == r2);
                    assert(join_with(two, seq![' ']) == two[0] + seq![' '] + join_with(
                        two.drop_first(),
                        seq![' '],
                    ));
                    assert(rest_of(parts) == second.0 + seq![' '] + r2);
                    assert(rest_of(parts) == c);
                },
            }
            assert(ascii_lower(parts[0]) == "x"@);
            assert(e.commit_hash =~= Seq::<char>::empty());
            assert(e.message =~= Seq::<char>::empty());
            assert(todo_line_entry(line) == Ok::<RebaseEntryModel, Seq<char>>(e));
            assert(line[0] == 'x');
            assert(line.last() == c.last());
            assert(!crate::text::is_ws(c.last()));
            assert forall|k: int| 0 <= k < line.len() implies line[k] != '\n' && line[k]
                != '\r' by {
                if k == 0 {
                } else if k == 1 {
                    assert(line[k] == ' ');
                } else {
                    assert(line[k] == c[k - 2]);
                }
            }
            crate::text::lemma_trim_stable(line);
        },
        RebaseCommandModel::Merge { commit, label, message } => {
            lemma_merge_round_trip(e, commit, label, message);
        },
    }
}

/// No line breaks among the characters.
pub open spec fn no_crlf(s: Seq<char>) -> bool {
    forall|i: int| 0 <= i < s.len() ==> s[i] != '\n' && s[i] != '\r'
}

proof fn lemma_no_crlf_concat(a: Seq<char>, b: Seq<char>)
    requires
        no_crlf(a),
        no_crlf(b),
    ensures
        no_crlf(a + b),
{
    assert forall|i: int| 0 <= i < (a + b).len() implies (a + b)[i] != '\n' && (a + b)[i]
        != '\r' by {
        if i < a.len() {
            assert((a + b)[i] == a[i]);
        } else {
            assert((a + b)[i] == b[i - a.len()]);
        }
    }
}

proof fn lemma_ws_free_no_crlf(s: Seq<char>)
    requires
        crate::text::ws_free(s),
    ensures
        no_crlf(s),
{
    assert forall|i: int| 0 <= i < s.len() implies s[i] != '\n' && s[i] != '\r' by {
        assert(!crate::text::is_ws(s[i]));
    }
}

#[verifier::rlimit(100)]
proof fn lemma_merge_rt_commit_only(e: RebaseEntryModel, c: Seq<char>, label: Seq<char>)
    requires
        e.command == (RebaseCommandModel::Merge { commit: Some(c), label, message: None::<Seq<char>> }),
        serializable_entry(e),
    ensures
        line_round_trips(e),
{
    reveal_keywords();
    let sp = seq![' '];
    let flagtok = seq!['-', 'C'];
    let line = serialize_entry_line(e);
    assert(e.commit_hash =~= Seq::<char>::empty());
    assert(e.message =~= Seq::<char>::empty());
    let r2 = c + sp + label;
    let t = flagtok + sp + r2;
    assert(line =~= seq!['m'] + sp + (flagtok + sp + r2));
    assert(crate::text::ws_free(flagtok));
    lemma_splitn3_m_line(flagtok, r2);
    assert(splitn3_ws(line) == seq![seq!['m'], flagtok, r2]);
    assert(rest_of(splitn3_ws(line)) == t);
    // tokens of t
    let toks = seq![flagtok, c, label];
    assert(toks.drop_first() =~~= seq![c, label]);
    assert(seq![c, label].drop_first() =~~= seq![label]);
    assert(join_with(seq![label], sp) == label);
    assert(join_with(seq![c, label], sp) == c + sp + label);
    assert(join_with(toks, sp) == flagtok + sp + (c + sp + label));
    assert(t =~= join_with(toks, sp));
    assert forall|i: int| 0 <= i < toks.len() implies (#[trigger] toks[i]).len() > 0
        && crate::text::ws_free(toks[i]) by {
        if i == 0 {
            assert(toks[0] == flagtok);
        } else if i == 1 {
            assert(toks[1] == c);
        } else {
            assert(toks[2] == label);
        }
    }
    crate::text::lemma_split_ws_join(toks);
    assert(spec_split_ws(t) == toks);
    // walk the operands
    assert(toks[0] == "-C"@ && toks[1] == c && toks[2] == label);
    assert(merge_args_from(toks, 0, None::<Seq<char>>, Seq::empty()) == merge_args_from(
        toks,
        2,
        Some(c),
        Seq::empty(),
    ));
    assert(label.len() > 0 && label[0] != '#');
    assert(merge_args_from(toks, 2, Some(c), Seq::empty()) == merge_args_from(
        toks,
        3,
        Some(c),
        label,
    ));
    assert(merge_args_from(toks, 3, Some(c), label) == (Some(c), label, None::<Seq<char>>));
    assert(spec_parse_merge_args(t) == (Some(c), label, None::<Seq<char>>));
    lemma_dispatch_m(line);
    assert(todo_line_entry(line) == Ok::<RebaseEntryModel, Seq<char>>(e));
    // line shape
    assert(line[0] == 'm' && line.last() == label.last());
    lemma_ws_free_no_crlf(c);
    lemma_ws_free_no_crlf(label);
    lemma_no_crlf_concat(seq!['m'] + sp + flagtok + sp, c);
    lemma_no_crlf_concat(seq!['m'] + sp + flagtok + sp + c, sp);
    lemma_no_crlf_concat(seq!['m'] + sp + flagtok + sp + c + sp, label);
    assert(line =~= seq!['m'] + sp + flagtok + sp + c + sp + label);
    assert(no_crlf(line));
    crate::text::lemma_trim_stable(line);
}

/// How `splitn3_ws` decomposes `m <tok> <rest>`.
#[verifier::rlimit(100)]
proof fn lemma_splitn3_m_line(a: Seq<char>, r: Seq<char>)
    requires
        crate::text::ws_free(a),
    ensures
        splitn3_ws(seq!['m'] + seq![' '] + (a + seq![' '] + r)) == seq![seq!['m'], a, r],
        rest_of(seq![seq!['m'], a, r]) == a + seq![' '] + r,
{
    reveal_keywords();
    let sp = seq![' '];
    let t = a + sp + r;
    let line = seq!['m'] + sp + t;
    assert(crate::text::ws_free(seq!['m']));
    crate::text::lemma_split_once_ws_sep(Seq::empty(), seq!['m'], t);
    assert(Seq::<char>::empty() + seq!['m'] =~= seq!['m']);
    crate::text::lemma_split_once_ws_sep(Seq::empty(), a, r);
    assert(Seq::<char>::empty() + a =~= a);
    let parts = splitn3_ws(line);
    assert(parts == seq![seq!['m'], a, r]);
    assert(parts.skip(1) =~~= seq![a, r]);
    let two = seq![a, r];
    assert(two.drop_first() =~~= seq![r]);
    assert(join_with(seq![r], sp) == r);
    assert(join_with(two, sp) == two[0] + sp + join_with(two.drop_first(), sp));
    assert(rest_of(parts) == a + sp + r);
}

/// A line whose first field is `m` dispatches to the merge arm.
#[verifier::rlimit(100)]
proof fn lemma_dispatch_m(line: Seq<char>)
    requires
        splitn3_ws(line)[0] == seq!['m'],
    ensures
        todo_line_entry(line) == Ok::<RebaseEntryModel, Seq<char>>(
            RebaseEntryModel {
                command: RebaseCommandModel::Merge {
                    commit: spec_parse_merge_args(rest_of(splitn3_ws(line))).0,
                    label: spec_parse_merge_args(rest_of(splitn3_ws(line))).1,
                    message: spec_parse_merge_args(rest_of(splitn3_ws(line))).2,
                },
                commit_hash: Seq::empty(),
                message: Seq::empty(),
            },
        ),
{
    reveal_keywords();
    lemma_lower_single('m');
    let parts = splitn3_ws(line);
    let kw = ascii_lower(parts[0]);
    assert(kw == seq!['m'] && kw == "m"@);
    assert(kw[0] == 'm');
    assert(kw != "exec"@ && kw != "break"@ && kw != "label"@ && kw != "reset"@);
    assert(kw != "x"@ && kw != "b"@ && kw != "l"@ && kw != "t"@);
}

proof fn lemma_msg_tail(toks: Seq<Seq<char>>, i: int, m: Seq<char>)
    requires
        merge_msg_ok(m),
        0 <= i < toks.len(),
        toks.skip(i) == seq![seq!['#']] + spec_split_ws(m),
    ensures
        trim_spec(strip_leading(join_with(toks.skip(i), seq![' ']), '#')) == m,
{
    reveal_keywords();
    let sp = seq![' '];
    let hashtok = seq!['#'];
    let b = spec_split_ws(m);
    crate::text::lemma_split_ws_tokens(m);
    if b.len() == 0 {
        assert(join_with(b, sp) == Seq::<char>::empty());
        assert(false);
    }
    crate::text::lemma_join_concat(seq![hashtok], b, sp);
    assert(join_with(seq![hashtok], sp) == hashtok);
    let joined = join_with(toks.skip(i), sp);
    assert(joined == hashtok + sp + m);
    assert((hashtok + sp + m)[0] == '#');
    assert((hashtok + sp + m).drop_first() =~= sp + m);
    assert((sp + m)[0] == ' ');
    assert(strip_leading(joined, '#') == strip_leading(sp + m, '#'));
    assert(strip_leading(sp + m, '#') == sp + m);
    assert((sp + m).drop_first() =~= m);
    assert(crate::text::trim_start_spec(sp + m) == crate::text::trim_start_spec(m));
    assert(crate::text::trim_start_spec(m) == m);
    assert(crate::text::trim_end_spec(m) == m);
}

#[verifier::rlimit(100)]
proof fn lemma_merge_split_cm(c: Seq<char>, label: Seq<char>, m: Seq<char>)
    requires
        token_ok(c),
        token_ok(label),
        merge_msg_ok(m),
    ensures
        spec_split_ws(
            seq!['-', 'C'] + seq![' '] + (c + seq![' '] + label + seq![' '] + seq!['#']
                + seq![' '] + m),
        ) == seq![seq!['-', 'C'], c, label, seq!['#']] + spec_split_ws(m),
{
    reveal_keywords();
    let sp = seq![' '];
    let hashtok = seq!['#'];
    let flagtok = seq!['-', 'C'];
    assert(crate::text::ws_free(flagtok));
    assert(crate::text::ws_free(hashtok));
    let b = spec_split_ws(m);
    crate::text::lemma_split_ws_tokens(m);
    if b.len() == 0 {
        assert(join_with(b, sp) == Seq::<char>::empty());
        assert(false);
    }
    let t = flagtok + sp + (c + sp + label + sp + hashtok + sp + m);
    let head = seq![flagtok, c, label, hashtok];
    let toks = head + b;
    assert(head.drop_first() =~~= seq![c, label, hashtok]);
    assert(seq![c, label, hashtok].drop_first() =~~= seq![label, hashtok]);
    assert(seq![label, hashtok].drop_first() =~~= seq![hashtok]);
    assert(join_with(seq![hashtok], sp) == hashtok);
    assert(join_with(seq![label, hashtok], sp) == label + sp + hashtok);
    assert(join_with(seq![c, label, hashtok], sp) == c + sp + (label + sp + hashtok));
    assert(join_with(head, sp) == flagtok + sp + (c + sp + (label + sp + hashtok)));
    crate::text::lemma_join_concat(head, b, sp);
    assert(join_with(b, sp) == m);
    assert(join_with(toks, sp) == join_with(head, sp) + sp + m);
    assert(t =~= join_with(toks, sp));
    assert forall|i: int| 0 <= i < toks.len() implies (#[trigger] toks[i]).len() > 0
        && crate::text::ws_free(toks[i]) by {
        if i == 0 {
            assert(toks[0] == flagtok);
        } else if i == 1 {
            assert(toks[1] == c);
        } else if i == 2 {
            assert(toks[2] == label);
        } else if i == 3 {
            assert(toks[3] == hashtok);
        } else {
            assert(toks[i] == b[i - 4]);
        }
    }
    crate::text::lemma_split_ws_join(toks);
}

#[verifier::rlimit(100)]
proof fn lemma_merge_walk_cm(c: Seq<char>, label: Seq<char>, m: Seq<char>)
    requires
        token_ok(c),
        token_ok(label),
        label[0] != '#',
        label != "-C"@,
        label != "-c"@,
        merge_msg_ok(m),
    ensures
        merge_args_from(
            seq![seq!['-', 'C'], c, label, seq!['#']] + spec_split_ws(m),
            0,
            None::<Seq<char>>,
            Seq::empty(),
        ) == (Some(c), label, Some(m)),
{
    reveal_keywords();
    let sp = seq![' '];
    let hashtok = seq!['#'];
    let flagtok = seq!['-', 'C'];
    let b = spec_split_ws(m);
    crate::text::lemma_split_ws_tokens(m);
    if b.len() == 0 {
        assert(join_with(b, sp) == Seq::<char>::empty());
        assert(false);
    }
    let toks = seq![flagtok, c, label, hashtok] + b;
    assert(toks[0] == flagtok && toks[1] == c && toks[2] == label && toks[3] == hashtok);
    assert(toks[0] == "-C"@);
    assert(toks.len() >= 5);
    assert(merge_args_from(toks, 0, None::<Seq<char>>, Seq::empty()) == merge_args_from(
        toks,
        2,
        Some(c),
        Seq::empty(),
    ));
    assert(merge_args_from(toks, 2, Some(c), Seq::empty()) == merge_args_from(
        toks,
        3,
        Some(c),
        label,
    ));
    assert(hashtok[0] == '#' && hashtok != "-C"@ && hashtok != "-c"@);
    assert(merge_args_from(toks, 3, Some(c), label) == (
        Some(c),
        label,
        Some(trim_spec(strip_leading(join_with(toks.skip(3), sp), '#'))),
    ));
    assert(toks.skip(3) =~~= seq![hashtok] + b);
    lemma_msg_tail(toks, 3, m);
}

#[verifier::rlimit(100)]
proof fn lemma_merge_rt_commit_msg_parse(
    e: RebaseEntryModel,
    c: Seq<char>,
    label: Seq<char>,
    m: Seq<char>,
)
    requires
        e.command == (RebaseCommandModel::Merge { commit: Some(c), label, message: Some(m) }),
        serializable_entry(e),
    ensures
        todo_line_entry(serialize_entry_line(e)) == Ok::<RebaseEntryModel, Seq<char>>(e),
{
    reveal_keywords();
    let sp = seq![' '];
    let hashtok = seq!['#'];
    let flagtok = seq!['-', 'C'];
    let line = serialize_entry_line(e);
    assert(e.commit_hash =~= Seq::<char>::empty());
    assert(e.message =~= Seq::<char>::empty());
    let r2 = c + sp + label + sp + hashtok + sp + m;
    let t = flagtok + sp + r2;
    assert(line =~= seq!['m'] + sp + (flagtok + sp + r2));
    assert(crate::text::ws_free(flagtok));
    lemma_splitn3_m_line(flagtok, r2);
    assert(splitn3_ws(line) == seq![seq!['m'], flagtok, r2]);
    assert(rest_of(splitn3_ws(line)) == t);
    lemma_merge_split_cm(c, label, m);
    assert(spec_split_ws(t) == seq![flagtok, c, label, hashtok] + spec_split_ws(m));
    lemma_merge_walk_cm(c, label, m);
    assert(spec_parse_merge_args(t) == (Some(c), label, Some(m)));
    lemma_dispatch_m(line);
    assert(todo_line_entry(line) == Ok::<RebaseEntryModel, Seq<char>>(e));
}

#[verifier::rlimit(100)]
proof fn lemma_merge_rt_commit_msg_shape(e: RebaseEntryModel, c: Seq<char>, label: Seq<char>, m: Seq<char>)
    requires
        e.command == (RebaseCommandModel::Merge { commit: Some(c), label, message: Some(m) }),
        serializable_entry(e),
    ensures
        ({
            let line = serialize_entry_line(e);
            line.len() > 0 && !crate::text::is_ws(line[0]) && line[0] != '#' && no_crlf(line)
                && trim_spec(line) == line
        }),
{
    reveal_keywords();
    lemma_lower_single('m');
    let line = serialize_entry_line(e);
    let sp = seq![' '];
    let hashtok = seq!['#'];
    let flagtok = seq!['-', 'C'];
    assert(crate::text::ws_free(seq!['m']));
    assert(crate::text::ws_free(flagtok));
    assert(crate::text::ws_free(hashtok));
    assert(e.commit_hash =~= Seq::<char>::empty());
    assert(e.message =~= Seq::<char>::empty());
    let b = spec_split_ws(m);
    crate::text::lemma_split_ws_tokens(m);
    if b.len() == 0 {
        assert(join_with(b, sp) == Seq::<char>::empty());
        assert(false);
    }

    // line shape
    assert(line[0] == 'm' && line.last() == m.last());
    lemma_ws_free_no_crlf(c);
    lemma_ws_free_no_crlf(label);
    lemma_no_crlf_concat(seq!['m'] + sp + flagtok + sp, c);
    lemma_no_crlf_concat(seq!['m'] + sp + flagtok + sp + c, sp);
    lemma_no_crlf_concat(seq!['m'] + sp + flagtok + sp + c + sp, label);
    lemma_no_crlf_concat(seq!['m'] + sp + flagtok + sp + c + sp + label, sp + hashtok + sp);
    lemma_no_crlf_concat(
        seq!['m'] + sp + flagtok + sp + c + sp + label + (sp + hashtok + sp),
        m,
    );
    assert(line =~= seq!['m'] + sp + flagtok + sp + c + sp + label + (sp + hashtok + sp)
        + m);
    assert(no_crlf(line));
    crate::text::lemma_trim_stable(line);

}

proof fn lemma_merge_rt_commit_msg(e: RebaseEntryModel, c: Seq<char>, label: Seq<char>, m: Seq<char>)
    requires
        e.command == (RebaseCommandModel::Merge { commit: Some(c), label, message: Some(m) }),
        serializable_entry(e),
    ensures
        line_round_trips(e),
{
    lemma_merge_rt_commit_msg_parse(e, c, label, m);
    lemma_merge_rt_commit_msg_shape(e, c, label, m);
}

#[verifier::rlimit(100)]
proof fn lemma_merge_rt_plain(e: RebaseEntryModel, label: Seq<char>)
    requires
        e.command == (RebaseCommandModel::Merge { commit: None::<Seq<char>>, label, message: None::<Seq<char>> }),
        serializable_entry(e),
    ensures
        line_round_trips(e),
{
    reveal_keywords();
    lemma_lower_single('m');
    let line = serialize_entry_line(e);
    let sp = seq![' '];
    let hashtok = seq!['#'];
    let flagtok = seq!['-', 'C'];
    assert(crate::text::ws_free(seq!['m']));
    assert(crate::text::ws_free(flagtok));
    assert(crate::text::ws_free(hashtok));
    assert(e.commit_hash =~= Seq::<char>::empty());
    assert(e.message =~= Seq::<char>::empty());

    let t = label;
    assert(line =~= seq!['m'] + sp + t);
    crate::text::lemma_split_once_ws_sep(Seq::empty(), seq!['m'], t);
    assert(Seq::<char>::empty() + seq!['m'] =~= seq!['m']);
    crate::text::lemma_split_once_ws_whole(Seq::empty(), label);
    assert(Seq::<char>::empty() + label =~= label);
    let parts = splitn3_ws(line);
    assert(parts == seq![seq!['m'], label]);
    assert(parts.skip(1) =~~= seq![label]);
    assert(rest_of(parts) == label);
    let toks = seq![label];
    assert(join_with(toks, sp) == label);
    assert forall|i: int| 0 <= i < toks.len() implies (#[trigger] toks[i]).len() > 0
        && crate::text::ws_free(toks[i]) by {
        assert(toks[0] == label);
    }
    crate::text::lemma_split_ws_join(toks);
    assert(spec_split_ws(t) == toks);
    assert(toks[0] == label && label.len() > 0 && label[0] != '#');
    assert(merge_args_from(toks, 0, None::<Seq<char>>, Seq::empty()) == merge_args_from(
        toks,
        1,
        None::<Seq<char>>,
        label,
    ));
    assert(merge_args_from(toks, 1, None::<Seq<char>>, label) == (
        None::<Seq<char>>,
        label,
        None::<Seq<char>>,
    ));
    assert(spec_parse_merge_args(t) == (None::<Seq<char>>, label, None::<Seq<char>>));
    assert(todo_line_entry(line) == Ok::<RebaseEntryModel, Seq<char>>(e));
    assert(line[0] == 'm' && line.last() == label.last());
    lemma_ws_free_no_crlf(label);
    lemma_no_crlf_concat(seq!['m'] + sp, label);
    assert(line =~= seq!['m'] + sp + label);
    assert(no_crlf(line));
    crate::text::lemma_trim_stable(line);
}

#[verifier::rlimit(100)]
proof fn lemma_merge_split_nm(label: Seq<char>, m: Seq<char>)
    requires
        token_ok(label),
        merge_msg_ok(m),
    ensures
        spec_split_ws(label + seq![' '] + (seq!['#'] + seq![' '] + m)) == seq![
            label,
            seq!['#'],
        ] + spec_split_ws(m),
{
    reveal_keywords();
    let sp = seq![' '];
    let hashtok = seq!['#'];
    assert(crate::text::ws_free(hashtok));
    let b = spec_split_ws(m);
    crate::text::lemma_split_ws_tokens(m);
    if b.len() == 0 {
        assert(join_with(b, sp) == Seq::<char>::empty());
        assert(false);
    }
    let t = label + sp + (hashtok + sp + m);
    let head = seq![label, hashtok];
    let toks = head + b;
    assert(head.drop_first() =~~= seq![hashtok]);
    assert(join_with(seq![hashtok], sp) == hashtok);
    assert(join_with(head, sp) == label + sp + hashtok);
    crate::text::lemma_join_concat(head, b, sp);
    assert(join_with(b, sp) == m);
    assert(join_with(toks, sp) == join_with(head, sp) + sp + m);
    assert(t =~= join_with(toks, sp));
    assert forall|i: int| 0 <= i < toks.len() implies (#[trigger] toks[i]).len() > 0
        && crate::text::ws_free(toks[i]) by {
        if i == 0 {
            assert(toks[0] == label);
        } else if i == 1 {
            assert(toks[1] == hashtok);
        } else {
            assert(toks[i] == b[i - 2]);
        }
    }
    crate::text::lemma_split_ws_join(toks);
}

#[verifier::rlimit(100)]
proof fn lemma_merge_walk_nm(label: Seq<char>, m: Seq<char>)
    requires
        token_ok(label),
        label[0] != '#',
        label != "-C"@,
        label != "-c"@,
        merge_msg_ok(m),
    ensures
        merge_args_from(
            seq![label, seq!['#']] + spec_split_ws(m),
            0,
            None::<Seq<char>>,
            Seq::empty(),
        ) == (None::<Seq<char>>, label, Some(m)),
{
    reveal_keywords();
    let sp = seq![' '];
    let hashtok = seq!['#'];
    let b = spec_split_ws(m);
    crate::text::lemma_split_ws_tokens(m);
    if b.len() == 0 {
        assert(join_with(b, sp) == Seq::<char>::empty());
        assert(false);
    }
    let toks = seq![label, hashtok] + b;
    assert(toks[0] == label && toks[1] == hashtok);
    assert(toks.len() >= 3);
    assert(merge_args_from(toks, 0, None::<Seq<char>>, Seq::empty()) == merge_args_from(
        toks,
        1,
        None::<Seq<char>>,
        label,
    ));
    assert(hashtok[0] == '#' && hashtok != "-C"@ && hashtok != "-c"@);
    assert(merge_args_from(toks, 1, None::<Seq<char>>, label) == (
        None::<Seq<char>>,
        label,
        Some(trim_spec(strip_leading(join_with(toks.skip(1), sp), '#'))),
    ));
    assert(toks.skip(1) =~~= seq![hashtok] + b);
    lemma_msg_tail(toks, 1, m);
}

#[verifier::rlimit(100)]
proof fn lemma_merge_rt_msg_only_parse(e: RebaseEntryModel, label: Seq<char>, m: Seq<char>)
    requires
        e.command == (RebaseCommandModel::Merge {
            commit: None::<Seq<char>>,
            label,
            message: Some(m),
        }),
        serializable_entry(e),
    ensures
        todo_line_entry(serialize_entry_line(e)) == Ok::<RebaseEntryModel, Seq<char>>(e),
{
    reveal_keywords();
    let sp = seq![' '];
    let hashtok = seq!['#'];
    let line = serialize_entry_line(e);
    assert(e.commit_hash =~= Seq::<char>::empty());
    assert(e.message =~= Seq::<char>::empty());
    let w = hashtok + sp + m;
    let t = label + sp + w;
    assert(line =~= seq!['m'] + sp + (label + sp + w));
    lemma_splitn3_m_line(label, w);
    assert(splitn3_ws(line) == seq![seq!['m'], label, w]);
    assert(rest_of(splitn3_ws(line)) == t);
    lemma_merge_split_nm(label, m);
    assert(spec_split_ws(t) == seq![label, hashtok] + spec_split_ws(m));
    lemma_merge_walk_nm(label, m);
    assert(spec_parse_merge_args(t) == (None::<Seq<char>>, label, Some(m)));
    lemma_dispatch_m(line);
    assert(todo_line_entry(line) == Ok::<RebaseEntryModel, Seq<char>>(e));
}

#[verifier::rlimit(100)]
proof fn lemma_merge_rt_msg_only_shape(e: RebaseEntryModel, label: Seq<char>, m: Seq<char>)
    requires
        e.command == (RebaseCommandModel::Merge { commit: None::<Seq<char>>, label, message: Some(m) }),
        serializable_entry(e),
    ensures
        ({
            let line = serialize_entry_line(e);
            line.len() > 0 && !crate::text::is_ws(line[0]) && line[0] != '#' && no_crlf(line)
                && trim_spec(line) == line
        }),
{
    reveal_keywords();
    lemma_lower_single('m');
    let line = serialize_entry_line(e);
    let sp = seq![' '];
    let hashtok = seq!['#'];
    let flagtok = seq!['-', 'C'];
    assert(crate::text::ws_free(seq!['m']));
    assert(crate::text::ws_free(flagtok));
    assert(crate::text::ws_free(hashtok));
    assert(e.commit_hash =~= Seq::<char>::empty());
    assert(e.message =~= Seq::<char>::empty());
    let b = spec_split_ws(m);
    crate::text::lemma_split_ws_tokens(m);
    if b.len() == 0 {
        assert(join_with(b, sp) == Seq::<char>::empty());
        assert(false);
    }

    assert(line[0] == 'm' && line.last() == m.last());
    lemma_ws_free_no_crlf(label);
    lemma_no_crlf_concat(seq!['m'] + sp, label);
    lemma_no_crlf_concat(seq!['m'] + sp + label, sp + hashtok + sp);
    lemma_no_crlf_concat(seq!['m'] + sp + label + (sp + hashtok + sp), m);
    assert(line =~= seq!['m'] + sp + label + (sp + hashtok + sp) + m);
    assert(no_crlf(line));
    crate::text::lemma_trim_stable(line);

}

proof fn lemma_merge_rt_msg_only(e: RebaseEntryModel, label: Seq<char>, m: Seq<char>)
    requires
        e.command == (RebaseCommandModel::Merge { commit: None::<Seq<char>>, label, message: Some(m) }),
        serializable_entry(e),
    ensures
        line_round_trips(e),
{
    lemma_merge_rt_msg_only_parse(e, label, m);
    lemma_merge_rt_msg_only_shape(e, label, m);
}

proof fn lemma_merge_round_trip(
    e: RebaseEntryModel,
    commit: Option<Seq<char>>,
    label: Seq<char>,
    message: Option<Seq<char>>,
)
    requires
        e.command == (RebaseCommandModel::Merge { commit, label, message }),
        serializable_entry(e),
    ensures
        line_round_trips(e),
{
    match (commit, message) {
        (Some(c), None) => {
            lemma_merge_rt_commit_only(e, c, label);
        },
        (Some(c), Some(m)) => {
            lemma_merge_rt_commit_msg(e, c, label, m);
        },
        (None, None) => {
            lemma_merge_rt_plain(e, label);
        },
        (None, Some(m)) => {
            lemma_merge_rt_msg_only(e, label, m);
        },
    }
}

proof fn lemma_todo_scan_entry_lines(
    entries: Seq<RebaseEntryModel>,
    k: int,
    flag: bool,
    acc_e: Seq<RebaseEntryModel>,
    acc_c: Seq<Seq<char>>,
)
    requires
        forall|i: int| 0 <= i < entries.len() ==> serializable_entry(#[trigger] entries[i]),
        0 <= k <= entries.len(),
    ensures
        todo_scan(entry_lines(entries), k, flag, acc_e, acc_c) == Ok::<
            (Seq<RebaseEntryModel>, Seq<Seq<char>>),
            (int, Seq<char>),
        >((acc_e + entries.skip(k), acc_c)),
    decreases entries.len() - k,
{
    let lines = entry_lines(entries);
    if k == entries.len() {
        assert(acc_e + entries.skip(k) =~~= acc_e);
    } else {
        lemma_entry_line_round_trip(entries[k]);
        let line = lines[k];
        assert(line == serialize_entry_line(entries[k]));
        assert(trim_spec(line) == line);
        assert(line.len() > 0 && line[0] != '#');
        assert(todo_line_entry(line) == Ok::<RebaseEntryModel, Seq<char>>(entries[k]));
        lemma_todo_scan_entry_lines(entries, k + 1, flag, acc_e.push(entries[k]), acc_c);
        assert(acc_e.push(entries[k]) + entries.skip(k + 1) =~~= acc_e + entries.skip(k));
    }
}

/// Round-trip for the command grammar: a todo file of serializable
/// instructions and no comments, serialized and parsed again, yields
/// exactly the same instructions and no comments.
pub proof fn lemma_rebase_round_trip(entries: Seq<RebaseEntryModel>)
    requires
        forall|i: int| 0 <= i < entries.len() ==> serializable_entry(#[trigger] entries[i]),
    ensures
        spec_parse_rebase_todo(spec_serialize_todo(entries, Seq::empty())) == Ok::<
            (Seq<RebaseEntryModel>, Seq<Seq<char>>),
            (int, Seq<char>),
        >((entries, Seq::empty())),
{
    let lines = entry_lines(entries);
    assert forall|i: int| 0 <= i < lines.len() implies {
        let l = #[trigger] lines[i];
        l.len() > 0 && (forall|k: int| 0 <= k < l.len() ==> l[k] != '\n' && l[k] != '\r')
    } by {
        lemma_entry_line_round_trip(entries[i]);
        assert(lines[i] == serialize_entry_line(entries[i]));
    }
    crate::text::lemma_lines_join(lines);
    assert(spec_serialize_todo(entries, Seq::empty()) == join_with(lines, seq!['\n']));
    assert(spec_lines(spec_serialize_todo(entries, Seq::empty())) == lines);
    lemma_todo_scan_entry_lines(entries, 0, false, Seq::empty(), Seq::empty());
    assert(Seq::<RebaseEntryModel>::empty() + entries.skip(0) =~~= entries);
}

} // verus!
