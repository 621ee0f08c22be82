//! Parser and serializer for commit-message files (`COMMIT_EDITMSG`,
//! `MERGE_MSG`, `SQUASH_MSG`, `TAG_EDITMSG`): subject, body, trailers,
//! `#` comment lines, and an optional diff after the scissors line.

use vstd::prelude::*;
use vstd::string::StrSliceExecFns;

use crate::text::chars_eq_lit;
use crate::text::find_from;
use crate::text::find_sub;
use crate::text::from_chars;
use crate::text::is_alnum;
use crate::text::is_alnum_char;
use crate::text::is_alpha;
use crate::text::is_alpha_char;
use crate::text::join_parts;
use crate::text::join_with;
use crate::text::eq_ignore_case;
use crate::text::eq_ignore_case_lit;
use crate::text::spec_lines;
use crate::text::spec_split_once_char;
use crate::text::split_lines;
use crate::text::split_once_at_char;
use crate::text::sub_vec;
use crate::text::to_chars;
use crate::text::trim;
use crate::text::trim_spec;

verus! {

/// A `Key: Value` metadata line at the end of a commit message.
#[derive(Debug, Clone, PartialEq)]
pub struct Trailer {
    pub key: String,
    pub value: String,
}

/// Mathematical model of a `Trailer`.
pub struct TrailerModel {
    pub key: Seq<char>,
    pub value: Seq<char>,
}

impl View for Trailer {
    type V = TrailerModel;

    open spec fn view(&self) -> TrailerModel {
        TrailerModel { key: self.key@, value: self.value@ }
    }
}

impl DeepView for Trailer {
    type V = TrailerModel;

    open spec fn deep_view(&self) -> TrailerModel {
        self.view()
    }
}

/// A parsed commit message.
#[derive(Debug, Clone, PartialEq)]
pub struct CommitMessage {
    pub subject: String,
    pub body: String,
    pub trailers: Vec<Trailer>,
    pub comments: Vec<String>,
    pub diff_content: Option<String>,
}

/// Mathematical model of a `CommitMessage`.
pub struct CommitMessageModel {
    pub subject: Seq<char>,
    pub body: Seq<char>,
    pub trailers: Seq<TrailerModel>,
    pub comments: Seq<Seq<char>>,
    pub diff_content: Option<Seq<char>>,
}

impl View for CommitMessage {
    type V = CommitMessageModel;

    open spec fn view(&self) -> CommitMessageModel {
        CommitMessageModel {
            subject: self.subject@,
            body: self.body@,
            trailers: self.trailers.deep_view(),
            comments: self.comments.deep_view(),
            diff_content: match self.diff_content {
                Some(ref d) => Some(d@),
                None => None,
            },
        }
    }
}

/// The scissors line separating the editable message from the appended diff.
pub open spec fn scissors() -> Seq<char> {
    "# ------------------------ >8 ------------------------"@
}

/// A key from the fixed known-trailer set, ASCII-case-insensitively.
pub open spec fn known_key(k: Seq<char>) -> bool {
    ||| eq_ignore_case(k, "Signed-off-by"@)
    ||| eq_ignore_case(k, "Co-authored-by"@)
    ||| eq_ignore_case(k, "Reviewed-by"@)
    ||| eq_ignore_case(k, "Acked-by"@)
    ||| eq_ignore_case(k, "Tested-by"@)
    ||| eq_ignore_case(k, "Reported-by"@)
    ||| eq_ignore_case(k, "Fixes"@)
    ||| eq_ignore_case(k, "Closes"@)
    ||| eq_ignore_case(k, "Refs"@)
    ||| eq_ignore_case(k, "See-also"@)
    ||| eq_ignore_case(k, "Cc"@)
}

/// A valid trailer key: a known key, or a letter followed by letters,
/// digits and hyphens.
pub open spec fn spec_valid_trailer_key(k: Seq<char>) -> bool {
    known_key(k) || (k.len() > 0 && is_alpha(k[0]) && (forall|i: int|
        1 <= i < k.len() ==> is_alnum(#[trigger] k[i]) || k[i] == '-'))
}

/// Check whether a key is acceptable as a trailer key.
pub fn is_valid_trailer_key(key: &str) -> (r: bool)
    ensures
        r == spec_valid_trailer_key(key@),
{
    let chars = to_chars(key);
    is_valid_trailer_key_chars(&chars)
}

fn is_valid_trailer_key_chars(chars: &Vec<char>) -> (r: bool)
    ensures
        r == spec_valid_trailer_key(chars@),
{
    if eq_ignore_case_lit(chars, "Signed-off-by") || eq_ignore_case_lit(chars, "Co-authored-by")
        || eq_ignore_case_lit(chars, "Reviewed-by") || eq_ignore_case_lit(chars, "Acked-by")
        || eq_ignore_case_lit(chars, "Tested-by") || eq_ignore_case_lit(chars, "Reported-by")
        || eq_ignore_case_lit(chars, "Fixes") || eq_ignore_case_lit(chars, "Closes")
        || eq_ignore_case_lit(chars, "Refs") || eq_ignore_case_lit(chars, "See-also")
        || eq_ignore_case_lit(chars, "Cc") {
        return true;
    }
    if chars.len() == 0 {
        return false;
    }
    if !is_alpha_char(chars[0]) {
        return false;
    }
    let mut i: usize = 1;
    while i < chars.len()
        invariant
            1 <= i <= chars@.len(),
            !known_key(chars@),
            is_alpha(chars@[0]),
            forall|j: int| 1 <= j < i ==> is_alnum(#[trigger] chars@[j]) || chars@[j] == '-',
        decreases chars@.len() - i,
    {
        let c = chars[i];
        if !is_alnum_char(c) && c != '-' {
            return false;
        }
        i = i + 1;
    }
    true
}

/// The trailer a line yields, if it has the form `Key: Value` with a valid
/// key and nonempty value; key and value are trimmed.
pub open spec fn trailer_of_line(line: Seq<char>) -> Option<TrailerModel> {
    let trimmed = trim_spec(line);
    match spec_split_once_char(trimmed, ':').1 {
        Some(after) => {
            let key = trim_spec(spec_split_once_char(trimmed, ':').0);
            let value = trim_spec(after);
            if spec_valid_trailer_key(key) && value.len() > 0 {
                Some(TrailerModel { key, value })
            } else {
                None
            }
        },
        None => None,
    }
}

/// Parse one line as a trailer.
pub fn parse_trailer_line(line: &str) -> (r: Option<Trailer>)
    ensures
        match r {
            Some(t) => trailer_of_line(line@) == Some(t@),
            None => trailer_of_line(line@) is None,
        },
{
    let chars = to_chars(line);
    parse_trailer_line_chars(&chars)
}

fn parse_trailer_line_chars(chars: &Vec<char>) -> (r: Option<Trailer>)
    ensures
        match r {
            Some(t) => trailer_of_line(chars@) == Some(t@),
            None => trailer_of_line(chars@) is None,
        },
{
    let trimmed = trim(chars);
    let (before, after_opt) = split_once_at_char(&trimmed, ':');
    match after_opt {
        Some(after) => {
            let key = trim(&before);
            let value = trim(&after);
            if is_valid_trailer_key_chars(&key) && value.len() > 0 {
                Some(Trailer { key: from_chars(&key), value: from_chars(&value) })
            } else {
                None
            }
        },
        None => None,
    }
}

/// The backward scan over a paragraph's lines: from the end, trailer lines
/// are collected; blank lines inside the trailer run are dropped; the
/// first other line ends the run, and it and everything above it stay.
pub open spec fn extract_scan(
    lines: Seq<Seq<char>>,
    i: int,
    in_block: bool,
    non_trailers: Seq<Seq<char>>,
    trailers: Seq<TrailerModel>,
) -> (Seq<Seq<char>>, Seq<TrailerModel>)
    decreases i,
{
    if i <= 0 {
        (non_trailers, trailers)
    } else {
        let line = lines[i - 1];
        match trailer_of_line(line) {
            Some(t) => extract_scan(lines, i - 1, true, non_trailers, seq![t] + trailers),
            None => {
                if in_block && trim_spec(line).len() == 0 {
                    extract_scan(lines, i - 1, in_block, non_trailers, trailers)
                } else {
                    extract_scan(lines, i - 1, false, seq![line] + non_trailers, trailers)
                }
            },
        }
    }
}

/// What trailer extraction yields on a text block: the remaining lines
/// rejoined, and the trailers in top-to-bottom order.
pub open spec fn spec_extract_trailers(text: Seq<char>) -> (Seq<char>, Seq<TrailerModel>) {
    let lines = spec_lines(text);
    let r = extract_scan(lines, lines.len() as int, false, Seq::empty(), Seq::empty());
    (join_with(r.0, seq!['\n']), r.1)
}

/// Extract the trailing trailer block from a text block.
pub fn extract_trailers(text: &str) -> (r: (String, Vec<Trailer>))
    ensures
        r.0@ == spec_extract_trailers(text@).0,
        r.1.deep_view() == spec_extract_trailers(text@).1,
{
    let chars = to_chars(text);
    let r = extract_trailers_chars(&chars);
    (from_chars(&r.0), r.1)
}

fn extract_trailers_chars(chars: &Vec<char>) -> (r: (Vec<char>, Vec<Trailer>))
    ensures
        r.0@ == spec_extract_trailers(chars@).0,
        r.1.deep_view() == spec_extract_trailers(chars@).1,
{
    let lines = split_lines(chars);
    let ghost ldv = lines.deep_view();
    let mut non_trailers: Vec<Vec<char>> = Vec::new();
    let mut trailers: Vec<Trailer> = Vec::new();
    let mut in_block = false;
    let mut i: usize = lines.len();
    proof {
        assert(non_trailers.deep_view() =~~= Seq::<Seq<char>>::empty());
        assert(trailers.deep_view() =~~= Seq::<TrailerModel>::empty());
    }
    while i > 0
        invariant
            i <= lines@.len(),
            ldv == lines.deep_view(),
            ldv.len() == lines@.len(),
            extract_scan(ldv, ldv.len() as int, false, Seq::empty(), Seq::empty())
                == extract_scan(
                ldv,
                i as int,
                in_block,
                non_trailers.deep_view(),
                trailers.deep_view(),
            ),
        decreases i,
    {
        let ghost nt = non_trailers.deep_view();
        let ghost tr = trailers.deep_view();
        assert(lines@[i as int - 1]@ == ldv[i as int - 1]);
        let line = &lines[i - 1];
        match parse_trailer_line_chars(line) {
            Some(t) => {
                trailers.insert(0, t);
                assert(trailers.deep_view() =~~= seq![
                    trailer_of_line(ldv[i as int - 1])->Some_0,
                ] + tr);
                in_block = true;
            },
            None => {
                let trimmed = trim(line);
                if in_block && trimmed.len() == 0 {
                } else {
                    in_block = false;
                    let owned = sub_vec(line, 0, line.len());
                    assert(owned@ =~= ldv[i as int - 1]);
                    non_trailers.insert(0, owned);
                    assert(non_trailers.deep_view() =~~= seq![ldv[i as int - 1]] + nt);
                }
            },
        }
        i = i - 1;
    }
    let joined = join_parts(&non_trailers, "\n");
    proof {
        reveal_strlit("\n");
        assert("\n"@ =~= seq!['\n']);
    }
    (joined, trailers)
}

/// First line index equal to the scissors line.
pub open spec fn first_scissors(lines: Seq<Seq<char>>, i: int) -> Option<int>
    decreases lines.len() - i,
{
    if i < 0 || i >= lines.len() {
        None
    } else if lines[i] == scissors() {
        Some(i)
    } else {
        first_scissors(lines, i + 1)
    }
}

/// Splitting on blank-line separators, as `str::split("\n\n")`.
pub open spec fn split_dnl(s: Seq<char>) -> Seq<Seq<char>>
    decreases s.len(),
{
    match find_from(s, "\n\n"@, 0) {
        Some(i) => {
            if 0 <= i && i + 2 <= s.len() {
                seq![s.take(i)] + split_dnl(s.skip(i + 2))
            } else {
                seq![s]
            }
        },
        None => seq![s],
    }
}

/// Whether a line is a comment line.
pub open spec fn is_comment_line(l: Seq<char>) -> bool {
    l.len() > 0 && l[0] == '#'
}

/// Content and comment lines, in order.
pub open spec fn partition_lines(lines: Seq<Seq<char>>) -> (Seq<Seq<char>>, Seq<Seq<char>>)
    decreases lines.len(),
{
    if lines.len() == 0 {
        (Seq::empty(), Seq::empty())
    } else {
        let r = partition_lines(lines.drop_last());
        if is_comment_line(lines.last()) {
            (r.0, r.1.push(lines.last()))
        } else {
            (r.0.push(lines.last()), r.1)
        }
    }
}

/// The parse of a commit message: diff split off at the scissors line,
/// comments separated out, the first line of the first paragraph taken as
/// subject, trailers extracted from the final paragraph, and the rest
/// rejoined as the body.
pub open spec fn spec_parse_commit(text: Seq<char>) -> CommitMessageModel {
    let lines0 = spec_lines(text);
    let found = first_scissors(lines0, 0);
    let lines = match found {
        Some(p) => lines0.take(p),
        None => lines0,
    };
    let diff = match found {
        Some(p) => {
            if lines0.skip(p + 1).len() > 0 {
                Some(join_with(lines0.skip(p + 1), seq!['\n']))
            } else {
                None
            }
        },
        None => None,
    };
    let part = partition_lines(lines);
    let comments = part.1;
    let content_text = join_with(part.0, seq!['\n']);
    let trimmed = trim_spec(content_text);
    if trimmed.len() == 0 {
        CommitMessageModel {
            subject: Seq::empty(),
            body: Seq::empty(),
            trailers: Seq::empty(),
            comments,
            diff_content: diff,
        }
    } else {
        let parts = split_dnl(trimmed);
        let sub_lines = spec_lines(parts[0]);
        let subject = if sub_lines.len() > 0 {
            sub_lines[0]
        } else {
            Seq::empty()
        };
        let head_body: Seq<Seq<char>> = if sub_lines.len() > 1 {
            seq![join_with(sub_lines.skip(1), seq!['\n'])]
        } else {
            Seq::empty()
        };
        let body_parts = head_body + parts.skip(1);
        let extracted = if body_parts.len() > 0 {
            let last = body_parts.last();
            let er = extract_scan(
                spec_lines(last),
                spec_lines(last).len() as int,
                false,
                Seq::empty(),
                Seq::empty(),
            );
            let remaining = join_with(er.0, seq!['\n']);
            if er.1.len() > 0 {
                if remaining.len() > 0 {
                    (body_parts.drop_last().push(remaining), er.1)
                } else {
                    (body_parts.drop_last(), er.1)
                }
            } else {
                (body_parts, Seq::<TrailerModel>::empty())
            }
        } else {
            (body_parts, Seq::<TrailerModel>::empty())
        };
        let body = trim_spec(join_with(extracted.0, "\n\n"@));
        CommitMessageModel {
            subject,
            body,
            trailers: extracted.1,
            comments,
            diff_content: diff,
        }
    }
}


/// The serialized form of one trailer.
pub open spec fn trailer_line(t: TrailerModel) -> Seq<char> {
    t.key + ": "@ + t.value
}

pub open spec fn trailer_lines(ts: Seq<TrailerModel>) -> Seq<Seq<char>> {
    Seq::new(ts.len(), |i: int| trailer_line(ts[i]))
}

/// The serialized message: subject, blank line and body, blank line and
/// trailers (each present only when nonempty), comments verbatim, and the
/// scissors line with the diff when one is kept.
pub open spec fn spec_serialize_commit(m: CommitMessageModel) -> Seq<char> {
    let parts = (if m.subject.len() > 0 {
        seq![m.subject]
    } else {
        Seq::<Seq<char>>::empty()
    }) + (if m.body.len() > 0 {
        seq![Seq::<char>::empty(), m.body]
    } else {
        Seq::<Seq<char>>::empty()
    }) + (if m.trailers.len() > 0 {
        (if m.body.len() > 0 || m.subject.len() > 0 {
            seq![Seq::<char>::empty()]
        } else {
            Seq::<Seq<char>>::empty()
        }) + trailer_lines(m.trailers)
    } else {
        Seq::<Seq<char>>::empty()
    });
    let base = join_with(parts, seq!['\n']);
    let with_comments = if m.comments.len() > 0 {
        (if base.len() > 0 {
            base + seq!['\n']
        } else {
            base
        }) + join_with(m.comments, seq!['\n'])
    } else {
        base
    };
    match m.diff_content {
        Some(d) => with_comments + seq!['\n'] + scissors() + seq!['\n'] + d,
        None => with_comments,
    }
}

/// Serialize a commit message back to file content.
pub fn serialize_commit_msg(message: &CommitMessage) -> (r: String)
    ensures
        r@ == spec_serialize_commit(message@),
{
    let ghost m = message@;
    let mut parts: Vec<Vec<char>> = Vec::new();
    if message.subject.as_str().unicode_len() > 0 {
        parts.push(to_chars(message.subject.as_str()));
    }
    if message.body.as_str().unicode_len() > 0 {
        parts.push(Vec::new());
        parts.push(to_chars(message.body.as_str()));
    }
    if message.trailers.len() > 0 {
        if message.body.as_str().unicode_len() > 0 || message.subject.as_str().unicode_len() > 0 {
            parts.push(Vec::new());
        }
        let ghost before = parts.deep_view();
        let mut k: usize = 0;
        while k < message.trailers.len()
            invariant
                k <= message.trailers@.len(),
                m == message@,
                m.trailers.len() == message.trailers@.len(),
                before.len() <= parts.deep_view().len(),
                parts.deep_view() =~~= before + trailer_lines(m.trailers).take(k as int),
            decreases message.trailers@.len() - k,
        {
            let ghost prev = parts.deep_view();
            let t = &message.trailers[k];
            let mut line = to_chars(t.key.as_str());
            let mut sepv = to_chars(": ");
            line.append(&mut sepv);
            let mut valv = to_chars(t.value.as_str());
            line.append(&mut valv);
            assert(message.trailers@[k as int]@ == m.trailers[k as int]);
            assert(line@ =~= trailer_line(m.trailers[k as int]));
            parts.push(line);
            assert(parts.deep_view() =~~= prev.push(trailer_line(m.trailers[k as int])));
            assert(trailer_lines(m.trailers).take(k as int + 1) =~~= trailer_lines(
                m.trailers,
            ).take(k as int).push(trailer_line(m.trailers[k as int])));
            k = k + 1;
        }
        assert(trailer_lines(m.trailers).take(m.trailers.len() as int) =~~= trailer_lines(
            m.trailers,
        ));
    }
    proof {
        let sparts = (if m.subject.len() > 0 {
            seq![m.subject]
        } else {
            Seq::<Seq<char>>::empty()
        }) + (if m.body.len() > 0 {
            seq![Seq::<char>::empty(), m.body]
        } else {
            Seq::<Seq<char>>::empty()
        }) + (if m.trailers.len() > 0 {
            (if m.body.len() > 0 || m.subject.len() > 0 {
                seq![Seq::<char>::empty()]
            } else {
                Seq::<Seq<char>>::empty()
            }) + trailer_lines(m.trailers)
        } else {
            Seq::<Seq<char>>::empty()
        });
        assert(parts.deep_view() =~~= sparts);
    }
    let mut out = join_parts(&parts, "\n");
    proof {
        reveal_strlit("\n");
        assert("\n"@ =~= seq!['\n']);
    }
    if message.comments.len() > 0 {
        if out.len() > 0 {
            out.push('\n');
        }
        let mut cvecs: Vec<Vec<char>> = Vec::new();
        let mut k: usize = 0;
        while k < message.comments.len()
            invariant
                k <= message.comments@.len(),
                m == message@,
                m.comments.len() == message.comments@.len(),
                cvecs.deep_view() =~~= m.comments.take(k as int),
            decreases message.comments@.len() - k,
        {
            let ghost prev = cvecs.deep_view();
            assert(message.comments@[k as int]@ == m.comments[k as int]);
            cvecs.push(to_chars(message.comments[k].as_str()));
            assert(cvecs.deep_view() =~~= prev.push(m.comments[k as int]));
            assert(m.comments.take(k as int + 1) =~~= m.comments.take(k as int).push(
                m.comments[k as int],
            ));
            k = k + 1;
        }
        assert(m.comments.take(m.comments.len() as int) =~~= m.comments);
        let mut cjoined = join_parts(&cvecs, "\n");
        out.append(&mut cjoined);
    }
    match &message.diff_content {
        Some(d) => {
            out.push('\n');
            let mut sv = to_chars("# ------------------------ >8 ------------------------");
            out.append(&mut sv);
            out.push('\n');
            let mut dv = to_chars(d.as_str());
            out.append(&mut dv);
        },
        None => {},
    }
    assert(out@ =~= spec_serialize_commit(m));
    from_chars(&out)
}

fn split_double_newline(v: &Vec<char>) -> (r: Vec<Vec<char>>)
    ensures
        r.deep_view() == split_dnl(v@),
        r@.len() > 0,
{
    proof {
        reveal_strlit("\n\n");
    }
    let mut out: Vec<Vec<char>> = Vec::new();
    let mut rest = sub_vec(v, 0, v.len());
    assert(rest@ =~= v@);
    proof {
        assert(out.deep_view() =~~= Seq::<Seq<char>>::empty());
    }
    loop
        invariant_except_break
            split_dnl(v@) == out.deep_view() + split_dnl(rest@),
        ensures
            split_dnl(v@) == out.deep_view(),
        decreases rest@.len(),
    {
        proof {
            reveal_strlit("\n\n");
        }
        let ghost prev = out.deep_view();
        match find_sub(&rest, "\n\n") {
            Some(i) => {
                assert("\n\n"@.len() == 2);
                let rl = rest.len();
                let before = sub_vec(&rest, 0, i);
                let after = sub_vec(&rest, i + 2, rl);
                assert(before@ =~= rest@.take(i as int));
                assert(after@ =~= rest@.skip(i as int + 2));
                out.push(before);
                assert(out.deep_view() =~~= prev.push(rest@.take(i as int)));
                assert(split_dnl(rest@) == seq![rest@.take(i as int)] + split_dnl(
                    rest@.skip(i as int + 2),
                ));
                assert(out.deep_view() + split_dnl(after@) =~~= prev + split_dnl(rest@));
                rest = after;
            },
            None => {
                assert(split_dnl(rest@) == seq![rest@]);
                let ghost last = rest@;
                out.push(rest);
                assert(out.deep_view() =~~= prev.push(last));
                assert(out.deep_view() =~~= prev + split_dnl(last));
                break;
            },
        }
    }
    proof {
        reveal_strlit("\n\n");
        assert(split_dnl(v@).len() > 0);
        assert(out@.len() == out.deep_view().len());
    }
    out
}

/// Parse commit message content; total, the error arm is never taken.
pub fn parse_commit_msg(content: &str) -> (r: Result<CommitMessage, crate::error::AppError>)
    ensures
        r is Ok,
        r matches Ok(msg) ==> msg@ == spec_parse_commit(content@),
{
    let ghost model = spec_parse_commit(content@);
    let chars = to_chars(content);
    let all_lines = split_lines(&chars);
    let ghost adv = all_lines.deep_view();
    // scissors search
    let mut found: Option<usize> = None;
    let mut i: usize = 0;
    while i < all_lines.len()
        invariant_except_break
            i <= all_lines@.len(),
            adv == all_lines.deep_view(),
            adv.len() == all_lines@.len(),
            found is None,
            first_scissors(adv, 0) == first_scissors(adv, i as int),
        ensures
            match found {
                Some(p) => first_scissors(adv, 0) == Some(p as int) && (p as int) < adv.len(),
                None => first_scissors(adv, 0) is None,
            },
        decreases all_lines@.len() - i,
    {
        assert(all_lines@[i as int]@ == adv[i as int]);
        if chars_eq_lit(&all_lines[i], "# ------------------------ >8 ------------------------") {
            found = Some(i);
            assert(first_scissors(adv, i as int) == Some(i as int));
            break;
        }
        i = i + 1;
    }
    let ghost sc = first_scissors(adv, 0);
    let n_lines = all_lines.len();
    let (lines, diff_content): (Vec<Vec<char>>, Option<String>) = match found {
        Some(p) => {
            assert(p < n_lines);
            let mut kept: Vec<Vec<char>> = Vec::new();
            let mut k: usize = 0;
            proof {
                assert(kept.deep_view() =~~= adv.take(p as int).take(0));
            }
            while k < p
                invariant
                    k <= p,
                    p < all_lines@.len(),
                    adv == all_lines.deep_view(),
                    adv.len() == all_lines@.len(),
                    kept.deep_view() =~~= adv.take(p as int).take(k as int),
                decreases p - k,
            {
                let ghost prev = kept.deep_view();
                assert(all_lines@[k as int]@ == adv[k as int]);
                let owned = sub_vec(&all_lines[k], 0, all_lines[k].len());
                assert(owned@ =~= adv[k as int]);
                kept.push(owned);
                assert(kept.deep_view() =~~= prev.push(adv[k as int]));
                assert(adv.take(p as int).take(k as int + 1) =~~= adv.take(p as int).take(
                    k as int,
                ).push(adv[k as int]));
                k = k + 1;
            }
            assert(kept.deep_view() =~~= adv.take(p as int));
            let mut diff_lines: Vec<Vec<char>> = Vec::new();
            let mut k2: usize = p + 1;
            proof {
                assert(diff_lines.deep_view() =~~= adv.skip(p as int + 1).take(0));
            }
            while k2 < all_lines.len()
                invariant
                    p + 1 <= k2 <= all_lines@.len(),
                    adv == all_lines.deep_view(),
                    adv.len() == all_lines@.len(),
                    diff_lines.deep_view() =~~= adv.skip(p as int + 1).take(k2 - p - 1),
                decreases all_lines@.len() - k2,
            {
                let ghost prev = diff_lines.deep_view();
                assert(all_lines@[k2 as int]@ == adv[k2 as int]);
                let owned = sub_vec(&all_lines[k2], 0, all_lines[k2].len());
                assert(owned@ =~= adv[k2 as int]);
                diff_lines.push(owned);
                proof {
                    let tail = adv.skip(p as int + 1);
                    assert(tail[k2 - p - 1] == adv[k2 as int]);
                    assert(tail.take(k2 - p) =~~= tail.take(k2 - p - 1).push(adv[k2 as int]));
                }
                assert(diff_lines.deep_view() =~~= prev.push(adv[k2 as int]));
                k2 = k2 + 1;
            }
            assert(diff_lines.deep_view() =~~= adv.skip(p as int + 1));
            let diff = if diff_lines.len() > 0 {
                let joined = join_parts(&diff_lines, "\n");
                proof {
                    reveal_strlit("\n");
                    assert("\n"@ =~= seq!['\n']);
                }
                Some(from_chars(&joined))
            } else {
                None
            };
            (kept, diff)
        },
        None => {
            let mut kept: Vec<Vec<char>> = Vec::new();
            let mut k: usize = 0;
            proof {
                assert(kept.deep_view() =~~= adv.take(0));
            }
            while k < all_lines.len()
                invariant
                    k <= all_lines@.len(),
                    adv == all_lines.deep_view(),
                    adv.len() == all_lines@.len(),
                    kept.deep_view() =~~= adv.take(k as int),
                decreases all_lines@.len() - k,
            {
                let ghost prev = kept.deep_view();
                assert(all_lines@[k as int]@ == adv[k as int]);
                let owned = sub_vec(&all_lines[k], 0, all_lines[k].len());
                assert(owned@ =~= adv[k as int]);
                kept.push(owned);
                assert(kept.deep_view() =~~= prev.push(adv[k as int]));
                assert(adv.take(k as int + 1) =~~= adv.take(k as int).push(adv[k as int]));
                k = k + 1;
            }
            assert(kept.deep_view() =~~= adv);
            (kept, None)
        },
    };
    let ghost ldv = lines.deep_view();
    // partition comments from content
    let mut content_lines: Vec<Vec<char>> = Vec::new();
    let mut comments: Vec<String> = Vec::new();
    let mut k: usize = 0;
    proof {
        assert(content_lines.deep_view() =~~= partition_lines(ldv.take(0)).0);
        assert(comments.deep_view() =~~= partition_lines(ldv.take(0)).1);
    }
    while k < lines.len()
        invariant
            k <= lines@.len(),
            ldv == lines.deep_view(),
            ldv.len() == lines@.len(),
            content_lines.deep_view() =~~= partition_lines(ldv.take(k as int)).0,
            comments.deep_view() =~~= partition_lines(ldv.take(k as int)).1,
        decreases lines@.len() - k,
    {
        let ghost pc = content_lines.deep_view();
        let ghost pm = comments.deep_view();
        assert(lines@[k as int]@ == ldv[k as int]);
        assert(ldv.take(k as int + 1).drop_last() =~~= ldv.take(k as int));
        assert(ldv.take(k as int + 1).last() == ldv[k as int]);
        let line = &lines[k];
        if line.len() > 0 && line[0] == '#' {
            comments.push(from_chars(line));
            assert(comments.deep_view() =~~= pm.push(ldv[k as int]));
        } else {
            let owned = sub_vec(line, 0, line.len());
            assert(owned@ =~= ldv[k as int]);
            content_lines.push(owned);
            assert(content_lines.deep_view() =~~= pc.push(ldv[k as int]));
        }
        k = k + 1;
    }
    assert(ldv.take(ldv.len() as int) =~~= ldv);
    let content_text = join_parts(&content_lines, "\n");
    proof {
        reveal_strlit("\n");
        assert("\n"@ =~= seq!['\n']);
    }
    let trimmed = trim(&content_text);
    let empty_string = from_chars(&Vec::new());
    assert(empty_string@ =~= Seq::<char>::empty());
    if trimmed.len() == 0 {
        let msg = CommitMessage {
            subject: empty_string.clone(),
            body: empty_string,
            trailers: Vec::new(),
            comments,
            diff_content,
        };
        assert(msg@.trailers =~~= Seq::<TrailerModel>::empty());
        assert(msg@ == model);
        return Ok(msg);
    }
    let parts = split_double_newline(&trimmed);
    let ghost pdv = parts.deep_view();
    assert(parts@[0]@ == pdv[0]);
    let sub_lines = split_lines(&parts[0]);
    let ghost sdv = sub_lines.deep_view();
    let subject = if sub_lines.len() > 0 {
        assert(sub_lines@[0]@ == sdv[0]);
        from_chars(&sub_lines[0])
    } else {
        empty_string.clone()
    };
    let mut body_parts: Vec<Vec<char>> = Vec::new();
    if sub_lines.len() > 1 {
        let mut tail: Vec<Vec<char>> = Vec::new();
        let mut k3: usize = 1;
        proof {
            assert(tail.deep_view() =~~= sdv.skip(1).take(0));
        }
        while k3 < sub_lines.len()
            invariant
                1 <= k3 <= sub_lines@.len(),
                sdv == sub_lines.deep_view(),
                sdv.len() == sub_lines@.len(),
                tail.deep_view() =~~= sdv.skip(1).take(k3 - 1),
            decreases sub_lines@.len() - k3,
        {
            let ghost prev = tail.deep_view();
            assert(sub_lines@[k3 as int]@ == sdv[k3 as int]);
            let owned = sub_vec(&sub_lines[k3], 0, sub_lines[k3].len());
            assert(owned@ =~= sdv[k3 as int]);
            tail.push(owned);
            proof {
                let t = sdv.skip(1);
                assert(t[k3 - 1] == sdv[k3 as int]);
                assert(t.take(k3 as int) =~~= t.take(k3 - 1).push(sdv[k3 as int]));
            }
            assert(tail.deep_view() =~~= prev.push(sdv[k3 as int]));
            k3 = k3 + 1;
        }
        assert(tail.deep_view() =~~= sdv.skip(1));
        let joined = join_parts(&tail, "\n");
        let ghost jv = joined@;
        body_parts.push(joined);
        proof {
            reveal_strlit("\n");
            assert("\n"@ =~= seq!['\n']);
            assert(jv == join_with(sdv.skip(1), seq!['\n']));
            assert(body_parts.deep_view() =~~= seq![join_with(sdv.skip(1), seq!['\n'])]);
        }
    }
    let ghost head_body = body_parts.deep_view();
    proof {
        if sdv.len() <= 1 {
            assert(head_body =~~= Seq::<Seq<char>>::empty());
        }
    }
    let mut k4: usize = 1;
    while k4 < parts.len()
        invariant
            1 <= k4 <= parts@.len(),
            pdv == parts.deep_view(),
            pdv.len() == parts@.len(),
            body_parts.deep_view() =~~= head_body + pdv.skip(1).take(k4 - 1),
        decreases parts@.len() - k4,
    {
        let ghost prev = body_parts.deep_view();
        assert(parts@[k4 as int]@ == pdv[k4 as int]);
        let owned = sub_vec(&parts[k4], 0, parts[k4].len());
        assert(owned@ =~= pdv[k4 as int]);
        body_parts.push(owned);
        proof {
            let t = pdv.skip(1);
            assert(t[k4 - 1] == pdv[k4 as int]);
            assert(t.take(k4 as int) =~~= t.take(k4 - 1).push(pdv[k4 as int]));
        }
        assert(body_parts.deep_view() =~~= prev.push(pdv[k4 as int]));
        k4 = k4 + 1;
    }
    assert(body_parts.deep_view() =~~= head_body + pdv.skip(1));
    let mut trailers: Vec<Trailer> = Vec::new();
    proof {
        assert(trailers.deep_view() =~~= Seq::<TrailerModel>::empty());
    }
    if body_parts.len() > 0 {
        let ghost bdv = body_parts.deep_view();
        let last_ref = &body_parts[body_parts.len() - 1];
        assert(last_ref@ == bdv.last());
        let er = extract_trailers_chars(last_ref);
        let remaining = er.0;
        let found_trailers = er.1;
        if found_trailers.len() > 0 {
            trailers = found_trailers;
            let _ = body_parts.pop();
            assert(body_parts.deep_view() =~~= bdv.drop_last());
            if remaining.len() > 0 {
                let ghost popped = body_parts.deep_view();
                let ghost remv = remaining@;
                body_parts.push(remaining);
                assert(body_parts.deep_view() =~~= popped.push(remv));
            }
        }
    }
    let body_joined = join_parts(&body_parts, "\n\n");
    proof {
        reveal_strlit("\n\n");
    }
    let body = trim(&body_joined);
    let msg = CommitMessage {
        subject,
        body: from_chars(&body),
        trailers,
        comments,
        diff_content,
    };
    proof {
        assert(msg@.subject == model.subject);
        assert(msg@.body == model.body);
        assert(msg@.trailers == model.trailers);
        assert(msg@.comments == model.comments);
        assert(msg@.diff_content == model.diff_content);
    }
    Ok(msg)
}


/// The UTF-8 byte length of a character sequence, as `str::len` reports it.
pub open spec fn byte_len(s: Seq<char>) -> nat {
    vstd::utf8::encode_utf8(s).len()
}

/// The 1-based indices and byte lengths of the lines longer than 72 bytes
/// among the first `i` lines.
pub open spec fn long_lines_of(lines: Seq<Seq<char>>, i: int) -> Seq<(int, int)>
    decreases i,
{
    if i <= 0 {
        Seq::empty()
    } else {
        long_lines_of(lines, i - 1) + (if byte_len(lines[i - 1]) as usize > 72 {
            seq![(i, (byte_len(lines[i - 1]) as usize) as int)]
        } else {
            Seq::empty()
        })
    }
}

impl CommitMessage {
    /// A new empty commit message.
    pub fn new() -> (r: CommitMessage)
        ensures
            r@.subject.len() == 0,
            r@.body.len() == 0,
            r@.trailers.len() == 0,
            r@.comments.len() == 0,
            r@.diff_content is None,
    {
        let empty_vec: Vec<char> = Vec::new();
        let r = CommitMessage {
            subject: from_chars(&empty_vec),
            body: from_chars(&empty_vec),
            trailers: Vec::new(),
            comments: Vec::new(),
            diff_content: None,
        };
        proof {
            assert(r@.trailers =~~= Seq::<TrailerModel>::empty());
            assert(r@.comments =~~= Seq::<Seq<char>>::empty());
        }
        r
    }

    /// Whether the subject exceeds the recommended 50 bytes.
    pub fn is_subject_too_long(&self) -> (r: bool)
        ensures
            r == (byte_len(self.subject@) as usize > 50),
    {
        self.subject.as_str().len() > 50
    }

    /// The subject's length in bytes.
    pub fn subject_length(&self) -> (r: usize)
        ensures
            r == byte_len(self.subject@) as usize,
    {
        self.subject.as_str().len()
    }

    /// Whether any body line exceeds the recommended 72 bytes.
    pub fn has_long_body_lines(&self) -> (r: bool)
        ensures
            r == (exists|i: int|
                0 <= i < spec_lines(self.body@).len() && byte_len(
                    #[trigger] spec_lines(self.body@)[i],
                ) as usize > 72),
    {
        let chars = to_chars(self.body.as_str());
        let lines = split_lines(&chars);
        let ghost ldv = lines.deep_view();
        let mut i: usize = 0;
        while i < lines.len()
            invariant
                i <= lines@.len(),
                ldv == lines.deep_view(),
                ldv.len() == lines@.len(),
                ldv == spec_lines(self.body@),
                forall|j: int| 0 <= j < i ==> byte_len(#[trigger] ldv[j]) as usize <= 72,
            decreases lines@.len() - i,
        {
            assert(lines@[i as int]@ == ldv[i as int]);
            let line = from_chars(&lines[i]);
            if line.as_str().len() > 72 {
                assert(byte_len(ldv[i as int]) as usize > 72);
                return true;
            }
            i = i + 1;
        }
        false
    }

    /// The 1-based indices and byte lengths of body lines over 72 bytes.
    pub fn get_long_body_lines(&self) -> (r: Vec<(usize, usize)>)
        ensures
            ({
                let model = long_lines_of(spec_lines(self.body@), spec_lines(self.body@).len() as int);
                &&& r@.len() == model.len()
                &&& forall|j: int|
                    0 <= j < r@.len() ==> (#[trigger] r@[j]).0 == model[j].0 && r@[j].1
                        == model[j].1
            }),
    {
        let chars = to_chars(self.body.as_str());
        let lines = split_lines(&chars);
        let ghost ldv = lines.deep_view();
        let mut r: Vec<(usize, usize)> = Vec::new();
        let mut i: usize = 0;
        while i < lines.len()
            invariant
                i <= lines@.len(),
                ldv == lines.deep_view(),
                ldv.len() == lines@.len(),
                ldv == spec_lines(self.body@),
                r@.len() == long_lines_of(ldv, i as int).len(),
                forall|j: int|
                    0 <= j < r@.len() ==> (#[trigger] r@[j]).0 == long_lines_of(ldv, i as int)[j].0
                        && r@[j].1 == long_lines_of(ldv, i as int)[j].1,
            decreases lines@.len() - i,
        {
            assert(lines@[i as int]@ == ldv[i as int]);
            let line = from_chars(&lines[i]);
            let blen = line.as_str().len();
            if blen > 72 {
                r.push((i + 1, blen));
            }
            assert(long_lines_of(ldv, i as int + 1) == long_lines_of(ldv, i as int) + (if byte_len(
                ldv[i as int],
            ) as usize > 72 {
                seq![(i as int + 1, (byte_len(ldv[i as int]) as usize) as int)]
            } else {
                Seq::<(int, int)>::empty()
            }));
            i = i + 1;
        }
        r
    }
}

impl Default for CommitMessage {
    fn default() -> (r: CommitMessage)
        ensures
            r@.subject.len() == 0,
            r@.body.len() == 0,
            r@.trailers.len() == 0,
            r@.comments.len() == 0,
            r@.diff_content is None,
    {
        CommitMessage::new()
    }
}

/// The result of checking a commit message against the length conventions.
#[derive(Debug, Clone, PartialEq)]
pub struct CommitValidation {
    pub is_valid: bool,
    pub subject_too_long: bool,
    pub subject_length: usize,
    pub long_body_lines: Vec<(usize, usize)>,
}

/// Validate a commit message: the subject at most 50 bytes, and no body
/// line over 72 bytes.
pub fn validate_commit_msg(message: CommitMessage) -> (r: CommitValidation)
    ensures
        r.subject_too_long == (byte_len(message.subject@) as usize > 50),
        r.subject_length == byte_len(message.subject@) as usize,
        r.long_body_lines@.len() == long_lines_of(
            spec_lines(message.body@),
            spec_lines(message.body@).len() as int,
        ).len(),
        r.is_valid == (!r.subject_too_long && r.long_body_lines@.len() == 0),
{
    let long_body_lines = message.get_long_body_lines();
    let subject_too_long = message.is_subject_too_long();
    let is_valid = !subject_too_long && long_body_lines.len() == 0;
    CommitValidation {
        is_valid,
        subject_too_long,
        subject_length: message.subject_length(),
        long_body_lines,
    }
}


/// Free of line breaks.
pub open spec fn no_break(s: Seq<char>) -> bool {
    forall|i: int| 0 <= i < s.len() ==> s[i] != '\n' && s[i] != '\r'
}

/// A trailer whose serialized line parses back to itself: a nonempty,
/// whitespace- and colon-free valid key starting with a letter, and a
/// nonempty value with no line breaks and no whitespace at its ends.
pub open spec fn round_trip_trailer(t: TrailerModel) -> bool {
    &&& t.key.len() > 0
    &&& crate::text::ws_free(t.key)
    &&& is_alpha(t.key[0])
    &&& spec_valid_trailer_key(t.key)
    &&& forall|i: int| 0 <= i < t.key.len() ==> t.key[i] != ':'
    &&& t.value.len() > 0
    &&& !crate::text::is_ws(t.value[0])
    &&& !crate::text::is_ws(t.value.last())
    &&& no_break(t.value)
}

/// A message whose serialized text parses back to the same subject, body
/// and trailers: single-line subject and body with no surrounding
/// whitespace, not starting with the comment character, at least one
/// round-trippable trailer, and no comments or diff.
pub open spec fn round_trip_commit(m: CommitMessageModel) -> bool {
    &&& m.subject.len() > 0
    &&& !crate::text::is_ws(m.subject[0])
    &&& m.subject[0] != '#'
    &&& no_break(m.subject)
    &&& m.body.len() > 0
    &&& !crate::text::is_ws(m.body[0])
    &&& !crate::text::is_ws(m.body.last())
    &&& m.body[0] != '#'
    &&& no_break(m.body)
    &&& m.trailers.len() > 0
    &&& forall|i: int| 0 <= i < m.trailers.len() ==> round_trip_trailer(#[trigger] m.trailers[i])
    &&& m.comments.len() == 0
    &&& m.diff_content is None
}

proof fn lemma_no_scissors(lines: Seq<Seq<char>>, i: int)
    requires
        forall|j: int| i <= j < lines.len() ==> #[trigger] lines[j] != scissors(),
    ensures
        first_scissors(lines, i) is None,
    decreases lines.len() - i,
{
    if i < 0 || i >= lines.len() {
    } else {
        lemma_no_scissors(lines, i + 1);
    }
}

proof fn lemma_partition_no_comments(lines: Seq<Seq<char>>)
    requires
        forall|j: int| 0 <= j < lines.len() ==> !is_comment_line(#[trigger] lines[j]),
    ensures
        partition_lines(lines) == (lines, Seq::<Seq<char>>::empty()),
    decreases lines.len(),
{
    if lines.len() == 0 {
        assert(partition_lines(lines).0 =~~= lines);
    } else {
        lemma_partition_no_comments(lines.drop_last());
        assert(lines.drop_last().push(lines.last()) =~~= lines);
    }
}

proof fn lemma_find_dnl_at(s: Seq<char>, a: Seq<char>, x: Seq<char>, j: int)
    requires
        s == a + "\n\n"@ + x,
        0 <= j <= a.len(),
        forall|i: int| 0 <= i < a.len() ==> a[i] != '\n',
    ensures
        find_from(s, "\n\n"@, j) == Some(a.len() as int),
    decreases a.len() - j,
{
    reveal_strlit("\n\n");
    assert("\n\n"@ =~= seq!['\n', '\n']);
    assert(s.len() == a.len() + 2 + x.len());
    if j == a.len() {
        assert(s.subrange(j, j + 2) =~= "\n\n"@);
    } else {
        assert(s[j] == a[j]);
        assert(s.subrange(j, j + 2)[0] == s[j]);
        assert(s.subrange(j, j + 2) != "\n\n"@);
        lemma_find_dnl_at(s, a, x, j + 1);
    }
}

proof fn lemma_split_dnl_step(a: Seq<char>, x: Seq<char>)
    requires
        forall|i: int| 0 <= i < a.len() ==> a[i] != '\n',
    ensures
        split_dnl(a + "\n\n"@ + x) == seq![a] + split_dnl(x),
{
    reveal_strlit("\n\n");
    let s = a + "\n\n"@ + x;
    lemma_find_dnl_at(s, a, x, 0);
    assert(s.take(a.len() as int) =~= a);
    assert(s.skip(a.len() as int + 2) =~= x);
}

proof fn lemma_find_none_no_dnl(s: Seq<char>, j: int)
    requires
        forall|p: int| 0 <= p < s.len() - 1 ==> !(#[trigger] s[p] == '\n' && s[p + 1] == '\n'),
        0 <= j,
    ensures
        find_from(s, "\n\n"@, j) is None,
    decreases s.len() - j,
{
    reveal_strlit("\n\n");
    assert("\n\n"@ =~= seq!['\n', '\n']);
    if j + 2 > s.len() {
    } else {
        assert(s.subrange(j, j + 2) != "\n\n"@) by {
            if s.subrange(j, j + 2) == "\n\n"@ {
                assert(s.subrange(j, j + 2)[0] == s[j]);
                assert(s.subrange(j, j + 2)[1] == s[j + 1]);
            }
        }
        lemma_find_none_no_dnl(s, j + 1);
    }
}

/// Joining nonempty newline-free lines yields text with no blank line:
/// no newline at either end and no two adjacent newlines.
proof fn lemma_join_nl_dense(ps: Seq<Seq<char>>)
    requires
        ps.len() > 0,
        forall|i: int|
            0 <= i < ps.len() ==> {
                let l = #[trigger] ps[i];
                l.len() > 0 && (forall|k: int| 0 <= k < l.len() ==> l[k] != '\n')
            },
    ensures
        ({
            let j = join_with(ps, seq!['\n']);
            &&& j.len() > 0
            &&& j[0] != '\n'
            &&& j.last() != '\n'
            &&& forall|p: int| 0 <= p < j.len() - 1 ==> !(#[trigger] j[p] == '\n' && j[p + 1] == '\n')
        }),
    decreases ps.len(),
{
    let j = join_with(ps, seq!['\n']);
    if ps.len() == 1 {
        assert(j == ps[0]);
    } else {
        lemma_join_nl_dense(ps.drop_first());
        let head = ps[0];
        let rest = join_with(ps.drop_first(), seq!['\n']);
        assert(j == head + seq!['\n'] + rest);
        assert(j[0] == head[0]);
        assert(j.last() == rest.last());
        assert forall|p: int| 0 <= p < j.len() - 1 implies !(#[trigger] j[p] == '\n' && j[p + 1]
            == '\n') by {
            if p < head.len() {
                assert(j[p] == head[p]);
            } else if p == head.len() {
                assert(j[p + 1] == rest[0]);
            } else {
                assert(j[p] == rest[p - head.len() - 1]);
                assert(j[p + 1] == rest[p - head.len()]);
            }
        }
    }
}

/// A serialized trailer line parses back to the same trailer.
proof fn lemma_trailer_line_parse(t: TrailerModel)
    requires
        round_trip_trailer(t),
    ensures
        trailer_of_line(trailer_line(t)) == Some(t),
        trailer_line(t).len() > 0,
        trailer_line(t)[0] == t.key[0],
        trailer_line(t).last() == t.value.last(),
        no_break(trailer_line(t)),
{
    reveal_strlit(": ");
    assert(": "@ =~= seq![':', ' ']);
    let line = trailer_line(t);
    assert(line =~= t.key + seq![':'] + (seq![' '] + t.value));
    assert(!crate::text::is_ws(t.key[0]));
    assert(!crate::text::is_ws(line[0]) && !crate::text::is_ws(line.last())) by {
        assert(line[0] == t.key[0]);
        assert(line.last() == t.value.last());
    }
    crate::text::lemma_trim_stable(line);
    crate::text::lemma_split_once_char_sep(Seq::empty(), t.key, seq![' '] + t.value, ':');
    assert(Seq::<char>::empty() + t.key =~= t.key);
    assert(spec_split_once_char(line, ':') == (t.key, Some(seq![' '] + t.value)));
    crate::text::lemma_trim_stable(t.key);
    let v = seq![' '] + t.value;
    assert(v[0] == ' ');
    assert(v.drop_first() =~= t.value);
    assert(crate::text::trim_start_spec(v) == crate::text::trim_start_spec(t.value));
    assert(crate::text::trim_start_spec(t.value) == t.value);
    assert(crate::text::trim_end_spec(t.value) == t.value);
    assert(trim_spec(v) == t.value);
    assert(no_break(line)) by {
        assert forall|i: int| 0 <= i < line.len() implies line[i] != '\n' && line[i] != '\r' by {
            if i < t.key.len() {
                assert(line[i] == t.key[i]);
                assert(!crate::text::is_ws(t.key[i]));
            } else if i == t.key.len() {
                assert(line[i] == ':');
            } else if i == t.key.len() + 1 {
                assert(line[i] == ' ');
            } else {
                assert(line[i] == t.value[i - t.key.len() - 2]);
            }
        }
    }
}

proof fn lemma_extract_all(
    ls: Seq<Seq<char>>,
    ts: Seq<TrailerModel>,
    i: int,
    in_block: bool,
    nt: Seq<Seq<char>>,
    tr: Seq<TrailerModel>,
)
    requires
        ls.len() == ts.len(),
        forall|j: int| 0 <= j < ls.len() ==> trailer_of_line(#[trigger] ls[j]) == Some(ts[j]),
        0 <= i <= ls.len(),
    ensures
        extract_scan(ls, i, in_block, nt, tr) == (nt, ts.take(i) + tr),
    decreases i,
{
    if i <= 0 {
        assert(ts.take(0) + tr =~~= tr);
    } else {
        lemma_extract_all(ls, ts, i - 1, true, nt, seq![ts[i - 1]] + tr);
        assert(ts.take(i - 1) + (seq![ts[i - 1]] + tr) =~~= ts.take(i) + tr);
    }
}

/// Round-trip: a message with a single-line subject, a single-line body
/// and round-trippable trailers, and no comments or diff, parses back
/// from its serialized text to exactly the same message.
pub proof fn lemma_commit_round_trip(m: CommitMessageModel)
    requires
        round_trip_commit(m),
    ensures
        spec_parse_commit(spec_serialize_commit(m)) == m,
{
    reveal_strlit("\n\n");
    assert("\n\n"@ =~= seq!['\n', '\n']);
    reveal_strlit("# ------------------------ >8 ------------------------");
    let nl = seq!['\n'];
    let ts = m.trailers;
    let tl = trailer_lines(ts);
    let big: Seq<Seq<char>> = seq![m.subject, Seq::<char>::empty(), m.body, Seq::<char>::empty()]
        + tl;
    // the serialized text
    let text = spec_serialize_commit(m);
    {
        let parts = (if m.subject.len() > 0 {
            seq![m.subject]
        } else {
            Seq::<Seq<char>>::empty()
        }) + (if m.body.len() > 0 {
            seq![Seq::<char>::empty(), m.body]
        } else {
            Seq::<Seq<char>>::empty()
        }) + (if m.trailers.len() > 0 {
            (if m.body.len() > 0 || m.subject.len() > 0 {
                seq![Seq::<char>::empty()]
            } else {
                Seq::<Seq<char>>::empty()
            }) + trailer_lines(m.trailers)
        } else {
            Seq::<Seq<char>>::empty()
        });
        assert(parts =~~= big);
        assert(text == join_with(big, nl));
    }
    // per-trailer facts
    assert forall|j: int| 0 <= j < tl.len() implies {
        let l = #[trigger] tl[j];
        &&& l.len() > 0
        &&& l[0] != '\n' && l[0] != '#'
        &&& no_break(l)
        &&& trailer_of_line(l) == Some(ts[j])
    } by {
        lemma_trailer_line_parse(ts[j]);
        assert(tl[j] == trailer_line(ts[j]));
        assert(tl[j][0] == ts[j].key[0]);
        assert(is_alpha(ts[j].key[0]));
    }
    // the lines of the serialized text
    assert forall|i: int| 0 <= i < big.len() implies {
        let l = #[trigger] big[i];
        forall|k: int| 0 <= k < l.len() ==> l[k] != '\n' && l[k] != '\r'
    } by {
        if i >= 4 {
            assert(big[i] == tl[i - 4]);
        }
    }
    assert(big.last() == tl.last());
    assert(tl.last().len() > 0) by {
        lemma_trailer_line_parse(ts.last());
        assert(tl[tl.len() - 1] == trailer_line(ts[ts.len() - 1]));
    }
    crate::text::lemma_lines_join(big);
    assert(spec_lines(text) == big);
    // no scissors line, no comment lines
    assert forall|j: int| 0 <= j < big.len() implies #[trigger] big[j] != scissors() by {
        assert(scissors()[0] == '#');
        if j == 0 {
            assert(big[0] == m.subject);
        } else if j == 2 {
            assert(big[2] == m.body);
        } else if j == 1 || j == 3 {
            assert(big[j].len() == 0);
        } else {
            assert(big[j] == tl[j - 4]);
        }
    }
    lemma_no_scissors(big, 0);
    assert forall|j: int| 0 <= j < big.len() implies !is_comment_line(#[trigger] big[j]) by {
        if j == 0 {
            assert(big[0] == m.subject);
        } else if j == 2 {
            assert(big[2] == m.body);
        } else if j == 1 || j == 3 {
            assert(big[j].len() == 0);
        } else {
            assert(big[j] == tl[j - 4]);
        }
    }
    lemma_partition_no_comments(big);
    assert(join_with(big, nl) == text);
    // the rejoined content text is the whole text, and it is trimmed
    let t_lines = join_with(tl, nl);
    {
        let head: Seq<Seq<char>> = seq![
            m.subject,
            Seq::<char>::empty(),
            m.body,
            Seq::<char>::empty(),
        ];
        crate::text::lemma_join_concat(head, tl, nl);
        assert(head.drop_first() =~~= seq![Seq::<char>::empty(), m.body, Seq::<char>::empty()]);
        assert(seq![Seq::<char>::empty(), m.body, Seq::<char>::empty()].drop_first() =~~= seq![
            m.body,
            Seq::<char>::empty(),
        ]);
        assert(seq![m.body, Seq::<char>::empty()].drop_first() =~~= seq![Seq::<char>::empty()]);
        assert(join_with(seq![Seq::<char>::empty()], nl) == Seq::<char>::empty());
        assert(join_with(seq![m.body, Seq::<char>::empty()], nl) == m.body + nl
            + Seq::<char>::empty());
        assert(join_with(seq![Seq::<char>::empty(), m.body, Seq::<char>::empty()], nl)
            == Seq::<char>::empty() + nl + (m.body + nl + Seq::<char>::empty()));
        assert(join_with(head, nl) == m.subject + nl + (Seq::<char>::empty() + nl + (m.body + nl
            + Seq::<char>::empty())));
        assert(text =~= m.subject + "\n\n"@ + m.body + "\n\n"@ + t_lines);
    }
    assert(text.len() > 0 && !crate::text::is_ws(text[0])) by {
        assert(text[0] == m.subject[0]);
    }
    assert(!crate::text::is_ws(text.last())) by {
        crate::text::lemma_join_last(tl, nl);
        lemma_trailer_line_parse(ts.last());
        assert(tl[tl.len() - 1] == trailer_line(ts[ts.len() - 1]));
        assert(text.last() == t_lines.last());
    }
    crate::text::lemma_trim_stable(text);
    // paragraph split: subject, body, trailer block
    {
        lemma_split_dnl_step(m.subject, m.body + "\n\n"@ + t_lines);
        assert(m.subject + "\n\n"@ + (m.body + "\n\n"@ + t_lines) =~= text);
        lemma_split_dnl_step(m.body, t_lines);
        assert forall|i: int| 0 <= i < tl.len() implies {
            let l = #[trigger] tl[i];
            l.len() > 0 && (forall|k: int| 0 <= k < l.len() ==> l[k] != '\n')
        } by {
            lemma_trailer_line_parse(ts[i]);
            assert(tl[i] == trailer_line(ts[i]));
        }
        lemma_join_nl_dense(tl);
        lemma_find_none_no_dnl(t_lines, 0);
        assert(split_dnl(t_lines) == seq![t_lines]);
        assert(split_dnl(text) == seq![m.subject] + (seq![m.body] + seq![t_lines]));
        assert(split_dnl(text) =~~= seq![m.subject, m.body, t_lines]);
    }
    let parts = split_dnl(trim_spec(text));
    assert(parts == seq![m.subject, m.body, t_lines]);
    // subject is a single line
    crate::text::lemma_lines_single(m.subject);
    assert(spec_lines(parts[0]) == seq![m.subject]);
    // body parts and trailer extraction
    assert(parts.skip(1) =~~= seq![m.body, t_lines]);
    assert(Seq::<Seq<char>>::empty() + seq![m.body, t_lines] =~~= seq![m.body, t_lines]);
    {
        crate::text::lemma_lines_join(tl);
        assert(spec_lines(t_lines) == tl);
        lemma_extract_all(tl, ts, tl.len() as int, false, Seq::empty(), Seq::empty());
        assert(ts.take(ts.len() as int) + Seq::<TrailerModel>::empty() =~~= ts);
        assert(extract_scan(tl, tl.len() as int, false, Seq::empty(), Seq::empty()) == (
            Seq::<Seq<char>>::empty(),
            ts,
        ));
        assert(join_with(Seq::<Seq<char>>::empty(), nl) == Seq::<char>::empty());
    }
    let body_parts = seq![m.body, t_lines];
    assert(body_parts.last() == t_lines);
    assert(body_parts.drop_last() =~~= seq![m.body]);
    assert(join_with(seq![m.body], "\n\n"@) == m.body);
    crate::text::lemma_trim_stable(m.body);
    // assemble
    assert(spec_parse_commit(text).subject == m.subject);
    assert(spec_parse_commit(text).body == m.body);
    assert(spec_parse_commit(text).trailers == m.trailers);
    assert(spec_parse_commit(text).comments =~~= m.comments);
    assert(spec_parse_commit(text).diff_content == m.diff_content);
}

} // verus!
