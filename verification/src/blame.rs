//! Parser for `git blame --line-porcelain` output. A hex hash header line
//! opens a block and records the hash and final line number; `author `,
//! `author-time ` and `summary ` lines overwrite pending fields; a line
//! beginning with a tab ends the block and emits one entry. Pending fields
//! persist across blocks, as git omits unchanged metadata.

use vstd::prelude::*;
use vstd::string::StrSliceExecFns;

use crate::date::format_unix_timestamp;
use crate::date::spec_unix_date;
use crate::text::from_chars;
use crate::text::has_prefix;
use crate::text::is_hex_digit;
use crate::text::is_hex_digit_char;
use crate::text::parse_i64_or_zero;
use crate::text::parse_usize_or_zero;
use crate::text::spec_lines;
use crate::text::spec_parse_i64;
use crate::text::spec_parse_usize;
use crate::text::spec_split_ws;
use crate::text::split_lines;
use crate::text::split_whitespace;
use crate::text::starts_with_lit;
use crate::text::sub_vec;
use crate::text::to_chars;

verus! {

/// One line's blame information.
#[derive(Debug, Clone, PartialEq)]
pub struct BlameLine {
    pub line_number: usize,
    pub hash: String,
    pub author: String,
    pub date: String,
    pub summary: String,
}

/// Mathematical model of a `BlameLine`.
pub struct BlameLineModel {
    pub line_number: int,
    pub hash: Seq<char>,
    pub author: Seq<char>,
    pub date: Seq<char>,
    pub summary: Seq<char>,
}

impl View for BlameLine {
    type V = BlameLineModel;

    open spec fn view(&self) -> BlameLineModel {
        BlameLineModel {
            line_number: self.line_number as int,
            hash: self.hash@,
            author: self.author@,
            date: self.date@,
            summary: self.summary@,
        }
    }
}

impl DeepView for BlameLine {
    type V = BlameLineModel;

    open spec fn deep_view(&self) -> BlameLineModel {
        self.view()
    }
}

/// The pending fields carried from line to line.
pub struct BlameState {
    pub hash: Seq<char>,
    pub author: Seq<char>,
    pub time: int,
    pub summary: Seq<char>,
    pub line: int,
}

pub open spec fn all_hex(s: Seq<char>) -> bool {
    forall|i: int| 0 <= i < s.len() ==> is_hex_digit(s[i])
}

/// The entry emitted when a tab line closes a block: the pending hash
/// truncated to seven characters, and the pending time converted to a date.
pub open spec fn blame_emit(st: BlameState) -> BlameLineModel {
    BlameLineModel {
        line_number: st.line,
        hash: if st.hash.len() >= 7 {
            st.hash.take(7)
        } else {
            st.hash
        },
        author: st.author,
        date: spec_unix_date(st.time),
        summary: st.summary,
    }
}

/// A header line's effect: tokens are split on whitespace; with at least
/// three tokens whose first is seven or more hex digits, the hash and the
/// final line number (third token) are recorded.
pub open spec fn blame_header_state(line: Seq<char>, st: BlameState) -> BlameState {
    let parts = spec_split_ws(line);
    if parts.len() >= 3 && parts[0].len() >= 7 && all_hex(parts[0]) {
        BlameState {
            hash: parts[0],
            line: spec_parse_usize(parts[2]),
            ..st
        }
    } else {
        st
    }
}

/// The blame entries of the remaining lines, given the pending state.
pub open spec fn blame_scan(lines: Seq<Seq<char>>, st: BlameState) -> Seq<BlameLineModel>
    decreases lines.len(),
{
    if lines.len() == 0 {
        Seq::empty()
    } else {
        let line = lines[0];
        let rest = lines.drop_first();
        if line.len() > 0 && line[0] == '\t' {
            seq![blame_emit(st)] + blame_scan(rest, st)
        } else if has_prefix(line, "author "@) {
            blame_scan(rest, BlameState { author: line.skip(7), ..st })
        } else if has_prefix(line, "author-time "@) {
            blame_scan(rest, BlameState { time: spec_parse_i64(line.skip(12)), ..st })
        } else if has_prefix(line, "summary "@) {
            blame_scan(rest, BlameState { summary: line.skip(8), ..st })
        } else {
            blame_scan(rest, blame_header_state(line, st))
        }
    }
}

pub open spec fn blame_init() -> BlameState {
    BlameState { hash: Seq::empty(), author: Seq::empty(), time: 0, summary: Seq::empty(), line: 0 }
}

pub open spec fn spec_parse_blame(text: Seq<char>) -> Seq<BlameLineModel> {
    blame_scan(spec_lines(text), blame_init())
}

fn all_hex_chars(v: &Vec<char>) -> (r: bool)
    ensures
        r == all_hex(v@),
{
    let mut i: usize = 0;
    while i < v.len()
        invariant
            i <= v@.len(),
            forall|j: int| 0 <= j < i ==> is_hex_digit(v@[j]),
        decreases v@.len() - i,
    {
        if !is_hex_digit_char(v[i]) {
            return false;
        }
        i = i + 1;
    }
    true
}

/// Parse `git blame --line-porcelain` output.
pub fn parse_line_porcelain(output: &str) -> (r: Vec<BlameLine>)
    ensures
        r@.len() == spec_parse_blame(output@).len(),
        forall|i: int| 0 <= i < r@.len() ==> #[trigger] r@[i]@ == spec_parse_blame(output@)[i],
{
    let chars = to_chars(output);
    let lines = split_lines(&chars);
    let ghost ldv = lines.deep_view();
    let ghost model = spec_parse_blame(output@);
    let mut results: Vec<BlameLine> = Vec::new();
    let mut cur_hash: Vec<char> = Vec::new();
    let mut cur_author: Vec<char> = Vec::new();
    let mut cur_time: i64 = 0;
    let mut cur_summary: Vec<char> = Vec::new();
    let mut cur_line: usize = 0;
    let ghost st0 = blame_init();
    assert(cur_hash@ =~= st0.hash && cur_author@ =~= st0.author && cur_summary@ =~= st0.summary);
    let mut i: usize = 0;
    assert(ldv.skip(0) =~~= ldv);
    while i < lines.len()
        invariant
            i <= lines@.len(),
            ldv == lines.deep_view(),
            ldv.len() == lines@.len(),
            model == spec_parse_blame(output@),
            model == results.deep_view() + blame_scan(
                ldv.skip(i as int),
                BlameState {
                    hash: cur_hash@,
                    author: cur_author@,
                    time: cur_time as int,
                    summary: cur_summary@,
                    line: cur_line as int,
                },
            ),
        decreases lines@.len() - i,
    {
        let ghost rest = ldv.skip(i as int);
        let ghost st = BlameState {
            hash: cur_hash@,
            author: cur_author@,
            time: cur_time as int,
            summary: cur_summary@,
            line: cur_line as int,
        };
        let ghost prev = results.deep_view();
        assert(rest[0] == ldv[i as int]);
        assert(rest.drop_first() =~~= ldv.skip(i as int + 1));
        assert(lines@[i as int]@ == ldv[i as int]);
        let line = &lines[i];
        let ln = line.len();
        if ln > 0 && line[0] == '\t' {
            let hash7 = if cur_hash.len() >= 7 {
                let h = sub_vec(&cur_hash, 0, 7);
                assert(h@ =~= st.hash.take(7));
                h
            } else {
                sub_vec(&cur_hash, 0, cur_hash.len())
            };
            assert(cur_hash@.subrange(0, cur_hash@.len() as int) =~= st.hash);
            let entry = BlameLine {
                line_number: cur_line,
                hash: from_chars(&hash7),
                author: from_chars(&cur_author),
                date: format_unix_timestamp(cur_time),
                summary: from_chars(&cur_summary),
            };
            assert(entry@ == blame_emit(st));
            results.push(entry);
            assert(results.deep_view() =~~= prev.push(blame_emit(st)));
            assert(blame_scan(rest, st) == seq![blame_emit(st)] + blame_scan(
                ldv.skip(i as int + 1),
                st,
            ));
            assert(results.deep_view() + blame_scan(ldv.skip(i as int + 1), st) =~~= prev
                + blame_scan(rest, st));
        } else {
            proof {
                reveal_strlit("author ");
                reveal_strlit("author-time ");
                reveal_strlit("summary ");
            }
            if starts_with_lit(line, "author ") {
                let restv = sub_vec(line, 7, ln);
                assert(restv@ =~= ldv[i as int].skip(7));
                cur_author = restv;
            } else if starts_with_lit(line, "author-time ") {
                let restv = sub_vec(line, 12, ln);
                assert(restv@ =~= ldv[i as int].skip(12));
                cur_time = parse_i64_or_zero(&restv);
            } else if starts_with_lit(line, "summary ") {
                let restv = sub_vec(line, 8, ln);
                assert(restv@ =~= ldv[i as int].skip(8));
                cur_summary = restv;
            } else {
                let parts = split_whitespace(line);
                let ghost pdv = parts.deep_view();
                proof {
                    assert(pdv.len() == parts@.len());
                    if parts@.len() >= 3 {
                        assert(parts@[0]@ == pdv[0] && parts@[2]@ == pdv[2]);
                    }
                }
                if parts.len() >= 3 && parts[0].len() >= 7 && all_hex_chars(&parts[0]) {
                    cur_hash = sub_vec(&parts[0], 0, parts[0].len());
                    assert(cur_hash@ =~= pdv[0]);
                    cur_line = parse_usize_or_zero(&parts[2]);
                }
            }
        }
        i = i + 1;
    }
    assert(ldv.skip(ldv.len() as int) =~~= Seq::<Seq<char>>::empty());
    assert(results.deep_view() =~~= model);
    let ghost final_dv = results.deep_view();
    assert(forall|j: int| 0 <= j < results@.len() ==> #[trigger] results@[j]@ == final_dv[j]);
    results
}

} // verus!
