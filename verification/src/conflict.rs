//! Parser for merge-conflict markers, both standard
//! (`<<<<<<<`/`=======`/`>>>>>>>`) and diff3 style (with a `|||||||` base
//! section). A state machine walks the lines; a region is emitted only when
//! a closing `>>>>>>>` is reached, so an unterminated run of markers
//! contributes nothing. Marker lines match by their seven-character prefix;
//! trailing label text is discarded.

use vstd::prelude::*;

use crate::text::from_chars;
use crate::text::has_prefix;
use crate::text::join_parts;
use crate::text::join_with;
use crate::text::spec_lines;
use crate::text::split_lines;
use crate::text::starts_with_lit;
use crate::text::to_chars;

verus! {

/// One conflict site.
#[derive(Debug, Clone, PartialEq)]
pub struct ConflictRegion {
    pub id: usize,
    pub start_line: usize,
    pub local_start_line: usize,
    pub local_end_line: usize,
    pub base_start_line: Option<usize>,
    pub base_end_line: Option<usize>,
    pub remote_start_line: usize,
    pub remote_end_line: usize,
    pub end_line: usize,
    pub local_content: String,
    pub base_content: Option<String>,
    pub remote_content: String,
    pub resolved: bool,
}

/// Mathematical model of a `ConflictRegion`.
pub struct ConflictRegionModel {
    pub id: int,
    pub start_line: int,
    pub local_start_line: int,
    pub local_end_line: int,
    pub base_start_line: Option<int>,
    pub base_end_line: Option<int>,
    pub remote_start_line: int,
    pub remote_end_line: int,
    pub end_line: int,
    pub local_content: Seq<char>,
    pub base_content: Option<Seq<char>>,
    pub remote_content: Seq<char>,
    pub resolved: bool,
}

impl View for ConflictRegion {
    type V = ConflictRegionModel;

    open spec fn view(&self) -> ConflictRegionModel {
        ConflictRegionModel {
            id: self.id as int,
            start_line: self.start_line as int,
            local_start_line: self.local_start_line as int,
            local_end_line: self.local_end_line as int,
            base_start_line: match self.base_start_line {
                Some(v) => Some(v as int),
                None => None,
            },
            base_end_line: match self.base_end_line {
                Some(v) => Some(v as int),
                None => None,
            },
            remote_start_line: self.remote_start_line as int,
            remote_end_line: self.remote_end_line as int,
            end_line: self.end_line as int,
            local_content: self.local_content@,
            base_content: match self.base_content {
                Some(ref c) => Some(c@),
                None => None,
            },
            remote_content: self.remote_content@,
            resolved: self.resolved,
        }
    }
}

impl DeepView for ConflictRegion {
    type V = ConflictRegionModel;

    open spec fn deep_view(&self) -> ConflictRegionModel {
        self.view()
    }
}

/// Result of parsing conflict markers from a file.
#[derive(Debug, Clone, PartialEq)]
pub struct ParseConflictsResult {
    pub conflicts: Vec<ConflictRegion>,
    pub has_conflicts: bool,
    pub total_conflicts: usize,
}

/// The scanner's state: which section the current line belongs to, with the
/// data collected for the region so far.
pub enum ConflictScanState {
    Normal,
    InLocal { conflict_start: int, local_start: int, local_lines: Seq<Seq<char>> },
    InBase {
        conflict_start: int,
        local_start: int,
        local_end: int,
        local_lines: Seq<Seq<char>>,
        base_start: int,
        base_lines: Seq<Seq<char>>,
    },
    InRemote {
        conflict_start: int,
        local_start: int,
        local_end: int,
        local_lines: Seq<Seq<char>>,
        base_start: Option<int>,
        base_end: Option<int>,
        base_lines: Option<Seq<Seq<char>>>,
        remote_start: int,
        remote_lines: Seq<Seq<char>>,
    },
}

/// The region emitted when a closing marker at line `i` ends an `InRemote`
/// state, with the next sequential id.
pub open spec fn emitted_region(
    st: ConflictScanState,
    i: int,
    id: int,
) -> ConflictRegionModel
    recommends
        st is InRemote,
{
    match st {
        ConflictScanState::InRemote {
            conflict_start,
            local_start,
            local_end,
            local_lines,
            base_start,
            base_end,
            base_lines,
            remote_start,
            remote_lines,
        } => ConflictRegionModel {
            id: id,
            start_line: conflict_start,
            local_start_line: local_start,
            local_end_line: local_end,
            base_start_line: base_start,
            base_end_line: base_end,
            remote_start_line: remote_start,
            remote_end_line: i,
            end_line: i,
            local_content: join_with(local_lines, seq!['\n']),
            base_content: match base_lines {
                Some(b) => Some(join_with(b, seq!['\n'])),
                None => None,
            },
            remote_content: join_with(remote_lines, seq!['\n']),
            resolved: false,
        },
        _ => ConflictRegionModel {
            id: id,
            start_line: 0,
            local_start_line: 0,
            local_end_line: 0,
            base_start_line: None,
            base_end_line: None,
            remote_start_line: 0,
            remote_end_line: 0,
            end_line: 0,
            local_content: Seq::empty(),
            base_content: None,
            remote_content: Seq::empty(),
            resolved: false,
        },
    }
}

/// The regions completed from line `i` on, starting in state `st` with
/// `id` as the next sequential id. Reaching the end of the lines in any
/// state but `Normal` discards the open region.
pub open spec fn conflict_scan(
    lines: Seq<Seq<char>>,
    i: int,
    st: ConflictScanState,
    id: int,
) -> Seq<ConflictRegionModel>
    decreases lines.len() - i,
{
    if i < 0 || i >= lines.len() {
        Seq::empty()
    } else {
        let line = lines[i];
        match st {
            ConflictScanState::Normal => {
                if has_prefix(line, "<<<<<<<"@) {
                    conflict_scan(
                        lines,
                        i + 1,
                        ConflictScanState::InLocal {
                            conflict_start: i,
                            local_start: i + 1,
                            local_lines: Seq::empty(),
                        },
                        id,
                    )
                } else {
                    conflict_scan(lines, i + 1, ConflictScanState::Normal, id)
                }
            },
            ConflictScanState::InLocal { conflict_start, local_start, local_lines } => {
                if has_prefix(line, "|||||||"@) {
                    conflict_scan(
                        lines,
                        i + 1,
                        ConflictScanState::InBase {
                            conflict_start,
                            local_start,
                            local_end: i,
                            local_lines,
                            base_start: i + 1,
                            base_lines: Seq::empty(),
                        },
                        id,
                    )
                } else if has_prefix(line, "======="@) {
                    conflict_scan(
                        lines,
                        i + 1,
                        ConflictScanState::InRemote {
                            conflict_start,
                            local_start,
                            local_end: i,
                            local_lines,
                            base_start: None,
                            base_end: None,
                            base_lines: None,
                            remote_start: i + 1,
                            remote_lines: Seq::empty(),
                        },
                        id,
                    )
                } else {
                    conflict_scan(
                        lines,
                        i + 1,
                        ConflictScanState::InLocal {
                            conflict_start,
                            local_start,
                            local_lines: local_lines.push(line),
                        },
                        id,
                    )
                }
            },
            ConflictScanState::InBase {
                conflict_start,
                local_start,
                local_end,
                local_lines,
                base_start,
                base_lines,
            } => {
                if has_prefix(line, "======="@) {
                    conflict_scan(
                        lines,
                        i + 1,
                        ConflictScanState::InRemote {
                            conflict_start,
                            local_start,
                            local_end,
                            local_lines,
                            base_start: Some(base_start),
                            base_end: Some(i),
                            base_lines: Some(base_lines),
                            remote_start: i + 1,
                            remote_lines: Seq::empty(),
                        },
                        id,
                    )
                } else {
                    conflict_scan(
                        lines,
                        i + 1,
                        ConflictScanState::InBase {
                            conflict_start,
                            local_start,
                            local_end,
                            local_lines,
                            base_start,
                            base_lines: base_lines.push(line),
                        },
                        id,
                    )
                }
            },
            ConflictScanState::InRemote {
                conflict_start,
                local_start,
                local_end,
                local_lines,
                base_start,
                base_end,
                base_lines,
                remote_start,
                remote_lines,
            } => {
                if has_prefix(line, ">>>>>>>"@) {
                    seq![emitted_region(st, i, id)] + conflict_scan(
                        lines,
                        i + 1,
                        ConflictScanState::Normal,
                        id + 1,
                    )
                } else {
                    conflict_scan(
                        lines,
                        i + 1,
                        ConflictScanState::InRemote {
                            conflict_start,
                            local_start,
                            local_end,
                            local_lines,
                            base_start,
                            base_end,
                            base_lines,
                            remote_start,
                            remote_lines: remote_lines.push(line),
                        },
                        id,
                    )
                }
            },
        }
    }
}

/// The conflict regions of a text, in document order, ids from 0.
pub open spec fn spec_parse_conflicts(text: Seq<char>) -> Seq<ConflictRegionModel> {
    conflict_scan(spec_lines(text), 0, ConflictScanState::Normal, 0)
}

enum ScanTag {
    Normal,
    InLocal,
    InBase,
    InRemote,
}

/// Parse conflict markers from file content; total, never fails. Regions
/// appear in document order with sequential ids; an opened region without
/// its closing marker is dropped.
pub fn parse_conflict_markers(content: &str) -> (result: ParseConflictsResult)
    ensures
        result.conflicts@.len() == spec_parse_conflicts(content@).len(),
        forall|j: int|
            0 <= j < result.conflicts@.len() ==> #[trigger] result.conflicts@[j]@
                == spec_parse_conflicts(content@)[j],
        result.has_conflicts == (spec_parse_conflicts(content@).len() > 0),
        result.total_conflicts == spec_parse_conflicts(content@).len(),
{
    let chars = to_chars(content);
    let lines = split_lines(&chars);
    let ghost ldv = lines.deep_view();
    let ghost model = spec_parse_conflicts(content@);
    let mut conflicts: Vec<ConflictRegion> = Vec::new();
    let mut tag = ScanTag::Normal;
    let mut cs: usize = 0;
    let mut ls: usize = 0;
    let mut le: usize = 0;
    let mut bs: usize = 0;
    let mut be: usize = 0;
    let mut has_base = false;
    let mut rs: usize = 0;
    let mut lbuf: Vec<Vec<char>> = Vec::new();
    let mut bbuf: Vec<Vec<char>> = Vec::new();
    let mut rbuf: Vec<Vec<char>> = Vec::new();
    let mut next_id: usize = 0;
    let mut i: usize = 0;
    proof {
        assert(lbuf.deep_view() =~~= Seq::<Seq<char>>::empty());
    }
    while i < lines.len()
        invariant
            i <= lines@.len(),
            next_id <= i,
            ldv == lines.deep_view(),
            ldv.len() == lines@.len(),
            model == spec_parse_conflicts(content@),
            model == conflicts.deep_view() + conflict_scan(
                ldv,
                i as int,
                match tag {
                    ScanTag::Normal => ConflictScanState::Normal,
                    ScanTag::InLocal => ConflictScanState::InLocal {
                        conflict_start: cs as int,
                        local_start: ls as int,
                        local_lines: lbuf.deep_view(),
                    },
                    ScanTag::InBase => ConflictScanState::InBase {
                        conflict_start: cs as int,
                        local_start: ls as int,
                        local_end: le as int,
                        local_lines: lbuf.deep_view(),
                        base_start: bs as int,
                        base_lines: bbuf.deep_view(),
                    },
                    ScanTag::InRemote => ConflictScanState::InRemote {
                        conflict_start: cs as int,
                        local_start: ls as int,
                        local_end: le as int,
                        local_lines: lbuf.deep_view(),
                        base_start: if has_base {
                            Some(bs as int)
                        } else {
                            None
                        },
                        base_end: if has_base {
                            Some(be as int)
                        } else {
                            None
                        },
                        base_lines: if has_base {
                            Some(bbuf.deep_view())
                        } else {
                            None
                        },
                        remote_start: rs as int,
                        remote_lines: rbuf.deep_view(),
                    },
                },
                next_id as int,
            ),
        decreases lines@.len() - i,
    {
        let ghost st = match tag {
            ScanTag::Normal => ConflictScanState::Normal,
            ScanTag::InLocal => ConflictScanState::InLocal {
                conflict_start: cs as int,
                local_start: ls as int,
                local_lines: lbuf.deep_view(),
            },
            ScanTag::InBase => ConflictScanState::InBase {
                conflict_start: cs as int,
                local_start: ls as int,
                local_end: le as int,
                local_lines: lbuf.deep_view(),
                base_start: bs as int,
                base_lines: bbuf.deep_view(),
            },
            ScanTag::InRemote => ConflictScanState::InRemote {
                conflict_start: cs as int,
                local_start: ls as int,
                local_end: le as int,
                local_lines: lbuf.deep_view(),
                base_start: if has_base {
                    Some(bs as int)
                } else {
                    None
                },
                base_end: if has_base {
                    Some(be as int)
                } else {
                    None
                },
                base_lines: if has_base {
                    Some(bbuf.deep_view())
                } else {
                    None
                },
                remote_start: rs as int,
                remote_lines: rbuf.deep_view(),
            },
        };
        let ghost prev = conflicts.deep_view();
        assert(lines@[i as int]@ == ldv[i as int]);
        let line = &lines[i];
        match tag {
            ScanTag::Normal => {
                if starts_with_lit(line, "<<<<<<<") {
                    tag = ScanTag::InLocal;
                    cs = i;
                    ls = i + 1;
                    lbuf = Vec::new();
                    assert(lbuf.deep_view() =~~= Seq::<Seq<char>>::empty());
                }
            },
            ScanTag::InLocal => {
                if starts_with_lit(line, "|||||||") {
                    tag = ScanTag::InBase;
                    le = i;
                    bs = i + 1;
                    bbuf = Vec::new();
                    assert(bbuf.deep_view() =~~= Seq::<Seq<char>>::empty());
                } else if starts_with_lit(line, "=======") {
                    tag = ScanTag::InRemote;
                    le = i;
                    has_base = false;
                    rs = i + 1;
                    rbuf = Vec::new();
                    assert(rbuf.deep_view() =~~= Seq::<Seq<char>>::empty());
                } else {
                    let ghost lb = lbuf.deep_view();
                    let owned = crate::text::sub_vec(line, 0, line.len());
                    assert(owned@ =~= ldv[i as int]);
                    lbuf.push(owned);
                    assert(lbuf.deep_view() =~~= lb.push(ldv[i as int]));
                }
            },
            ScanTag::InBase => {
                if starts_with_lit(line, "=======") {
                    tag = ScanTag::InRemote;
                    has_base = true;
                    be = i;
                    rs = i + 1;
                    rbuf = Vec::new();
                    assert(rbuf.deep_view() =~~= Seq::<Seq<char>>::empty());
                } else {
                    let ghost bb = bbuf.deep_view();
                    let owned = crate::text::sub_vec(line, 0, line.len());
                    assert(owned@ =~= ldv[i as int]);
                    bbuf.push(owned);
                    assert(bbuf.deep_view() =~~= bb.push(ldv[i as int]));
                }
            },
            ScanTag::InRemote => {
                if starts_with_lit(line, ">>>>>>>") {
                    let local_content = from_chars(&join_parts(&lbuf, "\n"));
                    let remote_content = from_chars(&join_parts(&rbuf, "\n"));
                    let base_content = if has_base {
                        Some(from_chars(&join_parts(&bbuf, "\n")))
                    } else {
                        None
                    };
                    proof {
                        reveal_strlit("\n");
                        assert("\n"@ =~= seq!['\n']);
                    }
                    let region = ConflictRegion {
                        id: next_id,
                        start_line: cs,
                        local_start_line: ls,
                        local_end_line: le,
                        base_start_line: if has_base {
                            Some(bs)
                        } else {
                            None
                        },
                        base_end_line: if has_base {
                            Some(be)
                        } else {
                            None
                        },
                        remote_start_line: rs,
                        remote_end_line: i,
                        end_line: i,
                        local_content,
                        base_content,
                        remote_content,
                        resolved: false,
                    };
                    assert(region@ == emitted_region(st, i as int, next_id as int));
                    conflicts.push(region);
                    assert(conflicts.deep_view() =~~= prev.push(
                        emitted_region(st, i as int, next_id as int),
                    ));
                    next_id = next_id + 1;
                    tag = ScanTag::Normal;
                    assert(conflict_scan(ldv, i as int, st, next_id as int - 1) == seq![
                        emitted_region(st, i as int, next_id as int - 1),
                    ] + conflict_scan(ldv, i as int + 1, ConflictScanState::Normal, next_id as int));
                    assert(conflicts.deep_view() + conflict_scan(
                        ldv,
                        i as int + 1,
                        ConflictScanState::Normal,
                        next_id as int,
                    ) =~~= prev + conflict_scan(ldv, i as int, st, next_id as int - 1));
                } else {
                    let ghost rb = rbuf.deep_view();
                    let owned = crate::text::sub_vec(line, 0, line.len());
                    assert(owned@ =~= ldv[i as int]);
                    rbuf.push(owned);
                    assert(rbuf.deep_view() =~~= rb.push(ldv[i as int]));
                }
            },
        }
        i = i + 1;
    }
    let total = conflicts.len();
    let ghost final_dv = conflicts.deep_view();
    proof {
        assert(conflict_scan(ldv, ldv.len() as int, ConflictScanState::Normal, 0)
            =~~= Seq::<ConflictRegionModel>::empty());
        assert(final_dv =~~= model);
        assert(forall|j: int|
            0 <= j < conflicts@.len() ==> #[trigger] conflicts@[j]@ == final_dv[j]);
    }
    ParseConflictsResult { conflicts, has_conflicts: total > 0, total_conflicts: total }
}


/// The positional facts that hold of the scanner's state when standing
/// before line `i`.
pub open spec fn state_pos_wf(st: ConflictScanState, i: int) -> bool {
    match st {
        ConflictScanState::Normal => true,
        ConflictScanState::InLocal { conflict_start, local_start, .. } => conflict_start
            < local_start && local_start <= i,
        ConflictScanState::InBase { conflict_start, local_start, local_end, base_start, .. } => {
            conflict_start < local_start && local_start <= local_end && local_end < base_start
                && base_start <= i
        },
        ConflictScanState::InRemote {
            conflict_start,
            local_start,
            local_end,
            base_start,
            base_end,
            base_lines,
            remote_start,
            ..
        } => {
            &&& conflict_start < local_start
            &&& local_start <= local_end
            &&& local_end < remote_start
            &&& remote_start <= i
            &&& match (base_start, base_end) {
                (Some(b), Some(e)) => local_end < b && b <= e && e < remote_start,
                (None, None) => true,
                _ => false,
            }
            &&& base_lines is Some == base_start is Some
        },
    }
}

/// The shape every emitted region has: marker lines in strictly increasing
/// order, the body ranges between them, and the three base attributes
/// present or absent together.
pub open spec fn region_wf(r: ConflictRegionModel) -> bool {
    &&& r.start_line < r.local_start_line
    &&& r.local_start_line <= r.local_end_line
    &&& r.local_end_line < r.remote_start_line
    &&& r.remote_start_line <= r.remote_end_line
    &&& r.end_line == r.remote_end_line
    &&& match (r.base_start_line, r.base_end_line) {
        (Some(b), Some(e)) => r.local_end_line < b && b <= e && e < r.remote_start_line,
        (None, None) => true,
        _ => false,
    }
    &&& r.base_content is Some == r.base_start_line is Some
    &&& !r.resolved
}

/// The earliest line any region of a scan can start at: the open region's
/// own start when one is open, the current line otherwise.
pub open spec fn state_floor(st: ConflictScanState, i: int) -> int {
    match st {
        ConflictScanState::Normal => i,
        ConflictScanState::InLocal { conflict_start, .. } => conflict_start,
        ConflictScanState::InBase { conflict_start, .. } => conflict_start,
        ConflictScanState::InRemote { conflict_start, .. } => conflict_start,
    }
}

/// Ids are assigned sequentially from `id`; every region is well-formed,
/// starts at or after the state's floor, and regions do not overlap.
pub proof fn lemma_scan_regions(lines: Seq<Seq<char>>, i: int, st: ConflictScanState, id: int)
    requires
        state_pos_wf(st, i),
    ensures
        forall|j: int|
            0 <= j < conflict_scan(lines, i, st, id).len() ==> {
                let r = #[trigger] conflict_scan(lines, i, st, id)[j];
                &&& r.id == id + j
                &&& region_wf(r)
                &&& r.end_line < lines.len()
            },
        forall|j: int, k: int|
            0 <= j < k < conflict_scan(lines, i, st, id).len()
                ==> #[trigger] conflict_scan(lines, i, st, id)[j].end_line
                < #[trigger] conflict_scan(lines, i, st, id)[k].start_line,
        forall|j: int|
            0 <= j < conflict_scan(lines, i, st, id).len()
                ==> #[trigger] conflict_scan(lines, i, st, id)[j].start_line >= state_floor(st, i),
    decreases lines.len() - i,
{
    if i < 0 || i >= lines.len() {
    } else {
        let line = lines[i];
        match st {
            ConflictScanState::Normal => {
                if has_prefix(line, "<<<<<<<"@) {
                    lemma_scan_regions(
                        lines,
                        i + 1,
                        ConflictScanState::InLocal {
                            conflict_start: i,
                            local_start: i + 1,
                            local_lines: Seq::empty(),
                        },
                        id,
                    );
                } else {
                    lemma_scan_regions(lines, i + 1, ConflictScanState::Normal, id);
                }
            },
            ConflictScanState::InLocal { conflict_start, local_start, local_lines } => {
                if has_prefix(line, "|||||||"@) {
                    lemma_scan_regions(
                        lines,
                        i + 1,
                        ConflictScanState::InBase {
                            conflict_start,
                            local_start,
                            local_end: i,
                            local_lines,
                            base_start: i + 1,
                            base_lines: Seq::empty(),
                        },
                        id,
                    );
                } else if has_prefix(line, "======="@) {
                    lemma_scan_regions(
                        lines,
                        i + 1,
                        ConflictScanState::InRemote {
                            conflict_start,
                            local_start,
                            local_end: i,
                            local_lines,
                            base_start: None,
                            base_end: None,
                            base_lines: None,
                            remote_start: i + 1,
                            remote_lines: Seq::empty(),
                        },
                        id,
                    );
                } else {
                    lemma_scan_regions(
                        lines,
                        i + 1,
                        ConflictScanState::InLocal {
                            conflict_start,
                            local_start,
                            local_lines: local_lines.push(line),
                        },
                        id,
                    );
                }
            },
            ConflictScanState::InBase {
                conflict_start,
                local_start,
                local_end,
                local_lines,
                base_start,
                base_lines,
            } => {
                if has_prefix(line, "======="@) {
                    lemma_scan_regions(
                        lines,
                        i + 1,
                        ConflictScanState::InRemote {
                            conflict_start,
                            local_start,
                            local_end,
                            local_lines,
                            base_start: Some(base_start),
                            base_end: Some(i),
                            base_lines: Some(base_lines),
                            remote_start: i + 1,
                            remote_lines: Seq::empty(),
                        },
                        id,
                    );
                } else {
                    lemma_scan_regions(
                        lines,
                        i + 1,
                        ConflictScanState::InBase {
                            conflict_start,
                            local_start,
                            local_end,
                            local_lines,
                            base_start,
                            base_lines: base_lines.push(line),
                        },
                        id,
                    );
                }
            },
            ConflictScanState::InRemote {
                conflict_start,
                local_start,
                local_end,
                local_lines,
                base_start,
                base_end,
                base_lines,
                remote_start,
                remote_lines,
            } => {
                if has_prefix(line, ">>>>>>>"@) {
                    lemma_scan_regions(lines, i + 1, ConflictScanState::Normal, id + 1);
                    let r0 = emitted_region(st, i, id);
                    let rest = conflict_scan(lines, i + 1, ConflictScanState::Normal, id + 1);
                    let whole = conflict_scan(lines, i, st, id);
                    assert(whole == seq![r0] + rest);
                    assert(region_wf(r0));
                    assert forall|j: int| 0 <= j < whole.len() implies {
                        let r = #[trigger] whole[j];
                        &&& r.id == id + j
                        &&& region_wf(r)
                        &&& r.end_line < lines.len()
                    } by {
                        if j == 0 {
                            assert(whole[0] == r0);
                        } else {
                            assert(whole[j] == rest[j - 1]);
                        }
                    }
                    assert forall|j: int, k: int|
                        0 <= j < k < whole.len() implies (#[trigger] whole[j]).end_line < (
                    #[trigger] whole[k]).start_line by {
                        if j == 0 {
                            assert(whole[k] == rest[k - 1]);
                            assert(rest[k - 1].start_line >= i + 1);
                        } else {
                            assert(whole[j] == rest[j - 1] && whole[k] == rest[k - 1]);
                        }
                    }
                    assert forall|j: int| 0 <= j < whole.len() implies (#[trigger] whole[
                        j]).start_line >= state_floor(st, i) by {
                        if j == 0 {
                            assert(whole[0] == r0);
                        } else {
                            assert(whole[j] == rest[j - 1]);
                            assert(rest[j - 1].start_line >= i + 1);
                        }
                    }
                } else {
                    lemma_scan_regions(
                        lines,
                        i + 1,
                        ConflictScanState::InRemote {
                            conflict_start,
                            local_start,
                            local_end,
                            local_lines,
                            base_start,
                            base_end,
                            base_lines,
                            remote_start,
                            remote_lines: remote_lines.push(line),
                        },
                        id,
                    );
                }
            },
        }
    }
}

/// Parsed regions carry sequential ids `0..n` in document order; each
/// region's marker lines are strictly ordered, its base attributes are
/// present or absent together, and regions never overlap.
pub proof fn lemma_conflict_regions_sequential(text: Seq<char>)
    ensures
        forall|j: int|
            0 <= j < spec_parse_conflicts(text).len() ==> {
                let r = #[trigger] spec_parse_conflicts(text)[j];
                r.id == j && region_wf(r)
            },
        forall|j: int, k: int|
            0 <= j < k < spec_parse_conflicts(text).len()
                ==> #[trigger] spec_parse_conflicts(text)[j].end_line
                < #[trigger] spec_parse_conflicts(text)[k].start_line,
{
    lemma_scan_regions(spec_lines(text), 0, ConflictScanState::Normal, 0);
}

/// A scan over lines none of which begins with the closing marker emits
/// nothing, whatever state it is in.
pub proof fn lemma_scan_no_close(lines: Seq<Seq<char>>, i: int, st: ConflictScanState, id: int)
    requires
        forall|k: int| i <= k < lines.len() ==> !has_prefix(#[trigger] lines[k], ">>>>>>>"@),
    ensures
        conflict_scan(lines, i, st, id) == Seq::<ConflictRegionModel>::empty(),
    decreases lines.len() - i,
{
    if i < 0 || i >= lines.len() {
    } else {
        let line = lines[i];
        match st {
            ConflictScanState::Normal => {
                if has_prefix(line, "<<<<<<<"@) {
                    lemma_scan_no_close(
                        lines,
                        i + 1,
                        ConflictScanState::InLocal {
                            conflict_start: i,
                            local_start: i + 1,
                            local_lines: Seq::empty(),
                        },
                        id,
                    );
                } else {
                    lemma_scan_no_close(lines, i + 1, ConflictScanState::Normal, id);
                }
            },
            ConflictScanState::InLocal { conflict_start, local_start, local_lines } => {
                if has_prefix(line, "|||||||"@) {
                    lemma_scan_no_close(
                        lines,
                        i + 1,
                        ConflictScanState::InBase {
                            conflict_start,
                            local_start,
                            local_end: i,
                            local_lines,
                            base_start: i + 1,
                            base_lines: Seq::empty(),
                        },
                        id,
                    );
                } else if has_prefix(line, "======="@) {
                    lemma_scan_no_close(
                        lines,
                        i + 1,
                        ConflictScanState::InRemote {
                            conflict_start,
                            local_start,
                            local_end: i,
                            local_lines,
                            base_start: None,
                            base_end: None,
                            base_lines: None,
                            remote_start: i + 1,
                            remote_lines: Seq::empty(),
                        },
                        id,
                    );
                } else {
                    lemma_scan_no_close(
                        lines,
                        i + 1,
                        ConflictScanState::InLocal {
                            conflict_start,
                            local_start,
                            local_lines: local_lines.push(line),
                        },
                        id,
                    );
                }
            },
            ConflictScanState::InBase {
                conflict_start,
                local_start,
                local_end,
                local_lines,
                base_start,
                base_lines,
            } => {
                if has_prefix(line, "======="@) {
                    lemma_scan_no_close(
                        lines,
                        i + 1,
                        ConflictScanState::InRemote {
                            conflict_start,
                            local_start,
                            local_end,
                            local_lines,
                            base_start: Some(base_start),
                            base_end: Some(i),
                            base_lines: Some(base_lines),
                            remote_start: i + 1,
                            remote_lines: Seq::empty(),
                        },
                        id,
                    );
                } else {
                    lemma_scan_no_close(
                        lines,
                        i + 1,
                        ConflictScanState::InBase {
                            conflict_start,
                            local_start,
                            local_end,
                            local_lines,
                            base_start,
                            base_lines: base_lines.push(line),
                        },
                        id,
                    );
                }
            },
            ConflictScanState::InRemote {
                conflict_start,
                local_start,
                local_end,
                local_lines,
                base_start,
                base_end,
                base_lines,
                remote_start,
                remote_lines,
            } => {
                assert(!has_prefix(line, ">>>>>>>"@));
                lemma_scan_no_close(
                    lines,
                    i + 1,
                    ConflictScanState::InRemote {
                        conflict_start,
                        local_start,
                        local_end,
                        local_lines,
                        base_start,
                        base_end,
                        base_lines,
                        remote_start,
                        remote_lines: remote_lines.push(line),
                    },
                    id,
                );
            },
        }
    }
}

/// A text none of whose lines begins with the closing `>>>>>>>` marker
/// yields zero regions: an opened marker run without its closing marker
/// contributes nothing.
pub proof fn lemma_unterminated_yields_no_regions(text: Seq<char>)
    requires
        forall|k: int|
            0 <= k < spec_lines(text).len() ==> !has_prefix(
                #[trigger] spec_lines(text)[k],
                ">>>>>>>"@,
            ),
    ensures
        spec_parse_conflicts(text).len() == 0,
{
    lemma_scan_no_close(spec_lines(text), 0, ConflictScanState::Normal, 0);
}


/// One conflict block as written in a file: the opening marker line, the
/// LOCAL body, an optional base marker and BASE body, the separator, the
/// REMOTE body, and the closing marker line.
pub struct ConflictBlock {
    pub open_line: Seq<char>,
    pub local_lines: Seq<Seq<char>>,
    pub base_marker: Option<Seq<char>>,
    pub base_lines: Seq<Seq<char>>,
    pub sep_line: Seq<char>,
    pub remote_lines: Seq<Seq<char>>,
    pub close_line: Seq<char>,
}

/// A well-formed file is an interleaving of plain lines and conflict blocks.
pub enum ConflictSegment {
    Plain(Seq<char>),
    Block(ConflictBlock),
}

/// A well-formed block: marker lines carry their prefixes, and no body
/// line carries the marker that would end its section early.
pub open spec fn block_wf(b: ConflictBlock) -> bool {
    &&& has_prefix(b.open_line, "<<<<<<<"@)
    &&& forall|k: int|
        0 <= k < b.local_lines.len() ==> !has_prefix(#[trigger] b.local_lines[k], "|||||||"@)
            && !has_prefix(b.local_lines[k], "======="@)
    &&& match b.base_marker {
        Some(bm) => has_prefix(bm, "|||||||"@) && (forall|k: int|
            0 <= k < b.base_lines.len() ==> !has_prefix(#[trigger] b.base_lines[k], "======="@)),
        None => b.base_lines.len() == 0,
    }
    &&& has_prefix(b.sep_line, "======="@)
    &&& forall|k: int|
        0 <= k < b.remote_lines.len() ==> !has_prefix(#[trigger] b.remote_lines[k], ">>>>>>>"@)
    &&& has_prefix(b.close_line, ">>>>>>>"@)
}

pub open spec fn seg_wf(s: ConflictSegment) -> bool {
    match s {
        ConflictSegment::Plain(l) => !has_prefix(l, "<<<<<<<"@),
        ConflictSegment::Block(b) => block_wf(b),
    }
}

/// The lines a block occupies, in order.
pub open spec fn block_lines(b: ConflictBlock) -> Seq<Seq<char>> {
    seq![b.open_line] + b.local_lines + (match b.base_marker {
        Some(bm) => seq![bm] + b.base_lines,
        None => Seq::<Seq<char>>::empty(),
    }) + seq![b.sep_line] + b.remote_lines + seq![b.close_line]
}

pub open spec fn seg_lines(s: ConflictSegment) -> Seq<Seq<char>> {
    match s {
        ConflictSegment::Plain(l) => seq![l],
        ConflictSegment::Block(b) => block_lines(b),
    }
}

pub open spec fn segs_lines(ss: Seq<ConflictSegment>) -> Seq<Seq<char>>
    decreases ss.len(),
{
    if ss.len() == 0 {
        Seq::empty()
    } else {
        seg_lines(ss[0]) + segs_lines(ss.drop_first())
    }
}

/// The blocks of a segment sequence, in order.
pub open spec fn blocks_of(ss: Seq<ConflictSegment>) -> Seq<ConflictBlock>
    decreases ss.len(),
{
    if ss.len() == 0 {
        Seq::empty()
    } else {
        (match ss[0] {
            ConflictSegment::Block(b) => seq![b],
            ConflictSegment::Plain(_) => Seq::<ConflictBlock>::empty(),
        }) + blocks_of(ss.drop_first())
    }
}

/// What the parser reports of a block: a region whose contents are the
/// block's bodies joined by newlines, with a base exactly when the block
/// had a base marker, even if the base body is empty.
pub open spec fn region_reflects_block(r: ConflictRegionModel, b: ConflictBlock) -> bool {
    &&& r.local_content == join_with(b.local_lines, seq!['\n'])
    &&& r.remote_content == join_with(b.remote_lines, seq!['\n'])
    &&& r.base_content == (match b.base_marker {
        Some(_) => Some(join_with(b.base_lines, seq!['\n'])),
        None => None::<Seq<char>>,
    })
    &&& r.base_start_line is Some == b.base_marker is Some
    &&& !r.resolved
}

proof fn lemma_scan_local_run(
    lines: Seq<Seq<char>>,
    i: int,
    run: Seq<Seq<char>>,
    cs: int,
    ls: int,
    buf: Seq<Seq<char>>,
    id: int,
)
    requires
        0 <= i,
        i + run.len() <= lines.len(),
        forall|k: int| 0 <= k < run.len() ==> lines[i + k] == #[trigger] run[k],
        forall|k: int|
            0 <= k < run.len() ==> !has_prefix(#[trigger] run[k], "|||||||"@) && !has_prefix(
                run[k],
                "======="@,
            ),
    ensures
        conflict_scan(
            lines,
            i,
            ConflictScanState::InLocal { conflict_start: cs, local_start: ls, local_lines: buf },
            id,
        ) == conflict_scan(
            lines,
            i + run.len(),
            ConflictScanState::InLocal {
                conflict_start: cs,
                local_start: ls,
                local_lines: buf + run,
            },
            id,
        ),
    decreases run.len(),
{
    if run.len() == 0 {
        assert(buf + run =~~= buf);
    } else {
        assert(lines[i] == run[0]);
        lemma_scan_local_run(lines, i + 1, run.drop_first(), cs, ls, buf.push(run[0]), id);
        assert(buf.push(run[0]) + run.drop_first() =~~= buf + run);
    }
}

proof fn lemma_scan_base_run(
    lines: Seq<Seq<char>>,
    i: int,
    run: Seq<Seq<char>>,
    cs: int,
    ls: int,
    le: int,
    lbuf: Seq<Seq<char>>,
    bs: int,
    buf: Seq<Seq<char>>,
    id: int,
)
    requires
        0 <= i,
        i + run.len() <= lines.len(),
        forall|k: int| 0 <= k < run.len() ==> lines[i + k] == #[trigger] run[k],
        forall|k: int| 0 <= k < run.len() ==> !has_prefix(#[trigger] run[k], "======="@),
    ensures
        conflict_scan(
            lines,
            i,
            ConflictScanState::InBase {
                conflict_start: cs,
                local_start: ls,
                local_end: le,
                local_lines: lbuf,
                base_start: bs,
                base_lines: buf,
            },
            id,
        ) == conflict_scan(
            lines,
            i + run.len(),
            ConflictScanState::InBase {
                conflict_start: cs,
                local_start: ls,
                local_end: le,
                local_lines: lbuf,
                base_start: bs,
                base_lines: buf + run,
            },
            id,
        ),
    decreases run.len(),
{
    if run.len() == 0 {
        assert(buf + run =~~= buf);
    } else {
        assert(lines[i] == run[0]);
        lemma_scan_base_run(lines, i + 1, run.drop_first(), cs, ls, le, lbuf, bs, buf.push(run[0]), id);
        assert(buf.push(run[0]) + run.drop_first() =~~= buf + run);
    }
}

proof fn lemma_scan_remote_run(
    lines: Seq<Seq<char>>,
    i: int,
    run: Seq<Seq<char>>,
    cs: int,
    ls: int,
    le: int,
    lbuf: Seq<Seq<char>>,
    bso: Option<int>,
    beo: Option<int>,
    bbuf: Option<Seq<Seq<char>>>,
    rs: int,
    buf: Seq<Seq<char>>,
    id: int,
)
    requires
        0 <= i,
        i + run.len() <= lines.len(),
        forall|k: int| 0 <= k < run.len() ==> lines[i + k] == #[trigger] run[k],
        forall|k: int| 0 <= k < run.len() ==> !has_prefix(#[trigger] run[k], ">>>>>>>"@),
    ensures
        conflict_scan(
            lines,
            i,
            ConflictScanState::InRemote {
                conflict_start: cs,
                local_start: ls,
                local_end: le,
                local_lines: lbuf,
                base_start: bso,
                base_end: beo,
                base_lines: bbuf,
                remote_start: rs,
                remote_lines: buf,
            },
            id,
        ) == conflict_scan(
            lines,
            i + run.len(),
            ConflictScanState::InRemote {
                conflict_start: cs,
                local_start: ls,
                local_end: le,
                local_lines: lbuf,
                base_start: bso,
                base_end: beo,
                base_lines: bbuf,
                remote_start: rs,
                remote_lines: buf + run,
            },
            id,
        ),
    decreases run.len(),
{
    if run.len() == 0 {
        assert(buf + run =~~= buf);
    } else {
        assert(lines[i] == run[0]);
        lemma_scan_remote_run(
            lines,
            i + 1,
            run.drop_first(),
            cs,
            ls,
            le,
            lbuf,
            bso,
            beo,
            bbuf,
            rs,
            buf.push(run[0]),
            id,
        );
        assert(buf.push(run[0]) + run.drop_first() =~~= buf + run);
    }
}

/// Scanning the lines of well-formed segments yields exactly one region
/// per block, ids sequential, each region reflecting its block.
#[verifier::rlimit(100)]
proof fn lemma_scan_segments(lines: Seq<Seq<char>>, i: int, segs: Seq<ConflictSegment>, id: int)
    requires
        0 <= i <= lines.len(),
        lines.skip(i) == segs_lines(segs),
        forall|j: int| 0 <= j < segs.len() ==> seg_wf(#[trigger] segs[j]),
    ensures
        conflict_scan(lines, i, ConflictScanState::Normal, id).len() == blocks_of(segs).len(),
        forall|j: int|
            0 <= j < blocks_of(segs).len() ==> {
                let r = #[trigger] conflict_scan(lines, i, ConflictScanState::Normal, id)[j];
                r.id == id + j && region_reflects_block(r, blocks_of(segs)[j])
            },
    decreases segs.len(),
{
    reveal_strlit("<<<<<<<");
    reveal_strlit("|||||||");
    reveal_strlit("=======");
    reveal_strlit(">>>>>>>");
    if segs.len() == 0 {
        assert(lines.skip(i).len() == 0);
        assert(i >= lines.len());
    } else {
        let rest = segs.drop_first();
        let ghost sl = seg_lines(segs[0]);
        assert(lines.skip(i) == sl + segs_lines(rest));
        assert forall|k: int| 0 <= k < sl.len() implies lines[i + k] == sl[k] by {
            assert(lines.skip(i)[k] == lines[i + k]);
            assert((sl + segs_lines(rest))[k] == sl[k]);
        }
        assert(i + sl.len() <= lines.len());
        assert(lines.skip(i + sl.len()) =~~= segs_lines(rest)) by {
            assert forall|k: int|
                0 <= k < segs_lines(rest).len() implies (#[trigger] lines.skip(i + sl.len())[k])
                == segs_lines(rest)[k] by {
                assert(lines.skip(i + sl.len())[k] == lines[i + sl.len() + k]);
                assert(lines.skip(i)[sl.len() + k] == (sl + segs_lines(rest))[sl.len() + k]);
            }
        }
        assert(forall|j: int| 0 <= j < rest.len() ==> seg_wf(#[trigger] rest[j])) by {
            assert(forall|j: int| 0 <= j < rest.len() ==> rest[j] == segs[j + 1]);
        }
        match segs[0] {
            ConflictSegment::Plain(l) => {
                assert(sl == seq![l]);
                assert(lines[i + 0] == sl[0]);
                assert(lines[i] == l);
                assert(!has_prefix(l, "<<<<<<<"@));
                lemma_scan_segments(lines, i + 1, rest, id);
                assert(conflict_scan(lines, i, ConflictScanState::Normal, id) == conflict_scan(
                    lines,
                    i + 1,
                    ConflictScanState::Normal,
                    id,
                ));
                assert(blocks_of(segs) =~~= blocks_of(rest));
            },
            ConflictSegment::Block(b) => {
                let nloc = b.local_lines.len() as int;
                let nbase = b.base_lines.len() as int;
                let nrem = b.remote_lines.len() as int;
                assert(sl == seq![b.open_line] + b.local_lines + (match b.base_marker {
                    Some(bm) => seq![bm] + b.base_lines,
                    None => Seq::<Seq<char>>::empty(),
                }) + seq![b.sep_line] + b.remote_lines + seq![b.close_line]);
                assert(sl[0] == b.open_line);
                assert(lines[i + 0] == sl[0]);
                assert(lines[i] == b.open_line);
                assert(has_prefix(b.open_line, "<<<<<<<"@));
                let st1 = ConflictScanState::InLocal {
                    conflict_start: i,
                    local_start: i + 1,
                    local_lines: Seq::empty(),
                };
                assert(conflict_scan(lines, i, ConflictScanState::Normal, id) == conflict_scan(
                    lines,
                    i + 1,
                    st1,
                    id,
                ));
                assert forall|k: int| 0 <= k < nloc implies lines[i + 1 + k]
                    == #[trigger] b.local_lines[k] by {
                    assert(sl[1 + k] == b.local_lines[k]);
                }
                lemma_scan_local_run(
                    lines,
                    i + 1,
                    b.local_lines,
                    i,
                    i + 1,
                    Seq::empty(),
                    id,
                );
                assert(Seq::<Seq<char>>::empty() + b.local_lines =~~= b.local_lines);
                let p1 = i + 1 + nloc;
                let (p2, bso, beo, bbuf): (int, Option<int>, Option<int>, Option<Seq<Seq<char>>>) =
                    match b.base_marker {
                    Some(bm) => {
                        assert(sl[1 + nloc] == bm);
                        assert(lines[p1] == bm);
                        assert(has_prefix(bm, "|||||||"@));
                        let st2 = ConflictScanState::InBase {
                            conflict_start: i,
                            local_start: i + 1,
                            local_end: p1,
                            local_lines: b.local_lines,
                            base_start: p1 + 1,
                            base_lines: Seq::empty(),
                        };
                        assert(conflict_scan(
                            lines,
                            p1,
                            ConflictScanState::InLocal {
                                conflict_start: i,
                                local_start: i + 1,
                                local_lines: b.local_lines,
                            },
                            id,
                        ) == conflict_scan(lines, p1 + 1, st2, id));
                        assert forall|k: int| 0 <= k < nbase implies lines[p1 + 1 + k]
                            == #[trigger] b.base_lines[k] by {
                            assert(sl[1 + nloc + 1 + k] == b.base_lines[k]);
                        }
                        lemma_scan_base_run(
                            lines,
                            p1 + 1,
                            b.base_lines,
                            i,
                            i + 1,
                            p1,
                            b.local_lines,
                            p1 + 1,
                            Seq::empty(),
                            id,
                        );
                        assert(Seq::<Seq<char>>::empty() + b.base_lines =~~= b.base_lines);
                        let q = p1 + 1 + nbase;
                        assert(sl[1 + nloc + 1 + nbase] == b.sep_line);
                        assert(lines[q] == b.sep_line);
                        assert(has_prefix(b.sep_line, "======="@));
                        (q + 1, Some(p1 + 1), Some(q), Some(b.base_lines))
                    },
                    None => {
                        assert(sl[1 + nloc] == b.sep_line);
                        assert(lines[p1] == b.sep_line);
                        assert(has_prefix(b.sep_line, "======="@));
                        assert(!has_prefix(b.sep_line, "|||||||"@)) by {
                            assert(b.sep_line.take("======="@.len() as int)
                                == "======="@);
                            assert(b.sep_line.take(7int)[0] == b.sep_line[0]);
                            assert("======="@[0] == '=');
                            assert(b.sep_line[0] == '=');
                            if has_prefix(b.sep_line, "|||||||"@) {
                                assert(b.sep_line.take("|||||||"@.len() as int)
                                    == "|||||||"@);
                                assert("|||||||"@[0] == '|');
                                assert(b.sep_line[0] == '|');
                            }
                        }
                        (p1 + 1, None::<int>, None::<int>, None::<Seq<Seq<char>>>)
                    },
                };
                let st3 = ConflictScanState::InRemote {
                    conflict_start: i,
                    local_start: i + 1,
                    local_end: p1,
                    local_lines: b.local_lines,
                    base_start: bso,
                    base_end: beo,
                    base_lines: bbuf,
                    remote_start: p2,
                    remote_lines: Seq::empty(),
                };
                let ghost boff: int = match b.base_marker {
                    Some(_) => 1 + nbase,
                    None => 0,
                };
                assert(p2 == i + 1 + nloc + boff + 1);
                assert forall|k: int| 0 <= k < nrem implies lines[p2 + k]
                    == #[trigger] b.remote_lines[k] by {
                    assert(sl[1 + nloc + boff + 1 + k] == b.remote_lines[k]);
                }
                lemma_scan_remote_run(
                    lines,
                    p2,
                    b.remote_lines,
                    i,
                    i + 1,
                    p1,
                    b.local_lines,
                    bso,
                    beo,
                    bbuf,
                    p2,
                    Seq::empty(),
                    id,
                );
                assert(Seq::<Seq<char>>::empty() + b.remote_lines =~~= b.remote_lines);
                let p3 = p2 + nrem;
                assert(sl[1 + nloc + boff + 1 + nrem] == b.close_line);
                assert(lines[p3] == b.close_line);
                assert(has_prefix(b.close_line, ">>>>>>>"@));
                let st4 = ConflictScanState::InRemote {
                    conflict_start: i,
                    local_start: i + 1,
                    local_end: p1,
                    local_lines: b.local_lines,
                    base_start: bso,
                    base_end: beo,
                    base_lines: bbuf,
                    remote_start: p2,
                    remote_lines: b.remote_lines,
                };
                let r0 = emitted_region(st4, p3, id);
                assert(conflict_scan(lines, p3, st4, id) == seq![r0] + conflict_scan(
                    lines,
                    p3 + 1,
                    ConflictScanState::Normal,
                    id + 1,
                ));
                assert(p3 + 1 == i + sl.len());
                lemma_scan_segments(lines, p3 + 1, rest, id + 1);
                let whole = conflict_scan(lines, i, ConflictScanState::Normal, id);
                let tail = conflict_scan(lines, p3 + 1, ConflictScanState::Normal, id + 1);
                assert(whole == seq![r0] + tail);
                assert(blocks_of(segs) == seq![b] + blocks_of(rest));
                assert(region_reflects_block(r0, b));
                assert forall|j: int| 0 <= j < blocks_of(segs).len() implies {
                    let r = #[trigger] whole[j];
                    r.id == id + j && region_reflects_block(r, blocks_of(segs)[j])
                } by {
                    if j == 0 {
                        assert(whole[0] == r0);
                        assert(blocks_of(segs)[0] == b);
                    } else {
                        assert(whole[j] == tail[j - 1]);
                        assert(blocks_of(segs)[j] == blocks_of(rest)[j - 1]);
                    }
                }
            },
        }
    }
}

/// Well-formed conflicts parse to one region per block, in document order
/// with sequential ids from zero; a region's contents are its block's
/// bodies, and its base is present exactly when the block wrote a
/// `|||||||` marker, even if the base body is empty. In particular a file
/// of standard blocks yields only regions without a base, and a file of
/// diff3 blocks yields only regions with one.
pub proof fn lemma_well_formed_conflicts(segs: Seq<ConflictSegment>)
    requires
        forall|j: int| 0 <= j < segs.len() ==> seg_wf(#[trigger] segs[j]),
    ensures
        conflict_scan(segs_lines(segs), 0, ConflictScanState::Normal, 0).len() == blocks_of(
            segs,
        ).len(),
        forall|j: int|
            0 <= j < blocks_of(segs).len() ==> {
                let r = #[trigger] conflict_scan(
                    segs_lines(segs),
                    0,
                    ConflictScanState::Normal,
                    0,
                )[j];
                r.id == j && region_reflects_block(r, blocks_of(segs)[j])
            },
{
    let lines = segs_lines(segs);
    assert(lines.skip(0) =~~= lines);
    lemma_scan_segments(lines, 0, segs, 0);
}

} // verus!
