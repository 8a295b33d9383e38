//! The marker grammar and its scanner. A trace marker is
//! `{{#trace TARGET:RECORD}}` (alias `{{#tr`), a matrix marker
//! `{{#tracematrix TARGET}}` (alias `{{#trace_matrix`): TARGET is one or more
//! of letters, digits, `_`, `-`; RECORD is free text up to the first `}}`,
//! trimmed of surrounding whitespace. Whitespace in the grammar is ASCII
//! whitespace. The scan is leftmost, non-overlapping; text that fails the
//! grammar is left untouched.

use vstd::prelude::*;
use crate::chars::{is_ws, is_target_char, has_at, ws_char, target_char, has_at_str};

verus! {

/// One recognised marker: its extent in the content and its parsed fields.
pub struct Marker {
    pub start: usize,
    pub end: usize,
    pub target: Vec<char>,
    pub record: Vec<char>,
}

#[verifier::ext_equal]
pub ghost struct MarkerView {
    pub start: int,
    pub end: int,
    pub target: Seq<char>,
    pub record: Seq<char>,
}

impl View for Marker {
    type V = MarkerView;

    open spec fn view(&self) -> MarkerView {
        MarkerView {
            start: self.start as int,
            end: self.end as int,
            target: self.target@,
            record: self.record@,
        }
    }
}

pub open spec fn markers_view(ms: Seq<Marker>) -> Seq<MarkerView> {
    ms.map_values(|m: Marker| m@)
}

/// The end of the whitespace run starting at `i`.
pub open spec fn ws_end(s: Seq<char>, i: int) -> int
    decreases s.len() - i,
{
    if 0 <= i < s.len() && is_ws(s[i]) {
        ws_end(s, i + 1)
    } else {
        i
    }
}

/// The end of the target-character run starting at `i`.
pub open spec fn target_end(s: Seq<char>, i: int) -> int
    decreases s.len() - i,
{
    if 0 <= i < s.len() && is_target_char(s[i]) {
        target_end(s, i + 1)
    } else {
        i
    }
}

/// The first position at or after `i` where `}}` stands, or -1.
pub open spec fn find_close(s: Seq<char>, i: int) -> int
    decreases s.len() - i,
{
    if i < 0 || i + 2 > s.len() {
        -1
    } else if s[i] == '}' && s[i + 1] == '}' {
        i
    } else {
        find_close(s, i + 1)
    }
}

/// The start of `[a, b)` with leading whitespace dropped.
pub open spec fn trim_start(s: Seq<char>, a: int, b: int) -> int
    decreases b - a,
{
    if a < b && 0 <= a < s.len() && is_ws(s[a]) {
        trim_start(s, a + 1, b)
    } else {
        a
    }
}

/// The end of `[a, b)` with trailing whitespace dropped.
pub open spec fn trim_end(s: Seq<char>, a: int, b: int) -> int
    decreases b - a,
{
    if a < b && 0 <= b - 1 < s.len() && is_ws(s[b - 1]) {
        trim_end(s, a, b - 1)
    } else {
        b
    }
}

pub proof fn lemma_ws_end_bounds(s: Seq<char>, i: int)
    requires
        0 <= i <= s.len(),
    ensures
        i <= ws_end(s, i) <= s.len(),
    decreases s.len() - i,
{
    if i < s.len() && is_ws(s[i]) {
        lemma_ws_end_bounds(s, i + 1);
    }
}

pub proof fn lemma_target_end_bounds(s: Seq<char>, i: int)
    requires
        0 <= i <= s.len(),
    ensures
        i <= target_end(s, i) <= s.len(),
    decreases s.len() - i,
{
    if i < s.len() && is_target_char(s[i]) {
        lemma_target_end_bounds(s, i + 1);
    }
}

pub proof fn lemma_find_close_bounds(s: Seq<char>, i: int)
    requires
        0 <= i,
    ensures
        find_close(s, i) == -1 || (i <= find_close(s, i) && find_close(s, i) + 2 <= s.len()),
    decreases s.len() - i,
{
    if !(i + 2 > s.len()) && !(s[i] == '}' && s[i + 1] == '}') {
        lemma_find_close_bounds(s, i + 1);
    }
}

pub proof fn lemma_trim_bounds(s: Seq<char>, a: int, b: int)
    requires
        0 <= a <= b <= s.len(),
    ensures
        a <= trim_start(s, a, b) <= b,
        a <= trim_end(s, a, b) <= b,
    decreases b - a,
{
    if a < b {
        if is_ws(s[a]) {
            lemma_trim_bounds(s, a + 1, b);
        }
        if is_ws(s[b - 1]) {
            lemma_trim_bounds(s, a, b - 1);
        }
    }
}

/// Where a trace keyword (`{{#trace` or the alias `{{#tr`) ends when one
/// stands at `i`, else -1.
pub open spec fn trace_keyword_end(s: Seq<char>, i: int) -> int {
    if has_at(s, i, "{{#trace"@) {
        i + 8
    } else if has_at(s, i, "{{#tr"@) {
        i + 5
    } else {
        -1
    }
}

/// The trace marker starting at `i`, if the grammar matches there: keyword,
/// one or more whitespace, a non-empty target run, `:`, then the record up to
/// the first `}}`, trimmed of surrounding whitespace.
pub open spec fn trace_match_at(s: Seq<char>, i: int) -> Option<MarkerView> {
    let k = trace_keyword_end(s, i);
    if k < 0 {
        None
    } else {
        let w = ws_end(s, k);
        if w == k {
            None
        } else {
            let t = target_end(s, w);
            if t == w || t >= s.len() || s[t] != ':' {
                None
            } else {
                let m = find_close(s, t + 1);
                if m < 0 {
                    None
                } else {
                    let a = trim_start(s, t + 1, m);
                    let b = trim_end(s, a, m);
                    Some(
                        MarkerView {
                            start: i,
                            end: m + 2,
                            target: s.subrange(w, t),
                            record: s.subrange(a, b),
                        },
                    )
                }
            }
        }
    }
}

/// Where a matrix keyword (`{{#tracematrix` or `{{#trace_matrix`) ends when
/// one stands at `i`, else -1.
pub open spec fn matrix_keyword_end(s: Seq<char>, i: int) -> int {
    if has_at(s, i, "{{#tracematrix"@) {
        i + 14
    } else if has_at(s, i, "{{#trace_matrix"@) {
        i + 15
    } else {
        -1
    }
}

/// The matrix marker starting at `i`, if the grammar matches there: keyword,
/// one or more whitespace, a non-empty target run, optional whitespace, `}}`.
pub open spec fn matrix_match_at(s: Seq<char>, i: int) -> Option<MarkerView> {
    let k = matrix_keyword_end(s, i);
    if k < 0 {
        None
    } else {
        let w = ws_end(s, k);
        if w == k {
            None
        } else {
            let t = target_end(s, w);
            if t == w {
                None
            } else {
                let e = ws_end(s, t);
                if e + 2 <= s.len() && s[e] == '}' && s[e + 1] == '}' {
                    Some(
                        MarkerView {
                            start: i,
                            end: e + 2,
                            target: s.subrange(w, t),
                            record: Seq::empty(),
                        },
                    )
                } else {
                    None
                }
            }
        }
    }
}

pub proof fn lemma_trace_match_bounds(s: Seq<char>, i: int)
    requires
        0 <= i < s.len(),
        trace_match_at(s, i) is Some,
    ensures
        ({
            let m = trace_match_at(s, i)->Some_0;
            m.start == i && i < m.end && m.end <= s.len()
        }),
{
    let k = trace_keyword_end(s, i);
    lemma_ws_end_bounds(s, k);
    let w = ws_end(s, k);
    lemma_target_end_bounds(s, w);
    let t = target_end(s, w);
    lemma_find_close_bounds(s, t + 1);
}

pub proof fn lemma_matrix_match_bounds(s: Seq<char>, i: int)
    requires
        0 <= i < s.len(),
        matrix_match_at(s, i) is Some,
    ensures
        ({
            let m = matrix_match_at(s, i)->Some_0;
            m.start == i && i < m.end && m.end <= s.len()
        }),
{
    let k = matrix_keyword_end(s, i);
    lemma_ws_end_bounds(s, k);
    let w = ws_end(s, k);
    lemma_target_end_bounds(s, w);
    let t = target_end(s, w);
    lemma_ws_end_bounds(s, t);
}

/// All trace markers at or after `i`, leftmost first, non-overlapping.
pub open spec fn scan_traces(s: Seq<char>, i: int) -> Seq<MarkerView>
    decreases s.len() - i,
{
    if i < 0 || i >= s.len() {
        Seq::empty()
    } else {
        match trace_match_at(s, i) {
            Some(m) => {
                let nxt = if i < m.end <= s.len() {
                    m.end
                } else {
                    i + 1
                };
                seq![m] + scan_traces(s, nxt)
            },
            None => scan_traces(s, i + 1),
        }
    }
}

/// All matrix markers at or after `i`, leftmost first, non-overlapping.
pub open spec fn scan_matrices(s: Seq<char>, i: int) -> Seq<MarkerView>
    decreases s.len() - i,
{
    if i < 0 || i >= s.len() {
        Seq::empty()
    } else {
        match matrix_match_at(s, i) {
            Some(m) => {
                let nxt = if i < m.end <= s.len() {
                    m.end
                } else {
                    i + 1
                };
                seq![m] + scan_matrices(s, nxt)
            },
            None => scan_matrices(s, i + 1),
        }
    }
}

/// Markers come out in order, within bounds, and non-overlapping; there are
/// no more markers than characters scanned.
pub open spec fn markers_wf(ms: Seq<MarkerView>, from: int, len: int) -> bool {
    &&& forall|j: int|
        0 <= j < ms.len() ==> from <= (#[trigger] ms[j]).start && ms[j].start < ms[j].end
            && ms[j].end <= len
    &&& forall|j: int| 0 <= j < ms.len() - 1 ==> (#[trigger] ms[j]).end <= ms[j + 1].start
}

pub proof fn lemma_scan_traces_wf(s: Seq<char>, i: int)
    requires
        0 <= i <= s.len(),
    ensures
        markers_wf(scan_traces(s, i), i, s.len() as int),
        scan_traces(s, i).len() <= s.len() - i,
    decreases s.len() - i,
{
    if i >= s.len() {
    } else {
        match trace_match_at(s, i) {
            Some(m) => {
                lemma_trace_match_bounds(s, i);
                lemma_scan_traces_wf(s, m.end);
                let ms = scan_traces(s, i);
                let rest = scan_traces(s, m.end);
                assert(ms == seq![m] + rest);
                assert forall|j: int|
                    0 <= j < ms.len() implies i <= (#[trigger] ms[j]).start && ms[j].start
                    < ms[j].end && ms[j].end <= s.len() by {
                    if j > 0 {
                        let k = j - 1;
                        assert(ms[j] == rest[k]);
                        assert(m.end <= rest[k].start);
                    } else {
                        assert(ms[0] == m);
                    }
                }
                assert forall|j: int| 0 <= j < ms.len() - 1 implies (#[trigger] ms[j]).end <= ms[j
                    + 1].start by {
                    if j > 0 {
                        let k = j - 1;
                        assert(ms[j] == rest[k]);
                        assert(ms[j + 1] == rest[k + 1]);
                        assert(rest[k].end <= rest[k + 1].start);
                    } else {
                        assert(ms[0] == m);
                        assert(ms[1] == rest[0]);
                        assert(m.end <= rest[0].start);
                    }
                }
            },
            None => {
                lemma_scan_traces_wf(s, i + 1);
            },
        }
    }
}

pub proof fn lemma_scan_matrices_wf(s: Seq<char>, i: int)
    requires
        0 <= i <= s.len(),
    ensures
        markers_wf(scan_matrices(s, i), i, s.len() as int),
        scan_matrices(s, i).len() <= s.len() - i,
    decreases s.len() - i,
{
    if i >= s.len() {
    } else {
        match matrix_match_at(s, i) {
            Some(m) => {
                lemma_matrix_match_bounds(s, i);
                lemma_scan_matrices_wf(s, m.end);
                let ms = scan_matrices(s, i);
                let rest = scan_matrices(s, m.end);
                assert(ms == seq![m] + rest);
                assert forall|j: int|
                    0 <= j < ms.len() implies i <= (#[trigger] ms[j]).start && ms[j].start
                    < ms[j].end && ms[j].end <= s.len() by {
                    if j > 0 {
                        let k = j - 1;
                        assert(ms[j] == rest[k]);
                        assert(m.end <= rest[k].start);
                    } else {
                        assert(ms[0] == m);
                    }
                }
                assert forall|j: int| 0 <= j < ms.len() - 1 implies (#[trigger] ms[j]).end <= ms[j
                    + 1].start by {
                    if j > 0 {
                        let k = j - 1;
                        assert(ms[j] == rest[k]);
                        assert(ms[j + 1] == rest[k + 1]);
                        assert(rest[k].end <= rest[k + 1].start);
                    } else {
                        assert(ms[0] == m);
                        assert(ms[1] == rest[0]);
                        assert(m.end <= rest[0].start);
                    }
                }
            },
            None => {
                lemma_scan_matrices_wf(s, i + 1);
            },
        }
    }
}

pub(crate) fn ws_end_exec(s: &Vec<char>, i: usize) -> (r: usize)
    requires
        i <= s@.len(),
    ensures
        r == ws_end(s@, i as int),
        i <= r <= s@.len(),
{
    let mut j = i;
    while j < s.len() && ws_char(s[j])
        invariant
            i <= j <= s@.len(),
            ws_end(s@, i as int) == ws_end(s@, j as int),
        decreases s@.len() - j,
    {
        j += 1;
    }
    j
}

fn target_end_exec(s: &Vec<char>, i: usize) -> (r: usize)
    requires
        i <= s@.len(),
    ensures
        r == target_end(s@, i as int),
        i <= r <= s@.len(),
{
    let mut j = i;
    while j < s.len() && target_char(s[j])
        invariant
            i <= j <= s@.len(),
            target_end(s@, i as int) == target_end(s@, j as int),
        decreases s@.len() - j,
    {
        j += 1;
    }
    j
}

fn find_close_exec(s: &Vec<char>, i: usize) -> (r: Option<usize>)
    requires
        i <= s@.len(),
    ensures
        match r {
            Some(j) => find_close(s@, i as int) == j && i <= j && j + 2 <= s@.len(),
            None => find_close(s@, i as int) == -1,
        },
{
    let mut j = i;
    while s.len() - j >= 2
        invariant
            i <= j <= s@.len(),
            find_close(s@, i as int) == find_close(s@, j as int),
        decreases s@.len() - j,
    {
        if s[j] == '}' && s[j + 1] == '}' {
            return Some(j);
        }
        j += 1;
    }
    None
}

fn trim_start_exec(s: &Vec<char>, a: usize, b: usize) -> (r: usize)
    requires
        a <= b <= s@.len(),
    ensures
        r == trim_start(s@, a as int, b as int),
        a <= r <= b,
{
    let mut j = a;
    while j < b && ws_char(s[j])
        invariant
            a <= j <= b,
            b <= s@.len(),
            trim_start(s@, a as int, b as int) == trim_start(s@, j as int, b as int),
        decreases b - j,
    {
        j += 1;
    }
    j
}

fn trim_end_exec(s: &Vec<char>, a: usize, b: usize) -> (r: usize)
    requires
        a <= b <= s@.len(),
    ensures
        r == trim_end(s@, a as int, b as int),
        a <= r <= b,
{
    let mut j = b;
    while j > a && ws_char(s[j - 1])
        invariant
            a <= j <= b,
            b <= s@.len(),
            trim_end(s@, a as int, b as int) == trim_end(s@, a as int, j as int),
        decreases j,
    {
        j -= 1;
    }
    j
}

/// Copies `s[a..b]` out.
pub fn copy_range(s: &Vec<char>, a: usize, b: usize) -> (v: Vec<char>)
    requires
        a <= b <= s@.len(),
    ensures
        v@ == s@.subrange(a as int, b as int),
{
    let mut v: Vec<char> = Vec::new();
    let mut j = a;
    while j < b
        invariant
            a <= j <= b,
            b <= s@.len(),
            v@ == s@.subrange(a as int, j as int),
        decreases b - j,
    {
        v.push(s[j]);
        j += 1;
        assert(v@ =~= s@.subrange(a as int, j as int));
    }
    v
}

/// Appends `s[a..b]` to `out`.
pub fn push_range(out: &mut Vec<char>, s: &Vec<char>, a: usize, b: usize)
    requires
        a <= b <= s@.len(),
    ensures
        final(out)@ == old(out)@ + s@.subrange(a as int, b as int),
{
    let mut j = a;
    while j < b
        invariant
            a <= j <= b,
            b <= s@.len(),
            out@ == old(out)@ + s@.subrange(a as int, j as int),
        decreases b - j,
    {
        out.push(s[j]);
        j += 1;
        assert(out@ =~= old(out)@ + s@.subrange(a as int, j as int));
    }
}

fn trace_match_at_exec(s: &Vec<char>, i: usize) -> (r: Option<Marker>)
    requires
        i < s@.len(),
    ensures
        match r {
            Some(m) => trace_match_at(s@, i as int) == Some(m@),
            None => trace_match_at(s@, i as int) is None,
        },
{
    let _slen = s.len();
    proof {
        reveal_strlit("{{#trace");
        reveal_strlit("{{#tr");
    }
    let k: usize = if has_at_str(s, i, "{{#trace") {
        i + 8
    } else if has_at_str(s, i, "{{#tr") {
        i + 5
    } else {
        return None;
    };
    proof {
        assert(k == trace_keyword_end(s@, i as int));
    }
    let w = ws_end_exec(s, k);
    if w == k {
        return None;
    }
    let t = target_end_exec(s, w);
    if t == w || t >= s.len() || s[t] != ':' {
        return None;
    }
    match find_close_exec(s, t + 1) {
        None => None,
        Some(m) => {
            let a = trim_start_exec(s, t + 1, m);
            let b = trim_end_exec(s, a, m);
            Some(
                Marker { start: i, end: m + 2, target: copy_range(s, w, t), record: copy_range(
                    s,
                    a,
                    b,
                ) },
            )
        },
    }
}

fn matrix_match_at_exec(s: &Vec<char>, i: usize) -> (r: Option<Marker>)
    requires
        i < s@.len(),
    ensures
        match r {
            Some(m) => matrix_match_at(s@, i as int) == Some(m@),
            None => matrix_match_at(s@, i as int) is None,
        },
{
    let _slen = s.len();
    proof {
        reveal_strlit("{{#tracematrix");
        reveal_strlit("{{#trace_matrix");
    }
    let k: usize = if has_at_str(s, i, "{{#tracematrix") {
        i + 14
    } else if has_at_str(s, i, "{{#trace_matrix") {
        i + 15
    } else {
        return None;
    };
    proof {
        assert(k == matrix_keyword_end(s@, i as int));
    }
    let w = ws_end_exec(s, k);
    if w == k {
        return None;
    }
    let t = target_end_exec(s, w);
    if t == w {
        return None;
    }
    let e = ws_end_exec(s, t);
    if s.len() - e >= 2 && s[e] == '}' && s[e + 1] == '}' {
        Some(Marker { start: i, end: e + 2, target: copy_range(s, w, t), record: Vec::new() })
    } else {
        None
    }
}

/// Finds every trace marker, leftmost first.
pub fn scan_traces_exec(s: &Vec<char>) -> (ms: Vec<Marker>)
    ensures
        markers_view(ms@) == scan_traces(s@, 0),
{
    let mut ms: Vec<Marker> = Vec::new();
    let mut i: usize = 0;
    proof {
        assert(markers_view(ms@) + scan_traces(s@, 0) =~= scan_traces(s@, 0));
    }
    while i < s.len()
        invariant
            i <= s@.len(),
            scan_traces(s@, 0) == markers_view(ms@) + scan_traces(s@, i as int),
        decreases s@.len() - i,
    {
        match trace_match_at_exec(s, i) {
            Some(m) => {
                proof {
                    lemma_trace_match_bounds(s@, i as int);
                    assert(scan_traces(s@, i as int) == seq![m@] + scan_traces(s@, m@.end));
                }
                let ghost pre = markers_view(ms@);
                let next = m.end;
                ms.push(m);
                proof {
                    assert(markers_view(ms@) =~= pre.push(m@));
                    assert(markers_view(ms@) + scan_traces(s@, next as int) =~= pre + scan_traces(
                        s@,
                        i as int,
                    ));
                }
                i = next;
            },
            None => {
                proof {
                    assert(scan_traces(s@, i as int) == scan_traces(s@, i as int + 1));
                }
                i += 1;
            },
        }
    }
    proof {
        assert(scan_traces(s@, i as int) =~= Seq::<MarkerView>::empty());
        assert(markers_view(ms@) =~= scan_traces(s@, 0));
    }
    ms
}

/// Finds every matrix marker, leftmost first.
pub fn scan_matrices_exec(s: &Vec<char>) -> (ms: Vec<Marker>)
    ensures
        markers_view(ms@) == scan_matrices(s@, 0),
{
    let mut ms: Vec<Marker> = Vec::new();
    let mut i: usize = 0;
    proof {
        assert(markers_view(ms@) + scan_matrices(s@, 0) =~= scan_matrices(s@, 0));
    }
    while i < s.len()
        invariant
            i <= s@.len(),
            scan_matrices(s@, 0) == markers_view(ms@) + scan_matrices(s@, i as int),
        decreases s@.len() - i,
    {
        match matrix_match_at_exec(s, i) {
            Some(m) => {
                proof {
                    lemma_matrix_match_bounds(s@, i as int);
                    assert(scan_matrices(s@, i as int) == seq![m@] + scan_matrices(s@, m@.end));
                }
                let ghost pre = markers_view(ms@);
                let next = m.end;
                ms.push(m);
                proof {
                    assert(markers_view(ms@) =~= pre.push(m@));
                    assert(markers_view(ms@) + scan_matrices(s@, next as int) =~= pre
                        + scan_matrices(s@, i as int));
                }
                i = next;
            },
            None => {
                proof {
                    assert(scan_matrices(s@, i as int) == scan_matrices(s@, i as int + 1));
                }
                i += 1;
            },
        }
    }
    proof {
        assert(scan_matrices(s@, i as int) =~= Seq::<MarkerView>::empty());
        assert(markers_view(ms@) =~= scan_matrices(s@, 0));
    }
    ms
}

/// The end of the last of the first `j` markers, or 0.
pub open spec fn prev_end(ms: Seq<MarkerView>, j: int) -> int {
    if j <= 0 {
        0
    } else {
        ms[j - 1].end
    }
}

/// The content up to marker `j`, with each marker replaced by its text from
/// `reps`.
pub open spec fn spliced_upto(
    s: Seq<char>,
    ms: Seq<MarkerView>,
    reps: Seq<Seq<char>>,
    j: int,
) -> Seq<char>
    decreases j,
{
    if j <= 0 {
        Seq::empty()
    } else {
        spliced_upto(s, ms, reps, j - 1) + s.subrange(prev_end(ms, j - 1), ms[j - 1].start) + reps[j
            - 1]
    }
}

/// The whole content with every marker replaced by its text from `reps`.
pub open spec fn spliced(s: Seq<char>, ms: Seq<MarkerView>, reps: Seq<Seq<char>>) -> Seq<char> {
    spliced_upto(s, ms, reps, ms.len() as int) + s.subrange(prev_end(ms, ms.len() as int), s.len() as int)
}

} // verus!
