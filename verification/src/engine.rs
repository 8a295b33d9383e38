//! The trace registry and the two-pass pipeline: pass 1 numbers headings,
//! scans trace markers, numbers them, registers them and appends footnotes;
//! pass 2 replaces matrix markers by tables over the fully populated registry.

use vstd::prelude::*;
use vstd::pervasive::unreached;
use crate::chars::{chars_of, string_from_chars, push_str_chars, str_eq, vec_str_eq};
use crate::config::{Config, ParentNumbering, policy_number, number_for};
use crate::registry::{
    Target, TargetView, target_insert, find_containing, note_text, lemma_target_insert_wf,
    matrix_text, lemma_target_insert_contains,
};
use crate::scan::{
    Marker, MarkerView, markers_view, scan_traces, scan_matrices, scan_traces_exec,
    scan_matrices_exec, lemma_scan_traces_wf, lemma_scan_matrices_wf, markers_wf, prev_end,
    spliced_upto, spliced, push_range,
};
use crate::trace::{
    Trace, TraceView, anchor_text, reference_text, push_anchor, push_reference, clone_u32_vec,
    opt_str_view,
};

verus! {

/// The single fatal error: a marker references a target id that the
/// configuration does not define.
#[derive(Debug)]
pub enum TraceError {
    UnknownTarget { id: String },
}

impl TraceError {
    /// The error rendered for the caller.
    pub fn message(&self) -> (r: String)
        ensures
            match self {
                TraceError::UnknownTarget { id } => r@ == "no target defined with id '"@ + id@
                    + "'."@,
            },
    {
        match self {
            TraceError::UnknownTarget { id } => {
                let mut v: Vec<char> = Vec::new();
                push_str_chars(&mut v, "no target defined with id '");
                push_str_chars(&mut v, id.as_str());
                push_str_chars(&mut v, "'.");
                string_from_chars(&v)
            },
        }
    }
}

/// One chapter of the document tree, in document order: its text, its
/// hierarchical number (none for unnumbered chapters), how many sub-items it
/// has, and its source location.
pub struct Chapter {
    pub content: String,
    pub number: Option<Vec<u32>>,
    pub sub_count: usize,
    pub path: Option<String>,
}

#[verifier::ext_equal]
pub ghost struct ChapterView {
    pub content: Seq<char>,
    pub number: Option<Seq<u32>>,
    pub sub_count: int,
    pub path: Option<Seq<char>>,
}

impl View for Chapter {
    type V = ChapterView;

    open spec fn view(&self) -> ChapterView {
        ChapterView {
            content: self.content@,
            number: match self.number {
                Some(n) => Some(n@),
                None => None,
            },
            sub_count: self.sub_count as int,
            path: opt_str_view(self.path),
        }
    }
}

/// The chapter-dependent inputs of the trace scan.
pub ghost struct ScanCtx {
    pub policy: ParentNumbering,
    pub qualified: bool,
    pub prefix: Seq<u32>,
    pub subs: u32,
    pub path: Option<Seq<char>>,
}

/// What the scan of a chapter depends on, read off configuration and chapter.
pub open spec fn chapter_ctx(cfg: Config, cv: ChapterView) -> ScanCtx {
    ScanCtx {
        policy: cfg.parent_numbering,
        qualified: cfg.qualified_footnotes,
        prefix: match cv.number {
            Some(n) => n,
            None => Seq::empty(),
        },
        subs: cv.sub_count as u32,
        path: cv.path,
    }
}

/// The trace created for the `j`-th marker of a chapter (0-based `j`; the
/// occurrence count handed to the policy is `j + 1`).
pub open spec fn marker_trace(c: ScanCtx, j: int) -> TraceView {
    TraceView {
        path: c.path,
        number: policy_number(c.policy, c.prefix, (j + 1) as u32, c.subs),
        qualified: c.qualified,
    }
}

/// The in-place replacement for the `j`-th trace marker: the inline anchor
/// followed by the inline reference.
pub open spec fn trace_reps(ms: Seq<MarkerView>, c: ScanCtx) -> Seq<Seq<char>> {
    Seq::new(
        ms.len(),
        |j: int| anchor_text(marker_trace(c, j)) + reference_text(marker_trace(c, j)),
    )
}

/// The registry as a sequence of id/target pairs.
pub open spec fn reg_view(ts: Seq<(String, Target)>) -> Seq<(Seq<char>, TargetView)> {
    ts.map_values(|p: (String, Target)| (p.0@, p.1@))
}

/// The first registry index holding `id`, or -1.
pub open spec fn find_target(reg: Seq<(Seq<char>, TargetView)>, id: Seq<char>) -> int
    decreases reg.len(),
{
    if reg.len() == 0 {
        -1
    } else if reg[0].0 == id {
        0
    } else {
        let r = find_target(reg.drop_first(), id);
        if r < 0 {
            -1
        } else {
            r + 1
        }
    }
}

pub proof fn lemma_find_target(reg: Seq<(Seq<char>, TargetView)>, id: Seq<char>, i: int)
    requires
        0 <= i <= reg.len(),
        forall|j: int| 0 <= j < i ==> (#[trigger] reg[j]).0 != id,
        i < reg.len() ==> reg[i].0 == id,
    ensures
        find_target(reg, id) == if i < reg.len() {
            i
        } else {
            -1
        },
    decreases i, reg.len(),
{
    if reg.len() == 0 {
    } else if i == 0 {
    } else {
        lemma_find_target(reg.drop_first(), id, i - 1);
    }
}

/// Registry well-formedness: ids unique, every target well formed.
pub open spec fn reg_wf(reg: Seq<(Seq<char>, TargetView)>) -> bool {
    &&& forall|i: int, j: int|
        0 <= i < j < reg.len() ==> (#[trigger] reg[i]).0 != (#[trigger] reg[j]).0
    &&& forall|i: int| 0 <= i < reg.len() ==> (#[trigger] reg[i]).1.wf()
}

pub proof fn lemma_find_target_bounds(reg: Seq<(Seq<char>, TargetView)>, id: Seq<char>)
    ensures
        -1 <= find_target(reg, id) < reg.len(),
        find_target(reg, id) >= 0 ==> reg[find_target(reg, id)].0 == id,
    decreases reg.len(),
{
    if reg.len() != 0 && reg[0].0 != id {
        lemma_find_target_bounds(reg.drop_first(), id);
    }
}

/// `find_target` reads only the ids.
pub proof fn lemma_find_target_equiv(
    r1: Seq<(Seq<char>, TargetView)>,
    r2: Seq<(Seq<char>, TargetView)>,
    id: Seq<char>,
)
    requires
        r1.len() == r2.len(),
        forall|k: int| 0 <= k < r1.len() ==> (#[trigger] r1[k]).0 == (#[trigger] r2[k]).0,
    ensures
        find_target(r1, id) == find_target(r2, id),
    decreases r1.len(),
{
    if r1.len() != 0 && r1[0].0 != id {
        assert forall|k: int|
            0 <= k < r1.drop_first().len() implies (#[trigger] r1.drop_first()[k]).0 == (
        #[trigger] r2.drop_first()[k]).0 by {
            assert(r1.drop_first()[k] == r1[k + 1]);
            assert(r2.drop_first()[k] == r2[k + 1]);
        }
        lemma_find_target_equiv(r1.drop_first(), r2.drop_first(), id);
    }
}

/// `reg_insert` keeps the length, the ids and the target names, and keeps the
/// registry well formed.
pub proof fn lemma_reg_insert_props(
    reg: Seq<(Seq<char>, TargetView)>,
    id: Seq<char>,
    rname: Seq<char>,
    t: TraceView,
)
    requires
        reg_wf(reg),
    ensures
        ({
            let r2 = reg_insert(reg, id, rname, t);
            &&& r2.len() == reg.len()
            &&& forall|k: int|
                0 <= k < reg.len() ==> (#[trigger] r2[k]).0 == reg[k].0 && r2[k].1.name
                    == reg[k].1.name
            &&& reg_wf(r2)
        }),
{
    lemma_find_target_bounds(reg, id);
    let i = find_target(reg, id);
    if i >= 0 {
        lemma_target_insert_wf(reg[i].1, rname, t);
        let r2 = reg_insert(reg, id, rname, t);
        assert forall|k: int|
            0 <= k < reg.len() implies (#[trigger] r2[k]).0 == reg[k].0 && r2[k].1.name
            == reg[k].1.name by {
            if k != i {
                assert(r2[k] == reg[k]);
            }
        }
        assert forall|k: int| 0 <= k < r2.len() implies (#[trigger] r2[k]).1.wf() by {
            if k != i {
                assert(r2[k] == reg[k]);
            }
        }
    }
}

/// `regs_after` keeps the length, the ids and the target names, and keeps the
/// registry well formed.
pub proof fn lemma_regs_after_props(
    reg: Seq<(Seq<char>, TargetView)>,
    ms: Seq<MarkerView>,
    c: ScanCtx,
    j: int,
)
    requires
        reg_wf(reg),
        0 <= j,
    ensures
        ({
            let r2 = regs_after(reg, ms, c, j);
            &&& r2.len() == reg.len()
            &&& forall|k: int|
                0 <= k < reg.len() ==> (#[trigger] r2[k]).0 == reg[k].0 && r2[k].1.name
                    == reg[k].1.name
            &&& reg_wf(r2)
        }),
    decreases j,
{
    if j > 0 {
        lemma_regs_after_props(reg, ms, c, j - 1);
        lemma_reg_insert_props(
            regs_after(reg, ms, c, j - 1),
            ms[j - 1].target,
            ms[j - 1].record,
            marker_trace(c, j - 1),
        );
    }
}

/// Inserting a trace touches one target and keeps every id and name.
pub open spec fn reg_insert(
    reg: Seq<(Seq<char>, TargetView)>,
    id: Seq<char>,
    rname: Seq<char>,
    t: TraceView,
) -> Seq<(Seq<char>, TargetView)> {
    let i = find_target(reg, id);
    if i >= 0 {
        reg.update(i, (reg[i].0, target_insert(reg[i].1, rname, t)))
    } else {
        reg
    }
}

/// The registry after the first `j` markers of one chapter are registered.
pub open spec fn regs_after(
    reg: Seq<(Seq<char>, TargetView)>,
    ms: Seq<MarkerView>,
    c: ScanCtx,
    j: int,
) -> Seq<(Seq<char>, TargetView)>
    decreases j,
{
    if j <= 0 {
        reg
    } else {
        let prev = regs_after(reg, ms, c, j - 1);
        reg_insert(prev, ms[j - 1].target, ms[j - 1].record, marker_trace(c, j - 1))
    }
}

/// The footnote line for a trace under target `id` in registry `reg`: the
/// name of the first record containing the trace qualifies the note.
pub open spec fn note_of(
    reg: Seq<(Seq<char>, TargetView)>,
    id: Seq<char>,
    t: TraceView,
) -> Seq<char> {
    let ti = find_target(reg, id);
    let tv = reg[ti].1;
    let ri = find_containing(tv.records, t);
    note_text(t, tv.name, tv.records[ri].name)
}

/// The note for the `j`-th marker, against the registry as it stands after
/// that marker is registered.
pub open spec fn note_at(
    reg: Seq<(Seq<char>, TargetView)>,
    ms: Seq<MarkerView>,
    c: ScanCtx,
    j: int,
) -> Seq<char> {
    note_of(regs_after(reg, ms, c, j + 1), ms[j].target, marker_trace(c, j))
}

/// The footnote block for the first `j` markers, notes separated by a blank
/// line.
pub open spec fn footer_upto(
    reg: Seq<(Seq<char>, TargetView)>,
    ms: Seq<MarkerView>,
    c: ScanCtx,
    j: int,
) -> Seq<char>
    decreases j,
{
    if j <= 0 {
        Seq::empty()
    } else if j == 1 {
        note_at(reg, ms, c, 0)
    } else {
        footer_upto(reg, ms, c, j - 1) + "\n\n"@ + note_at(reg, ms, c, j - 1)
    }
}

/// Every marker's target id is configured.
pub open spec fn all_resolved(reg: Seq<(Seq<char>, TargetView)>, ms: Seq<MarkerView>) -> bool {
    forall|j: int| 0 <= j < ms.len() ==> find_target(reg, (#[trigger] ms[j]).target) >= 0
}

/// The first marker whose target id is not configured, or -1.
pub open spec fn first_unresolved(
    reg: Seq<(Seq<char>, TargetView)>,
    ms: Seq<MarkerView>,
) -> int
    decreases ms.len(),
{
    if ms.len() == 0 {
        -1
    } else if find_target(reg, ms[0].target) < 0 {
        0
    } else {
        let r = first_unresolved(reg, ms.drop_first());
        if r < 0 {
            -1
        } else {
            r + 1
        }
    }
}

pub proof fn lemma_first_unresolved(
    reg: Seq<(Seq<char>, TargetView)>,
    ms: Seq<MarkerView>,
    i: int,
)
    requires
        0 <= i <= ms.len(),
        forall|j: int| 0 <= j < i ==> find_target(reg, (#[trigger] ms[j]).target) >= 0,
        i < ms.len() ==> find_target(reg, ms[i].target) < 0,
    ensures
        first_unresolved(reg, ms) == if i < ms.len() {
            i
        } else {
            -1
        },
        i == ms.len() ==> all_resolved(reg, ms),
    decreases i, ms.len(),
{
    if ms.len() == 0 {
    } else if i == 0 {
    } else {
        lemma_first_unresolved(reg, ms.drop_first(), i - 1);
    }
}

pub proof fn lemma_first_unresolved_hit(
    reg: Seq<(Seq<char>, TargetView)>,
    ms: Seq<MarkerView>,
)
    ensures
        -1 <= first_unresolved(reg, ms) < ms.len(),
        first_unresolved(reg, ms) >= 0 ==> find_target(
            reg,
            ms[first_unresolved(reg, ms)].target,
        ) < 0,
    decreases ms.len(),
{
    if ms.len() != 0 && find_target(reg, ms[0].target) >= 0 {
        lemma_first_unresolved_hit(reg, ms.drop_first());
        let r = first_unresolved(reg, ms.drop_first());
        if r >= 0 {
            assert(ms.drop_first()[r] == ms[r + 1]);
        }
    }
}

/// The transformed chapter content after the trace pass: every marker
/// replaced by its anchor and reference, then (when markers exist) the
/// footnote block, preceded by a horizontal divider when configured.
#[verifier::opaque]
pub open spec fn traced_content(
    s: Seq<char>,
    reg: Seq<(Seq<char>, TargetView)>,
    c: ScanCtx,
    divider: bool,
) -> Seq<char> {
    let ms = scan_traces(s, 0);
    let body = spliced(s, ms, trace_reps(ms, c));
    if ms.len() == 0 {
        body
    } else {
        body + (if divider {
            "\n\n---\n\n"@
        } else {
            "\n\n"@
        }) + footer_upto(reg, ms, c, ms.len() as int)
    }
}

/// The in-place replacement for the `j`-th matrix marker: the rendered table
/// of its resolved target.
pub open spec fn matrix_reps(
    reg: Seq<(Seq<char>, TargetView)>,
    ms: Seq<MarkerView>,
    rh: Seq<char>,
    th: Seq<char>,
) -> Seq<Seq<char>> {
    Seq::new(ms.len(), |j: int| matrix_text(reg[find_target(reg, ms[j].target)].1, rh, th))
}

/// The transformed chapter content after the matrix pass: every matrix marker
/// replaced by its target's table.
#[verifier::opaque]
pub open spec fn tabled_content(
    s: Seq<char>,
    reg: Seq<(Seq<char>, TargetView)>,
    rh: Seq<char>,
    th: Seq<char>,
) -> Seq<char> {
    let ms = scan_matrices(s, 0);
    spliced(s, ms, matrix_reps(reg, ms, rh, th))
}

/// The first newline at or after `i`, or -1.
pub open spec fn find_nl(s: Seq<char>, i: int) -> int
    decreases s.len() - i,
{
    if i < 0 || i >= s.len() {
        -1
    } else if s[i] == '\n' {
        i
    } else {
        find_nl(s, i + 1)
    }
}

pub proof fn lemma_find_nl_bounds(s: Seq<char>, i: int)
    requires
        0 <= i,
    ensures
        find_nl(s, i) == -1 || (i <= find_nl(s, i) < s.len()),
    decreases s.len() - i,
{
    if 0 <= i < s.len() && s[i] != '\n' {
        lemma_find_nl_bounds(s, i + 1);
    }
}

/// A top-level heading at `i`: `#` at content start or right after a newline,
/// one or more whitespace, then the title running to the end of the line.
/// Yields the title's bounds.
pub open spec fn heading_at(s: Seq<char>, i: int) -> Option<(int, int)> {
    if 0 <= i < s.len() && s[i] == '#' && (i == 0 || s[i - 1] == '\n') {
        let w = crate::scan::ws_end(s, i + 1);
        if w == i + 1 {
            None
        } else {
            let nl = find_nl(s, w);
            if nl < 0 {
                None
            } else {
                Some((w, nl))
            }
        }
    } else {
        None
    }
}

/// The first position carrying a top-level heading, or -1.
pub open spec fn find_heading(s: Seq<char>, i: int) -> int
    decreases s.len() - i,
{
    if i < 0 || i >= s.len() {
        -1
    } else if heading_at(s, i) is Some {
        i
    } else {
        find_heading(s, i + 1)
    }
}

/// The chapter number as heading text: every segment followed by a dot.
pub open spec fn heading_number_upto(prefix: Seq<u32>, k: int) -> Seq<char>
    decreases k,
{
    if k <= 0 {
        Seq::empty()
    } else {
        heading_number_upto(prefix, k - 1) + crate::chars::dec_seq(prefix[k - 1] as nat)
            + seq!['.']
    }
}

/// The content with its first top-level heading rewritten to carry the
/// chapter number; content without a heading is unchanged.
pub open spec fn numbered_content(s: Seq<char>, prefix: Seq<u32>) -> Seq<char> {
    let h = find_heading(s, 0);
    if h < 0 {
        s
    } else {
        let t = heading_at(s, h)->Some_0;
        let rstart: int = if h == 0 {
            0
        } else {
            h - 1
        };
        s.subrange(0, rstart) + "\n# "@ + heading_number_upto(prefix, prefix.len() as int) + " "@
            + s.subrange(t.0, t.1) + "\n\n"@ + s.subrange(t.1 + 1, s.len() as int)
    }
}

/// The trace registry with its configuration: seeded from the configured
/// targets, populated during pass 1, queried during pass 2.
pub struct Traceable {
    pub config: Config,
    pub targets: Vec<(String, Target)>,
}

impl Traceable {
    /// The registry view: id/target pairs, in configuration order.
    pub open spec fn reg(&self) -> Seq<(Seq<char>, TargetView)> {
        reg_view(self.targets@)
    }

    /// Target ids are unique and every target is well formed.
    pub open spec fn wf(&self) -> bool {
        reg_wf(self.reg())
    }

    /// Seeds the registry: one empty target per configured id, under the
    /// configured display name.
    pub fn new(config: Config) -> (t: Traceable)
        requires
            config.wf(),
        ensures
            t.config == config,
            t.wf(),
            t.reg().len() == config.targets@.len(),
            forall|i: int|
                0 <= i < t.reg().len() ==> (#[trigger] t.reg()[i]).0 == config.target_ids()[i]
                    && t.reg()[i].1 == (TargetView {
                    name: config.targets@[i].1.name@,
                    records: Seq::<crate::registry::RecordView>::empty(),
                }),
    {
        let mut targets: Vec<(String, Target)> = Vec::new();
        let mut i: usize = 0;
        while i < config.targets.len()
            invariant
                i <= config.targets@.len(),
                targets@.len() == i,
                forall|j: int|
                    0 <= j < i ==> (#[trigger] targets@[j]).0@ == config.targets@[j].0@
                        && targets@[j].1@ == (TargetView {
                        name: config.targets@[j].1.name@,
                        records: Seq::<crate::registry::RecordView>::empty(),
                    }),
            decreases config.targets@.len() - i,
        {
            let id = config.targets[i].0.clone();
            let target = Target::new(config.targets[i].1.name.as_str());
            targets.push((id, target));
            i += 1;
        }
        let t = Traceable { config, targets };
        proof {
            assert forall|i2: int, j2: int|
                0 <= i2 < j2 < t.reg().len() implies (#[trigger] t.reg()[i2]).0 != (
            #[trigger] t.reg()[j2]).0 by {
                assert(t.config.target_ids()[i2] != t.config.target_ids()[j2]);
            }
        }
        t
    }

    /// The name this preprocessor registers under.
    pub fn name(&self) -> (r: &str)
        ensures
            r@ == "trace-preprocessor"@,
    {
        "trace-preprocessor"
    }

    /// Every renderer is supported but the sentinel `not-supported`.
    pub fn supports_renderer(&self, renderer: &str) -> (r: bool)
        ensures
            r == (renderer@ != "not-supported"@),
    {
        !str_eq(renderer, "not-supported")
    }

    /// The registry index of target `id`, resolved as `find_target` does.
    fn target_index(&self, id: &Vec<char>) -> (r: Option<usize>)
        ensures
            match r {
                Some(i) => find_target(self.reg(), id@) == i && i < self.targets@.len(),
                None => find_target(self.reg(), id@) == -1,
            },
    {
        let mut i: usize = 0;
        while i < self.targets.len()
            invariant
                i <= self.targets@.len(),
                forall|j: int| 0 <= j < i ==> (#[trigger] self.reg()[j]).0 != id@,
            decreases self.targets@.len() - i,
        {
            if vec_str_eq(id, self.targets[i].0.as_str()) {
                proof {
                    assert(self.reg()[i as int].0 == id@);
                    lemma_find_target(self.reg(), id@, i as int);
                }
                return Some(i);
            }
            i += 1;
        }
        proof {
            lemma_find_target(self.reg(), id@, self.reg().len() as int);
        }
        None
    }

    /// The first marker whose target id is not configured, if any.
    fn first_bad_target(&self, ms: &Vec<Marker>) -> (r: Option<usize>)
        ensures
            match r {
                Some(i) => i < ms@.len() && first_unresolved(self.reg(), markers_view(ms@))
                    == i,
                None => all_resolved(self.reg(), markers_view(ms@)),
            },
    {
        let ghost msv = markers_view(ms@);
        let mut j: usize = 0;
        while j < ms.len()
            invariant
                j <= ms.len(),
                msv == markers_view(ms@),
                forall|k: int| 0 <= k < j ==> find_target(self.reg(), (#[trigger] msv[k]).target) >= 0,
            decreases ms.len() - j,
        {
            proof {
                assert(msv[j as int] == ms@[j as int]@);
            }
            if self.target_index(&ms[j].target).is_none() {
                proof {
                    lemma_first_unresolved(self.reg(), msv, j as int);
                }
                return Some(j);
            }
            j += 1;
        }
        proof {
            lemma_first_unresolved(self.reg(), msv, msv.len() as int);
        }
        None
    }

    /// Pass 1 for one chapter: scans the trace markers left to right, numbers
    /// each by the configured policy (occurrence counts starting at 1 per
    /// chapter), registers a trace per marker under its target and record,
    /// replaces every marker by its inline anchor and reference, and appends
    /// the footnote block. A marker naming an unconfigured target id aborts
    /// with `UnknownTarget` and leaves chapter and registry untouched.
    #[verifier::rlimit(100)]
    pub fn generate_traces(&mut self, chapter: &mut Chapter) -> (r: Result<(), TraceError>)
        requires
            old(self).wf(),
            old(chapter)@.content.len() + old(chapter)@.sub_count <= u32::MAX as nat,
        ensures
            final(self).config == old(self).config,
            final(self).wf(),
            final(chapter)@.number == old(chapter)@.number,
            final(chapter)@.sub_count == old(chapter)@.sub_count,
            final(chapter)@.path == old(chapter)@.path,
            ({
                let s = old(chapter)@.content;
                let ms = scan_traces(s, 0);
                let c = chapter_ctx(old(self).config, old(chapter)@);
                match r {
                    Ok(()) => all_resolved(old(self).reg(), ms) && final(self).reg() == regs_after(
                        old(self).reg(),
                        ms,
                        c,
                        ms.len() as int,
                    ) && final(chapter)@.content == traced_content(
                        s,
                        old(self).reg(),
                        c,
                        old(self).config.footnote_divider,
                    ),
                    Err(e) => ({
                        let j = first_unresolved(old(self).reg(), ms);
                        &&& j >= 0
                        &&& e matches TraceError::UnknownTarget { id } && id@ == ms[j].target
                        &&& final(self).reg() == old(self).reg()
                        &&& final(chapter)@ == old(chapter)@
                    }),
                }
            }),
    {
        let chars = chars_of(chapter.content.as_str());
        let ms = scan_traces_exec(&chars);
        let ghost msv = markers_view(ms@);
        let ghost reg0 = self.reg();
        let ghost c = chapter_ctx(self.config, chapter@);
        proof {
            lemma_scan_traces_wf(chars@, 0);
        }
        // Resolve every target first: the whole run aborts on the first
        // marker whose target id is not configured, before any substitution.
        if let Some(bad) = self.first_bad_target(&ms) {
            proof {
                assert(msv[bad as int] == ms@[bad as int]@);
            }
            return Err(TraceError::UnknownTarget { id: string_from_chars(&ms[bad].target) });
        }
        let prefix: Vec<u32> = match &chapter.number {
            Some(n) => clone_u32_vec(n),
            None => Vec::new(),
        };
        let subs: u32 = chapter.sub_count as u32;
        proof {
            assert(prefix@ == c.prefix);
            assert(subs == c.subs);
        }
        let mut out: Vec<char> = Vec::new();
        let mut footer: Vec<char> = Vec::new();
        let mut pos: usize = 0;
        let mut j: usize = 0;
        proof {
            assert(out@ =~= spliced_upto(chars@, msv, trace_reps(msv, c), 0));
        }
        while j < ms.len()
            invariant
                j <= ms.len(),
                msv == markers_view(ms@),
                msv.len() <= chars@.len(),
                chars@ == old(chapter)@.content,
                chars@.len() + old(chapter)@.sub_count <= u32::MAX as nat,
                markers_wf(msv, 0, chars@.len() as int),
                all_resolved(reg0, msv),
                reg_wf(reg0),
                prefix@ == c.prefix,
                subs == c.subs,
                c == chapter_ctx(old(self).config, old(chapter)@),
                chapter.content == old(chapter).content,
                chapter.number == old(chapter).number,
                chapter.sub_count == old(chapter).sub_count,
                chapter.path == old(chapter).path,
                self.config == old(self).config,
                self.reg() == regs_after(reg0, msv, c, j as int),
                pos == prev_end(msv, j as int),
                pos <= chars@.len(),
                out@ == spliced_upto(chars@, msv, trace_reps(msv, c), j as int),
                footer@ == footer_upto(reg0, msv, c, j as int),
            decreases ms.len() - j,
        {
            proof {
                assert(msv[j as int] == ms@[j as int]@);
                if j > 0 {
                    assert(msv[j as int - 1].end <= msv[j as int].start);
                }
                lemma_regs_after_props(reg0, msv, c, j as int);
            }
            let start = ms[j].start;
            let end = ms[j].end;
            push_range(&mut out, &chars, pos, start);
            let count: u32 = (j as u32) + 1;
            let number = number_for(self.config.parent_numbering, &prefix, count, subs);
            let path: Option<String> = match &chapter.path {
                Some(p) => Some(p.clone()),
                None => None,
            };
            let trace = Trace::new(path, number, self.config.qualified_footnotes);
            proof {
                assert(trace@ =~= marker_trace(c, j as int));
            }
            let ghost prev = self.reg();
            let ti = match self.target_index(&ms[j].target) {
                Some(ti) => ti,
                None => {
                    proof {
                        lemma_find_target_equiv(prev, reg0, msv[j as int].target);
                        assert(find_target(reg0, msv[j as int].target) >= 0);
                    }
                    unreached()
                },
            };
            proof {
                lemma_find_target_equiv(prev, reg0, msv[j as int].target);
            }
            let rec_string = string_from_chars(&ms[j].record);
            let pair = self.targets.remove(ti);
            let (tid, mut tgt) = pair;
            let ghost tgt0 = tgt@;
            proof {
                assert(tgt0 == prev[ti as int].1);
                assert(prev[ti as int].1.wf());
            }
            tgt.add_trace(rec_string.as_str(), trace.clone());
            proof {
                lemma_target_insert_contains(tgt0, rec_string@, trace@);
                lemma_target_insert_wf(tgt0, rec_string@, trace@);
            }
            let fr = tgt.footnote(&trace);
            self.targets.insert(ti, (tid, tgt));
            proof {
                assert(self.reg() =~= prev.update(
                    ti as int,
                    (prev[ti as int].0, target_insert(prev[ti as int].1, rec_string@, trace@)),
                ));
                assert(self.reg() == reg_insert(
                    prev,
                    msv[j as int].target,
                    msv[j as int].record,
                    marker_trace(c, j as int),
                ));
                assert(self.reg() == regs_after(reg0, msv, c, j as int + 1));
            }
            let note = match fr {
                Some((_link, note)) => note,
                None => unreached(),
            };
            proof {
                lemma_reg_insert_props(
                    prev,
                    msv[j as int].target,
                    msv[j as int].record,
                    marker_trace(c, j as int),
                );
                lemma_find_target_equiv(self.reg(), prev, msv[j as int].target);
                assert(find_target(self.reg(), msv[j as int].target) == ti);
                assert(self.reg()[ti as int].1 == target_insert(tgt0, rec_string@, trace@));
                assert(note@ == note_at(reg0, msv, c, j as int));
            }
            push_anchor(&mut out, &trace);
            push_reference(&mut out, &trace);
            proof {
                assert(trace_reps(msv, c)[j as int] == anchor_text(marker_trace(c, j as int))
                    + reference_text(marker_trace(c, j as int)));
                assert(out@ =~= spliced_upto(chars@, msv, trace_reps(msv, c), j as int + 1));
            }
            if j > 0 {
                push_str_chars(&mut footer, "\n\n");
            }
            push_str_chars(&mut footer, note.as_str());
            proof {
                assert(footer@ =~= footer_upto(reg0, msv, c, j as int + 1));
            }
            pos = end;
            j += 1;
        }
        push_range(&mut out, &chars, pos, chars.len());
        proof {
            lemma_regs_after_props(reg0, msv, c, msv.len() as int);
            assert(out@ == spliced(chars@, msv, trace_reps(msv, c)));
        }
        if ms.len() > 0 {
            if self.config.footnote_divider {
                push_str_chars(&mut out, "\n\n---\n\n");
            } else {
                push_str_chars(&mut out, "\n\n");
            }
            push_range(&mut out, &footer, 0, footer.len());
            proof {
                assert(footer@.subrange(0, footer@.len() as int) =~= footer@);
            }
        }
        chapter.content = string_from_chars(&out);
        proof {
            reveal(traced_content);
            assert(final(chapter)@.content == traced_content(
                old(chapter)@.content,
                reg0,
                c,
                old(self).config.footnote_divider,
            ));
        }
        Ok(())
    }

    /// Pass 2 for one chapter: replaces every matrix marker by the rendered
    /// table of its target, against the registry populated by pass 1 over the
    /// whole tree. A marker naming an unconfigured target id aborts with
    /// `UnknownTarget` and leaves the chapter untouched.
    pub fn generate_tables(&self, chapter: &mut Chapter) -> (r: Result<(), TraceError>)
        ensures
            final(chapter)@.number == old(chapter)@.number,
            final(chapter)@.sub_count == old(chapter)@.sub_count,
            final(chapter)@.path == old(chapter)@.path,
            ({
                let s = old(chapter)@.content;
                let ms = scan_matrices(s, 0);
                match r {
                    Ok(()) => all_resolved(self.reg(), ms) && final(chapter)@.content
                        == tabled_content(
                        s,
                        self.reg(),
                        self.config.record_heading@,
                        self.config.trace_heading@,
                    ),
                    Err(e) => ({
                        let j = first_unresolved(self.reg(), ms);
                        &&& j >= 0
                        &&& e matches TraceError::UnknownTarget { id } && id@ == ms[j].target
                        &&& final(chapter)@ == old(chapter)@
                    }),
                }
            }),
    {
        let chars = chars_of(chapter.content.as_str());
        let ms = scan_matrices_exec(&chars);
        let ghost msv = markers_view(ms@);
        proof {
            lemma_scan_matrices_wf(chars@, 0);
        }
        if let Some(bad) = self.first_bad_target(&ms) {
            proof {
                assert(msv[bad as int] == ms@[bad as int]@);
            }
            return Err(TraceError::UnknownTarget { id: string_from_chars(&ms[bad].target) });
        }
        let ghost reps = matrix_reps(
            self.reg(),
            msv,
            self.config.record_heading@,
            self.config.trace_heading@,
        );
        let mut out: Vec<char> = Vec::new();
        let mut pos: usize = 0;
        let mut j: usize = 0;
        proof {
            assert(out@ =~= spliced_upto(chars@, msv, reps, 0));
        }
        while j < ms.len()
            invariant
                j <= ms.len(),
                msv == markers_view(ms@),
                chars@ == old(chapter)@.content,
                markers_wf(msv, 0, chars@.len() as int),
                all_resolved(self.reg(), msv),
                reps == matrix_reps(
                    self.reg(),
                    msv,
                    self.config.record_heading@,
                    self.config.trace_heading@,
                ),
                chapter.content == old(chapter).content,
                chapter.number == old(chapter).number,
                chapter.sub_count == old(chapter).sub_count,
                chapter.path == old(chapter).path,
                pos == prev_end(msv, j as int),
                pos <= chars@.len(),
                out@ == spliced_upto(chars@, msv, reps, j as int),
            decreases ms.len() - j,
        {
            proof {
                assert(msv[j as int] == ms@[j as int]@);
                if j > 0 {
                    let k = j - 1;
                    assert(msv[k as int].end <= msv[k as int + 1].start);
                }
            }
            push_range(&mut out, &chars, pos, ms[j].start);
            let ti = match self.target_index(&ms[j].target) {
                Some(t) => t,
                None => {
                    proof {
                        assert(find_target(self.reg(), msv[j as int].target) >= 0);
                    }
                    unreached()
                },
            };
            let mstr = self.targets[ti].1.matrix(
                self.config.record_heading.as_str(),
                self.config.trace_heading.as_str(),
            );
            push_str_chars(&mut out, mstr.as_str());
            proof {
                assert(self.reg()[ti as int].1 == self.targets@[ti as int].1@);
                assert(reps[j as int] == matrix_text(
                    self.reg()[ti as int].1,
                    self.config.record_heading@,
                    self.config.trace_heading@,
                ));
                assert(out@ =~= spliced_upto(chars@, msv, reps, j as int + 1));
            }
            pos = ms[j].end;
            j += 1;
        }
        push_range(&mut out, &chars, pos, chars.len());
        chapter.content = string_from_chars(&out);
        proof {
            reveal(tabled_content);
            assert(final(chapter)@.content == tabled_content(
                old(chapter)@.content,
                self.reg(),
                self.config.record_heading@,
                self.config.trace_heading@,
            ));
        }
        Ok(())
    }

    /// Rewrites the chapter's first top-level heading to carry the chapter's
    /// hierarchical number; a chapter without a number is left unchanged.
    pub fn number_headings(&self, chapter: &mut Chapter)
        ensures
            final(chapter)@.content == match old(chapter)@.number {
                Some(p) => numbered_content(old(chapter)@.content, p),
                None => old(chapter)@.content,
            },
            final(chapter)@.number == old(chapter)@.number,
            final(chapter)@.sub_count == old(chapter)@.sub_count,
            final(chapter)@.path == old(chapter)@.path,
    {
        let num: Vec<u32> = match &chapter.number {
            Some(n) => clone_u32_vec(n),
            None => {
                return ;
            },
        };
        let chars = chars_of(chapter.content.as_str());
        match find_heading_exec(&chars) {
            None => {},
            Some((h, w, nl)) => {
                let mut out: Vec<char> = Vec::new();
                let clen = chars.len();
                assert(nl < clen);
                let rstart: usize = if h == 0 {
                    0
                } else {
                    h - 1
                };
                push_range(&mut out, &chars, 0, rstart);
                push_str_chars(&mut out, "\n# ");
                let mut k: usize = 0;
                let ghost mid = out@;
                while k < num.len()
                    invariant
                        k <= num@.len(),
                        out@ == mid + heading_number_upto(num@, k as int),
                    decreases num@.len() - k,
                {
                    crate::chars::push_dec(&mut out, num[k]);
                    out.push('.');
                    k += 1;
                    assert(out@ =~= mid + heading_number_upto(num@, k as int));
                }
                push_str_chars(&mut out, " ");
                push_range(&mut out, &chars, w, nl);
                push_str_chars(&mut out, "\n\n");
                push_range(&mut out, &chars, nl + 1, chars.len());
                chapter.content = string_from_chars(&out);
                proof {
                    assert(final(chapter)@.content =~= numbered_content(
                        old(chapter)@.content,
                        num@,
                    ));
                }
            },
        }
    }
}

/// Finds the first top-level heading: its position and its title bounds.
fn find_heading_exec(s: &Vec<char>) -> (r: Option<(usize, usize, usize)>)
    ensures
        match r {
            Some((h, w, nl)) => find_heading(s@, 0) == h && heading_at(s@, h as int) == Some(
                (w as int, nl as int),
            ) && h < s@.len() && h + 1 <= w <= nl < s@.len(),
            None => find_heading(s@, 0) == -1,
        },
{
    let mut i: usize = 0;
    while i < s.len()
        invariant
            i <= s@.len(),
            find_heading(s@, 0) == find_heading(s@, i as int),
        decreases s@.len() - i,
    {
        match heading_at_exec(s, i) {
            Some((w, nl)) => {
                return Some((i, w, nl));
            },
            None => {
                i += 1;
            },
        }
    }
    None
}

fn heading_at_exec(s: &Vec<char>, i: usize) -> (r: Option<(usize, usize)>)
    requires
        i < s@.len(),
    ensures
        match r {
            Some((w, nl)) => heading_at(s@, i as int) == Some((w as int, nl as int)) && i + 1 <= w
                <= nl < s@.len(),
            None => heading_at(s@, i as int) is None,
        },
{
    let slen = s.len();
    if !(s[i] == '#' && (i == 0 || s[i - 1] == '\n')) {
        return None;
    }
    assert(i < slen);
    let w = crate::scan::ws_end_exec(s, i + 1);
    if w == i + 1 {
        return None;
    }
    match find_nl_exec(s, w) {
        None => None,
        Some(nl) => Some((w, nl)),
    }
}

fn find_nl_exec(s: &Vec<char>, i: usize) -> (r: Option<usize>)
    requires
        i <= s@.len(),
    ensures
        match r {
            Some(nl) => find_nl(s@, i as int) == nl && i <= nl < s@.len(),
            None => find_nl(s@, i as int) == -1,
        },
{
    let mut j = i;
    while j < s.len()
        invariant
            i <= j <= s@.len(),
            find_nl(s@, i as int) == find_nl(s@, j as int),
        decreases s@.len() - j,
    {
        if s[j] == '\n' {
            return Some(j);
        }
        j += 1;
    }
    None
}


/// The chapters of a document tree, as views.
pub open spec fn chapters_view(b: Seq<Chapter>) -> Seq<ChapterView> {
    b.map_values(|c: Chapter| c@)
}

/// The text pass 1 scans: the chapter content, heading-numbered when enabled.
pub open spec fn pass1_scan_text(cfg: Config, cv: ChapterView) -> Seq<char> {
    if cfg.chapter_numbers {
        match cv.number {
            Some(p) => numbered_content(cv.content, p),
            None => cv.content,
        }
    } else {
        cv.content
    }
}

/// The chapter's content after pass 1 against registry `reg`.
#[verifier::opaque]
pub open spec fn pass1_content_of(
    cfg: Config,
    reg: Seq<(Seq<char>, TargetView)>,
    cv: ChapterView,
) -> Seq<char> {
    traced_content(pass1_scan_text(cfg, cv), reg, chapter_ctx(cfg, cv), cfg.footnote_divider)
}

/// The registry after pass 1 of one chapter.
pub open spec fn pass1_reg_of(
    cfg: Config,
    reg: Seq<(Seq<char>, TargetView)>,
    cv: ChapterView,
) -> Seq<(Seq<char>, TargetView)> {
    let s = pass1_scan_text(cfg, cv);
    regs_after(reg, scan_traces(s, 0), chapter_ctx(cfg, cv), scan_traces(s, 0).len() as int)
}

/// The registry after pass 1 of the first `k` chapters.
pub open spec fn pass1_regs_upto(
    cfg: Config,
    reg0: Seq<(Seq<char>, TargetView)>,
    chs: Seq<ChapterView>,
    k: int,
) -> Seq<(Seq<char>, TargetView)>
    decreases k,
{
    if k <= 0 {
        reg0
    } else {
        pass1_reg_of(cfg, pass1_regs_upto(cfg, reg0, chs, k - 1), chs[k - 1])
    }
}

/// Pass 1 keeps the registry's length, ids and names, and keeps it well
/// formed.
pub proof fn lemma_pass1_regs_props(
    cfg: Config,
    reg0: Seq<(Seq<char>, TargetView)>,
    chs: Seq<ChapterView>,
    k: int,
)
    requires
        reg_wf(reg0),
        0 <= k,
    ensures
        ({
            let r2 = pass1_regs_upto(cfg, reg0, chs, k);
            &&& r2.len() == reg0.len()
            &&& forall|i: int|
                0 <= i < reg0.len() ==> (#[trigger] r2[i]).0 == reg0[i].0 && r2[i].1.name
                    == reg0[i].1.name
            &&& reg_wf(r2)
        }),
    decreases k,
{
    if k > 0 {
        lemma_pass1_regs_props(cfg, reg0, chs, k - 1);
        let prev = pass1_regs_upto(cfg, reg0, chs, k - 1);
        let s = pass1_scan_text(cfg, chs[k - 1]);
        lemma_regs_after_props(
            prev,
            scan_traces(s, 0),
            chapter_ctx(cfg, chs[k - 1]),
            scan_traces(s, 0).len() as int,
        );
    }
}

/// The target id on which the run aborts at chapter `k`, if any: the first
/// unresolved trace marker of the chapter's pass-1 scan, else the first
/// unresolved matrix marker of its pass-2 scan; `None` when chapter `k`
/// resolves fully in both passes.
#[verifier::opaque]
pub open spec fn unresolved_id_at(
    cfg: Config,
    reg0: Seq<(Seq<char>, TargetView)>,
    chs: Seq<ChapterView>,
    k: int,
) -> Option<Seq<char>> {
    let regk = pass1_regs_upto(cfg, reg0, chs, k);
    let tms = scan_traces(pass1_scan_text(cfg, chs[k]), 0);
    let tj = first_unresolved(regk, tms);
    if tj >= 0 {
        Some(tms[tj].target)
    } else {
        let reg1 = pass1_regs_upto(cfg, reg0, chs, chs.len() as int);
        let mms = scan_matrices(pass1_content_of(cfg, regk, chs[k]), 0);
        let mj = first_unresolved(reg1, mms);
        if mj >= 0 {
            Some(mms[mj].target)
        } else {
            None
        }
    }
}

/// A pass-1 abort at chapter `k` reports that chapter's first unresolved
/// trace-marker target, an id the configuration does not define.
pub proof fn lemma_pass1_err_id(
    cfg: Config,
    reg0: Seq<(Seq<char>, TargetView)>,
    chs: Seq<ChapterView>,
    k: int,
    id: Seq<char>,
)
    requires
        reg_wf(reg0),
        0 <= k < chs.len(),
        ({
            let regk = pass1_regs_upto(cfg, reg0, chs, k);
            let tms = scan_traces(pass1_scan_text(cfg, chs[k]), 0);
            let tj = first_unresolved(regk, tms);
            tj >= 0 && id == tms[tj].target
        }),
    ensures
        unresolved_id_at(cfg, reg0, chs, k) == Some(id),
        find_target(reg0, id) == -1,
{
    reveal(unresolved_id_at);
    let regk = pass1_regs_upto(cfg, reg0, chs, k);
    let tms = scan_traces(pass1_scan_text(cfg, chs[k]), 0);
    lemma_first_unresolved_hit(regk, tms);
    lemma_pass1_regs_props(cfg, reg0, chs, k);
    lemma_find_target_equiv(regk, reg0, id);
}

/// A pass-2 abort at chapter `k` reports that chapter's first unresolved
/// matrix-marker target, an id the configuration does not define; the
/// chapter's own trace markers all resolved in pass 1.
pub proof fn lemma_pass2_err_id(
    cfg: Config,
    reg0: Seq<(Seq<char>, TargetView)>,
    chs: Seq<ChapterView>,
    k: int,
    id: Seq<char>,
)
    requires
        reg_wf(reg0),
        0 <= k < chs.len(),
        all_resolved(
            pass1_regs_upto(cfg, reg0, chs, k),
            scan_traces(pass1_scan_text(cfg, chs[k]), 0),
        ),
        ({
            let reg1 = pass1_regs_upto(cfg, reg0, chs, chs.len() as int);
            let mms = scan_matrices(
                pass1_content_of(cfg, pass1_regs_upto(cfg, reg0, chs, k), chs[k]),
                0,
            );
            let mj = first_unresolved(reg1, mms);
            mj >= 0 && id == mms[mj].target
        }),
    ensures
        unresolved_id_at(cfg, reg0, chs, k) == Some(id),
        find_target(reg0, id) == -1,
{
    reveal(unresolved_id_at);
    let regk = pass1_regs_upto(cfg, reg0, chs, k);
    let tms = scan_traces(pass1_scan_text(cfg, chs[k]), 0);
    lemma_first_unresolved(regk, tms, tms.len() as int);
    let reg1 = pass1_regs_upto(cfg, reg0, chs, chs.len() as int);
    let mms = scan_matrices(pass1_content_of(cfg, regk, chs[k]), 0);
    lemma_first_unresolved_hit(reg1, mms);
    lemma_pass1_regs_props(cfg, reg0, chs, chs.len() as int);
    lemma_find_target_equiv(reg1, reg0, id);
}

pub open spec fn pow10(d: nat) -> nat
    decreases d,
{
    if d == 0 {
        1
    } else {
        10 * pow10((d - 1) as nat)
    }
}

pub proof fn lemma_dec_seq_len(n: nat, d: nat)
    requires
        d >= 1,
        n < pow10(d),
    ensures
        crate::chars::dec_seq(n).len() <= d,
    decreases d,
{
    if n < 10 {
    } else {
        if d == 1 {
            reveal_with_fuel(pow10, 3);
            assert(pow10(1) == 10);
        }
        assert(pow10(d) == 10 * pow10((d - 1) as nat));
        assert(n / 10 < pow10((d - 1) as nat)) by (nonlinear_arith)
            requires
                n < 10 * pow10((d - 1) as nat),
                n >= 10,
        ;
        lemma_dec_seq_len(n / 10, (d - 1) as nat);
    }
}

pub proof fn lemma_dec_seq_len_u32(n: u32)
    ensures
        crate::chars::dec_seq(n as nat).len() <= 10,
{
    reveal_with_fuel(pow10, 12);
    assert(pow10(10) == 10000000000);
    lemma_dec_seq_len(n as nat, 10);
}

pub proof fn lemma_heading_number_len(p: Seq<u32>, k: int)
    requires
        0 <= k <= p.len(),
    ensures
        heading_number_upto(p, k).len() <= 11 * k,
    decreases k,
{
    if k > 0 {
        lemma_heading_number_len(p, k - 1);
        lemma_dec_seq_len_u32(p[k - 1]);
    }
}

pub proof fn lemma_find_heading_bounds(s: Seq<char>, i: int)
    requires
        0 <= i,
    ensures
        find_heading(s, i) == -1 || (i <= find_heading(s, i) < s.len() && heading_at(
            s,
            find_heading(s, i),
        ) is Some),
    decreases s.len() - i,
{
    if 0 <= i < s.len() && heading_at(s, i) is None {
        lemma_find_heading_bounds(s, i + 1);
    }
}

/// Heading numbering grows the content by at most a few characters per
/// number segment.
pub proof fn lemma_numbered_len(s: Seq<char>, p: Seq<u32>)
    ensures
        numbered_content(s, p).len() <= s.len() + 6 + 11 * p.len(),
{
    lemma_find_heading_bounds(s, 0);
    let h = find_heading(s, 0);
    if h >= 0 {
        let t = heading_at(s, h)->Some_0;
        crate::scan::lemma_ws_end_bounds(s, h + 1);
        let w = crate::scan::ws_end(s, h + 1);
        lemma_find_nl_bounds(s, w);
        let nl = find_nl(s, w);
        lemma_heading_number_len(p, p.len() as int);
        reveal_strlit("\n# ");
        reveal_strlit(" ");
        reveal_strlit("\n\n");
        assert(t.0 == w && t.1 == nl);
        assert(h + 1 <= w <= s.len());
        assert(w <= nl < s.len());
    }
}

impl Traceable {
    /// The whole pipeline over a document tree, chapters in document order:
    /// pass 1 (heading numbering when enabled, then the trace pass) over every
    /// chapter, then pass 2 (matrix tables) over every chapter, so that a
    /// matrix sees the traces of chapters processed after it. The first marker
    /// anywhere whose target id is not configured aborts the run with
    /// `UnknownTarget`, and no output is produced.
    ///
    /// The bounds required of each chapter are machine limits: occurrence
    /// counts and offsets must fit in `u32` even after heading numbering
    /// grows the content, and heading numbers are bounded by nesting depth.
    #[verifier::rlimit(100)]
    pub fn run(&mut self, book: Vec<Chapter>) -> (r: Result<Vec<Chapter>, TraceError>)
        requires
            old(self).wf(),
            forall|k: int|
                0 <= k < book@.len() ==> (#[trigger] book@[k])@.content.len()
                    + book@[k]@.sub_count + 200 <= u32::MAX as nat,
            forall|k: int|
                0 <= k < book@.len() ==> match (#[trigger] book@[k])@.number {
                    Some(p) => p.len() <= 16,
                    None => true,
                },
        ensures
            final(self).config == old(self).config,
            final(self).wf(),
            ({
                let chs = chapters_view(book@);
                let cfg = old(self).config;
                let reg1 = pass1_regs_upto(cfg, old(self).reg(), chs, chs.len() as int);
                match r {
                    Ok(out) => {
                        &&& final(self).reg() == reg1
                        &&& out@.len() == chs.len()
                        &&& forall|k: int|
                            0 <= k < chs.len() ==> all_resolved(
                                pass1_regs_upto(cfg, old(self).reg(), chs, k),
                                scan_traces(pass1_scan_text(cfg, #[trigger] chs[k]), 0),
                            )
                        &&& forall|k: int|
                            0 <= k < chs.len() ==> all_resolved(
                                reg1,
                                scan_matrices(
                                    pass1_content_of(
                                        cfg,
                                        pass1_regs_upto(cfg, old(self).reg(), chs, k),
                                        #[trigger] chs[k],
                                    ),
                                    0,
                                ),
                            )
                        &&& forall|k: int|
                            0 <= k < chs.len() ==> (#[trigger] out@[k])@.content
                                == tabled_content(
                                pass1_content_of(
                                    cfg,
                                    pass1_regs_upto(cfg, old(self).reg(), chs, k),
                                    chs[k],
                                ),
                                reg1,
                                cfg.record_heading@,
                                cfg.trace_heading@,
                            )
                        &&& forall|k: int|
                            0 <= k < chs.len() ==> (#[trigger] out@[k])@.number == chs[k].number
                                && out@[k]@.sub_count == chs[k].sub_count && out@[k]@.path
                                == chs[k].path
                    },
                    Err(e) => ({
                        &&& e matches TraceError::UnknownTarget { id } && (exists|k: int|
                            0 <= k < chs.len() && #[trigger] unresolved_id_at(
                                cfg,
                                old(self).reg(),
                                chs,
                                k,
                            ) == Some(id@)) && find_target(old(self).reg(), id@) == -1
                        &&& final(self).reg().len() == old(self).reg().len()
                        &&& forall|i: int|
                            0 <= i < old(self).reg().len() ==> ((#[trigger] final(self).reg()[i]).0
                                == old(self).reg()[i].0 && final(self).reg()[i].1.name
                                == old(self).reg()[i].1.name)
                    }),
                }
            }),
    {
        let ghost chs = chapters_view(book@);
        let ghost reg0 = self.reg();
        let ghost cfg = self.config;
        let mut tree = book;
        let mut k: usize = 0;
        while k < tree.len()
            invariant
                k <= tree@.len(),
                tree@.len() == chs.len(),
                chs == chapters_view(book@),
                self.config == old(self).config,
                cfg == old(self).config,
                reg0 == old(self).reg(),
                reg_wf(reg0),
                self.wf(),
                self.reg() == pass1_regs_upto(cfg, reg0, chs, k as int),
                forall|i: int| k <= i < chs.len() ==> (#[trigger] tree@[i])@ == chs[i],
                forall|i: int|
                    0 <= i < k ==> (#[trigger] tree@[i])@.content == pass1_content_of(
                        cfg,
                        pass1_regs_upto(cfg, reg0, chs, i),
                        chs[i],
                    ) && tree@[i]@.number == chs[i].number && tree@[i]@.sub_count
                        == chs[i].sub_count && tree@[i]@.path == chs[i].path,
                forall|i: int|
                    0 <= i < k ==> all_resolved(
                        pass1_regs_upto(cfg, reg0, chs, i),
                        scan_traces(pass1_scan_text(cfg, #[trigger] chs[i]), 0),
                    ),
                forall|i: int|
                    0 <= i < chs.len() ==> (#[trigger] chs[i]).content.len() + chs[i].sub_count
                        + 200 <= u32::MAX as nat,
                forall|i: int|
                    0 <= i < chs.len() ==> match (#[trigger] chs[i]).number {
                        Some(p) => p.len() <= 16,
                        None => true,
                    },
            decreases tree@.len() - k,
        {
            let ghost regk = self.reg();
            let ghost tree_pre = tree@;
            let mut ch = tree.remove(k);
            proof {
                assert(ch@ == chs[k as int]);
            }
            if self.config.chapter_numbers {
                self.number_headings(&mut ch);
            }
            proof {
                assert(ch@.content == pass1_scan_text(cfg, chs[k as int]));
                match chs[k as int].number {
                    Some(p) => {
                        if cfg.chapter_numbers {
                            lemma_numbered_len(chs[k as int].content, p);
                        }
                    },
                    None => {},
                }
                assert(ch@.content.len() + ch@.sub_count <= u32::MAX as nat);
            }
            let res = self.generate_traces(&mut ch);
            let ghost chv2 = ch@;
            tree.insert(k, ch);
            proof {
                assert forall|i: int| 0 <= i < chs.len() && i != k implies (#[trigger] tree@[i])
                    == tree_pre[i] by {
                    assert(tree@ == tree_pre.remove(k as int).insert(k as int, tree@[k as int]));
                }
                assert(tree@[k as int]@ == chv2);
            }
            match res {
                Ok(()) => {
                    proof {
                        reveal(pass1_content_of);
                        let ctx2 = chapter_ctx(cfg, chs[k as int]);
                        assert(chapter_ctx(cfg, ChapterView {
                            content: pass1_scan_text(cfg, chs[k as int]),
                            number: chs[k as int].number,
                            sub_count: chs[k as int].sub_count,
                            path: chs[k as int].path,
                        }) == ctx2);
                        assert(self.reg() == pass1_regs_upto(cfg, reg0, chs, k as int + 1));
                        assert(chv2.content == pass1_content_of(cfg, regk, chs[k as int]));
                    }
                    k += 1;
                },
                Err(e) => {
                    proof {
                        lemma_pass1_regs_props(cfg, reg0, chs, k as int);
                        match &e {
                            TraceError::UnknownTarget { id } => {
                                lemma_pass1_err_id(cfg, reg0, chs, k as int, id@);
                                assert(unresolved_id_at(cfg, reg0, chs, k as int) == Some(id@));
                                assert(exists|k2: int|
                                    0 <= k2 < chs.len() && #[trigger] unresolved_id_at(
                                        cfg,
                                        reg0,
                                        chs,
                                        k2,
                                    ) == Some(id@));
                            },
                        }
                        assert(self.reg().len() == reg0.len());
                        assert forall|i: int|
                            0 <= i < reg0.len() implies ((#[trigger] self.reg()[i]).0
                            == reg0[i].0 && self.reg()[i].1.name == reg0[i].1.name) by {}
                    }
                    return Err(e);
                },
            }
        }
        let ghost reg1 = self.reg();
        proof {
            lemma_pass1_regs_props(cfg, reg0, chs, chs.len() as int);
        }
        let res = self.render_tables(tree, Ghost(chs), Ghost(reg0));
        match res {
            Ok(out) => Ok(out),
            Err(e) => {
                proof {
                    assert(self.reg().len() == reg0.len());
                    assert forall|i: int|
                        0 <= i < reg0.len() implies ((#[trigger] self.reg()[i]).0 == reg0[i].0
                        && self.reg()[i].1.name == reg0[i].1.name) by {}
                }
                Err(e)
            },
        }
    }

    /// Pass 2 over the whole tree: replaces each chapter's matrix markers by
    /// tables over the registry that pass 1 populated over every chapter.
    #[verifier::rlimit(100)]
    fn render_tables(
        &self,
        tree: Vec<Chapter>,
        Ghost(chs): Ghost<Seq<ChapterView>>,
        Ghost(reg0): Ghost<Seq<(Seq<char>, TargetView)>>,
    ) -> (r: Result<Vec<Chapter>, TraceError>)
        requires
            reg_wf(reg0),
            self.wf(),
            self.reg() == pass1_regs_upto(self.config, reg0, chs, chs.len() as int),
            tree@.len() == chs.len(),
            forall|i: int|
                0 <= i < chs.len() ==> (#[trigger] tree@[i])@.number == chs[i].number
                    && tree@[i]@.sub_count == chs[i].sub_count && tree@[i]@.path == chs[i].path,
            forall|i: int|
                0 <= i < chs.len() ==> (#[trigger] tree@[i])@.content == pass1_content_of(
                    self.config,
                    pass1_regs_upto(self.config, reg0, chs, i),
                    chs[i],
                ),
            forall|i: int|
                0 <= i < chs.len() ==> all_resolved(
                    pass1_regs_upto(self.config, reg0, chs, i),
                    scan_traces(pass1_scan_text(self.config, #[trigger] chs[i]), 0),
                ),
        ensures
            ({
                let cfg = self.config;
                let reg1 = pass1_regs_upto(cfg, reg0, chs, chs.len() as int);
                match r {
                    Ok(out) => {
                        &&& out@.len() == chs.len()
                        &&& forall|k: int|
                            0 <= k < chs.len() ==> all_resolved(
                                reg1,
                                scan_matrices(
                                    pass1_content_of(
                                        cfg,
                                        pass1_regs_upto(cfg, reg0, chs, k),
                                        #[trigger] chs[k],
                                    ),
                                    0,
                                ),
                            )
                        &&& forall|k: int|
                            0 <= k < chs.len() ==> (#[trigger] out@[k])@.content
                                == tabled_content(
                                pass1_content_of(cfg, pass1_regs_upto(cfg, reg0, chs, k), chs[k]),
                                reg1,
                                cfg.record_heading@,
                                cfg.trace_heading@,
                            )
                        &&& forall|k: int|
                            0 <= k < chs.len() ==> (#[trigger] out@[k])@.number == chs[k].number
                                && out@[k]@.sub_count == chs[k].sub_count && out@[k]@.path
                                == chs[k].path
                    },
                    Err(e) => e matches TraceError::UnknownTarget { id } && (exists|k: int|
                        0 <= k < chs.len() && #[trigger] unresolved_id_at(cfg, reg0, chs, k)
                            == Some(id@)) && find_target(reg0, id@) == -1,
                }
            }),
    {
        let ghost cfg = self.config;
        let ghost reg1 = self.reg();
        let mut tree = tree;
        let mut k: usize = 0;
        while k < tree.len()
            invariant
                k <= tree@.len(),
                tree@.len() == chs.len(),
                cfg == self.config,
                reg_wf(reg0),
                self.wf(),
                self.reg() == reg1,
                reg1 == pass1_regs_upto(cfg, reg0, chs, chs.len() as int),
                forall|i: int|
                    0 <= i < chs.len() ==> (#[trigger] tree@[i])@.number == chs[i].number
                        && tree@[i]@.sub_count == chs[i].sub_count && tree@[i]@.path
                        == chs[i].path,
                forall|i: int|
                    k <= i < chs.len() ==> (#[trigger] tree@[i])@.content == pass1_content_of(
                        cfg,
                        pass1_regs_upto(cfg, reg0, chs, i),
                        chs[i],
                    ),
                forall|i: int|
                    0 <= i < k ==> (#[trigger] tree@[i])@.content == tabled_content(
                        pass1_content_of(cfg, pass1_regs_upto(cfg, reg0, chs, i), chs[i]),
                        reg1,
                        cfg.record_heading@,
                        cfg.trace_heading@,
                    ),
                forall|i: int|
                    0 <= i < chs.len() ==> all_resolved(
                        pass1_regs_upto(cfg, reg0, chs, i),
                        scan_traces(pass1_scan_text(cfg, #[trigger] chs[i]), 0),
                    ),
                forall|i: int|
                    0 <= i < k ==> all_resolved(
                        reg1,
                        scan_matrices(
                            pass1_content_of(
                                cfg,
                                pass1_regs_upto(cfg, reg0, chs, i),
                                #[trigger] chs[i],
                            ),
                            0,
                        ),
                    ),
            decreases tree@.len() - k,
        {
            let ghost tree_pre = tree@;
            let mut ch = tree.remove(k);
            let res = self.generate_tables(&mut ch);
            let ghost chv2 = ch@;
            tree.insert(k, ch);
            proof {
                assert forall|i: int| 0 <= i < chs.len() && i != k implies (#[trigger] tree@[i])
                    == tree_pre[i] by {
                    assert(tree@ == tree_pre.remove(k as int).insert(k as int, tree@[k as int]));
                }
                assert(tree@[k as int]@ == chv2);
            }
            match res {
                Ok(()) => {
                    k += 1;
                },
                Err(e) => {
                    proof {
                        assert(all_resolved(
                            pass1_regs_upto(cfg, reg0, chs, k as int),
                            scan_traces(pass1_scan_text(cfg, chs[k as int]), 0),
                        ));
                        match &e {
                            TraceError::UnknownTarget { id } => {
                                lemma_pass2_err_id(cfg, reg0, chs, k as int, id@);
                                assert(unresolved_id_at(cfg, reg0, chs, k as int) == Some(id@));
                                assert(exists|k2: int|
                                    0 <= k2 < chs.len() && #[trigger] unresolved_id_at(
                                        cfg,
                                        reg0,
                                        chs,
                                        k2,
                                    ) == Some(id@));
                            },
                        }
                    }
                    return Err(e);
                },
            }
        }
        Ok(tree)
    }
}


} // verus!
