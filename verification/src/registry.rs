//! Records and targets: a target is a named collection of records, a record a
//! named collection of unique traces. Insertion is deduplicating; the matrix
//! rendering lists records sorted by name.

use vstd::prelude::*;
use vstd::multiset::Multiset;
use vstd::seq_lib::lemma_multiset_commutative;
use vstd::seq_lib::group_to_multiset_ensures;
use crate::chars::{lex_le, lex_le_str, lemma_lex_total, push_str_chars, string_from_chars};
use crate::trace::{
    Trace, TraceView, trace_eq, link_text, footnote_text, reference_text, push_link,
};

verus! {

/// A named requirement with the set of traces that reference it.
pub struct Record {
    pub name: String,
    pub traces: Vec<Trace>,
}

#[verifier::ext_equal]
pub ghost struct RecordView {
    pub name: Seq<char>,
    pub traces: Seq<TraceView>,
}

pub open spec fn traces_view(ts: Seq<Trace>) -> Seq<TraceView> {
    ts.map_values(|t: Trace| t@)
}

impl View for Record {
    type V = RecordView;

    open spec fn view(&self) -> RecordView {
        RecordView { name: self.name@, traces: traces_view(self.traces@) }
    }
}

impl RecordView {
    /// Traces are unique: duplicates collapse on insertion.
    pub open spec fn wf(self) -> bool {
        forall|i: int, j: int|
            0 <= i < j < self.traces.len() ==> self.traces[i] != self.traces[j]
    }
}

/// Insertion into a record's trace set: a trace already present is dropped.
pub open spec fn record_insert(r: RecordView, t: TraceView) -> RecordView {
    if r.traces.contains(t) {
        r
    } else {
        RecordView { name: r.name, traces: r.traces.push(t) }
    }
}

/// Law: a duplicate trace collapses — inserting a trace the record already
/// holds leaves the record exactly as it was.
pub proof fn lemma_duplicate_trace_collapses(r: RecordView, t: TraceView)
    requires
        r.traces.contains(t),
    ensures
        record_insert(r, t) == r,
{
}

pub proof fn lemma_record_insert_wf(r: RecordView, t: TraceView)
    requires
        r.wf(),
    ensures
        record_insert(r, t).wf(),
        record_insert(r, t).name == r.name,
        record_insert(r, t).traces.contains(t),
{
    if !r.traces.contains(t) {
        let tr = r.traces.push(t);
        assert forall|i: int, j: int| 0 <= i < j < tr.len() implies tr[i] != tr[j] by {
            if j == tr.len() - 1 {
                assert(tr[j] == t);
                assert(tr[i] == r.traces[i]);
                assert(r.traces[i] != t);
            } else {
                assert(tr[i] == r.traces[i]);
                assert(tr[j] == r.traces[j]);
            }
        }
        assert(tr[tr.len() - 1] == t);
        assert(tr.contains(t));
    }
}

impl Clone for Record {
    fn clone(&self) -> (r: Self)
        ensures
            r@ == self@,
    {
        let mut ts: Vec<Trace> = Vec::new();
        let mut i: usize = 0;
        while i < self.traces.len()
            invariant
                i <= self.traces.len(),
                ts@.len() == i,
                forall|j: int| 0 <= j < i ==> ts@[j]@ == self.traces@[j]@,
            decreases self.traces.len() - i,
        {
            ts.push(self.traces[i].clone());
            i += 1;
        }
        let r = Record { name: self.name.clone(), traces: ts };
        proof {
            assert(traces_view(ts@) =~= traces_view(self.traces@));
            assert(r@ =~= self@);
        }
        r
    }
}

impl Record {
    pub fn new(name: &str) -> (r: Record)
        ensures
            r@ == (RecordView { name: name@, traces: Seq::<TraceView>::empty() }),
    {
        let r = Record { name: name.to_owned(), traces: Vec::new() };
        proof {
            assert(r@ =~= RecordView { name: name@, traces: Seq::<TraceView>::empty() });
        }
        r
    }

    /// Whether the record already holds a trace equal to `t`.
    pub fn has_trace(&self, t: &Trace) -> (r: bool)
        ensures
            r == self@.traces.contains(t@),
    {
        let mut i: usize = 0;
        while i < self.traces.len()
            invariant
                i <= self.traces.len(),
                forall|j: int| 0 <= j < i ==> traces_view(self.traces@)[j] != t@,
            decreases self.traces.len() - i,
        {
            if trace_eq(&self.traces[i], t) {
                assert(traces_view(self.traces@)[i as int] == t@);
                return true;
            }
            i += 1;
        }
        false
    }

    /// Adds a trace; an identical trace already present collapses into the
    /// existing entry.
    pub fn add_trace(&mut self, trace: Trace)
        ensures
            final(self)@ == record_insert(old(self)@, trace@),
    {
        if !self.has_trace(&trace) {
            let ghost pre = traces_view(self.traces@);
            self.traces.push(trace);
            proof {
                assert(traces_view(self.traces@) =~= pre.push(trace@));
                assert(final(self)@ =~= record_insert(old(self)@, trace@));
            }
        }
    }

    /// The `link()` rendering of every trace, in stored order.
    pub fn references(&self) -> (r: Vec<String>)
        ensures
            r@.len() == self@.traces.len(),
            forall|i: int| 0 <= i < r@.len() ==> r@[i]@ == link_text(self@.traces[i]),
    {
        let mut r: Vec<String> = Vec::new();
        let mut i: usize = 0;
        while i < self.traces.len()
            invariant
                i <= self.traces.len(),
                r@.len() == i,
                forall|j: int| 0 <= j < i ==> r@[j]@ == link_text(traces_view(self.traces@)[j]),
            decreases self.traces.len() - i,
        {
            r.push(self.traces[i].link());
            i += 1;
        }
        r
    }
}

/// A named traceability table holding records keyed by unique names.
pub struct Target {
    pub name: String,
    pub records: Vec<Record>,
}

#[verifier::ext_equal]
pub ghost struct TargetView {
    pub name: Seq<char>,
    pub records: Seq<RecordView>,
}

pub open spec fn records_view(rs: Seq<Record>) -> Seq<RecordView> {
    rs.map_values(|r: Record| r@)
}

impl View for Target {
    type V = TargetView;

    open spec fn view(&self) -> TargetView {
        TargetView { name: self.name@, records: records_view(self.records@) }
    }
}

impl TargetView {
    /// Record names are unique and every record is well formed.
    pub open spec fn wf(self) -> bool {
        &&& forall|i: int, j: int|
            0 <= i < j < self.records.len() ==> self.records[i].name != self.records[j].name
        &&& forall|i: int| 0 <= i < self.records.len() ==> self.records[i].wf()
    }
}

/// The first index whose record carries `name`, or -1.
pub open spec fn find_rec(rs: Seq<RecordView>, name: Seq<char>) -> int
    decreases rs.len(),
{
    if rs.len() == 0 {
        -1
    } else if rs[0].name == name {
        0
    } else {
        let r = find_rec(rs.drop_first(), name);
        if r < 0 {
            -1
        } else {
            r + 1
        }
    }
}

pub proof fn lemma_find_rec(rs: Seq<RecordView>, name: Seq<char>, i: int)
    requires
        0 <= i <= rs.len(),
        forall|j: int| 0 <= j < i ==> rs[j].name != name,
        i < rs.len() ==> rs[i].name == name,
    ensures
        find_rec(rs, name) == if i < rs.len() {
            i
        } else {
            -1
        },
    decreases i, rs.len(),
{
    if rs.len() == 0 {
    } else if i == 0 {
    } else {
        lemma_find_rec(rs.drop_first(), name, i - 1);
    }
}

pub proof fn lemma_find_rec_bounds(rs: Seq<RecordView>, name: Seq<char>)
    ensures
        -1 <= find_rec(rs, name) < rs.len(),
        find_rec(rs, name) >= 0 ==> rs[find_rec(rs, name)].name == name,
        find_rec(rs, name) == -1 ==> forall|j: int| 0 <= j < rs.len() ==> rs[j].name != name,
    decreases rs.len(),
{
    if rs.len() != 0 && rs[0].name != name {
        lemma_find_rec_bounds(rs.drop_first(), name);
        if find_rec(rs, name) == -1 {
            assert forall|j: int| 0 <= j < rs.len() implies rs[j].name != name by {
                if j > 0 {
                    assert(rs.drop_first()[j - 1] == rs[j]);
                }
            }
        }
    }
}

/// Insertion of a trace under a record name: the named record gains the trace
/// (duplicates collapsing), a missing record is created with it.
pub open spec fn target_insert(tv: TargetView, rname: Seq<char>, t: TraceView) -> TargetView {
    let i = find_rec(tv.records, rname);
    if i >= 0 {
        TargetView {
            name: tv.name,
            records: tv.records.update(i, record_insert(tv.records[i], t)),
        }
    } else {
        TargetView {
            name: tv.name,
            records: tv.records.push(RecordView { name: rname, traces: seq![t] }),
        }
    }
}

pub proof fn lemma_target_insert_wf(tv: TargetView, rname: Seq<char>, t: TraceView)
    requires
        tv.wf(),
    ensures
        target_insert(tv, rname, t).wf(),
        target_insert(tv, rname, t).name == tv.name,
{
    lemma_find_rec_bounds(tv.records, rname);
    let i = find_rec(tv.records, rname);
    let res = target_insert(tv, rname, t);
    if i >= 0 {
        lemma_record_insert_wf(tv.records[i], t);
        assert forall|a: int, b: int|
            0 <= a < b < res.records.len() implies res.records[a].name != res.records[b].name by {
            assert(res.records[a].name == tv.records[a].name);
            assert(res.records[b].name == tv.records[b].name);
        }
        assert forall|a: int| 0 <= a < res.records.len() implies res.records[a].wf() by {
            if a != i {
                assert(res.records[a] == tv.records[a]);
            }
        }
    } else {
        let nr = RecordView { name: rname, traces: seq![t] };
        assert(nr.wf());
        assert forall|a: int, b: int|
            0 <= a < b < res.records.len() implies res.records[a].name != res.records[b].name by {
            if b == res.records.len() - 1 {
                assert(res.records[a] == tv.records[a]);
                assert(res.records[b].name == rname);
            } else {
                assert(res.records[a] == tv.records[a]);
                assert(res.records[b] == tv.records[b]);
            }
        }
        assert forall|a: int| 0 <= a < res.records.len() implies res.records[a].wf() by {
            if a != res.records.len() - 1 {
                assert(res.records[a] == tv.records[a]);
            }
        }
    }
}

/// The first index whose record contains `t`, or -1.
pub open spec fn find_containing(rs: Seq<RecordView>, t: TraceView) -> int
    decreases rs.len(),
{
    if rs.len() == 0 {
        -1
    } else if rs[0].traces.contains(t) {
        0
    } else {
        let r = find_containing(rs.drop_first(), t);
        if r < 0 {
            -1
        } else {
            r + 1
        }
    }
}

pub proof fn lemma_find_containing(rs: Seq<RecordView>, t: TraceView, i: int)
    requires
        0 <= i <= rs.len(),
        forall|j: int| 0 <= j < i ==> !rs[j].traces.contains(t),
        i < rs.len() ==> rs[i].traces.contains(t),
    ensures
        find_containing(rs, t) == if i < rs.len() {
            i
        } else {
            -1
        },
    decreases i, rs.len(),
{
    if rs.len() == 0 {
    } else if i == 0 {
    } else {
        lemma_find_containing(rs.drop_first(), t, i - 1);
    }
}

/// Adjacent rows are in lexicographic order of record name.
pub open spec fn sorted_by_name(s: Seq<RecordView>) -> bool {
    forall|i: int| 0 <= i < s.len() - 1 ==> #[trigger] lex_le(s[i].name, s[i + 1].name)
}

/// Insertion of a record into a name-sorted sequence.
pub open spec fn insert_sorted(r: RecordView, s: Seq<RecordView>) -> Seq<RecordView>
    decreases s.len(),
{
    if s.len() == 0 {
        seq![r]
    } else if lex_le(r.name, s[0].name) {
        seq![r] + s
    } else {
        seq![s[0]] + insert_sorted(r, s.drop_first())
    }
}

/// The records sorted lexicographically by name.
pub open spec fn sort_by_name(s: Seq<RecordView>) -> Seq<RecordView>
    decreases s.len(),
{
    if s.len() == 0 {
        Seq::empty()
    } else {
        insert_sorted(s[0], sort_by_name(s.drop_first()))
    }
}

pub proof fn lemma_insert_sorted(r: RecordView, s: Seq<RecordView>)
    requires
        sorted_by_name(s),
    ensures
        sorted_by_name(insert_sorted(r, s)),
        insert_sorted(r, s).to_multiset() == s.to_multiset().insert(r),
        insert_sorted(r, s).len() == s.len() + 1,
        insert_sorted(r, s)[0] == r || (s.len() > 0 && insert_sorted(r, s)[0] == s[0]),
    decreases s.len(),
{
    broadcast use group_to_multiset_ensures;

    if s.len() == 0 {
        assert(seq![r].to_multiset() =~= s.to_multiset().insert(r));
    } else if lex_le(r.name, s[0].name) {
        let res = seq![r] + s;
        assert forall|i: int| 0 <= i < res.len() - 1 implies #[trigger] lex_le(
            res[i].name,
            res[i + 1].name,
        ) by {
            if i > 0 {
                let k = i - 1;
                assert(res[i] == s[k]);
                assert(res[i + 1] == s[k + 1]);
                assert(lex_le(s[k].name, s[k + 1].name));
            } else {
                assert(res[0] == r);
                assert(res[1] == s[0]);
            }
        }
        lemma_multiset_commutative(seq![r], s);
        assert(res.to_multiset() =~= s.to_multiset().insert(r));
    } else {
        let rest = s.drop_first();
        assert forall|i: int| 0 <= i < rest.len() - 1 implies #[trigger] lex_le(
            rest[i].name,
            rest[i + 1].name,
        ) by {
            assert(rest[i] == s[i + 1]);
            assert(rest[i + 1] == s[i + 2]);
        }
        lemma_insert_sorted(r, rest);
        let ins = insert_sorted(r, rest);
        let res = seq![s[0]] + ins;
        lemma_lex_total(r.name, s[0].name);
        assert forall|i: int| 0 <= i < res.len() - 1 implies #[trigger] lex_le(
            res[i].name,
            res[i + 1].name,
        ) by {
            if i == 0 {
                assert(res[0] == s[0]);
                assert(res[1] == ins[0]);
                if ins[0] == r {
                    assert(lex_le(s[0].name, r.name));
                } else {
                    assert(ins[0] == rest[0]);
                    assert(rest[0] == s[1]);
                    assert(lex_le(s[0].name, s[1].name));
                }
            } else {
                let k = i - 1;
                assert(res[i] == ins[k]);
                assert(res[i + 1] == ins[k + 1]);
                assert(lex_le(ins[k].name, ins[k + 1].name));
            }
        }
        lemma_multiset_commutative(seq![s[0]], ins);
        assert(s.to_multiset() == seq![s[0]].to_multiset().add(rest.to_multiset())) by {
            assert(s =~= seq![s[0]] + rest);
            lemma_multiset_commutative(seq![s[0]], rest);
        }
        assert(res.to_multiset() =~= s.to_multiset().insert(r));
    }
}

/// Law: the matrix row order is sorted — `sort_by_name` yields a sequence
/// sorted lexicographically by record name holding exactly the records given.
pub proof fn lemma_matrix_rows_sorted(s: Seq<RecordView>)
    ensures
        sorted_by_name(sort_by_name(s)),
        sort_by_name(s).to_multiset() == s.to_multiset(),
        sort_by_name(s).len() == s.len(),
    decreases s.len(),
{
    broadcast use group_to_multiset_ensures;

    if s.len() > 0 {
        lemma_matrix_rows_sorted(s.drop_first());
        lemma_insert_sorted(s[0], sort_by_name(s.drop_first()));
        assert(s.to_multiset() == s.drop_first().to_multiset().insert(s[0])) by {
            assert(s =~= seq![s[0]] + s.drop_first());
            lemma_multiset_commutative(seq![s[0]], s.drop_first());
            assert(seq![s[0]].to_multiset() =~= Multiset::<RecordView>::empty().insert(s[0]));
            assert((seq![s[0]] + s.drop_first()).to_multiset() =~= s.drop_first().to_multiset()
                .insert(s[0]));
        }
    }
}

/// The comma-joined `link()` renderings of the first `i` traces.
pub open spec fn links_upto(ts: Seq<TraceView>, i: int) -> Seq<char>
    decreases i,
{
    if i <= 0 {
        Seq::empty()
    } else if i == 1 {
        link_text(ts[0])
    } else {
        links_upto(ts, i - 1) + ", "@ + link_text(ts[i - 1])
    }
}

/// One matrix row: record name, then its trace links comma-joined.
pub open spec fn row_text(r: RecordView) -> Seq<char> {
    "| "@ + r.name + " | "@ + links_upto(r.traces, r.traces.len() as int) + " |"@
}

/// The newline-prefixed rows for the first `i` records.
pub open spec fn rows_upto(rs: Seq<RecordView>, i: int) -> Seq<char>
    decreases i,
{
    if i <= 0 {
        Seq::empty()
    } else {
        rows_upto(rs, i - 1) + "\n"@ + row_text(rs[i - 1])
    }
}

/// The whole matrix: header and separator rows, then one row per record,
/// records sorted lexicographically by name.
pub open spec fn matrix_text(tv: TargetView, rh: Seq<char>, th: Seq<char>) -> Seq<char> {
    let sorted = sort_by_name(tv.records);
    "| "@ + rh + " | "@ + th + " |"@ + "\n"@ + "|--------|--------|"@ + rows_upto(
        sorted,
        sorted.len() as int,
    )
}

pub fn clone_records(rs: &Vec<Record>) -> (r: Vec<Record>)
    ensures
        records_view(r@) == records_view(rs@),
{
    let mut r: Vec<Record> = Vec::new();
    let mut i: usize = 0;
    while i < rs.len()
        invariant
            i <= rs.len(),
            r@.len() == i,
            forall|j: int| 0 <= j < i ==> r@[j]@ == rs@[j]@,
        decreases rs.len() - i,
    {
        r.push(rs[i].clone());
        i += 1;
    }
    proof {
        assert(records_view(r@) =~= records_view(rs@));
    }
    r
}

fn insert_sorted_exec(r: Record, s: Vec<Record>) -> (v: Vec<Record>)
    ensures
        records_view(v@) == insert_sorted(r@, records_view(s@)),
    decreases s@.len(),
{
    let ghost s0 = records_view(s@);
    let mut s = s;
    if s.len() == 0 {
        let mut v: Vec<Record> = Vec::new();
        v.push(r);
        proof {
            assert(records_view(v@) =~= insert_sorted(r@, s0));
        }
        v
    } else if lex_le_str(r.name.as_str(), s[0].name.as_str()) {
        assert(s0[0] == s@[0]@);
        s.insert(0, r);
        proof {
            assert(records_view(s@) =~= seq![r@] + s0);
        }
        s
    } else {
        let first = s.remove(0);
        proof {
            assert(records_view(s@) =~= s0.drop_first());
        }
        let mut v = insert_sorted_exec(r, s);
        let ghost vpre = records_view(v@);
        v.insert(0, first);
        proof {
            assert(records_view(v@) =~= seq![s0[0]] + vpre);
        }
        v
    }
}

fn sort_records_exec(s: Vec<Record>) -> (v: Vec<Record>)
    ensures
        records_view(v@) == sort_by_name(records_view(s@)),
    decreases s@.len(),
{
    let ghost s0 = records_view(s@);
    let mut s = s;
    if s.len() == 0 {
        proof {
            assert(records_view(s@) =~= sort_by_name(s0));
        }
        s
    } else {
        let first = s.remove(0);
        proof {
            assert(records_view(s@) =~= s0.drop_first());
        }
        let rest = sort_records_exec(s);
        insert_sorted_exec(first, rest)
    }
}

fn push_row(out: &mut Vec<char>, r: &Record)
    ensures
        final(out)@ == old(out)@ + row_text(r@),
{
    push_str_chars(out, "| ");
    push_str_chars(out, r.name.as_str());
    push_str_chars(out, " | ");
    let ghost mid = old(out)@ + "| "@ + r@.name + " | "@;
    let mut i: usize = 0;
    while i < r.traces.len()
        invariant
            i <= r.traces.len(),
            mid == old(out)@ + "| "@ + r@.name + " | "@,
            r@.traces.len() == r.traces@.len(),
            out@ == mid + links_upto(r@.traces, i as int),
        decreases r.traces.len() - i,
    {
        if i > 0 {
            push_str_chars(out, ", ");
        }
        assert(r@.traces[i as int] == r.traces@[i as int]@);
        push_link(out, &r.traces[i]);
        i += 1;
        assert(out@ =~= mid + links_upto(r@.traces, i as int));
    }
    push_str_chars(out, " |");
    assert(final(out)@ =~= old(out)@ + row_text(r@));
}

pub proof fn lemma_find_containing_nonneg(rs: Seq<RecordView>, t: TraceView)
    requires
        exists|k: int| 0 <= k < rs.len() && (#[trigger] rs[k]).traces.contains(t),
    ensures
        find_containing(rs, t) >= 0,
    decreases rs.len(),
{
    if !rs[0].traces.contains(t) {
        let k = choose|k: int| 0 <= k < rs.len() && (#[trigger] rs[k]).traces.contains(t);
        assert(rs.drop_first()[k - 1].traces.contains(t));
        lemma_find_containing_nonneg(rs.drop_first(), t);
    }
}

/// After `target_insert`, some record of the target contains the trace.
pub proof fn lemma_target_insert_contains(tv: TargetView, rname: Seq<char>, t: TraceView)
    requires
        tv.wf(),
    ensures
        find_containing(target_insert(tv, rname, t).records, t) >= 0,
{
    lemma_find_rec_bounds(tv.records, rname);
    let i = find_rec(tv.records, rname);
    let res = target_insert(tv, rname, t);
    if i >= 0 {
        lemma_record_insert_wf(tv.records[i], t);
        assert(res.records[i].traces.contains(t));
    } else {
        let li = res.records.len() - 1;
        assert(res.records[li].traces == seq![t]);
        assert(res.records[li].traces[0] == t);
        assert(res.records[li].traces.contains(t));
    }
    lemma_find_containing_nonneg(res.records, t);
}

/// The footnote body for a trace found under a record of a target.
pub open spec fn note_text(t: TraceView, target_name: Seq<char>, record_name: Seq<char>) -> Seq<
    char,
> {
    footnote_text(t) + " "@ + target_name + " "@ + record_name
}

impl Clone for Target {
    fn clone(&self) -> (r: Self)
        ensures
            r@ == self@,
    {
        let mut rs: Vec<Record> = Vec::new();
        let mut i: usize = 0;
        while i < self.records.len()
            invariant
                i <= self.records.len(),
                rs@.len() == i,
                forall|j: int| 0 <= j < i ==> rs@[j]@ == self.records@[j]@,
            decreases self.records.len() - i,
        {
            rs.push(self.records[i].clone());
            i += 1;
        }
        let r = Target { name: self.name.clone(), records: rs };
        proof {
            assert(records_view(rs@) =~= records_view(self.records@));
            assert(r@ =~= self@);
        }
        r
    }
}

impl Target {
    pub fn new(name: &str) -> (r: Target)
        ensures
            r@ == (TargetView { name: name@, records: Seq::<RecordView>::empty() }),
    {
        let r = Target { name: name.to_owned(), records: Vec::new() };
        proof {
            assert(r@ =~= TargetView { name: name@, records: Seq::<RecordView>::empty() });
        }
        r
    }

    /// Adds `trace` to the record named `record`, creating the record on its
    /// first reference.
    pub fn add_trace(&mut self, record: &str, trace: Trace)
        ensures
            final(self)@ == target_insert(old(self)@, record@, trace@),
    {
        let ghost rs0 = records_view(self.records@);
        let mut i: usize = 0;
        while i < self.records.len()
            invariant
                i <= self.records.len(),
                records_view(self.records@) == rs0,
                self@ == old(self)@,
                forall|j: int| 0 <= j < i ==> rs0[j].name != record@,
            decreases self.records.len() - i,
        {
            if crate::chars::str_eq(self.records[i].name.as_str(), record) {
                assert(rs0[i as int].name == record@);
                proof {
                    lemma_find_rec(rs0, record@, i as int);
                }
                let mut rec = self.records.remove(i);
                rec.add_trace(trace);
                self.records.insert(i, rec);
                proof {
                    assert(records_view(self.records@) =~= rs0.update(
                        i as int,
                        record_insert(rs0[i as int], trace@),
                    ));
                    assert(final(self)@ =~= target_insert(old(self)@, record@, trace@));
                }
                return ;
            }
            i += 1;
        }
        proof {
            lemma_find_rec(rs0, record@, rs0.len() as int);
        }
        let mut rec = Record::new(record);
        rec.add_trace(trace);
        proof {
            assert(rec@.traces =~= seq![trace@]);
            assert(rec@ =~= RecordView { name: record@, traces: seq![trace@] });
        }
        self.records.push(rec);
        proof {
            assert(records_view(self.records@) =~= rs0.push(
                RecordView { name: record@, traces: seq![trace@] },
            ));
            assert(final(self)@ =~= target_insert(old(self)@, record@, trace@));
        }
    }

    /// Renders the traceability table: a header of the two given column
    /// headings, a separator row, then one row per record sorted
    /// lexicographically by record name, each listing its trace links.
    pub fn matrix(&self, record_heading: &str, trace_heading: &str) -> (r: String)
        ensures
            r@ == matrix_text(self@, record_heading@, trace_heading@),
    {
        let mut v: Vec<char> = Vec::new();
        push_str_chars(&mut v, "| ");
        push_str_chars(&mut v, record_heading);
        push_str_chars(&mut v, " | ");
        push_str_chars(&mut v, trace_heading);
        push_str_chars(&mut v, " |");
        push_str_chars(&mut v, "\n");
        push_str_chars(&mut v, "|--------|--------|");
        let ghost head = v@;
        let sorted = sort_records_exec(clone_records(&self.records));
        let ghost sv = sort_by_name(self@.records);
        assert(records_view(sorted@) == sv);
        let mut i: usize = 0;
        assert(v@ =~= head + rows_upto(sv, 0));
        while i < sorted.len()
            invariant
                i <= sorted.len(),
                sv == records_view(sorted@),
                v@ == head + rows_upto(sv, i as int),
            decreases sorted.len() - i,
        {
            push_str_chars(&mut v, "\n");
            assert(sv[i as int] == sorted@[i as int]@);
            push_row(&mut v, &sorted[i]);
            i += 1;
            assert(head + rows_upto(sv, i as int) =~= v@);
        }
        proof {
            assert(v@ =~= matrix_text(self@, record_heading@, trace_heading@));
        }
        string_from_chars(&v)
    }

    /// The reference and footnote line for a trace, looked up under the first
    /// record that contains it; `None` when no record does.
    pub fn footnote(&self, trace: &Trace) -> (r: Option<(String, String)>)
        requires
            trace.qualified || trace.number@.len() > 0,
        ensures
            ({
                let i = find_containing(self@.records, trace@);
                if i >= 0 {
                    r matches Some((l, n)) && l@ == reference_text(trace@) && n@ == note_text(
                        trace@,
                        self@.name,
                        self@.records[i].name,
                    )
                } else {
                    r is None
                }
            }),
    {
        let ghost rs0 = records_view(self.records@);
        let mut i: usize = 0;
        while i < self.records.len()
            invariant
                i <= self.records.len(),
                records_view(self.records@) == rs0,
                trace.qualified || trace.number@.len() > 0,
                forall|j: int| 0 <= j < i ==> !rs0[j].traces.contains(trace@),
            decreases self.records.len() - i,
        {
            if self.records[i].has_trace(trace) {
                proof {
                    lemma_find_containing(rs0, trace@, i as int);
                }
                let link = trace.reference();
                let mut v: Vec<char> = Vec::new();
                crate::trace::push_footnote(&mut v, trace);
                push_str_chars(&mut v, " ");
                push_str_chars(&mut v, self.name.as_str());
                push_str_chars(&mut v, " ");
                push_str_chars(&mut v, self.records[i].name.as_str());
                let note = string_from_chars(&v);
                proof {
                    assert(note@ =~= note_text(trace@, self@.name, rs0[i as int].name));
                }
                return Some((link, note));
            }
            i += 1;
        }
        proof {
            lemma_find_containing(rs0, trace@, rs0.len() as int);
        }
        None
    }
}

} // verus!
