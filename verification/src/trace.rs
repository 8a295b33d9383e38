//! A trace: one marker occurrence, identified by its source location, its
//! hierarchical number and its qualification flag, with the four derived
//! renderings (anchor, footnote, inline reference, cross-reference link).

use vstd::prelude::*;
use crate::chars::{
    join_dec, dec_seq, push_join, push_dec, push_str_chars, string_from_chars, chars_of,
};

verus! {

/// One marker occurrence: source location (if any), hierarchical number, and
/// whether visible numbers use the full sequence.
pub struct Trace {
    pub path: Option<String>,
    pub number: Vec<u32>,
    pub qualified: bool,
}

#[verifier::ext_equal]
pub ghost struct TraceView {
    pub path: Option<Seq<char>>,
    pub number: Seq<u32>,
    pub qualified: bool,
}

pub open spec fn opt_str_view(p: Option<String>) -> Option<Seq<char>> {
    match p {
        Some(s) => Some(s@),
        None => None,
    }
}

impl View for Trace {
    type V = TraceView;

    open spec fn view(&self) -> TraceView {
        TraceView {
            path: opt_str_view(self.path),
            number: self.number@,
            qualified: self.qualified,
        }
    }
}

/// The full number sequence joined by underscores: the globally unique part
/// of every anchor and footnote identifier.
pub open spec fn full_id(number: Seq<u32>) -> Seq<char> {
    join_dec(number, '_')
}

/// The identifier a footnote anchors at and a reference links to.
pub open spec fn note_id(number: Seq<u32>) -> Seq<char> {
    "note"@ + full_id(number)
}

/// The identifier an inline anchor declares and a matrix link targets.
pub open spec fn trace_id(number: Seq<u32>) -> Seq<char> {
    "trace"@ + full_id(number)
}

/// The visible number: the whole sequence dot-joined when qualified, else
/// only the last segment.
pub open spec fn visible_number(number: Seq<u32>, qualified: bool) -> Seq<char> {
    if qualified {
        join_dec(number, '.')
    } else {
        dec_seq(number.last() as nat)
    }
}

/// What `Trace::footnote` renders.
pub open spec fn footnote_text(t: TraceView) -> Seq<char> {
    "<a name=\""@ + note_id(t.number) + "\"></a><sup>"@ + visible_number(t.number, t.qualified)
        + "</sup>"@
}

/// What `Trace::reference` renders.
pub open spec fn reference_text(t: TraceView) -> Seq<char> {
    "<a href=\"#"@ + note_id(t.number) + "\"><sup>"@ + visible_number(t.number, t.qualified)
        + "</sup></a>"@
}

/// What `Trace::anchor` renders.
pub open spec fn anchor_text(t: TraceView) -> Seq<char> {
    "<a name=\""@ + trace_id(t.number) + "\"></a>"@
}

/// What `Trace::link` renders: a navigable link to the inline anchor when a
/// source location is known, else the bare qualified number.
pub open spec fn link_text(t: TraceView) -> Seq<char> {
    match t.path {
        Some(p) => "["@ + join_dec(t.number, '.') + "]("@ + p + "#"@ + trace_id(t.number) + ")"@,
        None => join_dec(t.number, '.'),
    }
}

pub fn clone_u32_vec(v: &Vec<u32>) -> (r: Vec<u32>)
    ensures
        r@ == v@,
{
    let mut r: Vec<u32> = Vec::new();
    let mut i: usize = 0;
    while i < v.len()
        invariant
            i <= v.len(),
            r@ == v@.subrange(0, i as int),
        decreases v.len() - i,
    {
        r.push(v[i]);
        i += 1;
        assert(r@ =~= v@.subrange(0, i as int));
    }
    assert(v@.subrange(0, v.len() as int) =~= v@);
    r
}

impl Clone for Trace {
    fn clone(&self) -> (r: Self)
        ensures
            r@ == self@,
    {
        let path = match &self.path {
            Some(p) => Some(p.clone()),
            None => None,
        };
        Trace { path, number: clone_u32_vec(&self.number), qualified: self.qualified }
    }
}

pub fn u32_vec_eq(a: &Vec<u32>, b: &Vec<u32>) -> (r: bool)
    ensures
        r == (a@ == b@),
{
    if a.len() != b.len() {
        return false;
    }
    let mut i: usize = 0;
    while i < a.len()
        invariant
            a.len() == b.len(),
            i <= a.len(),
            forall|j: int| 0 <= j < i ==> a@[j] == b@[j],
        decreases a.len() - i,
    {
        if a[i] != b[i] {
            return false;
        }
        i += 1;
    }
    proof {
        assert(a@ =~= b@);
    }
    true
}

/// Structural equality of traces: location, number sequence and flag.
pub fn trace_eq(a: &Trace, b: &Trace) -> (r: bool)
    ensures
        r == (a@ == b@),
{
    let path_eq = match (&a.path, &b.path) {
        (Some(x), Some(y)) => crate::chars::str_eq(x.as_str(), y.as_str()),
        (None, None) => true,
        _ => false,
    };
    let r = path_eq && u32_vec_eq(&a.number, &b.number) && a.qualified == b.qualified;
    proof {
        if r {
            assert(a@.path == b@.path);
            assert(a@.number == b@.number);
            assert(a@ =~= b@);
        }
    }
    r
}

impl Trace {
    pub fn new(path: Option<String>, number: Vec<u32>, qualified: bool) -> (t: Trace)
        ensures
            t@ == (TraceView { path: opt_str_view(path), number: number@, qualified }),
    {
        Trace { path, number, qualified }
    }

    /// The number sequence as text: dot- or underscore-joined in full when
    /// `qualified`, else the last segment alone.
    pub fn number(&self, sep: char, qualified: bool) -> (r: String)
        requires
            qualified || self.number@.len() > 0,
        ensures
            r@ == if qualified {
                join_dec(self@.number, sep)
            } else {
                dec_seq(self@.number.last() as nat)
            },
    {
        let mut v: Vec<char> = Vec::new();
        if qualified {
            push_join(&mut v, &self.number, sep);
        } else {
            push_dec(&mut v, self.number[self.number.len() - 1]);
        }
        string_from_chars(&v)
    }

    /// The footnote marker: a named anchor at the note identifier followed by
    /// the superscripted visible number.
    pub fn footnote(&self) -> (r: String)
        requires
            self.qualified || self.number@.len() > 0,
        ensures
            r@ == footnote_text(self@),
    {
        let mut v: Vec<char> = Vec::new();
        push_footnote(&mut v, self);
        string_from_chars(&v)
    }

    /// The inline reference: a superscripted link to the note identifier.
    pub fn reference(&self) -> (r: String)
        requires
            self.qualified || self.number@.len() > 0,
        ensures
            r@ == reference_text(self@),
    {
        let mut v: Vec<char> = Vec::new();
        push_reference(&mut v, self);
        string_from_chars(&v)
    }

    /// The named anchor placed at the marker's original position.
    pub fn anchor(&self) -> (r: String)
        ensures
            r@ == anchor_text(self@),
    {
        let mut v: Vec<char> = Vec::new();
        push_anchor(&mut v, self);
        string_from_chars(&v)
    }

    /// Cross-reference text for matrix cells.
    pub fn link(&self) -> (r: String)
        ensures
            r@ == link_text(self@),
    {
        let mut v: Vec<char> = Vec::new();
        push_link(&mut v, self);
        string_from_chars(&v)
    }
}

pub fn push_visible(out: &mut Vec<char>, t: &Trace)
    requires
        t.qualified || t.number@.len() > 0,
    ensures
        final(out)@ == old(out)@ + visible_number(t@.number, t@.qualified),
{
    if t.qualified {
        push_join(out, &t.number, '.');
    } else {
        push_dec(out, t.number[t.number.len() - 1]);
    }
}

pub fn push_footnote(out: &mut Vec<char>, t: &Trace)
    requires
        t.qualified || t.number@.len() > 0,
    ensures
        final(out)@ == old(out)@ + footnote_text(t@),
{
    push_str_chars(out, "<a name=\"");
    push_str_chars(out, "note");
    push_join(out, &t.number, '_');
    push_str_chars(out, "\"></a><sup>");
    push_visible(out, t);
    push_str_chars(out, "</sup>");
    assert(final(out)@ =~= old(out)@ + footnote_text(t@));
}

pub fn push_reference(out: &mut Vec<char>, t: &Trace)
    requires
        t.qualified || t.number@.len() > 0,
    ensures
        final(out)@ == old(out)@ + reference_text(t@),
{
    push_str_chars(out, "<a href=\"#");
    push_str_chars(out, "note");
    push_join(out, &t.number, '_');
    push_str_chars(out, "\"><sup>");
    push_visible(out, t);
    push_str_chars(out, "</sup></a>");
    assert(final(out)@ =~= old(out)@ + reference_text(t@));
}

pub fn push_anchor(out: &mut Vec<char>, t: &Trace)
    ensures
        final(out)@ == old(out)@ + anchor_text(t@),
{
    push_str_chars(out, "<a name=\"");
    push_str_chars(out, "trace");
    push_join(out, &t.number, '_');
    push_str_chars(out, "\"></a>");
    assert(final(out)@ =~= old(out)@ + anchor_text(t@));
}

pub fn push_link(out: &mut Vec<char>, t: &Trace)
    ensures
        final(out)@ == old(out)@ + link_text(t@),
{
    match &t.path {
        Some(p) => {
            push_str_chars(out, "[");
            push_join(out, &t.number, '.');
            push_str_chars(out, "](");
            push_str_chars(out, p.as_str());
            push_str_chars(out, "#");
            push_str_chars(out, "trace");
            push_join(out, &t.number, '_');
            push_str_chars(out, ")");
            assert(final(out)@ =~= old(out)@ + link_text(t@));
        },
        None => {
            push_join(out, &t.number, '.');
        },
    }
}

/// Law: round-trip addressability. For any trace, the target that its inline
/// `reference` links to is exactly the anchor name that its `footnote`
/// declares: both carry the same note identifier at a fixed offset.
pub proof fn lemma_reference_targets_footnote(t: TraceView)
    ensures
        ({
            let id = note_id(t.number);
            &&& reference_text(t).subrange(10, 10 + id.len() as int) == id
            &&& footnote_text(t).subrange(9, 9 + id.len() as int) == id
        }),
{
    reveal_strlit("<a href=\"#");
    reveal_strlit("<a name=\"");
    let id = note_id(t.number);
    assert(reference_text(t).subrange(10, 10 + id.len() as int) =~= id);
    assert(footnote_text(t).subrange(9, 9 + id.len() as int) =~= id);
}

} // verus!
