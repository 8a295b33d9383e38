//! Run configuration and the three numbering policies.

use vstd::prelude::*;
use vstd::string::StringExecFns;
use crate::trace::clone_u32_vec;

verus! {

/// The trace numbering strategy for a chapter with subchapters.
#[derive(Clone, Copy, PartialEq, Eq, Structural)]
pub enum ParentNumbering {
    /// Number traces as normal; a trace may share its number with a
    /// subchapter.
    AllowDuplicates,
    /// Offset trace numbers past the range used by subchapters.
    Offset,
    /// Reserve the `.0` sub-namespace for traces in a chapter with
    /// subchapters.
    Zero,
}

/// Display settings of one trace target.
pub struct TargetConfig {
    pub name: String,
}

/// The run configuration, immutable for a run.
pub struct Config {
    /// Use the fully qualified trace number as the visible footnote number.
    pub qualified_footnotes: bool,
    /// Prepend chapter numbers to each chapter's first top-level heading.
    pub chapter_numbers: bool,
    /// Insert a horizontal rule between the body and the generated footnotes.
    pub footnote_divider: bool,
    pub parent_numbering: ParentNumbering,
    /// Heading of the first matrix column.
    pub record_heading: String,
    /// Heading of the second matrix column.
    pub trace_heading: String,
    /// The configured trace targets, keyed by unique target id.
    pub targets: Vec<(String, TargetConfig)>,
}

impl Config {
    /// The configured target ids, in order.
    pub open spec fn target_ids(&self) -> Seq<Seq<char>> {
        self.targets@.map_values(|p: (String, TargetConfig)| p.0@)
    }

    /// Target ids are unique: `targets` stands for a mapping.
    pub open spec fn wf(&self) -> bool {
        forall|i: int, j: int|
            0 <= i < j < self.target_ids().len() ==> self.target_ids()[i] != self.target_ids()[j]
    }
}

impl Default for Config {
    /// Unqualified footnotes, no heading numbering, no divider, the `Zero`
    /// policy, `Record` and `Traces` column headings, and no targets.
    fn default() -> (c: Config)
        ensures
            c.qualified_footnotes == false,
            c.chapter_numbers == false,
            c.footnote_divider == false,
            c.parent_numbering == ParentNumbering::Zero,
            c.record_heading@ == "Record"@,
            c.trace_heading@ == "Traces"@,
            c.targets@.len() == 0,
            c.wf(),
    {
        let c = Config {
            qualified_footnotes: false,
            chapter_numbers: false,
            footnote_divider: false,
            parent_numbering: ParentNumbering::Zero,
            record_heading: String::from_str("Record"),
            trace_heading: String::from_str("Traces"),
            targets: Vec::new(),
        };
        proof {
            assert(c.target_ids() =~= Seq::<Seq<char>>::empty());
        }
        c
    }
}

/// The number sequence a policy assigns to the `count`-th trace of a chapter
/// with hierarchical prefix `prefix` and `sub_count` subchapters:
/// `Zero` reserves the `.0` namespace when subchapters exist,
/// `AllowDuplicates` appends the count as is, and
/// `Offset` shifts the count past the subchapter range.
pub open spec fn policy_number(
    policy: ParentNumbering,
    prefix: Seq<u32>,
    count: u32,
    sub_count: u32,
) -> Seq<u32> {
    match policy {
        ParentNumbering::Zero => if sub_count > 0 {
            prefix + seq![0u32, count]
        } else {
            prefix.push(count)
        },
        ParentNumbering::AllowDuplicates => prefix.push(count),
        ParentNumbering::Offset => prefix.push((count + sub_count) as u32),
    }
}

/// Law: a policy only ever appends to the chapter prefix, and assigns at
/// least one fresh segment; under `AllowDuplicates` the `count`-th marker is
/// numbered exactly `prefix` followed by `count`.
pub proof fn lemma_policy_number_extends(
    policy: ParentNumbering,
    prefix: Seq<u32>,
    count: u32,
    sub_count: u32,
)
    ensures
        policy_number(policy, prefix, count, sub_count).len() > prefix.len(),
        policy_number(policy, prefix, count, sub_count).subrange(0, prefix.len() as int) == prefix,
        policy == ParentNumbering::AllowDuplicates ==> policy_number(
            policy,
            prefix,
            count,
            sub_count,
        ) == prefix.push(count),
{
    assert(policy_number(policy, prefix, count, sub_count).subrange(0, prefix.len() as int)
        =~= prefix);
}

/// Computes the policy's number sequence.
pub fn number_for(policy: ParentNumbering, prefix: &Vec<u32>, count: u32, sub_count: u32) -> (r:
    Vec<u32>)
    requires
        count as nat + sub_count as nat <= u32::MAX as nat,
    ensures
        r@ == policy_number(policy, prefix@, count, sub_count),
        r@.len() > 0,
{
    let mut r = clone_u32_vec(prefix);
    match policy {
        ParentNumbering::Zero => {
            if sub_count > 0 {
                r.push(0);
            }
            r.push(count);
        },
        ParentNumbering::AllowDuplicates => {
            r.push(count);
        },
        ParentNumbering::Offset => {
            r.push(count + sub_count);
        },
    }
    proof {
        assert(r@ =~= policy_number(policy, prefix@, count, sub_count));
    }
    r
}

} // verus!
