use mdbook_trace::config::{Config, ParentNumbering, TargetConfig};
use mdbook_trace::config::number_for;
use mdbook_trace::engine::{Chapter, Traceable, TraceError};
use mdbook_trace::registry::{Record, Target};
use mdbook_trace::trace::Trace;

fn config_with(
    qualified: bool,
    chapter_numbers: bool,
    divider: bool,
    policy: ParentNumbering,
    targets: Vec<(&str, &str)>,
) -> Config {
    Config {
        qualified_footnotes: qualified,
        chapter_numbers,
        footnote_divider: divider,
        parent_numbering: policy,
        record_heading: "Record".to_string(),
        trace_heading: "Traces".to_string(),
        targets: targets
            .into_iter()
            .map(|(id, name)| (id.to_string(), TargetConfig { name: name.to_string() }))
            .collect(),
    }
}

fn chapter(content: &str, number: Option<Vec<u32>>, sub_count: usize, path: Option<&str>) -> Chapter {
    Chapter {
        content: content.to_string(),
        number,
        sub_count,
        path: path.map(|p| p.to_string()),
    }
}

#[test]
fn zero_policy_with_subchapters() {
    let first = number_for(ParentNumbering::Zero, &vec![1], 1, 2);
    let second = number_for(ParentNumbering::Zero, &vec![1], 2, 2);
    assert_eq!(first, vec![1, 0, 1]);
    assert_eq!(second, vec![1, 0, 2]);
}

#[test]
fn zero_policy_without_subchapters() {
    assert_eq!(number_for(ParentNumbering::Zero, &vec![1], 1, 0), vec![1, 1]);
}

#[test]
fn allow_duplicates_policy() {
    for k in 1..5u32 {
        assert_eq!(number_for(ParentNumbering::AllowDuplicates, &vec![1], k, 2), vec![1, k]);
        assert_eq!(number_for(ParentNumbering::AllowDuplicates, &vec![1], k, 0), vec![1, k]);
    }
}

#[test]
fn offset_policy() {
    assert_eq!(number_for(ParentNumbering::Offset, &vec![1], 1, 2), vec![1, 3]);
    assert_eq!(number_for(ParentNumbering::Offset, &vec![1], 2, 2), vec![1, 4]);
}

#[test]
fn reference_targets_footnote_anchor() {
    let t = Trace::new(None, vec![1, 2, 3], true);
    let footnote = t.footnote();
    let reference = t.reference();
    assert_eq!(footnote, "<a name=\"note1_2_3\"></a><sup>1.2.3</sup>");
    assert_eq!(reference, "<a href=\"#note1_2_3\"><sup>1.2.3</sup></a>");
    // the href target of the reference is the anchor name of the footnote
    assert!(reference.contains("#note1_2_3"));
    assert!(footnote.contains("name=\"note1_2_3\""));
}

#[test]
fn qualified_flag_controls_visible_number() {
    let q = Trace::new(None, vec![1, 2, 3], true);
    let u = Trace::new(None, vec![1, 2, 3], false);
    assert_eq!(q.footnote(), "<a name=\"note1_2_3\"></a><sup>1.2.3</sup>");
    assert_eq!(u.footnote(), "<a name=\"note1_2_3\"></a><sup>3</sup>");
}

#[test]
fn anchor_and_link_renderings() {
    let with_path = Trace::new(Some("ch.md".to_string()), vec![2, 7], false);
    assert_eq!(with_path.anchor(), "<a name=\"trace2_7\"></a>");
    assert_eq!(with_path.link(), "[2.7](ch.md#trace2_7)");
    let without_path = Trace::new(None, vec![2, 7], false);
    assert_eq!(without_path.link(), "2.7");
}

#[test]
fn number_rendering() {
    let t = Trace::new(None, vec![10, 0, 42], false);
    assert_eq!(t.number('_', true), "10_0_42");
    assert_eq!(t.number('.', true), "10.0.42");
    assert_eq!(t.number('.', false), "42");
}

#[test]
fn duplicate_traces_collapse_in_record() {
    let mut r = Record::new("FR-1");
    let t = Trace::new(None, vec![1, 1], false);
    r.add_trace(t.clone());
    r.add_trace(t.clone());
    assert_eq!(r.references().len(), 1);
    let other = Trace::new(None, vec![1, 2], false);
    r.add_trace(other);
    assert_eq!(r.references().len(), 2);
}

#[test]
fn duplicate_traces_collapse_in_target_footnote() {
    let mut target = Target::new("Requirements");
    let t = Trace::new(None, vec![1, 1], false);
    target.add_trace("FR-1", t.clone());
    target.add_trace("FR-1", t.clone());
    let (reference, note) = target.footnote(&t).unwrap();
    assert_eq!(reference, "<a href=\"#note1_1\"><sup>1</sup></a>");
    assert_eq!(note, "<a name=\"note1_1\"></a><sup>1</sup> Requirements FR-1");
}

#[test]
fn footnote_missing_trace_is_none() {
    let target = Target::new("Requirements");
    let t = Trace::new(None, vec![1, 1], false);
    assert!(target.footnote(&t).is_none());
}

#[test]
fn matrix_rows_sorted_by_record_name() {
    let mut target = Target::new("Requirements");
    target.add_trace("Widget", Trace::new(None, vec![1, 1], false));
    target.add_trace("Apple", Trace::new(None, vec![1, 2], false));
    let m = target.matrix("Record", "Traces");
    assert_eq!(
        m,
        "| Record | Traces |\n|--------|--------|\n| Apple | 1.2 |\n| Widget | 1.1 |"
    );
}

#[test]
fn unknown_target_aborts_run() {
    let cfg = config_with(false, false, false, ParentNumbering::Zero, vec![("req", "Requirements")]);
    let mut pre = Traceable::new(cfg);
    let book = vec![chapter("{{#trace nope: FR-1}}", Some(vec![1]), 0, None)];
    let res = pre.run(book);
    match res {
        Err(TraceError::UnknownTarget { id }) => {
            assert_eq!(id, "nope");
        }
        Ok(_) => panic!("run must abort on an unconfigured target"),
    }
}

#[test]
fn error_message_names_the_target() {
    let e = TraceError::UnknownTarget { id: "xyz".to_string() };
    assert_eq!(e.message(), "no target defined with id 'xyz'.");
}

#[test]
fn malformed_markers_left_untouched() {
    let cfg = config_with(false, false, false, ParentNumbering::Zero, vec![("req", "Requirements")]);
    let mut pre = Traceable::new(cfg);
    let content = "no colon {{#trace req FR-1}} and unclosed {{#tr req: FR-2";
    let book = vec![chapter(content, Some(vec![1]), 0, None)];
    let out = pre.run(book).unwrap();
    assert_eq!(out[0].content, content);
}

#[test]
fn end_to_end_trace_substitution() {
    let cfg = config_with(true, false, false, ParentNumbering::Zero, vec![("req", "Requirements")]);
    let mut pre = Traceable::new(cfg);
    let book = vec![chapter("Do X. {{#trace req: FR-1}}", Some(vec![1]), 0, Some("ch1.md"))];
    let out = pre.run(book).unwrap();
    assert_eq!(
        out[0].content,
        "Do X. <a name=\"trace1_1\"></a><a href=\"#note1_1\"><sup>1.1</sup></a>\n\n<a name=\"note1_1\"></a><sup>1.1</sup> Requirements FR-1"
    );
}

#[test]
fn end_to_end_matrix() {
    let cfg = config_with(true, false, false, ParentNumbering::Zero, vec![("req", "Requirements")]);
    let mut pre = Traceable::new(cfg);
    let book = vec![
        chapter("Do X. {{#trace req: FR-1}}", Some(vec![1]), 0, Some("ch1.md")),
        chapter("{{#tracematrix req}}", None, 0, None),
    ];
    let out = pre.run(book).unwrap();
    assert_eq!(
        out[1].content,
        "| Record | Traces |\n|--------|--------|\n| FR-1 | [1.1](ch1.md#trace1_1) |"
    );
}

#[test]
fn matrix_sees_traces_of_later_chapters() {
    // The matrix chapter comes first in document order; pass 2 still sees the
    // trace registered by the later chapter.
    let cfg = config_with(false, false, false, ParentNumbering::Zero, vec![("req", "Requirements")]);
    let mut pre = Traceable::new(cfg);
    let book = vec![
        chapter("{{#trace_matrix req}}", None, 0, None),
        chapter("{{#tr req: FR-9}}", Some(vec![2]), 0, Some("late.md")),
    ];
    let out = pre.run(book).unwrap();
    assert_eq!(
        out[0].content,
        "| Record | Traces |\n|--------|--------|\n| FR-9 | [2.1](late.md#trace2_1) |"
    );
}

#[test]
fn two_identical_markers_one_trace_two_references() {
    // Without a chapter number and under AllowDuplicates, two markers of the
    // same target and record in different chapters yield the same trace; each
    // occurrence keeps its own inline reference.
    let cfg = config_with(false, false, false, ParentNumbering::AllowDuplicates, vec![("req", "R")]);
    let mut pre = Traceable::new(cfg);
    let book = vec![
        chapter("a {{#tr req: A}} b", None, 0, None),
        chapter("c {{#tr req: A}} d", None, 0, None),
        chapter("{{#tracematrix req}}", None, 0, None),
    ];
    let out = pre.run(book).unwrap();
    assert!(out[0].content.contains("<a href=\"#note1\"><sup>1</sup></a>"));
    assert!(out[1].content.contains("<a href=\"#note1\"><sup>1</sup></a>"));
    // one collapsed trace in the matrix cell
    assert_eq!(out[2].content, "| Record | Traces |\n|--------|--------|\n| A | 1 |");
}

#[test]
fn footnote_divider_configured() {
    let cfg = config_with(false, false, true, ParentNumbering::Zero, vec![("req", "R")]);
    let mut pre = Traceable::new(cfg);
    let book = vec![chapter("x {{#tr req: A}}", Some(vec![1]), 0, None)];
    let out = pre.run(book).unwrap();
    assert_eq!(
        out[0].content,
        "x <a name=\"trace1_1\"></a><a href=\"#note1_1\"><sup>1</sup></a>\n\n---\n\n<a name=\"note1_1\"></a><sup>1</sup> R A"
    );
}

#[test]
fn heading_numbering() {
    let cfg = config_with(false, true, false, ParentNumbering::Zero, vec![]);
    let mut pre = Traceable::new(cfg);
    let book = vec![
        chapter("# Title\nBody\n", Some(vec![1, 2]), 0, None),
        chapter("# Unnumbered\nBody\n", None, 0, None),
    ];
    let out = pre.run(book).unwrap();
    assert_eq!(out[0].content, "\n# 1.2. Title\n\nBody\n");
    assert_eq!(out[1].content, "# Unnumbered\nBody\n");
}

#[test]
fn record_text_is_trimmed_and_may_span_lines() {
    let cfg = config_with(false, false, false, ParentNumbering::Zero, vec![("req", "R")]);
    let mut pre = Traceable::new(cfg);
    let book = vec![chapter("{{#tr req:  FR\nX  }} end", Some(vec![3]), 0, None)];
    let out = pre.run(book).unwrap();
    assert!(out[0].content.ends_with("<a name=\"note3_1\"></a><sup>1</sup> R FR\nX"));
}

#[test]
fn trace_numbers_reset_per_chapter() {
    let cfg = config_with(true, false, false, ParentNumbering::Zero, vec![("req", "R")]);
    let mut pre = Traceable::new(cfg);
    let book = vec![
        chapter("{{#tr req: A}} {{#tr req: B}}", Some(vec![1]), 0, None),
        chapter("{{#tr req: C}}", Some(vec![2]), 0, None),
    ];
    let out = pre.run(book).unwrap();
    assert!(out[0].content.contains("<sup>1.1</sup>"));
    assert!(out[0].content.contains("<sup>1.2</sup>"));
    assert!(out[1].content.contains("<sup>2.1</sup>"));
}

#[test]
fn supports_every_renderer_but_the_sentinel() {
    let pre = Traceable::new(Config::default());
    assert!(pre.supports_renderer("html"));
    assert!(!pre.supports_renderer("not-supported"));
    assert_eq!(pre.name(), "trace-preprocessor");
}

#[test]
fn default_config_values() {
    let c = Config::default();
    assert!(!c.qualified_footnotes);
    assert!(!c.chapter_numbers);
    assert!(!c.footnote_divider);
    assert!(matches!(c.parent_numbering, ParentNumbering::Zero));
    assert_eq!(c.record_heading, "Record");
    assert_eq!(c.trace_heading, "Traces");
    assert!(c.targets.is_empty());
}
