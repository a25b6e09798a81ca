use coleus::config::ColeusConfig;
use coleus::hierarchy::{
    create_summary, sort_links, summary_markdown, BookHierarchy, HierLink, Summary, SummaryItem,
};
use coleus::links::{resolve_links, PageIndex};
use coleus::metadata::{CategoryMetadata, EntryMetadata};
use coleus::preprocessor::Coleus;

fn category(title: &str, ordinal: Option<u32>) -> CategoryMetadata {
    CategoryMetadata { title: title.to_string(), icon: None, ordinal, parent: None }
}

fn entry(title: &str, ordinal: Option<u32>, category: Option<&str>) -> EntryMetadata {
    EntryMetadata {
        title: title.to_string(),
        icon: None,
        ordinal,
        category: category.map(|c| c.to_string()),
    }
}

fn numbers(summary: &Summary) -> Vec<Option<Vec<u32>>> {
    summary
        .numbered_chapters
        .iter()
        .filter_map(|item| match item {
            SummaryItem::Link(l) => Some(l.number.clone()),
            SummaryItem::PartTitle(_) => None,
        })
        .collect()
}

#[test]
fn two_categories_are_numbered_sequentially() {
    let mut h = BookHierarchy::new();
    h.add_category("a".to_string(), "categories/a.md".to_string(), category("A", None));
    h.add_category("b".to_string(), "categories/b.md".to_string(), category("B", None));
    assert!(h.add_entry("entries/x.md".to_string(), entry("X", None, Some("ns:a"))));
    assert!(h.add_entry("entries/y.md".to_string(), entry("Y", None, Some("ns:a"))));
    assert!(h.add_entry("entries/z.md".to_string(), entry("Z", None, Some("ns:a"))));
    assert!(h.add_entry("entries/w.md".to_string(), entry("W", None, Some("ns:b"))));
    let summary = create_summary(h);

    // A -> [1], members [1,1] [1,2] [1,3]; B -> [2], member [2,1]
    let nums = numbers(&summary);
    assert_eq!(
        nums,
        vec![
            Some(vec![1]),
            Some(vec![1, 1]),
            Some(vec![1, 2]),
            Some(vec![1, 3]),
            Some(vec![2]),
            Some(vec![2, 1]),
        ]
    );
    // part titles come first in each group
    assert!(matches!(&summary.numbered_chapters[0], SummaryItem::PartTitle(t) if t == "A"));
    assert!(matches!(&summary.numbered_chapters[5], SummaryItem::PartTitle(t) if t == "B"));
    assert_eq!(summary.prefix_chapters.len(), 0);
}

#[test]
fn unknown_category_reference_is_not_placed() {
    let mut h = BookHierarchy::new();
    h.add_category("a".to_string(), "categories/a.md".to_string(), category("A", None));
    let placed = h.add_entry("entries/x.md".to_string(), entry("X", None, Some("ns:ghost")));
    assert!(!placed);
    let summary = create_summary(h);
    assert_eq!(numbers(&summary), vec![Some(vec![1])]);
}

#[test]
fn uncategorized_entries_make_the_sorted_prefix() {
    let mut h = BookHierarchy::new();
    assert!(h.add_entry("entries/late.md".to_string(), entry("Late", Some(9), None)));
    assert!(h.add_entry("entries/early.md".to_string(), entry("Early", Some(1), None)));
    let summary = create_summary(h);
    let titles: Vec<String> = summary
        .prefix_chapters
        .iter()
        .map(|item| match item {
            SummaryItem::Link(l) => l.title.clone(),
            SummaryItem::PartTitle(t) => t.clone(),
        })
        .collect();
    assert_eq!(titles, vec!["Early".to_string(), "Late".to_string()]);
}

#[test]
fn categories_sort_by_ordinal_then_id() {
    let mut h = BookHierarchy::new();
    h.add_category("zeta".to_string(), "categories/z.md".to_string(), category("Zeta", Some(1)));
    h.add_category("beta".to_string(), "categories/b.md".to_string(), category("Beta", None));
    h.add_category("alpha".to_string(), "categories/a.md".to_string(), category("Alpha", None));
    let summary = create_summary(h);
    let parts: Vec<String> = summary
        .numbered_chapters
        .iter()
        .filter_map(|item| match item {
            SummaryItem::PartTitle(t) => Some(t.clone()),
            _ => None,
        })
        .collect();
    // the explicit ordinal sorts first; the rest sort by id
    assert_eq!(parts, vec!["Zeta".to_string(), "Alpha".to_string(), "Beta".to_string()]);
}

#[test]
fn entries_without_ordinal_sort_after_declared_ones() {
    let links = vec![
        (HierLink { title: "none1".to_string(), path: "p1".to_string(), number: None }, u32::MAX),
        (HierLink { title: "five".to_string(), path: "p2".to_string(), number: None }, 5),
        (HierLink { title: "none2".to_string(), path: "p3".to_string(), number: None }, u32::MAX),
        (HierLink { title: "two".to_string(), path: "p4".to_string(), number: None }, 2),
    ];
    let sorted = sort_links(links);
    let titles: Vec<&str> = sorted.iter().map(|p| p.0.title.as_str()).collect();
    assert_eq!(titles[0], "two");
    assert_eq!(titles[1], "five");
    assert!(titles[2].starts_with("none"));
    assert!(titles[3].starts_with("none"));
}

#[test]
fn equal_ordinals_sort_by_path_not_discovery_order() {
    let links = vec![
        (HierLink { title: "second".to_string(), path: "entries/b.md".to_string(), number: None }, 7),
        (HierLink { title: "first".to_string(), path: "entries/a.md".to_string(), number: None }, 7),
    ];
    let sorted = sort_links(links);
    let titles: Vec<&str> = sorted.iter().map(|p| p.0.title.as_str()).collect();
    assert_eq!(titles, vec!["first", "second"]);
}

#[test]
fn summary_markdown_renders_the_table_of_contents() {
    let mut h = BookHierarchy::new();
    assert!(h.add_entry("entries/early.md".to_string(), entry("Early", Some(1), None)));
    h.add_category("a".to_string(), "categories/a.md".to_string(), category("A", None));
    assert!(h.add_entry("entries/x.md".to_string(), entry("X", None, Some("ns:a"))));
    let summary = create_summary(h);
    let md = summary_markdown(&summary);
    assert_eq!(
        md,
        "[Early](entries/early.md)\n\n# A\n- [A](categories/a.md)\n  - [X](entries/x.md)\n"
    );
}

fn sample_index() -> PageIndex {
    let mut idx = PageIndex::new();
    idx.insert("alpha".to_string(), "entries/a.md".to_string());
    idx.insert("beta".to_string(), "entries/sub/b.md".to_string());
    idx
}

#[test]
fn cross_reference_resolves_to_relative_path() {
    let idx = sample_index();
    let out = resolve_links("[See Alpha](^mybook:alpha#2)", "entries/sub/b.md", "mybook", &idx);
    assert_eq!(out, "[See Alpha](../a.md#2)");
}

#[test]
fn cross_reference_without_anchor() {
    let idx = sample_index();
    let out = resolve_links("go [B](^mybook:some/dir/beta) now", "entries/a.md", "mybook", &idx);
    assert_eq!(out, "go [B](sub/b.md) now");
}

#[test]
fn unknown_target_id_yields_empty_path() {
    let idx = sample_index();
    let out = resolve_links("[X](^mybook:ghost#3)", "entries/a.md", "mybook", &idx);
    assert_eq!(out, "[X](#3)");
    let out2 = resolve_links("[X](^mybook:ghost)", "entries/a.md", "mybook", &idx);
    assert_eq!(out2, "[X]()");
}

#[test]
fn foreign_corpus_ids_are_left_alone() {
    let idx = sample_index();
    let token = "[See Alpha](^otherbook:alpha#2)";
    let out = resolve_links(token, "entries/sub/b.md", "mybook", &idx);
    assert_eq!(out, token);
}

#[test]
fn rewritten_output_is_not_rescanned() {
    let mut idx = PageIndex::new();
    // an indexed path that itself looks like the start of a token
    idx.insert("alpha".to_string(), "entries/a.md".to_string());
    let out = resolve_links(
        "[a](^mybook:alpha) and [b](^mybook:alpha)",
        "entries/c.md",
        "mybook",
        &idx,
    );
    assert_eq!(out, "[a](a.md) and [b](a.md)");
}

#[test]
fn preprocess_chapter_runs_the_whole_pipeline() {
    let config = ColeusConfig {
        name: "Book".to_string(),
        id: "mybook".to_string(),
        path: "book".to_string(),
        lang_path: String::new(),
    };
    let coleus = Coleus::new(config);
    let idx = sample_index();
    let doc = "```json\n{\"title\": \"Beta\"}\n```\n\nStart\n\n;;;;;\n\nSee [Alpha](^mybook:alpha#1)";
    let out = coleus.preprocess_chapter(&idx, "entries/sub/b.md", doc).unwrap();
    assert!(out.starts_with("# Beta"));
    assert!(out.contains("<a id=\"1\"></a>"));
    assert!(out.contains("[Alpha](../a.md#1)"));
    assert!(!out.contains("```json"));
    assert!(!out.contains(";;;;;"));
}

#[test]
fn preprocessor_supports_html_renderer_only() {
    let config = ColeusConfig {
        name: String::new(),
        id: "x".to_string(),
        path: String::new(),
        lang_path: String::new(),
    };
    let coleus = Coleus::new(config);
    assert!(coleus.supports_renderer("html"));
    assert!(!coleus.supports_renderer("epub"));
}
