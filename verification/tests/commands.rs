use openwiki::commands::{
    answer_page, compile_tally, content_query_window, draft_page_finding, find_conversation,
    graph_edge_counts, needs_assessment, qa_reply, stale_page_finding, CompileTally,
};

fn s(v: &str) -> String {
    v.to_string()
}

#[test]
fn query_window_is_clamped() {
    assert_eq!(content_query_window(50, 10), (50, 10));
    assert_eq!(content_query_window(10_000, -5), (5000, 0));
    assert_eq!(content_query_window(0, 0), (1, 0));
    assert_eq!(content_query_window(-7, i64::MAX), (1, i64::MAX));
    assert_eq!(content_query_window(5000, 1), (5000, 1));
}

#[test]
fn edge_counts_per_page() {
    let pages = vec![s("a"), s("b"), s("c"), s("d")];
    let edges = vec![(s("a"), s("b")), (s("b"), s("c")), (s("a"), s("a")), (s("x"), s("y"))];
    assert_eq!(graph_edge_counts(&pages, &edges), vec![2, 2, 1, 0]);
    assert_eq!(graph_edge_counts(&[], &edges), Vec::<usize>::new());
    assert_eq!(graph_edge_counts(&pages, &[]), vec![0, 0, 0, 0]);
}

#[test]
fn qa_reply_defaults() {
    let r = qa_reply(None, None, None);
    assert_eq!(r.answer, "无法回答");
    assert_eq!(r.pages_used, "[]");
    assert_eq!(r.suggested_followup, "");
    let r = qa_reply(Some(s("yes")), Some(s("[\"p1\"]")), Some(s("why?")));
    assert_eq!(r.answer, "yes");
    assert_eq!(r.pages_used, "[\"p1\"]");
    assert_eq!(r.suggested_followup, "why?");
}

#[test]
fn answer_page_short_question() {
    let p = answer_page("What is Rust?", "A language.", "0123456789abcdef");
    assert_eq!(p.title, "What is Rust?");
    assert_eq!(p.slug, "qa-01234567");
    assert_eq!(p.body_markdown, "## 问题\n\nWhat is Rust?\n\n## 回答\n\nA language.");
    assert_eq!(p.summary, "Q&A: What is Rust?");
    assert_eq!(p.page_type, "concept");
    assert_eq!(p.status, "active");
}

#[test]
fn answer_page_long_question() {
    let q = "abcdefghijklmnopqrstuvwxyz0123456789";
    let p = answer_page(q, "x", "12345678-aaaa");
    assert_eq!(p.title, "abcdefghijklmnopqrstuvwxyz0123...");
    assert_eq!(p.slug, "qa-12345678");
    assert_eq!(p.summary, "Q&A: abcdefghijklmnopqrstuvwxyz0123");
    // Eleven three-byte characters: the cut falls after the tenth.
    let cjk = "一二三四五六七八九十百";
    let p = answer_page(cjk, "x", "12345678");
    assert_eq!(p.title, "一二三四五六七八九十...");
    assert_eq!(p.summary, "Q&A: 一二三四五六七八九十百");
    // Exactly 30 bytes is not longer than 30.
    let q30 = "abcdefghijklmnopqrstuvwxyz0123";
    assert_eq!(answer_page(q30, "x", "12345678").title, q30);
}

#[test]
fn conversation_lookup() {
    let ids = vec![s("c1"), s("c2"), s("c2")];
    assert_eq!(find_conversation(&ids, "c2"), Ok(1));
    assert_eq!(find_conversation(&ids, "c1"), Ok(0));
    assert_eq!(find_conversation(&ids, "zz"), Err(s("对话不存在")));
    assert_eq!(find_conversation(&[], "c1"), Err(s("对话不存在")));
}

#[test]
fn lint_findings() {
    let f = stale_page_finding("Rust", "p1");
    assert_eq!(f.lint_type, "stale");
    assert_eq!(f.severity, "warning");
    assert_eq!(f.title, "「Rust」有过时来源");
    assert_eq!(f.description, "部分来源已更新或删除，建议重新编译");
    assert_eq!(f.page_ids, "[\"p1\"]");
    let f = draft_page_finding("Go", "p2");
    assert_eq!(f.lint_type, "orphan");
    assert_eq!(f.severity, "critical");
    assert_eq!(f.title, "「Go」已失效");
    assert_eq!(f.description, "所有来源已删除，请决定保留或删除");
    assert_eq!(f.page_ids, "[\"p2\"]");
}

#[test]
fn assessment_needed_unless_hash_matches() {
    assert!(needs_assessment(None, "h1"));
    assert!(needs_assessment(Some("h0"), "h1"));
    assert!(!needs_assessment(Some("h1"), "h1"));
}

#[test]
fn tally_counts_compiles() {
    assert_eq!(
        compile_tally(&[true, false, true]),
        CompileTally { processed: 5, compiled: 2, errors: 1 }
    );
    assert_eq!(compile_tally(&[]), CompileTally { processed: 0, compiled: 0, errors: 0 });
}
