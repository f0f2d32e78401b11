use openwiki::wiki_prompts::{
    assessment_system_prompt, assessment_user_message, compile_discover_system_prompt,
    compile_discover_user_message, compile_execute_create_message, compile_execute_system_prompt,
    compile_execute_update_message, lint_system_prompt, lint_user_message, query_system_prompt,
    query_user_message,
};

fn s(x: &str) -> String {
    x.to_string()
}

#[test]
fn system_prompts_are_the_fixed_texts() {
    assert!(assessment_system_prompt().starts_with("你是「小云」知识库的守门人。"));
    assert!(assessment_system_prompt().ends_with("\"reason\":\"简短判断理由（20字以内）\"}"));
    assert!(compile_discover_system_prompt().contains("\"creates\": ["));
    assert!(compile_execute_system_prompt().contains("\"body_markdown\""));
    assert!(query_system_prompt().contains("\"page_ids_used\""));
    assert!(lint_system_prompt().contains("\"lint_type\": \"contradiction|gap|stale\""));
}

#[test]
fn assessment_message_with_all_fields() {
    let m = assessment_user_message("text", "正文", "摘要", "备注", "https://a.b", "Safari");
    assert_eq!(
        m,
        "内容类型: text\n\n来源应用: Safari\n\n来源URL: https://a.b\n\n用户备注: 备注\n\nAI摘要: 摘要\n\n原文（前2000字）:\n正文"
    );
}

#[test]
fn assessment_message_omits_empty_fields_and_cuts_text() {
    let m = assessment_user_message("image", "", "", "", "", "App");
    assert_eq!(m, "内容类型: image\n\n来源应用: App");
    let long = "字".repeat(2500);
    let m = assessment_user_message("t", &long, "", "", "", "A");
    assert!(m.ends_with(&format!(":\n{}", "字".repeat(2000))));
    assert!(!m.contains(&"字".repeat(2001)));
}

#[test]
fn discover_message_with_and_without_pages() {
    let m = compile_discover_user_message("全文内容", "", "", "", &[]);
    assert_eq!(
        m,
        "=== 新内容 ===\n全文:\n全文内容\n\n=== 现有知识页面索引 ===\n（知识库为空，这是第一条内容）"
    );
    let pages = vec![(s("p1"), s("RAG"), s("检索增强")), (s("p2"), s("OpenAI"), s(""))];
    let m = compile_discover_user_message("x", "sum", "tags", "note", &pages);
    assert_eq!(
        m,
        "=== 新内容 ===\n摘要: sum\n标签: tags\n用户备注: note\n全文:\nx\n\n=== 现有知识页面索引 ===\n[p1] RAG — 检索增强\n[p2] OpenAI"
    );
}

#[test]
fn create_message() {
    let m = compile_execute_create_message("body", "sum", "", "标题", "concept");
    assert_eq!(m, "操作: 创建新页面\n标题: 标题\n类型: concept\n内容摘要: sum\n\n原文:\nbody");
    let m = compile_execute_create_message(&"a".repeat(5000), "", "", "t", "entity");
    assert!(m.ends_with(&format!("\n\n原文:\n{}", "a".repeat(4000))));
}

#[test]
fn update_message() {
    let m = compile_execute_update_message("new", "", "note", "old body", "页", 3, 12);
    assert_eq!(
        m,
        "操作: 更新已有页面「页」\n当前来源状态: 3 个活跃来源, 12 个过时来源\n用户备注: note\n\n新内容原文:\nnew\n\n当前页面正文:\nold body\n\n请基于新内容更新页面，保留已有内容中仍然有效的部分。"
    );
}

#[test]
fn query_message() {
    assert_eq!(query_user_message("为什么?", &[]), "问题: 为什么?\n\n=== 相关知识页面 ===\n（没有找到相关知识页面）");
    let pages = vec![(s("id1"), s("T"), "b".repeat(3100))];
    let m = query_user_message("q", &pages);
    assert_eq!(m, format!("问题: q\n\n=== 相关知识页面 ===\n\n--- [id1] T ---\n{}", "b".repeat(3000)));
}

#[test]
fn lint_message() {
    assert_eq!(lint_user_message(&[]), "=== 知识库全部页面 ===");
    let pages = vec![(s("1"), s("A"), s("sa"), s("concept")), (s("2"), s("B"), s(""), s("entity"))];
    assert_eq!(
        lint_user_message(&pages),
        "=== 知识库全部页面 ===\n[1] (concept) A — sa\n[2] (entity) B — "
    );
}
