//! Prompts for the wiki knowledge base: assessing captured content,
//! discovering and writing pages, answering questions and checking health.
use vstd::prelude::*;
use vstd::string::*;
use crate::text::{
    chars_of, decimal, join, join_exec, join_offset, lemma_join_offset_grows,
    lemma_join_parts_at_offsets, push_all, push_decimal, push_str, string_from_chars,
    take_chars, take_chars_exec, views,
};

verus! {
pub const ASSESSMENT_SYSTEM_PROMPT: &'static str = r#"你是「小云」知识库的守门人。你的任务是判断一条捕获的内容是否包含值得长期保存的知识。

## 判断标准（值得入库的）：
- 具体的概念、方法论、框架解释
- 人物、公司、产品的重要信息
- 技术原理、架构决策、实现细节
- 有深度的观点、分析、比较
- 教程、指南、最佳实践
- 数据、统计、研究发现
- 用户主动附加了备注（user_note），说明用户认为这条内容重要

## 判断标准（不值得入库的）：
- 纯粹的闲聊、情绪表达
- 临时性信息（天气、快递单号、验证码）
- 过短且无上下文的片段（少于 20 字且无 user_note）
- 纯代码片段（无解释上下文）
- 重复内容、广告

## 输出格式（纯 JSON，不要 markdown 代码块）：
{"should_compile":true,"knowledge_score":0.75,"reason":"简短判断理由（20字以内）"}"#;
pub const COMPILE_DISCOVER_SYSTEM_PROMPT: &'static str = r#"你是「小云」知识库的编辑。你的任务是分析一条新内容，决定需要创建或更新哪些知识页面。

## 页面类型：
- concept: 概念、方法论、技术原理（如"RAG技术"、"间歇性断食"）
- entity: 人物、公司、产品、项目（如"Karpathy"、"OpenAI"）
- source: 信息来源的结构化笔记（某篇文章、某本书）
- comparison: 对比分析（A vs B）
- overview: 领域综述、主题汇总

## 核心原则：
- 优先更新已有页面，只在确实需要时创建新页面
- 一条内容通常触及 1-5 个页面
- 不要为琐碎信息创建页面

## 输出格式（纯 JSON，不要 markdown 代码块）：
{
  "creates": [
    {"title":"页面标题","page_type":"concept","reason":"为什么需要新建"}
  ],
  "updates": [
    {"page_id":"已有页面ID","title":"页面标题","reason":"为什么需要更新"}
  ]
}"#;
pub const COMPILE_EXECUTE_SYSTEM_PROMPT: &'static str = r##"你是「小云」知识库的编辑。你的任务是基于新内容来创建或更新一个知识页面。

## 核心原则：
- 你是编辑，不是作者——所有知识必须来源于提供的内容，不要发明信息
- 如果是更新已有页面，保留已有内容中仍然有效的部分，整合新信息
- 如果是更新已有页面，注意多来源聚合：不要只反映最新一条内容，要综合所有来源
- 用中文写作，专有名词保留原文
- Markdown 格式，结构清晰（标题、列表、重点加粗）
- 页面应该自包含，读者不需要看原始内容就能理解

## 输出格式（纯 JSON，不要 markdown 代码块）：
{
  "title": "页面标题",
  "page_type": "concept",
  "body_markdown": "完整的页面内容，Markdown格式",
  "summary": "一句话摘要，30字以内",
  "tags": ["标签1", "标签2"],
  "edges": [
    {"target_title": "相关页面标题", "relation": "related"}
  ]
}"##;
pub const QUERY_SYSTEM_PROMPT: &'static str = r#"你是「小云」知识库的问答助手。用户根据自己积累的知识库向你提问。

## 核心原则：
- 只使用提供的知识库页面内容回答，不要使用你自己的知识
- 如果知识库中没有相关信息，诚实地说"知识库中暂无相关信息"
- 综合多个页面的信息给出完整的回答
- 回答中引用信息来源的页面标题（如"根据「RAG技术」页面..."）
- 用中文回答，简洁清晰

## 输出格式（纯 JSON，不要 markdown 代码块）：
{
  "answer": "回答内容（Markdown格式）",
  "page_ids_used": ["引用的页面ID"],
  "confidence": 0.8,
  "suggested_followup": "建议的追问（可选，没有则为空字符串）"
}"#;
pub const LINT_SYSTEM_PROMPT: &'static str = r#"你是「小云」知识库的健康检查员。你的任务是检查知识库的一致性和完整性。

## 检查项：
- 矛盾：不同页面之间是否有相互矛盾的说法
- 知识空白：现有主题中是否有明显缺失的子主题或关联概念
- 过时风险：哪些页面的内容可能已经过时（基于领域常识判断）

## 输出格式（纯 JSON，不要 markdown 代码块）：
{
  "findings": [
    {
      "lint_type": "contradiction|gap|stale",
      "severity": "info|warning|critical",
      "title": "问题标题",
      "description": "问题描述",
      "page_ids": ["涉及的页面ID"]
    }
  ]
}"#;

/// The single-element list `[part]` when `cond` holds, else the empty list.
pub open spec fn part_if(cond: bool, part: Seq<char>) -> Seq<Seq<char>> {
    if cond {
        seq![part]
    } else {
        Seq::empty()
    }
}

/// Appends `prefix + value` as a new part.
fn push_part(parts: &mut Vec<Vec<char>>, prefix: &str, value: &str)
    ensures
        views(final(parts)@) == views(old(parts)@).push(prefix@ + value@),
{
    let mut v: Vec<char> = Vec::new();
    push_str(&mut v, prefix);
    push_str(&mut v, value);
    let ghost before = views(parts@);
    parts.push(v);
    assert(views(parts@) =~= before.push(prefix@ + value@));
}

/// Appends `prefix + value` as a new part when `value` is not empty.
fn push_part_if_present(parts: &mut Vec<Vec<char>>, prefix: &str, value: &str)
    ensures
        views(final(parts)@) == views(old(parts)@) + part_if(value@.len() > 0, prefix@ + value@),
{
    if !value.is_empty() {
        push_part(parts, prefix, value);
        assert(views(parts@) =~= views(old(parts)@) + part_if(value@.len() > 0, prefix@ + value@));
    } else {
        assert(views(parts@) =~= views(old(parts)@) + part_if(value@.len() > 0, prefix@ + value@));
    }
}

/// Appends `prefix` followed by the first `n` characters of `value`.
fn push_part_truncated(parts: &mut Vec<Vec<char>>, prefix: &str, value: &str, n: usize)
    ensures
        views(final(parts)@) == views(old(parts)@).push(prefix@ + take_chars(value@, n as nat)),
{
    let cs = chars_of(value);
    let t = take_chars_exec(cs.as_slice(), n);
    let mut v: Vec<char> = Vec::new();
    push_str(&mut v, prefix);
    push_all(&mut v, t.as_slice());
    let ghost before = views(parts@);
    parts.push(v);
    assert(views(parts@) =~= before.push(prefix@ + take_chars(value@, n as nat)));
}

fn joined(parts: &Vec<Vec<char>>, sep: &str) -> (r: String)
    ensures
        r@ == join(views(parts@), sep@),
{
    let s = chars_of(sep);
    let j = join_exec(parts, s.as_slice());
    string_from_chars(j.as_slice())
}

/// System prompt for assessing whether content has knowledge value.
pub fn assessment_system_prompt() -> (r: String)
    ensures
        r@ == ASSESSMENT_SYSTEM_PROMPT@,
{
    String::from_str(ASSESSMENT_SYSTEM_PROMPT)
}

/// The parts of the assessment message.
pub open spec fn assessment_parts(
    content_type: Seq<char>,
    raw_text: Seq<char>,
    summary: Seq<char>,
    user_note: Seq<char>,
    source_url: Seq<char>,
    source_app: Seq<char>,
) -> Seq<Seq<char>> {
    seq!["内容类型: "@ + content_type, "来源应用: "@ + source_app] + part_if(
        source_url.len() > 0,
        "来源URL: "@ + source_url,
    ) + part_if(user_note.len() > 0, "用户备注: "@ + user_note) + part_if(
        summary.len() > 0,
        "AI摘要: "@ + summary,
    ) + part_if(raw_text.len() > 0, "原文（前2000字）:\n"@ + take_chars(raw_text, 2000))
}

/// User message for assessment: the content's type and source app, then its
/// URL, note, summary and first 2000 characters where present, separated by
/// blank lines.
pub fn assessment_user_message(
    content_type: &str,
    raw_text: &str,
    summary: &str,
    user_note: &str,
    source_url: &str,
    source_app: &str,
) -> (r: String)
    ensures
        r@ == join(
            assessment_parts(content_type@, raw_text@, summary@, user_note@, source_url@, source_app@),
            "\n\n"@,
        ),
{
    let mut parts: Vec<Vec<char>> = Vec::new();
    push_part(&mut parts, "内容类型: ", content_type);
    push_part(&mut parts, "来源应用: ", source_app);
    push_part_if_present(&mut parts, "来源URL: ", source_url);
    push_part_if_present(&mut parts, "用户备注: ", user_note);
    push_part_if_present(&mut parts, "AI摘要: ", summary);
    let ghost before = views(parts@);
    if !raw_text.is_empty() {
        push_part_truncated(&mut parts, "原文（前2000字）:\n", raw_text, 2000);
    }
    assert(views(parts@) =~= before + part_if(
        raw_text@.len() > 0,
        "原文（前2000字）:\n"@ + take_chars(raw_text@, 2000),
    ));
    assert(views(parts@) =~= assessment_parts(
        content_type@,
        raw_text@,
        summary@,
        user_note@,
        source_url@,
        source_app@,
    ));
    joined(&parts, "\n\n")
}

/// System prompt for the discovery stage of compilation.
pub fn compile_discover_system_prompt() -> (r: String)
    ensures
        r@ == COMPILE_DISCOVER_SYSTEM_PROMPT@,
{
    String::from_str(COMPILE_DISCOVER_SYSTEM_PROMPT)
}

/// One line of the page index: `[id] title`, followed by ` — summary` when
/// the summary is not empty.
pub open spec fn index_line(page: (String, String, String)) -> Seq<char> {
    if page.2@.len() == 0 {
        "["@ + page.0@ + "] "@ + page.1@
    } else {
        "["@ + page.0@ + "] "@ + page.1@ + " — "@ + page.2@
    }
}

/// The page index lines, or a note that the knowledge base is empty.
pub open spec fn index_parts(pages: Seq<(String, String, String)>) -> Seq<Seq<char>> {
    if pages.len() == 0 {
        seq!["（知识库为空，这是第一条内容）"@]
    } else {
        pages.map_values(|p: (String, String, String)| index_line(p))
    }
}

/// The parts of the discovery message.
pub open spec fn discover_parts(
    content_text: Seq<char>,
    content_summary: Seq<char>,
    content_tags: Seq<char>,
    user_note: Seq<char>,
    existing_pages: Seq<(String, String, String)>,
) -> Seq<Seq<char>> {
    seq!["=== 新内容 ==="@] + part_if(content_summary.len() > 0, "摘要: "@ + content_summary)
        + part_if(content_tags.len() > 0, "标签: "@ + content_tags) + part_if(
        user_note.len() > 0,
        "用户备注: "@ + user_note,
    ) + seq!["全文:\n"@ + take_chars(content_text, 3000), "\n=== 现有知识页面索引 ==="@]
        + index_parts(existing_pages)
}

fn push_literal(parts: &mut Vec<Vec<char>>, s: &str)
    ensures
        views(final(parts)@) == views(old(parts)@).push(s@),
{
    let v = chars_of(s);
    let ghost before = views(parts@);
    parts.push(v);
    assert(views(parts@) =~= before.push(s@));
}

/// User message for the discovery stage: the new content (summary, tags and
/// note where present, and its first 3000 characters), then the index of
/// existing pages as `(id, title, summary)`, one per line.
pub fn compile_discover_user_message(
    content_text: &str,
    content_summary: &str,
    content_tags: &str,
    user_note: &str,
    existing_pages: &[(String, String, String)],
) -> (r: String)
    ensures
        r@ == join(
            discover_parts(content_text@, content_summary@, content_tags@, user_note@, existing_pages@),
            "\n"@,
        ),
{
    let mut parts: Vec<Vec<char>> = Vec::new();
    push_literal(&mut parts, "=== 新内容 ===");
    push_part_if_present(&mut parts, "摘要: ", content_summary);
    push_part_if_present(&mut parts, "标签: ", content_tags);
    push_part_if_present(&mut parts, "用户备注: ", user_note);
    push_part_truncated(&mut parts, "全文:\n", content_text, 3000);
    push_literal(&mut parts, "\n=== 现有知识页面索引 ===");
    let ghost head = views(parts@);
    if existing_pages.len() == 0 {
        push_literal(&mut parts, "（知识库为空，这是第一条内容）");
    } else {
        let mut i: usize = 0;
        while i < existing_pages.len()
            invariant
                i <= existing_pages@.len(),
                existing_pages@.len() > 0,
                views(parts@) == head + existing_pages@.take(i as int).map_values(
                    |p: (String, String, String)| index_line(p),
                ),
            decreases existing_pages.len() - i,
        {
            let page = &existing_pages[i];
            let mut v: Vec<char> = Vec::new();
            push_str(&mut v, "[");
            push_str(&mut v, page.0.as_str());
            push_str(&mut v, "] ");
            push_str(&mut v, page.1.as_str());
            if !page.2.as_str().is_empty() {
                push_str(&mut v, " — ");
                push_str(&mut v, page.2.as_str());
            }
            proof {
                assert(*page == existing_pages@[i as int]);
                assert(v@ =~= index_line(existing_pages@[i as int]));
            }
            let ghost before = views(parts@);
            parts.push(v);
            assert(views(parts@) =~= before.push(index_line(existing_pages@[i as int])));
            assert(existing_pages@.take(i + 1).map_values(|p: (String, String, String)| index_line(p))
                =~= existing_pages@.take(i as int).map_values(
                |p: (String, String, String)| index_line(p),
            ).push(index_line(existing_pages@[i as int])));
            i += 1;
        }
        assert(existing_pages@.take(i as int) =~= existing_pages@);
    }
    assert(views(parts@) =~= discover_parts(
        content_text@,
        content_summary@,
        content_tags@,
        user_note@,
        existing_pages@,
    ));
    joined(&parts, "\n")
}

/// System prompt for the execute stage of compilation.
pub fn compile_execute_system_prompt() -> (r: String)
    ensures
        r@ == COMPILE_EXECUTE_SYSTEM_PROMPT@,
{
    String::from_str(COMPILE_EXECUTE_SYSTEM_PROMPT)
}

/// The parts of the message asking for a new page.
pub open spec fn create_parts(
    content_text: Seq<char>,
    content_summary: Seq<char>,
    user_note: Seq<char>,
    title: Seq<char>,
    page_type: Seq<char>,
) -> Seq<Seq<char>> {
    seq!["操作: 创建新页面"@, "标题: "@ + title, "类型: "@ + page_type] + part_if(
        content_summary.len() > 0,
        "内容摘要: "@ + content_summary,
    ) + part_if(user_note.len() > 0, "用户备注: "@ + user_note) + seq![
        "\n原文:\n"@ + take_chars(content_text, 4000),
    ]
}

/// User message for creating a page: the title and type, the summary and note
/// where present, and the first 4000 characters of the content.
pub fn compile_execute_create_message(
    content_text: &str,
    content_summary: &str,
    user_note: &str,
    title: &str,
    page_type: &str,
) -> (r: String)
    ensures
        r@ == join(
            create_parts(content_text@, content_summary@, user_note@, title@, page_type@),
            "\n"@,
        ),
{
    let mut parts: Vec<Vec<char>> = Vec::new();
    push_literal(&mut parts, "操作: 创建新页面");
    push_part(&mut parts, "标题: ", title);
    push_part(&mut parts, "类型: ", page_type);
    push_part_if_present(&mut parts, "内容摘要: ", content_summary);
    push_part_if_present(&mut parts, "用户备注: ", user_note);
    push_part_truncated(&mut parts, "\n原文:\n", content_text, 4000);
    assert(views(parts@) =~= create_parts(
        content_text@,
        content_summary@,
        user_note@,
        title@,
        page_type@,
    ));
    joined(&parts, "\n")
}

/// The parts of the message asking to update a page.
pub open spec fn update_parts(
    content_text: Seq<char>,
    content_summary: Seq<char>,
    user_note: Seq<char>,
    existing_body: Seq<char>,
    existing_title: Seq<char>,
    active_source_count: nat,
    stale_source_count: nat,
) -> Seq<Seq<char>> {
    seq![
        "操作: 更新已有页面「"@ + existing_title + "」"@,
        "当前来源状态: "@ + decimal(active_source_count) + " 个活跃来源, "@ + decimal(
            stale_source_count,
        ) + " 个过时来源"@,
    ] + part_if(content_summary.len() > 0, "新内容摘要: "@ + content_summary) + part_if(
        user_note.len() > 0,
        "用户备注: "@ + user_note,
    ) + seq![
        "\n新内容原文:\n"@ + take_chars(content_text, 3000),
        "\n当前页面正文:\n"@ + take_chars(existing_body, 4000),
        "\n请基于新内容更新页面，保留已有内容中仍然有效的部分。"@,
    ]
}

/// User message for updating a page: the page title, the counts of active
/// and stale sources, the summary and note where present, the first 3000
/// characters of the new content and the first 4000 of the current body.
pub fn compile_execute_update_message(
    content_text: &str,
    content_summary: &str,
    user_note: &str,
    existing_body: &str,
    existing_title: &str,
    active_source_count: usize,
    stale_source_count: usize,
) -> (r: String)
    ensures
        r@ == join(
            update_parts(
                content_text@,
                content_summary@,
                user_note@,
                existing_body@,
                existing_title@,
                active_source_count as nat,
                stale_source_count as nat,
            ),
            "\n"@,
        ),
{
    let mut parts: Vec<Vec<char>> = Vec::new();
    let mut first: Vec<char> = Vec::new();
    push_str(&mut first, "操作: 更新已有页面「");
    push_str(&mut first, existing_title);
    push_str(&mut first, "」");
    let mut second: Vec<char> = Vec::new();
    push_str(&mut second, "当前来源状态: ");
    push_decimal(&mut second, active_source_count as u64);
    push_str(&mut second, " 个活跃来源, ");
    push_decimal(&mut second, stale_source_count as u64);
    push_str(&mut second, " 个过时来源");
    parts.push(first);
    parts.push(second);
    push_part_if_present(&mut parts, "新内容摘要: ", content_summary);
    push_part_if_present(&mut parts, "用户备注: ", user_note);
    push_part_truncated(&mut parts, "\n新内容原文:\n", content_text, 3000);
    push_part_truncated(&mut parts, "\n当前页面正文:\n", existing_body, 4000);
    push_literal(&mut parts, "\n请基于新内容更新页面，保留已有内容中仍然有效的部分。");
    assert(views(parts@) =~= update_parts(
        content_text@,
        content_summary@,
        user_note@,
        existing_body@,
        existing_title@,
        active_source_count as nat,
        stale_source_count as nat,
    ));
    joined(&parts, "\n")
}

/// System prompt for answering questions from the knowledge base.
pub fn query_system_prompt() -> (r: String)
    ensures
        r@ == QUERY_SYSTEM_PROMPT@,
{
    String::from_str(QUERY_SYSTEM_PROMPT)
}

/// One relevant page in a question: a header with its id and title, then
/// the first 3000 characters of its body.
pub open spec fn query_page_part(page: (String, String, String)) -> Seq<char> {
    "\n--- ["@ + page.0@ + "] "@ + page.1@ + " ---\n"@ + take_chars(page.2@, 3000)
}

/// The parts of a question message.
pub open spec fn query_parts(question: Seq<char>, pages: Seq<(String, String, String)>) -> Seq<
    Seq<char>,
> {
    seq!["问题: "@ + question, "\n=== 相关知识页面 ==="@] + if pages.len() == 0 {
        seq!["（没有找到相关知识页面）"@]
    } else {
        pages.map_values(|p: (String, String, String)| query_page_part(p))
    }
}

/// User message for a question, with the relevant pages given as
/// `(id, title, body_markdown)`.
pub fn query_user_message(question: &str, relevant_pages: &[(String, String, String)]) -> (r:
    String)
    ensures
        r@ == join(query_parts(question@, relevant_pages@), "\n"@),
{
    let mut parts: Vec<Vec<char>> = Vec::new();
    push_part(&mut parts, "问题: ", question);
    push_literal(&mut parts, "\n=== 相关知识页面 ===");
    let ghost head = views(parts@);
    if relevant_pages.len() == 0 {
        push_literal(&mut parts, "（没有找到相关知识页面）");
    } else {
        let mut i: usize = 0;
        while i < relevant_pages.len()
            invariant
                i <= relevant_pages@.len(),
                views(parts@) == head + relevant_pages@.take(i as int).map_values(
                    |p: (String, String, String)| query_page_part(p),
                ),
            decreases relevant_pages.len() - i,
        {
            let page = &relevant_pages[i];
            let body = chars_of(page.2.as_str());
            let t = take_chars_exec(body.as_slice(), 3000);
            let mut v: Vec<char> = Vec::new();
            push_str(&mut v, "\n--- [");
            push_str(&mut v, page.0.as_str());
            push_str(&mut v, "] ");
            push_str(&mut v, page.1.as_str());
            push_str(&mut v, " ---\n");
            push_all(&mut v, t.as_slice());
            proof {
                assert(*page == relevant_pages@[i as int]);
                assert(v@ =~= query_page_part(relevant_pages@[i as int]));
            }
            let ghost before = views(parts@);
            parts.push(v);
            assert(views(parts@) =~= before.push(query_page_part(relevant_pages@[i as int])));
            assert(relevant_pages@.take(i + 1).map_values(
                |p: (String, String, String)| query_page_part(p),
            ) =~= relevant_pages@.take(i as int).map_values(
                |p: (String, String, String)| query_page_part(p),
            ).push(query_page_part(relevant_pages@[i as int])));
            i += 1;
        }
        assert(relevant_pages@.take(i as int) =~= relevant_pages@);
    }
    assert(views(parts@) =~= query_parts(question@, relevant_pages@));
    joined(&parts, "\n")
}

/// System prompt for the knowledge base health check.
pub fn lint_system_prompt() -> (r: String)
    ensures
        r@ == LINT_SYSTEM_PROMPT@,
{
    String::from_str(LINT_SYSTEM_PROMPT)
}

/// One page in the health check: `[id] (page_type) title — summary`.
pub open spec fn lint_line(page: (String, String, String, String)) -> Seq<char> {
    "["@ + page.0@ + "] ("@ + page.3@ + ") "@ + page.1@ + " — "@ + page.2@
}

/// User message for the health check, with the pages given as
/// `(id, title, summary, page_type)`, one per line under a heading.
pub fn lint_user_message(pages: &[(String, String, String, String)]) -> (r: String)
    ensures
        r@ == join(
            seq!["=== 知识库全部页面 ==="@] + pages@.map_values(
                |p: (String, String, String, String)| lint_line(p),
            ),
            "\n"@,
        ),
{
    let mut parts: Vec<Vec<char>> = Vec::new();
    push_literal(&mut parts, "=== 知识库全部页面 ===");
    let ghost head = views(parts@);
    let mut i: usize = 0;
    while i < pages.len()
        invariant
            i <= pages@.len(),
            views(parts@) == head + pages@.take(i as int).map_values(
                |p: (String, String, String, String)| lint_line(p),
            ),
        decreases pages.len() - i,
    {
        let page = &pages[i];
        let mut v: Vec<char> = Vec::new();
        push_str(&mut v, "[");
        push_str(&mut v, page.0.as_str());
        push_str(&mut v, "] (");
        push_str(&mut v, page.3.as_str());
        push_str(&mut v, ") ");
        push_str(&mut v, page.1.as_str());
        push_str(&mut v, " — ");
        push_str(&mut v, page.2.as_str());
        proof {
            assert(*page == pages@[i as int]);
            assert(v@ =~= lint_line(pages@[i as int]));
        }
        let ghost before = views(parts@);
        parts.push(v);
        assert(views(parts@) =~= before.push(lint_line(pages@[i as int])));
        assert(pages@.take(i + 1).map_values(|p: (String, String, String, String)| lint_line(p))
            =~= pages@.take(i as int).map_values(
            |p: (String, String, String, String)| lint_line(p),
        ).push(lint_line(pages@[i as int])));
        i += 1;
    }
    assert(pages@.take(i as int) =~= pages@);
    assert(views(parts@) =~= seq!["=== 知识库全部页面 ==="@] + pages@.map_values(
        |p: (String, String, String, String)| lint_line(p),
    ));
    joined(&parts, "\n")
}

/// Where relevant page `i` starts in a question message.
pub open spec fn query_page_offset(question: Seq<char>, pages: Seq<(String, String, String)>, i: int) -> int {
    join_offset(query_parts(question, pages), "\n"@, i + 2)
}

/// Every relevant page goes into a question message, each once and in
/// order: page `i` appears as a `--- [id] title ---` header line followed
/// by the first 3000 characters of its body, and ends before page `i + 1`
/// begins.
pub proof fn lemma_query_message_has_every_page(
    question: Seq<char>,
    pages: Seq<(String, String, String)>,
)
    ensures
        forall|i: int|
            #![trigger pages[i]]
            0 <= i < pages.len() ==> {
                let m = join(query_parts(question, pages), "\n"@);
                let k = query_page_offset(question, pages, i);
                let part = "\n--- ["@ + pages[i].0@ + "] "@ + pages[i].1@ + " ---\n"@ + take_chars(
                    pages[i].2@,
                    3000,
                );
                &&& 0 <= k
                &&& k + part.len() <= m.len()
                &&& m.subrange(k, k + part.len()) == part
            },
        forall|i: int, j: int|
            #![trigger pages[i], pages[j]]
            0 <= i < j < pages.len() ==> query_page_offset(question, pages, i) + (
            "\n--- ["@ + pages[i].0@ + "] "@ + pages[i].1@ + " ---\n"@ + take_chars(
                pages[i].2@,
                3000,
            )).len() < query_page_offset(question, pages, j),
{
    let parts = query_parts(question, pages);
    lemma_join_parts_at_offsets(parts, "\n"@);
    reveal_strlit("\n");
    assert forall|i: int|
        #![trigger pages[i]]
        0 <= i < pages.len() implies {
        let m = join(query_parts(question, pages), "\n"@);
        let k = query_page_offset(question, pages, i);
        let part = "\n--- ["@ + pages[i].0@ + "] "@ + pages[i].1@ + " ---\n"@ + take_chars(
            pages[i].2@,
            3000,
        );
        &&& 0 <= k
        &&& k + part.len() <= m.len()
        &&& m.subrange(k, k + part.len()) == part
    } by {
        assert(parts[i + 2] == query_page_part(pages[i]));
        assert(join_offset(parts, "\n"@, i + 2) == query_page_offset(question, pages, i));
        lemma_join_offset_grows(parts, "\n"@, 0, i + 2);
    }
    assert forall|i: int, j: int|
        #![trigger pages[i], pages[j]]
        0 <= i < j < pages.len() implies query_page_offset(question, pages, i) + (
        "\n--- ["@ + pages[i].0@ + "] "@ + pages[i].1@ + " ---\n"@ + take_chars(
            pages[i].2@,
            3000,
        )).len() < query_page_offset(question, pages, j) by {
        assert(parts[i + 2] == query_page_part(pages[i]));
        lemma_join_offset_grows(parts, "\n"@, i + 2, j + 2);
    }
}

/// A question message begins with the question and the heading of the
/// relevant pages; with no relevant page it ends by saying that none was
/// found.
pub proof fn lemma_query_message_opens_with_question(
    question: Seq<char>,
    pages: Seq<(String, String, String)>,
)
    ensures
        ({
            let m = join(query_parts(question, pages), "\n"@);
            let head = "问题: "@ + question + "\n"@ + "\n=== 相关知识页面 ==="@;
            &&& head.len() <= m.len()
            &&& m.take(head.len() as int) == head
            &&& pages.len() == 0 ==> m == head + "\n"@ + "（没有找到相关知识页面）"@
        }),
{
    let parts = query_parts(question, pages);
    let sep = "\n"@;
    reveal_strlit("\n");
    let m = join(parts, sep);
    let head = "问题: "@ + question + sep + "\n=== 相关知识页面 ==="@;
    assert(parts.take(2).drop_last() =~= parts.take(1));
    assert(join(parts.take(1), sep) == parts[0]);
    assert(join(parts.take(2), sep) =~= head);
    crate::text::lemma_join_prefix(parts, sep, 2);
    if pages.len() == 0 {
        assert(parts.drop_last() =~= parts.take(2));
        assert(m =~= head + sep + "（没有找到相关知识页面）"@);
    }
}

} // verus!
