use openwiki::attention::{
    analysis_failure_message, analysis_reply, analysis_request, build_prompt, extract_json,
    prune_analysis, truncate_str, validate_parsed_analysis, AnalysisFailure, AnalysisProvider,
    AttentionAnalysis, EvidenceGroup, EvidenceItem, NewObsession, RecurringThread,
    UnexpectedConnection, ATTENTION_SYSTEM_PROMPT,
};
use serde_json::Value;

type Item = (String, Option<String>, Option<String>, String);

fn make_valid_json(max_index: usize) -> String {
    format!(
        r#"{{
  "recurring_threads": [
    {{
      "title": "Rust学习",
      "summary": "用户持续关注Rust语言",
      "evidence": [
        {{"index": 0, "snippet": "Rust所有权"}},
        {{"index": 1, "snippet": "Rust生命周期"}},
        {{"index": 2, "snippet": "Rust异步编程"}}
      ]
    }}
  ],
  "unexpected_connections": [
    {{
      "title": "编程与音乐",
      "insight": "两者都涉及模式识别",
      "group_a": {{
        "label": "编程",
        "items": [{{"index": 0, "snippet": "代码模式"}}]
      }},
      "group_b": {{
        "label": "音乐",
        "items": [{{"index": {}, "snippet": "音乐模式"}}]
      }}
    }}
  ],
  "new_obsessions": [
    {{
      "title": "AI绘画",
      "first_seen": "2024-03-25",
      "intensity": "高",
      "evidence": [
        {{"index": 1, "snippet": "Stable Diffusion"}}
      ]
    }}
  ]
}}"#,
        max_index
    )
}

fn text(v: &Value, key: &str) -> Result<String, String> {
    v.get(key)
        .and_then(|x| x.as_str())
        .map(|x| x.to_string())
        .ok_or_else(|| format!("missing field `{}`", key))
}

fn evidence(v: &Value, key: &str) -> Result<Vec<EvidenceItem>, String> {
    let items = v
        .get(key)
        .and_then(|x| x.as_array())
        .ok_or_else(|| format!("missing field `{}`", key))?;
    items
        .iter()
        .map(|e| {
            let index = e
                .get("index")
                .and_then(|x| x.as_u64())
                .ok_or_else(|| "missing field `index`".to_string())? as usize;
            Ok(EvidenceItem { index, snippet: text(e, "snippet")? })
        })
        .collect()
}

fn group(v: &Value, key: &str) -> Result<EvidenceGroup, String> {
    let g = v.get(key).ok_or_else(|| format!("missing field `{}`", key))?;
    Ok(EvidenceGroup { label: text(g, "label")?, items: evidence(g, "items")? })
}

fn list<'a>(v: &'a Value, key: &str) -> Result<&'a Vec<Value>, String> {
    v.get(key).and_then(|x| x.as_array()).ok_or_else(|| format!("missing field `{}`", key))
}

/// Parses the JSON text as the analysis, as the application does.
fn parse(json: &str) -> Result<AttentionAnalysis, String> {
    let v: Value = serde_json::from_str(json).map_err(|e| e.to_string())?;
    let recurring_threads = list(&v, "recurring_threads")?
        .iter()
        .map(|t| {
            Ok(RecurringThread {
                title: text(t, "title")?,
                summary: text(t, "summary")?,
                evidence: evidence(t, "evidence")?,
            })
        })
        .collect::<Result<Vec<_>, String>>()?;
    let unexpected_connections = list(&v, "unexpected_connections")?
        .iter()
        .map(|c| {
            Ok(UnexpectedConnection {
                title: text(c, "title")?,
                insight: text(c, "insight")?,
                group_a: group(c, "group_a")?,
                group_b: group(c, "group_b")?,
            })
        })
        .collect::<Result<Vec<_>, String>>()?;
    let new_obsessions = list(&v, "new_obsessions")?
        .iter()
        .map(|o| {
            Ok(NewObsession {
                title: text(o, "title")?,
                first_seen: text(o, "first_seen")?,
                intensity: text(o, "intensity")?,
                evidence: evidence(o, "evidence")?,
            })
        })
        .collect::<Result<Vec<_>, String>>()?;
    Ok(AttentionAnalysis { recurring_threads, unexpected_connections, new_obsessions })
}

fn validate_analysis(json: &str, item_count: usize) -> Result<AttentionAnalysis, String> {
    let cleaned = extract_json(json);
    validate_parsed_analysis(parse(&cleaned), item_count)
}

#[test]
fn test_validate_analysis_valid() {
    let json = make_valid_json(3);
    let result = validate_analysis(&json, 5);
    assert!(result.is_ok());
    let analysis = result.unwrap();
    assert_eq!(analysis.recurring_threads.len(), 1);
    assert_eq!(analysis.recurring_threads[0].evidence.len(), 3);
    assert_eq!(analysis.unexpected_connections.len(), 1);
    assert_eq!(analysis.new_obsessions.len(), 1);
}

#[test]
fn test_validate_analysis_out_of_bounds() {
    let json = make_valid_json(3);
    let result = validate_analysis(&json, 2);
    assert!(result.is_ok());
    let analysis = result.unwrap();
    assert_eq!(analysis.recurring_threads.len(), 1);
    assert_eq!(analysis.recurring_threads[0].evidence.len(), 2);
    assert_eq!(analysis.unexpected_connections.len(), 1);
    assert_eq!(analysis.unexpected_connections[0].group_a.items.len(), 1);
    assert_eq!(analysis.unexpected_connections[0].group_b.items.len(), 0);
    assert_eq!(analysis.new_obsessions.len(), 1);
    assert_eq!(analysis.new_obsessions[0].evidence.len(), 1);
}

#[test]
fn test_validate_analysis_all_out_of_bounds() {
    let json = make_valid_json(3);
    let result = validate_analysis(&json, 0);
    assert!(result.is_ok());
    let analysis = result.unwrap();
    assert!(analysis.recurring_threads.is_empty());
    assert!(analysis.unexpected_connections.is_empty());
    assert!(analysis.new_obsessions.is_empty());
}

#[test]
fn test_validate_analysis_invalid_json() {
    let result = validate_analysis("not json at all", 5);
    assert!(result.is_err());
    assert!(result.unwrap_err().contains("JSON 解析失败"));
}

#[test]
fn test_validate_analysis_empty_arrays() {
    let json = r#"{
        "recurring_threads": [],
        "unexpected_connections": [],
        "new_obsessions": []
    }"#;
    let result = validate_analysis(json, 5);
    assert!(result.is_ok());
    let analysis = result.unwrap();
    assert!(analysis.recurring_threads.is_empty());
    assert!(analysis.unexpected_connections.is_empty());
    assert!(analysis.new_obsessions.is_empty());
}

#[test]
fn test_validate_analysis_markdown_wrapped() {
    let json = format!("```json\n{}\n```", make_valid_json(2));
    let result = validate_analysis(&json, 5);
    assert!(result.is_ok());
}

#[test]
fn test_build_prompt_truncation_small() {
    let items: Vec<Item> = (0..5)
        .map(|i| {
            (
                format!("id-{}", i),
                Some("a".repeat(1500)),
                Some(format!("https://example.com/{}", i)),
                "2024-03-25".to_string(),
            )
        })
        .collect();
    let (system, user) = build_prompt(&items);
    assert!(!system.is_empty());
    assert!(user.contains("[0]"));
    assert!(user.contains("[4]"));
    assert!(user.contains(&"a".repeat(1000)));
    assert!(!user.contains(&"a".repeat(1001)));
}

#[test]
fn test_build_prompt_truncation_medium() {
    let items: Vec<Item> = (0..25)
        .map(|i| (format!("id-{}", i), Some("b".repeat(1000)), None, "2024-03-25".to_string()))
        .collect();
    let (_system, user) = build_prompt(&items);
    assert!(user.contains(&"b".repeat(600)));
    assert!(!user.contains(&"b".repeat(601)));
}

#[test]
fn test_build_prompt_truncation_large() {
    let items: Vec<Item> = (0..60)
        .map(|i| (format!("id-{}", i), Some("c".repeat(800)), None, "2024-03-25".to_string()))
        .collect();
    let (_system, user) = build_prompt(&items);
    assert!(user.contains(&"c".repeat(400)));
    assert!(!user.contains(&"c".repeat(401)));
}

#[test]
fn test_build_prompt_truncation_xlarge() {
    let items: Vec<Item> = (0..110)
        .map(|i| (format!("id-{}", i), Some("d".repeat(500)), None, "2024-03-25".to_string()))
        .collect();
    let (_system, user) = build_prompt(&items);
    assert!(user.contains(&"d".repeat(300)));
    assert!(!user.contains(&"d".repeat(301)));
}

#[test]
fn test_build_prompt_no_text() {
    let items = vec![("id-0".to_string(), None, None, "2024-03-25".to_string())];
    let (_system, user) = build_prompt(&items);
    assert!(user.contains("[无文本]"));
}

#[test]
fn test_build_prompt_short_text_no_truncation() {
    let items = vec![(
        "id-0".to_string(),
        Some("短文本".to_string()),
        None,
        "2024-03-25".to_string(),
    )];
    let (_system, user) = build_prompt(&items);
    assert!(user.contains("短文本"));
    assert!(!user.contains("..."));
}

#[test]
fn build_prompt_exact_message() {
    let items: Vec<Item> = vec![
        (
            "a1".to_string(),
            Some("hello".to_string()),
            Some("https://x.y".to_string()),
            "2024-01-02".to_string(),
        ),
        ("b2".to_string(), None, None, "2024-01-03".to_string()),
    ];
    let (system, user) = build_prompt(&items);
    assert_eq!(system, ATTENTION_SYSTEM_PROMPT);
    assert_eq!(
        user,
        "以下是用户最近收集的2条内容，请分析其中的注意力模式：\n\n\
         [0] (id=a1, 时间=2024-01-02 | 来源: https://x.y) hello\n\n\
         [1] (id=b2, 时间=2024-01-03) [无文本]"
    );
}

#[test]
fn build_prompt_limit_boundaries() {
    let make = |n: usize, len: usize| -> Vec<Item> {
        (0..n).map(|i| (format!("{}", i), Some("x".repeat(len)), None, "t".to_string())).collect()
    };
    let (_s, u) = build_prompt(&make(20, 1001));
    assert!(u.contains(&format!("{}...", "x".repeat(1000))));
    let (_s, u) = build_prompt(&make(50, 601));
    assert!(u.contains(&format!("{}...", "x".repeat(600))));
    let (_s, u) = build_prompt(&make(100, 401));
    assert!(u.contains(&format!("{}...", "x".repeat(400))));
    let (_s, u) = build_prompt(&make(0, 1));
    assert_eq!(u, "以下是用户最近收集的0条内容，请分析其中的注意力模式：\n\n");
}

#[test]
fn truncate_str_counts_characters() {
    assert_eq!(truncate_str("短文本测试", 3), "短文本...");
    assert_eq!(truncate_str("abc", 3), "abc");
    assert_eq!(truncate_str("", 0), "");
}

#[test]
fn extract_json_variants() {
    assert_eq!(extract_json("  {\"a\":1}  "), "{\"a\":1}");
    assert_eq!(extract_json("text ```json\n {\"a\":1} \n``` tail"), "{\"a\":1}");
    assert_eq!(extract_json("```\n[1]\n```"), "[1]");
    assert_eq!(extract_json("```json {\"a\":1}"), "```json {\"a\":1}");
}

#[test]
fn prune_drops_empty_patterns_and_is_idempotent() {
    let item = |i: usize| EvidenceItem { index: i, snippet: format!("s{}", i) };
    let analysis = AttentionAnalysis {
        recurring_threads: vec![
            RecurringThread { title: "t".into(), summary: "s".into(), evidence: vec![item(5)] },
            RecurringThread {
                title: "u".into(),
                summary: "s".into(),
                evidence: vec![item(0), item(9), item(1)],
            },
        ],
        unexpected_connections: vec![UnexpectedConnection {
            title: "c".into(),
            insight: "i".into(),
            group_a: EvidenceGroup { label: "a".into(), items: vec![item(7)] },
            group_b: EvidenceGroup { label: "b".into(), items: vec![item(8)] },
        }],
        new_obsessions: vec![NewObsession {
            title: "o".into(),
            first_seen: "2024".into(),
            intensity: "高".into(),
            evidence: vec![item(2)],
        }],
    };
    let once = prune_analysis(&analysis, 3);
    assert_eq!(once.recurring_threads.len(), 1);
    assert_eq!(once.recurring_threads[0].title, "u");
    let idx: Vec<usize> = once.recurring_threads[0].evidence.iter().map(|e| e.index).collect();
    assert_eq!(idx, vec![0, 1]);
    assert!(once.unexpected_connections.is_empty());
    assert_eq!(once.new_obsessions.len(), 1);
    let twice = prune_analysis(&once, 3);
    assert_eq!(twice.recurring_threads.len(), 1);
    assert_eq!(twice.recurring_threads[0].evidence.len(), 2);
    assert_eq!(twice.new_obsessions[0].evidence.len(), 1);
}

#[test]
fn validate_parsed_reports_parse_error() {
    let r = validate_parsed_analysis(Err("boom".to_string()), 3);
    assert_eq!(r.unwrap_err(), "JSON 解析失败: boom");
}

#[test]
fn provider_names() {
    assert_eq!(AnalysisProvider::from_str("OpenAI"), AnalysisProvider::OpenAi);
    assert_eq!(AnalysisProvider::from_str("openrouter"), AnalysisProvider::OpenRouter);
    assert_eq!(AnalysisProvider::from_str("OPENROUTER"), AnalysisProvider::OpenRouter);
    assert_eq!(AnalysisProvider::from_str("anthropic"), AnalysisProvider::Anthropic);
    assert_eq!(AnalysisProvider::from_str("other"), AnalysisProvider::Anthropic);
    assert_eq!(AnalysisProvider::from_str(""), AnalysisProvider::Anthropic);
}

#[test]
fn requests_per_provider() {
    let a = analysis_request(&AnalysisProvider::Anthropic, "k", "m", "sys", "user");
    assert_eq!(a.url, "https://api.anthropic.com/v1/messages");
    assert_eq!(a.headers[0], ("x-api-key".to_string(), "k".to_string()));
    assert_eq!(a.system.as_deref(), Some("sys"));
    assert_eq!(a.messages.len(), 1);
    assert_eq!(a.messages[0].role, "user");
    assert_eq!(a.max_tokens, 4096);
    assert!(!a.json_object_response);

    let o = analysis_request(&AnalysisProvider::OpenRouter, "k", "m", "sys", "user");
    assert_eq!(o.url, "https://openrouter.ai/api/v1/chat/completions");
    assert_eq!(o.headers.len(), 4);
    assert_eq!(o.headers[0], ("Authorization".to_string(), "Bearer k".to_string()));
    assert_eq!(o.headers[3], ("X-Title".to_string(), "Xiaoyun".to_string()));
    assert!(o.system.is_none());
    assert_eq!(o.messages[0].role, "system");
    assert_eq!(o.messages[0].content, "sys");
    assert!(o.json_object_response);

    let p = analysis_request(&AnalysisProvider::OpenAi, "k", "m", "sys", "user");
    assert_eq!(p.url, "https://api.openai.com/v1/chat/completions");
    assert_eq!(p.headers.len(), 2);
}

#[test]
fn replies_and_failures() {
    let a = AnalysisProvider::Anthropic;
    let o = AnalysisProvider::OpenAi;
    assert_eq!(
        analysis_reply(&a, false, "500 Internal Server Error", "oops", Ok(None)).unwrap_err(),
        "Anthropic API 错误 (500 Internal Server Error): oops"
    );
    assert_eq!(
        analysis_reply(&o, false, "401 Unauthorized", "no", Ok(None)).unwrap_err(),
        "API 错误 (401 Unauthorized): no"
    );
    assert_eq!(
        analysis_reply(&a, true, "200 OK", "{}", Err("bad".into())).unwrap_err(),
        "解析 Anthropic 响应失败: bad"
    );
    assert_eq!(analysis_reply(&o, true, "200 OK", "{}", Ok(Some("t".into()))).unwrap(), "t");
    assert_eq!(analysis_reply(&o, true, "200 OK", "{}", Ok(None)).unwrap(), "");
    assert_eq!(
        analysis_failure_message(&a, &AnalysisFailure::Send("x".into())),
        "Anthropic API 请求失败: x"
    );
    assert_eq!(analysis_failure_message(&o, &AnalysisFailure::Read("y".into())), "读取 API 响应失败: y");
    assert_eq!(
        analysis_failure_message(&o, &AnalysisFailure::ClientBuild("z".into())),
        "HTTP client 创建失败: z"
    );
}

#[test]
fn extract_json_twice_is_once() {
    for s in [
        "  {\"a\":1}  ",
        "text ```json\n {\"a\":1} \n``` tail",
        "```\n[1]\n```",
        "```json {\"a\":1}",
        "````",
        "``` ```json",
        "",
    ] {
        let once = extract_json(s);
        assert_eq!(extract_json(&once), once);
    }
}
