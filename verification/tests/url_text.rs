use openwiki::url_text::{
    base64_decode, extract_html_title, extract_markdown_title, extract_og_description,
    extract_og_title, extract_wechat_content, extract_wechat_title, format_with_title,
    html_decode, parse_github_repo_url, parse_twitter_url, strip_html_to_text,
    truncate_content, tag_window_effect,
};

fn pair(a: &str, b: &str) -> Option<(String, String)> {
    Some((a.to_string(), b.to_string()))
}

#[test]
fn html_entities() {
    assert_eq!(html_decode("a &amp; b &lt;c&gt; &quot;d&quot; &#39;e&#x27; f&nbsp;g &#x2F; &#x3D;"),
        "a & b <c> \"d\" 'e' f g / =");
    assert_eq!(html_decode("&amp;lt;"), "<");
    assert_eq!(html_decode("plain"), "plain");
}

#[test]
fn truncation_by_bytes() {
    let short = "x".repeat(50000);
    assert_eq!(truncate_content(short.clone()), short);
    let long = "x".repeat(50001);
    assert_eq!(truncate_content(long), format!("{}...\n\n[内容已截断]", "x".repeat(50000)));
    let wide = "字".repeat(20000);
    assert_eq!(truncate_content(wide.clone()), format!("{}...\n\n[内容已截断]", wide));
    let once = truncate_content("y".repeat(60000));
    assert_eq!(truncate_content(once.clone()), once);
}

#[test]
fn title_framing() {
    assert_eq!(format_with_title(&Some("T".to_string()), "body"), "# T\n\nbody");
    assert_eq!(format_with_title(&None, "body"), "body");
}

#[test]
fn markdown_titles() {
    assert_eq!(extract_markdown_title("intro\n  # Hello world  \nmore"), Some("Hello world".to_string()));
    assert_eq!(extract_markdown_title("## Sub\n# Top"), Some("Top".to_string()));
    assert_eq!(extract_markdown_title("#NoSpace"), None);
    let late = format!("{}# Late", "line\n".repeat(10));
    assert_eq!(extract_markdown_title(&late), None);
    let in_time = format!("{}# In", "line\n".repeat(9));
    assert_eq!(extract_markdown_title(&in_time), Some("In".to_string()));
    assert_eq!(extract_markdown_title(&format_with_title(&Some("Roundtrip".to_string()), "x")),
        Some("Roundtrip".to_string()));
}

#[test]
fn meta_titles() {
    let html = r#"<meta property="og:title" content=" A &amp; B "><meta property="og:description" content="Desc"><title>Other</title>"#;
    assert_eq!(extract_og_title(html), Some("A & B".to_string()));
    assert_eq!(extract_og_description(html), Some("Desc".to_string()));
    assert_eq!(extract_html_title(html), Some("A & B".to_string()));
    assert_eq!(extract_html_title("<title> Page </title>"), Some("Page".to_string()));
    assert_eq!(extract_html_title("<title>  </title>"), None);
    assert_eq!(extract_og_title("og:title content=\"\""), None);
}

#[test]
fn wechat_titles() {
    assert_eq!(extract_wechat_title("var msg_title = 'Hello &amp; bye';"), Some("Hello & bye".to_string()));
    assert_eq!(extract_wechat_title("var msg_title = ''; msg_title = \"Dq\""), Some("Dq".to_string()));
    assert_eq!(extract_wechat_title("<meta property=\"og:title\" content=\"OG\">"), Some("OG".to_string()));
    assert_eq!(extract_wechat_title("nothing"), None);
}

#[test]
fn wechat_content_reads_the_article_div() {
    let html = "<div id=\"js_content\" style=\"x\"><p>First &amp; line</p><section><p>Second</p></section><br/>Third</div><div>after</div>";
    assert_eq!(extract_wechat_content(html), "First & line\nSecond\nThird");
    assert_eq!(extract_wechat_content("<div>no article</div>"), "");
    assert_eq!(extract_wechat_content("id=\"js_content\""), "");
}

#[test]
fn twitter_urls() {
    assert_eq!(parse_twitter_url("https://x.com/jack/status/20"), pair("jack", "20"));
    assert_eq!(parse_twitter_url(" https://twitter.com/a/status/123/?s=20 "), pair("a", "123"));
    assert_eq!(parse_twitter_url("https://x.com/a/status/12ab"), None);
    assert_eq!(parse_twitter_url("https://x.com/status/1"), pair("x.com", "1"));
    assert_eq!(parse_twitter_url("https://x.com/home"), None);
}

#[test]
fn github_urls() {
    assert_eq!(parse_github_repo_url("https://github.com/rust-lang/rust"), pair("rust-lang", "rust"));
    assert_eq!(parse_github_repo_url("https://github.com/o/r/tree/main?x=1"), pair("o", "r"));
    assert_eq!(parse_github_repo_url("https://github.com/o"), None);
    assert_eq!(parse_github_repo_url("https://github.com/-o/r"), None);
    assert_eq!(parse_github_repo_url("https://github.com/./r"), None);
    assert_eq!(parse_github_repo_url("https://github.com/o/"), None);
}

#[test]
fn base64() {
    assert_eq!(base64_decode("aGVsbG8="), Some("hello".to_string()));
    assert_eq!(base64_decode("aGVs\nbG8="), Some("hello".to_string()));
    assert_eq!(base64_decode("5L2g5aW9"), Some("你好".to_string()));
    assert_eq!(base64_decode("aGVsbA=="), Some("hell".to_string()));
    assert_eq!(base64_decode("aGV*"), None);
    assert_eq!(base64_decode("/w=="), None);
    assert_eq!(base64_decode(""), Some(String::new()));
}

#[test]
fn html_to_text() {
    let html = "<html><head><title>T</title><style>p{}</style></head><body><script>var x = 1;</script><h1>Title</h1><p>Hello &amp; welcome</p><div>x</div><ul><li>Item one</li></ul></body></html>";
    assert_eq!(strip_html_to_text(html), "Title\nHello & welcome\nItem one");
    assert_eq!(strip_html_to_text("<p>ab</p>"), "ab");
    assert_eq!(strip_html_to_text("<BR>ab<SCRIPT>no</SCRIPT>cd"), "abcd");
}

#[test]
fn html_to_text_keeps_non_ascii_text() {
    assert_eq!(strip_html_to_text("<p>é!</p>"), "é!");
    assert_eq!(strip_html_to_text("<body><p>café</p></body>"), "café");
    assert_eq!(strip_html_to_text("<body>中文中文中文"), "中文中文中文");
}

#[test]
fn html_to_text_reads_tags_near_wide_characters() {
    let html = format!("<b>{}", "é".repeat(20));
    assert_eq!(strip_html_to_text(&html), "é".repeat(20));
    let html = format!("<p>{}</p><SCRIPT>{}</SCRIPT>x{}", "中".repeat(7), "中".repeat(9), "文".repeat(3));
    assert_eq!(strip_html_to_text(&html), format!("{}\nx{}", "中".repeat(7), "文".repeat(3)));
}

fn standard_base64(bytes: &[u8]) -> String {
    const ALPHABET: &[u8] = b"ABCDEFGHIJKLMNOPQRSTUVWXYZabcdefghijklmnopqrstuvwxyz0123456789+/";
    let mut out = String::new();
    for chunk in bytes.chunks(3) {
        let b = [chunk[0], *chunk.get(1).unwrap_or(&0), *chunk.get(2).unwrap_or(&0)];
        let n = ((b[0] as u32) << 16) | ((b[1] as u32) << 8) | b[2] as u32;
        for k in 0..4 {
            if k <= chunk.len() {
                out.push(ALPHABET[((n >> (18 - 6 * k)) & 63) as usize] as char);
            } else {
                out.push('=');
            }
        }
    }
    out
}

#[test]
fn base64_round_trip() {
    for text in ["", "a", "ab", "abc", "hello world", "你好，世界", "café ☕ 🎉"] {
        let encoded = standard_base64(text.as_bytes());
        assert_eq!(base64_decode(&encoded), Some(text.to_string()));
    }
}

#[test]
fn tag_window_effects() {
    assert_eq!(tag_window_effect("<script src=x>", false, false), (true, false, false));
    assert_eq!(tag_window_effect("</script>", true, true), (false, true, false));
    assert_eq!(tag_window_effect("<style>", false, false), (false, true, false));
    assert_eq!(tag_window_effect("</style>", true, true), (true, false, false));
    assert_eq!(tag_window_effect("<br/>", false, false), (false, false, true));
    assert_eq!(tag_window_effect("</p>", true, false), (true, false, true));
    assert_eq!(tag_window_effect("</div>", false, false), (false, false, true));
    assert_eq!(tag_window_effect("</h2>", false, false), (false, false, true));
    assert_eq!(tag_window_effect("</li>", false, false), (false, false, true));
    assert_eq!(tag_window_effect("</tr>", false, false), (false, false, true));
    assert_eq!(tag_window_effect("<p class=a>", true, true), (true, true, false));
    assert_eq!(tag_window_effect("<SCRIPT>", false, false), (false, false, false));
}
