use openwiki::url_reader::{
    direct_html_read_result, extract_twitter_article_content, fetch_plan, first_stage,
    general_fetch_error, next_stage, FetchNext, FetchStage,
    github_api_urls, github_read_result, jina_read_result, jina_reader_url, reddit_json_url,
    reddit_read_result, twitter_api_url, twitter_read_result, wechat_read_result, FetchRoute,
    GithubRepoInfo, RedditPost, Tweet, TweetArticle, TwitterBlock,
};

fn block(text: &str, ty: Option<&str>) -> TwitterBlock {
    TwitterBlock { text: Some(text.to_string()), block_type: ty.map(|t| t.to_string()) }
}

#[test]
fn plan_routes_urls() {
    assert!(matches!(fetch_plan("  https://mp.weixin.qq.com/s/abc  ").unwrap().route, FetchRoute::WeChat));
    assert_eq!(fetch_plan("  https://mp.weixin.qq.com/s/abc  ").unwrap().url, "https://mp.weixin.qq.com/s/abc");
    assert!(matches!(fetch_plan("https://x.com/jack/status/20").unwrap().route, FetchRoute::Twitter));
    assert!(matches!(fetch_plan("https://twitter.com/jack/status/20").unwrap().route, FetchRoute::Twitter));
    match fetch_plan("https://github.com/rust-lang/rust").unwrap().route {
        FetchRoute::GitHubRepo(o, r) => {
            assert_eq!(o, "rust-lang");
            assert_eq!(r, "rust");
        }
        other => panic!("unexpected route {:?}", other),
    }
    assert!(matches!(fetch_plan("https://github.com/settings").unwrap().route, FetchRoute::General));
    assert!(matches!(fetch_plan("https://www.reddit.com/r/rust/comments/1/x/").unwrap().route, FetchRoute::Reddit));
    assert!(matches!(fetch_plan("https://example.com/page").unwrap().route, FetchRoute::General));
}

#[test]
fn plan_routes_by_host() {
    assert!(matches!(fetch_plan("https://www.dropbox.com/s/abc").unwrap().route, FetchRoute::General));
    assert!(matches!(fetch_plan("https://example.com/?u=https://x.com/a").unwrap().route, FetchRoute::General));
    assert!(matches!(fetch_plan("https://example.com/mp.weixin.qq.com").unwrap().route, FetchRoute::General));
    assert!(matches!(fetch_plan("HTTPS://X.COM/jack/status/1").unwrap().route, FetchRoute::Twitter));
    assert!(matches!(fetch_plan("https://u@mobile.twitter.com:443/a").unwrap().route, FetchRoute::Twitter));
    assert!(matches!(fetch_plan("www.x.com/a/status/2").unwrap().route, FetchRoute::Twitter));
    assert!(matches!(fetch_plan("https://old.reddit.com/r/rust").unwrap().route, FetchRoute::Reddit));
    assert!(matches!(fetch_plan("https://notreddit.com/r/rust").unwrap().route, FetchRoute::General));
    assert!(matches!(fetch_plan("https://gitlab.com/github.com/o/r").unwrap().route, FetchRoute::General));
    assert!(matches!(fetch_plan("github.com/o/r").unwrap().route, FetchRoute::GitHubRepo(_, _)));
}

#[test]
fn plan_refuses_blank_url() {
    assert_eq!(fetch_plan("   ").unwrap_err(), "Empty URL");
    assert_eq!(fetch_plan("").unwrap_err(), "Empty URL");
}

#[test]
fn general_error_names_both_readers() {
    assert_eq!(general_fetch_error("timeout", "404"), "Jina: timeout | Direct: 404");
}

#[test]
fn wechat_article_from_js_content() {
    let html = "<meta property=\"og:title\" content=\"Hello\" /><div id=\"js_content\" class=\"x\"><p>This is a long enough article body.</p></div>";
    let r = wechat_read_result(html).unwrap();
    assert_eq!(r.title, Some("Hello".to_string()));
    assert_eq!(r.content, "# Hello\n\nThis is a long enough article body.");
}

#[test]
fn wechat_falls_back_to_description() {
    let html = "<meta property=\"og:description\" content=\"Line one\\x0aLine two is here \\x26amp;amp; more\" />";
    let r = wechat_read_result(html).unwrap();
    assert_eq!(r.title, None);
    assert_eq!(r.content, "Line one\nLine two is here & more");
}

#[test]
fn wechat_too_short() {
    let html = "<div id=\"js_content\"><p>short</p></div>";
    assert_eq!(wechat_read_result(html).unwrap_err(), "WeChat content too short (5 chars)");
}

#[test]
fn twitter_article_blocks() {
    let blocks = vec![
        block("Head", Some("header-one")),
        block("Sub", Some("header-two")),
        block("Small", Some("header-three")),
        block("Quote", Some("blockquote")),
        block("One", Some("ordered-list-item")),
        block("Two", Some("unordered-list-item")),
        block("Image", Some("atomic")),
        block("Plain", None),
        block("", Some("header-one")),
        TwitterBlock { text: None, block_type: None },
    ];
    assert_eq!(
        extract_twitter_article_content(&blocks),
        "## Head\n\n### Sub\n\n#### Small\n\n> Quote\n\n- One\n\n- Two\n\nPlain"
    );
    assert_eq!(extract_twitter_article_content(&[]), "");
}

#[test]
fn twitter_api_address() {
    assert_eq!(
        twitter_api_url("https://x.com/jack/status/20").unwrap(),
        "https://api.fxtwitter.com/jack/status/20"
    );
    assert_eq!(
        twitter_api_url("https://example.com/nothing").unwrap_err(),
        "Cannot parse Twitter URL: https://example.com/nothing"
    );
}

#[test]
fn tweet_text_result() {
    let tweet = Tweet {
        author_name: Some("Jack".to_string()),
        author_handle: Some("jack".to_string()),
        article: None,
        text: Some("just setting up my twttr account".to_string()),
    };
    let r = twitter_read_result(Some(tweet)).unwrap();
    assert_eq!(r.content, "> @jack (Jack)\n\njust setting up my twttr account");
    assert_eq!(r.title, Some("@jack: just setting up my twttr account…".to_string()));
}

#[test]
fn tweet_article_result() {
    let tweet = Tweet {
        author_name: Some("Ann".to_string()),
        author_handle: Some("ann".to_string()),
        article: Some(TweetArticle {
            title: Some("Notes".to_string()),
            blocks: vec![block("A first paragraph that is long.", None)],
        }),
        text: Some("ignored".to_string()),
    };
    let r = twitter_read_result(Some(tweet)).unwrap();
    assert_eq!(r.content, "# Notes\n\n> @ann (Ann)\n\nA first paragraph that is long.");
    assert_eq!(r.title, Some("Notes".to_string()));
}

#[test]
fn tweet_errors() {
    assert_eq!(twitter_read_result(None).unwrap_err(), "fxtwitter: no tweet");
    let tweet = Tweet { author_name: None, author_handle: None, article: None, text: Some("hi".to_string()) };
    assert_eq!(twitter_read_result(Some(tweet)).unwrap_err(), "Tweet content too short");
}

#[test]
fn github_addresses() {
    let (a, b) = github_api_urls("o", "r");
    assert_eq!(a, "https://api.github.com/repos/o/r");
    assert_eq!(b, "https://api.github.com/repos/o/r/readme");
}

#[test]
fn github_result_with_readme() {
    let info = GithubRepoInfo {
        description: Some("A lib".to_string()),
        stars: Some(42),
        language: None,
        full_name: Some("o/r".to_string()),
    };
    // "Hello, World!" in base64, split over two lines.
    let r = github_read_result(&info, Some("SGVsbG8sIFdv\ncmxkIQ==".to_string()));
    assert_eq!(r.content, "# o/r\n\nA lib\n\n⭐ 42 stars · Language: Unknown\n\n---\n\nHello, World!");
    assert_eq!(r.title, Some("o/r — A lib".to_string()));
    let bare = github_read_result(&info, None);
    assert_eq!(bare.content, "# o/r\n\nA lib\n\n⭐ 42 stars · Language: Unknown\n");
    let bad = github_read_result(&info, Some("@@@".to_string()));
    assert_eq!(bad.content, bare.content);
}

#[test]
fn reddit_addresses() {
    assert_eq!(
        reddit_json_url("https://www.reddit.com/r/rust/comments/1/x//?utm=1"),
        "https://www.reddit.com/r/rust/comments/1/x.json"
    );
    assert_eq!(reddit_json_url("https://reddit.com/r/a"), "https://reddit.com/r/a.json");
}

#[test]
fn reddit_results() {
    let post = RedditPost {
        title: Some("Title".to_string()),
        selftext: Some("Body text".to_string()),
        subreddit: Some("rust".to_string()),
        author: Some("me".to_string()),
        score: Some(-3),
        url: None,
    };
    let r = reddit_read_result(Some(post)).unwrap();
    assert_eq!(r.content, "# Title\n\n> r/rust · u/me · -3 points\n\nBody text");
    assert_eq!(r.title, Some("Title".to_string()));
    let link = RedditPost {
        title: None,
        selftext: None,
        subreddit: None,
        author: None,
        score: None,
        url: Some("https://e.com".to_string()),
    };
    let r = reddit_read_result(Some(link)).unwrap();
    assert_eq!(r.content, "# \n\n> r/ · u/ · 0 points\n\nLink: https://e.com");
    assert_eq!(r.title, None);
    assert_eq!(reddit_read_result(None).unwrap_err(), "Reddit: cannot find post data");
}

#[test]
fn jina_results() {
    assert_eq!(jina_reader_url("https://e.com"), "https://r.jina.ai/https://e.com");
    assert_eq!(jina_read_result(false, "404 Not Found", String::new()).unwrap_err(), "Jina status: 404 Not Found");
    assert_eq!(jina_read_result(true, "200 OK", "   tiny   ".to_string()).unwrap_err(), "Content too short");
    let body = "Title: x\n\n# Big Heading\n\nSome body text that is long enough.".to_string();
    let r = jina_read_result(true, "200 OK", body.clone()).unwrap();
    assert_eq!(r.content, body);
    assert_eq!(r.title, Some("Big Heading".to_string()));
}

#[test]
fn direct_results() {
    let html = "<html><head><title>Page</title></head><body><p>Readable paragraph text here.</p></body></html>";
    let r = direct_html_read_result(html).unwrap();
    assert_eq!(r.content, "# Page\n\nReadable paragraph text here.");
    assert_eq!(r.title, Some("Page".to_string()));
    let short = "<body><p>tiny</p></body>";
    assert_eq!(
        direct_html_read_result(short).unwrap_err(),
        "Direct HTML: content too short (4 chars)"
    );
}

fn ok_result(text: &str) -> Result<openwiki::url_text::UrlReadResult, String> {
    Ok(openwiki::url_text::UrlReadResult { content: text.to_string(), title: None })
}

#[test]
fn stages_start_from_the_route() {
    assert!(matches!(first_stage(FetchRoute::General), FetchStage::Jina));
    assert!(matches!(first_stage(FetchRoute::Reddit), FetchStage::Reddit));
    assert!(matches!(first_stage(FetchRoute::WeChat), FetchStage::WeChat));
    assert!(matches!(first_stage(FetchRoute::Twitter), FetchStage::Twitter));
    match first_stage(FetchRoute::GitHubRepo("o".to_string(), "r".to_string())) {
        FetchStage::GitHubRepo(o, r) => assert_eq!((o.as_str(), r.as_str()), ("o", "r")),
        other => panic!("unexpected stage {:?}", other),
    }
}

#[test]
fn stages_fall_back_in_order() {
    assert!(matches!(next_stage(FetchStage::Reddit, Err("403".to_string())), FetchNext::Try(FetchStage::Jina)));
    match next_stage(FetchStage::Jina, Err("timeout".to_string())) {
        FetchNext::Try(FetchStage::Direct(e)) => assert_eq!(e, "timeout"),
        other => panic!("unexpected step {:?}", other),
    }
    match next_stage(FetchStage::Direct("timeout".to_string()), Err("404".to_string())) {
        FetchNext::Done(Err(e)) => assert_eq!(e, "Jina: timeout | Direct: 404"),
        other => panic!("unexpected step {:?}", other),
    }
    match next_stage(FetchStage::Reddit, ok_result("post")) {
        FetchNext::Done(Ok(r)) => assert_eq!(r.content, "post"),
        other => panic!("unexpected step {:?}", other),
    }
    match next_stage(FetchStage::Twitter, Err("fxtwitter: no tweet".to_string())) {
        FetchNext::Done(Err(e)) => assert_eq!(e, "fxtwitter: no tweet"),
        other => panic!("unexpected step {:?}", other),
    }
    match next_stage(FetchStage::GitHubRepo("o".to_string(), "r".to_string()), Err("GitHub API: x".to_string())) {
        FetchNext::Done(Err(e)) => assert_eq!(e, "GitHub API: x"),
        other => panic!("unexpected step {:?}", other),
    }
}
