//! Turning what was fetched from a URL into readable content: which reader a
//! URL goes to, and how each reader's raw material becomes the content and
//! title that are kept.
use vstd::prelude::*;
use vstd::string::*;
use crate::text::{
    chars_equal_str,
    after_last, after_last_exec, ascii_lowercase, ascii_lowercase_exec, copy_range,
    lemma_find_from_props, take_until_any, take_until_any_exec,
    chars_of, decimal, find, find_str, join, join_exec, push_all, push_decimal, push_signed_decimal,
    push_str, replace, replace_str, signed_decimal, split_char, split_char_exec, str_equal,
    string_from_chars, take_chars, take_chars_exec, trim, trim_end_char, trim_end_char_exec,
    trim_exec, utf8_len, utf8_len_exceeds, utf8_len_exec, views,
};
use crate::url_text::{
    base64_decode, base64_decoded, extract_html_title, extract_markdown_title,
    extract_og_description, extract_wechat_content, extract_wechat_title, format_with_title,
    html_title, markdown_title, meta_content, opt_view, parse_github_repo_url, parse_twitter_url,
    first_github_repo, first_twitter_status, stripped_html, truncate_content, truncated_content,
    strip_html_to_text, url_segments, wechat_content, wechat_title, with_title, UrlReadResult,
    MIN_CONTENT_LENGTH,
};

verus! {

/// A read result as text: the content and the title, if any.
pub open spec fn read_view(r: UrlReadResult) -> (Seq<char>, Option<Seq<char>>) {
    (r.content@, opt_view(r.title))
}

/// The result of a reader as text.
pub open spec fn outcome_view(r: Result<UrlReadResult, String>) -> Result<
    (Seq<char>, Option<Seq<char>>),
    Seq<char>,
> {
    match r {
        Ok(x) => Ok(read_view(x)),
        Err(e) => Err(e@),
    }
}

/// The optional string, or `d` when absent.
pub open spec fn or_default(o: Option<String>, d: Seq<char>) -> Seq<char> {
    match o {
        Some(s) => s@,
        None => d,
    }
}

fn string_or(o: &Option<String>, d: &str) -> (r: String)
    ensures
        r@ == or_default(*o, d@),
{
    match o {
        Some(s) => s.clone(),
        None => String::from_str(d),
    }
}

fn concat3(a: &str, b: &str, c: &str) -> (r: String)
    ensures
        r@ == a@ + b@ + c@,
{
    let mut r = String::from_str(a);
    r.append(b);
    r.append(c);
    r
}

// ---------------------------------------------------------------------
// Routing
// ---------------------------------------------------------------------

/// Which reader a URL goes to first.
#[derive(Debug)]
pub enum FetchRoute {
    /// WeChat articles are read from their HTML.
    WeChat,
    /// Tweets are read through the fxtwitter API.
    Twitter,
    /// Repositories are read through the GitHub API (owner, repository).
    GitHubRepo(String, String),
    /// Reddit posts are read through their JSON; on failure, as `General`.
    Reddit,
    /// Everything else: the Jina reader, then the page's own HTML.
    General,
}

/// The trimmed URL and the reader it goes to.
#[derive(Debug)]
pub struct FetchPlan {
    pub url: String,
    pub route: FetchRoute,
}


/// A route as text.
pub enum RouteView {
    WeChat,
    Twitter,
    GitHubRepo(Seq<char>, Seq<char>),
    Reddit,
    General,
}

impl View for FetchRoute {
    type V = RouteView;

    open spec fn view(&self) -> RouteView {
        match self {
            FetchRoute::WeChat => RouteView::WeChat,
            FetchRoute::Twitter => RouteView::Twitter,
            FetchRoute::GitHubRepo(o, r) => RouteView::GitHubRepo(o@, r@),
            FetchRoute::Reddit => RouteView::Reddit,
            FetchRoute::General => RouteView::General,
        }
    }
}

/// The part of `u` after its scheme (`scheme://`), or all of `u` when it
/// has none: a `://` counts only before any `/`, `?` or `#`.
pub open spec fn after_scheme(u: Seq<char>) -> Seq<char> {
    match find(u, "://"@) {
        Some(k) => if take_until_any(u, "/?#"@).len() >= k {
            u.skip(k + 3)
        } else {
            u
        },
        None => u,
    }
}

/// The host of a URL, in lowercase: what lies between the scheme and the
/// first `/`, `?` or `#`, without user information (up to the last `@`) and
/// without a port (from the first `:`).
pub open spec fn url_host(u: Seq<char>) -> Seq<char> {
    ascii_lowercase(
        take_until_any(after_last(take_until_any(after_scheme(u), "/?#"@), '@'), ":"@),
    )
}

/// Twitter's and X's hosts, with their `www.` and `mobile.` forms.
pub open spec fn is_twitter_host(h: Seq<char>) -> bool {
    ||| h == "x.com"@
    ||| h == "twitter.com"@
    ||| h == "www.x.com"@
    ||| h == "www.twitter.com"@
    ||| h == "mobile.x.com"@
    ||| h == "mobile.twitter.com"@
}

/// Reddit's host or one of its subdomains.
pub open spec fn is_reddit_host(h: Seq<char>) -> bool {
    h == "reddit.com"@ || crate::text::ends_with(h, ".reddit.com"@)
}

/// The route of the trimmed, non-empty URL `u`, chosen by its host: WeChat
/// articles on `mp.weixin.qq.com`, tweets on Twitter's or X's hosts,
/// repositories on `github.com`, posts on Reddit's hosts; everything else,
/// and GitHub pages that are not a repository, is read generally.
pub open spec fn route_of(u: Seq<char>) -> RouteView {
    let h = url_host(u);
    if h == "mp.weixin.qq.com"@ {
        RouteView::WeChat
    } else if is_twitter_host(h) {
        RouteView::Twitter
    } else {
        match first_github_repo(url_segments(u), 0) {
            Some((owner, repo)) if h == "github.com"@ => RouteView::GitHubRepo(owner, repo),
            _ => if is_reddit_host(h) {
                RouteView::Reddit
            } else {
                RouteView::General
            },
        }
    }
}

fn url_host_exec(u: &[char]) -> (r: Vec<char>)
    ensures
        r@ == url_host(u@),
{
    let head = take_until_any_exec(u, "/?#");
    let rest = match find_str(u, "://") {
        Some(k) => {
            proof {
                reveal_strlit("://");
                lemma_find_from_props(u@, 0, "://"@);
                assert(crate::text::matches_at(u@, k as int, "://"@));
                assert(k + 3 <= u@.len());
            }
            if head.len() >= k {
                assert(k + 3 <= u.len());
                let r = copy_range(u, k + 3, u.len());
                assert(r@ =~= u@.skip(k + 3));
                r
            } else {
                copy_range(u, 0, u.len())
            }
        },
        None => copy_range(u, 0, u.len()),
    };
    assert(rest@ =~= after_scheme(u@));
    let authority = take_until_any_exec(rest.as_slice(), "/?#");
    let host_port = after_last_exec(authority.as_slice(), '@');
    let host = take_until_any_exec(host_port.as_slice(), ":");
    ascii_lowercase_exec(host.as_slice())
}

/// Chooses the reader for `url` by its host: WeChat articles, tweets,
/// GitHub repositories and Reddit posts have their own; other URLs, and
/// GitHub pages that are not a repository, are read generally.  A blank
/// URL is an error.
pub fn fetch_plan(url: &str) -> (r: Result<FetchPlan, String>)
    ensures
        trim(url@).len() == 0 <==> r is Err,
        r matches Err(e) ==> e@ == "Empty URL"@,
        r matches Ok(p) ==> p.url@ == trim(url@) && p.route@ == route_of(trim(url@)),
{
    let cs = chars_of(url);
    let clean = trim_exec(cs.as_slice());
    if clean.len() == 0 {
        return Err(String::from_str("Empty URL"));
    }
    let clean_string = string_from_chars(clean.as_slice());
    let host = url_host_exec(clean.as_slice());
    let h = host.as_slice();
    let route = if chars_equal_str(h, "mp.weixin.qq.com") {
        FetchRoute::WeChat
    } else if chars_equal_str(h, "x.com") || chars_equal_str(h, "twitter.com") || chars_equal_str(
        h,
        "www.x.com",
    ) || chars_equal_str(h, "www.twitter.com") || chars_equal_str(h, "mobile.x.com")
        || chars_equal_str(h, "mobile.twitter.com") {
        FetchRoute::Twitter
    } else {
        let repo = if chars_equal_str(h, "github.com") {
            parse_github_repo_url(clean_string.as_str())
        } else {
            None
        };
        match repo {
            Some((owner, name)) => FetchRoute::GitHubRepo(owner, name),
            None => if chars_equal_str(h, "reddit.com") || crate::text::ends_with_str(
                h,
                ".reddit.com",
            ) {
                FetchRoute::Reddit
            } else {
                FetchRoute::General
            },
        }
    };
    Ok(FetchPlan { url: clean_string, route })
}

/// The error reported when both general readers fail.
pub fn general_fetch_error(jina_error: &str, direct_error: &str) -> (r: String)
    ensures
        r@ == "Jina: "@ + jina_error@ + " | Direct: "@ + direct_error@,
{
    let mut r = String::from_str("Jina: ");
    r.append(jina_error);
    r.append(" | Direct: ");
    r.append(direct_error);
    r
}

// ---------------------------------------------------------------------
// The order in which readers are tried
// ---------------------------------------------------------------------

/// The reader being tried for a URL.
#[derive(Debug)]
pub enum FetchStage {
    WeChat,
    Twitter,
    GitHubRepo(String, String),
    Reddit,
    Jina,
    /// The page's own HTML, after the Jina reader failed with this error.
    Direct(String),
}

/// What to do after a reader answered: try another, or give this result.
#[derive(Debug)]
pub enum FetchNext {
    Try(FetchStage),
    Done(Result<UrlReadResult, String>),
}

/// A stage as text.
pub enum StageView {
    WeChat,
    Twitter,
    GitHubRepo(Seq<char>, Seq<char>),
    Reddit,
    Jina,
    Direct(Seq<char>),
}

/// A next step as text.
pub enum NextView {
    Try(StageView),
    Done(Result<(Seq<char>, Option<Seq<char>>), Seq<char>>),
}

impl View for FetchStage {
    type V = StageView;

    open spec fn view(&self) -> StageView {
        match self {
            FetchStage::WeChat => StageView::WeChat,
            FetchStage::Twitter => StageView::Twitter,
            FetchStage::GitHubRepo(o, r) => StageView::GitHubRepo(o@, r@),
            FetchStage::Reddit => StageView::Reddit,
            FetchStage::Jina => StageView::Jina,
            FetchStage::Direct(e) => StageView::Direct(e@),
        }
    }
}

impl View for FetchNext {
    type V = NextView;

    open spec fn view(&self) -> NextView {
        match self {
            FetchNext::Try(s) => NextView::Try(s@),
            FetchNext::Done(r) => NextView::Done(outcome_view(*r)),
        }
    }
}

/// The reader a route starts with: its own, or the Jina reader for general pages.
pub open spec fn first_stage_of(route: RouteView) -> StageView {
    match route {
        RouteView::WeChat => StageView::WeChat,
        RouteView::Twitter => StageView::Twitter,
        RouteView::GitHubRepo(o, r) => StageView::GitHubRepo(o, r),
        RouteView::Reddit => StageView::Reddit,
        RouteView::General => StageView::Jina,
    }
}

/// After a reader answered: a failed Reddit read falls back to the Jina
/// reader, a failed Jina read to the page's own HTML, and when that fails
/// too the error names both failures; every other answer is the result.
pub open spec fn next_after(
    stage: StageView,
    outcome: Result<(Seq<char>, Option<Seq<char>>), Seq<char>>,
) -> NextView {
    match (stage, outcome) {
        (StageView::Reddit, Err(_)) => NextView::Try(StageView::Jina),
        (StageView::Jina, Err(e)) => NextView::Try(StageView::Direct(e)),
        (StageView::Direct(j), Err(h)) => NextView::Done(
            Err("Jina: "@ + j + " | Direct: "@ + h),
        ),
        (_, o) => NextView::Done(o),
    }
}

/// How many more readers a stage may lead to.
pub open spec fn stages_left(stage: StageView) -> nat {
    match stage {
        StageView::Reddit => 2,
        StageView::Jina => 1,
        _ => 0,
    }
}

/// The reader to try first for a planned route.
pub fn first_stage(route: FetchRoute) -> (r: FetchStage)
    ensures
        r@ == first_stage_of(route@),
{
    match route {
        FetchRoute::WeChat => FetchStage::WeChat,
        FetchRoute::Twitter => FetchStage::Twitter,
        FetchRoute::GitHubRepo(o, r) => FetchStage::GitHubRepo(o, r),
        FetchRoute::Reddit => FetchStage::Reddit,
        FetchRoute::General => FetchStage::Jina,
    }
}

/// What to do after the reader of `stage` answered `outcome` (see
/// `next_after`); each fallback leads to fewer readers, so a fetch tries at
/// most three.
pub fn next_stage(stage: FetchStage, outcome: Result<UrlReadResult, String>) -> (r: FetchNext)
    ensures
        r@ == next_after(stage@, outcome_view(outcome)),
        r matches FetchNext::Try(s) ==> stages_left(s@) < stages_left(stage@),
{
    match (stage, outcome) {
        (FetchStage::Reddit, Err(_)) => FetchNext::Try(FetchStage::Jina),
        (FetchStage::Jina, Err(e)) => FetchNext::Try(FetchStage::Direct(e)),
        (FetchStage::Direct(j), Err(h)) => FetchNext::Done(
            Err(general_fetch_error(j.as_str(), h.as_str())),
        ),
        (_, o) => FetchNext::Done(o),
    }
}

// ---------------------------------------------------------------------
// WeChat
// ---------------------------------------------------------------------

/// What the WeChat reader makes of an article page: its `js_content` text
/// when that is at least `MIN_CONTENT_LENGTH` bytes, else its
/// `og:description` (with `\x0a` and `\x26amp;amp;` escapes undone) when that
/// is long enough, each cut and put under the title; otherwise an error
/// giving the length of the text.
pub open spec fn wechat_outcome(html: Seq<char>) -> Result<
    (Seq<char>, Option<Seq<char>>),
    Seq<char>,
> {
    let title = wechat_title(html);
    let content = wechat_content(html);
    if utf8_len(content) >= MIN_CONTENT_LENGTH {
        Ok((with_title(title, truncated_content(content)), title))
    } else {
        match meta_content(html, "og:description"@) {
            Some(desc) if utf8_len(desc) >= MIN_CONTENT_LENGTH => {
                let decoded = replace(replace(desc, "\\x0a"@, "\n"@), "\\x26amp;amp;"@, "&"@);
                Ok((with_title(title, truncated_content(decoded)), title))
            },
            _ => Err("WeChat content too short ("@ + decimal(utf8_len(content)) + " chars)"@),
        }
    }
}

fn too_short_message(prefix: &str, text: &[char], suffix: &str) -> (r: String)
    requires
        utf8_len(text@) < MIN_CONTENT_LENGTH,
    ensures
        r@ == prefix@ + decimal(utf8_len(text@)) + suffix@,
{
    let n = utf8_len_exec(text);
    let mut v: Vec<char> = Vec::new();
    push_str(&mut v, prefix);
    push_decimal(&mut v, n as u64);
    push_str(&mut v, suffix);
    string_from_chars(v.as_slice())
}

/// Reads a WeChat article from its HTML (see `wechat_outcome`).
pub fn wechat_read_result(html: &str) -> (r: Result<UrlReadResult, String>)
    ensures
        outcome_view(r) == wechat_outcome(html@),
{
    let title = extract_wechat_title(html);
    let content = extract_wechat_content(html);
    let cc = chars_of(content.as_str());
    if !utf8_len_exceeds(cc.as_slice(), MIN_CONTENT_LENGTH - 1) {
        match extract_og_description(html) {
            Some(desc) => {
                let dc = chars_of(desc.as_str());
                if utf8_len_exceeds(dc.as_slice(), MIN_CONTENT_LENGTH - 1) {
                    proof {
                        reveal_strlit("\\x0a");
                        reveal_strlit("\\x26amp;amp;");
                    }
                    let a = replace_str(dc.as_slice(), "\\x0a", "\n");
                    let b = replace_str(a.as_slice(), "\\x26amp;amp;", "&");
                    let cut = truncate_content(string_from_chars(b.as_slice()));
                    let markdown = format_with_title(&title, cut.as_str());
                    return Ok(UrlReadResult { content: markdown, title });
                }
            },
            None => {},
        }
        return Err(too_short_message("WeChat content too short (", cc.as_slice(), " chars)"));
    }
    let cut = truncate_content(content);
    let markdown = format_with_title(&title, cut.as_str());
    Ok(UrlReadResult { content: markdown, title })
}

// ---------------------------------------------------------------------
// Twitter / X
// ---------------------------------------------------------------------

/// One block of a long-form tweet (an article).
#[derive(Debug)]
pub struct TwitterBlock {
    pub text: Option<String>,
    pub block_type: Option<String>,
}

/// The Markdown line of a block: headers become `##`–`####` headings,
/// quotes `>` lines, list items `-` lines; atomic blocks and blocks without
/// text give nothing; any other type (by default `unstyled`) the text itself.
pub open spec fn block_line(b: TwitterBlock) -> Option<Seq<char>> {
    let text = or_default(b.text, Seq::empty());
    let ty = or_default(b.block_type, "unstyled"@);
    if text.len() == 0 {
        None
    } else if ty == "header-one"@ {
        Some("## "@ + text)
    } else if ty == "header-two"@ {
        Some("### "@ + text)
    } else if ty == "header-three"@ {
        Some("#### "@ + text)
    } else if ty == "blockquote"@ {
        Some("> "@ + text)
    } else if ty == "ordered-list-item"@ || ty == "unordered-list-item"@ {
        Some("- "@ + text)
    } else if ty == "atomic"@ {
        None
    } else {
        Some(text)
    }
}

/// The Markdown of an article: the lines of its blocks, separated by blank lines.
pub open spec fn article_markdown(blocks: Seq<TwitterBlock>) -> Seq<char> {
    join(blocks.filter_map(|b: TwitterBlock| block_line(b)), "\n\n"@)
}

fn block_line_exec(b: &TwitterBlock) -> (r: Option<Vec<char>>)
    ensures
        match block_line(*b) {
            Some(l) => r matches Some(v) && v@ == l,
            None => r is None,
        },
{
    let text = string_or(&b.text, "");
    let ty = string_or(&b.block_type, "unstyled");
    let t = ty.as_str();
    if text.as_str().is_empty() {
        return None;
    }
    let prefix = if str_equal(t, "header-one") {
        "## "
    } else if str_equal(t, "header-two") {
        "### "
    } else if str_equal(t, "header-three") {
        "#### "
    } else if str_equal(t, "blockquote") {
        "> "
    } else if str_equal(t, "ordered-list-item") || str_equal(t, "unordered-list-item") {
        "- "
    } else if str_equal(t, "atomic") {
        return None;
    } else {
        ""
    };
    let mut v: Vec<char> = Vec::new();
    push_str(&mut v, prefix);
    push_str(&mut v, text.as_str());
    proof {
        reveal_strlit("");
    }
    Some(v)
}

/// The Markdown of a long-form tweet from its blocks (see `article_markdown`).
pub fn extract_twitter_article_content(blocks: &[TwitterBlock]) -> (r: String)
    ensures
        r@ == article_markdown(blocks@),
{
    let mut lines: Vec<Vec<char>> = Vec::new();
    let mut i: usize = 0;
    let ghost f = |b: TwitterBlock| block_line(b);
    assert(blocks@.take(0) =~= Seq::<TwitterBlock>::empty());
    while i < blocks.len()
        invariant
            i <= blocks@.len(),
            f == (|b: TwitterBlock| block_line(b)),
            views(lines@) == blocks@.take(i as int).filter_map(f),
        decreases blocks.len() - i,
    {
        proof {
            blocks@.lemma_filter_map_take_succ(f, i as int);
        }
        let ghost before = views(lines@);
        match block_line_exec(&blocks[i]) {
            Some(v) => {
                let ghost vv = v@;
                lines.push(v);
                assert(views(lines@) =~= before + seq![vv]);
            },
            None => {
                assert(before + Seq::<Seq<char>>::empty() =~= before);
            },
        }
        i += 1;
    }
    assert(blocks@.take(i as int) =~= blocks@);
    let sep = chars_of("\n\n");
    let j = join_exec(&lines, sep.as_slice());
    string_from_chars(j.as_slice())
}

/// The fxtwitter API address of a tweet URL.
pub open spec fn twitter_api_address(url: Seq<char>) -> Result<Seq<char>, Seq<char>> {
    match first_twitter_status(url_segments(url), 0) {
        Some((user, id)) => Ok("https://api.fxtwitter.com/"@ + user + "/status/"@ + id),
        None => Err("Cannot parse Twitter URL: "@ + url),
    }
}

/// The fxtwitter API address for a tweet URL, or an error naming the URL.
pub fn twitter_api_url(url: &str) -> (r: Result<String, String>)
    ensures
        match r {
            Ok(a) => twitter_api_address(url@) == Ok::<Seq<char>, Seq<char>>(a@),
            Err(e) => twitter_api_address(url@) == Err::<Seq<char>, Seq<char>>(e@),
        },
{
    match parse_twitter_url(url) {
        Some((user, id)) => {
            let mut a = String::from_str("https://api.fxtwitter.com/");
            a.append(user.as_str());
            a.append("/status/");
            a.append(id.as_str());
            Ok(a)
        },
        None => {
            let mut e = String::from_str("Cannot parse Twitter URL: ");
            e.append(url);
            Err(e)
        },
    }
}

/// The article part of a tweet.
#[derive(Debug)]
pub struct TweetArticle {
    pub title: Option<String>,
    pub blocks: Vec<TwitterBlock>,
}

/// The fields of an fxtwitter reply that the reader uses.
#[derive(Debug)]
pub struct Tweet {
    pub author_name: Option<String>,
    pub author_handle: Option<String>,
    pub article: Option<TweetArticle>,
    pub text: Option<String>,
}

/// What the Twitter reader makes of a reply: the article (title and
/// Markdown) or the tweet text, which must be at least `MIN_CONTENT_LENGTH`
/// bytes; the content is cut and headed by the author; without a title, the
/// title is the handle and the first 50 characters.
pub open spec fn tweet_outcome(tweet: Option<Tweet>) -> Result<
    (Seq<char>, Option<Seq<char>>),
    Seq<char>,
> {
    match tweet {
        None => Err("fxtwitter: no tweet"@),
        Some(t) => {
            let name = or_default(t.author_name, Seq::empty());
            let handle = or_default(t.author_handle, Seq::empty());
            let title = match t.article {
                Some(a) => opt_view(a.title),
                None => None,
            };
            let body = match t.article {
                Some(a) => article_markdown(a.blocks@),
                None => or_default(t.text, Seq::empty()),
            };
            if utf8_len(body) < MIN_CONTENT_LENGTH {
                Err("Tweet content too short"@)
            } else {
                let content = truncated_content(body);
                let byline = "> @"@ + handle + " ("@ + name + ")\n\n"@ + content;
                let markdown = match title {
                    Some(tt) => "# "@ + tt + "\n\n"@ + byline,
                    None => byline,
                };
                let shown = match title {
                    Some(tt) => tt,
                    None => "@"@ + handle + ": "@ + take_chars(content, 50) + "…"@,
                };
                Ok((markdown, Some(shown)))
            }
        },
    }
}

/// Reads a tweet from the fields of its fxtwitter reply (see `tweet_outcome`).
pub fn twitter_read_result(tweet: Option<Tweet>) -> (r: Result<UrlReadResult, String>)
    ensures
        outcome_view(r) == tweet_outcome(tweet),
{
    let t = match tweet {
        None => {
            return Err(String::from_str("fxtwitter: no tweet"));
        },
        Some(t) => t,
    };
    let name = string_or(&t.author_name, "");
    let handle = string_or(&t.author_handle, "");
    let (title, body) = match &t.article {
        Some(a) => {
            let tt = match &a.title {
                Some(x) => Some(x.clone()),
                None => None,
            };
            (tt, extract_twitter_article_content(a.blocks.as_slice()))
        },
        None => (None, string_or(&t.text, "")),
    };
    proof {
        reveal_strlit("");
    }
    let bc = chars_of(body.as_str());
    if !utf8_len_exceeds(bc.as_slice(), MIN_CONTENT_LENGTH - 1) {
        return Err(String::from_str("Tweet content too short"));
    }
    let content = truncate_content(body);
    let mut byline = concat3("> @", handle.as_str(), " (");
    byline.append(name.as_str());
    byline.append(")\n\n");
    byline.append(content.as_str());
    let markdown = match &title {
        Some(tt) => {
            let mut m = concat3("# ", tt.as_str(), "\n\n");
            m.append(byline.as_str());
            m
        },
        None => byline,
    };
    let shown = match title {
        Some(tt) => tt,
        None => {
            let cc = chars_of(content.as_str());
            let first = take_chars_exec(cc.as_slice(), 50);
            let mut v: Vec<char> = Vec::new();
            push_str(&mut v, "@");
            push_str(&mut v, handle.as_str());
            push_str(&mut v, ": ");
            push_all(&mut v, first.as_slice());
            push_str(&mut v, "…");
            string_from_chars(v.as_slice())
        },
    };
    Ok(UrlReadResult { content: markdown, title: Some(shown) })
}

// ---------------------------------------------------------------------
// GitHub
// ---------------------------------------------------------------------

/// The GitHub API addresses of a repository and of its README.
pub fn github_api_urls(owner: &str, repo: &str) -> (r: (String, String))
    ensures
        r.0@ == "https://api.github.com/repos/"@ + owner@ + "/"@ + repo@,
        r.1@ == "https://api.github.com/repos/"@ + owner@ + "/"@ + repo@ + "/readme"@,
{
    let mut a = concat3("https://api.github.com/repos/", owner, "/");
    a.append(repo);
    let mut b = a.clone();
    b.append("/readme");
    (a, b)
}

/// The fields of a GitHub repository reply that the reader uses.
#[derive(Debug)]
pub struct GithubRepoInfo {
    pub description: Option<String>,
    pub stars: Option<u64>,
    pub language: Option<String>,
    pub full_name: Option<String>,
}

/// The README text carried base64-encoded in the README reply, with line
/// breaks removed before decoding; empty when absent or undecodable.
pub open spec fn readme_text(encoded: Option<String>) -> Seq<char> {
    match encoded {
        Some(b) => match base64_decoded(replace(b@, "\n"@, Seq::empty())) {
            Some(t) => t,
            None => Seq::empty(),
        },
        None => Seq::empty(),
    }
}

/// What the GitHub reader makes of a repository: a heading with its name,
/// description, stars and language, followed by its README (cut) when there
/// is one; the title is the name and the description.
pub open spec fn github_outcome(info: GithubRepoInfo, readme: Option<String>) -> (
    Seq<char>,
    Option<Seq<char>>,
) {
    let description = or_default(info.description, Seq::empty());
    let stars: nat = match info.stars {
        Some(n) => n as nat,
        None => 0,
    };
    let language = or_default(info.language, "Unknown"@);
    let name = or_default(info.full_name, Seq::empty());
    let header = "# "@ + name + "\n\n"@ + description + "\n\n⭐ "@ + decimal(stars)
        + " stars · Language: "@ + language + "\n"@;
    let text = readme_text(readme);
    let content = if text.len() == 0 {
        header
    } else {
        header + "\n---\n\n"@ + truncated_content(text)
    };
    (content, Some(name + " — "@ + description))
}

/// Reads a GitHub repository from its API replies: the repository fields and
/// the base64 `content` of its README reply, if that was fetched.
pub fn github_read_result(info: &GithubRepoInfo, readme: Option<String>) -> (r: UrlReadResult)
    ensures
        read_view(r) == github_outcome(*info, readme),
{
    let description = string_or(&info.description, "");
    let stars: u64 = match info.stars {
        Some(n) => n,
        None => 0,
    };
    let language = string_or(&info.language, "Unknown");
    let name = string_or(&info.full_name, "");
    proof {
        reveal_strlit("");
        reveal_strlit("\n");
        assert(""@ =~= Seq::<char>::empty());
    }
    let text = match &readme {
        Some(b) => {
            let bc = chars_of(b.as_str());
            let clean = replace_str(bc.as_slice(), "\n", "");
            match base64_decode(string_from_chars(clean.as_slice()).as_str()) {
                Some(t) => t,
                None => String::new(),
            }
        },
        None => String::new(),
    };
    assert(text@ == readme_text(readme));
    let mut h: Vec<char> = Vec::new();
    push_str(&mut h, "# ");
    push_str(&mut h, name.as_str());
    push_str(&mut h, "\n\n");
    push_str(&mut h, description.as_str());
    push_str(&mut h, "\n\n⭐ ");
    push_decimal(&mut h, stars);
    push_str(&mut h, " stars · Language: ");
    push_str(&mut h, language.as_str());
    push_str(&mut h, "\n");
    let header = string_from_chars(h.as_slice());
    let content = if text.as_str().is_empty() {
        header
    } else {
        let cut = truncate_content(text);
        let mut c = header;
        c.append("\n---\n\n");
        c.append(cut.as_str());
        c
    };
    let title = concat3(name.as_str(), " — ", description.as_str());
    UrlReadResult { content, title: Some(title) }
}

// ---------------------------------------------------------------------
// Reddit
// ---------------------------------------------------------------------

/// The JSON address of a Reddit URL: the URL without its query and
/// trailing slashes, followed by `.json`.
pub fn reddit_json_url(url: &str) -> (r: String)
    ensures
        r@ == trim_end_char(split_char(url@, '?')[0], '/') + ".json"@,
{
    let cs = chars_of(url);
    let parts = split_char_exec(cs.as_slice(), '?');
    proof {
        crate::text::lemma_split_char_nonempty(cs@, '?');
        assert(parts@[0]@ == views(parts@)[0]);
    }
    let mut v = trim_end_char_exec(parts[0].as_slice(), '/');
    push_str(&mut v, ".json");
    string_from_chars(v.as_slice())
}

/// The fields of a Reddit post that the reader uses.
#[derive(Debug)]
pub struct RedditPost {
    pub title: Option<String>,
    pub selftext: Option<String>,
    pub subreddit: Option<String>,
    pub author: Option<String>,
    pub score: Option<i64>,
    pub url: Option<String>,
}

/// What the Reddit reader makes of a post: a heading with its title, a line
/// with subreddit, author and score, and its text (cut), or the linked URL
/// for a link post; the title when it is not empty.
pub open spec fn reddit_outcome(post: Option<RedditPost>) -> Result<
    (Seq<char>, Option<Seq<char>>),
    Seq<char>,
> {
    match post {
        None => Err("Reddit: cannot find post data"@),
        Some(p) => {
            let title = or_default(p.title, Seq::empty());
            let selftext = or_default(p.selftext, Seq::empty());
            let score: int = match p.score {
                Some(n) => n as int,
                None => 0,
            };
            let body = if selftext.len() == 0 {
                "Link: "@ + or_default(p.url, Seq::empty())
            } else {
                selftext
            };
            let markdown = "# "@ + title + "\n\n> r/"@ + or_default(p.subreddit, Seq::empty())
                + " · u/"@ + or_default(p.author, Seq::empty()) + " · "@ + signed_decimal(score)
                + " points\n\n"@ + truncated_content(body);
            Ok(
                (
                    markdown,
                    if title.len() == 0 {
                        None
                    } else {
                        Some(title)
                    },
                ),
            )
        },
    }
}

/// Reads a Reddit post from the fields of its JSON (see `reddit_outcome`).
pub fn reddit_read_result(post: Option<RedditPost>) -> (r: Result<UrlReadResult, String>)
    ensures
        outcome_view(r) == reddit_outcome(post),
{
    let p = match post {
        None => {
            return Err(String::from_str("Reddit: cannot find post data"));
        },
        Some(p) => p,
    };
    proof {
        reveal_strlit("");
    }
    let title = string_or(&p.title, "");
    let selftext = string_or(&p.selftext, "");
    let subreddit = string_or(&p.subreddit, "");
    let author = string_or(&p.author, "");
    let score: i64 = match p.score {
        Some(n) => n,
        None => 0,
    };
    let body = if selftext.as_str().is_empty() {
        let linked = string_or(&p.url, "");
        let mut b = String::from_str("Link: ");
        b.append(linked.as_str());
        b
    } else {
        selftext
    };
    let cut = truncate_content(body);
    let mut v: Vec<char> = Vec::new();
    push_str(&mut v, "# ");
    push_str(&mut v, title.as_str());
    push_str(&mut v, "\n\n> r/");
    push_str(&mut v, subreddit.as_str());
    push_str(&mut v, " · u/");
    push_str(&mut v, author.as_str());
    push_str(&mut v, " · ");
    push_signed_decimal(&mut v, score);
    push_str(&mut v, " points\n\n");
    push_str(&mut v, cut.as_str());
    let markdown = string_from_chars(v.as_slice());
    let shown = if title.as_str().is_empty() {
        None
    } else {
        Some(title)
    };
    Ok(UrlReadResult { content: markdown, title: shown })
}

// ---------------------------------------------------------------------
// Jina reader and direct HTML
// ---------------------------------------------------------------------

/// The Jina reader address of a URL.
pub fn jina_reader_url(url: &str) -> (r: String)
    ensures
        r@ == "https://r.jina.ai/"@ + url@,
{
    let mut r = String::from_str("https://r.jina.ai/");
    r.append(url);
    r
}

/// What the Jina reader makes of a reply: an error for an unsuccessful
/// status or a body under `MIN_CONTENT_LENGTH` bytes once trimmed; else the
/// body (cut) with its Markdown title.
pub open spec fn jina_outcome(success: bool, status: Seq<char>, body: Seq<char>) -> Result<
    (Seq<char>, Option<Seq<char>>),
    Seq<char>,
> {
    if !success {
        Err("Jina status: "@ + status)
    } else if utf8_len(trim(body)) < MIN_CONTENT_LENGTH {
        Err("Content too short"@)
    } else {
        Ok((truncated_content(body), markdown_title(truncated_content(body))))
    }
}

/// Reads the Jina reader's reply (see `jina_outcome`).
pub fn jina_read_result(status_success: bool, status: &str, body: String) -> (r: Result<
    UrlReadResult,
    String,
>)
    ensures
        outcome_view(r) == jina_outcome(status_success, status@, body@),
{
    if !status_success {
        let mut e = String::from_str("Jina status: ");
        e.append(status);
        return Err(e);
    }
    let bc = chars_of(body.as_str());
    let t = trim_exec(bc.as_slice());
    if !utf8_len_exceeds(t.as_slice(), MIN_CONTENT_LENGTH - 1) {
        return Err(String::from_str("Content too short"));
    }
    let content = truncate_content(body);
    let title = extract_markdown_title(content.as_str());
    Ok(UrlReadResult { content, title })
}

/// What the direct reader makes of a page: its readable text, when at least
/// `MIN_CONTENT_LENGTH` bytes, cut and put under the page title; else an
/// error giving the length.
pub open spec fn direct_outcome(html: Seq<char>) -> Result<(Seq<char>, Option<Seq<char>>), Seq<char>> {
    let text = stripped_html(html);
    if utf8_len(text) < MIN_CONTENT_LENGTH {
        Err("Direct HTML: content too short ("@ + decimal(utf8_len(text)) + " chars)"@)
    } else {
        Ok((with_title(html_title(html), truncated_content(text)), html_title(html)))
    }
}

/// Reads a page from its own HTML (see `direct_outcome`).
pub fn direct_html_read_result(html: &str) -> (r: Result<UrlReadResult, String>)
    ensures
        outcome_view(r) == direct_outcome(html@),
{
    let title = extract_html_title(html);
    let text = strip_html_to_text(html);
    let tc = chars_of(text.as_str());
    if !utf8_len_exceeds(tc.as_slice(), MIN_CONTENT_LENGTH - 1) {
        return Err(too_short_message("Direct HTML: content too short (", tc.as_slice(), " chars)"));
    }
    let cut = truncate_content(text);
    let markdown = format_with_title(&title, cut.as_str());
    Ok(UrlReadResult { content: markdown, title })
}

/// The GitHub reader's content begins with the repository's name, its
/// description, and a line giving its stars and its language, `Unknown`
/// only when the reply carries none; its title is the name and the
/// description.
pub proof fn lemma_github_header_names_language(info: GithubRepoInfo, readme: Option<String>)
    ensures
        ({
            let name = match info.full_name {
                Some(n) => n@,
                None => Seq::<char>::empty(),
            };
            let description = match info.description {
                Some(d) => d@,
                None => Seq::<char>::empty(),
            };
            let stars: nat = match info.stars {
                Some(n) => n as nat,
                None => 0,
            };
            let language = match info.language {
                Some(l) => l@,
                None => "Unknown"@,
            };
            let header = "# "@ + name + "\n\n"@ + description + "\n\n⭐ "@ + decimal(stars)
                + " stars · Language: "@ + language + "\n"@;
            let (content, title) = github_outcome(info, readme);
            &&& header.len() <= content.len()
            &&& content.take(header.len() as int) == header
            &&& title == Some(name + " — "@ + description)
        }),
{
    let (content, _) = github_outcome(info, readme);
    let name = or_default(info.full_name, Seq::empty());
    let description = or_default(info.description, Seq::empty());
    let stars: nat = match info.stars {
        Some(n) => n as nat,
        None => 0,
    };
    let language = or_default(info.language, "Unknown"@);
    let header = "# "@ + name + "\n\n"@ + description + "\n\n⭐ "@ + decimal(stars)
        + " stars · Language: "@ + language + "\n"@;
    let text = readme_text(readme);
    if text.len() != 0 {
        assert((header + "\n---\n\n"@ + truncated_content(text)).take(header.len() as int)
            =~= header);
    } else {
        assert(header.take(header.len() as int) =~= header);
    }
}

} // verus!
