//! Reading web pages as text: decoding HTML entities, cutting long content,
//! finding titles, and recognising Twitter and GitHub URLs.
use vstd::prelude::*;
use vstd::string::*;
use crate::text::{
    char_utf8_len_exec, chars_within, chars_within_exec, ends_with_char, lemma_utf8_len_push, lowercase, lowercase_string,
    matches_str_at, chars_of, copy_range, find, find_str, join, lemma_find_from_props, lines,
    lines_exec, matches_at, push_str, replace, replace_str, split_char, split_char_exec,
    starts_with, string_from_chars, take_chars, take_chars_exec, trim, trim_end_char,
    trim_end_char_exec, trim_exec, trim_start_char, trim_start_char_exec, utf8_len,
    utf8_len_exceeds, views, chars_equal_str, string_from_utf8, lemma_replace_absent,
    lemma_utf8_len_concat, lemma_utf8_len_ge_len,
};

verus! {

/// Content longer than this many bytes is cut.
pub const MAX_CONTENT_LENGTH: usize = 50000;

/// Content shorter than this many bytes is not worth keeping.
pub const MIN_CONTENT_LENGTH: usize = 20;

/// Text read from a URL, with its title when one was found.
#[derive(Debug)]
pub struct UrlReadResult {
    pub content: String,
    pub title: Option<String>,
}

// ---------------------------------------------------------------------
// Entities
// ---------------------------------------------------------------------

/// `s` with the HTML entities `&amp; &lt; &gt; &quot; &#39; &nbsp; &#x27;
/// &#x2F; &#x3D;` decoded, one replacement pass per entity in that order.
pub open spec fn html_decoded(s: Seq<char>) -> Seq<char> {
    replace(
        replace(
            replace(
                replace(
                    replace(
                        replace(
                            replace(replace(replace(s, "&amp;"@, "&"@), "&lt;"@, "<"@), "&gt;"@, ">"@),
                            "&quot;"@,
                            "\""@,
                        ),
                        "&#39;"@,
                        "'"@,
                    ),
                    "&nbsp;"@,
                    " "@,
                ),
                "&#x27;"@,
                "'"@,
            ),
            "&#x2F;"@,
            "/"@,
        ),
        "&#x3D;"@,
        "="@,
    )
}

/// The characters of `s` with HTML entities decoded.
pub fn html_decode_chars(s: &[char]) -> (r: Vec<char>)
    ensures
        r@ == html_decoded(s@),
{
    proof {
        reveal_strlit("&amp;");
        reveal_strlit("&lt;");
        reveal_strlit("&gt;");
        reveal_strlit("&quot;");
        reveal_strlit("&#39;");
        reveal_strlit("&nbsp;");
        reveal_strlit("&#x27;");
        reveal_strlit("&#x2F;");
        reveal_strlit("&#x3D;");
    }
    let a = replace_str(s, "&amp;", "&");
    let b = replace_str(a.as_slice(), "&lt;", "<");
    let c = replace_str(b.as_slice(), "&gt;", ">");
    let d = replace_str(c.as_slice(), "&quot;", "\"");
    let e = replace_str(d.as_slice(), "&#39;", "'");
    let f = replace_str(e.as_slice(), "&nbsp;", " ");
    let g = replace_str(f.as_slice(), "&#x27;", "'");
    let h = replace_str(g.as_slice(), "&#x2F;", "/");
    replace_str(h.as_slice(), "&#x3D;", "=")
}

/// Decodes the HTML entities in `s`.
pub fn html_decode(s: &str) -> (r: String)
    ensures
        r@ == html_decoded(s@),
{
    let cs = chars_of(s);
    let d = html_decode_chars(cs.as_slice());
    string_from_chars(d.as_slice())
}

// ---------------------------------------------------------------------
// Cutting and framing content
// ---------------------------------------------------------------------

/// Content of more than `MAX_CONTENT_LENGTH` bytes cut to its first
/// `MAX_CONTENT_LENGTH` characters and marked as cut; shorter content as is.
pub open spec fn truncated_content(s: Seq<char>) -> Seq<char> {
    if utf8_len(s) > MAX_CONTENT_LENGTH {
        take_chars(s, MAX_CONTENT_LENGTH as nat) + "...\n\n[内容已截断]"@
    } else {
        s
    }
}

/// The characters of `s` cut as `truncated_content` says.
pub fn truncate_content_chars(s: &[char]) -> (r: Vec<char>)
    ensures
        r@ == truncated_content(s@),
{
    if utf8_len_exceeds(s, MAX_CONTENT_LENGTH) {
        let mut t = take_chars_exec(s, MAX_CONTENT_LENGTH);
        push_str(&mut t, "...\n\n[内容已截断]");
        t
    } else {
        copy_range(s, 0, s.len())
    }
}

/// Cuts content longer than `MAX_CONTENT_LENGTH` bytes to that many
/// characters and marks it as cut.
pub fn truncate_content(content: String) -> (r: String)
    ensures
        r@ == truncated_content(content@),
{
    let cs = chars_of(content.as_str());
    if utf8_len_exceeds(cs.as_slice(), MAX_CONTENT_LENGTH) {
        let t = truncate_content_chars(cs.as_slice());
        string_from_chars(t.as_slice())
    } else {
        content
    }
}

/// Content under a `# title` heading when there is a title.
pub open spec fn with_title(title: Option<Seq<char>>, content: Seq<char>) -> Seq<char> {
    match title {
        Some(t) => "# "@ + t + "\n\n"@ + content,
        None => content,
    }
}

pub open spec fn opt_view(o: Option<String>) -> Option<Seq<char>> {
    match o {
        Some(s) => Some(s@),
        None => None,
    }
}

/// Puts `content` under a `# title` heading when there is a title.
pub fn format_with_title(title: &Option<String>, content: &str) -> (r: String)
    ensures
        r@ == with_title(opt_view(*title), content@),
{
    match title {
        Some(t) => {
            let mut r = String::from_str("# ");
            r.append(t.as_str());
            r.append("\n\n");
            r.append(content);
            r
        },
        None => String::from_str(content),
    }
}

// ---------------------------------------------------------------------
// Titles
// ---------------------------------------------------------------------

/// The first line among `ls` that, trimmed, starts with `"# "`, with its
/// leading `#`s and surrounding whitespace removed.
pub open spec fn first_heading(ls: Seq<Seq<char>>) -> Option<Seq<char>>
    decreases ls.len(),
{
    if ls.len() == 0 {
        None
    } else if starts_with(trim(ls[0]), "# "@) {
        Some(trim(trim_start_char(trim(ls[0]), '#')))
    } else {
        first_heading(ls.drop_first())
    }
}

/// The title of a Markdown document: the first `# ` heading among its first
/// ten lines.
pub open spec fn markdown_title(md: Seq<char>) -> Option<Seq<char>> {
    first_heading(take_lines(lines(md), 10))
}

/// The first `n` lines, or all of them when there are fewer.
pub open spec fn take_lines(ls: Seq<Seq<char>>, n: nat) -> Seq<Seq<char>> {
    if ls.len() <= n {
        ls
    } else {
        ls.take(n as int)
    }
}

/// The title of a Markdown document: the first `# ` heading among its first
/// ten lines.
pub fn extract_markdown_title(markdown: &str) -> (r: Option<String>)
    ensures
        opt_view(r) == markdown_title(markdown@),
{
    let cs = chars_of(markdown);
    let ls = lines_exec(cs.as_slice());
    let n: usize = if ls.len() <= 10 {
        ls.len()
    } else {
        10
    };
    let ghost first = take_lines(views(ls@), 10);
    assert(first =~= views(ls@).take(n as int));
    let hash_space = chars_of("# ");
    let mut i: usize = 0;
    assert(first.skip(0) =~= first);
    while i < n
        invariant
            i <= n <= ls@.len(),
            first == views(ls@).take(n as int),
            first == take_lines(lines(markdown@), 10),
            hash_space@ == "# "@,
            first_heading(first) == first_heading(first.skip(i as int)),
        decreases n - i,
    {
        let t = trim_exec(ls[i].as_slice());
        proof {
            assert(ls@[i as int]@ == first.skip(i as int)[0]);
            assert(first.skip(i as int).drop_first() =~= first.skip(i + 1));
            assert(first.skip(i as int).len() > 0);
            assert(t@ == trim(first.skip(i as int)[0]));
        }
        if crate::text::matches_at_exec(t.as_slice(), 0, hash_space.as_slice()) {
            let u = trim_start_char_exec(t.as_slice(), '#');
            let v = trim_exec(u.as_slice());
            proof {
                assert(starts_with(t@, "# "@));
                assert(first_heading(first.skip(i as int)) == Some(v@));
            }
            return Some(string_from_chars(v.as_slice()));
        }
        i += 1;
    }
    assert(first.skip(i as int) =~= Seq::<Seq<char>>::empty());
    None
}

/// The text between the first `open` in `h` (of `skip` characters) and the
/// next `close`, trimmed and with entities decoded, when it is not empty.
pub open spec fn delimited(h: Seq<char>, open: Seq<char>, skip: int, close: Seq<char>) -> Option<
    Seq<char>,
> {
    match find(h, open) {
        Some(s) => {
            let rest = h.skip(s + skip);
            match find(rest, close) {
                Some(e) => {
                    let v = trim(rest.take(e));
                    if v.len() > 0 {
                        Some(html_decoded(v))
                    } else {
                        None
                    }
                },
                None => None,
            }
        },
        None => None,
    }
}

/// The `content="…"` value of the first `key` meta property in `html`.
pub open spec fn meta_content(html: Seq<char>, key: Seq<char>) -> Option<Seq<char>> {
    match find(html, key) {
        Some(s) => delimited(html.skip(s), "content=\""@, 9, "\""@),
        None => None,
    }
}

/// `a` if it holds a value, else `b`.
pub open spec fn or_else(a: Option<Seq<char>>, b: Option<Seq<char>>) -> Option<Seq<char>> {
    match a {
        Some(x) => Some(x),
        None => b,
    }
}

/// The title of an HTML page: its `og:title`, else its `<title>`.
pub open spec fn html_title(html: Seq<char>) -> Option<Seq<char>> {
    or_else(meta_content(html, "og:title"@), delimited(html, "<title>"@, 7, "</title>"@))
}

/// The title of a WeChat article: `msg_title` in single, then double
/// quotes, else the `og:title`.
pub open spec fn wechat_title(html: Seq<char>) -> Option<Seq<char>> {
    or_else(
        delimited(html, "msg_title = '"@, 13, "'"@),
        or_else(delimited(html, "msg_title = \""@, 13, "\""@), meta_content(html, "og:title"@)),
    )
}

fn delimited_exec(h: &[char], open: &str, skip: usize, close: &str) -> (r: Option<Vec<char>>)
    requires
        skip == open@.len(),
    ensures
        r matches Some(v) ==> delimited(h@, open@, skip as int, close@) == Some(v@),
        r is None ==> delimited(h@, open@, skip as int, close@) is None,
{
    match find_str(h, open) {
        Some(s) => {
            let hl = h.len();
            proof {
                lemma_find_from_props(h@, 0, open@);
                assert(matches_at(h@, s as int, open@));
                assert(s + skip <= hl);
            }
            let rest = copy_range(h, s + skip, h.len());
            assert(rest@ =~= h@.skip(s + skip));
            match find_str(rest.as_slice(), close) {
                Some(e) => {
                    proof {
                        lemma_find_from_props(rest@, 0, close@);
                    }
                    let inner = copy_range(rest.as_slice(), 0, e);
                    assert(inner@ =~= rest@.take(e as int));
                    let v = trim_exec(inner.as_slice());
                    if v.len() > 0 {
                        Some(html_decode_chars(v.as_slice()))
                    } else {
                        None
                    }
                },
                None => None,
            }
        },
        None => None,
    }
}

fn meta_content_exec(html: &[char], key: &str) -> (r: Option<Vec<char>>)
    ensures
        r matches Some(v) ==> meta_content(html@, key@) == Some(v@),
        r is None ==> meta_content(html@, key@) is None,
{
    proof {
        reveal_strlit("content=\"");
    }
    match find_str(html, key) {
        Some(s) => {
            proof {
                lemma_find_from_props(html@, 0, key@);
            }
            let rest = copy_range(html, s, html.len());
            assert(rest@ =~= html@.skip(s as int));
            delimited_exec(rest.as_slice(), "content=\"", 9, "\"")
        },
        None => None,
    }
}

fn opt_string(o: Option<Vec<char>>) -> (r: Option<String>)
    ensures
        opt_view(r) == match o {
            Some(v) => Some(v@),
            None => None::<Seq<char>>,
        },
{
    match o {
        Some(v) => Some(string_from_chars(v.as_slice())),
        None => None,
    }
}

/// The `og:description` of an HTML page.
pub fn extract_og_description(html: &str) -> (r: Option<String>)
    ensures
        opt_view(r) == meta_content(html@, "og:description"@),
{
    let cs = chars_of(html);
    opt_string(meta_content_exec(cs.as_slice(), "og:description"))
}

/// The `og:title` of an HTML page.
pub fn extract_og_title(html: &str) -> (r: Option<String>)
    ensures
        opt_view(r) == meta_content(html@, "og:title"@),
{
    let cs = chars_of(html);
    opt_string(meta_content_exec(cs.as_slice(), "og:title"))
}

fn html_title_chars(cs: &[char]) -> (r: Option<Vec<char>>)
    ensures
        r matches Some(v) ==> html_title(cs@) == Some(v@),
        r is None ==> html_title(cs@) is None,
{
    proof {
        reveal_strlit("<title>");
    }
    match meta_content_exec(cs, "og:title") {
        Some(t) => Some(t),
        None => delimited_exec(cs, "<title>", 7, "</title>"),
    }
}

/// The title of an HTML page: its `og:title`, else the text of its `<title>`.
pub fn extract_html_title(html: &str) -> (r: Option<String>)
    ensures
        opt_view(r) == html_title(html@),
{
    let cs = chars_of(html);
    opt_string(html_title_chars(cs.as_slice()))
}

/// The title of a WeChat article page.
pub fn extract_wechat_title(html: &str) -> (r: Option<String>)
    ensures
        opt_view(r) == wechat_title(html@),
{
    proof {
        reveal_strlit("msg_title = '");
        reveal_strlit("msg_title = \"");
    }
    let cs = chars_of(html);
    match delimited_exec(cs.as_slice(), "msg_title = '", 13, "'") {
        Some(t) => Some(string_from_chars(t.as_slice())),
        None => match delimited_exec(cs.as_slice(), "msg_title = \"", 13, "\"") {
            Some(t) => Some(string_from_chars(t.as_slice())),
            None => opt_string(meta_content_exec(cs.as_slice(), "og:title")),
        },
    }
}

// ---------------------------------------------------------------------
// Recognising URLs
// ---------------------------------------------------------------------

/// The `/`-separated segments of a URL: surrounding whitespace, trailing
/// slashes and the query (from the first `?`) removed.
pub open spec fn url_segments(url: Seq<char>) -> Seq<Seq<char>> {
    split_char(split_char(trim_end_char(trim(url), '/'), '?')[0], '/')
}

pub open spec fn is_ascii_digits(s: Seq<char>) -> bool {
    forall|k: int| 0 <= k < s.len() ==> '0' <= #[trigger] s[k] <= '9'
}

/// Segment `i` is `status`, between a non-empty user and a non-empty numeric id.
pub open spec fn twitter_status_at(parts: Seq<Seq<char>>, i: int) -> bool {
    &&& parts[i] == "status"@
    &&& i > 0
    &&& i + 1 < parts.len()
    &&& parts[i - 1].len() > 0
    &&& parts[i + 1].len() > 0
    &&& is_ascii_digits(parts[i + 1])
}

/// The user and id around the first `status` segment at or after `i` that
/// qualifies.
pub open spec fn first_twitter_status(parts: Seq<Seq<char>>, i: int) -> Option<
    (Seq<char>, Seq<char>),
>
    decreases parts.len() - i,
{
    if i < 0 || i >= parts.len() {
        None
    } else if twitter_status_at(parts, i) {
        Some((parts[i - 1], parts[i + 1]))
    } else {
        first_twitter_status(parts, i + 1)
    }
}

/// Segments `i + 1` and `i + 2` follow `github.com` and name an owner and a
/// repository: both non-empty, neither `.`, the owner not starting with `-`.
pub open spec fn github_repo_at(parts: Seq<Seq<char>>, i: int) -> bool {
    &&& parts[i] == "github.com"@
    &&& i + 2 < parts.len()
    &&& parts[i + 1].len() > 0
    &&& parts[i + 2].len() > 0
    &&& parts[i + 1] != "."@
    &&& parts[i + 2] != "."@
    &&& parts[i + 1][0] != '-'
}

/// The owner and repository after the first qualifying `github.com` segment
/// at or after `i`.
pub open spec fn first_github_repo(parts: Seq<Seq<char>>, i: int) -> Option<
    (Seq<char>, Seq<char>),
>
    decreases parts.len() - i,
{
    if i < 0 || i >= parts.len() {
        None
    } else if github_repo_at(parts, i) {
        Some((parts[i + 1], parts[i + 2]))
    } else {
        first_github_repo(parts, i + 1)
    }
}

pub open spec fn pair_view(p: Option<(String, String)>) -> Option<(Seq<char>, Seq<char>)> {
    match p {
        Some((a, b)) => Some((a@, b@)),
        None => None,
    }
}

fn url_segments_exec(url: &str) -> (parts: Vec<Vec<char>>)
    ensures
        views(parts@) == url_segments(url@),
{
    let cs = chars_of(url);
    let t = trim_exec(cs.as_slice());
    let u = trim_end_char_exec(t.as_slice(), '/');
    let q = split_char_exec(u.as_slice(), '?');
    proof {
        crate::text::lemma_split_char_nonempty(u@, '?');
        assert(q@[0]@ == views(q@)[0]);
    }
    split_char_exec(q[0].as_slice(), '/')
}

fn all_ascii_digits(s: &[char]) -> (r: bool)
    ensures
        r == is_ascii_digits(s@),
{
    let mut k: usize = 0;
    while k < s.len()
        invariant
            k <= s.len(),
            forall|j: int| 0 <= j < k ==> '0' <= #[trigger] s@[j] <= '9',
        decreases s.len() - k,
    {
        if !('0' <= s[k] && s[k] <= '9') {
            return false;
        }
        k += 1;
    }
    true
}

/// The user and tweet id of a Twitter/X status URL
/// (`…/user/status/1234…`).
pub fn parse_twitter_url(url: &str) -> (r: Option<(String, String)>)
    ensures
        pair_view(r) == first_twitter_status(url_segments(url@), 0),
{
    let parts = url_segments_exec(url);
    let ghost ps = views(parts@);
    let mut i: usize = 0;
    while i < parts.len()
        invariant
            i <= parts@.len(),
            ps == views(parts@),
            ps == url_segments(url@),
            first_twitter_status(ps, 0) == first_twitter_status(ps, i as int),
        decreases parts.len() - i,
    {
        proof {
            assert(parts@[i as int]@ == ps[i as int]);
        }
        if chars_equal_str(parts[i].as_slice(), "status") && i > 0 && i + 1 < parts.len() {
            proof {
                assert(parts@[i - 1]@ == ps[i - 1]);
                assert(parts@[i + 1]@ == ps[i + 1]);
            }
            let user = &parts[i - 1];
            let id = &parts[i + 1];
            if user.len() > 0 && id.len() > 0 && all_ascii_digits(id.as_slice()) {
                return Some((string_from_chars(user.as_slice()), string_from_chars(id.as_slice())));
            }
        }
        i += 1;
    }
    None
}

/// The owner and repository of a GitHub URL (`https://github.com/owner/repo[/…]`).
pub fn parse_github_repo_url(url: &str) -> (r: Option<(String, String)>)
    ensures
        pair_view(r) == first_github_repo(url_segments(url@), 0),
{
    let parts = url_segments_exec(url);
    let ghost ps = views(parts@);
    let mut i: usize = 0;
    while i < parts.len()
        invariant
            i <= parts@.len(),
            ps == views(parts@),
            ps == url_segments(url@),
            first_github_repo(ps, 0) == first_github_repo(ps, i as int),
        decreases parts.len() - i,
    {
        proof {
            assert(parts@[i as int]@ == ps[i as int]);
        }
        if chars_equal_str(parts[i].as_slice(), "github.com") && parts.len() > 2 && i < parts.len()
            - 2 {
            proof {
                assert(parts@[i + 1]@ == ps[i + 1]);
                assert(parts@[i + 2]@ == ps[i + 2]);
            }
            let owner = &parts[i + 1];
            let repo = &parts[i + 2];
            if owner.len() > 0 && repo.len() > 0 && !chars_equal_str(owner.as_slice(), ".")
                && !chars_equal_str(repo.as_slice(), ".") && owner[0] != '-' {
                return Some(
                    (string_from_chars(owner.as_slice()), string_from_chars(repo.as_slice())),
                );
            }
        }
        i += 1;
    }
    None
}

// ---------------------------------------------------------------------
// Base64
// ---------------------------------------------------------------------

/// The value of `b` in the standard base64 alphabet
/// `A–Z a–z 0–9 + /`, if it is a letter of it.
pub open spec fn base64_value(b: u8) -> Option<u32> {
    if 65 <= b <= 90 {
        Some((b - 65) as u32)
    } else if 97 <= b <= 122 {
        Some((b - 71) as u32)
    } else if 48 <= b <= 57 {
        Some((b + 4) as u32)
    } else if b == 43 {
        Some(62)
    } else if b == 47 {
        Some(63)
    } else {
        None
    }
}

/// Bytes the decoder passes over: `=`, `\n`, `\r` and space.
pub open spec fn base64_skipped(b: u8) -> bool {
    b == 61 || b == 10 || b == 13 || b == 32
}

pub open spec fn pow2_small(n: nat) -> nat
    decreases n,
{
    if n == 0 {
        1
    } else {
        2 * pow2_small((n - 1) as nat)
    }
}

/// One letter of value `v` read with `bits` pending bits holding `buf`,
/// after having produced `out`: six bits are appended, and a full byte of
/// pending bits is emitted.
pub open spec fn base64_step(buf: nat, bits: nat, out: Seq<u8>, v: nat) -> (nat, nat, Seq<u8>) {
    let b2 = buf * 64 + v;
    if bits + 6 >= 8 {
        let bits3 = (bits + 6 - 8) as nat;
        (b2 % pow2_small(bits3), bits3, out.push((b2 / pow2_small(bits3)) as u8))
    } else {
        (b2, bits + 6, out)
    }
}

/// Decoding `s` with `bits` pending bits holding `buf`, after having
/// produced `out`: bytes that are passed over are ignored, each alphabet
/// letter is a step, and any other byte makes decoding fail.
pub open spec fn base64_run(s: Seq<u8>, buf: nat, bits: nat, out: Seq<u8>) -> Option<Seq<u8>>
    decreases s.len(),
{
    if s.len() == 0 {
        Some(out)
    } else if base64_skipped(s[0]) {
        base64_run(s.drop_first(), buf, bits, out)
    } else {
        match base64_value(s[0]) {
            None => None,
            Some(v) => {
                let st = base64_step(buf, bits, out, v as nat);
                base64_run(s.drop_first(), st.0, st.1, st.2)
            },
        }
    }
}

/// What `base64_decode` returns on `input`: the decoded bytes read as UTF-8.
pub open spec fn base64_decoded(input: Seq<char>) -> Option<Seq<char>> {
    match base64_run(vstd::utf8::encode_utf8(input), 0, 0, Seq::empty()) {
        None => None,
        Some(bytes) => if vstd::utf8::valid_utf8(bytes) {
            Some(vstd::utf8::decode_utf8(bytes))
        } else {
            None
        },
    }
}

fn base64_value_exec(b: u8) -> (r: Option<u32>)
    ensures
        r == base64_value(b),
{
    if 65 <= b && b <= 90 {
        Some((b - 65) as u32)
    } else if 97 <= b && b <= 122 {
        Some((b - 71) as u32)
    } else if 48 <= b && b <= 57 {
        Some((b + 4) as u32)
    } else if b == 43 {
        Some(62)
    } else if b == 47 {
        Some(63)
    } else {
        None
    }
}

proof fn lemma_pow2_small_values()
    ensures
        pow2_small(0) == 1,
        pow2_small(2) == 4,
        pow2_small(4) == 16,
        pow2_small(6) == 64,
        pow2_small(8) == 256,
        pow2_small(10) == 1024,
        pow2_small(12) == 4096,
{
    reveal_with_fuel(pow2_small, 13);
}

/// The bytes encoded in base64 by `bytes`.
fn base64_bytes(bytes: &[u8]) -> (r: Option<Vec<u8>>)
    ensures
        r matches Some(v) ==> base64_run(bytes@, 0, 0, Seq::empty()) == Some(v@),
        r is None ==> base64_run(bytes@, 0, 0, Seq::empty()) is None,
{
    let mut out: Vec<u8> = Vec::new();
    let mut buf: u32 = 0;
    let mut bits: u32 = 0;
    let mut i: usize = 0;
    proof {
        lemma_pow2_small_values();
        assert(bytes@.skip(0) =~= bytes@);
    }
    while i < bytes.len()
        invariant
            i <= bytes.len(),
            bits == 0 || bits == 2 || bits == 4 || bits == 6,
            buf < pow2_small(bits as nat),
            base64_run(bytes@, 0, 0, Seq::empty()) == base64_run(
                bytes@.skip(i as int),
                buf as nat,
                bits as nat,
                out@,
            ),
        decreases bytes.len() - i,
    {
        proof {
            lemma_pow2_small_values();
            assert(bytes@.skip(i as int).drop_first() =~= bytes@.skip(i + 1));
        }
        let b = bytes[i];
        if b == 61 || b == 10 || b == 13 || b == 32 {
            i += 1;
        } else {
            let v = match base64_value_exec(b) {
                Some(v) => v,
                None => {
                    return None;
                },
            };
            let b2: u32 = buf * 64 + v;
            if bits + 6 >= 8 {
                let bits3: u32 = bits + 6 - 8;
                let d: u32 = if bits3 == 0 {
                    1
                } else if bits3 == 2 {
                    4
                } else {
                    16
                };
                assert(d == pow2_small(bits3 as nat));
                out.push((b2 / d) as u8);
                buf = b2 % d;
                bits = bits3;
            } else {
                buf = b2;
                bits = bits + 6;
            }
            i += 1;
        }
    }
    assert(bytes@.skip(i as int) =~= Seq::<u8>::empty());
    Some(out)
}

/// Decodes standard base64 (passing over `=`, line breaks and spaces) and
/// reads the bytes as UTF-8; `None` for any other byte or invalid UTF-8.
pub fn base64_decode(input: &str) -> (r: Option<String>)
    ensures
        opt_view(r) == base64_decoded(input@),
{
    let bytes = input.as_bytes();
    match base64_bytes(bytes) {
        Some(v) => string_from_utf8(v),
        None => None,
    }
}

/// The letter of the standard base64 alphabet for the six-bit value `v`.
pub open spec fn base64_letter(v: nat) -> u8 {
    if v < 26 {
        (65 + v) as u8
    } else if v < 52 {
        (71 + v) as u8
    } else if v < 62 {
        (v - 4) as u8
    } else if v == 62 {
        43
    } else {
        47
    }
}

/// The standard base64 encoding of `b`: each group of three bytes as four
/// letters, a last group of one or two bytes padded with `=`.
pub open spec fn base64_encoded(b: Seq<u8>) -> Seq<u8>
    decreases b.len(),
{
    if b.len() == 0 {
        Seq::empty()
    } else if b.len() == 1 {
        let x = b[0] as nat;
        seq![base64_letter(x / 4), base64_letter((x % 4) * 16), 61u8, 61u8]
    } else if b.len() == 2 {
        let x = b[0] as nat;
        let y = b[1] as nat;
        seq![
            base64_letter(x / 4),
            base64_letter((x % 4) * 16 + y / 16),
            base64_letter((y % 16) * 4),
            61u8,
        ]
    } else {
        let x = b[0] as nat;
        let y = b[1] as nat;
        let z = b[2] as nat;
        seq![
            base64_letter(x / 4),
            base64_letter((x % 4) * 16 + y / 16),
            base64_letter((y % 16) * 4 + z / 64),
            base64_letter(z % 64),
        ] + base64_encoded(b.skip(3))
    }
}

proof fn lemma_base64_letter_value(v: nat)
    requires
        v < 64,
    ensures
        base64_value(base64_letter(v)) == Some(v as u32),
        !base64_skipped(base64_letter(v)),
{
}

/// Reading one letter of value `v` from the front of `s`.
proof fn lemma_base64_run_letter(s: Seq<u8>, buf: nat, bits: nat, out: Seq<u8>, v: nat)
    requires
        s.len() > 0,
        v < 64,
        s[0] == base64_letter(v),
    ensures
        base64_run(s, buf, bits, out) == ({
            let st = base64_step(buf, bits, out, v);
            base64_run(s.drop_first(), st.0, st.1, st.2)
        }),
{
    lemma_base64_letter_value(v);
}

/// Reading a padding `=` from the front of `s`.
proof fn lemma_base64_run_pad(s: Seq<u8>, buf: nat, bits: nat, out: Seq<u8>)
    requires
        s.len() > 0,
        s[0] == 61,
    ensures
        base64_run(s, buf, bits, out) == base64_run(s.drop_first(), buf, bits, out),
{
}

/// The steps of reading the first two letters of a group starting with
/// byte `x` (and `y`, or nothing): `x` is emitted and `y / 16` is pending.
proof fn lemma_base64_two_letters(x: nat, hi: nat, out: Seq<u8>)
    requires
        x < 256,
        hi < 16,
    ensures
        ({
            let v1 = x / 4;
            let v2 = (x % 4) * 16 + hi;
            let s1 = base64_step(0, 0, out, v1);
            &&& v1 < 64 && v2 < 64
            &&& s1 == (v1, 6nat, out)
            &&& base64_step(s1.0, s1.1, s1.2, v2) == (hi, 4nat, out.push(x as u8))
        }),
{
    lemma_pow2_small_values();
    let v1 = x / 4;
    let v2 = (x % 4) * 16 + hi;
    assert(v1 * 64 + v2 == 16 * x + hi) by (nonlinear_arith)
        requires
            v1 == x / 4,
            v2 == (x % 4) * 16 + hi,
    ;
    assert((16 * x + hi) / 16 == x && (16 * x + hi) % 16 == hi) by (nonlinear_arith)
        requires
            hi < 16,
    ;
}

/// The step of reading the third letter of a group whose second byte is
/// `y` and third byte's top bits are `hi`: `y` is emitted, `hi` is pending.
proof fn lemma_base64_third_letter(y: nat, hi: nat, out: Seq<u8>)
    requires
        y < 256,
        hi < 4,
    ensures
        ({
            let v3 = (y % 16) * 4 + hi;
            &&& v3 < 64
            &&& base64_step(y / 16, 4, out, v3) == (hi, 2nat, out.push(y as u8))
        }),
{
    lemma_pow2_small_values();
    let v3 = (y % 16) * 4 + hi;
    assert((y / 16) * 64 + v3 == 4 * y + hi) by (nonlinear_arith)
        requires
            v3 == (y % 16) * 4 + hi,
    ;
    assert((4 * y + hi) / 4 == y && (4 * y + hi) % 4 == hi) by (nonlinear_arith)
        requires
            hi < 4,
    ;
}

/// The step of reading the fourth letter of a group whose third byte is `z`.
proof fn lemma_base64_fourth_letter(z: nat, out: Seq<u8>)
    requires
        z < 256,
    ensures
        z % 64 < 64,
        base64_step(z / 64, 2, out, z % 64) == (0nat, 0nat, out.push(z as u8)),
{
    lemma_pow2_small_values();
    assert((z / 64) * 64 + z % 64 == z) by (nonlinear_arith);
    assert(z / 1 == z && z % 1 == 0) by (nonlinear_arith);
}

/// Decoding the standard base64 encoding of `b` gives `b` back.
#[verifier::rlimit(40)]
pub proof fn lemma_base64_run_encoded(b: Seq<u8>, out: Seq<u8>)
    ensures
        base64_run(base64_encoded(b), 0, 0, out) == Some(out + b),
    decreases b.len(),
{
    let e = base64_encoded(b);
    if b.len() == 0 {
        assert(out + b =~= out);
    } else if b.len() == 1 {
        let x = b[0] as nat;
        lemma_base64_two_letters(x, 0, out);
        let o1 = out.push(x as u8);
        lemma_base64_run_letter(e, 0, 0, out, x / 4);
        lemma_base64_run_letter(e.drop_first(), x / 4, 6, out, (x % 4) * 16);
        let e2 = e.drop_first().drop_first();
        lemma_base64_run_pad(e2, 0, 4, o1);
        lemma_base64_run_pad(e2.drop_first(), 0, 4, o1);
        assert(e2.drop_first().drop_first() =~= Seq::<u8>::empty());
        assert(o1 =~= out + b);
    } else if b.len() == 2 {
        let x = b[0] as nat;
        let y = b[1] as nat;
        lemma_base64_two_letters(x, y / 16, out);
        let o1 = out.push(x as u8);
        lemma_base64_third_letter(y, 0, o1);
        let o2 = o1.push(y as u8);
        lemma_base64_run_letter(e, 0, 0, out, x / 4);
        lemma_base64_run_letter(e.drop_first(), x / 4, 6, out, (x % 4) * 16 + y / 16);
        let e2 = e.drop_first().drop_first();
        lemma_base64_run_letter(e2, y / 16, 4, o1, (y % 16) * 4);
        lemma_base64_run_pad(e2.drop_first(), 0, 2, o2);
        assert(e2.drop_first().drop_first() =~= Seq::<u8>::empty());
        assert(o2 =~= out + b);
    } else {
        let x = b[0] as nat;
        let y = b[1] as nat;
        let z = b[2] as nat;
        lemma_base64_two_letters(x, y / 16, out);
        let o1 = out.push(x as u8);
        lemma_base64_third_letter(y, z / 64, o1);
        let o2 = o1.push(y as u8);
        lemma_base64_fourth_letter(z, o2);
        let o3 = o2.push(z as u8);
        lemma_base64_run_letter(e, 0, 0, out, x / 4);
        lemma_base64_run_letter(e.drop_first(), x / 4, 6, out, (x % 4) * 16 + y / 16);
        let e2 = e.drop_first().drop_first();
        lemma_base64_run_letter(e2, y / 16, 4, o1, (y % 16) * 4 + z / 64);
        lemma_base64_run_letter(e2.drop_first(), z / 64, 2, o2, z % 64);
        assert(e2.drop_first().drop_first() =~= base64_encoded(b.skip(3)));
        lemma_base64_run_encoded(b.skip(3), o3);
        assert(o3 + b.skip(3) =~= out + b);
    }
}

/// A text whose bytes are the standard base64 encoding of the UTF-8 of `s`
/// decodes to `s`.
pub proof fn lemma_base64_round_trip(s: Seq<char>, t: Seq<char>)
    requires
        vstd::utf8::encode_utf8(t) == base64_encoded(vstd::utf8::encode_utf8(s)),
    ensures
        base64_decoded(t) == Some(s),
{
    let b = vstd::utf8::encode_utf8(s);
    lemma_base64_run_encoded(b, Seq::empty());
    assert(Seq::<u8>::empty() + b =~= b);
    vstd::utf8::encode_utf8_valid_utf8(s);
    vstd::utf8::encode_utf8_decode_utf8(s);
}

/// Inserting a byte that the decoder passes over (`=`, `\n`, `\r`, space)
/// anywhere in the input does not change what it decodes to.
pub proof fn lemma_base64_passes_over(a: Seq<u8>, x: u8, b: Seq<u8>, buf: nat, bits: nat, out: Seq<
    u8,
>)
    requires
        base64_skipped(x),
    ensures
        base64_run(a + seq![x] + b, buf, bits, out) == base64_run(a + b, buf, bits, out),
    decreases a.len(),
{
    if a.len() == 0 {
        assert((a + seq![x] + b)[0] == x);
        assert((a + seq![x] + b).drop_first() =~= b);
        assert(a + b =~= b);
        assert((a + seq![x] + b).len() > 0);
        assert(base64_run(a + seq![x] + b, buf, bits, out) == base64_run(b, buf, bits, out));
    } else {
        let ax = a + seq![x] + b;
        let ab = a + b;
        assert(ax.drop_first() =~= a.drop_first() + seq![x] + b);
        assert(ab.drop_first() =~= a.drop_first() + b);
        assert(ax[0] == a[0]);
        assert(ab[0] == a[0]);
        if base64_skipped(a[0]) {
            lemma_base64_passes_over(a.drop_first(), x, b, buf, bits, out);
        } else {
            match base64_value(a[0]) {
                None => {},
                Some(v) => {
                    let st = base64_step(buf, bits, out, v as nat);
                    lemma_base64_passes_over(a.drop_first(), x, b, st.0, st.1, st.2);
                },
            }
        }
    }
}

// ---------------------------------------------------------------------
// Extracting text from HTML
// ---------------------------------------------------------------------

/// The lines of `text`, trimmed, keeping those longer than `min_bytes` bytes,
/// joined with newlines.
pub open spec fn tidy_lines(text: Seq<char>, min_bytes: nat) -> Seq<char> {
    join(
        lines(text).map_values(|l: Seq<char>| trim(l)).filter(
            |l: Seq<char>| utf8_len(l) > min_bytes,
        ),
        "\n"@,
    )
}

fn tidy_lines_exec(text: &[char], min_bytes: usize) -> (r: Vec<char>)
    ensures
        r@ == tidy_lines(text@, min_bytes as nat),
{
    let ls = lines_exec(text);
    let ghost m = views(ls@).map_values(|l: Seq<char>| trim(l));
    let ghost pred = |l: Seq<char>| utf8_len(l) > min_bytes as nat;
    let mut kept: Vec<Vec<char>> = Vec::new();
    let mut i: usize = 0;
    assert(m.take(0) =~= Seq::<Seq<char>>::empty());
    while i < ls.len()
        invariant
            i <= ls@.len(),
            m == views(ls@).map_values(|l: Seq<char>| trim(l)),
            pred == (|l: Seq<char>| utf8_len(l) > min_bytes as nat),
            views(kept@) == m.take(i as int).filter(pred),
        decreases ls.len() - i,
    {
        let t = trim_exec(ls[i].as_slice());
        proof {
            assert(ls@[i as int]@ == views(ls@)[i as int]);
            assert(t@ == m[i as int]);
            assert(m.take(i + 1) =~= m.take(i as int).push(m[i as int]));
            m.take(i as int).lemma_filter_push(m[i as int], pred);
        }
        if utf8_len_exceeds(t.as_slice(), min_bytes) {
            let ghost before = views(kept@);
            let ghost tv = t@;
            kept.push(t);
            assert(views(kept@) =~= before.push(tv));
        }
        i += 1;
    }
    assert(m.take(i as int) =~= m);
    let sep = chars_of("\n");
    crate::text::join_exec(&kept, sep.as_slice())
}

/// The text after `i` in `s`, right behind a `<`, begins with `name`.
pub open spec fn tag_starts(s: Seq<char>, i: int, name: Seq<char>) -> bool {
    matches_at(s, i + 1, name)
}

/// The text of a WeChat article body `s` from index `i` on, having produced
/// `out` so far, inside a tag or not, at `div`/`section` nesting `depth`:
/// text outside tags is kept, `<br>`, `</p>` and closing `div`/`section`
/// tags start a new line, and reading stops at the end of the input, once
/// more than `MAX_CONTENT_LENGTH` bytes are kept, or when the nesting
/// returns to zero.
pub open spec fn wechat_scan(s: Seq<char>, i: int, out: Seq<char>, in_tag: bool, depth: int) -> Seq<
    char,
>
    decreases s.len() - i,
{
    if i < 0 || i >= s.len() || utf8_len(out) > MAX_CONTENT_LENGTH {
        out
    } else if s[i] == '<' {
        let opens = tag_starts(s, i, "div"@) || tag_starts(s, i, "section"@);
        let closes = tag_starts(s, i, "/div"@) || tag_starts(s, i, "/section"@);
        let depth2 = if opens {
            depth + 1
        } else if closes {
            depth - 1
        } else {
            depth
        };
        if !opens && closes && depth2 <= 0 {
            out
        } else {
            let newline = tag_starts(s, i, "br"@) || tag_starts(s, i, "/p"@) || closes;
            let out2 = if newline && !(out.len() > 0 && out.last() == '\n') {
                out.push('\n')
            } else {
                out
            };
            wechat_scan(s, i + 1, out2, true, depth2)
        }
    } else if s[i] == '>' {
        wechat_scan(s, i + 1, out, false, depth)
    } else if in_tag {
        wechat_scan(s, i + 1, out, in_tag, depth)
    } else {
        wechat_scan(s, i + 1, out.push(s[i]), in_tag, depth)
    }
}

/// The article text of a WeChat page: the body of the element with
/// `id="js_content"`, read by `wechat_scan`, entities decoded, trimmed
/// non-empty lines joined with newlines; empty when there is no such element.
pub open spec fn wechat_content(html: Seq<char>) -> Seq<char> {
    match find(html, "id=\"js_content\""@) {
        None => Seq::empty(),
        Some(start) => match find(html.skip(start), ">"@) {
            None => Seq::empty(),
            Some(idx) => tidy_lines(
                html_decoded(wechat_scan(html.skip(start + idx + 1), 0, Seq::empty(), false, 1)),
                0,
            ),
        },
    }
}

fn wechat_scan_exec(s: &[char]) -> (r: Vec<char>)
    ensures
        r@ == wechat_scan(s@, 0, Seq::empty(), false, 1),
{
    let mut out: Vec<char> = Vec::new();
    let mut out_bytes: usize = 0;
    let mut in_tag = false;
    let mut extra: usize = 0;
    let mut i: usize = 0;
    proof {
        reveal_strlit("div");
        reveal_strlit("section");
        reveal_strlit("/div");
        reveal_strlit("/section");
        reveal_strlit("br");
        reveal_strlit("/p");
    }
    while i < s.len()
        invariant
            i <= s.len(),
            extra <= i,
            out_bytes == utf8_len(out@),
            out_bytes <= MAX_CONTENT_LENGTH + 4,
            wechat_scan(s@, 0, Seq::empty(), false, 1) == wechat_scan(
                s@,
                i as int,
                out@,
                in_tag,
                extra + 1,
            ),
        decreases s.len() - i,
    {
        if out_bytes > MAX_CONTENT_LENGTH {
            return out;
        }
        let ch = s[i];
        if ch == '<' {
            let opens = matches_str_at(s, i + 1, "div") || matches_str_at(s, i + 1, "section");
            let closes = matches_str_at(s, i + 1, "/div") || matches_str_at(s, i + 1, "/section");
            if opens {
                extra = extra + 1;
            } else if closes {
                if extra == 0 {
                    return out;
                }
                extra = extra - 1;
            }
            let newline = matches_str_at(s, i + 1, "br") || matches_str_at(s, i + 1, "/p")
                || closes;
            if newline && !ends_with_char(out.as_slice(), '\n') {
                proof {
                    lemma_utf8_len_push(out@, '\n');
                }
                out.push('\n');
                out_bytes = out_bytes + 1;
            }
            in_tag = true;
        } else if ch == '>' {
            in_tag = false;
        } else if !in_tag {
            proof {
                lemma_utf8_len_push(out@, ch);
            }
            out_bytes = out_bytes + char_utf8_len_exec(ch);
            out.push(ch);
        }
        i += 1;
    }
    out
}

/// The article text of a WeChat page (see `wechat_content`).
pub fn extract_wechat_content(html: &str) -> (r: String)
    ensures
        r@ == wechat_content(html@),
{
    let cs = chars_of(html);
    match find_str(cs.as_slice(), "id=\"js_content\"") {
        None => String::new(),
        Some(start) => {
            proof {
                lemma_find_from_props(cs@, 0, "id=\"js_content\""@);
            }
            let rest = copy_range(cs.as_slice(), start, cs.len());
            assert(rest@ =~= cs@.skip(start as int));
            match find_str(rest.as_slice(), ">") {
                None => String::new(),
                Some(idx) => {
                    proof {
                        lemma_find_from_props(rest@, 0, ">"@);
                        reveal_strlit(">");
                    }
                    let body = copy_range(cs.as_slice(), start + idx + 1, cs.len());
                    assert(body@ =~= cs@.skip(start + idx + 1));
                    let scanned = wechat_scan_exec(body.as_slice());
                    let decoded = html_decode_chars(scanned.as_slice());
                    let t = tidy_lines_exec(decoded.as_slice(), 0);
                    string_from_chars(t.as_slice())
                },
            }
        },
    }
}

/// The earlier of two found positions.
pub open spec fn earliest(a: Option<int>, b: Option<int>) -> Option<int> {
    match (a, b) {
        (Some(x), Some(y)) => Some(if x <= y {
            x
        } else {
            y
        }),
        (Some(x), None) => Some(x),
        (None, y) => y,
    }
}

/// Where page text starts: the first of `<article`, `<main` and `<body`
/// found in `html`, else the beginning.
pub open spec fn text_start(html: Seq<char>) -> int {
    match earliest(earliest(find(html, "<article"@), find(html, "<main"@)), find(html, "<body"@)) {
        Some(k) => k,
        None => 0,
    }
}

/// The characters of `c` from index `i` that lie within the next 20 bytes
/// of the page.
pub open spec fn upcoming(c: Seq<char>, i: int) -> Seq<char> {
    chars_within(c.skip(i), 20)
}

/// What a tag does, given the lowercased characters `up` from its `<` on
/// and whether a script or a style was open: `(script, style, newline)`.
/// `<script` opens a script and `</script` closes it; otherwise `<style`
/// opens a style and `</style` closes it; `<br`, `</p`, `</div`, `</h`,
/// `</li` and `</tr` start a new line.
pub open spec fn tag_effect(up: Seq<char>, in_script: bool, in_style: bool) -> (bool, bool, bool) {
    let script2 = if starts_with(up, "<script"@) {
        true
    } else if starts_with(up, "</script"@) {
        false
    } else {
        in_script
    };
    let style2 = if starts_with(up, "<script"@) || starts_with(up, "</script"@) {
        in_style
    } else if starts_with(up, "<style"@) {
        true
    } else if starts_with(up, "</style"@) {
        false
    } else {
        in_style
    };
    let newline = starts_with(up, "<br"@) || starts_with(up, "</p"@) || starts_with(up, "</div"@)
        || starts_with(up, "</h"@) || starts_with(up, "</li"@) || starts_with(up, "</tr"@);
    (script2, style2, newline)
}

/// What the tag whose lowercased window is `lowered` does (see
/// `tag_effect`): whether a script and a style are open after it, and
/// whether it starts a new line.
pub fn tag_window_effect(lowered: &str, in_script: bool, in_style: bool) -> (r: (bool, bool, bool))
    ensures
        r == tag_effect(lowered@, in_script, in_style),
{
    let up = chars_of(lowered);
    let mut script = in_script;
    let mut style = in_style;
    if matches_str_at(up.as_slice(), 0, "<script") {
        script = true;
    } else if matches_str_at(up.as_slice(), 0, "</script") {
        script = false;
    } else if matches_str_at(up.as_slice(), 0, "<style") {
        style = true;
    } else if matches_str_at(up.as_slice(), 0, "</style") {
        style = false;
    }
    let newline = matches_str_at(up.as_slice(), 0, "<br") || matches_str_at(up.as_slice(), 0, "</p")
        || matches_str_at(up.as_slice(), 0, "</div") || matches_str_at(up.as_slice(), 0, "</h")
        || matches_str_at(up.as_slice(), 0, "</li") || matches_str_at(up.as_slice(), 0, "</tr");
    (script, style, newline)
}

/// The text of the characters `c` of a page from index `i` on, having
/// produced `out` so far: every character outside tags, scripts and styles
/// is kept; at each `<` the characters within the next 20 bytes are
/// lowercased to recognise `<script`, `</script`, `<style`, `</style`, and
/// the tags `<br`, `</p`, `</div`, `</h`, `</li`, `</tr` that start a new
/// line.  Reading stops at the end or once `MAX_CONTENT_LENGTH` bytes are
/// kept.
pub open spec fn strip_scan(
    c: Seq<char>,
    i: int,
    out: Seq<char>,
    in_tag: bool,
    in_script: bool,
    in_style: bool,
) -> Seq<char>
    decreases c.len() - i,
{
    if i < 0 || i >= c.len() || utf8_len(out) >= MAX_CONTENT_LENGTH {
        out
    } else if c[i] == '<' {
        let eff = tag_effect(lowercase(upcoming(c, i)), in_script, in_style);
        let (script2, style2, newline) = (eff.0, eff.1, eff.2);
        let out2 = if newline && !(out.len() > 0 && out.last() == '\n') {
            out.push('\n')
        } else {
            out
        };
        strip_scan(c, i + 1, out2, true, script2, style2)
    } else if c[i] == '>' {
        strip_scan(c, i + 1, out, false, in_script, in_style)
    } else if !in_tag && !in_script && !in_style {
        strip_scan(c, i + 1, out.push(c[i]), in_tag, in_script, in_style)
    } else {
        strip_scan(c, i + 1, out, in_tag, in_script, in_style)
    }
}

/// The readable text of an HTML page: its characters from `text_start` on
/// read by `strip_scan`, entities decoded, lines trimmed, lines of at most
/// one byte dropped, joined with newlines.
pub open spec fn stripped_html(html: Seq<char>) -> Seq<char> {
    tidy_lines(
        html_decoded(strip_scan(html.skip(text_start(html)), 0, Seq::empty(), false, false, false)),
        1,
    )
}

fn earliest_exec(a: Option<usize>, b: Option<usize>) -> (r: Option<usize>)
    ensures
        earliest(
            match a {
                Some(x) => Some(x as int),
                None => None,
            },
            match b {
                Some(x) => Some(x as int),
                None => None,
            },
        ) == match r {
            Some(x) => Some(x as int),
            None => None::<int>,
        },
{
    match (a, b) {
        (Some(x), Some(y)) => Some(if x <= y {
            x
        } else {
            y
        }),
        (Some(x), None) => Some(x),
        (None, y) => y,
    }
}

fn strip_scan_exec(c: &[char]) -> (r: Vec<char>)
    ensures
        r@ == strip_scan(c@, 0, Seq::empty(), false, false, false),
{
    let mut out: Vec<char> = Vec::new();
    let mut out_bytes: usize = 0;
    let mut in_tag = false;
    let mut in_script = false;
    let mut in_style = false;
    let mut i: usize = 0;
    while i < c.len() && out_bytes < MAX_CONTENT_LENGTH
        invariant
            i <= c.len(),
            out_bytes == utf8_len(out@),
            out_bytes <= MAX_CONTENT_LENGTH + 4,
            strip_scan(c@, 0, Seq::empty(), false, false, false) == strip_scan(
                c@,
                i as int,
                out@,
                in_tag,
                in_script,
                in_style,
            ),
        decreases c.len() - i,
    {
        let ch = c[i];
        if ch == '<' {
            let (window, _) = chars_within_exec(c, i, 20);
            let lower = lowercase_string(string_from_chars(window.as_slice()).as_str());
            let (script2, style2, newline) = tag_window_effect(lower.as_str(), in_script, in_style);
            in_script = script2;
            in_style = style2;
            if newline && !ends_with_char(out.as_slice(), '\n') {
                proof {
                    lemma_utf8_len_push(out@, '\n');
                }
                out.push('\n');
                out_bytes = out_bytes + 1;
            }
            in_tag = true;
        } else if ch == '>' {
            in_tag = false;
        } else if !in_tag && !in_script && !in_style {
            proof {
                lemma_utf8_len_push(out@, ch);
            }
            out_bytes = out_bytes + char_utf8_len_exec(ch);
            out.push(ch);
        }
        i += 1;
    }
    out
}

/// The readable text of an HTML page (see `stripped_html`).
pub fn strip_html_to_text(html: &str) -> (r: String)
    ensures
        r@ == stripped_html(html@),
{
    let cs = chars_of(html);
    let a = find_str(cs.as_slice(), "<article");
    let m = find_str(cs.as_slice(), "<main");
    let b = find_str(cs.as_slice(), "<body");
    let start = match earliest_exec(earliest_exec(a, m), b) {
        Some(k) => k,
        None => 0,
    };
    proof {
        lemma_find_from_props(cs@, 0, "<article"@);
        lemma_find_from_props(cs@, 0, "<main"@);
        lemma_find_from_props(cs@, 0, "<body"@);
        assert(start == text_start(html@));
    }
    let content = copy_range(cs.as_slice(), start, cs.len());
    assert(content@ =~= html@.skip(start as int));
    let out = strip_scan_exec(content.as_slice());
    let decoded = html_decode_chars(out.as_slice());
    let t = tidy_lines_exec(decoded.as_slice(), 1);
    string_from_chars(t.as_slice())
}

// ---------------------------------------------------------------------
// Laws
// ---------------------------------------------------------------------

/// Text without an `&` has no entities: decoding leaves it unchanged.
pub proof fn lemma_html_decode_plain_text(s: Seq<char>)
    requires
        !s.contains('&'),
    ensures
        html_decoded(s) == s,
{
    reveal_strlit("&amp;");
    reveal_strlit("&lt;");
    reveal_strlit("&gt;");
    reveal_strlit("&quot;");
    reveal_strlit("&#39;");
    reveal_strlit("&nbsp;");
    reveal_strlit("&#x27;");
    reveal_strlit("&#x2F;");
    reveal_strlit("&#x3D;");
    lemma_replace_absent(s, "&amp;"@, "&"@);
    lemma_replace_absent(s, "&lt;"@, "<"@);
    lemma_replace_absent(s, "&gt;"@, ">"@);
    lemma_replace_absent(s, "&quot;"@, "\""@);
    lemma_replace_absent(s, "&#39;"@, "'"@);
    lemma_replace_absent(s, "&nbsp;"@, " "@);
    lemma_replace_absent(s, "&#x27;"@, "'"@);
    lemma_replace_absent(s, "&#x2F;"@, "/"@);
    lemma_replace_absent(s, "&#x3D;"@, "="@);
}

/// Cutting content a second time changes nothing, except for content of
/// more than `MAX_CONTENT_LENGTH` bytes but fewer than `MAX_CONTENT_LENGTH`
/// characters, which gets the cut marker once more.
pub proof fn lemma_truncate_content_idempotent(s: Seq<char>)
    requires
        utf8_len(s) <= MAX_CONTENT_LENGTH || s.len() >= MAX_CONTENT_LENGTH,
    ensures
        truncated_content(truncated_content(s)) == truncated_content(s),
{
    if utf8_len(s) > MAX_CONTENT_LENGTH {
        let head = take_chars(s, MAX_CONTENT_LENGTH as nat);
        let marker = "...\n\n[内容已截断]"@;
        reveal_strlit("...\n\n[内容已截断]");
        let t = head + marker;
        assert(head.len() == MAX_CONTENT_LENGTH);
        lemma_utf8_len_concat(head, marker);
        lemma_utf8_len_ge_len(head);
        lemma_utf8_len_ge_len(marker);
        assert(utf8_len(t) > MAX_CONTENT_LENGTH);
        assert(t.take(MAX_CONTENT_LENGTH as int) =~= head);
    }
}

/// Page text starts at the earliest of `<article`, `<main` and `<body`
/// that occurs: no later than any of them, at one of them when one occurs,
/// and at the beginning when none does.
pub proof fn lemma_text_start_is_earliest_marker(html: Seq<char>)
    ensures
        find(html, "<article"@) matches Some(k) ==> text_start(html) <= k,
        find(html, "<main"@) matches Some(k) ==> text_start(html) <= k,
        find(html, "<body"@) matches Some(k) ==> text_start(html) <= k,
        find(html, "<article"@) is Some || find(html, "<main"@) is Some || find(html, "<body"@)
            is Some ==> Some(text_start(html)) == find(html, "<article"@) || Some(
            text_start(html),
        ) == find(html, "<main"@) || Some(text_start(html)) == find(html, "<body"@),
        find(html, "<article"@) is None && find(html, "<main"@) is None && find(html, "<body"@)
            is None ==> text_start(html) == 0,
{
}

/// Text that holds no tag delimiter.
pub open spec fn is_plain_text(t: Seq<char>) -> bool {
    !t.contains('<') && !t.contains('>')
}

/// Reading plain text outside a tag keeps it.
proof fn lemma_wechat_plain(s: Seq<char>, i: int, t: Seq<char>, out: Seq<char>, depth: int)
    requires
        0 <= i,
        i + t.len() <= s.len(),
        s.subrange(i, i + t.len()) == t,
        is_plain_text(t),
        utf8_len(out + t) <= MAX_CONTENT_LENGTH,
    ensures
        wechat_scan(s, i, out, false, depth) == wechat_scan(s, i + t.len(), out + t, false, depth),
    decreases t.len(),
{
    if t.len() == 0 {
        assert(out + t =~= out);
    } else {
        assert(s[i] == t[0]) by {
            assert(s.subrange(i, i + t.len())[0] == s[i]);
        }
        assert(t.contains(t[0]));
        lemma_utf8_len_concat(out, t);
        let rest = t.drop_first();
        assert(out.push(t[0]) + rest =~= out + t);
        assert(s.subrange(i + 1, i + 1 + rest.len()) =~= rest) by {
            assert forall|k: int| 0 <= k < rest.len() implies s.subrange(i + 1, i + 1 + rest.len())[k]
                == rest[k] by {
                assert(s.subrange(i, i + t.len())[k + 1] == t[k + 1]);
            }
        }
        assert forall|c: char| rest.contains(c) implies t.contains(c) by {
            let k = choose|k: int| 0 <= k < rest.len() && rest[k] == c;
            assert(t[k + 1] == c);
        }
        lemma_wechat_plain(s, i + 1, rest, out.push(t[0]), depth);
    }
}

/// Inside a tag, reading passes over everything up to the closing `>`.
proof fn lemma_wechat_skip_tag(s: Seq<char>, i: int, j: int, out: Seq<char>, depth: int)
    requires
        0 <= i <= j < s.len(),
        s[j] == '>',
        forall|k: int| i <= k < j ==> s[k] != '<' && s[k] != '>',
        utf8_len(out) <= MAX_CONTENT_LENGTH,
    ensures
        wechat_scan(s, i, out, true, depth) == wechat_scan(s, j + 1, out, false, depth),
    decreases j - i,
{
    if i < j {
        lemma_wechat_skip_tag(s, i + 1, j, out, depth);
    }
}

/// A `div` nested in a WeChat article does not end it: the text inside the
/// nested `div` and the text after it, up to the article's own closing
/// `</div>`, are both kept, on lines of their own.
#[verifier::rlimit(40)]
pub proof fn lemma_wechat_nested_div_kept(a: Seq<char>, b: Seq<char>, rest: Seq<char>)
    requires
        is_plain_text(a),
        is_plain_text(b),
        a.len() > 0,
        a.last() != '\n',
        utf8_len(a) + 1 + utf8_len(b) <= MAX_CONTENT_LENGTH,
    ensures
        wechat_scan("<div>"@ + a + "</div>"@ + b + "</div>"@ + rest, 0, Seq::empty(), false, 1)
            == a + "\n"@ + b,
{
    reveal_strlit("<div>");
    reveal_strlit("</div>");
    reveal_strlit("div");
    reveal_strlit("/div");
    reveal_strlit("section");
    reveal_strlit("/section");
    reveal_strlit("br");
    reveal_strlit("/p");
    reveal_strlit("\n");
    let open_tag = "<div>"@;
    let close_tag = "</div>"@;
    let s = open_tag + a + close_tag + b + close_tag + rest;
    let p: int = 5 + a.len() as int;
    let q: int = p + 6 + b.len();
    let e = Seq::<char>::empty();
    lemma_utf8_len_concat(a, "\n"@);
    lemma_utf8_len_concat(a + "\n"@, b);
    crate::text::lemma_utf8_len_char('\n');
    assert("\n"@ =~= seq!['\n']);
    assert(utf8_len("\n"@) == 1);
    assert(utf8_len(e) == 0) by {
        assert(vstd::utf8::encode_utf8(e) =~= Seq::<u8>::empty());
    }
    // The opening tag of the nested div.
    assert(s[0] == '<');
    assert(s.subrange(1, 4) =~= "div"@);
    assert(s[1] == 'd');
    assert(!matches_at(s, 1, "/div"@)) by {
        if matches_at(s, 1, "/div"@) {
            assert(s.subrange(1, 5)[0] == s[1]);
        }
    }
    assert(!matches_at(s, 1, "/section"@)) by {
        if matches_at(s, 1, "/section"@) {
            assert(s.subrange(1, 9)[0] == s[1]);
        }
    }
    assert(!matches_at(s, 1, "br"@)) by {
        if matches_at(s, 1, "br"@) {
            assert(s.subrange(1, 3)[0] == s[1]);
        }
    }
    assert(!matches_at(s, 1, "/p"@)) by {
        if matches_at(s, 1, "/p"@) {
            assert(s.subrange(1, 3)[0] == s[1]);
        }
    }
    assert(wechat_scan(s, 0, e, false, 1) == wechat_scan(s, 1, e, true, 2));
    assert(s[4] == '>');
    lemma_wechat_skip_tag(s, 1, 4, e, 2);
    // The text inside the nested div.
    assert(s.subrange(5, p) =~= a);
    assert(e + a =~= a);
    lemma_wechat_plain(s, 5, a, e, 2);
    // Its closing tag starts a new line and returns to the article's depth.
    assert(s[p] == '<');
    assert(s[p + 1] == '/');
    assert(s.subrange(p + 1, p + 5) =~= "/div"@);
    assert(s[p + 1] == '/');
    assert(!matches_at(s, p + 1, "div"@)) by {
        if matches_at(s, p + 1, "div"@) {
            assert(s.subrange(p + 1, p + 1 + 3)[0] == s[p + 1]);
        }
    }
    assert(!matches_at(s, p + 1, "section"@)) by {
        if matches_at(s, p + 1, "section"@) {
            assert(s.subrange(p + 1, p + 1 + 7)[0] == s[p + 1]);
        }
    }
    assert(a.len() > 0 && a.last() != '\n');
    assert(wechat_scan(s, p, a, false, 2) == wechat_scan(s, p + 1, a.push('\n'), true, 1));
    assert(s[p + 5] == '>');
    assert(a.push('\n') =~= a + "\n"@);
    lemma_wechat_skip_tag(s, p + 1, p + 5, a + "\n"@, 1);
    // The text after it.
    assert(s.subrange(p + 6, q) =~= b);
    lemma_wechat_plain(s, p + 6, b, a + "\n"@, 1);
    // The article's own closing tag ends the reading.
    assert(s[q] == '<');
    assert(s.subrange(q + 1, q + 5) =~= "/div"@);
    assert(s[q + 1] == '/');
    assert(!matches_at(s, q + 1, "div"@)) by {
        if matches_at(s, q + 1, "div"@) {
            assert(s.subrange(q + 1, q + 1 + 3)[0] == s[q + 1]);
        }
    }
    assert(!matches_at(s, q + 1, "section"@)) by {
        if matches_at(s, q + 1, "section"@) {
            assert(s.subrange(q + 1, q + 1 + 7)[0] == s[q + 1]);
        }
    }
}

} // verus!
