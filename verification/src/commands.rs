//! What the app's content and wiki commands compute from what the store
//! hands them: the window of a content query, the edge count of each page
//! in the wiki graph, the fields of a Q&A reply and of the page an answer is
//! saved as, the findings of a local lint pass, and the tally of an
//! automatic compile.
use vstd::prelude::*;
use vstd::string::*;
use crate::text::{
    chars_of, chars_within, chars_within_exec, push_all, push_str,
    str_equal, string_from_chars, take_chars, take_chars_exec, utf8_len, utf8_len_exceeds,
};

verus! {

// ---------------------------------------------------------------------
// Content queries
// ---------------------------------------------------------------------

/// The page size and offset a content query runs with: the requested limit
/// held between 1 and 5000, and the offset, at least 0.
pub fn content_query_window(limit: i64, offset: i64) -> (r: (i64, i64))
    ensures
        r.0 == (if limit > 5000 {
            5000
        } else if limit < 1 {
            1
        } else {
            limit
        }),
        r.1 == (if offset < 0 {
            0
        } else {
            offset
        }),
{
    let l = if limit > 5000 {
        5000
    } else {
        limit
    };
    let l = if l < 1 {
        1
    } else {
        l
    };
    let o = if offset < 0 {
        0
    } else {
        offset
    };
    (l, o)
}

// ---------------------------------------------------------------------
// Wiki graph
// ---------------------------------------------------------------------

/// The ends of each edge as text: (source page id, target page id).
pub open spec fn edge_views(edges: Seq<(String, String)>) -> Seq<(Seq<char>, Seq<char>)> {
    edges.map_values(|e: (String, String)| (e.0@, e.1@))
}

/// The edge starts or ends at the page `id`.
pub open spec fn touches(e: (Seq<char>, Seq<char>), id: Seq<char>) -> bool {
    e.0 == id || e.1 == id
}

/// The number of edges that start or end at the page `id`.
pub open spec fn edge_count(edges: Seq<(Seq<char>, Seq<char>)>, id: Seq<char>) -> nat {
    edges.filter(|e: (Seq<char>, Seq<char>)| touches(e, id)).len()
}

fn count_touching(edges: &[(String, String)], id: &str) -> (n: usize)
    ensures
        n == edge_count(edge_views(edges@), id@),
{
    let ghost ev = edge_views(edges@);
    let ghost pred = |e: (Seq<char>, Seq<char>)| touches(e, id@);
    let mut n: usize = 0;
    let mut i: usize = 0;
    assert(ev.take(0) =~= Seq::<(Seq<char>, Seq<char>)>::empty());
    while i < edges.len()
        invariant
            i <= edges@.len(),
            ev == edge_views(edges@),
            pred == (|e: (Seq<char>, Seq<char>)| touches(e, id@)),
            n == ev.take(i as int).filter(pred).len(),
            n <= i,
        decreases edges.len() - i,
    {
        proof {
            assert(ev.take(i + 1) =~= ev.take(i as int).push(ev[i as int]));
            ev.take(i as int).lemma_filter_push(ev[i as int], pred);
        }
        let (s, t) = (&edges[i].0, &edges[i].1);
        if str_equal(s.as_str(), id) || str_equal(t.as_str(), id) {
            n = n + 1;
        }
        i += 1;
    }
    assert(ev.take(i as int) =~= ev);
    n
}

/// For each page, in order, the number of edges that start or end at it.
pub fn graph_edge_counts(page_ids: &[String], edges: &[(String, String)]) -> (r: Vec<usize>)
    ensures
        r@.len() == page_ids@.len(),
        forall|i: int|
            0 <= i < page_ids@.len() ==> r@[i] == edge_count(edge_views(edges@), #[trigger] page_ids@[i]@),
{
    let mut r: Vec<usize> = Vec::new();
    let mut i: usize = 0;
    while i < page_ids.len()
        invariant
            i <= page_ids@.len(),
            r@.len() == i,
            forall|j: int| 0 <= j < i ==> r@[j] == edge_count(edge_views(edges@), #[trigger] page_ids@[j]@),
        decreases page_ids.len() - i,
    {
        let n = count_touching(edges, page_ids[i].as_str());
        r.push(n);
        i += 1;
    }
    r
}

// ---------------------------------------------------------------------
// Questions and answers
// ---------------------------------------------------------------------

/// The text fields of the reply to a question: the model's answer, the JSON
/// of the page ids it used and its suggested follow-up question.
#[derive(Debug)]
pub struct QaReply {
    pub answer: String,
    pub pages_used: String,
    pub suggested_followup: String,
}

/// The reply's fields from what the model's JSON held: a missing answer
/// reads "无法回答" (cannot answer), missing page ids `[]`, and a missing
/// follow-up the empty string.
pub fn qa_reply(answer: Option<String>, pages_used: Option<String>, followup: Option<String>) -> (r:
    QaReply)
    ensures
        r.answer@ == (match answer {
            Some(a) => a@,
            None => "无法回答"@,
        }),
        r.pages_used@ == (match pages_used {
            Some(p) => p@,
            None => "[]"@,
        }),
        r.suggested_followup@ == (match followup {
            Some(f) => f@,
            None => Seq::<char>::empty(),
        }),
{
    let answer = match answer {
        Some(a) => a,
        None => String::from_str("无法回答"),
    };
    let pages_used = match pages_used {
        Some(p) => p,
        None => String::from_str("[]"),
    };
    let suggested_followup = match followup {
        Some(f) => f,
        None => String::new(),
    };
    QaReply { answer, pages_used, suggested_followup }
}

/// Byte `n` of `s` lies between two characters, or at its end
/// (`str::is_char_boundary`): `&s[..n]` is defined.
pub open spec fn is_char_boundary(s: Seq<char>, n: int) -> bool {
    utf8_len(chars_within(s, n)) == n
}

/// The page an answer is saved as, as text.
pub struct AnswerPageView {
    pub title: Seq<char>,
    pub slug: Seq<char>,
    pub body_markdown: Seq<char>,
    pub summary: Seq<char>,
    pub page_type: Seq<char>,
    pub status: Seq<char>,
}

/// The text fields of the page an answer is saved as.
#[derive(Debug)]
pub struct AnswerPage {
    pub title: String,
    pub slug: String,
    pub body_markdown: String,
    pub summary: String,
    pub page_type: String,
    pub status: String,
}

impl View for AnswerPage {
    type V = AnswerPageView;

    open spec fn view(&self) -> AnswerPageView {
        AnswerPageView {
            title: self.title@,
            slug: self.slug@,
            body_markdown: self.body_markdown@,
            summary: self.summary@,
            page_type: self.page_type@,
            status: self.status@,
        }
    }
}

/// The question and the new page's id can be cut where the page needs them:
/// the question after its 30th byte when it is longer, the id after its 8th.
pub open spec fn answer_page_cuts_chars(question: Seq<char>, page_id: Seq<char>) -> bool {
    &&& utf8_len(question) > 30 ==> is_char_boundary(question, 30)
    &&& is_char_boundary(page_id, 8)
}

/// The page an answer is saved as: titled by the question, or its first 30
/// bytes and `...` when it is longer; slug `qa-` and the first 8 bytes of the
/// page id; a body with the question and the answer under their headings;
/// a summary with the question's first 30 characters; a `concept` page,
/// `active` from the start.
pub open spec fn answer_page_view(question: Seq<char>, answer: Seq<char>, page_id: Seq<char>) -> AnswerPageView {
    AnswerPageView {
        title: if utf8_len(question) > 30 {
            chars_within(question, 30) + "..."@
        } else {
            question
        },
        slug: "qa-"@ + chars_within(page_id, 8),
        body_markdown: "## 问题\n\n"@ + question + "\n\n## 回答\n\n"@ + answer,
        summary: "Q&A: "@ + take_chars(question, 30),
        page_type: "concept"@,
        status: "active"@,
    }
}

/// Composes the page an answer is saved as (see `answer_page_view`).
pub fn answer_page(question: &str, answer: &str, page_id: &str) -> (r: AnswerPage)
    requires
        answer_page_cuts_chars(question@, page_id@),
    ensures
        r@ == answer_page_view(question@, answer@, page_id@),
{
    let qc = chars_of(question);
    assert(qc@.skip(0) =~= qc@);
    let (head, _) = chars_within_exec(qc.as_slice(), 0, 30);
    let long = utf8_len_exceeds(qc.as_slice(), 30);
    let title = if long {
        let mut t = head.clone();
        push_str(&mut t, "...");
        string_from_chars(t.as_slice())
    } else {
        String::from_str(question)
    };
    let ic = chars_of(page_id);
    assert(ic@.skip(0) =~= ic@);
    let (id_head, _) = chars_within_exec(ic.as_slice(), 0, 8);
    let mut slug: Vec<char> = Vec::new();
    push_str(&mut slug, "qa-");
    push_all(&mut slug, id_head.as_slice());
    let mut body: Vec<char> = Vec::new();
    push_str(&mut body, "## 问题\n\n");
    push_str(&mut body, question);
    push_str(&mut body, "\n\n## 回答\n\n");
    push_str(&mut body, answer);
    let first = take_chars_exec(qc.as_slice(), 30);
    let mut summary: Vec<char> = Vec::new();
    push_str(&mut summary, "Q&A: ");
    push_all(&mut summary, first.as_slice());
    AnswerPage {
        title,
        slug: string_from_chars(slug.as_slice()),
        body_markdown: string_from_chars(body.as_slice()),
        summary: string_from_chars(summary.as_slice()),
        page_type: String::from_str("concept"),
        status: String::from_str("active"),
    }
}

/// The position of the first record whose id is `id`, or the error
/// "对话不存在" (no such conversation).
pub fn find_conversation(ids: &[String], id: &str) -> (r: Result<usize, String>)
    ensures
        match r {
            Ok(k) => k < ids@.len() && ids@[k as int]@ == id@ && forall|j: int|
                0 <= j < k ==> (#[trigger] ids@[j])@ != id@,
            Err(e) => e@ == "对话不存在"@ && forall|j: int| 0 <= j < ids@.len() ==> (#[trigger] ids@[j])@ != id@,
        },
{
    let mut k: usize = 0;
    while k < ids.len()
        invariant
            k <= ids@.len(),
            forall|j: int| 0 <= j < k ==> (#[trigger] ids@[j])@ != id@,
        decreases ids.len() - k,
    {
        if str_equal(ids[k].as_str(), id) {
            return Ok(k);
        }
        k += 1;
    }
    Err(String::from_str("对话不存在"))
}

// ---------------------------------------------------------------------
// Lint
// ---------------------------------------------------------------------

/// A finding of the local lint pass, as it is saved.
#[derive(Debug)]
pub struct LintFinding {
    pub lint_type: String,
    pub severity: String,
    pub title: String,
    pub description: String,
    pub page_ids: String,
}

/// The JSON list holding one page id, as the lint pass writes it.
pub open spec fn one_page_list(id: Seq<char>) -> Seq<char> {
    "[\""@ + id + "\"]"@
}

fn one_page_list_exec(id: &str) -> (r: String)
    ensures
        r@ == one_page_list(id@),
{
    let mut v: Vec<char> = Vec::new();
    push_str(&mut v, "[\"");
    push_str(&mut v, id);
    push_str(&mut v, "\"]");
    string_from_chars(v.as_slice())
}

/// The finding for a page that needs recompiling: a `stale` warning that
/// some of its sources changed or were deleted.
pub fn stale_page_finding(page_title: &str, page_id: &str) -> (r: LintFinding)
    ensures
        r.lint_type@ == "stale"@,
        r.severity@ == "warning"@,
        r.title@ == "「"@ + page_title@ + "」有过时来源"@,
        r.description@ == "部分来源已更新或删除，建议重新编译"@,
        r.page_ids@ == one_page_list(page_id@),
{
    let mut t: Vec<char> = Vec::new();
    push_str(&mut t, "「");
    push_str(&mut t, page_title);
    push_str(&mut t, "」有过时来源");
    LintFinding {
        lint_type: String::from_str("stale"),
        severity: String::from_str("warning"),
        title: string_from_chars(t.as_slice()),
        description: String::from_str("部分来源已更新或删除，建议重新编译"),
        page_ids: one_page_list_exec(page_id),
    }
}

/// The finding for a draft page, all of whose sources were deleted: a
/// critical `orphan` finding asking to keep or delete it.
pub fn draft_page_finding(page_title: &str, page_id: &str) -> (r: LintFinding)
    ensures
        r.lint_type@ == "orphan"@,
        r.severity@ == "critical"@,
        r.title@ == "「"@ + page_title@ + "」已失效"@,
        r.description@ == "所有来源已删除，请决定保留或删除"@,
        r.page_ids@ == one_page_list(page_id@),
{
    let mut t: Vec<char> = Vec::new();
    push_str(&mut t, "「");
    push_str(&mut t, page_title);
    push_str(&mut t, "」已失效");
    LintFinding {
        lint_type: String::from_str("orphan"),
        severity: String::from_str("critical"),
        title: string_from_chars(t.as_slice()),
        description: String::from_str("所有来源已删除，请决定保留或删除"),
        page_ids: one_page_list_exec(page_id),
    }
}

// ---------------------------------------------------------------------
// Automatic compile
// ---------------------------------------------------------------------

/// A content item needs assessing unless it was assessed at its current hash.
pub fn needs_assessment(assessed_hash: Option<&str>, current_hash: &str) -> (r: bool)
    ensures
        r == !(match assessed_hash {
            Some(h) => h@ == current_hash@,
            None => false,
        }),
{
    match assessed_hash {
        Some(h) => !str_equal(h, current_hash),
        None => true,
    }
}

/// The counts an automatic compile reports.
#[derive(Debug, Clone, Copy, PartialEq, Eq)]
pub struct CompileTally {
    pub processed: u64,
    pub compiled: u64,
    pub errors: u64,
}

/// The number of items in `outcomes` that are `b`.
pub open spec fn count_outcomes(outcomes: Seq<bool>, b: bool) -> nat
    decreases outcomes.len(),
{
    if outcomes.len() == 0 {
        0
    } else {
        count_outcomes(outcomes.drop_last(), b) + if outcomes.last() == b {
            1nat
        } else {
            0nat
        }
    }
}

/// The tally of an automatic compile, given whether each item that needed
/// assessing compiled: `compiled` counts the successes and `errors` the
/// failures, and `processed` is the successes plus every item attempted.
pub fn compile_tally(outcomes: &[bool]) -> (r: CompileTally)
    requires
        2 * outcomes@.len() <= u64::MAX,
    ensures
        r.compiled == count_outcomes(outcomes@, true),
        r.errors == count_outcomes(outcomes@, false),
        r.processed == count_outcomes(outcomes@, true) + outcomes@.len(),
{
    let mut compiled: u64 = 0;
    let mut errors: u64 = 0;
    let mut attempted: u64 = 0;
    let mut i: usize = 0;
    assert(outcomes@.take(0) =~= Seq::<bool>::empty());
    while i < outcomes.len()
        invariant
            i <= outcomes@.len(),
            2 * outcomes@.len() <= u64::MAX,
            compiled == count_outcomes(outcomes@.take(i as int), true),
            errors == count_outcomes(outcomes@.take(i as int), false),
            compiled + errors == i,
            attempted == i,
        decreases outcomes.len() - i,
    {
        assert(outcomes@.take(i + 1).drop_last() =~= outcomes@.take(i as int));
        if outcomes[i] {
            compiled = compiled + 1;
        } else {
            errors = errors + 1;
        }
        attempted = attempted + 1;
        i += 1;
    }
    assert(outcomes@.take(i as int) =~= outcomes@);
    CompileTally { processed: compiled + attempted, compiled, errors }
}

} // verus!
