//! Attention analysis: the prompt sent to a language model about the user's
//! recently captured items, the recovery of the JSON answer from the reply,
//! and the pruning of evidence that points outside the item list.
use vstd::prelude::*;
use vstd::string::*;
use crate::text::{
    chars_of, copy_range, decimal, find, find_str, join, join_exec, lemma_filter_all,
    lemma_filter_keeps, lowercase, lowercase_string,
    push_all, push_decimal, push_str, str_equal, string_from_chars, trim, trim_exec, views,
};

verus! {

// ---------------------------------------------------------------------
// Data types
// ---------------------------------------------------------------------

/// One piece of evidence: the position of an analysed item and a snippet of it.
#[derive(Debug, Clone)]
pub struct EvidenceItem {
    pub index: usize,
    pub snippet: String,
}

/// A labelled group of evidence.
#[derive(Debug, Clone)]
pub struct EvidenceGroup {
    pub label: String,
    pub items: Vec<EvidenceItem>,
}

/// A topic that recurs across items.
#[derive(Debug, Clone)]
pub struct RecurringThread {
    pub title: String,
    pub summary: String,
    pub evidence: Vec<EvidenceItem>,
}

/// A hidden connection between two groups of items.
#[derive(Debug, Clone)]
pub struct UnexpectedConnection {
    pub title: String,
    pub insight: String,
    pub group_a: EvidenceGroup,
    pub group_b: EvidenceGroup,
}

/// An interest that appeared recently.
#[derive(Debug, Clone)]
pub struct NewObsession {
    pub title: String,
    pub first_seen: String,
    pub intensity: String,
    pub evidence: Vec<EvidenceItem>,
}

/// The three kinds of pattern found in the user's items.
#[derive(Debug, Clone)]
pub struct AttentionAnalysis {
    pub recurring_threads: Vec<RecurringThread>,
    pub unexpected_connections: Vec<UnexpectedConnection>,
    pub new_obsessions: Vec<NewObsession>,
}

// ---------------------------------------------------------------------
// Mathematical model of the data types
// ---------------------------------------------------------------------

pub struct EvidenceView {
    pub index: usize,
    pub snippet: Seq<char>,
}

pub struct GroupView {
    pub label: Seq<char>,
    pub items: Seq<EvidenceView>,
}

pub struct ThreadView {
    pub title: Seq<char>,
    pub summary: Seq<char>,
    pub evidence: Seq<EvidenceView>,
}

pub struct ConnectionView {
    pub title: Seq<char>,
    pub insight: Seq<char>,
    pub group_a: GroupView,
    pub group_b: GroupView,
}

pub struct ObsessionView {
    pub title: Seq<char>,
    pub first_seen: Seq<char>,
    pub intensity: Seq<char>,
    pub evidence: Seq<EvidenceView>,
}

pub struct AnalysisView {
    pub recurring_threads: Seq<ThreadView>,
    pub unexpected_connections: Seq<ConnectionView>,
    pub new_obsessions: Seq<ObsessionView>,
}

pub open spec fn evidence_views(v: Seq<EvidenceItem>) -> Seq<EvidenceView> {
    v.map_values(|e: EvidenceItem| e@)
}

impl View for EvidenceItem {
    type V = EvidenceView;

    open spec fn view(&self) -> EvidenceView {
        EvidenceView { index: self.index, snippet: self.snippet@ }
    }
}

impl View for EvidenceGroup {
    type V = GroupView;

    open spec fn view(&self) -> GroupView {
        GroupView { label: self.label@, items: evidence_views(self.items@) }
    }
}

impl View for RecurringThread {
    type V = ThreadView;

    open spec fn view(&self) -> ThreadView {
        ThreadView {
            title: self.title@,
            summary: self.summary@,
            evidence: evidence_views(self.evidence@),
        }
    }
}

impl View for UnexpectedConnection {
    type V = ConnectionView;

    open spec fn view(&self) -> ConnectionView {
        ConnectionView {
            title: self.title@,
            insight: self.insight@,
            group_a: self.group_a@,
            group_b: self.group_b@,
        }
    }
}

impl View for NewObsession {
    type V = ObsessionView;

    open spec fn view(&self) -> ObsessionView {
        ObsessionView {
            title: self.title@,
            first_seen: self.first_seen@,
            intensity: self.intensity@,
            evidence: evidence_views(self.evidence@),
        }
    }
}

impl View for AttentionAnalysis {
    type V = AnalysisView;

    open spec fn view(&self) -> AnalysisView {
        AnalysisView {
            recurring_threads: self.recurring_threads@.map_values(|t: RecurringThread| t@),
            unexpected_connections: self.unexpected_connections@.map_values(
                |c: UnexpectedConnection| c@,
            ),
            new_obsessions: self.new_obsessions@.map_values(|o: NewObsession| o@),
        }
    }
}

// ---------------------------------------------------------------------
// Prompt
// ---------------------------------------------------------------------

/// The instructions given to the model for attention analysis.
pub const ATTENTION_SYSTEM_PROMPT: &'static str = r#"你是一个注意力分析助手。你的任务是分析用户最近收集的内容，找出三种模式：

1. **recurring_threads**（反复出现的主题）：至少有3条内容涉及同一个话题。找出用户持续关注的主题。
2. **unexpected_connections**（意想不到的联系）：找出两组看似无关但实际上有隐藏联系的内容。
3. **new_obsessions**（新的兴趣点）：最近3-5天内出现的新兴趣，之前没有出现过的主题。

重要规则：
- 使用内容的**序号**（从0开始的index）来引用内容，不要使用内容ID。
- 每个evidence item必须包含index（序号）和snippet（内容摘要）。
- unexpected_connections的group_a和group_b各自包含label和items。
- 如果某个类别没有发现模式，返回空数组。

请严格按以下JSON格式返回，不要包含其他内容：
{
  "recurring_threads": [
    {
      "title": "主题标题",
      "summary": "主题总结",
      "evidence": [
        {"index": 0, "snippet": "内容摘要"}
      ]
    }
  ],
  "unexpected_connections": [
    {
      "title": "联系标题",
      "insight": "联系洞察",
      "group_a": {
        "label": "分组A标签",
        "items": [{"index": 0, "snippet": "内容摘要"}]
      },
      "group_b": {
        "label": "分组B标签",
        "items": [{"index": 1, "snippet": "内容摘要"}]
      }
    }
  ],
  "new_obsessions": [
    {
      "title": "新兴趣标题",
      "first_seen": "2024-01-01",
      "intensity": "高/中/低",
      "evidence": [
        {"index": 0, "snippet": "内容摘要"}
      ]
    }
  ]
}"#;

/// How many characters of each item's text go into the prompt, by item count.
pub open spec fn max_chars_for(count: nat) -> nat {
    if count <= 20 {
        1000
    } else if count <= 50 {
        600
    } else if count <= 100 {
        400
    } else {
        300
    }
}

/// `s` cut to its first `max_chars` characters, marked with `...` when cut.
pub open spec fn truncated(s: Seq<char>, max_chars: nat) -> Seq<char> {
    if s.len() <= max_chars {
        s
    } else {
        s.take(max_chars as int) + "..."@
    }
}

/// One item of the prompt: `[i] (id=…, 时间=… | 来源: …) text`.
pub open spec fn item_line(
    i: nat,
    item: (String, Option<String>, Option<String>, String),
    max_chars: nat,
) -> Seq<char> {
    let text = match item.1 {
        Some(t) => t@,
        None => "[无文本]"@,
    };
    let url_part = match item.2 {
        Some(u) => " | 来源: "@ + u@,
        None => Seq::<char>::empty(),
    };
    "["@ + decimal(i) + "] (id="@ + item.0@ + ", 时间="@ + item.3@ + url_part + ") "@ + truncated(
        text,
        max_chars,
    )
}

/// The lines of the prompt, one per item.
pub open spec fn item_lines(items: Seq<(String, Option<String>, Option<String>, String)>) -> Seq<
    Seq<char>,
> {
    Seq::new(items.len(), |i: int| item_line(i as nat, items[i], max_chars_for(items.len())))
}

/// The user message of the attention analysis prompt.
pub open spec fn attention_user_message(
    items: Seq<(String, Option<String>, Option<String>, String)>,
) -> Seq<char> {
    "以下是用户最近收集的"@ + decimal(items.len()) + "条内容，请分析其中的注意力模式：\n\n"@ + join(
        item_lines(items),
        "\n\n"@,
    )
}

/// Cuts `s` to its first `max_chars` characters, appending `...` when it was longer.
pub fn truncate_str(s: &str, max_chars: usize) -> (r: String)
    ensures
        r@ == truncated(s@, max_chars as nat),
{
    let cs = chars_of(s);
    if cs.len() <= max_chars {
        String::from_str(s)
    } else {
        let mut v = copy_range(cs.as_slice(), 0, max_chars);
        push_str(&mut v, "...");
        string_from_chars(v.as_slice())
    }
}

/// Builds the system prompt and the user message for items given as
/// `(id, raw_text, source_url, captured_at)`.
pub fn build_prompt(items: &[(String, Option<String>, Option<String>, String)]) -> (r: (
    String,
    String,
))
    ensures
        r.0@ == ATTENTION_SYSTEM_PROMPT@,
        r.1@ == attention_user_message(items@),
{
    let count = items.len();
    let max_chars: usize = if count <= 20 {
        1000
    } else if count <= 50 {
        600
    } else if count <= 100 {
        400
    } else {
        300
    };
    let system_prompt = String::from_str(ATTENTION_SYSTEM_PROMPT);
    let mut lines: Vec<Vec<char>> = Vec::new();
    let mut i: usize = 0;
    while i < count
        invariant
            i <= count,
            count == items@.len(),
            max_chars == max_chars_for(count as nat),
            views(lines@) == item_lines(items@).take(i as int),
        decreases count - i,
    {
        let item = &items[i];
        let mut line: Vec<char> = Vec::new();
        push_str(&mut line, "[");
        push_decimal(&mut line, i as u64);
        push_str(&mut line, "] (id=");
        push_str(&mut line, item.0.as_str());
        push_str(&mut line, ", 时间=");
        push_str(&mut line, item.3.as_str());
        match &item.2 {
            Some(u) => {
                push_str(&mut line, " | 来源: ");
                push_str(&mut line, u.as_str());
            },
            None => {},
        }
        push_str(&mut line, ") ");
        let truncated_text = match &item.1 {
            Some(t) => truncate_str(t.as_str(), max_chars),
            None => truncate_str("[无文本]", max_chars),
        };
        push_str(&mut line, truncated_text.as_str());
        proof {
            assert(item == items@[i as int]);
            assert(line@ =~= item_line(i as nat, items@[i as int], max_chars as nat));
        }
        let ghost before = views(lines@);
        lines.push(line);
        proof {
            assert(views(lines@) =~= before.push(item_line(i as nat, items@[i as int], max_chars as nat)));
            assert(item_lines(items@).take(i + 1) =~= item_lines(items@).take(i as int).push(
                item_lines(items@)[i as int],
            ));
        }
        i += 1;
    }
    assert(item_lines(items@).take(count as int) =~= item_lines(items@));
    let mut msg: Vec<char> = Vec::new();
    push_str(&mut msg, "以下是用户最近收集的");
    push_decimal(&mut msg, count as u64);
    push_str(&mut msg, "条内容，请分析其中的注意力模式：\n\n");
    let sep = chars_of("\n\n");
    let body = join_exec(&lines, sep.as_slice());
    push_all(&mut msg, body.as_slice());
    assert(msg@ =~= attention_user_message(items@));
    (system_prompt, string_from_chars(msg.as_slice()))
}

// ---------------------------------------------------------------------
// Recovering the JSON answer
// ---------------------------------------------------------------------

/// The text between the first occurrence of `open` in `t` and the next
/// `"```"` after it, trimmed; `skip` is the length of `open`.
pub open spec fn fenced_block(t: Seq<char>, open: Seq<char>, skip: int) -> Option<Seq<char>> {
    match find(t, open) {
        Some(start) => {
            let after = t.skip(start + skip);
            match find(after, "```"@) {
                Some(end) => Some(trim(after.take(end))),
                None => None,
            }
        },
        None => None,
    }
}

/// The JSON text inside a reply: the content of the first fenced block marked
/// `json`, else of the first fenced block, else the whole reply trimmed.
pub open spec fn extracted_json(s: Seq<char>) -> Seq<char> {
    let t = trim(s);
    match fenced_block(t, "```json"@, 7) {
        Some(b) => b,
        None => match fenced_block(t, "```"@, 3) {
            Some(b) => b,
            None => t,
        },
    }
}

/// The block of `t` opened by the literal `open` (of `skip` characters).
fn fenced_block_exec(t: &[char], open: &str, skip: usize) -> (r: Option<Vec<char>>)
    requires
        skip == open@.len(),
    ensures
        r matches Some(v) ==> fenced_block(t@, open@, skip as int) == Some(v@),
        r is None ==> fenced_block(t@, open@, skip as int) is None,
{
    match find_str(t, open) {
        Some(start) => {
            let tl = t.len();
            proof {
                crate::text::lemma_find_from_props(t@, 0, open@);
                assert(crate::text::matches_at(t@, start as int, open@));
                assert(start + skip <= tl);
            }
            let from: usize = start + skip;
            let after = copy_range(t, from, t.len());
            assert(after@ =~= t@.skip(from as int));
            match find_str(after.as_slice(), "```") {
                Some(end) => {
                    proof {
                        crate::text::lemma_find_from_props(after@, 0, "```"@);
                    }
                    let inner = copy_range(after.as_slice(), 0, end);
                    assert(inner@ =~= after@.take(end as int));
                    Some(trim_exec(inner.as_slice()))
                },
                None => None,
            }
        },
        None => None,
    }
}

/// `s` holds no code fence (three backticks).
pub open spec fn has_no_fence(s: Seq<char>) -> bool {
    forall|j: int| !crate::text::matches_at(s, j, "```"@)
}

proof fn lemma_no_fence_subrange(s: Seq<char>, a: int, b: int)
    requires
        has_no_fence(s),
        0 <= a <= b <= s.len(),
    ensures
        has_no_fence(s.subrange(a, b)),
{
    reveal_strlit("```");
    let sub = s.subrange(a, b);
    assert forall|j: int| !crate::text::matches_at(sub, j, "```"@) by {
        if crate::text::matches_at(sub, j, "```"@) {
            assert(sub.subrange(j, j + 3) =~= s.subrange(a + j, a + j + 3));
            assert(crate::text::matches_at(s, a + j, "```"@));
        }
    }
}

proof fn lemma_no_fence_no_block(t: Seq<char>, open: Seq<char>, skip: int)
    requires
        has_no_fence(t),
        open == "```"@ || open == "```json"@,
    ensures
        fenced_block(t, open, skip) is None,
{
    reveal_strlit("```");
    reveal_strlit("```json");
    crate::text::lemma_find_from_props(t, 0, open);
    if let Some(k) = find(t, open) {
        assert(open.subrange(0, 3) =~= "```"@);
        assert(t.subrange(k, k + 3) =~= t.subrange(k, k + open.len()).subrange(0, 3));
        assert(crate::text::matches_at(t, k, "```"@));
    }
}

proof fn lemma_fenced_block_shape(t: Seq<char>, open: Seq<char>, skip: int)
    ensures
        fenced_block(t, open, skip) matches Some(b) ==> has_no_fence(b) && trim(b) == b,
{
    reveal_strlit("```");
    if let Some(start) = find(t, open) {
        let after = t.skip(start + skip);
        crate::text::lemma_find_from_props(after, 0, "```"@);
        if let Some(end) = find(after, "```"@) {
            let inner = after.take(end);
            assert forall|j: int| !crate::text::matches_at(inner, j, "```"@) by {
                if crate::text::matches_at(inner, j, "```"@) {
                    assert(inner.subrange(j, j + 3) =~= after.subrange(j, j + 3));
                    assert(crate::text::matches_at(after, j, "```"@));
                }
            }
            let ab = crate::text::lemma_trim_shape(inner);
            lemma_no_fence_subrange(inner, ab.0, ab.1);
        }
    }
}

/// Extracting the JSON from text that was already extracted changes nothing.
pub proof fn lemma_extract_json_idempotent(s: Seq<char>)
    ensures
        extracted_json(extracted_json(s)) == extracted_json(s),
{
    let t = trim(s);
    crate::text::lemma_trim_shape(s);
    lemma_fenced_block_shape(t, "```json"@, 7);
    lemma_fenced_block_shape(t, "```"@, 3);
    let out = extracted_json(s);
    if fenced_block(t, "```json"@, 7) is Some || fenced_block(t, "```"@, 3) is Some {
        lemma_no_fence_no_block(out, "```json"@, 7);
        lemma_no_fence_no_block(out, "```"@, 3);
    }
}

/// Extracts the JSON text from a model reply that may wrap it in a fenced code block.
pub fn extract_json(s: &str) -> (r: String)
    ensures
        r@ == extracted_json(s@),
{
    let cs = chars_of(s);
    let t = trim_exec(cs.as_slice());
    proof {
        reveal_strlit("```json");
        reveal_strlit("```");
    }
    match fenced_block_exec(t.as_slice(), "```json", 7) {
        Some(b) => string_from_chars(b.as_slice()),
        None => match fenced_block_exec(t.as_slice(), "```", 3) {
            Some(b) => string_from_chars(b.as_slice()),
            None => string_from_chars(t.as_slice()),
        },
    }
}

// ---------------------------------------------------------------------
// Pruning evidence
// ---------------------------------------------------------------------

/// The evidence that points at one of the first `n` items.
/// The evidence that points at one of the first `n` items.
pub open spec fn points_below(n: nat) -> spec_fn(EvidenceView) -> bool {
    |e: EvidenceView| (e.index as nat) < n
}

pub open spec fn kept_evidence(items: Seq<EvidenceView>, n: nat) -> Seq<EvidenceView> {
    items.filter(points_below(n))
}

pub open spec fn pruned_group(g: GroupView, n: nat) -> GroupView {
    GroupView { label: g.label, items: kept_evidence(g.items, n) }
}

pub open spec fn pruned_thread(t: ThreadView, n: nat) -> ThreadView {
    ThreadView { title: t.title, summary: t.summary, evidence: kept_evidence(t.evidence, n) }
}

pub open spec fn pruned_connection(c: ConnectionView, n: nat) -> ConnectionView {
    ConnectionView {
        title: c.title,
        insight: c.insight,
        group_a: pruned_group(c.group_a, n),
        group_b: pruned_group(c.group_b, n),
    }
}

pub open spec fn pruned_obsession(o: ObsessionView, n: nat) -> ObsessionView {
    ObsessionView {
        title: o.title,
        first_seen: o.first_seen,
        intensity: o.intensity,
        evidence: kept_evidence(o.evidence, n),
    }
}

pub open spec fn thread_has_evidence(t: ThreadView) -> bool {
    t.evidence.len() > 0
}

pub open spec fn connection_has_evidence(c: ConnectionView) -> bool {
    c.group_a.items.len() > 0 || c.group_b.items.len() > 0
}

pub open spec fn obsession_has_evidence(o: ObsessionView) -> bool {
    o.evidence.len() > 0
}

/// The analysis with evidence outside the first `n` items dropped, and then
/// the threads, connections and obsessions left without evidence dropped.
pub open spec fn pruned_analysis(a: AnalysisView, n: nat) -> AnalysisView {
    AnalysisView {
        recurring_threads: a.recurring_threads.map_values(|t: ThreadView| pruned_thread(t, n)).filter(
            |t: ThreadView| thread_has_evidence(t),
        ),
        unexpected_connections: a.unexpected_connections.map_values(
            |c: ConnectionView| pruned_connection(c, n),
        ).filter(|c: ConnectionView| connection_has_evidence(c)),
        new_obsessions: a.new_obsessions.map_values(|o: ObsessionView| pruned_obsession(o, n)).filter(
            |o: ObsessionView| obsession_has_evidence(o),
        ),
    }
}

fn copy_string(s: &String) -> (r: String)
    ensures
        r@ == s@,
{
    s.clone()
}

/// The evidence items whose index is below `n`, in order.
fn keep_evidence(items: &Vec<EvidenceItem>, n: usize) -> (r: Vec<EvidenceItem>)
    ensures
        evidence_views(r@) == kept_evidence(evidence_views(items@), n as nat),
{
    let mut r: Vec<EvidenceItem> = Vec::new();
    let mut i: usize = 0;
    assert(evidence_views(items@).take(0) =~= Seq::<EvidenceView>::empty());
    while i < items.len()
        invariant
            i <= items.len(),
            evidence_views(r@) == kept_evidence(evidence_views(items@).take(i as int), n as nat),
        decreases items.len() - i,
    {
        let ghost before = evidence_views(r@);
        proof {
            let pred = |e: EvidenceView| (e.index as nat) < n as nat;
            assert(evidence_views(items@).take(i + 1) =~= evidence_views(items@).take(i as int).push(
                items@[i as int]@,
            ));
            evidence_views(items@).take(i as int).lemma_filter_push(items@[i as int]@, pred);
        }
        if items[i].index < n {
            let e = EvidenceItem { index: items[i].index, snippet: copy_string(&items[i].snippet) };
            r.push(e);
            assert(evidence_views(r@) =~= before.push(items@[i as int]@));
        }
        i += 1;
    }
    assert(evidence_views(items@).take(i as int) =~= evidence_views(items@));
    r
}

fn prune_threads(ts: &Vec<RecurringThread>, n: usize) -> (r: Vec<RecurringThread>)
    ensures
        r@.map_values(|t: RecurringThread| t@) == ts@.map_values(|t: RecurringThread| t@).map_values(
            |t: ThreadView| pruned_thread(t, n as nat),
        ).filter(|t: ThreadView| thread_has_evidence(t)),
{
    let ghost m = ts@.map_values(|t: RecurringThread| t@).map_values(
        |t: ThreadView| pruned_thread(t, n as nat),
    );
    let mut r: Vec<RecurringThread> = Vec::new();
    let mut i: usize = 0;
    assert(m.take(0) =~= Seq::<ThreadView>::empty());
    while i < ts.len()
        invariant
            i <= ts.len(),
            m == ts@.map_values(|t: RecurringThread| t@).map_values(
                |t: ThreadView| pruned_thread(t, n as nat),
            ),
            r@.map_values(|t: RecurringThread| t@) == m.take(i as int).filter(
                |t: ThreadView| thread_has_evidence(t),
            ),
        decreases ts.len() - i,
    {
        let ghost before = r@.map_values(|t: RecurringThread| t@);
        proof {
            assert(m.take(i + 1) =~= m.take(i as int).push(m[i as int]));
            m.take(i as int).lemma_filter_push(m[i as int], |t: ThreadView| thread_has_evidence(t));
        }
        let t = &ts[i];
        let evidence = keep_evidence(&t.evidence, n);
        if evidence.len() > 0 {
            let nt = RecurringThread {
                title: copy_string(&t.title),
                summary: copy_string(&t.summary),
                evidence,
            };
            r.push(nt);
            assert(r@.map_values(|t: RecurringThread| t@) =~= before.push(m[i as int]));
        }
        i += 1;
    }
    assert(m.take(i as int) =~= m);
    r
}

fn prune_group(g: &EvidenceGroup, n: usize) -> (r: EvidenceGroup)
    ensures
        r@ == pruned_group(g@, n as nat),
{
    EvidenceGroup { label: copy_string(&g.label), items: keep_evidence(&g.items, n) }
}

fn prune_connections(cs: &Vec<UnexpectedConnection>, n: usize) -> (r: Vec<UnexpectedConnection>)
    ensures
        r@.map_values(|c: UnexpectedConnection| c@) == cs@.map_values(
            |c: UnexpectedConnection| c@,
        ).map_values(|c: ConnectionView| pruned_connection(c, n as nat)).filter(
            |c: ConnectionView| connection_has_evidence(c),
        ),
{
    let ghost m = cs@.map_values(|c: UnexpectedConnection| c@).map_values(
        |c: ConnectionView| pruned_connection(c, n as nat),
    );
    let mut r: Vec<UnexpectedConnection> = Vec::new();
    let mut i: usize = 0;
    assert(m.take(0) =~= Seq::<ConnectionView>::empty());
    while i < cs.len()
        invariant
            i <= cs.len(),
            m == cs@.map_values(|c: UnexpectedConnection| c@).map_values(
                |c: ConnectionView| pruned_connection(c, n as nat),
            ),
            r@.map_values(|c: UnexpectedConnection| c@) == m.take(i as int).filter(
                |c: ConnectionView| connection_has_evidence(c),
            ),
        decreases cs.len() - i,
    {
        let ghost before = r@.map_values(|c: UnexpectedConnection| c@);
        proof {
            assert(m.take(i + 1) =~= m.take(i as int).push(m[i as int]));
            m.take(i as int).lemma_filter_push(
                m[i as int],
                |c: ConnectionView| connection_has_evidence(c),
            );
        }
        let c = &cs[i];
        let group_a = prune_group(&c.group_a, n);
        let group_b = prune_group(&c.group_b, n);
        if group_a.items.len() > 0 || group_b.items.len() > 0 {
            let nc = UnexpectedConnection {
                title: copy_string(&c.title),
                insight: copy_string(&c.insight),
                group_a,
                group_b,
            };
            r.push(nc);
            assert(r@.map_values(|c: UnexpectedConnection| c@) =~= before.push(m[i as int]));
        }
        i += 1;
    }
    assert(m.take(i as int) =~= m);
    r
}

fn prune_obsessions(os: &Vec<NewObsession>, n: usize) -> (r: Vec<NewObsession>)
    ensures
        r@.map_values(|o: NewObsession| o@) == os@.map_values(|o: NewObsession| o@).map_values(
            |o: ObsessionView| pruned_obsession(o, n as nat),
        ).filter(|o: ObsessionView| obsession_has_evidence(o)),
{
    let ghost m = os@.map_values(|o: NewObsession| o@).map_values(
        |o: ObsessionView| pruned_obsession(o, n as nat),
    );
    let mut r: Vec<NewObsession> = Vec::new();
    let mut i: usize = 0;
    assert(m.take(0) =~= Seq::<ObsessionView>::empty());
    while i < os.len()
        invariant
            i <= os.len(),
            m == os@.map_values(|o: NewObsession| o@).map_values(
                |o: ObsessionView| pruned_obsession(o, n as nat),
            ),
            r@.map_values(|o: NewObsession| o@) == m.take(i as int).filter(
                |o: ObsessionView| obsession_has_evidence(o),
            ),
        decreases os.len() - i,
    {
        let ghost before = r@.map_values(|o: NewObsession| o@);
        proof {
            assert(m.take(i + 1) =~= m.take(i as int).push(m[i as int]));
            m.take(i as int).lemma_filter_push(m[i as int], |o: ObsessionView| obsession_has_evidence(o));
        }
        let o = &os[i];
        let evidence = keep_evidence(&o.evidence, n);
        if evidence.len() > 0 {
            let no = NewObsession {
                title: copy_string(&o.title),
                first_seen: copy_string(&o.first_seen),
                intensity: copy_string(&o.intensity),
                evidence,
            };
            r.push(no);
            assert(r@.map_values(|o: NewObsession| o@) =~= before.push(m[i as int]));
        }
        i += 1;
    }
    assert(m.take(i as int) =~= m);
    r
}

/// Drops evidence items whose index is not below `item_count`, then drops the
/// threads and obsessions left without evidence and the connections left
/// without evidence in both groups.
pub fn prune_analysis(analysis: &AttentionAnalysis, item_count: usize) -> (r: AttentionAnalysis)
    ensures
        r@ == pruned_analysis(analysis@, item_count as nat),
{
    let r = AttentionAnalysis {
        recurring_threads: prune_threads(&analysis.recurring_threads, item_count),
        unexpected_connections: prune_connections(&analysis.unexpected_connections, item_count),
        new_obsessions: prune_obsessions(&analysis.new_obsessions, item_count),
    };
    proof {
        assert(analysis@.recurring_threads =~= analysis.recurring_threads@.map_values(
            |t: RecurringThread| t@,
        ));
    }
    r
}

/// The outcome of attention analysis given the result of parsing the model's
/// JSON: a parse failure is reported as `JSON 解析失败: …`, a parsed analysis
/// is pruned to the `item_count` items that were analysed.
pub fn validate_parsed_analysis(
    parsed: Result<AttentionAnalysis, String>,
    item_count: usize,
) -> (r: Result<AttentionAnalysis, String>)
    ensures
        parsed is Err <==> r is Err,
        parsed matches Err(e) ==> r matches Err(m) && m@ == "JSON 解析失败: "@ + e@,
        parsed matches Ok(a) ==> r matches Ok(b) && b@ == pruned_analysis(a@, item_count as nat),
{
    match parsed {
        Ok(a) => Ok(prune_analysis(&a, item_count)),
        Err(e) => {
            let mut m = String::from_str("JSON 解析失败: ");
            m.append(e.as_str());
            Err(m)
        },
    }
}

// ---------------------------------------------------------------------
// Providers
// ---------------------------------------------------------------------

/// The model providers that attention analysis can call directly.
#[derive(Debug, Clone, Copy, PartialEq, Eq)]
pub enum AnalysisProvider {
    Anthropic,
    OpenAi,
    OpenRouter,
}

/// The provider named by an already lowercased name.
pub open spec fn provider_for_lowercase(lower: Seq<char>) -> AnalysisProvider {
    if lower == "openai"@ {
        AnalysisProvider::OpenAi
    } else if lower == "openrouter"@ {
        AnalysisProvider::OpenRouter
    } else {
        AnalysisProvider::Anthropic
    }
}

impl AnalysisProvider {
    /// The provider named by `s`, compared without case; any other name
    /// means Anthropic.
    pub fn from_str(s: &str) -> (r: Self)
        ensures
            r == provider_for_lowercase(lowercase(s@)),
    {
        let lower = lowercase_string(s);
        Self::from_lowercase(lower.as_str())
    }

    /// The provider named by the lowercased name `lower`.
    pub fn from_lowercase(lower: &str) -> (r: Self)
        ensures
            r == provider_for_lowercase(lower@),
    {
        if str_equal(lower, "openai") {
            AnalysisProvider::OpenAi
        } else if str_equal(lower, "openrouter") {
            AnalysisProvider::OpenRouter
        } else {
            AnalysisProvider::Anthropic
        }
    }
}

// ---------------------------------------------------------------------
// Calling the provider
// ---------------------------------------------------------------------

/// One chat message of a request.
#[derive(Debug)]
pub struct ApiMessage {
    pub role: String,
    pub content: String,
}

/// What attention analysis sends to a provider: the endpoint, the headers,
/// and the fields of the JSON body.  `system` is the top-level system field
/// (Anthropic); `json_object_response` asks for a JSON object reply at the
/// sampling temperature the caller fixes (OpenAI-compatible providers).
#[derive(Debug)]
pub struct AnalysisRequest {
    pub url: String,
    pub headers: Vec<(String, String)>,
    pub model: String,
    pub system: Option<String>,
    pub messages: Vec<ApiMessage>,
    pub max_tokens: u32,
    pub json_object_response: bool,
}

pub open spec fn pair_views(h: Seq<(String, String)>) -> Seq<(Seq<char>, Seq<char>)> {
    h.map_values(|p: (String, String)| (p.0@, p.1@))
}

pub open spec fn message_views(m: Seq<ApiMessage>) -> Seq<(Seq<char>, Seq<char>)> {
    m.map_values(|x: ApiMessage| (x.role@, x.content@))
}

/// The endpoint of each provider.
pub open spec fn analysis_url(p: AnalysisProvider) -> Seq<char> {
    match p {
        AnalysisProvider::Anthropic => "https://api.anthropic.com/v1/messages"@,
        AnalysisProvider::OpenAi => "https://api.openai.com/v1/chat/completions"@,
        AnalysisProvider::OpenRouter => "https://openrouter.ai/api/v1/chat/completions"@,
    }
}

/// The headers sent to each provider with the key `key`.
pub open spec fn analysis_headers(p: AnalysisProvider, key: Seq<char>) -> Seq<
    (Seq<char>, Seq<char>),
> {
    match p {
        AnalysisProvider::Anthropic => seq![
            ("x-api-key"@, key),
            ("anthropic-version"@, "2023-06-01"@),
            ("content-type"@, "application/json"@),
        ],
        AnalysisProvider::OpenAi => seq![
            ("Authorization"@, "Bearer "@ + key),
            ("Content-Type"@, "application/json"@),
        ],
        AnalysisProvider::OpenRouter => seq![
            ("Authorization"@, "Bearer "@ + key),
            ("Content-Type"@, "application/json"@),
            ("HTTP-Referer"@, "https://xiaoyun.app"@),
            ("X-Title"@, "Xiaoyun"@),
        ],
    }
}

fn push_header(h: &mut Vec<(String, String)>, name: &str, value: String)
    ensures
        pair_views(final(h)@) == pair_views(old(h)@).push((name@, value@)),
{
    let ghost before = pair_views(h@);
    h.push((String::from_str(name), value));
    assert(pair_views(h@) =~= before.push((name@, value@)));
}

fn api_message(role: &str, content: &str) -> (m: ApiMessage)
    ensures
        m.role@ == role@,
        m.content@ == content@,
{
    ApiMessage { role: String::from_str(role), content: String::from_str(content) }
}

/// The request for attention analysis with `provider`: Anthropic gets the
/// system prompt as a top-level field and one user message; the
/// OpenAI-compatible providers get a system and a user message and are asked
/// for a JSON object.  Every request allows 4096 tokens.
pub fn analysis_request(
    provider: &AnalysisProvider,
    api_key: &str,
    model: &str,
    system_prompt: &str,
    user_message: &str,
) -> (r: AnalysisRequest)
    ensures
        r.url@ == analysis_url(*provider),
        pair_views(r.headers@) == analysis_headers(*provider, api_key@),
        r.model@ == model@,
        r.max_tokens == 4096,
        *provider == AnalysisProvider::Anthropic ==> {
            &&& r.system matches Some(s) && s@ == system_prompt@
            &&& message_views(r.messages@) == seq![("user"@, user_message@)]
            &&& !r.json_object_response
        },
        *provider != AnalysisProvider::Anthropic ==> {
            &&& r.system is None
            &&& message_views(r.messages@) == seq![
                ("system"@, system_prompt@),
                ("user"@, user_message@),
            ]
            &&& r.json_object_response
        },
{
    let mut headers: Vec<(String, String)> = Vec::new();
    let mut messages: Vec<ApiMessage> = Vec::new();
    assert(pair_views(headers@) =~= Seq::<(Seq<char>, Seq<char>)>::empty());
    match provider {
        AnalysisProvider::Anthropic => {
            push_header(&mut headers, "x-api-key", String::from_str(api_key));
            push_header(&mut headers, "anthropic-version", String::from_str("2023-06-01"));
            push_header(&mut headers, "content-type", String::from_str("application/json"));
            messages.push(api_message("user", user_message));
            assert(message_views(messages@) =~= seq![("user"@, user_message@)]);
            assert(pair_views(headers@) =~= analysis_headers(*provider, api_key@));
            AnalysisRequest {
                url: String::from_str("https://api.anthropic.com/v1/messages"),
                headers,
                model: String::from_str(model),
                system: Some(String::from_str(system_prompt)),
                messages,
                max_tokens: 4096,
                json_object_response: false,
            }
        },
        AnalysisProvider::OpenAi | AnalysisProvider::OpenRouter => {
            let mut auth = String::from_str("Bearer ");
            auth.append(api_key);
            push_header(&mut headers, "Authorization", auth);
            push_header(&mut headers, "Content-Type", String::from_str("application/json"));
            let url = match provider {
                AnalysisProvider::OpenRouter => {
                    push_header(&mut headers, "HTTP-Referer", String::from_str("https://xiaoyun.app"));
                    push_header(&mut headers, "X-Title", String::from_str("Xiaoyun"));
                    String::from_str("https://openrouter.ai/api/v1/chat/completions")
                },
                _ => String::from_str("https://api.openai.com/v1/chat/completions"),
            };
            messages.push(api_message("system", system_prompt));
            messages.push(api_message("user", user_message));
            assert(message_views(messages@) =~= seq![
                ("system"@, system_prompt@),
                ("user"@, user_message@),
            ]);
            assert(pair_views(headers@) =~= analysis_headers(*provider, api_key@));
            AnalysisRequest {
                url,
                headers,
                model: String::from_str(model),
                system: None,
                messages,
                max_tokens: 4096,
                json_object_response: true,
            }
        },
    }
}

/// Where a call to a provider failed before a reply could be judged.
#[derive(Debug)]
pub enum AnalysisFailure {
    /// The HTTP client could not be built (the error text).
    ClientBuild(String),
    /// The request could not be sent (the error text).
    Send(String),
    /// The reply body could not be read (the error text).
    Read(String),
}

/// The message reported for a failed call.
pub open spec fn analysis_failure_text(p: AnalysisProvider, f: AnalysisFailure) -> Seq<char> {
    match f {
        AnalysisFailure::ClientBuild(e) => "HTTP client 创建失败: "@ + e@,
        AnalysisFailure::Send(e) => if p == AnalysisProvider::Anthropic {
            "Anthropic API 请求失败: "@ + e@
        } else {
            "API 请求失败: "@ + e@
        },
        AnalysisFailure::Read(e) => if p == AnalysisProvider::Anthropic {
            "读取 Anthropic 响应失败: "@ + e@
        } else {
            "读取 API 响应失败: "@ + e@
        },
    }
}

fn prefixed(prefix: &str, rest: &str) -> (r: String)
    ensures
        r@ == prefix@ + rest@,
{
    let mut r = String::from_str(prefix);
    r.append(rest);
    r
}

/// The message reported when a call to `provider` fails with `failure`.
pub fn analysis_failure_message(provider: &AnalysisProvider, failure: &AnalysisFailure) -> (r:
    String)
    ensures
        r@ == analysis_failure_text(*provider, *failure),
{
    let anthropic = match provider {
        AnalysisProvider::Anthropic => true,
        _ => false,
    };
    match failure {
        AnalysisFailure::ClientBuild(e) => prefixed("HTTP client 创建失败: ", e.as_str()),
        AnalysisFailure::Send(e) => if anthropic {
            prefixed("Anthropic API 请求失败: ", e.as_str())
        } else {
            prefixed("API 请求失败: ", e.as_str())
        },
        AnalysisFailure::Read(e) => if anthropic {
            prefixed("读取 Anthropic 响应失败: ", e.as_str())
        } else {
            prefixed("读取 API 响应失败: ", e.as_str())
        },
    }
}

/// The outcome of a reply from `provider` with HTTP status text `status` and
/// body `body`, given the result of parsing the body (the text of the first
/// content block or choice, if any).
pub open spec fn analysis_reply_spec(
    p: AnalysisProvider,
    success: bool,
    status: Seq<char>,
    body: Seq<char>,
    first_text: Result<Option<String>, String>,
) -> Result<Seq<char>, Seq<char>> {
    if !success {
        if p == AnalysisProvider::Anthropic {
            Err("Anthropic API 错误 ("@ + status + "): "@ + body)
        } else {
            Err("API 错误 ("@ + status + "): "@ + body)
        }
    } else {
        match first_text {
            Err(e) => if p == AnalysisProvider::Anthropic {
                Err("解析 Anthropic 响应失败: "@ + e@)
            } else {
                Err("解析 API 响应失败: "@ + e@)
            },
            Ok(Some(t)) => Ok(t@),
            Ok(None) => Ok(Seq::empty()),
        }
    }
}

/// Judges a provider's reply: an unsuccessful status is an error quoting the
/// status and the body; otherwise the parse failure, or the first text of the
/// reply (empty when the reply holds none).
pub fn analysis_reply(
    provider: &AnalysisProvider,
    status_success: bool,
    status: &str,
    body: &str,
    first_text: Result<Option<String>, String>,
) -> (r: Result<String, String>)
    ensures
        r is Ok <==> analysis_reply_spec(
            *provider,
            status_success,
            status@,
            body@,
            first_text,
        ) is Ok,
        r matches Ok(t) ==> analysis_reply_spec(
            *provider,
            status_success,
            status@,
            body@,
            first_text,
        ) == Ok::<Seq<char>, Seq<char>>(t@),
        r matches Err(e) ==> analysis_reply_spec(
            *provider,
            status_success,
            status@,
            body@,
            first_text,
        ) == Err::<Seq<char>, Seq<char>>(e@),
{
    let anthropic = match provider {
        AnalysisProvider::Anthropic => true,
        _ => false,
    };
    if !status_success {
        let mut m = if anthropic {
            String::from_str("Anthropic API 错误 (")
        } else {
            String::from_str("API 错误 (")
        };
        m.append(status);
        m.append("): ");
        m.append(body);
        return Err(m);
    }
    match first_text {
        Err(e) => if anthropic {
            Err(prefixed("解析 Anthropic 响应失败: ", e.as_str()))
        } else {
            Err(prefixed("解析 API 响应失败: ", e.as_str()))
        },
        Ok(Some(t)) => Ok(t),
        Ok(None) => Ok(String::new()),
    }
}

// ---------------------------------------------------------------------
// Laws of pruning
// ---------------------------------------------------------------------

pub proof fn lemma_kept_evidence_bounds(items: Seq<EvidenceView>, n: nat)
    ensures
        forall|j: int|
            0 <= j < kept_evidence(items, n).len() ==> (#[trigger] kept_evidence(items, n)[j].index
                as nat) < n,
        kept_evidence(kept_evidence(items, n), n) == kept_evidence(items, n),
{
    let pred = |e: EvidenceView| (e.index as nat) < n;
    lemma_filter_keeps(items, pred, |e: EvidenceView| true);
    assert forall|j: int| 0 <= j < kept_evidence(items, n).len() implies (
    #[trigger] kept_evidence(items, n)[j].index as nat) < n by {
        assert(pred(items.filter(pred)[j]));
    }
    lemma_filter_all(kept_evidence(items, n), pred);
}

/// After pruning with `n` items, every piece of evidence points at one of the
/// `n` items, every thread and obsession has evidence, and every connection
/// has evidence in at least one of its groups.
pub proof fn lemma_pruned_analysis_well_formed(a: AnalysisView, n: nat)
    ensures
        ({
            let p = pruned_analysis(a, n);
            &&& forall|i: int|
                0 <= i < p.recurring_threads.len() ==> thread_has_evidence(
                    #[trigger] p.recurring_threads[i],
                ) && forall|j: int|
                    0 <= j < p.recurring_threads[i].evidence.len() ==> (
                    #[trigger] p.recurring_threads[i].evidence[j].index as nat) < n
            &&& forall|i: int|
                0 <= i < p.unexpected_connections.len() ==> connection_has_evidence(
                    #[trigger] p.unexpected_connections[i],
                ) && (forall|j: int|
                    0 <= j < p.unexpected_connections[i].group_a.items.len() ==> (
                    #[trigger] p.unexpected_connections[i].group_a.items[j].index as nat) < n) && (
                forall|j: int|
                    0 <= j < p.unexpected_connections[i].group_b.items.len() ==> (
                    #[trigger] p.unexpected_connections[i].group_b.items[j].index as nat) < n)
            &&& forall|i: int|
                0 <= i < p.new_obsessions.len() ==> obsession_has_evidence(
                    #[trigger] p.new_obsessions[i],
                ) && forall|j: int|
                    0 <= j < p.new_obsessions[i].evidence.len() ==> (
                    #[trigger] p.new_obsessions[i].evidence[j].index as nat) < n
        }),
{
    let tm = a.recurring_threads.map_values(|t: ThreadView| pruned_thread(t, n));
    let tq = |t: ThreadView|
        forall|j: int| 0 <= j < t.evidence.len() ==> (#[trigger] t.evidence[j].index as nat) < n;
    assert forall|i: int| 0 <= i < tm.len() implies #[trigger] tq(tm[i]) by {
        lemma_kept_evidence_bounds(a.recurring_threads[i].evidence, n);
    }
    lemma_filter_keeps(tm, |t: ThreadView| thread_has_evidence(t), tq);

    let cm = a.unexpected_connections.map_values(|c: ConnectionView| pruned_connection(c, n));
    let cq = |c: ConnectionView|
        (forall|j: int|
            0 <= j < c.group_a.items.len() ==> (#[trigger] c.group_a.items[j].index as nat) < n)
            && (forall|j: int|
            0 <= j < c.group_b.items.len() ==> (#[trigger] c.group_b.items[j].index as nat) < n);
    assert forall|i: int| 0 <= i < cm.len() implies #[trigger] cq(cm[i]) by {
        lemma_kept_evidence_bounds(a.unexpected_connections[i].group_a.items, n);
        lemma_kept_evidence_bounds(a.unexpected_connections[i].group_b.items, n);
    }
    lemma_filter_keeps(cm, |c: ConnectionView| connection_has_evidence(c), cq);

    let om = a.new_obsessions.map_values(|o: ObsessionView| pruned_obsession(o, n));
    let oq = |o: ObsessionView|
        forall|j: int| 0 <= j < o.evidence.len() ==> (#[trigger] o.evidence[j].index as nat) < n;
    assert forall|i: int| 0 <= i < om.len() implies #[trigger] oq(om[i]) by {
        lemma_kept_evidence_bounds(a.new_obsessions[i].evidence, n);
    }
    lemma_filter_keeps(om, |o: ObsessionView| obsession_has_evidence(o), oq);
}

/// Pruning twice with the same item count gives the same result as pruning once.
pub proof fn lemma_prune_idempotent(a: AnalysisView, n: nat)
    ensures
        pruned_analysis(pruned_analysis(a, n), n) == pruned_analysis(a, n),
{
    let p = pruned_analysis(a, n);
    lemma_pruned_analysis_well_formed(a, n);

    let tm = a.recurring_threads.map_values(|t: ThreadView| pruned_thread(t, n));
    let tq = |t: ThreadView| pruned_thread(t, n) == t;
    assert forall|i: int| 0 <= i < tm.len() implies #[trigger] tq(tm[i]) by {
        lemma_kept_evidence_bounds(a.recurring_threads[i].evidence, n);
    }
    lemma_filter_keeps(tm, |t: ThreadView| thread_has_evidence(t), tq);
    assert(p.recurring_threads.map_values(|t: ThreadView| pruned_thread(t, n))
        =~= p.recurring_threads);
    lemma_filter_all(p.recurring_threads, |t: ThreadView| thread_has_evidence(t));

    let cm = a.unexpected_connections.map_values(|c: ConnectionView| pruned_connection(c, n));
    let cq = |c: ConnectionView| pruned_connection(c, n) == c;
    assert forall|i: int| 0 <= i < cm.len() implies #[trigger] cq(cm[i]) by {
        lemma_kept_evidence_bounds(a.unexpected_connections[i].group_a.items, n);
        lemma_kept_evidence_bounds(a.unexpected_connections[i].group_b.items, n);
    }
    lemma_filter_keeps(cm, |c: ConnectionView| connection_has_evidence(c), cq);
    assert(p.unexpected_connections.map_values(|c: ConnectionView| pruned_connection(c, n))
        =~= p.unexpected_connections);
    lemma_filter_all(p.unexpected_connections, |c: ConnectionView| connection_has_evidence(c));

    let om = a.new_obsessions.map_values(|o: ObsessionView| pruned_obsession(o, n));
    let oq = |o: ObsessionView| pruned_obsession(o, n) == o;
    assert forall|i: int| 0 <= i < om.len() implies #[trigger] oq(om[i]) by {
        lemma_kept_evidence_bounds(a.new_obsessions[i].evidence, n);
    }
    lemma_filter_keeps(om, |o: ObsessionView| obsession_has_evidence(o), oq);
    assert(p.new_obsessions.map_values(|o: ObsessionView| pruned_obsession(o, n))
        =~= p.new_obsessions);
    lemma_filter_all(p.new_obsessions, |o: ObsessionView| obsession_has_evidence(o));
}

/// Every piece of evidence points at one of the first `n` items.
pub open spec fn all_in_range(items: Seq<EvidenceView>, n: nat) -> bool {
    forall|j: int| 0 <= j < items.len() ==> (#[trigger] items[j].index as nat) < n
}

proof fn lemma_filter_in_range_unchanged(items: Seq<EvidenceView>, n: nat)
    requires
        all_in_range(items, n),
    ensures
        items.filter(points_below(n)) == items,
{
    let p = points_below(n);
    assert forall|j: int| 0 <= j < items.len() implies #[trigger] p(items[j]) by {}
    lemma_filter_all(items, p);
}

/// Pruning only drops: an analysis whose evidence all points at the `n`
/// analysed items, and whose every thread, connection and obsession has
/// evidence, comes back unchanged, every title, summary, insight, label,
/// first-seen date and intensity included.
pub proof fn lemma_prune_keeps_valid_analysis(a: AnalysisView, n: nat)
    requires
        forall|i: int|
            0 <= i < a.recurring_threads.len() ==> #[trigger] a.recurring_threads[i].evidence.len()
                > 0 && all_in_range(a.recurring_threads[i].evidence, n),
        forall|i: int|
            0 <= i < a.unexpected_connections.len() ==> (
            #[trigger] a.unexpected_connections[i].group_a.items.len() > 0
                || a.unexpected_connections[i].group_b.items.len() > 0) && all_in_range(
                a.unexpected_connections[i].group_a.items,
                n,
            ) && all_in_range(a.unexpected_connections[i].group_b.items, n),
        forall|i: int|
            0 <= i < a.new_obsessions.len() ==> #[trigger] a.new_obsessions[i].evidence.len() > 0
                && all_in_range(a.new_obsessions[i].evidence, n),
    ensures
        pruned_analysis(a, n) == a,
{
    let tm = a.recurring_threads.map_values(|t: ThreadView| pruned_thread(t, n));
    assert forall|i: int| 0 <= i < a.recurring_threads.len() implies tm[i]
        == a.recurring_threads[i] by {
        lemma_filter_in_range_unchanged(a.recurring_threads[i].evidence, n);
    }
    assert(tm =~= a.recurring_threads);
    lemma_filter_all(tm, |t: ThreadView| thread_has_evidence(t));
    let cm = a.unexpected_connections.map_values(|c: ConnectionView| pruned_connection(c, n));
    assert forall|i: int| 0 <= i < a.unexpected_connections.len() implies cm[i]
        == a.unexpected_connections[i] by {
        lemma_filter_in_range_unchanged(a.unexpected_connections[i].group_a.items, n);
        lemma_filter_in_range_unchanged(a.unexpected_connections[i].group_b.items, n);
    }
    assert(cm =~= a.unexpected_connections);
    lemma_filter_all(cm, |c: ConnectionView| connection_has_evidence(c));
    let om = a.new_obsessions.map_values(|o: ObsessionView| pruned_obsession(o, n));
    assert forall|i: int| 0 <= i < a.new_obsessions.len() implies om[i]
        == a.new_obsessions[i] by {
        lemma_filter_in_range_unchanged(a.new_obsessions[i].evidence, n);
    }
    assert(om =~= a.new_obsessions);
    lemma_filter_all(om, |o: ObsessionView| obsession_has_evidence(o));
}

/// The obsession `o` is the input obsession `i` of `a` with its evidence
/// filtered to the first `n` items.
pub open spec fn obsession_from(o: ObsessionView, a: AnalysisView, i: int, n: nat) -> bool {
    &&& 0 <= i < a.new_obsessions.len()
    &&& o.title == a.new_obsessions[i].title
    &&& o.first_seen == a.new_obsessions[i].first_seen
    &&& o.intensity == a.new_obsessions[i].intensity
    &&& o.evidence == a.new_obsessions[i].evidence.filter(points_below(n))
}

/// The thread `t` is the input thread `i` of `a` with its evidence filtered
/// to the first `n` items.
pub open spec fn thread_from(t: ThreadView, a: AnalysisView, i: int, n: nat) -> bool {
    &&& 0 <= i < a.recurring_threads.len()
    &&& t.title == a.recurring_threads[i].title
    &&& t.summary == a.recurring_threads[i].summary
    &&& t.evidence == a.recurring_threads[i].evidence.filter(points_below(n))
}

/// The connection `c` is the input connection `i` of `a` with the evidence
/// of both groups filtered to the first `n` items.
pub open spec fn connection_from(c: ConnectionView, a: AnalysisView, i: int, n: nat) -> bool {
    &&& 0 <= i < a.unexpected_connections.len()
    &&& c.title == a.unexpected_connections[i].title
    &&& c.insight == a.unexpected_connections[i].insight
    &&& c.group_a.label == a.unexpected_connections[i].group_a.label
    &&& c.group_b.label == a.unexpected_connections[i].group_b.label
    &&& c.group_a.items == a.unexpected_connections[i].group_a.items.filter(points_below(n))
    &&& c.group_b.items == a.unexpected_connections[i].group_b.items.filter(points_below(n))
}

/// Pruning only filters threads: the `j`-th thread it keeps is the input's
/// thread `i` (returned) with the same title and summary and with its
/// evidence filtered to the first `n` items.
pub proof fn lemma_pruned_thread_comes_from_input(a: AnalysisView, n: nat, j: int) -> (i: int)
    requires
        0 <= j < pruned_analysis(a, n).recurring_threads.len(),
    ensures
        thread_from(pruned_analysis(a, n).recurring_threads[j], a, i, n),
{
    let tm = a.recurring_threads.map_values(|t: ThreadView| pruned_thread(t, n));
    let tq = |t: ThreadView| exists|i: int| thread_from(t, a, i, n);
    assert forall|i: int| 0 <= i < tm.len() implies #[trigger] tq(tm[i]) by {
        assert(thread_from(tm[i], a, i, n));
    }
    lemma_filter_keeps(tm, |t: ThreadView| thread_has_evidence(t), tq);
    let kept = tm.filter(|t: ThreadView| thread_has_evidence(t));
    assert(kept == pruned_analysis(a, n).recurring_threads);
    assert(tq(kept[j]));
    choose|i: int| thread_from(kept[j], a, i, n)
}

/// Pruning only filters connections: the `j`-th connection it keeps is the
/// input's connection `i` (returned) with the same title, insight and labels
/// and with the evidence of both groups filtered to the first `n` items.
pub proof fn lemma_pruned_connection_comes_from_input(a: AnalysisView, n: nat, j: int) -> (i: int)
    requires
        0 <= j < pruned_analysis(a, n).unexpected_connections.len(),
    ensures
        connection_from(pruned_analysis(a, n).unexpected_connections[j], a, i, n),
{
    let cm = a.unexpected_connections.map_values(|c: ConnectionView| pruned_connection(c, n));
    let cq = |c: ConnectionView| exists|i: int| connection_from(c, a, i, n);
    assert forall|i: int| 0 <= i < cm.len() implies #[trigger] cq(cm[i]) by {
        assert(connection_from(cm[i], a, i, n));
    }
    lemma_filter_keeps(cm, |c: ConnectionView| connection_has_evidence(c), cq);
    let kept = cm.filter(|c: ConnectionView| connection_has_evidence(c));
    assert(kept == pruned_analysis(a, n).unexpected_connections);
    assert(cq(kept[j]));
    choose|i: int| connection_from(kept[j], a, i, n)
}

/// Pruning only filters obsessions: the `j`-th obsession it keeps is the
/// input's obsession `i` (returned) with the same title, first-seen date and
/// intensity and with its evidence filtered to the first `n` items.
pub proof fn lemma_pruned_obsession_comes_from_input(a: AnalysisView, n: nat, j: int) -> (i: int)
    requires
        0 <= j < pruned_analysis(a, n).new_obsessions.len(),
    ensures
        obsession_from(pruned_analysis(a, n).new_obsessions[j], a, i, n),
{
    let om = a.new_obsessions.map_values(|o: ObsessionView| pruned_obsession(o, n));
    let oq = |o: ObsessionView| exists|i: int| obsession_from(o, a, i, n);
    assert forall|i: int| 0 <= i < om.len() implies #[trigger] oq(om[i]) by {
        assert(obsession_from(om[i], a, i, n));
    }
    lemma_filter_keeps(om, |o: ObsessionView| obsession_has_evidence(o), oq);
    let kept = om.filter(|o: ObsessionView| obsession_has_evidence(o));
    assert(kept == pruned_analysis(a, n).new_obsessions);
    assert(oq(kept[j]));
    choose|i: int| obsession_from(kept[j], a, i, n)
}

} // verus!
