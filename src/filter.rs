//! The accept/reject gate: which topics apply to an item, whether a model
//! has to be asked at all, what it is asked, and how its answer (or its
//! failure) becomes a verdict.
use crate::config::{Config, FeedConfig, Filters};
use crate::item::FeedItem;
use crate::text::{
    char_width, chars_of, join, joined, replace_all, replaced, text_of, trim_text, trimmed,
    utf8_len, utf8_width,
};
use vstd::prelude::*;

verus! {

/// The model services that can judge items.
#[derive(Debug, Clone, Copy, PartialEq, Eq, Structural)]
pub enum LlmBackend {
    Anthropic,
    Google,
    OpenAI,
}

/// Why a gate could not be set up.
#[derive(Debug, PartialEq, Eq, Structural)]
pub enum FilterError {
    /// The configured provider is none of "anthropic", "gemini", "openai".
    InvalidProvider,
}

/// An accept/reject gate: the configuration and the service that judges items.
pub struct LLMFilter {
    pub backend: LlmBackend,
    pub config: Config,
}

/// A model's answer about one item.
#[derive(Debug, Clone, Copy, PartialEq, Eq, Structural)]
pub struct FilterResponse {
    pub accept: bool,
    pub reject: bool,
}

/// What to do about one new item.
#[derive(Debug)]
pub enum Plan {
    /// Accept it without asking anyone: no topics apply.
    Accept,
    /// Ask the model with this prompt.
    Ask(String),
}

/// The model service named by a configured provider.
pub open spec fn backend_for(provider: Seq<char>) -> Option<LlmBackend> {
    if provider == "anthropic"@ {
        Some(LlmBackend::Anthropic)
    } else if provider == "gemini"@ {
        Some(LlmBackend::Google)
    } else if provider == "openai"@ {
        Some(LlmBackend::OpenAI)
    } else {
        None
    }
}

/// The texts of a list of strings.
pub open spec fn views(v: Seq<String>) -> Seq<Seq<char>> {
    v.map_values(|s: String| s@)
}

/// Whether any topic applies, so that the model has to be asked.
pub open spec fn needs_decision(rules: Filters) -> bool {
    rules.accept@.len() > 0 || rules.reject@.len() > 0
}

/// The verdict on an item under `rules`, given what the model answered
/// (`None` when asking it failed): accepted when no topic applies, when the
/// model failed, or when it accepted or did not reject.
pub open spec fn verdict_for(rules: Filters, outcome: Option<FilterResponse>) -> bool {
    !needs_decision(rules) || match outcome {
        None => true,
        Some(r) => r.accept || !r.reject,
    }
}

/// The index of the first feed named `name` in `feeds`, if any.
pub open spec fn feed_index(feeds: Seq<(String, FeedConfig)>, name: Seq<char>) -> Option<int> {
    if exists|i: int| 0 <= i < feeds.len() && feeds[i].0@ == name {
        Some(
            choose|i: int|
                0 <= i < feeds.len() && feeds[i].0@ == name && forall|j: int|
                    0 <= j < i ==> feeds[j].0@ != name,
        )
    } else {
        None
    }
}

/// Text shown to the model in place of a missing or empty field.
pub open spec fn or_none(s: Seq<char>) -> Seq<char> {
    if s.len() == 0 {
        "none"@
    } else {
        s
    }
}

/// A field of the item, or "none" when it is missing.
pub open spec fn field_or_none(o: Option<String>) -> Seq<char> {
    match o {
        Some(s) => s@,
        None => "none"@,
    }
}

/// The texts of the paragraphs (`p` elements) of an HTML document, in
/// document order, each its text nodes joined, as scraper finds them.
pub uninterp spec fn paragraphs_of(html: Seq<char>) -> Seq<Seq<char>>;

/// The longest start of `t` that fits in `room` bytes of UTF-8.
pub open spec fn fit_prefix(t: Seq<char>, room: nat) -> Seq<char>
    decreases t.len(),
{
    if t.len() == 0 {
        t
    } else if utf8_width(t[0]) <= room {
        seq![t[0]] + fit_prefix(t.drop_first(), (room - utf8_width(t[0])) as nat)
    } else {
        Seq::empty()
    }
}

/// `acc` followed by a space when it is not empty.
pub open spec fn spaced(acc: Seq<char>) -> Seq<char> {
    if acc.len() == 0 {
        acc
    } else {
        acc.push(' ')
    }
}

/// The excerpt built from `paras` after `acc`: each paragraph, trimmed and
/// when not empty, is appended after a space; the first that does not fit
/// in `max` bytes is cut to the room left and ends the excerpt, as does
/// reaching `max` bytes.
pub open spec fn excerpt_from(acc: Seq<char>, paras: Seq<Seq<char>>, max: nat) -> Seq<char>
    decreases paras.len(),
{
    if paras.len() == 0 {
        acc
    } else {
        let t = trimmed(paras[0]);
        if t.len() == 0 {
            excerpt_from(acc, paras.drop_first(), max)
        } else if utf8_len(acc) >= max {
            acc
        } else if utf8_len(acc) + utf8_len(t) <= max {
            excerpt_from(spaced(acc) + t, paras.drop_first(), max)
        } else {
            spaced(acc) + fit_prefix(t, (max - utf8_len(acc)) as nat)
        }
    }
}

/// The most bytes of paragraph text put in an excerpt.
pub const EXCERPT_BYTES: usize = 1000;

/// The plain-text excerpt of an item's HTML content; empty without content.
pub open spec fn content_excerpt(item: FeedItem) -> Seq<char> {
    match item.content {
        Some(html) => excerpt_from(Seq::empty(), paragraphs_of(html@), EXCERPT_BYTES as nat),
        None => Seq::empty(),
    }
}

/// The prompt for `item` made from `template`: each placeholder replaced in
/// turn by the item's title, description and content excerpt and by the
/// accept and reject topics joined with "; ", with "none" for what is
/// missing or empty.
pub open spec fn prompt_for(
    template: Seq<char>,
    item: FeedItem,
    accept: Seq<Seq<char>>,
    reject: Seq<Seq<char>>,
) -> Seq<char> {
    let with_title = replaced(template, "{title}"@, field_or_none(item.title));
    let with_description = replaced(with_title, "{description}"@, field_or_none(item.description));
    let with_excerpt = replaced(with_description, "{content_excerpt}"@, or_none(content_excerpt(item)));
    let with_accept = replaced(with_excerpt, "{accept_topics}"@, or_none(joined(accept, "; "@)));
    replaced(with_accept, "{reject_topics}"@, or_none(joined(reject, "; "@)))
}

/// The text of a model's answer without a surrounding "```json" ... "```"
/// fence: the trimmed text with the fence removed when it has both ends,
/// else the text as it came.
pub open spec fn fence_stripped(s: Seq<char>) -> Seq<char> {
    let t = trimmed(s);
    if t.len() >= 10 && t.take(7) == "```json"@ && t.skip(t.len() - 3) == "```"@ {
        t.subrange(7, t.len() - 3)
    } else {
        s
    }
}

/// Relies on scraper: `Html::parse_document`, then the `p` elements found by
/// `Html::select` with `Selector::parse("p")` (a valid selector, so the
/// error arm is never taken), each as its text nodes collected by
/// `ElementRef::text`. The texts depend on the document alone.
#[verifier::external_body]
fn paragraph_texts(html: &str) -> (r: Vec<String>)
    ensures
        views(r@) == paragraphs_of(html@),
{
    let document = scraper::Html::parse_document(html);
    match scraper::Selector::parse("p") {
        Ok(selector) => document.select(&selector).map(|e| e.text().collect::<String>()).collect(),
        Err(_) => Vec::new(),
    }
}

fn copy_all(v: &Vec<String>) -> (r: Vec<String>)
    ensures
        r@ == v@,
{
    let mut r: Vec<String> = Vec::new();
    let mut i: usize = 0;
    while i < v.len()
        invariant
            i <= v.len(),
            r@ == v@.take(i as int),
        decreases v.len() - i,
    {
        r.push(v[i].clone());
        assert(r@ =~= v@.take(i + 1));
        i += 1;
    }
    assert(r@ =~= v@);
    r
}

fn concat_all(a: &Vec<String>, b: &Vec<String>) -> (r: Vec<String>)
    ensures
        r@ == a@ + b@,
{
    let mut r = copy_all(a);
    let mut tail = copy_all(b);
    r.append(&mut tail);
    r
}

/// The topics that apply to a feed: the global ones, then the feed's own.
pub fn merged_rules(global: &Filters, local: &Filters) -> (r: Filters)
    ensures
        r.accept@ == global.accept@ + local.accept@,
        r.reject@ == global.reject@ + local.reject@,
{
    Filters {
        accept: concat_all(&global.accept, &local.accept),
        reject: concat_all(&global.reject, &local.reject),
    }
}

/// Whether any topic applies, so that the model has to be asked.
pub fn requires_decision(rules: &Filters) -> (r: bool)
    ensures
        r == needs_decision(*rules),
{
    rules.accept.len() > 0 || rules.reject.len() > 0
}

/// The verdict on an item: the model's answer when it gave one (accepted
/// when it accepts or does not reject), and accepted when asking it failed.
pub fn verdict(outcome: Option<FilterResponse>) -> (r: bool)
    ensures
        outcome is None ==> r,
        outcome matches Some(a) ==> r == (a.accept || !a.reject),
{
    match outcome {
        Some(a) => a.accept || !a.reject,
        None => true,
    }
}

/// A model's answer with a surrounding "```json" ... "```" fence removed.
pub fn strip_json_fence(content: &str) -> (r: String)
    ensures
        r@ == fence_stripped(content@),
{
    let t = trim_text(content);
    let n = t.as_str().unicode_len();
    proof {
        reveal_strlit("```json");
        reveal_strlit("```");
    }
    if n >= 10 {
        let open = t.as_str().substring_char(0, 7);
        let close = t.as_str().substring_char(n - 3, n);
        let open_ok = String::from_str(open) == String::from_str("```json");
        let close_ok = String::from_str(close) == String::from_str("```");
        if open_ok && close_ok {
            return String::from_str(t.as_str().substring_char(7, n - 3));
        }
    }
    String::from_str(content)
}

proof fn lemma_utf8_len_concat(a: Seq<char>, b: Seq<char>)
    ensures
        utf8_len(a + b) == utf8_len(a) + utf8_len(b),
    decreases b.len(),
{
    if b.len() == 0 {
        assert(a + b =~= a);
    } else {
        lemma_utf8_len_concat(a, b.drop_last());
        assert((a + b).drop_last() =~= a + b.drop_last());
        assert((a + b).last() == b.last());
    }
}

/// The number of bytes of `t` in UTF-8 when it is at most `room`.
fn fits_in(t: &Vec<char>, room: usize) -> (r: Option<usize>)
    ensures
        match r {
            Some(n) => n == utf8_len(t@) && n <= room,
            None => utf8_len(t@) > room,
        },
{
    let mut used: usize = 0;
    let mut i: usize = 0;
    while i < t.len()
        invariant
            i <= t.len(),
            used == utf8_len(t@.take(i as int)),
            used <= room,
        decreases t.len() - i,
    {
        let w = char_width(t[i]);
        assert(t@.take(i + 1).drop_last() =~= t@.take(i as int));
        if w > room - used {
            proof {
                lemma_utf8_len_concat(t@.take(i + 1), t@.skip(i + 1));
                assert(t@.take(i + 1) + t@.skip(i + 1) =~= t@);
            }
            return None;
        }
        used = used + w;
        i += 1;
    }
    assert(t@.take(i as int) =~= t@);
    Some(used)
}

/// Appends to `acc` the longest start of `t` that fits in `room` bytes.
fn push_fit_prefix(acc: &mut Vec<char>, t: &Vec<char>, room: usize)
    ensures
        final(acc)@ == old(acc)@ + fit_prefix(t@, room as nat),
{
    let mut left: usize = room;
    let mut i: usize = 0;
    assert(t@.skip(0) =~= t@);
    assert(acc@ + fit_prefix(t@, room as nat) == old(acc)@ + fit_prefix(t@, room as nat));
    while i < t.len()
        invariant_except_break
            i <= t.len(),
            acc@ + fit_prefix(t@.skip(i as int), left as nat) == old(acc)@ + fit_prefix(t@, room as nat),
        ensures
            acc@ == old(acc)@ + fit_prefix(t@, room as nat),
        decreases t.len() - i,
    {
        let c = t[i];
        let w = char_width(c);
        let ghost rest = t@.skip(i as int);
        assert(rest[0] == c);
        assert(rest.drop_first() =~= t@.skip(i + 1));
        if w > left {
            assert(fit_prefix(rest, left as nat) == Seq::<char>::empty());
            assert(acc@ + Seq::<char>::empty() =~= acc@);
            break;
        }
        let ghost before = acc@;
        acc.push(c);
        left = left - w;
        assert(before + fit_prefix(rest, (left + w) as nat) =~= acc@ + fit_prefix(t@.skip(i + 1), left as nat));
        i += 1;
    }
    if i == t.len() {
        assert(t@.skip(i as int) =~= Seq::<char>::empty());
        assert(acc@ + Seq::<char>::empty() =~= acc@);
    }
}

/// The excerpt of paragraph texts `paras`, at most `max_bytes` bytes of
/// text plus the spaces between paragraphs.
pub fn excerpt(paras: &Vec<String>, max_bytes: usize) -> (r: String)
    requires
        max_bytes < usize::MAX,
    ensures
        r@ == excerpt_from(Seq::empty(), views(paras@), max_bytes as nat),
{
    let ghost all = views(paras@);
    let mut acc: Vec<char> = Vec::new();
    let mut acc_bytes: usize = 0;
    let mut i: usize = 0;
    assert(all.skip(0) =~= all);
    assert(acc@ =~= Seq::<char>::empty());
    while i < paras.len()
        invariant_except_break
            i <= paras.len(),
            all == views(paras@),
            max_bytes < usize::MAX,
            acc_bytes == utf8_len(acc@),
            acc_bytes <= max_bytes + 1,
            excerpt_from(acc@, all.skip(i as int), max_bytes as nat) == excerpt_from(Seq::empty(), all, max_bytes as nat),
        ensures
            acc@ == excerpt_from(Seq::empty(), all, max_bytes as nat),
        decreases paras.len() - i,
    {
        let ghost rest = all.skip(i as int);
        assert(rest[0] == paras@[i as int]@);
        assert(rest.drop_first() =~= all.skip(i + 1));
        let trimmed_text = trim_text(paras[i].as_str());
        let t = chars_of(trimmed_text.as_str());
        if t.len() == 0 {
            i += 1;
            continue;
        }
        if acc_bytes >= max_bytes {
            break;
        }
        let room = max_bytes - acc_bytes;
        let ghost before = acc@;
        let fit = fits_in(&t, room);
        if let Some(t_bytes) = fit {
            let had_text = acc.len() > 0;
            if had_text {
                acc.push(' ');
            }
            let ghost spaced_before = acc@;
            assert(spaced_before == spaced(before));
            proof {
                assert(before.push(' ') =~= before + seq![' ']);
                lemma_utf8_len_concat(before, seq![' ']);
                lemma_utf8_len_concat(spaced_before, t@);
                assert(utf8_len(seq![' ']) == 1) by {
                    assert(seq![' '].drop_last() =~= Seq::<char>::empty());
                }
            }
            let mut tail = t;
            let ghost tv = tail@;
            acc.append(&mut tail);
            assert(acc@ == spaced(before) + tv);
            acc_bytes = if had_text { acc_bytes + 1 + t_bytes } else { acc_bytes + t_bytes };
            i += 1;
        } else {
            if acc.len() > 0 {
                acc.push(' ');
            }
            assert(acc@ == spaced(before));
            push_fit_prefix(&mut acc, &t, room);
            break;
        }
    }
    if i == paras.len() {
        assert(all.skip(i as int) =~= Seq::<Seq<char>>::empty());
    }
    text_of(&acc)
}

/// The plain-text excerpt of an item's HTML content: the text of its
/// paragraphs, trimmed, joined by spaces, and cut at `EXCERPT_BYTES` bytes.
pub fn extract_content_text(item: &FeedItem) -> (r: String)
    ensures
        r@ == content_excerpt(*item),
{
    match &item.content {
        Some(html) => {
            let paras = paragraph_texts(html.as_str());
            excerpt(&paras, EXCERPT_BYTES)
        },
        None => String::new(),
    }
}

impl LLMFilter {
    /// A gate for the given configuration, asking the service its provider
    /// names: "anthropic", "gemini" (Google) or "openai".
    pub fn new(config: Config) -> (r: Result<LLMFilter, FilterError>)
        ensures
            match backend_for(config.llm.provider@) {
                Some(b) => r matches Ok(f) && f.backend == b && f.config == config,
                None => r == Err::<LLMFilter, FilterError>(FilterError::InvalidProvider),
            },
    {
        proof {
            reveal_strlit("anthropic");
            reveal_strlit("gemini");
            reveal_strlit("openai");
        }
        let backend = if config.llm.provider == String::from_str("anthropic") {
            LlmBackend::Anthropic
        } else if config.llm.provider == String::from_str("gemini") {
            LlmBackend::Google
        } else if config.llm.provider == String::from_str("openai") {
            LlmBackend::OpenAI
        } else {
            return Err(FilterError::InvalidProvider);
        };
        Ok(LLMFilter { backend, config })
    }

    /// The topics that apply to `feed_name`: the global ones, then those of
    /// the first feed of that name; `None` for a feed not configured.
    pub fn rules_for(&self, feed_name: &str) -> (r: Option<Filters>)
        ensures
            match feed_index(self.config.feeds@, feed_name@) {
                Some(i) => r matches Some(f) && f.accept@ == self.config.global_filters.accept@
                    + self.config.feeds@[i].1.filters.accept@ && f.reject@
                    == self.config.global_filters.reject@ + self.config.feeds@[i].1.filters.reject@,
                None => r is None,
            },
    {
        let key = String::from_str(feed_name);
        let feeds = &self.config.feeds;
        let mut i: usize = 0;
        while i < feeds.len()
            invariant
                feeds == &self.config.feeds,
                i <= feeds.len(),
                forall|j: int| 0 <= j < i ==> feeds@[j].0@ != feed_name@,
                key@ == feed_name@,
            decreases feeds.len() - i,
        {
            if feeds[i].0 == key {
                let ghost k = feed_index(feeds@, feed_name@)->Some_0;
                assert(k == i as int) by {
                    let w = i as int;
                    assert(0 <= w < feeds@.len() && feeds@[w].0@ == feed_name@ && forall|j: int|
                        0 <= j < w ==> feeds@[j].0@ != feed_name@);
                    if k < w {
                        assert(feeds@[k].0@ != feed_name@);
                    } else if k > w {
                        assert(feeds@[w].0@ != feed_name@);
                    }
                }
                return Some(merged_rules(&self.config.global_filters, &feeds[i].1.filters));
            }
            i += 1;
        }
        None
    }

    /// The prompt for `item` under the given topics, from the configured
    /// template.
    pub fn prepare_prompt(&self, item: &FeedItem, accept_topics: &Vec<String>, reject_topics: &Vec<String>) -> (r: String)
        ensures
            r@ == prompt_for(self.config.llm.prompt@, *item, views(accept_topics@), views(reject_topics@)),
    {
        proof {
            reveal_strlit("none");
        }
        let none = "none";
        let title = match &item.title {
            Some(t) => t.as_str(),
            None => none,
        };
        let description = match &item.description {
            Some(d) => d.as_str(),
            None => none,
        };
        let mut content_excerpt = extract_content_text(item);
        if content_excerpt.as_str().unicode_len() == 0 {
            content_excerpt = String::from_str(none);
        }
        let mut accept = join(accept_topics, "; ");
        if accept.as_str().unicode_len() == 0 {
            accept = String::from_str(none);
        }
        let mut reject = join(reject_topics, "; ");
        if reject.as_str().unicode_len() == 0 {
            reject = String::from_str(none);
        }
        let with_title = replace_all(self.config.llm.prompt.as_str(), "{title}", title);
        let with_description = replace_all(with_title.as_str(), "{description}", description);
        let with_excerpt = replace_all(with_description.as_str(), "{content_excerpt}", content_excerpt.as_str());
        let with_accept = replace_all(with_excerpt.as_str(), "{accept_topics}", accept.as_str());
        replace_all(with_accept.as_str(), "{reject_topics}", reject.as_str())
    }

    /// What to do about a new item of `feed_name`: accept it at once when no
    /// topic applies (the model is not asked), else ask the model with the
    /// prompt for it. `None` for a feed not configured.
    pub fn plan(&self, feed_name: &str, item: &FeedItem) -> (r: Option<Plan>)
        ensures
            match feed_index(self.config.feeds@, feed_name@) {
                None => r is None,
                Some(i) => {
                    let accept = self.config.global_filters.accept@ + self.config.feeds@[i].1.filters.accept@;
                    let reject = self.config.global_filters.reject@ + self.config.feeds@[i].1.filters.reject@;
                    if accept.len() == 0 && reject.len() == 0 {
                        r matches Some(p) && p is Accept
                    } else {
                        r matches Some(p) && p matches Plan::Ask(prompt) && prompt@ == prompt_for(
                            self.config.llm.prompt@,
                            *item,
                            views(accept),
                            views(reject),
                        )
                    }
                },
            },
    {
        match self.rules_for(feed_name) {
            None => None,
            Some(rules) => {
                if !requires_decision(&rules) {
                    Some(Plan::Accept)
                } else {
                    Some(Plan::Ask(self.prepare_prompt(item, &rules.accept, &rules.reject)))
                }
            },
        }
    }
}

/// Fail-open: whatever topics apply, an item is accepted when asking the
/// model fails.
pub proof fn lemma_gate_failure_accepts(rules: Filters)
    ensures
        verdict_for(rules, None),
{
}

/// Fast path: with no global and no feed topics, an item is accepted
/// whatever the model would have said, so it need not be asked.
pub proof fn lemma_no_topics_accepts(global: Filters, local: Filters, outcome: Option<FilterResponse>)
    requires
        global.accept@.len() == 0,
        global.reject@.len() == 0,
        local.accept@.len() == 0,
        local.reject@.len() == 0,
    ensures
        forall|merged: Filters|
            merged.accept@ == global.accept@ + local.accept@ && merged.reject@ == global.reject@
                + local.reject@ ==> !needs_decision(merged) && #[trigger] verdict_for(merged, outcome),
{
}

} // verus!
