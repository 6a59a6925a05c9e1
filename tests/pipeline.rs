use sane_rss::config::{Config, FeedConfig, Filters, LLMConfig};
use sane_rss::feed::{favicon_url, list_feeds, parse_feed, read_response, serve_feed, FeedError};
use sane_rss::filter::{
    excerpt, merged_rules, requires_decision, strip_json_fence, verdict, FilterError,
    FilterResponse, LLMFilter, LlmBackend, Plan,
};
use sane_rss::item::{decimal_text, guid_at, item_to_guid, FeedItem};
use sane_rss::known::{CacheError, KnownItems};
use sane_rss::schedule::{PollerAction, PollerEvent, PollerState};
use sane_rss::store::FeedStorageInner;

fn item(guid: &str) -> FeedItem {
    FeedItem {
        title: Some(format!("title of {guid}")),
        link: None,
        description: None,
        guid: Some(guid.to_string()),
        pub_date: None,
        content: None,
        source: None,
    }
}

fn bare_item() -> FeedItem {
    FeedItem { title: None, link: None, description: None, guid: None, pub_date: None, content: None, source: None }
}

fn guids(items: &[FeedItem]) -> Vec<String> {
    items.iter().map(|i| i.guid.clone().unwrap()).collect()
}

fn strings(v: &[&str]) -> Vec<String> {
    v.iter().map(|s| s.to_string()).collect()
}

fn filters(accept: &[&str], reject: &[&str]) -> Filters {
    Filters { accept: strings(accept), reject: strings(reject) }
}

fn config(provider: &str, global: Filters, feeds: Vec<(&str, Filters)>) -> Config {
    Config {
        llm: LLMConfig {
            provider: provider.to_string(),
            api_key: "no_key".to_string(),
            model: "no_model".to_string(),
            prompt: "{title}|{description}|{content_excerpt}|{accept_topics}|{reject_topics}"
                .to_string(),
        },
        global_filters: global,
        feeds: feeds
            .into_iter()
            .map(|(n, f)| {
                (n.to_string(), FeedConfig { url: format!("https://example.org/{n}.xml"), filters: f })
            })
            .collect(),
        server_host: "127.0.0.1".to_string(),
        server_port: 8080,
        polling_interval_seconds: 60,
        max_items_per_feed: 10,
        known_items_file: "known.json".to_string(),
    }
}

/// Runs one polling pass over `fetched` with the given gate answers.
fn poll(store: &mut FeedStorageInner, feed: &str, fetched: Vec<FeedItem>, accept: &dyn Fn(&FeedItem) -> bool) -> Vec<String> {
    let fresh = store.begin_poll(feed, "Feed title", "Feed description", fetched, 0);
    let decided = guids(&fresh);
    let accepted: Vec<FeedItem> = fresh.into_iter().filter(|i| accept(i)).collect();
    store.finish_poll(feed, accepted);
    decided
}

fn stored_guids(store: &FeedStorageInner, feed: &str) -> Vec<String> {
    guids(&store.read(feed).expect("feed is stored").items)
}

#[test]
fn identity_prefers_guid_then_link_then_title_and_date() {
    let mut i = bare_item();
    i.title = Some("Hello".to_string());
    assert_eq!(item_to_guid(&i), "Hello-no-date");
    i.pub_date = Some("Mon, 01 Jan 2024".to_string());
    assert_eq!(item_to_guid(&i), "Hello-Mon, 01 Jan 2024");
    i.link = Some("https://example.org/a".to_string());
    assert_eq!(item_to_guid(&i), "https://example.org/a");
    i.guid = Some("g-1".to_string());
    assert_eq!(item_to_guid(&i), "g-1");
}

#[test]
fn identity_falls_back_to_the_clock() {
    let i = bare_item();
    assert_eq!(guid_at(&i, 1700000000), "unknown-1700000000");
    assert_eq!(guid_at(&i, -5), "unknown--5");
    let now = item_to_guid(&i);
    assert!(now.starts_with("unknown-"));
    assert!(now["unknown-".len()..].parse::<i64>().is_ok());
}

#[test]
fn identity_is_deterministic() {
    let mut a = bare_item();
    a.title = Some("Same".to_string());
    a.pub_date = Some("Tue".to_string());
    let mut b = bare_item();
    b.title = Some("Same".to_string());
    b.pub_date = Some("Tue".to_string());
    b.description = Some("different body".to_string());
    assert_eq!(item_to_guid(&a), item_to_guid(&b));
    assert_eq!(item_to_guid(&a), item_to_guid(&a));
    assert_eq!(guid_at(&a, 1), guid_at(&b, 99));
}

#[test]
fn decimal_text_writes_integers() {
    assert_eq!(decimal_text(0), "0");
    assert_eq!(decimal_text(42), "42");
    assert_eq!(decimal_text(-7), "-7");
    assert_eq!(decimal_text(i64::MIN), "-9223372036854775808");
    assert_eq!(decimal_text(i64::MAX), "9223372036854775807");
}

#[test]
fn known_log_evicts_oldest_beyond_capacity() {
    let mut k = KnownItems::new(2);
    assert!(k.record("f", "a".to_string()));
    assert!(k.record("f", "b".to_string()));
    assert!(!k.record("f", "a".to_string()));
    assert!(k.record("f", "c".to_string()));
    assert!(!k.contains("f", &"a".to_string()));
    assert!(k.contains("f", &"b".to_string()));
    assert!(k.contains("f", &"c".to_string()));
    assert!(!k.contains("g", &"b".to_string()));
    let snap = k.snapshot();
    assert_eq!(snap, vec![("f".to_string(), strings(&["b", "c"]))]);
}

#[test]
fn known_log_with_zero_capacity_keeps_nothing() {
    let mut k = KnownItems::new(0);
    assert!(k.record("f", "a".to_string()));
    assert!(!k.contains("f", &"a".to_string()));
}

#[test]
fn repolling_unchanged_items_adds_nothing() {
    let mut store = FeedStorageInner::new(5, 100);
    let first = poll(&mut store, "news", vec![item("a"), item("b"), item("c")], &|_| true);
    assert_eq!(first, strings(&["a", "b", "c"]));
    let second = poll(&mut store, "news", vec![item("a"), item("b"), item("c")], &|_| true);
    assert!(second.is_empty());
    assert_eq!(stored_guids(&store, "news"), strings(&["a", "b", "c"]));
    assert_eq!(store.known_items().snapshot(), vec![("news".to_string(), strings(&["a", "b", "c"]))]);
}

#[test]
fn duplicates_within_one_fetch_are_taken_once() {
    let mut store = FeedStorageInner::new(5, 100);
    let decided = poll(&mut store, "news", vec![item("a"), item("a"), item("b")], &|_| true);
    assert_eq!(decided, strings(&["a", "b"]));
    assert_eq!(stored_guids(&store, "news"), strings(&["a", "b"]));
}

#[test]
fn retention_keeps_the_most_recent_items() {
    let mut store = FeedStorageInner::new(3, 100);
    store.add_channel("f", "T", "D");
    let items: Vec<FeedItem> = ["1", "2", "3", "4", "5"].iter().map(|g| item(g)).collect();
    store.store_filtered_items("f", items);
    assert_eq!(stored_guids(&store, "f"), strings(&["3", "4", "5"]));
    store.store_filtered_item("f", item("6"));
    assert_eq!(stored_guids(&store, "f"), strings(&["4", "5", "6"]));
}

#[test]
fn retention_with_zero_capacity_keeps_nothing() {
    let mut store = FeedStorageInner::new(0, 100);
    store.add_channel("f", "T", "D");
    store.store_filtered_item("f", item("1"));
    assert!(stored_guids(&store, "f").is_empty());
}

#[test]
fn first_title_and_description_are_kept() {
    let mut store = FeedStorageInner::new(3, 10);
    store.add_channel("f", "First", "First description");
    store.store_filtered_item("f", item("1"));
    store.add_channel("f", "Second", "Second description");
    let feed = store.read("f").unwrap();
    assert_eq!(feed.title, "First");
    assert_eq!(feed.description, "First description");
    assert_eq!(feed.items.len(), 1);
    assert!(store.read("g").is_none());
}

#[test]
fn is_known_and_record_as_known_use_item_identity() {
    let mut store = FeedStorageInner::new(3, 10);
    let i = item("x");
    assert!(!store.is_known("f", &i));
    assert!(store.record_as_known("f", &i));
    assert!(store.is_known("f", &i));
    assert!(!store.record_as_known("f", &i));
    assert!(!store.is_known("other", &i));
}

#[test]
fn failing_gate_accepts_every_item() {
    let filter = LLMFilter::new(config("anthropic", filters(&[], &["sports"]), vec![("news", filters(&[], &[]))])).unwrap();
    let mut store = FeedStorageInner::new(10, 100);
    let fresh = store.begin_poll("news", "T", "D", vec![item("a"), item("b")], 0);
    let mut accepted = Vec::new();
    for i in fresh {
        let keep = match filter.plan("news", &i).unwrap() {
            Plan::Accept => panic!("topics apply, the model must be asked"),
            Plan::Ask(_) => verdict(None),
        };
        if keep {
            accepted.push(i);
        }
    }
    store.finish_poll("news", accepted);
    assert_eq!(stored_guids(&store, "news"), strings(&["a", "b"]));
}

#[test]
fn no_topics_means_no_model_call() {
    let filter = LLMFilter::new(config("openai", filters(&[], &[]), vec![("news", filters(&[], &[]))])).unwrap();
    let mut calls = 0;
    let keep = match filter.plan("news", &item("a")).unwrap() {
        Plan::Accept => true,
        Plan::Ask(_) => {
            calls += 1;
            verdict(Some(FilterResponse { accept: false, reject: true }))
        },
    };
    assert!(keep);
    assert_eq!(calls, 0);
}

#[test]
fn verdict_follows_the_model_answer() {
    assert!(verdict(Some(FilterResponse { accept: true, reject: true })));
    assert!(verdict(Some(FilterResponse { accept: false, reject: false })));
    assert!(!verdict(Some(FilterResponse { accept: false, reject: true })));
    assert!(verdict(None));
}

#[test]
fn persistence_round_trip() {
    let pairs = vec![
        ("a".to_string(), strings(&["g1", "g2"])),
        ("b".to_string(), Vec::new()),
    ];
    let saved = KnownItems::restore(&pairs, 100);
    let text = saved.save_text();
    assert_eq!(text, r#"{"a":["g1","g2"],"b":[]}"#);
    let loaded = KnownItems::load_text(&text, 100).unwrap();
    assert!(loaded.contains("a", &"g1".to_string()));
    assert!(loaded.contains("a", &"g2".to_string()));
    assert!(!loaded.contains("a", &"g3".to_string()));
    assert!(!loaded.contains("b", &"g1".to_string()));
}

#[test]
fn loading_empty_text_gives_empty_record() {
    let loaded = KnownItems::load_text("", 10).unwrap();
    assert!(!loaded.contains("a", &"g1".to_string()));
    assert!(loaded.snapshot().is_empty());
}

#[test]
fn loading_malformed_text_fails() {
    assert_eq!(KnownItems::load_text("{not json", 10).err(), Some(CacheError::Malformed));
    assert_eq!(KnownItems::load_text(r#"[["a", ["g1"]]]"#, 10).err(), Some(CacheError::Malformed));
    assert_eq!(KnownItems::load_text(r#"{"a": "g1"}"#, 10).err(), Some(CacheError::Malformed));
}

#[test]
fn restore_applies_capacity() {
    let pairs = vec![("a".to_string(), strings(&["g1", "g2", "g3"]))];
    let k = KnownItems::restore(&pairs, 2);
    assert!(!k.contains("a", &"g1".to_string()));
    assert!(k.contains("a", &"g3".to_string()));
}

#[test]
fn scenario_two_cycles() {
    let mut store = FeedStorageInner::new(2, 100);
    let gate = |i: &FeedItem| i.guid.as_deref() != Some("i2");
    let first = poll(&mut store, "tech", vec![item("i1"), item("i2"), item("i3")], &gate);
    assert_eq!(first, strings(&["i1", "i2", "i3"]));
    assert_eq!(stored_guids(&store, "tech"), strings(&["i1", "i3"]));
    for g in ["i1", "i2", "i3"] {
        assert!(store.is_known("tech", &item(g)));
    }
    let second = poll(&mut store, "tech", vec![item("i2"), item("i4")], &|_| true);
    assert_eq!(second, strings(&["i4"]));
    assert_eq!(stored_guids(&store, "tech"), strings(&["i3", "i4"]));
}

#[test]
fn provider_selects_backend() {
    let f = |p: &str| LLMFilter::new(config(p, filters(&[], &[]), vec![])).map(|f| f.backend);
    assert_eq!(f("anthropic").ok(), Some(LlmBackend::Anthropic));
    assert_eq!(f("gemini").ok(), Some(LlmBackend::Google));
    assert_eq!(f("openai").ok(), Some(LlmBackend::OpenAI));
    assert_eq!(f("mistral").err(), Some(FilterError::InvalidProvider));
}

#[test]
fn rules_merge_global_then_feed() {
    let filter = LLMFilter::new(config(
        "anthropic",
        filters(&["rust"], &["ads"]),
        vec![("news", filters(&["verification"], &[])), ("news", filters(&["ignored"], &[]))],
    ))
    .unwrap();
    let rules = filter.rules_for("news").unwrap();
    assert_eq!(rules.accept, strings(&["rust", "verification"]));
    assert_eq!(rules.reject, strings(&["ads"]));
    assert!(filter.rules_for("other").is_none());
    assert!(filter.plan("other", &item("a")).is_none());
    let merged = merged_rules(&filters(&[], &[]), &filters(&[], &["x"]));
    assert!(requires_decision(&merged));
    assert!(!requires_decision(&filters(&[], &[])));
}

#[test]
fn prompt_fills_placeholders() {
    let filter = LLMFilter::new(config("anthropic", filters(&[], &[]), vec![])).unwrap();
    let mut i = bare_item();
    i.title = Some("T".to_string());
    let prompt = filter.prepare_prompt(&i, &strings(&["x", "y"]), &Vec::new());
    assert_eq!(prompt, "T|none|none|x; y|none");
    i.description = Some("D".to_string());
    i.content = Some("<p> one </p><p>two</p>".to_string());
    let prompt = filter.prepare_prompt(&i, &Vec::new(), &strings(&["z"]));
    assert_eq!(prompt, "T|D|one two|none|z");
}

#[test]
fn plan_asks_with_the_prompt() {
    let filter = LLMFilter::new(config("anthropic", filters(&["g"], &[]), vec![("news", filters(&[], &["r"]))])).unwrap();
    match filter.plan("news", &item("a")).unwrap() {
        Plan::Ask(prompt) => assert_eq!(prompt, "title of a|none|none|g|r"),
        Plan::Accept => panic!("topics apply"),
    }
}

#[test]
fn json_fence_is_stripped() {
    assert_eq!(strip_json_fence("  ```json\n{\"accept\": true}\n```  "), "\n{\"accept\": true}\n");
    assert_eq!(strip_json_fence(" {\"accept\": true} "), " {\"accept\": true} ");
    assert_eq!(strip_json_fence("```json```"), "");
    assert_eq!(strip_json_fence("```json"), "```json");
}

#[test]
fn excerpt_cuts_at_the_byte_limit() {
    assert_eq!(excerpt(&strings(&["  ab  ", "", "cdef"]), 4), "ab cd");
    assert_eq!(excerpt(&strings(&["ab", "cd"]), 4), "ab cd");
    assert_eq!(excerpt(&strings(&["ab", "cd", "ef"]), 4), "ab cd");
    assert_eq!(excerpt(&strings(&["\u{e9}t\u{e9}"]), 3), "\u{e9}t");
    assert_eq!(excerpt(&Vec::new(), 10), "");
}

#[test]
fn feeds_are_listed_in_order() {
    let mut store = FeedStorageInner::new(3, 10);
    assert_eq!(list_feeds(&store), "No feeds available yet");
    store.add_channel("b", "B", "");
    store.add_channel("a", "A", "");
    assert_eq!(list_feeds(&store), "Available feeds:\n- /b\n- /a");
    let names = store.list_names();
    assert_eq!(names, vec![("b".to_string(), 0), ("a".to_string(), 0)]);
}

#[test]
fn served_feed_reads_back() {
    let mut store = FeedStorageInner::new(3, 10);
    assert!(serve_feed(&store, "f").is_none());
    store.add_channel("f", "Feed title", "Feed description");
    let mut i = item("g1");
    i.link = Some("https://example.org/1".to_string());
    store.store_filtered_item("f", i);
    let xml = serve_feed(&store, "f").unwrap();
    assert!(xml.contains("<rss"));
    let back = parse_feed(&xml).unwrap();
    assert_eq!(back.title, "Feed title");
    assert_eq!(back.description, "Feed description");
    assert_eq!(guids(&back.items), strings(&["g1"]));
    assert_eq!(back.items[0].link.as_deref(), Some("https://example.org/1"));
}

#[test]
fn malformed_document_is_rejected() {
    assert_eq!(parse_feed("not a feed").err(), Some(FeedError::Malformed));
}

#[test]
fn schedule_skips_first_tick_after_priming() {
    let mut s = PollerState::new(true);
    assert_eq!(s.on_event(PollerEvent::Tick), PollerAction::Skip);
    assert_eq!(s.on_event(PollerEvent::Tick), PollerAction::PollAll);
    assert_eq!(s.on_event(PollerEvent::Shutdown), PollerAction::SaveAndStop);
    assert_eq!(s.on_event(PollerEvent::Tick), PollerAction::Skip);
    let mut t = PollerState::new(false);
    assert_eq!(t.on_event(PollerEvent::Tick), PollerAction::PollAll);
}

#[test]
fn favicon_sits_at_the_site_root() {
    assert_eq!(
        favicon_url("https://example.org/feeds/a.xml?x=1").as_deref(),
        Some("https://example.org/favicon.ico")
    );
    assert_eq!(
        favicon_url("http://user@host.example:8080/x/y").as_deref(),
        Some("http://user@host.example:8080/favicon.ico")
    );
    assert_eq!(favicon_url("not a url"), None);
}

#[test]
fn known_items_file_is_an_object_of_lists() {
    let loaded = KnownItems::load_text(r#"{"news": ["x", "y"], "blog": []}"#, 10).unwrap();
    assert!(loaded.contains("news", &"x".to_string()));
    assert!(loaded.contains("news", &"y".to_string()));
    assert!(!loaded.contains("blog", &"x".to_string()));
    assert_eq!(loaded.save_text(), r#"{"blog":[],"news":["x","y"]}"#);
}

const SMALL_FEED: &str = r#"<?xml version="1.0" encoding="UTF-8"?><rss version="2.0" xmlns:dc="http://purl.org/dc/elements/1.1/"><channel><title>T</title><link>https://example.org</link><description>D</description><item><title>One</title><guid isPermaLink="true">https://example.org/1</guid><author>a@example.org</author><dc:creator>Ann</dc:creator><category>news</category><enclosure url="https://example.org/1.mp3" length="10" type="audio/mpeg"/></item></channel></rss>"#;

#[test]
fn non_success_status_is_a_failure() {
    assert_eq!(read_response(404, SMALL_FEED).err(), Some(FeedError::Status));
    assert_eq!(read_response(500, SMALL_FEED).err(), Some(FeedError::Status));
    assert_eq!(read_response(199, SMALL_FEED).err(), Some(FeedError::Status));
    assert_eq!(read_response(300, SMALL_FEED).err(), Some(FeedError::Status));
    assert_eq!(read_response(200, "<html>oops</html>").err(), Some(FeedError::Malformed));
    let feed = read_response(200, SMALL_FEED).unwrap();
    assert_eq!(feed.title, "T");
    assert_eq!(guids(&feed.items), strings(&["https://example.org/1"]));
    assert!(read_response(299, SMALL_FEED).is_ok());
}

#[test]
fn served_items_keep_their_whole_entry() {
    let feed = parse_feed(SMALL_FEED).unwrap();
    let mut store = FeedStorageInner::new(3, 10);
    store.add_channel("f", &feed.title, &feed.description);
    store.store_filtered_items("f", feed.items);
    let xml = serve_feed(&store, "f").unwrap();
    assert!(xml.contains("a@example.org"));
    assert!(xml.contains("Ann"));
    assert!(xml.contains("<category>news</category>"));
    assert!(xml.contains("https://example.org/1.mp3"));
    assert!(xml.contains(r#"isPermaLink="true""#) || !xml.contains("isPermaLink"));
}
