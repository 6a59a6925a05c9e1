//! Feed items and their identity.
use std::sync::Arc;
use vstd::prelude::*;

verus! {

#[verifier::external_type_specification]
#[verifier::external_body]
pub struct ExRssItem(rss::Item);

/// One entry of a feed: as plain text the fields that this library reads,
/// and, for an entry read from a feed document, that entry whole, which is
/// what gets served again.
#[derive(Debug)]
pub struct FeedItem {
    pub title: Option<String>,
    pub link: Option<String>,
    pub description: Option<String>,
    pub guid: Option<String>,
    pub pub_date: Option<String>,
    pub content: Option<String>,
    pub source: Option<Arc<rss::Item>>,
}

/// Relies on `Arc::clone`: another pointer to the same value.
#[verifier::external_body]
fn share(a: &Arc<rss::Item>) -> (r: Arc<rss::Item>)
    ensures
        r == *a,
{
    Arc::clone(a)
}

/// Copies an optional text field.
pub fn copy_text(o: &Option<String>) -> (r: Option<String>)
    ensures
        r == *o,
{
    match o {
        Some(s) => Some(s.clone()),
        None => None,
    }
}

impl FeedItem {
    /// A field-by-field copy of the item.
    pub fn copy(&self) -> (r: FeedItem)
        ensures
            r == *self,
    {
        FeedItem {
            title: copy_text(&self.title),
            link: copy_text(&self.link),
            description: copy_text(&self.description),
            guid: copy_text(&self.guid),
            pub_date: copy_text(&self.pub_date),
            content: copy_text(&self.content),
            source: match &self.source {
                Some(a) => Some(share(a)),
                None => None,
            },
        }
    }
}

/// The character of a decimal digit.
pub open spec fn digit_char(d: nat) -> char {
    if d == 0 {
        '0'
    } else if d == 1 {
        '1'
    } else if d == 2 {
        '2'
    } else if d == 3 {
        '3'
    } else if d == 4 {
        '4'
    } else if d == 5 {
        '5'
    } else if d == 6 {
        '6'
    } else if d == 7 {
        '7'
    } else if d == 8 {
        '8'
    } else {
        '9'
    }
}

/// The decimal digits of a natural number, most significant first.
pub open spec fn digits(n: nat) -> Seq<char>
    decreases n,
{
    if n < 10 {
        seq![digit_char(n)]
    } else {
        digits(n / 10).push(digit_char(n % 10))
    }
}

/// The decimal text of an integer, with a leading minus sign when negative.
pub open spec fn decimal(n: int) -> Seq<char> {
    if n < 0 {
        seq!['-'] + digits((-n) as nat)
    } else {
        digits(n as nat)
    }
}

/// Whether an item carries a field from which its identity is derived
/// without looking at the clock: a guid, a link or a title.
pub open spec fn has_stable_identity(item: FeedItem) -> bool {
    item.guid is Some || item.link is Some || item.title is Some
}

/// The identity of an item whose fields give one: its guid, else its link,
/// else its title and publication date joined by a dash ("no-date" when the
/// date is missing).
pub open spec fn stable_identity(item: FeedItem) -> Seq<char> {
    match item.guid {
        Some(g) => g@,
        None => match item.link {
            Some(l) => l@,
            None => {
                let date = match item.pub_date {
                    Some(d) => d@,
                    None => "no-date"@,
                };
                item.title->Some_0@ + "-"@ + date
            },
        },
    }
}

/// The identity of an item when the clock reads `now` (seconds since the
/// Unix epoch): the stable identity where there is one, else "unknown-"
/// followed by `now` in decimal.
pub open spec fn identity_at(item: FeedItem, now: int) -> Seq<char> {
    if has_stable_identity(item) {
        stable_identity(item)
    } else {
        "unknown-"@ + decimal(now)
    }
}

fn digit_text(d: u64) -> (r: &'static str)
    requires
        d < 10,
    ensures
        r@ == seq![digit_char(d as nat)],
{
    proof {
        reveal_strlit("0");
        reveal_strlit("1");
        reveal_strlit("2");
        reveal_strlit("3");
        reveal_strlit("4");
        reveal_strlit("5");
        reveal_strlit("6");
        reveal_strlit("7");
        reveal_strlit("8");
        reveal_strlit("9");
    }
    if d == 0 {
        "0"
    } else if d == 1 {
        "1"
    } else if d == 2 {
        "2"
    } else if d == 3 {
        "3"
    } else if d == 4 {
        "4"
    } else if d == 5 {
        "5"
    } else if d == 6 {
        "6"
    } else if d == 7 {
        "7"
    } else if d == 8 {
        "8"
    } else {
        "9"
    }
}

fn digits_text(n: u64) -> (r: String)
    ensures
        r@ == digits(n as nat),
    decreases n,
{
    if n < 10 {
        String::from_str(digit_text(n))
    } else {
        let mut s = digits_text(n / 10);
        s.append(digit_text(n % 10));
        s
    }
}

/// The decimal text of `n`.
pub fn decimal_text(n: i64) -> (r: String)
    ensures
        r@ == decimal(n as int),
{
    if n < 0 {
        let magnitude: u64 = (-(n as i128)) as u64;
        let mut s = String::from_str("-");
        proof {
            reveal_strlit("-");
        }
        let d = digits_text(magnitude);
        s.append(d.as_str());
        s
    } else {
        digits_text(n as u64)
    }
}

/// Relies on chrono's `Utc::now().timestamp()`: the current time in whole
/// seconds since the Unix epoch. Nothing is assumed of the value.
#[verifier::external_body]
fn unix_now() -> (r: i64) {
    chrono::Utc::now().timestamp()
}

/// The identity of `item` when the clock reads `now`.
pub fn guid_at(item: &FeedItem, now: i64) -> (r: String)
    ensures
        r@ == identity_at(*item, now as int),
{
    proof {
        reveal_strlit("no-date");
        reveal_strlit("-");
        reveal_strlit("unknown-");
    }
    match &item.guid {
        Some(g) => g.clone(),
        None => match &item.link {
            Some(l) => l.clone(),
            None => match &item.title {
                Some(t) => {
                    let mut s = t.clone();
                    s.append("-");
                    match &item.pub_date {
                        Some(d) => s.append(d.as_str()),
                        None => s.append("no-date"),
                    }
                    s
                },
                None => {
                    let mut s = String::from_str("unknown-");
                    let d = decimal_text(now);
                    s.append(d.as_str());
                    s
                },
            },
        },
    }
}

/// The identity of `item`: its guid, else its link, else its title and date;
/// an item with none of these gets "unknown-" and the current time.
pub fn item_to_guid(item: &FeedItem) -> (r: String)
    ensures
        exists|now: i64| r@ == identity_at(*item, now as int),
        has_stable_identity(*item) ==> r@ == stable_identity(*item),
{
    if item.guid.is_none() && item.link.is_none() && item.title.is_none() {
        let now = unix_now();
        guid_at(item, now)
    } else {
        guid_at(item, 0)
    }
}

/// Identity determinism: two items that agree on guid, link, title and
/// date, and carry at least one of guid, link or title, get the same
/// identity whenever it is computed.
pub proof fn lemma_identity_deterministic(a: FeedItem, b: FeedItem, t1: int, t2: int)
    requires
        a.guid == b.guid,
        a.link == b.link,
        a.title == b.title,
        a.pub_date == b.pub_date,
        has_stable_identity(a),
    ensures
        identity_at(a, t1) == identity_at(b, t2),
{
}

} // verus!
