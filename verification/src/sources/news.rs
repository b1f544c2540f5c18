//! The Arch Linux news feed, shown before updating: this is where "manual
//! intervention required" gets announced. The program fetches the feed; this
//! reads it.

use vstd::prelude::*;

use crate::sources::xml::{is_name, name_is, opt_view, xml_events, xml_events_of, xml_views, XmlEvent, XmlView};
use crate::text::{contains_str, has_substring, lowercase, string_of, string_of_all, to_chars, to_lower, trim, trim_chars};

verus! {

broadcast use vstd::string::group_string_axioms;

/// Where the feed lives.
pub const FEED: &'static str = "https://archlinux.org/feeds/news/";

/// One news item.
#[derive(Debug)]
pub struct NewsItem {
    pub title: String,
    pub date: String,
    pub link: String,
}

/// A news item as values.
pub struct NewsView {
    pub title: Seq<char>,
    pub date: Seq<char>,
    pub link: Seq<char>,
}

impl View for NewsItem {
    type V = NewsView;

    open spec fn view(&self) -> NewsView {
        NewsView { title: self.title@, date: self.date@, link: self.link@ }
    }
}

pub open spec fn news_views(v: Seq<NewsItem>) -> Seq<NewsView> {
    Seq::new(v.len(), |i: int| v[i]@)
}

impl Clone for NewsItem {
    fn clone(&self) -> (r: Self)
        ensures
            r@ == self@,
    {
        NewsItem {
            title: crate::text::copy_str(self.title.as_str()),
            date: crate::text::copy_str(self.date.as_str()),
            link: crate::text::copy_str(self.link.as_str()),
        }
    }
}

/// The wording Arch uses when an update needs a human, in a lower-cased title.
pub open spec fn attention_words(t: Seq<char>) -> bool {
    has_substring(t, "manual intervention"@) || has_substring(t, "requires"@) || has_substring(
        t,
        "action required"@,
    )
}

impl NewsItem {
    /// The wording Arch uses when an update needs a human.
    pub fn needs_attention(&self) -> (r: bool)
        ensures
            r == attention_words(lowercase(self.title@)),
    {
        let t = to_lower(self.title.as_str());
        contains_str(t.as_str(), "manual intervention") || contains_str(t.as_str(), "requires")
            || contains_str(t.as_str(), "action required")
    }
}

/// Which text of an item is being read.
#[derive(Clone, Copy, Debug)]
pub enum NewsField {
    Unset,
    Title,
    Date,
    Link,
}

/// Where reading the feed stands.
pub struct FeedState {
    pub items: Seq<NewsView>,
    pub cur: Option<NewsView>,
    pub field: NewsField,
}

pub open spec fn feed_start() -> FeedState {
    FeedState { items: Seq::empty(), cur: None, field: NewsField::Unset }
}

/// A date as the feed gives it, cut to its first 16 characters
/// ("Sat, 21 Jun 2025").
pub open spec fn short_date(t: Seq<char>) -> Seq<char> {
    if t.len() <= 16 {
        t
    } else {
        t.take(16)
    }
}

pub open spec fn news_event(st: FeedState, ev: XmlView) -> FeedState {
    match ev {
        XmlView::Start(tag, _) => if is_name(tag, "item"@) {
            FeedState { cur: Some(NewsView { title: Seq::empty(), date: Seq::empty(), link: Seq::empty() }), ..st }
        } else if is_name(tag, "title"@) {
            FeedState { field: NewsField::Title, ..st }
        } else if is_name(tag, "pubDate"@) {
            FeedState { field: NewsField::Date, ..st }
        } else if is_name(tag, "link"@) {
            FeedState { field: NewsField::Link, ..st }
        } else {
            FeedState { field: NewsField::Unset, ..st }
        },
        XmlView::Text(t) => match (st.cur, t) {
            (Some(item), Some(text)) => FeedState {
                cur: Some(
                    match st.field {
                        NewsField::Title => NewsView { title: trim(text), ..item },
                        NewsField::Date => NewsView { date: short_date(trim(text)), ..item },
                        NewsField::Link => NewsView { link: trim(text), ..item },
                        NewsField::Unset => item,
                    },
                ),
                ..st
            },
            _ => st,
        },
        XmlView::End(tag) => if is_name(tag, "item"@) && st.cur is Some {
            FeedState { items: st.items.push(st.cur->0), cur: None, field: NewsField::Unset }
        } else {
            FeedState { field: NewsField::Unset, ..st }
        },
        XmlView::Other => st,
    }
}

pub open spec fn read_feed(evs: Seq<XmlView>) -> FeedState
    decreases evs.len(),
{
    if evs.len() == 0 {
        feed_start()
    } else {
        news_event(read_feed(evs.drop_last()), evs.last())
    }
}

/// The items of a feed, given its events.
pub open spec fn items_of(evs: Seq<XmlView>) -> Seq<NewsView> {
    read_feed(evs).items
}

fn blank_item() -> (r: NewsItem)
    ensures
        r@ == (NewsView { title: Seq::empty(), date: Seq::empty(), link: Seq::empty() }),
{
    NewsItem { title: String::new(), date: String::new(), link: String::new() }
}

/// The items a list of feed events describes: each `<item>` with its
/// title, link and date, in order.
pub fn items_from_events(evs: &Vec<XmlEvent>) -> (r: Vec<NewsItem>)
    ensures
        news_views(r@) == items_of(xml_views(evs@)),
{
    let ghost ev = xml_views(evs@);
    let mut items: Vec<NewsItem> = Vec::new();
    let mut in_item = false;
    let mut cur = blank_item();
    let mut field = NewsField::Unset;
    assert(news_views(items@) =~= Seq::<NewsView>::empty());
    let mut i: usize = 0;
    while i < evs.len()
        invariant
            ev == xml_views(evs@),
            i <= evs@.len(),
            read_feed(ev.take(i as int)) == (FeedState {
                items: news_views(items@),
                cur: if in_item { Some(cur@) } else { None },
                field: field,
            }),
        decreases evs@.len() - i,
    {
        assert(ev.take(i + 1).drop_last() =~= ev.take(i as int));
        assert(ev[i as int] == evs@[i as int]@);
        match &evs[i] {
            XmlEvent::Start(tag, _) => {
                if name_is(tag, "item") {
                    cur = blank_item();
                    in_item = true;
                } else if name_is(tag, "title") {
                    field = NewsField::Title;
                } else if name_is(tag, "pubDate") {
                    field = NewsField::Date;
                } else if name_is(tag, "link") {
                    field = NewsField::Link;
                } else {
                    field = NewsField::Unset;
                }
            },
            XmlEvent::Text(t) => {
                if in_item {
                    if let Some(raw) = t {
                        let w = trim_chars(&to_chars(raw.as_str()));
                        match field {
                            NewsField::Title => {
                                cur.title = string_of_all(&w);
                            },
                            NewsField::Date => {
                                let keep = if w.len() <= 16 { w.len() } else { 16 };
                                cur.date = string_of(&w, 0, keep);
                                assert(w@.subrange(0, keep as int) =~= short_date(w@));
                            },
                            NewsField::Link => {
                                cur.link = string_of_all(&w);
                            },
                            NewsField::Unset => {},
                        }
                    }
                }
            },
            XmlEvent::End(tag) => {
                if name_is(tag, "item") && in_item {
                    let mut done = blank_item();
                    std::mem::swap(&mut done, &mut cur);
                    let ghost before = items@;
                    let ghost dv = done@;
                    items.push(done);
                    assert(news_views(items@) =~= news_views(before).push(dv));
                    in_item = false;
                }
                field = NewsField::Unset;
            },
            XmlEvent::Other => {},
        }
        i = i + 1;
    }
    assert(ev.take(i as int) =~= ev);
    items
}

/// The items of an RSS document.
pub fn parse(rss: &str) -> (r: Vec<NewsItem>)
    ensures
        news_views(r@) == items_of(xml_events_of(rss@)),
{
    let evs = xml_events(rss);
    items_from_events(&evs)
}

} // verus!
