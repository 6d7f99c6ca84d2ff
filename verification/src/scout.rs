//! `scout`: a bounded same-host crawl in one window. Starting from one
//! URL it visits pages breadth-first, harvests each page's text and links,
//! and queues same-host links (optionally matching a filter) for the next
//! level, within depth, page and time limits. The caller loads pages and
//! runs the harvest script; this state machine decides what comes next.

use vstd::prelude::*;
use crate::text::{
    chars_of, contains_exec, opt_view, contains_seq, push_decimal, push_str, to_lowercase, unicode_lowercase,
    decimal,
};
use crate::try_until::deadline_after;
use crate::url::{host_of, host_of_spec};

verus! {

pub const SCOUT_MAX_DEPTH: u32 = 2;

pub const SCOUT_MAX_PAGES: u32 = 10;

pub const SCOUT_DEFAULT_TIMEOUT_MS: u64 = 60000;

/// Cap on the wait for one page load, in milliseconds.
pub const LOAD_SLICE_MS: u64 = 15000;

/// Cap on the wait for one harvest, in milliseconds.
pub const HARVEST_SLICE_MS: u64 = 10000;

pub const HARVEST_BODY: &'static str = r#"
const text = (document.body ? document.body.innerText : '')
  .replace(/[ \t]+/g, ' ').replace(/\n{3,}/g, '\n\n').trim();
const seen = new Set();
const links = [];
for (const a of document.querySelectorAll('a[href]')) {
  if (links.length >= 40) break;
  const href = a.href;
  if (!href || href.startsWith('javascript:') || seen.has(href)) continue;
  const t = (a.innerText || a.getAttribute('aria-label') || '').replace(/\s+/g, ' ').trim().slice(0, 80);
  if (!t || t.length < 2) continue;
  seen.add(href);
  links.push({ url: href, text: t });
}
return { url: location.href, title: document.title,
          text: text.slice(0, BUDGET), truncated: text.length > BUDGET, links };"#;

/// The crawl's limits after clamping what was asked for.
#[derive(Clone, Copy, Debug)]
pub struct ScoutLimits {
    pub depth: u32,
    pub max_pages: u32,
    pub budget: usize,
}

/// A link found on a page: its target and text, as far as the page gave
/// them.
#[derive(Clone, Debug)]
pub struct ScoutLink {
    pub url: Option<String>,
    pub text: Option<String>,
}

/// What harvesting a page gave.
#[derive(Clone, Debug)]
pub enum Harvest {
    /// A result, with its list of links if it had one.
    Page { links: Option<Vec<ScoutLink>> },
    /// A reply without a value.
    Empty,
    /// An error message.
    Failed(String),
}

/// One entry of the crawl report, in crawl order.
#[derive(Clone, Debug)]
pub enum ScoutPage {
    /// The harvested page value, found at this depth.
    Harvested { depth: u32 },
    /// A page that could not be loaded or harvested.
    Failed { url: String, error: String },
}

/// What the caller does next.
#[derive(Clone, Debug)]
pub enum ScoutAction {
    /// Wait for the window's first load (it opened on the start URL).
    AwaitFirstLoad { timeout_ms: u64 },
    /// Navigate the window to `url`.
    Navigate { url: String, timeout_ms: u64 },
    /// Close the window and report the pages and the number of URLs visited.
    Finish { visited: usize },
}

/// A queued URL and the crawl level it was found at.
#[derive(Clone, Debug)]
pub struct QueuedUrl {
    pub url: String,
    pub level: u32,
}

/// Why a crawl was refused.
#[derive(Clone, Debug)]
pub struct ScoutError {
    pub url: String,
}

impl ScoutError {
    /// The message a refused crawl is answered with.
    pub fn message(&self) -> (m: String)
        ensures
            m@ == "scout needs an absolute http(s) URL, got "@ + self.url@,
    {
        let mut m = String::new();
        push_str(&mut m, "scout needs an absolute http(s) URL, got ");
        push_str(&mut m, self.url.as_str());
        m
    }
}

/// The state of one crawl.
pub struct Scout {
    pub host: String,
    pub filter: Option<String>,
    pub limits: ScoutLimits,
    pub deadline_ms: u64,
    pub queue: Vec<QueuedUrl>,
    /// Index of the next queued URL.
    pub head: usize,
    pub visited: Vec<String>,
    pub pages: Vec<ScoutPage>,
    /// The window's opening navigation already targets the first URL.
    pub first_pending: bool,
    /// The URL being loaded or harvested, with its level.
    pub current: Option<QueuedUrl>,
}

/// Clamped limits: depth at most `SCOUT_MAX_DEPTH` (one by default),
/// pages within `1..=SCOUT_MAX_PAGES` (five by default), text budget within
/// `200..=20000` characters (2000 by default).
pub open spec fn limits_spec(depth: Option<u32>, max_pages: Option<u32>, budget: Option<usize>) -> (
    u32,
    u32,
    usize,
) {
    let d = match depth {
        Some(d) => d,
        None => 1,
    };
    let p = match max_pages {
        Some(p) => p,
        None => 5,
    };
    let b = match budget {
        Some(b) => b,
        None => 2000,
    };
    (
        if d > SCOUT_MAX_DEPTH {
            SCOUT_MAX_DEPTH
        } else {
            d
        },
        if p < 1 {
            1
        } else if p > SCOUT_MAX_PAGES {
            SCOUT_MAX_PAGES
        } else {
            p
        },
        if b < 200 {
            200
        } else if b > 20000 {
            20000
        } else {
            b
        },
    )
}

/// What remains of the budget at `now`, capped at `cap`, at least one
/// millisecond.
pub open spec fn remaining_ms_spec(deadline: u64, now: u64, cap: u64) -> u64 {
    let left = if now < deadline {
        (deadline - now) as u64
    } else {
        0
    };
    let c = if left > cap {
        cap
    } else {
        left
    };
    if c < 1 {
        1
    } else {
        c
    }
}

/// The views of a list of strings.
pub open spec fn string_views(v: Seq<String>) -> Seq<Seq<char>> {
    v.map_values(|s: String| s@)
}

/// Whether a link found on a page at this crawl state is queued: it has a
/// target on the crawl's host, matches the filter (case-insensitively, in
/// its target or its text) when there is one, and was not visited yet.
pub open spec fn link_queued(
    link: ScoutLink,
    host: Seq<char>,
    filter: Option<Seq<char>>,
    visited: Seq<Seq<char>>,
) -> bool {
    match link.url {
        None => false,
        Some(href) => {
            let text = match link.text {
                Some(t) => t@,
                None => Seq::empty(),
            };
            &&& host_of_spec(href@) == Some(host)
            &&& match filter {
                Some(f) => contains_seq(unicode_lowercase(href@), unicode_lowercase(f))
                    || contains_seq(unicode_lowercase(text), unicode_lowercase(f)),
                None => true,
            }
            &&& !visited.contains(href@)
        },
    }
}

/// The queue entries the first `n` links add, in link order.
pub open spec fn queued_from(
    links: Seq<ScoutLink>,
    n: int,
    level: u32,
    host: Seq<char>,
    filter: Option<Seq<char>>,
    visited: Seq<Seq<char>>,
) -> Seq<(Seq<char>, u32)>
    decreases n,
{
    if n <= 0 {
        Seq::empty()
    } else {
        let prev = queued_from(links, n - 1, level, host, filter, visited);
        if link_queued(links[n - 1], host, filter, visited) {
            prev.push((links[n - 1].url.unwrap()@, (level + 1) as u32))
        } else {
            prev
        }
    }
}

pub open spec fn queue_views(q: Seq<QueuedUrl>) -> Seq<(Seq<char>, u32)> {
    q.map_values(|e: QueuedUrl| (e.url@, e.level))
}

impl Scout {
    /// The crawl state is consistent: the queue position is in range, no
    /// URL was visited twice, the page count stays within the limit (and
    /// below it while a page is in progress, whose URL is visited), every
    /// queued URL is on the crawl's host at a level within the depth limit,
    /// and every reported page was found within the depth limit.
    pub open spec fn wf(&self) -> bool {
        &&& self.head <= self.queue@.len()
        &&& forall|i: int|
            0 <= i < self.pages@.len() ==> (#[trigger] self.pages@[i] matches ScoutPage::Harvested {
                depth,
            } ==> depth <= self.limits.depth)
        &&& string_views(self.visited@).no_duplicates()
        &&& self.pages@.len() <= self.limits.max_pages
        &&& self.current matches Some(c) ==> self.pages@.len() < self.limits.max_pages
            && string_views(self.visited@).contains(c.url@) && c.level <= self.limits.depth
        &&& forall|i: int|
            0 <= i < self.queue@.len() ==> host_of_spec((#[trigger] self.queue@[i]).url@) == Some(
                self.host@,
            ) && self.queue@[i].level <= self.limits.depth
    }
}

/// The crawl's clamped limits.
pub fn scout_limits(depth: Option<u32>, max_pages: Option<u32>, budget: Option<usize>) -> (l:
    ScoutLimits)
    ensures
        (l.depth, l.max_pages, l.budget) == limits_spec(depth, max_pages, budget),
{
    let d = match depth {
        Some(d) => d,
        None => 1,
    };
    let p = match max_pages {
        Some(p) => p,
        None => 5,
    };
    let b = match budget {
        Some(b) => b,
        None => 2000,
    };
    ScoutLimits {
        depth: if d > SCOUT_MAX_DEPTH {
            SCOUT_MAX_DEPTH
        } else {
            d
        },
        max_pages: if p < 1 {
            1
        } else if p > SCOUT_MAX_PAGES {
            SCOUT_MAX_PAGES
        } else {
            p
        },
        budget: if b < 200 {
            200
        } else if b > 20000 {
            20000
        } else {
            b
        },
    }
}

/// What remains of the budget at `now_ms`, capped at `cap`, at least one
/// millisecond.
pub fn remaining_ms(deadline_ms: u64, now_ms: u64, cap: u64) -> (r: u64)
    ensures
        r == remaining_ms_spec(deadline_ms, now_ms, cap),
{
    let left = if now_ms < deadline_ms {
        deadline_ms - now_ms
    } else {
        0
    };
    let c = if left > cap {
        cap
    } else {
        left
    };
    if c < 1 {
        1
    } else {
        c
    }
}

fn is_visited(visited: &Vec<String>, url: &str) -> (r: bool)
    ensures
        r == string_views(visited@).contains(url@),
{
    let mut i: usize = 0;
    while i < visited.len()
        invariant
            i <= visited@.len(),
            forall|j: int| 0 <= j < i ==> (#[trigger] visited@[j])@ != url@,
        decreases visited.len() - i,
    {
        let v = chars_of(visited[i].as_str());
        if crate::text::eq_str(&v, url) {
            assert(string_views(visited@)[i as int] == url@);
            return true;
        }
        i += 1;
    }
    proof {
        if string_views(visited@).contains(url@) {
            let j = choose|j: int| 0 <= j < string_views(visited@).len() && string_views(visited@)[j] == url@;
            assert(visited@[j]@ == url@);
        }
    }
    false
}

/// The harvest script for a text budget.
pub fn harvest_script(budget: usize) -> (js: String)
    ensures
        js@ == "\nconst BUDGET = "@ + decimal(budget as nat) + ";"@ + HARVEST_BODY@,
{
    let mut js = String::new();
    push_str(&mut js, "\nconst BUDGET = ");
    push_decimal(&mut js, budget as u64);
    push_str(&mut js, ";");
    push_str(&mut js, HARVEST_BODY);
    js
}

/// The first queue position at or after `i` whose URL was not visited,
/// or the queue's length.
pub open spec fn next_unvisited(q: Seq<QueuedUrl>, i: int, visited: Seq<Seq<char>>) -> int
    decreases q.len() - i,
{
    if i < 0 || i >= q.len() {
        q.len() as int
    } else if !visited.contains(q[i].url@) {
        i
    } else {
        next_unvisited(q, i + 1, visited)
    }
}

proof fn lemma_next_unvisited_bounds(q: Seq<QueuedUrl>, i: int, visited: Seq<Seq<char>>)
    requires
        0 <= i <= q.len(),
    ensures
        i <= next_unvisited(q, i, visited) <= q.len(),
        next_unvisited(q, i, visited) < q.len() ==> !visited.contains(
            q[next_unvisited(q, i, visited)].url@,
        ),
    decreases q.len() - i,
{
    if i < q.len() && visited.contains(q[i].url@) {
        lemma_next_unvisited_bounds(q, i + 1, visited);
    }
}

/// Starts a crawl at `url` (depth 0), or refuses a URL that is not an
/// absolute http(s) URL with a host. The budget is `timeout_ms`
/// (a minute by default, at least one millisecond) from `now_ms`, the
/// deadline saturating at the clock's last millisecond.
pub fn scout(
    url: &str,
    depth: Option<u32>,
    max_pages: Option<u32>,
    filter: Option<String>,
    budget: Option<usize>,
    timeout_ms: Option<u64>,
    now_ms: u64,
) -> (r: Result<Scout, ScoutError>)
    ensures
        match r {
            Err(e) => host_of_spec(url@).is_none() && e.url@ == url@,
            Ok(s) => {
                &&& host_of_spec(url@) == Some(s.host@)
                &&& s.wf()
                &&& (s.limits.depth, s.limits.max_pages, s.limits.budget) == limits_spec(
                    depth,
                    max_pages,
                    budget,
                )
                &&& opt_view(s.filter) == opt_view(filter)
                &&& s.deadline_ms == deadline_after(
                    now_ms,
                    match timeout_ms {
                        Some(t) => if t < 1 {
                            1
                        } else {
                            t
                        },
                        None => SCOUT_DEFAULT_TIMEOUT_MS,
                    },
                )
                &&& queue_views(s.queue@) == seq![(url@, 0u32)]
                &&& s.head == 0
                &&& s.visited@.len() == 0
                &&& s.pages@.len() == 0
                &&& s.first_pending
                &&& s.current.is_none()
            },
        },
{
    let limits = scout_limits(depth, max_pages, budget);
    let host = match host_of(url) {
        Some(h) => h,
        None => {
            return Err(ScoutError { url: url.to_owned() });
        },
    };
    let total = match timeout_ms {
        Some(t) => if t < 1 {
            1
        } else {
            t
        },
        None => SCOUT_DEFAULT_TIMEOUT_MS,
    };
    let mut queue: Vec<QueuedUrl> = Vec::new();
    queue.push(QueuedUrl { url: url.to_owned(), level: 0 });
    let s = Scout {
        host,
        filter,
        limits,
        deadline_ms: now_ms.saturating_add(total),
        queue,
        head: 0,
        visited: Vec::new(),
        pages: Vec::new(),
        first_pending: true,
        current: None,
    };
    assert(queue_views(s.queue@) =~= seq![(url@, 0u32)]);
    assert(string_views(s.visited@) =~= Seq::<Seq<char>>::empty());
    Ok(s)
}

/// Whether a link passes the crawl filter, given the lower-cased link
/// target, link text and filter: the filter occurs in the target or in
/// the text.
pub fn link_matches_filter(href_lower: &Vec<char>, text_lower: &Vec<char>, filter_lower: &Vec<char>) -> (r:
    bool)
    ensures
        r == (contains_seq(href_lower@, filter_lower@) || contains_seq(text_lower@, filter_lower@)),
{
    contains_exec(href_lower, filter_lower) || contains_exec(text_lower, filter_lower)
}

impl Scout {
    /// Decides the next move at `now_ms`: the crawl is over when the page
    /// limit is reached, the deadline has passed or the queue is empty;
    /// queued URLs already visited are passed over; the next URL is marked
    /// visited and loaded (the first one is already loading).
    pub fn step(&mut self, now_ms: u64) -> (a: ScoutAction)
        requires
            old(self).wf(),
            old(self).current.is_none(),
        ensures
            final(self).wf(),
            final(self).host == old(self).host,
            final(self).filter == old(self).filter,
            final(self).limits == old(self).limits,
            final(self).deadline_ms == old(self).deadline_ms,
            final(self).queue@ == old(self).queue@,
            final(self).pages@ == old(self).pages@,
            ({
                let q = old(self).queue@;
                let seen = string_views(old(self).visited@);
                if old(self).pages@.len() >= old(self).limits.max_pages || now_ms >= old(
                    self,
                ).deadline_ms {
                    &&& a matches ScoutAction::Finish { visited }
                    &&& visited == old(self).visited@.len()
                    &&& final(self).head == old(self).head
                    &&& final(self).visited@ == old(self).visited@
                    &&& final(self).first_pending == old(self).first_pending
                    &&& final(self).current.is_none()
                } else {
                    let k = next_unvisited(q, old(self).head as int, seen);
                    if k >= q.len() {
                        &&& a matches ScoutAction::Finish { visited }
                        &&& visited == old(self).visited@.len()
                        &&& final(self).head == q.len()
                        &&& final(self).visited@ == old(self).visited@
                        &&& final(self).first_pending == old(self).first_pending
                        &&& final(self).current.is_none()
                    } else {
                        let timeout = remaining_ms_spec(old(self).deadline_ms, now_ms, LOAD_SLICE_MS);
                        &&& final(self).head == k + 1
                        &&& !seen.contains(q[k].url@)
                        &&& string_views(final(self).visited@) == seen.push(q[k].url@)
                        &&& final(self).current matches Some(c) && c.url@ == q[k].url@ && c.level
                            == q[k].level
                        &&& !final(self).first_pending
                        &&& if old(self).first_pending {
                            a matches ScoutAction::AwaitFirstLoad { timeout_ms } && timeout_ms
                                == timeout
                        } else {
                            a matches ScoutAction::Navigate { url, timeout_ms } && url@ == q[k].url@
                                && timeout_ms == timeout
                        }
                    }
                }
            }),
    {
        if self.pages.len() as u64 >= self.limits.max_pages as u64 || now_ms >= self.deadline_ms {
            return ScoutAction::Finish { visited: self.visited.len() };
        }
        let ghost start = self.head as int;
        let ghost seen = string_views(self.visited@);
        proof {
            lemma_next_unvisited_bounds(self.queue@, start, seen);
        }
        while self.head < self.queue.len() && is_visited(&self.visited, self.queue[self.head].url.as_str())
            invariant
                start <= self.head <= self.queue@.len(),
                self.wf(),
                self.current.is_none(),
                self.pages@ == old(self).pages@,
                self.limits == old(self).limits,
                self.host == old(self).host,
                self.filter == old(self).filter,
                self.deadline_ms == old(self).deadline_ms,
                self.first_pending == old(self).first_pending,
                self.pages@.len() < self.limits.max_pages,
                self.queue@ == old(self).queue@,
                self.visited@ == old(self).visited@,
                seen == string_views(self.visited@),
                start == old(self).head,
                next_unvisited(self.queue@, start, seen) == next_unvisited(
                    self.queue@,
                    self.head as int,
                    seen,
                ),
            decreases self.queue@.len() - self.head,
        {
            self.head = self.head + 1;
        }
        if self.head >= self.queue.len() {
            return ScoutAction::Finish { visited: self.visited.len() };
        }
        let k = self.head;
        let entry = QueuedUrl { url: self.queue[k].url.clone(), level: self.queue[k].level };
        self.head = self.head + 1;
        let url_for_visit = entry.url.clone();
        let ghost before = string_views(self.visited@);
        self.visited.push(url_for_visit);
        proof {
            assert(string_views(self.visited@) =~= before.push(self.queue@[k as int].url@));
            assert forall|i: int, j: int|
                0 <= i < j < string_views(self.visited@).len() implies string_views(
                self.visited@,
            )[i] != string_views(self.visited@)[j] by {
                if j == before.len() {
                    assert(before[i] == string_views(self.visited@)[i]);
                }
            }
            assert(string_views(self.visited@).contains(entry.url@)) by {
                assert(string_views(self.visited@)[before.len() as int] == entry.url@);
            }
        }
        let timeout = remaining_ms(self.deadline_ms, now_ms, LOAD_SLICE_MS);
        let first = self.first_pending;
        self.first_pending = false;
        let nav_url = entry.url.clone();
        self.current = Some(entry);
        if first {
            ScoutAction::AwaitFirstLoad { timeout_ms: timeout }
        } else {
            ScoutAction::Navigate { url: nav_url, timeout_ms: timeout }
        }
    }

    /// Records how loading the current URL went at `now_ms`: a failed load
    /// is reported as a failed page and the caller steps again; after a
    /// good load the caller harvests, within the returned timeout.
    pub fn page_loaded(&mut self, ok: bool, now_ms: u64) -> (r: Option<u64>)
        requires
            old(self).wf(),
            old(self).current.is_some(),
        ensures
            final(self).wf(),
            final(self).host == old(self).host,
            final(self).filter == old(self).filter,
            final(self).limits == old(self).limits,
            final(self).deadline_ms == old(self).deadline_ms,
            final(self).queue@ == old(self).queue@,
            final(self).head == old(self).head,
            final(self).visited@ == old(self).visited@,
            final(self).first_pending == old(self).first_pending,
            if ok {
                &&& r == Some(remaining_ms_spec(old(self).deadline_ms, now_ms, HARVEST_SLICE_MS))
                &&& final(self).current == old(self).current
                &&& final(self).pages@ == old(self).pages@
            } else {
                &&& r.is_none()
                &&& final(self).current.is_none()
                &&& final(self).pages@.len() == old(self).pages@.len() + 1
                &&& forall|i: int|
                    0 <= i < old(self).pages@.len() ==> final(self).pages@[i] == old(self).pages@[i]
                &&& final(self).pages@.last() matches ScoutPage::Failed { url, error } && url@
                    == old(self).current.unwrap().url@ && error@ == "load failed or timed out"@
            },
    {
        if ok {
            return Some(remaining_ms(self.deadline_ms, now_ms, HARVEST_SLICE_MS));
        }
        let url = match &self.current {
            Some(c) => c.url.clone(),
            None => String::new(),
        };
        let mut error = String::new();
        push_str(&mut error, "load failed or timed out");
        self.pages.push(ScoutPage::Failed { url, error });
        self.current = None;
        None
    }

    /// Records the harvest of the current page. A harvested page below the
    /// depth limit queues its qualifying links (see `link_queued`) one
    /// level deeper, in page order; the page is reported with its depth.
    /// An empty or failed harvest is reported as a failed page.
    pub fn harvested(&mut self, result: Harvest)
        requires
            old(self).wf(),
            old(self).current.is_some(),
        ensures
            final(self).wf(),
            final(self).current.is_none(),
            final(self).host == old(self).host,
            final(self).filter == old(self).filter,
            final(self).limits == old(self).limits,
            final(self).deadline_ms == old(self).deadline_ms,
            final(self).head == old(self).head,
            final(self).visited@ == old(self).visited@,
            final(self).first_pending == old(self).first_pending,
            final(self).pages@.len() == old(self).pages@.len() + 1,
            forall|i: int|
                0 <= i < old(self).pages@.len() ==> final(self).pages@[i] == old(self).pages@[i],
            ({
                let c = old(self).current.unwrap();
                match result {
                    Harvest::Page { links } => {
                        &&& final(self).pages@.last() matches ScoutPage::Harvested { depth } && depth
                            == c.level
                        &&& queue_views(final(self).queue@) == queue_views(old(self).queue@) + match links {
                            Some(ls) => if c.level < old(self).limits.depth {
                                queued_from(
                                    ls@,
                                    ls@.len() as int,
                                    c.level,
                                    old(self).host@,
                                    opt_view(old(self).filter),
                                    string_views(old(self).visited@),
                                )
                            } else {
                                Seq::empty()
                            },
                            None => Seq::empty(),
                        }
                    },
                    Harvest::Empty => {
                        &&& final(self).queue@ == old(self).queue@
                        &&& final(self).pages@.last() matches ScoutPage::Failed { url, error } && url@
                            == c.url@ && error@ == "empty harvest"@
                    },
                    Harvest::Failed(message) => {
                        &&& final(self).queue@ == old(self).queue@
                        &&& final(self).pages@.last() matches ScoutPage::Failed { url, error } && url@
                            == c.url@ && error@ == message@
                    },
                }
            }),
    {
        let (url, level) = match &self.current {
            Some(c) => (c.url.clone(), c.level),
            None => (String::new(), 0),
        };
        match result {
            Harvest::Page { links } => {
                if level < self.limits.depth {
                    match links {
                        Some(ls) => self.queue_links(&ls, level),
                        None => {
                            assert(queue_views(self.queue@) =~= queue_views(self.queue@) + Seq::<(Seq<char>, u32)>::empty());
                        },
                    }
                } else {
                    assert(queue_views(self.queue@) =~= queue_views(self.queue@) + Seq::<(Seq<char>, u32)>::empty());
                }
                self.pages.push(ScoutPage::Harvested { depth: level });
            },
            Harvest::Empty => {
                let mut error = String::new();
                push_str(&mut error, "empty harvest");
                self.pages.push(ScoutPage::Failed { url, error });
            },
            Harvest::Failed(message) => {
                self.pages.push(ScoutPage::Failed { url, error: message });
            },
        }
        self.current = None;
    }

    /// Queues the qualifying links of a page found at `level`.
    fn queue_links(&mut self, links: &Vec<ScoutLink>, level: u32)
        requires
            old(self).wf(),
            level < old(self).limits.depth,
        ensures
            final(self).wf(),
            final(self).host == old(self).host,
            final(self).filter == old(self).filter,
            final(self).limits == old(self).limits,
            final(self).deadline_ms == old(self).deadline_ms,
            final(self).head == old(self).head,
            final(self).visited@ == old(self).visited@,
            final(self).pages@ == old(self).pages@,
            final(self).first_pending == old(self).first_pending,
            final(self).current == old(self).current,
            queue_views(final(self).queue@) == queue_views(old(self).queue@) + queued_from(
                links@,
                links@.len() as int,
                level,
                old(self).host@,
                opt_view(old(self).filter),
                string_views(old(self).visited@),
            ),
    {
        let ghost host = self.host@;
        let ghost filter = opt_view(self.filter);
        let ghost seen = string_views(self.visited@);
        let ghost base = queue_views(self.queue@);
        let host_chars = chars_of(self.host.as_str());
        let lowered_filter: Option<Vec<char>> = match &self.filter {
            Some(f) => {
                let lf = to_lowercase(f.as_str());
                Some(chars_of(lf.as_str()))
            },
            None => None,
        };
        let mut i: usize = 0;
        assert(base =~= base + queued_from(links@, 0, level, host, filter, seen));
        while i < links.len()
            invariant
                i <= links@.len(),
                self.wf(),
                level < self.limits.depth,
                host == self.host@,
                host_chars@ == host,
                filter == opt_view(self.filter),
                match filter {
                    Some(f) => lowered_filter matches Some(lf) && lf@ == unicode_lowercase(f),
                    None => lowered_filter.is_none(),
                },
                seen == string_views(self.visited@),
                self.head == old(self).head,
                self.visited@ == old(self).visited@,
                self.pages@ == old(self).pages@,
                self.first_pending == old(self).first_pending,
                self.current == old(self).current,
                self.limits == old(self).limits,
                self.deadline_ms == old(self).deadline_ms,
                self.host == old(self).host,
                self.filter == old(self).filter,
                base == queue_views(old(self).queue@),
                queue_views(self.queue@) == base + queued_from(links@, i as int, level, host, filter, seen),
            decreases links.len() - i,
        {
            let link = &links[i];
            let ghost before = queue_views(self.queue@);
            let take = self.link_qualifies(link, &host_chars, &lowered_filter);
            if take {
                let href = match &link.url {
                    Some(h) => h.clone(),
                    None => String::new(),
                };
                self.queue.push(QueuedUrl { url: href, level: level + 1 });
                assert(queue_views(self.queue@) =~= before.push((links@[i as int].url.unwrap()@, (level + 1) as u32)));
            }
            i += 1;
        }
    }

    /// Whether a link is queued (`link_queued`), given the crawl host's
    /// characters and the lower-cased filter.
    fn link_qualifies(&self, link: &ScoutLink, host_chars: &Vec<char>, lowered_filter: &Option<Vec<char>>) -> (r: bool)
        requires
            host_chars@ == self.host@,
            match opt_view(self.filter) {
                Some(f) => *lowered_filter matches Some(lf) && lf@ == unicode_lowercase(f),
                None => lowered_filter.is_none(),
            },
        ensures
            r == link_queued(*link, self.host@, opt_view(self.filter), string_views(self.visited@)),
    {
        let href = match &link.url {
            Some(h) => h,
            None => {
                return false;
            },
        };
        let same_host = match host_of(href.as_str()) {
            Some(h) => {
                let hv = chars_of(h.as_str());
                hv.len() == host_chars.len() && crate::text::occurs_at_exec(&hv, host_chars, 0)
            },
            None => false,
        };
        proof {
            if let Some(h) = host_of_spec(href@) {
                if h.len() == self.host@.len() {
                    assert(h.subrange(0, h.len() as int) =~= h);
                }
            }
        }
        if !same_host {
            return false;
        }
        match lowered_filter {
            Some(lf) => {
                proof {
                    reveal_strlit("");
                    assert(""@ =~= Seq::<char>::empty());
                }
                let lh = to_lowercase(href.as_str());
                let text = match &link.text {
                    Some(t) => to_lowercase(t.as_str()),
                    None => to_lowercase(""),
                };
                let lhv = chars_of(lh.as_str());
                let tv = chars_of(text.as_str());
                if !link_matches_filter(&lhv, &tv, lf) {
                    return false;
                }
            },
            None => {},
        }
        !is_visited(&self.visited, href.as_str())
    }
}

/// How a crawl's limits follow the request: a depth up to
/// `SCOUT_MAX_DEPTH` is kept (one by default, larger ones capped); a page
/// count within `1..=SCOUT_MAX_PAGES` is kept (five by default, others
/// brought to the nearest bound); a text budget within `200..=20000`
/// characters is kept (2000 by default, others brought to the nearest
/// bound).
pub proof fn lemma_scout_limits(depth: Option<u32>, max_pages: Option<u32>, budget: Option<usize>)
    ensures
        ({
            let (d, p, b) = limits_spec(depth, max_pages, budget);
            &&& d <= SCOUT_MAX_DEPTH && 1 <= p <= SCOUT_MAX_PAGES && 200 <= b <= 20000
            &&& match depth {
                None => d == 1,
                Some(x) => (x <= SCOUT_MAX_DEPTH ==> d == x) && (x > SCOUT_MAX_DEPTH ==> d
                    == SCOUT_MAX_DEPTH),
            }
            &&& match max_pages {
                None => p == 5,
                Some(x) => (1 <= x <= SCOUT_MAX_PAGES ==> p == x) && (x < 1 ==> p == 1) && (x
                    > SCOUT_MAX_PAGES ==> p == SCOUT_MAX_PAGES),
            }
            &&& match budget {
                None => b == 2000,
                Some(x) => (200 <= x <= 20000 ==> b == x) && (x < 200 ==> b == 200) && (x > 20000
                    ==> b == 20000),
            }
        }),
{
}

/// What remains of the budget: the time left when it lies within
/// `1..=cap`, `cap` when more is left, one millisecond once the deadline
/// has passed (or when `cap` is zero).
pub proof fn lemma_remaining_ms(deadline: u64, now: u64, cap: u64)
    ensures
        now < deadline && deadline - now <= cap ==> remaining_ms_spec(deadline, now, cap)
            == deadline - now,
        now < deadline && deadline - now > cap && cap >= 1 ==> remaining_ms_spec(deadline, now, cap)
            == cap,
        now >= deadline ==> remaining_ms_spec(deadline, now, cap) == 1,
        1 <= remaining_ms_spec(deadline, now, cap),
{
}

} // verus!
