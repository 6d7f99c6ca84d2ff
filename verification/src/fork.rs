//! Forks: headless copies of a window on the same profile at the same
//! page. Request validation, fork naming, and the lineage listing.

use vstd::prelude::*;
use crate::text::{decimal, lemma_decimal_injective, push_decimal, push_str};

verus! {

/// Largest number of forks one request may open.
pub const FORK_MAX_COUNT: u32 = 8;

/// The daemon-wide sequence that numbers unnamed forks.
pub struct ForkCounter {
    pub last: u64,
}

impl ForkCounter {
    /// A counter that has handed out no number yet.
    pub fn new() -> (c: ForkCounter)
        ensures
            c.last == 0,
    {
        ForkCounter { last: 0 }
    }
}

/// The next number of the fork sequence: one more than the last one
/// handed out, so numbers start at 1 and never repeat.
pub fn next_fork_seq(counter: &mut ForkCounter) -> (n: u64)
    requires
        old(counter).last < u64::MAX,
    ensures
        n == old(counter).last + 1,
        final(counter).last == n,
{
    counter.last = counter.last + 1;
    counter.last
}

/// Why a fork request was refused.
#[derive(Clone, Copy, Debug, PartialEq, Eq, Structural)]
pub enum ForkError {
    /// The count is zero or above `FORK_MAX_COUNT`.
    BadCount,
    /// The source window shows no page.
    NoPage,
}

impl ForkError {
    pub open spec fn message_spec(self) -> Seq<char> {
        match self {
            ForkError::BadCount => "fork count must be 1..="@ + decimal(FORK_MAX_COUNT as nat),
            ForkError::NoPage => "fork source has no page loaded; navigate it first"@,
        }
    }

    /// The message a refused fork request is answered with.
    pub fn message(&self) -> (m: String)
        ensures
            m@ == self.message_spec(),
    {
        let mut m = String::new();
        match self {
            ForkError::BadCount => {
                push_str(&mut m, "fork count must be 1..=");
                push_decimal(&mut m, FORK_MAX_COUNT as u64);
            },
            ForkError::NoPage => push_str(&mut m, "fork source has no page loaded; navigate it first"),
        }
        m
    }
}

/// The number of forks asked for (one by default), if it is allowed.
pub open spec fn fork_count_spec(count: Option<u32>) -> Result<u32, ForkError> {
    let c = match count {
        Some(c) => c,
        None => 1,
    };
    if c == 0 || c > FORK_MAX_COUNT {
        Err(ForkError::BadCount)
    } else {
        Ok(c)
    }
}

/// Whether a page URL counts as a loaded page to fork.
pub open spec fn has_page(url: Seq<char>) -> bool {
    url.len() != 0 && url != "about:blank"@
}

/// The name of fork `i` of `count`: the requested name alone for a single
/// fork, the name with `-1`, `-2`, ... for several, and
/// `fork-<parent>-<seq>` with a fresh sequence number when unnamed.
pub open spec fn fork_name(name: Option<Seq<char>>, count: u32, i: int, parent: u64, seq: nat) -> Seq<
    char,
> {
    match name {
        Some(n) => if count == 1 {
            n
        } else {
            n + "-"@ + decimal((i + 1) as nat)
        },
        None => "fork-"@ + decimal(parent as nat) + "-"@ + decimal(seq),
    }
}

/// The number of forks asked for, if it is allowed.
pub fn fork_count(count: Option<u32>) -> (r: Result<u32, ForkError>)
    ensures
        r == fork_count_spec(count),
{
    let c = match count {
        Some(c) => c,
        None => 1,
    };
    if c == 0 || c > FORK_MAX_COUNT {
        Err(ForkError::BadCount)
    } else {
        Ok(c)
    }
}

fn append_fork_name(
    out: &mut Vec<String>,
    name: Option<&str>,
    count: u32,
    i: u32,
    parent: u64,
    counter: &mut ForkCounter,
)
    requires
        old(counter).last < u64::MAX,
        i < count,
    ensures
        final(out)@.len() == old(out)@.len() + 1,
        forall|k: int| 0 <= k < old(out)@.len() ==> final(out)@[k] == old(out)@[k],
        final(out)@[old(out)@.len() as int]@ == fork_name(
            match name {
                Some(n) => Some(n@),
                None => None,
            },
            count,
            i as int,
            parent,
            (old(counter).last + 1) as nat,
        ),
        final(counter).last == if name.is_some() {
            old(counter).last
        } else {
            (old(counter).last + 1) as u64
        },
{
    let mut s = String::new();
    match name {
        Some(n) => {
            push_str(&mut s, n);
            if count != 1 {
                push_str(&mut s, "-");
                push_decimal(&mut s, (i as u64) + 1);
            }
        },
        None => {
            let seq = next_fork_seq(counter);
            push_str(&mut s, "fork-");
            push_decimal(&mut s, parent);
            push_str(&mut s, "-");
            push_decimal(&mut s, seq);
        },
    }
    out.push(s);
}

/// Validates a fork request against the source window's page and names
/// the forks; unnamed forks draw consecutive numbers from `counter`.
pub fn fork(
    name: Option<&str>,
    count: Option<u32>,
    source_url: &str,
    parent: u64,
    counter: &mut ForkCounter,
) -> (r: Result<Vec<String>, ForkError>)
    requires
        old(counter).last <= u64::MAX - FORK_MAX_COUNT,
    ensures
        match fork_count_spec(count) {
            Err(e) => r == Err::<Vec<String>, ForkError>(e) && final(counter).last == old(counter).last,
            Ok(c) => if !has_page(source_url@) {
                r == Err::<Vec<String>, ForkError>(ForkError::NoPage) && final(counter).last == old(
                    counter,
                ).last
            } else {
                &&& r is Ok
                &&& r->Ok_0@.len() == c
                &&& forall|i: int|
                    0 <= i < c ==> (#[trigger] r->Ok_0@[i])@ == fork_name(
                        match name {
                            Some(n) => Some(n@),
                            None => None,
                        },
                        c,
                        i,
                        parent,
                        (old(counter).last + i + 1) as nat,
                    )
                &&& final(counter).last == if name.is_some() {
                    old(counter).last
                } else {
                    (old(counter).last + c) as u64
                }
            },
        },
{
    let c = match fork_count(count) {
        Ok(c) => c,
        Err(e) => {
            return Err(e);
        },
    };
    proof {
        reveal_strlit("about:blank");
    }
    let url = crate::text::chars_of(source_url);
    if url.len() == 0 || crate::text::eq_str(&url, "about:blank") {
        return Err(ForkError::NoPage);
    }
    let mut names: Vec<String> = Vec::new();
    let ghost start = counter.last;
    let mut i: u32 = 0;
    while i < c
        invariant
            1 <= c <= FORK_MAX_COUNT,
            start <= u64::MAX - FORK_MAX_COUNT,
            i <= c,
            names@.len() == i,
            counter.last == if name.is_some() {
                start
            } else {
                (start + i) as u64
            },
            forall|k: int|
                0 <= k < i ==> (#[trigger] names@[k])@ == fork_name(
                    match name {
                        Some(n) => Some(n@),
                        None => None,
                    },
                    c,
                    k,
                    parent,
                    (start + k + 1) as nat,
                ),
        decreases c - i,
    {
        append_fork_name(&mut names, name, c, i, parent, counter);
        i += 1;
    }
    Ok(names)
}

/// The forks of one request get pairwise different names.
pub proof fn lemma_fork_names_distinct(
    name: Option<Seq<char>>,
    count: u32,
    parent: u64,
    first_seq: nat,
    i: nat,
    j: nat,
)
    requires
        0 <= i < j < count,
    ensures
        fork_name(name, count, i as int, parent, first_seq + i) != fork_name(
            name,
            count,
            j as int,
            parent,
            first_seq + j,
        ),
{
    let a = fork_name(name, count, i as int, parent, first_seq + i);
    let b = fork_name(name, count, j as int, parent, first_seq + j);
    if a == b {
        match name {
            Some(n) => {
                let p = n + "-"@;
                assert(a == p + decimal((i + 1) as nat));
                assert(b == p + decimal((j + 1) as nat));
                assert(a.skip(p.len() as int) =~= decimal((i + 1) as nat));
                assert(b.skip(p.len() as int) =~= decimal((j + 1) as nat));
                lemma_decimal_injective((i + 1) as nat, (j + 1) as nat);
            },
            None => {
                let p = "fork-"@ + decimal(parent as nat) + "-"@;
                assert(a =~= p + decimal(first_seq + i));
                assert(b =~= p + decimal(first_seq + j));
                assert(a.skip(p.len() as int) =~= decimal(first_seq + i));
                assert(b.skip(p.len() as int) =~= decimal(first_seq + j));
                lemma_decimal_injective(first_seq + i, first_seq + j);
            },
        }
    }
}

// ---------------------------------------------------------------------
// Lineage listing
// ---------------------------------------------------------------------

/// Where a fork came from.
#[derive(Clone, Debug)]
pub struct ForkOrigin {
    pub parent: u64,
    pub name: String,
    /// Creation time, in whole seconds since the Unix epoch.
    pub created_at: u64,
}

/// What the listing reads of one open window.
#[derive(Clone, Debug)]
pub struct WindowEntry {
    pub id: u64,
    pub url: String,
    pub fork_of: Option<ForkOrigin>,
}

/// One line of the fork listing.
#[derive(Clone, Debug)]
pub struct ForkListing {
    pub id: u64,
    pub name: String,
    pub parent: u64,
    /// Whether the parent window is still open.
    pub parent_open: bool,
    pub url: String,
    pub created_at: u64,
}

/// A listing line as plain values.
pub struct ForkListingView {
    pub id: u64,
    pub name: Seq<char>,
    pub parent: u64,
    pub parent_open: bool,
    pub url: Seq<char>,
    pub created_at: u64,
}

impl View for ForkListing {
    type V = ForkListingView;

    open spec fn view(&self) -> ForkListingView {
        ForkListingView {
            id: self.id,
            name: self.name@,
            parent: self.parent,
            parent_open: self.parent_open,
            url: self.url@,
            created_at: self.created_at,
        }
    }
}

/// Whether a window with this id is open.
pub open spec fn has_window(windows: Seq<WindowEntry>, id: u64) -> bool {
    exists|k: int| 0 <= k < windows.len() && (#[trigger] windows[k]).id == id
}

/// The listing line for window `w`, if it is a fork.
pub open spec fn listing_of(w: WindowEntry, windows: Seq<WindowEntry>) -> Option<ForkListingView> {
    match w.fork_of {
        Some(o) => Some(
            ForkListingView {
                id: w.id,
                name: o.name@,
                parent: o.parent,
                parent_open: has_window(windows, o.parent),
                url: w.url@,
                created_at: o.created_at,
            },
        ),
        None => None,
    }
}

/// The listing lines of the first `n` windows, in window order.
pub open spec fn listings(windows: Seq<WindowEntry>, n: int) -> Seq<ForkListingView>
    decreases n,
{
    if n <= 0 {
        Seq::empty()
    } else {
        match listing_of(windows[n - 1], windows) {
            Some(l) => listings(windows, n - 1).push(l),
            None => listings(windows, n - 1),
        }
    }
}

/// Lines ordered by window id.
pub open spec fn sorted_by_id(s: Seq<ForkListingView>) -> bool {
    forall|i: int, j: int| 0 <= i < j < s.len() ==> s[i].id <= s[j].id
}

pub open spec fn views(v: Seq<ForkListing>) -> Seq<ForkListingView> {
    v.map_values(|l: ForkListing| l@)
}

fn window_open(windows: &Vec<WindowEntry>, id: u64) -> (r: bool)
    ensures
        r == has_window(windows@, id),
{
    let mut k: usize = 0;
    while k < windows.len()
        invariant
            k <= windows@.len(),
            forall|j: int| 0 <= j < k ==> (#[trigger] windows@[j]).id != id,
        decreases windows.len() - k,
    {
        if windows[k].id == id {
            assert(windows@[k as int].id == id);
            return true;
        }
        k += 1;
    }
    false
}

/// Inserts `l` after every line whose id is not larger, keeping the
/// lines sorted and stable.
fn insert_sorted(out: &mut Vec<ForkListing>, l: ForkListing)
    requires
        sorted_by_id(views(old(out)@)),
    ensures
        sorted_by_id(views(final(out)@)),
        views(final(out)@).to_multiset() == views(old(out)@).to_multiset().insert(l@),
{
    let mut pos: usize = out.len();
    while pos > 0 && out[pos - 1].id > l.id
        invariant
            pos <= out@.len(),
            forall|j: int| pos <= j < out@.len() ==> (#[trigger] out@[j]).id > l.id,
        decreases pos,
    {
        pos -= 1;
    }
    let ghost before = out@;
    let ghost lv = l@;
    out.insert(pos, l);
    proof {
        let vb = views(before);
        let va = views(out@);
        assert(va =~= vb.insert(pos as int, lv));
        vstd::seq_lib::to_multiset_insert(vb, pos as int, lv);
        assert forall|i: int, j: int| 0 <= i < j < va.len() implies va[i].id <= va[j].id by {
            if j < pos {
                assert(va[i] == vb[i] && va[j] == vb[j]);
            } else if j == pos {
                if i < pos {
                    assert(va[i] == vb[i]);
                    if pos > 0 {
                        assert(vb[pos - 1].id <= lv.id);
                    }
                }
            } else if i == pos {
                assert(va[j] == vb[j - 1]);
            } else if i < pos {
                assert(va[i] == vb[i] && va[j] == vb[j - 1]);
            } else {
                assert(va[i] == vb[i - 1] && va[j] == vb[j - 1]);
            }
        }
    }
}

/// The fork listing: one line per fork window, with whether its parent
/// is still open, ordered by window id.
pub fn list_forks(windows: &Vec<WindowEntry>) -> (r: Vec<ForkListing>)
    ensures
        sorted_by_id(views(r@)),
        views(r@).to_multiset() == listings(windows@, windows@.len() as int).to_multiset(),
{
    let mut out: Vec<ForkListing> = Vec::new();
    let mut k: usize = 0;
    assert(views(out@) =~= listings(windows@, 0));
    while k < windows.len()
        invariant
            k <= windows@.len(),
            sorted_by_id(views(out@)),
            views(out@).to_multiset() == listings(windows@, k as int).to_multiset(),
        decreases windows.len() - k,
    {
        let w = &windows[k];
        match &w.fork_of {
            Some(o) => {
                let open = window_open(windows, o.parent);
                let l = ForkListing {
                    id: w.id,
                    name: o.name.clone(),
                    parent: o.parent,
                    parent_open: open,
                    url: w.url.clone(),
                    created_at: o.created_at,
                };
                proof {
                    vstd::seq_lib::to_multiset_build(listings(windows@, k as int), l@);
                }
                insert_sorted(&mut out, l);
            },
            None => {},
        }
        k += 1;
    }
    out
}

/// No two lines share a window id.
pub open spec fn distinct_ids(s: Seq<ForkListingView>) -> bool {
    forall|i: int, j: int| 0 <= i < j < s.len() ==> s[i].id != s[j].id
}

/// The listing is determined by its lines: two id-ordered arrangements of
/// the same lines, with no window id repeated, are the same, so the
/// listing does not depend on the order in which the windows were walked.
pub proof fn lemma_listing_order_independent(a: Seq<ForkListingView>, b: Seq<ForkListingView>)
    requires
        sorted_by_id(a),
        sorted_by_id(b),
        distinct_ids(a),
        a.to_multiset() == b.to_multiset(),
    ensures
        a == b,
    decreases a.len(),
{
    broadcast use vstd::seq_lib::group_to_multiset_ensures;

    vstd::seq_lib::to_multiset_len(a);
    vstd::seq_lib::to_multiset_len(b);
    if a.len() == 0 {
        assert(b.len() == 0);
        assert(a =~= b);
    } else {
        assert(b.len() == a.len());
        assert(a.contains(a[0]));
        assert(a.to_multiset().count(a[0]) > 0);
        assert(b.contains(a[0]));
        assert(b.contains(b[0]));
        vstd::seq_lib::to_multiset_contains(b, b[0]);
        vstd::seq_lib::to_multiset_contains(a, b[0]);
        vstd::seq_lib::to_multiset_contains(a, a[0]);
        vstd::seq_lib::to_multiset_contains(b, a[0]);
        assert(a.contains(b[0]));
        let i = choose|i: int| 0 <= i < a.len() && a[i] == b[0];
        let j = choose|j: int| 0 <= j < b.len() && b[j] == a[0];
        assert(a[0].id <= a[i].id);
        assert(b[0].id <= b[j].id);
        assert(a[i].id == a[0].id);
        if i != 0 {
            assert(a[0].id != a[i].id);
        }
        assert(a[0] == b[0]);
        let a1 = a.remove(0);
        let b1 = b.remove(0);
        assert(a1.to_multiset() == a.to_multiset().remove(a[0]));
        assert(b1.to_multiset() == b.to_multiset().remove(b[0]));
        assert forall|x: int, y: int| 0 <= x < y < a1.len() implies a1[x].id <= a1[y].id by {
            assert(a1[x] == a[x + 1] && a1[y] == a[y + 1]);
        }
        assert forall|x: int, y: int| 0 <= x < y < b1.len() implies b1[x].id <= b1[y].id by {
            assert(b1[x] == b[x + 1] && b1[y] == b[y + 1]);
        }
        assert forall|x: int, y: int| 0 <= x < y < a1.len() implies a1[x].id != a1[y].id by {
            assert(a1[x] == a[x + 1] && a1[y] == a[y + 1]);
        }
        lemma_listing_order_independent(a1, b1);
        assert(a =~= seq![a[0]] + a1);
        assert(b =~= seq![b[0]] + b1);
    }
}

/// A fork window's listing line: its id, the name, parent and creation
/// time it was forked with, its page, and `parent_open` exactly when some
/// open window (a fork or not) has the parent's id. Windows that are not
/// forks get no line.
pub proof fn lemma_listing_line(w: WindowEntry, windows: Seq<WindowEntry>)
    ensures
        match w.fork_of {
            Some(o) => listing_of(w, windows) matches Some(l) && l.id == w.id && l.name == o.name@
                && l.parent == o.parent && l.url == w.url@ && l.created_at == o.created_at && (
            l.parent_open <==> exists|k: int| 0 <= k < windows.len() && #[trigger] windows[k].id == o.parent),
            None => listing_of(w, windows) is None,
        },
{
}

/// Every line of the listing of the first `n` windows is the line of one
/// of those windows, which is a fork.
pub proof fn lemma_listing_origin(windows: Seq<WindowEntry>, n: int, i: int)
    requires
        0 <= n <= windows.len(),
        0 <= i < listings(windows, n).len(),
    ensures
        exists|k: int|
            #![trigger windows[k]]
            0 <= k < n && windows[k].fork_of is Some && listing_of(windows[k], windows) == Some(
                listings(windows, n)[i],
            ),
    decreases n,
{
    let cur = listings(windows, n);
    let prev = listings(windows, n - 1);
    if i < prev.len() {
        assert(cur[i] == prev[i]);
        lemma_listing_origin(windows, n - 1, i);
        let k = choose|k: int|
            #![trigger windows[k]]
            0 <= k < n - 1 && windows[k].fork_of is Some && listing_of(windows[k], windows) == Some(
                prev[i],
            );
        assert(0 <= k < n && windows[k].fork_of is Some && listing_of(windows[k], windows) == Some(
            cur[i],
        ));
    } else {
        assert(listing_of(windows[n - 1], windows) is Some);
        assert(cur[i] == listing_of(windows[n - 1], windows).unwrap());
        assert(windows[n - 1].fork_of is Some);
    }
}

/// How many forks a request opens: one by default, any count from one to
/// eight as asked, and none (a refusal) for zero or more than eight.
pub proof fn lemma_fork_count(count: Option<u32>)
    ensures
        count.is_none() ==> fork_count_spec(count) == Ok::<u32, ForkError>(1),
        match count {
            Some(c) => (1 <= c <= 8 ==> fork_count_spec(count) == Ok::<u32, ForkError>(c)) && (
            (c == 0 || c > 8) ==> fork_count_spec(count) == Err::<u32, ForkError>(
                ForkError::BadCount,
            )),
            None => true,
        },
{
}

} // verus!
