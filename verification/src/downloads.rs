//! Downloads: no dialogs, no manager. Every download goes straight to the
//! download directory, under a name that does not overwrite an existing
//! file, and is recorded in a bounded registry for this daemon session.
//!
//! Directory resolution (first hit wins): the `HWATU_DOWNLOAD_DIR`
//! setting, the XDG user-dirs `XDG_DOWNLOAD_DIR` entry, `~/Downloads`.

use vstd::prelude::*;
use crate::text::{
    chars_of, eq_str, leading, opt_view, trailing, index_after_last, index_of_first, is_prefix, lemma_index_after_last_step,
    occurs_at_exec, path_join, path_join_exec, push_decimal, push_range,
    push_str, starts_with, string_of_range, trim, trim_bounds, trim_quotes,
};

verus! {

/// How many records the registry keeps; the oldest goes first.
pub const REGISTRY_CAP: usize = 200;

/// Where a download stands.
#[derive(Clone, Copy, Debug, PartialEq, Eq, Structural)]
pub enum DownloadState {
    Active,
    Finished,
    Failed,
}

impl DownloadState {
    pub open spec fn name(self) -> Seq<char> {
        match self {
            DownloadState::Active => "active"@,
            DownloadState::Finished => "finished"@,
            DownloadState::Failed => "failed"@,
        }
    }

    /// `active`, `finished` or `failed`.
    pub fn as_str(&self) -> (s: &'static str)
        ensures
            s@ == self.name(),
    {
        match self {
            DownloadState::Active => "active",
            DownloadState::Finished => "finished",
            DownloadState::Failed => "failed",
        }
    }
}

/// The state names reported to clients.
pub proof fn lemma_state_names()
    ensures
        DownloadState::Active.name() == "active"@,
        DownloadState::Finished.name() == "finished"@,
        DownloadState::Failed.name() == "failed"@,
{
}

/// One download's lifecycle record.
#[derive(Debug)]
pub struct DownloadRecord {
    pub id: u64,
    pub url: String,
    pub destination: Option<String>,
    pub state: DownloadState,
    pub error: Option<String>,
    pub window: Option<u64>,
    /// Start time, in whole seconds since the Unix epoch.
    pub started_at: u64,
}

/// A record as plain values.
pub struct RecordView {
    pub id: u64,
    pub url: Seq<char>,
    pub destination: Option<Seq<char>>,
    pub state: DownloadState,
    pub error: Option<Seq<char>>,
    pub window: Option<u64>,
    pub started_at: u64,
}

impl View for DownloadRecord {
    type V = RecordView;

    open spec fn view(&self) -> RecordView {
        RecordView {
            id: self.id,
            url: self.url@,
            destination: opt_view(self.destination),
            state: self.state,
            error: opt_view(self.error),
            window: self.window,
            started_at: self.started_at,
        }
    }
}

fn copy_opt(o: &Option<String>) -> (r: Option<String>)
    ensures
        opt_view(r) == opt_view(*o),
{
    match o {
        Some(s) => Some(s.clone()),
        None => None,
    }
}

impl DownloadRecord {
    /// A copy of the record.
    pub fn copy(&self) -> (r: DownloadRecord)
        ensures
            r@ == self@,
    {
        DownloadRecord {
            id: self.id,
            url: self.url.clone(),
            destination: copy_opt(&self.destination),
            state: self.state,
            error: copy_opt(&self.error),
            window: self.window,
            started_at: self.started_at,
        }
    }
}

/// A change to one record.
#[derive(Debug)]
pub enum RecordUpdate {
    /// The destination was chosen.
    Destination(String),
    /// The download finished at this destination.
    Finished(String),
    /// The download failed with this error.
    Failed(String),
}

/// A change as plain values.
pub enum UpdateView {
    Destination(Seq<char>),
    Finished(Seq<char>),
    Failed(Seq<char>),
}

impl View for RecordUpdate {
    type V = UpdateView;

    open spec fn view(&self) -> UpdateView {
        match self {
            RecordUpdate::Destination(d) => UpdateView::Destination(d@),
            RecordUpdate::Finished(d) => UpdateView::Finished(d@),
            RecordUpdate::Failed(e) => UpdateView::Failed(e@),
        }
    }
}

/// What a change does to a record: a chosen destination is recorded; a
/// finish records the final destination and turns an active download
/// finished (a failed one stays failed); a failure marks the download
/// failed with its error.
pub open spec fn apply_update(r: RecordView, u: UpdateView) -> RecordView {
    match u {
        UpdateView::Destination(d) => RecordView { destination: Some(d), ..r },
        UpdateView::Finished(d) => RecordView {
            destination: Some(d),
            state: if r.state == DownloadState::Active {
                DownloadState::Finished
            } else {
                r.state
            },
            ..r
        },
        UpdateView::Failed(e) => RecordView {
            state: DownloadState::Failed,
            error: Some(e),
            ..r
        },
    }
}

/// The records after adding `r` under id `id`: the oldest record goes
/// when the registry is full.
pub open spec fn after_insert(entries: Seq<RecordView>, r: RecordView, id: u64) -> Seq<RecordView> {
    let kept = if entries.len() >= REGISTRY_CAP {
        entries.drop_first()
    } else {
        entries
    };
    kept.push(RecordView { id, ..r })
}

/// The records after changing the one with id `id`, if there is one.
pub open spec fn after_update(entries: Seq<RecordView>, id: u64, u: UpdateView) -> Seq<RecordView> {
    entries.map_values(
        |e: RecordView|
            if e.id == id {
                apply_update(e, u)
            } else {
                e
            },
    )
}

/// The newest `limit` records (all of them by default), oldest first.
pub open spec fn newest(entries: Seq<RecordView>, limit: Option<usize>) -> Seq<RecordView> {
    let n = match limit {
        Some(l) => if l < entries.len() {
            l as int
        } else {
            entries.len() as int
        },
        None => entries.len() as int,
    };
    entries.skip(entries.len() - n)
}

/// The shape the registry keeps: at most `REGISTRY_CAP` records, with ids
/// in increasing order (so no id occurs twice), none above `last`, the
/// last id handed out.
pub open spec fn registry_ok(records: Seq<RecordView>, last: u64) -> bool {
    &&& records.len() <= REGISTRY_CAP
    &&& forall|i: int, j: int| 0 <= i < j < records.len() ==> records[i].id < records[j].id
    &&& forall|i: int| 0 <= i < records.len() ==> (#[trigger] records[i]).id <= last
}

/// Bounded registry of the downloads this daemon session started.
pub struct Registry {
    entries: Vec<DownloadRecord>,
    /// The last id handed out.
    next_id: u64,
}

impl Registry {
    /// The records, oldest first.
    pub closed spec fn records(&self) -> Seq<RecordView> {
        self.entries@.map_values(|e: DownloadRecord| e@)
    }

    /// The last id handed out (zero before the first).
    pub closed spec fn issued(&self) -> u64 {
        self.next_id
    }

    /// The registry has the shape `registry_ok` describes.
    pub open spec fn wf(&self) -> bool {
        registry_ok(self.records(), self.issued())
    }

    /// The shape over the stored entries.
    spec fn inv(&self) -> bool {
        &&& self.entries@.len() <= REGISTRY_CAP
        &&& forall|i: int, j: int|
            0 <= i < j < self.entries@.len() ==> self.entries@[i].id < self.entries@[j].id
        &&& forall|i: int| 0 <= i < self.entries@.len() ==> (#[trigger] self.entries@[i]).id <= self.next_id
    }

    proof fn lemma_inv_wf(&self)
        ensures
            self.inv() == self.wf(),
    {
        let r = self.records();
        assert(r.len() == self.entries@.len());
        if self.inv() {
            assert forall|i: int, j: int| 0 <= i < j < r.len() implies r[i].id < r[j].id by {
                assert(r[i].id == self.entries@[i].id && r[j].id == self.entries@[j].id);
            }
            assert forall|i: int| 0 <= i < r.len() implies (#[trigger] r[i]).id <= self.next_id by {
                assert(r[i].id == self.entries@[i].id);
            }
        }
        if self.wf() {
            assert forall|i: int, j: int|
                0 <= i < j < self.entries@.len() implies self.entries@[i].id < self.entries@[j].id by {
                assert(r[i].id == self.entries@[i].id && r[j].id == self.entries@[j].id);
            }
            assert forall|i: int|
                0 <= i < self.entries@.len() implies (#[trigger] self.entries@[i]).id <= self.next_id by {
                assert(r[i].id == self.entries@[i].id);
            }
        }
    }

    /// An empty registry.
    pub fn new() -> (r: Registry)
        ensures
            r.wf(),
            r.records().len() == 0,
            r.issued() == 0,
    {
        let r = Registry { entries: Vec::new(), next_id: 0 };
        proof {
            r.lemma_inv_wf();
        }
        r
    }

    /// The last id handed out (zero before the first).
    pub fn last_id(&self) -> (id: u64)
        ensures
            id == self.issued(),
    {
        self.next_id
    }

    /// Records a new download under the next id, which it returns.
    pub fn insert(&mut self, record: DownloadRecord) -> (id: u64)
        requires
            old(self).wf(),
            old(self).issued() < u64::MAX,
        ensures
            final(self).wf(),
            id == old(self).issued() + 1,
            final(self).issued() == id,
            final(self).records() == after_insert(old(self).records(), record@, id),
    {
        proof {
            old(self).lemma_inv_wf();
        }
        let id = self.next_id + 1;
        self.next_id = id;
        let mut record = record;
        record.id = id;
        let ghost before = self.records();
        let ghost rv = record@;
        if self.entries.len() >= REGISTRY_CAP {
            self.entries.remove(0);
            assert(self.records() =~= before.drop_first());
        }
        let ghost kept = self.records();
        self.entries.push(record);
        assert(self.records() =~= kept.push(rv));
        proof {
            self.lemma_inv_wf();
        }
        id
    }

    /// Applies a change to the record with id `id`; nothing happens when
    /// no record has it.
    pub fn update(&mut self, id: u64, u: RecordUpdate)
        requires
            old(self).wf(),
        ensures
            final(self).wf(),
            final(self).issued() == old(self).issued(),
            final(self).records() == after_update(old(self).records(), id, u@),
    {
        proof {
            old(self).lemma_inv_wf();
        }
        let ghost before = self.records();
        let ghost olde = self.entries@;
        let ghost uv = u@;
        let mut i: usize = 0;
        while i < self.entries.len()
            invariant
                i <= self.entries@.len(),
                self.inv(),
                self.next_id == old(self).next_id,
                self.entries@ == olde,
                olde == old(self).entries@,
                before == old(self).records(),
                uv == u@,
                forall|j: int| 0 <= j < i ==> (#[trigger] self.entries@[j]).id != id,
            decreases self.entries@.len() - i,
        {
            if self.entries[i].id == id {
                let mut e = self.entries.remove(i);
                match u {
                    RecordUpdate::Destination(d) => {
                        e.destination = Some(d);
                    },
                    RecordUpdate::Finished(d) => {
                        if e.state == DownloadState::Active {
                            e.state = DownloadState::Finished;
                        }
                        e.destination = Some(d);
                    },
                    RecordUpdate::Failed(err) => {
                        e.state = DownloadState::Failed;
                        e.error = Some(err);
                    },
                }
                assert(e@ == apply_update(olde[i as int]@, uv));
                self.entries.insert(i, e);
                proof {
                    assert(self.entries@ =~= olde.update(i as int, self.entries@[i as int]));
                    assert forall|j: int|
                        0 <= j < self.entries@.len() implies #[trigger] self.records()[j]
                        == after_update(before, id, uv)[j] by {
                        assert(before[j] == olde[j]@);
                        if j != i {
                            if j > i {
                                assert(olde[i as int].id < olde[j].id);
                            }
                            assert(olde[j].id != id);
                        }
                    }
                    assert(self.records() =~= after_update(before, id, uv));
                    assert forall|a: int, b: int|
                        0 <= a < b < self.entries@.len() implies self.entries@[a].id
                        < self.entries@[b].id by {
                        assert(olde[a].id < olde[b].id);
                    }
                    assert forall|a: int|
                        0 <= a < self.entries@.len() implies (#[trigger] self.entries@[a]).id
                        <= self.next_id by {
                        assert(olde[a].id <= self.next_id);
                    }
                    self.lemma_inv_wf();
                }
                return;
            }
            i += 1;
        }
        proof {
            assert forall|j: int|
                0 <= j < self.entries@.len() implies #[trigger] self.records()[j] == after_update(
                before,
                id,
                uv,
            )[j] by {
                assert(before[j] == olde[j]@);
                assert(olde[j].id != id);
            }
            assert(self.records() =~= after_update(before, id, uv));
            self.lemma_inv_wf();
        }
    }

    /// Newest-last list of the most recent `limit` records.
    pub fn list(&self, limit: Option<usize>) -> (r: Vec<DownloadRecord>)
        ensures
            r@.map_values(|e: DownloadRecord| e@) == newest(self.records(), limit),
    {
        let len = self.entries.len();
        let n = match limit {
            Some(l) => if l < len {
                l
            } else {
                len
            },
            None => len,
        };
        let mut out: Vec<DownloadRecord> = Vec::new();
        let mut i = len - n;
        while i < len
            invariant
                len == self.entries@.len(),
                n <= len,
                len - n <= i <= len,
                out@.map_values(|e: DownloadRecord| e@) == self.records().subrange(
                    (len - n) as int,
                    i as int,
                ),
            decreases len - i,
        {
            let ghost before = out@.map_values(|e: DownloadRecord| e@);
            let c = self.entries[i].copy();
            out.push(c);
            assert(out@.map_values(|e: DownloadRecord| e@) =~= before.push(self.records()[i as int]));
            assert(self.records().subrange((len - n) as int, i + 1) =~= self.records().subrange(
                (len - n) as int,
                i as int,
            ).push(self.records()[i as int]));
            i += 1;
        }
        assert(self.records().subrange((len - n) as int, len as int) =~= newest(self.records(), limit));
        out
    }
}

/// The bar message a download event shows, with how many seconds it
/// stays: `saved <path>` for five seconds when a download finishes,
/// `download failed: <error>` for eight when it fails; choosing a
/// destination shows nothing.
pub open spec fn notice_spec(u: UpdateView) -> Option<(Seq<char>, u64)> {
    match u {
        UpdateView::Destination(_) => None,
        UpdateView::Finished(d) => Some(("saved "@ + d, 5u64)),
        UpdateView::Failed(e) => Some(("download failed: "@ + e, 8u64)),
    }
}

/// The bar message a download event shows, and for how many seconds.
pub fn download_notice(u: &RecordUpdate) -> (r: Option<(String, u64)>)
    ensures
        match r {
            Some((message, secs)) => notice_spec(u@) == Some((message@, secs)),
            None => notice_spec(u@).is_none(),
        },
{
    match u {
        RecordUpdate::Destination(_) => None,
        RecordUpdate::Finished(d) => {
            let mut m = String::new();
            push_str(&mut m, "saved ");
            push_str(&mut m, d.as_str());
            Some((m, 5))
        },
        RecordUpdate::Failed(e) => {
            let mut m = String::new();
            push_str(&mut m, "download failed: ");
            push_str(&mut m, e.as_str());
            Some((m, 8))
        },
    }
}

/// The window that shows a download's notice: the window that started
/// the download while it is still open, else the first open window; none
/// when no window is open.
pub open spec fn notice_target_spec(owner: Option<u64>, open: Seq<u64>) -> Option<u64> {
    let first = if open.len() > 0 {
        Some(open[0])
    } else {
        None
    };
    match owner {
        Some(o) => if open.contains(o) {
            Some(o)
        } else {
            first
        },
        None => first,
    }
}

/// The window that shows a download's notice, given the window that
/// started it (if known) and the open windows.
pub fn notice_target(owner: Option<u64>, open: &Vec<u64>) -> (r: Option<u64>)
    ensures
        r == notice_target_spec(owner, open@),
{
    match owner {
        Some(o) => {
            let mut i: usize = 0;
            while i < open.len()
                invariant
                    owner == Some(o),
                    i <= open@.len(),
                    forall|j: int| 0 <= j < i ==> open@[j] != o,
                decreases open.len() - i,
            {
                if open[i] == o {
                    return Some(o);
                }
                i += 1;
            }
        },
        None => {},
    }
    if open.len() > 0 {
        Some(open[0])
    } else {
        None
    }
}

/// Reading back what was written: right after a download is recorded, the
/// newest record is that download under its new id.
pub proof fn lemma_insert_then_newest(entries: Seq<RecordView>, r: RecordView, id: u64)
    ensures
        newest(after_insert(entries, r, id), Some(1)) == seq![RecordView { id, ..r }],
{
    assert(newest(after_insert(entries, r, id), Some(1)) =~= seq![RecordView { id, ..r }]);
}

/// The registry never holds more than `REGISTRY_CAP` records, and a full
/// registry keeps its size on insertion.
pub proof fn lemma_insert_bounded(entries: Seq<RecordView>, r: RecordView, id: u64)
    requires
        entries.len() <= REGISTRY_CAP,
    ensures
        after_insert(entries, r, id).len() <= REGISTRY_CAP,
        entries.len() == REGISTRY_CAP ==> after_insert(entries, r, id).len() == REGISTRY_CAP,
        after_insert(entries, r, id).len() >= 1,
{
}

/// A change to an id no record has leaves the registry as it was.
pub proof fn lemma_update_unknown_id(entries: Seq<RecordView>, id: u64, u: UpdateView)
    requires
        forall|i: int| 0 <= i < entries.len() ==> (#[trigger] entries[i]).id != id,
    ensures
        after_update(entries, id, u) == entries,
{
    assert(after_update(entries, id, u) =~= entries);
}

/// Records are kept after their download ends: a change keeps every
/// record, in place, under its id, and touches no record with another id.
pub proof fn lemma_update_keeps_records(entries: Seq<RecordView>, id: u64, u: UpdateView)
    ensures
        after_update(entries, id, u).len() == entries.len(),
        forall|i: int|
            0 <= i < entries.len() ==> (#[trigger] after_update(entries, id, u)[i]).id
                == entries[i].id,
        forall|i: int|
            0 <= i < entries.len() && entries[i].id != id ==> #[trigger] after_update(
                entries,
                id,
                u,
            )[i] == entries[i],
{
}

// ---------------------------------------------------------------------
// Directory resolution
// ---------------------------------------------------------------------

/// The home directory: `HOME`, or `/tmp` without one.
pub open spec fn home_spec(home_env: Option<Seq<char>>) -> Seq<char> {
    match home_env {
        Some(h) => h,
        None => "/tmp"@,
    }
}

/// The home directory, from the value of `HOME` if it is set.
pub fn home(home_env: Option<String>) -> (h: String)
    ensures
        h@ == home_spec(opt_view(home_env)),
{
    match home_env {
        Some(h) => h,
        None => {
            let mut h = String::new();
            push_str(&mut h, "/tmp");
            h
        },
    }
}

/// `~/rest` is `rest` under the home directory; other paths stand as
/// they are.
pub open spec fn expand_home_spec(raw: Seq<char>, home: Seq<char>) -> Seq<char> {
    if is_prefix("~/"@, raw) {
        path_join(home, raw.skip(2))
    } else {
        raw
    }
}

/// Expands a leading `~/` to the home directory.
pub fn expand_home(raw: &str, home: &str) -> (p: String)
    ensures
        p@ == expand_home_spec(raw@, home@),
{
    proof {
        reveal_strlit("~/");
    }
    let v = chars_of(raw);
    if starts_with(&v, "~/") {
        let rest = string_of_range(&v, 2, v.len());
        assert(v@.subrange(2, v@.len() as int) =~= raw@.skip(2));
        path_join_exec(home, rest.as_str())
    } else {
        raw.to_owned()
    }
}

/// The prefix of the user-dirs entry for the download directory.
pub open spec fn xdg_key() -> Seq<char> {
    "XDG_DOWNLOAD_DIR="@
}

/// The download directory an `XDG_DOWNLOAD_DIR` value names: the home
/// directory itself (`$HOME` or `$HOME/`) disables the entry, as the
/// xdg-user-dirs convention has it; otherwise a path under `$HOME/`, or a
/// literal path.
pub open spec fn xdg_value_dir(value: Seq<char>, home: Seq<char>) -> Option<Seq<char>> {
    if value == "$HOME/"@ || value == "$HOME"@ {
        None
    } else if is_prefix("$HOME/"@, value) {
        Some(path_join(home, value.skip("$HOME/"@.len() as int)))
    } else {
        Some(value)
    }
}

/// The download directory the user-dirs file `text` names: the first
/// line that, trimmed, starts with `XDG_DOWNLOAD_DIR=` decides, with its
/// value's surrounding quotes removed; none when no line does.
pub open spec fn xdg_lookup(text: Seq<char>, home: Seq<char>) -> Option<Seq<char>>
    decreases text.len(),
{
    if text.len() == 0 {
        None
    } else {
        let end = index_of_first(text, seq!['\n']);
        let line = trim(text.take(end as int));
        if is_prefix(xdg_key(), line) {
            xdg_value_dir(trim_quotes(line.skip(xdg_key().len() as int)), home)
        } else if end >= text.len() {
            None
        } else {
            xdg_lookup(text.skip(end + 1 as int), home)
        }
    }
}

proof fn lemma_index_of_first_newline_append(a: Seq<char>, b: Seq<char>)
    requires
        !a.contains('\n'),
    ensures
        index_of_first(a + b, seq!['\n']) == a.len() + index_of_first(b, seq!['\n']),
    decreases a.len(),
{
    if a.len() == 0 {
        assert(a + b =~= b);
    } else {
        assert((a + b)[0] == a[0]);
        assert(a.contains(a[0]));
        assert(!seq!['\n'].contains(a[0])) by {
            if seq!['\n'].contains(a[0]) {
                let w = choose|w: int| 0 <= w < 1 && seq!['\n'][w] == a[0];
            }
        }
        assert((a + b).drop_first() =~= a.drop_first() + b);
        assert(!a.drop_first().contains('\n')) by {
            if a.drop_first().contains('\n') {
                let w = choose|w: int| 0 <= w < a.drop_first().len() && a.drop_first()[w] == '\n';
                assert(a[w + 1] == '\n');
            }
        }
        lemma_index_of_first_newline_append(a.drop_first(), b);
    }
}

/// Splitting `line`, a first line without its newline, off a user-dirs
/// text.
proof fn lemma_xdg_first_line(line: Seq<char>, rest: Seq<char>)
    requires
        !line.contains('\n'),
    ensures
        ({
            let text = line + seq!['\n'] + rest;
            let end = index_of_first(text, seq!['\n']);
            &&& end == line.len()
            &&& end < text.len()
            &&& text.take(end as int) == line
            &&& text.skip(end + 1 as int) == rest
        }),
{
    let nl = seq!['\n'] + rest;
    lemma_index_of_first_newline_append(line, nl);
    assert(nl[0] == '\n');
    assert(seq!['\n'].contains(nl[0])) by {
        assert(seq!['\n'][0] == nl[0]);
    }
    let text = line + seq!['\n'] + rest;
    assert(text =~= line + nl);
    assert(text.take(line.len() as int) =~= line);
    assert(text.skip(line.len() + 1 as int) =~= rest);
}

/// Lines other than the download entry do not matter: a first line that,
/// trimmed, does not start with `XDG_DOWNLOAD_DIR=` (a blank line or a
/// comment, say) is passed over, and the lookup goes on with the lines
/// after it.
pub proof fn lemma_xdg_other_lines_skipped(line: Seq<char>, rest: Seq<char>, home: Seq<char>)
    requires
        !line.contains('\n'),
        !is_prefix(xdg_key(), trim(line)),
    ensures
        xdg_lookup(line + seq!['\n'] + rest, home) == xdg_lookup(rest, home),
{
    lemma_xdg_first_line(line, rest);
}

/// The first download entry decides: when the first line, trimmed,
/// starts with `XDG_DOWNLOAD_DIR=`, the lines after it do not matter.
pub proof fn lemma_xdg_first_entry_decides(line: Seq<char>, rest: Seq<char>, home: Seq<char>)
    requires
        !line.contains('\n'),
        is_prefix(xdg_key(), trim(line)),
    ensures
        xdg_lookup(line + seq!['\n'] + rest, home) == xdg_lookup(line, home),
{
    lemma_xdg_first_line(line, rest);
    lemma_index_of_first_newline_append(line, Seq::empty());
    assert(index_of_first(Seq::<char>::empty(), seq!['\n']) == 0);
    assert(line + Seq::<char>::empty() =~= line);
    assert(index_of_first(line, seq!['\n']) == line.len());
    assert(line.take(line.len() as int) =~= line);
    if line.len() == 0 {
        assert(leading(line, false) == 0);
        assert(trailing(line.skip(0), false) == 0);
        assert(trim(line) =~= Seq::<char>::empty());
        reveal_strlit("XDG_DOWNLOAD_DIR=");
        assert(xdg_key().len() > 0);
    }
    assert(line.len() > 0);
}

/// The download directory named by the user-dirs file, given its text
/// (`None` when it could not be read).
pub fn xdg_download_dir(text: Option<&str>, home: &str) -> (d: Option<String>)
    ensures
        opt_view(d) == match text {
            Some(t) => xdg_lookup(t@, home@),
            None => None,
        },
{
    proof {
        reveal_strlit("XDG_DOWNLOAD_DIR=");
        reveal_strlit("$HOME/");
        reveal_strlit("$HOME");
    }
    let t = match text {
        Some(t) => t,
        None => {
            return None;
        },
    };
    let v = chars_of(t);
    let key = chars_of("XDG_DOWNLOAD_DIR=");
    let n = v.len();
    let mut pos: usize = 0;
    assert(v@.skip(0) =~= v@);
    loop
        invariant
            n == v@.len(),
            text == Some(t),
            v@ == t@,
            key@ == xdg_key(),
            pos <= n,
            xdg_lookup(t@, home@) == xdg_lookup(v@.skip(pos as int), home@),
        decreases n - pos,
    {
        proof {
            reveal_strlit("XDG_DOWNLOAD_DIR=");
            reveal_strlit("$HOME/");
            reveal_strlit("$HOME");
        }
        if pos == n {
            assert(v@.skip(pos as int).len() == 0);
            return None;
        }
        let ghost rest = v@.skip(pos as int);
        assert(rest.len() > 0);
        let mut end = pos;
        while end < n && v[end] != '\n'
            invariant
                pos <= end <= n,
                n == v@.len(),
                rest == v@.skip(pos as int),
                index_of_first(rest, seq!['\n']) == (end - pos) + index_of_first(
                    v@.skip(end as int),
                    seq!['\n'],
                ),
            decreases n - end,
        {
            assert(v@.skip(end as int).drop_first() =~= v@.skip(end + 1));
            assert(v@.skip(end as int)[0] == v@[end as int]);
            assert(!seq!['\n'].contains(v@[end as int])) by {
                if seq!['\n'].contains(v@[end as int]) {
                    let w = choose|w: int| 0 <= w < 1 && seq!['\n'][w] == v@[end as int];
                }
            }
            end += 1;
        }
        proof {
            if end < n {
                assert(v@.skip(end as int)[0] == v@[end as int]);
                assert(seq!['\n'][0] == '\n');
            }
            assert(index_of_first(v@.skip(end as int), seq!['\n']) == 0);
            assert(rest.take((end - pos) as int) =~= v@.subrange(pos as int, end as int));
        }
        let (a, b) = trim_bounds(&v, pos, end, false);
        let ghost line = v@.subrange(a as int, b as int);
        assert(index_of_first(rest, seq!['\n']) == end - pos);
        assert(line == trim(rest.take(end - pos)));
        assert(xdg_key().len() == 17);
        if b - a >= key.len() && occurs_at_exec(&v, &key, a) {
            proof {
                assert(v@.subrange(a as int, b as int).take(key@.len() as int) =~= v@.subrange(
                    a as int,
                    a + key@.len(),
                ));
            }
            let vs = a + key.len();
            let (qa, qb) = trim_bounds(&v, vs, b, true);
            assert(v@.subrange(a as int, b as int).skip(key@.len() as int) =~= v@.subrange(
                vs as int,
                b as int,
            ));
            let ghost value = v@.subrange(qa as int, qb as int);
            assert(is_prefix(xdg_key(), line));
            assert(value == trim_quotes(line.skip(xdg_key().len() as int)));
            assert(xdg_lookup(rest, home@) == xdg_value_dir(value, home@));
            assert("$HOME/"@.len() == 6);
            let val = string_of_range(&v, qa, qb);
            let vv = chars_of(val.as_str());
            if eq_str(&vv, "$HOME/") || eq_str(&vv, "$HOME") {
                return None;
            }
            let home_prefix = chars_of("$HOME/");
            if qb - qa >= 6 && occurs_at_exec(&v, &home_prefix, qa) {
                assert(value.take(6) =~= v@.subrange(qa as int, qa + 6));
                let rel = string_of_range(&v, qa + 6, qb);
                assert(v@.subrange(qa + 6, qb as int) =~= value.skip(6));
                return Some(path_join_exec(home, rel.as_str()));
            }
            proof {
                if is_prefix("$HOME/"@, value) {
                    assert(value.take(6) =~= v@.subrange(qa as int, qa + 6));
                }
            }
            return Some(val);
        }
        proof {
            let line = v@.subrange(a as int, b as int);
            if is_prefix(xdg_key(), line) {
                assert(line.take(key@.len() as int) =~= v@.subrange(a as int, a + key@.len()));
            }
        }
        if end >= n {
            return None;
        }
        assert(rest.skip((end - pos) + 1) =~= v@.skip(end + 1));
        pos = end + 1;
    }
}

/// The download directory: the `HWATU_DOWNLOAD_DIR` setting when it is
/// not blank (trimmed, with `~/` expanded), else the user-dirs entry, else
/// `Downloads` in the home directory.
pub open spec fn download_dir_spec(
    setting: Option<Seq<char>>,
    user_dirs: Option<Seq<char>>,
    home: Seq<char>,
) -> Seq<char> {
    let from_setting = match setting {
        Some(s) => if trim(s).len() > 0 {
            Some(expand_home_spec(trim(s), home))
        } else {
            None
        },
        None => None,
    };
    match from_setting {
        Some(d) => d,
        None => match user_dirs {
            Some(t) => match xdg_lookup(t, home) {
                Some(d) => d,
                None => path_join(home, "Downloads"@),
            },
            None => path_join(home, "Downloads"@),
        },
    }
}

/// The download directory, from the `HWATU_DOWNLOAD_DIR` setting, the
/// text of the user-dirs file (`None` when it could not be read) and the
/// home directory.
pub fn download_dir(setting: Option<&str>, user_dirs: Option<&str>, home: &str) -> (d: String)
    ensures
        d@ == download_dir_spec(
            match setting {
                Some(s) => Some(s@),
                None => None,
            },
            match user_dirs {
                Some(t) => Some(t@),
                None => None,
            },
            home@,
        ),
{
    match setting {
        Some(s) => {
            let v = chars_of(s);
            let (a, b) = trim_bounds(&v, 0, v.len(), false);
            assert(v@.subrange(0, v@.len() as int) =~= s@);
            if b > a {
                let trimmed = string_of_range(&v, a, b);
                return expand_home(trimmed.as_str(), home);
            }
        },
        None => {},
    }
    match xdg_download_dir(user_dirs, home) {
        Some(d) => d,
        None => path_join_exec(home, "Downloads"),
    }
}

/// The first source that names a directory wins: a non-blank setting
/// decides whatever the user-dirs file says, and without a setting an
/// entry in the user-dirs file decides over the `Downloads` default in
/// the home directory.
pub proof fn lemma_download_dir_first_hit_wins(
    setting: Seq<char>,
    user_dirs: Option<Seq<char>>,
    other_user_dirs: Option<Seq<char>>,
    home: Seq<char>,
)
    ensures
        trim(setting).len() > 0 ==> download_dir_spec(Some(setting), user_dirs, home)
            == expand_home_spec(trim(setting), home) && download_dir_spec(
            Some(setting),
            user_dirs,
            home,
        ) == download_dir_spec(Some(setting), other_user_dirs, home),
        trim(setting).len() == 0 ==> download_dir_spec(Some(setting), user_dirs, home)
            == download_dir_spec(None, user_dirs, home),
        match user_dirs {
            Some(t) => xdg_lookup(t, home) is Some ==> download_dir_spec(None, user_dirs, home)
                == xdg_lookup(t, home).unwrap(),
            None => download_dir_spec(None, user_dirs, home) == path_join(home, "Downloads"@),
        },
{
}

/// Where the user-dirs file is: under `XDG_CONFIG_HOME`, else under
/// `.config` in the home directory.
pub open spec fn user_dirs_path_spec(config_home: Option<Seq<char>>, home: Seq<char>) -> Seq<char> {
    let config = match config_home {
        Some(c) => c,
        None => path_join(home, ".config"@),
    };
    path_join(config, "user-dirs.dirs"@)
}

/// Where the user-dirs file is.
pub fn user_dirs_path(config_home: Option<&str>, home: &str) -> (p: String)
    ensures
        p@ == user_dirs_path_spec(
            match config_home {
                Some(c) => Some(c@),
                None => None,
            },
            home@,
        ),
{
    let config = match config_home {
        Some(c) => c.to_owned(),
        None => path_join_exec(home, ".config"),
    };
    path_join_exec(config.as_str(), "user-dirs.dirs")
}

// ---------------------------------------------------------------------
// Names for saved files
// ---------------------------------------------------------------------

/// The name to save under when the page suggests none.
pub open spec fn save_name_spec(suggested: Seq<char>) -> Seq<char> {
    if suggested.len() == 0 {
        "download"@
    } else {
        suggested
    }
}

/// The name to save a download under, from the page's suggestion.
pub fn save_name(suggested: &str) -> (n: String)
    ensures
        n@ == save_name_spec(suggested@),
{
    let v = chars_of(suggested);
    let mut n = String::new();
    if v.len() == 0 {
        push_str(&mut n, "download");
    } else {
        push_str(&mut n, suggested);
    }
    n
}

/// Candidate `n` for saving `name`: the name itself first, then
/// `stem (n).ext`, where the extension follows the last `.` of a name
/// with a non-empty stem; names without one get ` (n)` at the end.
pub open spec fn candidate_name_spec(name: Seq<char>, n: u32) -> Seq<char> {
    if n == 0 {
        name
    } else {
        let k = index_after_last(name, '.');
        let suffix = " ("@ + crate::text::decimal(n as nat) + ")"@;
        if k > 1 {
            name.take(k - 1) + suffix + "."@ + name.skip(k as int)
        } else {
            name + suffix
        }
    }
}

/// Candidate `n` for saving `name` without overwriting: `report.pdf`,
/// then `report (1).pdf`, `report (2).pdf`, ...
pub fn candidate_name(name: &str, n: u32) -> (c: String)
    ensures
        c@ == candidate_name_spec(name@, n),
{
    if n == 0 {
        return name.to_owned();
    }
    let v = chars_of(name);
    let len = v.len();
    let mut k: usize = 0;
    let mut i: usize = 0;
    while i < len
        invariant
            len == v@.len(),
            v@ == name@,
            k <= i <= len,
            k == index_after_last(v@.take(i as int), '.'),
        decreases len - i,
    {
        proof {
            lemma_index_after_last_step(v@, '.', i as int);
        }
        if v[i] == '.' {
            k = i + 1;
        }
        i += 1;
    }
    assert(v@.take(len as int) =~= v@);
    let mut out = String::new();
    if k > 1 {
        push_range(&mut out, &v, 0, k - 1);
        push_str(&mut out, " (");
        push_decimal(&mut out, n as u64);
        push_str(&mut out, ").");
        push_range(&mut out, &v, k, len);
        proof {
            reveal_strlit(").");
            reveal_strlit(")");
            reveal_strlit(".");
            assert(v@.subrange(0, k - 1) =~= v@.take(k - 1));
            assert(v@.subrange(k as int, len as int) =~= v@.skip(k as int));
            assert(")."@ =~= ")"@ + "."@);
        }
    } else {
        push_str(&mut out, name);
        push_str(&mut out, " (");
        push_decimal(&mut out, n as u64);
        push_str(&mut out, ")");
    }
    out
}

/// The search for a free name to save a download under: candidates are
/// tried in turn, `name` first, then `stem (1).ext`, `stem (2).ext`, ...;
/// the caller tests each one against the file system and reports whether
/// it was taken. The first free candidate is used, so nothing is
/// overwritten.
pub struct NameSearch {
    pub name: String,
    /// The number of the candidate being tested.
    pub n: u32,
}

impl NameSearch {
    /// A search that starts with `name` itself.
    pub fn new(name: &str) -> (s: NameSearch)
        ensures
            s.name@ == name@,
            s.n == 0,
    {
        NameSearch { name: name.to_owned(), n: 0 }
    }

    /// The candidate the caller tests next.
    pub fn candidate(&self) -> (c: String)
        ensures
            c@ == candidate_name_spec(self.name@, self.n),
    {
        candidate_name(self.name.as_str(), self.n)
    }

    /// After the test: the name to use when the candidate was free, else
    /// none, and the search moves on to the next candidate.
    pub fn step(&mut self, taken: bool) -> (r: Option<String>)
        requires
            taken ==> old(self).n < u32::MAX,
        ensures
            !taken ==> (r matches Some(c) && c@ == candidate_name_spec(old(self).name@, old(self).n)
                && final(self).name@ == old(self).name@ && final(self).n == old(self).n),
            taken ==> (r is None && final(self).name@ == old(self).name@ && final(self).n == old(
                self,
            ).n + 1),
    {
        if taken {
            self.n = self.n + 1;
            None
        } else {
            Some(self.candidate())
        }
    }
}

/// The name a search starting at candidate `n` settles on when the names
/// in `taken` exist and nothing changes while it runs: each candidate is
/// tested in turn (as `NameSearch` does), and the first one not taken is
/// used; none when every candidate up to the last number is taken.
pub open spec fn free_name_from(name: Seq<char>, taken: Set<Seq<char>>, n: u32) -> Option<Seq<char>>
    decreases u32::MAX - n,
{
    if !taken.contains(candidate_name_spec(name, n)) {
        Some(candidate_name_spec(name, n))
    } else if n == u32::MAX {
        None
    } else {
        free_name_from(name, taken, (n + 1) as u32)
    }
}

/// A download never overwrites: the name a search settles on is not taken,
/// and it is the least free candidate, every earlier one being taken (so
/// `name` itself whenever it is free). A search that settles on nothing
/// found every candidate taken.
pub proof fn lemma_free_name_least(name: Seq<char>, taken: Set<Seq<char>>, n: u32)
    ensures
        match free_name_from(name, taken, n) {
            Some(c) => exists|k: u32|
                #![trigger candidate_name_spec(name, k)]
                n <= k && c == candidate_name_spec(name, k) && !taken.contains(c) && forall|m: u32|
                    n <= m < k ==> taken.contains(#[trigger] candidate_name_spec(name, m)),
            None => forall|m: u32| n <= m ==> taken.contains(#[trigger] candidate_name_spec(name, m)),
        },
    decreases u32::MAX - n,
{
    if !taken.contains(candidate_name_spec(name, n)) {
        assert(n <= n && free_name_from(name, taken, n) == Some(candidate_name_spec(name, n)));
    } else if n == u32::MAX {
    } else {
        let n1 = (n + 1) as u32;
        lemma_free_name_least(name, taken, n1);
        match free_name_from(name, taken, n1) {
            Some(c) => {
                let k = choose|k: u32|
                    #![trigger candidate_name_spec(name, k)]
                    n1 <= k && c == candidate_name_spec(name, k) && !taken.contains(c) && forall|m: u32|
                        n1 <= m < k ==> taken.contains(#[trigger] candidate_name_spec(name, m));
                assert forall|m: u32| n <= m < k implies taken.contains(
                    #[trigger] candidate_name_spec(name, m),
                ) by {
                    if m != n {
                        assert(n1 <= m);
                    }
                }
            },
            None => {
                assert forall|m: u32| n <= m implies taken.contains(
                    #[trigger] candidate_name_spec(name, m),
                ) by {
                    if m != n {
                        assert(n1 <= m);
                    }
                }
            },
        }
    }
}

/// The name to save under is the page's suggestion, or `download` when
/// it suggests none.
pub proof fn lemma_save_name(suggested: Seq<char>)
    ensures
        suggested.len() == 0 ==> save_name_spec(suggested) == "download"@,
        suggested.len() > 0 ==> save_name_spec(suggested) == suggested,
{
}

/// The shape of the candidates: the first is the name itself; later ones
/// put ` (n)` before the extension of a name `stem.ext` with a non-empty
/// stem, and at the end of a name without such an extension.
pub proof fn lemma_candidate_shape(stem: Seq<char>, ext: Seq<char>, n: u32)
    ensures
        candidate_name_spec(stem, 0) == stem,
        n >= 1 && stem.len() > 0 && !ext.contains('.') ==> candidate_name_spec(stem + "."@ + ext, n)
            == stem + " ("@ + crate::text::decimal(n as nat) + ")."@ + ext,
        n >= 1 && !stem.contains('.') ==> candidate_name_spec(stem, n) == stem + " ("@
            + crate::text::decimal(n as nat) + ")"@,
        n >= 1 && !ext.contains('.') ==> candidate_name_spec("."@ + ext, n) == "."@ + ext + " ("@
            + crate::text::decimal(n as nat) + ")"@,
{
    reveal_strlit(".");
    reveal_strlit(").");
    reveal_strlit(")");
    if n >= 1 && stem.len() > 0 && !ext.contains('.') {
        let p = stem + "."@;
        crate::text::lemma_index_after_last_append(p, ext, '.');
        assert(p.last() == '.');
        assert(stem + "."@ + ext == p + ext);
        assert((p + ext).take(p.len() - 1) =~= stem);
        assert((p + ext).skip(p.len() as int) =~= ext);
        assert(")."@ =~= ")"@ + "."@);
        let d = crate::text::decimal(n as nat);
        assert(stem + " ("@ + d + ")"@ + "."@ + ext =~= stem + " ("@ + d + ")."@ + ext);
    }
    if n >= 1 && !stem.contains('.') {
        crate::text::lemma_index_after_last_bound(stem, '.');
        if index_after_last(stem, '.') > 0 {
            assert(stem.contains(stem[index_after_last(stem, '.') - 1]));
        }
    }
    if n >= 1 && !ext.contains('.') {
        let p = "."@;
        crate::text::lemma_index_after_last_append(p, ext, '.');
        assert(p.last() == '.');
        assert(index_after_last(p, '.') == 1);
    }
}

/// Different attempts propose different names, so trying candidates in
/// turn never retries a name already found taken.
pub proof fn lemma_candidates_distinct(name: Seq<char>, m: u32, n: u32)
    requires
        m != n,
    ensures
        candidate_name_spec(name, m) != candidate_name_spec(name, n),
{
    let k = index_after_last(name, '.');
    crate::text::lemma_index_after_last_bound(name, '.');
    if m != 0 && n != 0 {
        let a = candidate_name_spec(name, m);
        let b = candidate_name_spec(name, n);
        if a == b {
            let p = if k > 1 { name.take(k - 1) + " ("@ } else { name + " ("@ };
            let dm = crate::text::decimal(m as nat);
            let dn = crate::text::decimal(n as nat);
            let tail = if k > 1 { ")"@ + "."@ + name.skip(k as int) } else { ")"@ };
            assert(a =~= p + dm + tail);
            assert(b =~= p + dn + tail);
            proof_decimal_middle(p, dm, dn, tail);
            crate::text::lemma_decimal_injective(m as nat, n as nat);
        }
    } else {
        let z = if m == 0 { n } else { m };
        assert(candidate_name_spec(name, z).len() > name.len()) by {
            crate::text::lemma_decimal_len(z as nat);
            reveal_strlit(" (");
            reveal_strlit(")");
            reveal_strlit(".");
        }
    }
}

/// Two strings `p + x + t` and `p + y + t` with `x != y` differ.
proof fn proof_decimal_middle(p: Seq<char>, x: Seq<char>, y: Seq<char>, t: Seq<char>)
    requires
        p + x + t == p + y + t,
    ensures
        x == y,
{
    let a = p + x + t;
    assert(a.len() == p.len() + x.len() + t.len());
    assert((p + y + t).len() == p.len() + y.len() + t.len());
    assert(x.len() == y.len());
    assert(x =~= a.subrange(p.len() as int, (p.len() + x.len()) as int));
    assert(y =~= (p + y + t).subrange(p.len() as int, (p.len() + y.len()) as int));
}

} // verus!
