//! The state of the interactive port list: the scanned entries, the filter
//! tabs, the search, the selection and scrolling, the actions panel and the
//! kill confirmation, and the toast that reports what happened.
//!
//! The caller runs the scans and sends the signals: a method that would
//! start a scan returns `true` (or [`Effect::Scan`]), and a scan's outcome
//! comes back through [`App::check_scan`].
use vstd::prelude::*;
use vstd::view::View as HasView;

use crate::scanner::{keep, known_unique, keep_known_unique, port_views, PortInfo, PortView};
use crate::text::{
    char_seqs,
    chars_eq, chars_of, concat_chars, contains, contains_chars, decimal, decimal_chars, lowercase,
    spec_lowercase, string_of,
};

verus! {

broadcast use vstd::string::group_string_axioms;

#[verifier::external_type_specification]
#[verifier::external_body]
pub struct ExInstant(std::time::Instant);

/// Trusted: `std::time::Instant::now`. The current time is not a function of
/// anything the library holds, so nothing is claimed of the result.
#[verifier::external_body]
fn now() -> std::time::Instant {
    std::time::Instant::now()
}

/// Trusted: `std::time::Instant::elapsed`. It depends on the clock, so
/// nothing is claimed of the result.
#[verifier::external_body]
fn elapsed(t: &std::time::Instant) -> std::time::Duration {
    t.elapsed()
}

/// Trusted: `std::time::Duration::as_secs`. Nothing is claimed of the
/// result, which only feeds the decision of [`App::expire_toast`].
#[verifier::external_body]
fn whole_secs(d: &std::time::Duration) -> u64 {
    d.as_secs()
}

// ───────────────────────────── views and actions ─────────────────────────────

#[derive(Clone, Copy, PartialEq, Eq, Debug, Structural)]
pub enum View {
    List,
    Actions,
    Confirm,
}

#[derive(Clone, Copy, PartialEq, Eq, Debug, Structural)]
pub enum Action {
    Kill,
    ForceKill,
    Refresh,
    Back,
}

/// The number of entries of the actions panel.
pub const ACTION_COUNT: usize = 4;

/// The actions panel, top to bottom.
pub open spec fn action_spec(i: int) -> Action {
    if i == 0 {
        Action::Kill
    } else if i == 1 {
        Action::ForceKill
    } else if i == 2 {
        Action::Refresh
    } else {
        Action::Back
    }
}

/// The `i`-th entry of the actions panel.
pub fn action_at(i: usize) -> (a: Action)
    requires
        i < ACTION_COUNT,
    ensures
        a == action_spec(i as int),
{
    if i == 0 {
        Action::Kill
    } else if i == 1 {
        Action::ForceKill
    } else if i == 2 {
        Action::Refresh
    } else {
        Action::Back
    }
}

pub open spec fn label_spec(a: Action) -> Seq<char> {
    match a {
        Action::Kill => "Kill (SIGTERM)"@,
        Action::ForceKill => "Force Kill (SIGKILL)"@,
        Action::Refresh => "Refresh"@,
        Action::Back => "Back"@,
    }
}

impl Action {
    pub fn label(&self) -> (s: &'static str)
        ensures
            s@ == label_spec(*self),
    {
        match self {
            Action::Kill => "Kill (SIGTERM)",
            Action::ForceKill => "Force Kill (SIGKILL)",
            Action::Refresh => "Refresh",
            Action::Back => "Back",
        }
    }
}

// ───────────────────────────── filter tabs ─────────────────────────────

pub struct FilterTab {
    pub label: String,
    pub lang: Option<String>,
    pub is_dev: bool,
}

pub struct TabView {
    pub label: Seq<char>,
    pub lang: Option<Seq<char>>,
    pub is_dev: bool,
}

pub open spec fn tab_view(t: FilterTab) -> TabView {
    TabView {
        label: t.label@,
        lang: match t.lang {
            Some(l) => Some(l@),
            None => None,
        },
        is_dev: t.is_dev,
    }
}

pub open spec fn tab_views(v: Seq<FilterTab>) -> Seq<TabView> {
    Seq::new(v.len(), |i: int| tab_view(v[i]))
}

/// The "Dev" tab: entries of a known framework, one per process.
pub open spec fn dev_tab() -> TabView {
    TabView { label: "Dev"@, lang: None, is_dev: true }
}

/// The "All" tab: every entry.
pub open spec fn all_tab() -> TabView {
    TabView { label: "All"@, lang: None, is_dev: false }
}

/// The tab of one language.
pub open spec fn lang_tab(l: Seq<char>) -> TabView {
    TabView { label: l, lang: Some(l), is_dev: false }
}

fn text(s: &str) -> (r: String)
    ensures
        r@ == s@,
{
    string_of(chars_of(s).as_slice())
}

fn dev_filter() -> (t: FilterTab)
    ensures
        tab_view(t) == dev_tab(),
{
    FilterTab { label: text("Dev"), lang: None, is_dev: true }
}

fn all_filter() -> (t: FilterTab)
    ensures
        tab_view(t) == all_tab(),
{
    FilterTab { label: text("All"), lang: None, is_dev: false }
}

// ───────────────────────────── text order ─────────────────────────────

/// The order of `String`s: lexicographic by character (UTF-8 byte order
/// and code point order agree).
pub open spec fn lex_lt(a: Seq<char>, b: Seq<char>) -> bool
    decreases a.len(),
{
    if a.len() == 0 {
        b.len() > 0
    } else if b.len() == 0 {
        false
    } else if a[0] != b[0] {
        (a[0] as int) < (b[0] as int)
    } else {
        lex_lt(a.drop_first(), b.drop_first())
    }
}

pub proof fn lemma_lex_irreflexive(a: Seq<char>)
    ensures
        !lex_lt(a, a),
    decreases a.len(),
{
    if a.len() > 0 {
        lemma_lex_irreflexive(a.drop_first());
    }
}

pub proof fn lemma_lex_transitive(a: Seq<char>, b: Seq<char>, c: Seq<char>)
    requires
        lex_lt(a, b),
        lex_lt(b, c),
    ensures
        lex_lt(a, c),
    decreases a.len(),
{
    if a.len() > 0 && b.len() > 0 && c.len() > 0 && a[0] == b[0] && b[0] == c[0] {
        lemma_lex_transitive(a.drop_first(), b.drop_first(), c.drop_first());
    }
}

pub proof fn lemma_lex_total(a: Seq<char>, b: Seq<char>)
    requires
        a != b,
    ensures
        lex_lt(a, b) || lex_lt(b, a),
    decreases a.len(),
{
    if a.len() > 0 && b.len() > 0 {
        if a[0] == b[0] {
            if a.drop_first() == b.drop_first() {
                assert(a =~= seq![a[0]] + a.drop_first());
                assert(b =~= seq![b[0]] + b.drop_first());
            }
            lemma_lex_total(a.drop_first(), b.drop_first());
        } else {
            assert((a[0] as int) != (b[0] as int));
        }
    } else if a.len() == 0 && b.len() == 0 {
        assert(a =~= b);
    }
}

/// Whether `a` sorts before `b`.
pub fn lex_less(a: &Vec<char>, b: &Vec<char>) -> (r: bool)
    ensures
        r == lex_lt(a@, b@),
{
    let mut i: usize = 0;
    assert(a@.skip(0) == a@ && b@.skip(0) == b@);
    while i < a.len() && i < b.len() && a[i] == b[i]
        invariant
            i <= a.len(),
            i <= b.len(),
            lex_lt(a@, b@) == lex_lt(a@.skip(i as int), b@.skip(i as int)),
        decreases a.len() - i,
    {
        assert(a@.skip(i as int).drop_first() == a@.skip(i + 1));
        assert(b@.skip(i as int).drop_first() == b@.skip(i + 1));
        i = i + 1;
    }
    if i == a.len() {
        i < b.len()
    } else if i == b.len() {
        false
    } else {
        a[i] < b[i]
    }
}

/// Strictly ascending text.
pub open spec fn lex_ascending(v: Seq<Seq<char>>) -> bool {
    forall|i: int, j: int| 0 <= i < j < v.len() ==> lex_lt(v[i], v[j])
}

/// Inserts `x` into the ascending `v` unless it is there already.
fn insert_sorted(v: &mut Vec<Vec<char>>, x: Vec<char>)
    requires
        lex_ascending(char_seqs(old(v)@)),
    ensures
        lex_ascending(char_seqs(final(v)@)),
        forall|s: Seq<char>|
            char_seqs(final(v)@).contains(s) <==> (char_seqs(old(v)@).contains(s) || s == x@),
{
    let ghost old_s = char_seqs(v@);
    let mut i: usize = 0;
    while i < v.len() && lex_less(&v[i], &x)
        invariant
            i <= v.len(),
            old_s == char_seqs(v@),
            forall|j: int| 0 <= j < i ==> lex_lt(#[trigger] old_s[j], x@),
        decreases v.len() - i,
    {
        i = i + 1;
    }
    if i < v.len() && chars_eq(&v[i], &x) {
        assert(old_s[i as int] == x@);
        return ;
    }
    let ghost xv = x@;
    v.insert(i, x);
    proof {
        let ns = char_seqs(v@);
        assert(ns =~= old_s.insert(i as int, xv));
        old_s.insert_ensures(i as int, xv);
        if i < old_s.len() {
            assert(!lex_lt(old_s[i as int], xv));
            assert(old_s[i as int] != xv);
            lemma_lex_total(old_s[i as int], xv);
        }
        assert forall|a: int, b: int| 0 <= a < b < ns.len() implies lex_lt(ns[a], ns[b]) by {
            if b < i {
            } else if b == i {
                assert(ns[a] == old_s[a]);
            } else if a < i {
                assert(ns[b] == old_s[b - 1]);
                assert(ns[a] == old_s[a]);
            } else if a == i {
                assert(ns[b] == old_s[b - 1]);
                if b - 1 > i {
                    lemma_lex_transitive(xv, old_s[i as int], old_s[b - 1]);
                }
            } else {
                assert(ns[a] == old_s[a - 1]);
                assert(ns[b] == old_s[b - 1]);
            }
        }
        assert forall|s: Seq<char>| ns.contains(s) <==> (old_s.contains(s) || s == xv) by {
            if ns.contains(s) {
                let a = choose|a: int| 0 <= a < ns.len() && ns[a] == s;
                if a < i {
                    assert(old_s[a] == s);
                } else if a > i {
                    assert(old_s[a - 1] == s);
                }
            }
            if old_s.contains(s) {
                let a = choose|a: int| 0 <= a < old_s.len() && old_s[a] == s;
                if a < i {
                    assert(ns[a] == s);
                } else {
                    assert(ns[a + 1] == s);
                }
            }
            if s == xv {
                assert(ns[i as int] == s);
            }
        }
    }
}

// ───────────────────────────── filtering ─────────────────────────────

/// A language that some scanned entry runs ("Unknown" aside).
pub open spec fn running_language(all: Seq<PortView>, l: Seq<char>) -> bool {
    l != "Unknown"@ && exists|k: int| 0 <= k < all.len() && all[k].language == l
}

/// The tabs for a scan: "Dev", "All", then one tab per running language,
/// in ascending order.
pub open spec fn tabs_for(tabs: Seq<TabView>, all: Seq<PortView>) -> bool {
    &&& tabs.len() >= 2
    &&& tabs[0] == dev_tab()
    &&& tabs[1] == all_tab()
    &&& forall|i: int| 2 <= i < tabs.len() ==> #[trigger] tabs[i] == lang_tab(tabs[i].label)
    &&& forall|i: int, j: int| 2 <= i < j < tabs.len() ==> lex_lt(tabs[i].label, tabs[j].label)
    &&& forall|l: Seq<char>|
        (exists|i: int| 2 <= i < tabs.len() && tabs[i].label == l) <==> running_language(all, l)
}

/// The first tab from index `i` on labelled `label`, or 0 when none is.
pub open spec fn label_index_from(tabs: Seq<TabView>, label: Seq<char>, i: int) -> int
    decreases tabs.len() - i,
{
    if i < 0 || i >= tabs.len() {
        0
    } else if tabs[i].label == label {
        i
    } else {
        label_index_from(tabs, label, i + 1)
    }
}

pub proof fn lemma_label_index_in_range(tabs: Seq<TabView>, label: Seq<char>, i: int)
    requires
        tabs.len() > 0,
    ensures
        0 <= label_index_from(tabs, label, i) < tabs.len(),
    decreases tabs.len() - i,
{
    if 0 <= i < tabs.len() && tabs[i].label != label {
        lemma_label_index_in_range(tabs, label, i + 1);
    }
}

/// The entry matches the (lower-cased) search query `q`.
pub open spec fn search_hit(e: PortView, q: Seq<char>) -> bool {
    ||| contains(decimal(e.port as nat), q)
    ||| contains(decimal(e.pid as nat), q)
    ||| contains(spec_lowercase(e.project), q)
    ||| contains(spec_lowercase(e.framework), q)
    ||| contains(spec_lowercase(e.language), q)
    ||| contains(spec_lowercase(e.start_cmd), q)
    ||| contains(spec_lowercase(e.name), q)
    ||| contains(spec_lowercase(e.user), q)
}

pub open spec fn search_match(q: Seq<char>) -> spec_fn(PortView) -> bool {
    |e: PortView| search_hit(e, q)
}

pub open spec fn lang_is(l: Seq<char>) -> spec_fn(PortView) -> bool {
    |e: PortView| e.language == l
}

/// The entries that a tab shows.
pub open spec fn tab_entries(all: Seq<PortView>, t: TabView) -> Seq<PortView> {
    if t.is_dev {
        known_unique(all)
    } else {
        match t.lang {
            Some(l) => keep(all, lang_is(l)),
            None => all,
        }
    }
}

/// The list shown: the scanned entries under tab `idx`, then the search.
pub open spec fn filtered(all: Seq<PortView>, tabs: Seq<TabView>, idx: int, query: Seq<char>) -> Seq<
    PortView,
> {
    if tabs.len() == 0 {
        all
    } else {
        let base = tab_entries(all, tabs[idx]);
        if query.len() == 0 {
            base
        } else {
            keep(base, search_match(spec_lowercase(query)))
        }
    }
}

fn copy_entries(v: &Vec<PortInfo>) -> (r: Vec<PortInfo>)
    ensures
        r@ == v@,
{
    let mut out: Vec<PortInfo> = Vec::new();
    let mut i: usize = 0;
    while i < v.len()
        invariant
            i <= v.len(),
            out@ == v@.take(i as int),
        decreases v.len() - i,
    {
        out.push(v[i].duplicate());
        assert(out@ =~= v@.take(i + 1));
        i = i + 1;
    }
    assert(v@.take(v.len() as int) == v@);
    out
}

fn keep_language(v: &Vec<PortInfo>, lang: &String) -> (r: Vec<PortInfo>)
    ensures
        port_views(r@) == keep(port_views(v@), lang_is(lang@)),
{
    let ghost all = port_views(v@);
    let want = chars_of(lang.as_str());
    let mut out: Vec<PortInfo> = Vec::new();
    let mut i: usize = 0;
    while i < v.len()
        invariant
            i <= v.len(),
            all == port_views(v@),
            want@ == lang@,
            port_views(out@) == keep(all.take(i as int), lang_is(lang@)),
        decreases v.len() - i,
    {
        assert(all.take(i + 1).drop_last() == all.take(i as int));
        assert(all.take(i + 1).last() == v@[i as int]@);
        let have = chars_of(v[i].language.as_str());
        if chars_eq(&have, &want) {
            let ghost before = port_views(out@);
            out.push(v[i].duplicate());
            assert(port_views(out@) =~= before.push(v@[i as int]@));
        }
        i = i + 1;
    }
    assert(all.take(v.len() as int) == all);
    out
}

fn field_hit(field: &String, q: &Vec<char>) -> (r: bool)
    ensures
        r == contains(spec_lowercase(field@), q@),
{
    let l = lowercase(field.as_str());
    contains_chars(&chars_of(l.as_str()), q)
}

fn entry_hit(e: &PortInfo, q: &Vec<char>) -> (r: bool)
    ensures
        r == search_hit(e@, q@),
{
    contains_chars(&decimal_chars(e.port as u64), q) || contains_chars(
        &decimal_chars(e.pid as u64),
        q,
    ) || field_hit(&e.project, q) || field_hit(&e.framework, q) || field_hit(&e.language, q)
        || field_hit(&e.start_cmd, q) || field_hit(&e.name, q) || field_hit(&e.user, q)
}

fn keep_hits(v: &Vec<PortInfo>, q: &Vec<char>) -> (r: Vec<PortInfo>)
    ensures
        port_views(r@) == keep(port_views(v@), search_match(q@)),
{
    let ghost all = port_views(v@);
    let mut out: Vec<PortInfo> = Vec::new();
    let mut i: usize = 0;
    while i < v.len()
        invariant
            i <= v.len(),
            all == port_views(v@),
            port_views(out@) == keep(all.take(i as int), search_match(q@)),
        decreases v.len() - i,
    {
        assert(all.take(i + 1).drop_last() == all.take(i as int));
        assert(all.take(i + 1).last() == v@[i as int]@);
        if entry_hit(&v[i], q) {
            let ghost before = port_views(out@);
            out.push(v[i].duplicate());
            assert(port_views(out@) =~= before.push(v@[i as int]@));
        }
        i = i + 1;
    }
    assert(all.take(v.len() as int) == all);
    out
}

// ───────────────────────────── toasts ─────────────────────────────

/// A short message shown in the corner, and when it was posted.
pub struct Toast {
    pub message: String,
    pub is_error: bool,
    pub created: std::time::Instant,
}

/// How long a toast stays, in whole seconds.
pub const TOAST_SECS: u64 = 3;

/// Milliseconds between automatic rescans.
pub const REFRESH_MS: u64 = 3000;

/// Milliseconds without a key press before an automatic rescan may start.
pub const IDLE_MS: u64 = 500;

/// Whether the list rescans on its own: the last rescan is at least
/// [`REFRESH_MS`] old, no key came for [`IDLE_MS`], and no scan is under way.
pub fn auto_refresh_due(since_refresh_ms: u64, since_input_ms: u64, scanning: bool) -> (r: bool)
    ensures
        r == (since_refresh_ms >= REFRESH_MS && since_input_ms >= IDLE_MS && !scanning),
{
    since_refresh_ms >= REFRESH_MS && since_input_ms >= IDLE_MS && !scanning
}

// ───────────────────────────── scans and effects ─────────────────────────────

/// What the caller saw of the scan in progress.
pub enum ScanPoll {
    /// No result yet.
    Pending,
    /// The scan finished with these entries.
    Ready(Vec<PortInfo>),
    /// The scan ended without a result.
    Closed,
}

/// Work that a key leaves for the caller.
#[derive(PartialEq, Eq, Debug, Structural)]
pub enum Effect {
    Nothing,
    /// Start a background scan.
    Scan,
    /// Signal the process on `port` (SIGKILL when `force`, else SIGTERM),
    /// then report through [`App::do_kill`].
    Kill { port: u16, force: bool },
}

// ───────────────────────────── the application state ─────────────────────────────

pub struct App {
    /// All scanned entries (unfiltered)
    pub all_entries: Vec<PortInfo>,
    /// Filtered view shown in the list
    pub entries: Vec<PortInfo>,
    pub selected: usize,
    pub scroll_offset: usize,
    pub filters: Vec<FilterTab>,
    pub filter_idx: usize,
    pub running: bool,
    pub view: View,
    pub action_idx: usize,
    pub confirm_force: bool,
    pub toast: Option<Toast>,
    pub table_height: usize,
    /// A background scan is under way
    pub scanning: bool,
    /// Search
    pub searching: bool,
    pub search_query: String,
}

/// Rows of the list that fit in a table of height `h` (header, separator
/// and one spare line taken).
pub open spec fn visible_rows(h: usize) -> int {
    if h >= 3 {
        h - 3
    } else {
        0
    }
}

/// The scroll offset that keeps row `sel` in view.
pub open spec fn visible_scroll(h: usize, scroll: usize, sel: usize) -> usize {
    let vis = visible_rows(h);
    if vis == 0 {
        scroll
    } else if sel < scroll {
        sel
    } else if sel >= scroll + vis {
        (sel - vis + 1) as usize
    } else {
        scroll
    }
}

/// The toast says `msg`, as an error when `err`.
pub open spec fn toast_says(t: Option<Toast>, msg: Seq<char>, err: bool) -> bool {
    t matches Some(x) && x.message@ == msg && x.is_error == err
}

/// The first entry from index `i` on that is on port `p`.
pub open spec fn port_index_from(es: Seq<PortView>, p: u16, i: int) -> Option<int>
    decreases es.len() - i,
{
    if i < 0 || i >= es.len() {
        None
    } else if es[i].port == p {
        Some(i)
    } else {
        port_index_from(es, p, i + 1)
    }
}

/// The selection after a new scan shows `es`: the entry on the port that was
/// selected, if it is still listed; else the old position, moved onto the
/// last entry when it fell past the end.
pub open spec fn selection_after(old: App, es: Seq<PortView>) -> usize {
    let found = if old.selected < old.entries@.len() {
        port_index_from(es, old.entries@[old.selected as int].port, 0)
    } else {
        None
    };
    match found {
        Some(i) => i as usize,
        None => if old.selected >= es.len() && es.len() > 0 {
            (es.len() - 1) as usize
        } else {
            old.selected
        },
    }
}

impl App {
    /// The entries of the last scan, unfiltered.
    pub open spec fn scanned(self) -> Seq<PortView> {
        port_views(self.all_entries@)
    }

    /// The state's invariant: the tab, the action and (for a non-empty
    /// list) the selection are in range.
    pub open spec fn wf(self) -> bool {
        &&& self.filter_idx < self.filters@.len()
        &&& self.action_idx < ACTION_COUNT
        &&& self.entries@.len() > 0 ==> self.selected < self.entries@.len()
    }

    /// The tab index is in range, or there are no tabs: what filtering the
    /// list needs.
    pub open spec fn tab_in_range(self) -> bool {
        self.filters@.len() > 0 ==> self.filter_idx < self.filters@.len()
    }

    /// The current tab.
    pub open spec fn tab(self) -> TabView {
        tab_view(self.filters@[self.filter_idx as int])
    }

    pub open spec fn with_selection(self, sel: usize) -> App {
        App {
            selected: sel,
            scroll_offset: visible_scroll(self.table_height, self.scroll_offset, sel),
            ..self
        }
    }

    pub open spec fn select_next_spec(self) -> App {
        if self.entries@.len() > 0 && self.selected < self.entries@.len() - 1 {
            self.with_selection((self.selected + 1) as usize)
        } else {
            self
        }
    }

    pub open spec fn select_prev_spec(self) -> App {
        if self.selected > 0 {
            self.with_selection((self.selected - 1) as usize)
        } else {
            self
        }
    }

    pub open spec fn select_first_spec(self) -> App {
        App { selected: 0, scroll_offset: 0, ..self }
    }

    pub open spec fn select_last_spec(self) -> App {
        if self.entries@.len() > 0 {
            self.with_selection((self.entries@.len() - 1) as usize)
        } else {
            self
        }
    }

    pub open spec fn open_actions_spec(self) -> App {
        if self.entries@.len() > 0 {
            App { action_idx: 0, view: View::Actions, ..self }
        } else {
            self
        }
    }

    pub open spec fn action_next_spec(self) -> App {
        if self.action_idx < ACTION_COUNT - 1 {
            App { action_idx: (self.action_idx + 1) as usize, ..self }
        } else {
            self
        }
    }

    pub open spec fn action_prev_spec(self) -> App {
        if self.action_idx > 0 {
            App { action_idx: (self.action_idx - 1) as usize, ..self }
        } else {
            self
        }
    }

    pub open spec fn go_back_spec(self) -> App {
        match self.view {
            View::Actions => App { view: View::List, ..self },
            View::Confirm => App { view: View::Actions, ..self },
            View::List => self,
        }
    }

    /// The list this state should show: its scan under its tab and query.
    pub open spec fn listed(self) -> Seq<PortView> {
        filtered(self.scanned(), tab_views(self.filters@), self.filter_idx as int, self.search_query@)
    }

    /// `new` shows tab `idx` with the selection at the top and a toast naming
    /// the tab; nothing else changed.
    pub open spec fn after_cycle(self, new: App, idx: usize) -> bool {
        &&& new == App {
            filter_idx: idx,
            entries: new.entries,
            selected: 0,
            scroll_offset: 0,
            toast: new.toast,
            ..self
        }
        &&& port_views(new.entries@) == filtered(
            self.scanned(),
            tab_views(self.filters@),
            idx as int,
            self.search_query@,
        )
        &&& toast_says(new.toast, "Filter: "@ + tab_views(self.filters@)[idx as int].label, false)
    }

    /// `new` searches for `q` (still typing when `typing`), with the list
    /// filtered by it and the selection at the top; nothing else changed.
    pub open spec fn after_search(self, new: App, q: Seq<char>, typing: bool) -> bool {
        &&& new == App {
            search_query: new.search_query,
            entries: new.entries,
            selected: 0,
            scroll_offset: 0,
            searching: typing,
            ..self
        }
        &&& new.search_query@ == q
        &&& port_views(new.entries@) == filtered(
            self.scanned(),
            tab_views(self.filters@),
            self.filter_idx as int,
            q,
        )
    }

    /// `new` holds the scan `results`: tabs rebuilt for them, the same tab
    /// kept when it still exists, the list refiltered, the selection kept
    /// on the same port when possible and scrolled into view, and no scan
    /// under way.
    pub open spec fn after_scan(self, new: App, results: Seq<PortView>) -> bool {
        &&& new == App {
            all_entries: new.all_entries,
            entries: new.entries,
            filters: new.filters,
            filter_idx: new.filter_idx,
            selected: new.selected,
            scroll_offset: new.scroll_offset,
            scanning: false,
            ..self
        }
        &&& new.scanned() == results
        &&& tabs_for(tab_views(new.filters@), results)
        &&& new.filter_idx == if self.filter_idx < self.filters@.len() {
            label_index_from(tab_views(new.filters@), self.tab().label, 0)
        } else {
            self.filter_idx as int
        }
        &&& port_views(new.entries@) == filtered(
            results,
            tab_views(new.filters@),
            new.filter_idx as int,
            self.search_query@,
        )
        &&& new.selected == selection_after(self, port_views(new.entries@))
        &&& new.scroll_offset == visible_scroll(self.table_height, self.scroll_offset, new.selected)
    }

    /// What [`App::execute_action`] does, `start` telling whether the caller
    /// must start a scan.
    pub open spec fn execute_post(self, new: App, start: bool) -> bool {
        match action_spec(self.action_idx as int) {
            Action::Kill => !start && new == (App {
                confirm_force: false,
                view: View::Confirm,
                ..self
            }),
            Action::ForceKill => !start && new == (App {
                confirm_force: true,
                view: View::Confirm,
                ..self
            }),
            Action::Refresh => start == !self.scanning && new == (App {
                scanning: true,
                view: View::List,
                toast: new.toast,
                ..self
            }) && toast_says(new.toast, "Refreshed"@, false),
            Action::Back => !start && new == (App { view: View::List, ..self }),
        }
    }

    /// What [`App::search_open`] does.
    pub open spec fn search_open_post(self, new: App) -> bool {
        &&& new == (App { searching: true, search_query: new.search_query, ..self })
        &&& new.search_query@ == Seq::<char>::empty()
    }

    /// `n` moves of the selection down.
    pub open spec fn repeat_next(self, n: nat) -> App
        decreases n,
    {
        if n == 0 {
            self
        } else {
            self.select_next_spec().repeat_next((n - 1) as nat)
        }
    }

    /// `n` moves of the selection up.
    pub open spec fn repeat_prev(self, n: nat) -> App
        decreases n,
    {
        if n == 0 {
            self
        } else {
            self.select_prev_spec().repeat_prev((n - 1) as nat)
        }
    }

    pub open spec fn refresh_spec(self) -> App {
        App { scanning: true, ..self }
    }

    /// A fresh state with an empty list, the "Dev" and "All" tabs, and a
    /// scan under way: the caller starts that first scan.
    pub fn new() -> (app: Self)
        ensures
            app.wf(),
            app.scanned() == Seq::<PortView>::empty(),
            app.entries@ == Seq::<PortInfo>::empty(),
            tab_views(app.filters@) == seq![dev_tab(), all_tab()],
            app.filter_idx == 0,
            app.selected == 0,
            app.scroll_offset == 0,
            app.running,
            app.view == View::List,
            app.action_idx == 0,
            !app.confirm_force,
            app.toast is None,
            app.table_height == 20,
            app.scanning,
            !app.searching,
            app.search_query@ == Seq::<char>::empty(),
    {
        let mut filters: Vec<FilterTab> = Vec::new();
        filters.push(dev_filter());
        filters.push(all_filter());
        let app = App {
            all_entries: Vec::new(),
            entries: Vec::new(),
            selected: 0,
            scroll_offset: 0,
            filters,
            filter_idx: 0,
            running: true,
            view: View::List,
            action_idx: 0,
            confirm_force: false,
            toast: None,
            table_height: 20,
            scanning: true,
            searching: false,
            search_query: String::new(),
        };
        assert(tab_views(app.filters@) =~= seq![dev_tab(), all_tab()]);
        assert(app.scanned() =~= Seq::<PortView>::empty());
        app
    }

    /// Marks a scan as under way; `true` when the caller must start it (none
    /// was under way).
    fn start_scan(&mut self) -> (start: bool)
        ensures
            start == !old(self).scanning,
            *final(self) == old(self).refresh_spec(),
    {
        if self.scanning {
            return false;
        }
        self.scanning = true;
        true
    }

    /// Asks for a new scan; `true` when the caller must start it.
    pub fn refresh(&mut self) -> (start: bool)
        ensures
            start == !old(self).scanning,
            *final(self) == old(self).refresh_spec(),
    {
        self.start_scan()
    }

    // ── Navigation ──────────────────────────────────────────────────

    pub fn selected_entry(&self) -> (r: Option<&PortInfo>)
        ensures
            match r {
                Some(e) => self.selected < self.entries@.len() && *e == self.entries@[self.selected as int],
                None => self.selected >= self.entries@.len(),
            },
    {
        if self.selected < self.entries.len() {
            Some(&self.entries[self.selected])
        } else {
            None
        }
    }

    /// Scrolls so that the selected row is visible.
    fn ensure_visible(&mut self)
        ensures
            *final(self) == old(self).with_selection(old(self).selected),
    {
        let visible: usize = if self.table_height >= 3 {
            self.table_height - 3
        } else {
            0
        };
        if visible == 0 {
            return ;
        }
        if self.selected < self.scroll_offset {
            self.scroll_offset = self.selected;
        } else if self.selected - self.scroll_offset >= visible {
            self.scroll_offset = self.selected - visible + 1;
        }
    }

    pub fn select_next(&mut self)
        ensures
            old(self).wf() ==> final(self).wf(),
            *final(self) == old(self).select_next_spec(),
    {
        if self.entries.len() > 0 && self.selected < self.entries.len() - 1 {
            self.selected = self.selected + 1;
            self.ensure_visible();
        }
    }

    pub fn select_prev(&mut self)
        ensures
            old(self).wf() ==> final(self).wf(),
            *final(self) == old(self).select_prev_spec(),
    {
        if self.selected > 0 {
            self.selected = self.selected - 1;
            self.ensure_visible();
        }
    }

    pub fn select_first(&mut self)
        ensures
            old(self).wf() ==> final(self).wf(),
            *final(self) == old(self).select_first_spec(),
    {
        self.selected = 0;
        self.scroll_offset = 0;
    }

    pub fn select_last(&mut self)
        ensures
            old(self).wf() ==> final(self).wf(),
            *final(self) == old(self).select_last_spec(),
    {
        if self.entries.len() > 0 {
            self.selected = self.entries.len() - 1;
            self.ensure_visible();
        }
    }

    /// The rows of the list on screen: from the scroll offset, as many as fit,
    /// not past the end.
    pub fn visible_range(&self) -> (r: std::ops::Range<usize>)
        ensures
            r.start == self.scroll_offset,
            r.end == if self.scroll_offset + visible_rows(self.table_height) <= self.entries@.len() {
                self.scroll_offset + visible_rows(self.table_height)
            } else {
                self.entries@.len() as int
            },
    {
        let visible: usize = if self.table_height >= 3 {
            self.table_height - 3
        } else {
            0
        };
        let start = self.scroll_offset;
        let len = self.entries.len();
        let end: usize = if start >= len {
            len
        } else if visible >= len - start {
            len
        } else {
            start + visible
        };
        start..end
    }

    // ── Actions ─────────────────────────────────────────────────────

    pub fn open_actions(&mut self)
        ensures
            old(self).wf() ==> final(self).wf(),
            *final(self) == old(self).open_actions_spec(),
    {
        if self.entries.len() > 0 {
            self.action_idx = 0;
            self.view = View::Actions;
        }
    }

    pub fn action_next(&mut self)
        ensures
            old(self).wf() ==> final(self).wf(),
            *final(self) == old(self).action_next_spec(),
    {
        if self.action_idx < ACTION_COUNT - 1 {
            self.action_idx = self.action_idx + 1;
        }
    }

    pub fn action_prev(&mut self)
        ensures
            old(self).wf() ==> final(self).wf(),
            *final(self) == old(self).action_prev_spec(),
    {
        if self.action_idx > 0 {
            self.action_idx = self.action_idx - 1;
        }
    }

    /// Shows `message` in a toast (an error when `is_error`), posted now.
    pub fn set_toast(&mut self, message: String, is_error: bool)
        ensures
            *final(self) == (App { toast: final(self).toast, ..*old(self) }),
            toast_says(final(self).toast, message@, is_error),
    {
        self.toast = Some(Toast { message, is_error, created: now() });
    }

    /// Drops the toast once it has been shown for `secs` seconds or more,
    /// the toast's lifetime being [`TOAST_SECS`].
    pub fn expire_toast(&mut self, secs: u64)
        ensures
            *final(self) == if old(self).toast is Some && secs >= TOAST_SECS {
                App { toast: None, ..*old(self) }
            } else {
                *old(self)
            },
    {
        if self.toast.is_some() && secs >= TOAST_SECS {
            self.toast = None;
        }
    }

    /// Drops the toast when its time is up. Whether it is depends on the
    /// clock; either way nothing but the toast changes, and only to none,
    /// and without a toast nothing changes.
    pub fn tick_toast(&mut self)
        ensures
            *final(self) == *old(self) || (old(self).toast is Some && *final(self) == (App {
                toast: None,
                ..*old(self)
            })),
    {
        let secs: Option<u64> = match &self.toast {
            Some(t) => Some(whole_secs(&elapsed(&t.created))),
            None => None,
        };
        match secs {
            Some(s) => self.expire_toast(s),
            None => {},
        }
    }

    // ── Filters ─────────────────────────────────────────────────────

    /// Shows the scanned entries under the current tab and search query.
    fn apply_filter(&mut self)
        requires
            old(self).filters@.len() > 0 ==> old(self).filter_idx < old(self).filters@.len(),
        ensures
            *final(self) == (App { entries: final(self).entries, ..*old(self) }),
            port_views(final(self).entries@) == old(self).listed(),
    {
        if self.filters.len() == 0 {
            self.entries = copy_entries(&self.all_entries);
            return ;
        }
        let base: Vec<PortInfo> = if self.filters[self.filter_idx].is_dev {
            keep_known_unique(&self.all_entries)
        } else {
            match &self.filters[self.filter_idx].lang {
                Some(l) => keep_language(&self.all_entries, l),
                None => copy_entries(&self.all_entries),
            }
        };
        assert(tab_views(self.filters@)[self.filter_idx as int] == tab_view(
            self.filters@[self.filter_idx as int],
        ));
        if !self.search_query.as_str().is_empty() {
            let q = lowercase(self.search_query.as_str());
            self.entries = keep_hits(&base, &chars_of(q.as_str()));
        } else {
            self.entries = base;
        }
    }

    /// Rebuilds the tabs for the scanned entries, keeping the current tab
    /// when a tab of the same label still exists (else the first).
    fn rebuild_filters(&mut self)
        ensures
            *final(self) == (App {
                filters: final(self).filters,
                filter_idx: final(self).filter_idx,
                ..*old(self)
            }),
            tabs_for(tab_views(final(self).filters@), old(self).scanned()),
            final(self).filter_idx == if old(self).filter_idx < old(self).filters@.len() {
                label_index_from(tab_views(final(self).filters@), old(self).tab().label, 0)
            } else {
                old(self).filter_idx as int
            },
    {
        let ghost all = self.scanned();
        let had_tab: bool = self.filter_idx < self.filters.len();
        let old_label: Vec<char> = if had_tab {
            chars_of(self.filters[self.filter_idx].label.as_str())
        } else {
            Vec::new()
        };
        let unknown = chars_of("Unknown");
        let mut langs: Vec<Vec<char>> = Vec::new();
        let mut i: usize = 0;
        while i < self.all_entries.len()
            invariant
                i <= self.all_entries.len(),
                all == port_views(self.all_entries@),
                unknown@ == "Unknown"@,
                lex_ascending(char_seqs(langs@)),
                forall|l: Seq<char>|
                    char_seqs(langs@).contains(l) <==> (l != "Unknown"@ && exists|k: int|
                        0 <= k < i && all[k].language == l),
            decreases self.all_entries.len() - i,
        {
            let l = chars_of(self.all_entries[i].language.as_str());
            assert(all[i as int].language == l@);
            let ghost before = char_seqs(langs@);
            if !chars_eq(&l, &unknown) {
                insert_sorted(&mut langs, l);
            }
            assert forall|s: Seq<char>|
                char_seqs(langs@).contains(s) <==> (s != "Unknown"@ && exists|k: int|
                    0 <= k < i + 1 && all[k].language == s) by {
                if s != "Unknown"@ && exists|k: int| 0 <= k < i + 1 && all[k].language == s {
                    let k = choose|k: int| 0 <= k < i + 1 && all[k].language == s;
                    if k < i {
                        assert(before.contains(s));
                    }
                }
            }
            i = i + 1;
        }
        let mut filters: Vec<FilterTab> = Vec::new();
        filters.push(dev_filter());
        filters.push(all_filter());
        let mut j: usize = 0;
        while j < langs.len()
            invariant
                j <= langs.len(),
                filters@.len() == j + 2,
                tab_view(filters@[0]) == dev_tab(),
                tab_view(filters@[1]) == all_tab(),
                forall|k: int| 0 <= k < j ==> #[trigger] tab_view(filters@[k + 2]) == lang_tab(langs@[k]@),
            decreases langs.len() - j,
        {
            let label = string_of(langs[j].as_slice());
            let lang = string_of(langs[j].as_slice());
            filters.push(FilterTab { label, lang: Some(lang), is_dev: false });
            j = j + 1;
        }
        let ghost tabs = tab_views(filters@);
        proof {
            let ls = char_seqs(langs@);
            assert forall|k: int| 2 <= k < tabs.len() implies #[trigger] tabs[k] == lang_tab(tabs[k].label) && tabs[k].label == ls[k - 2] by {
                assert(tab_view(filters@[(k - 2) + 2]) == lang_tab(langs@[k - 2]@));
            }
            assert forall|a: int, b: int| 2 <= a < b < tabs.len() implies lex_lt(tabs[a].label, tabs[b].label) by {
                assert(tabs[a].label == ls[a - 2]);
                assert(tabs[b].label == ls[b - 2]);
            }
            assert forall|l: Seq<char>|
                (exists|k: int| 2 <= k < tabs.len() && tabs[k].label == l) <==> running_language(all, l) by {
                if exists|k: int| 2 <= k < tabs.len() && tabs[k].label == l {
                    let k = choose|k: int| 2 <= k < tabs.len() && tabs[k].label == l;
                    assert(ls[k - 2] == l);
                    assert(ls.contains(l));
                }
                if running_language(all, l) {
                    assert(ls.contains(l));
                    let k = choose|k: int| 0 <= k < ls.len() && ls[k] == l;
                    assert(tabs[k + 2].label == l);
                }
            }
        }
        let mut idx: usize = 0;
        let mut found: bool = false;
        while idx < filters.len() && !found
            invariant
                idx <= filters.len(),
                tabs == tab_views(filters@),
                had_tab == (old(self).filter_idx < old(self).filters@.len()),
                had_tab ==> old_label@ == old(self).tab().label,
                found ==> idx < filters.len() && tabs[idx as int].label == old_label@,
                label_index_from(tabs, old_label@, 0) == if found {
                    idx as int
                } else {
                    label_index_from(tabs, old_label@, idx as int)
                },
            decreases filters.len() - idx + if found {
                0int
            } else {
                1int
            },
        {
            let have = chars_of(filters[idx].label.as_str());
            if chars_eq(&have, &old_label) {
                found = true;
            } else {
                idx = idx + 1;
            }
        }
        if had_tab {
            self.filter_idx = if found {
                idx
            } else {
                0
            };
        }
        self.filters = filters;
    }

    pub fn cycle_filter_next(&mut self)
        requires
            old(self).filters@.len() > 0 ==> old(self).filter_idx < usize::MAX,
        ensures
            old(self).wf() ==> final(self).wf(),
            old(self).filters@.len() == 0 ==> *final(self) == *old(self),
            old(self).filters@.len() > 0 ==> old(self).after_cycle(
                *final(self),
                ((old(self).filter_idx + 1) % (old(self).filters@.len() as int)) as usize,
            ),
    {
        if self.filters.len() == 0 {
            return ;
        }
        self.filter_idx = (self.filter_idx + 1) % self.filters.len();
        self.apply_filter();
        self.selected = 0;
        self.scroll_offset = 0;
        let msg = concat_chars(&chars_of("Filter: "), &chars_of(self.filters[self.filter_idx].label.as_str()));
        assert(tab_views(self.filters@)[self.filter_idx as int].label == self.filters@[self.filter_idx as int].label@);
        self.set_toast(string_of(msg.as_slice()), false);
    }

    pub fn cycle_filter_prev(&mut self)
        requires
            old(self).filters@.len() > 0 ==> old(self).filter_idx <= old(self).filters@.len(),
        ensures
            old(self).wf() ==> final(self).wf(),
            old(self).filters@.len() == 0 ==> *final(self) == *old(self),
            old(self).filters@.len() > 0 ==> old(self).after_cycle(
                *final(self),
                if old(self).filter_idx == 0 {
                    (old(self).filters@.len() - 1) as usize
                } else {
                    (old(self).filter_idx - 1) as usize
                },
            ),
    {
        if self.filters.len() == 0 {
            return ;
        }
        if self.filter_idx == 0 {
            self.filter_idx = self.filters.len() - 1;
        } else {
            self.filter_idx = self.filter_idx - 1;
        }
        self.apply_filter();
        self.selected = 0;
        self.scroll_offset = 0;
        let msg = concat_chars(&chars_of("Filter: "), &chars_of(self.filters[self.filter_idx].label.as_str()));
        assert(tab_views(self.filters@)[self.filter_idx as int].label == self.filters@[self.filter_idx as int].label@);
        self.set_toast(string_of(msg.as_slice()), false);
    }

    // ── Search ──────────────────────────────────────────────────────

    /// Starts typing a new query; the list keeps its current filtering until
    /// the first keystroke.
    pub fn search_open(&mut self)
        ensures
            old(self).wf() ==> final(self).wf(),
            old(self).search_open_post(*final(self)),
    {
        self.searching = true;
        self.search_query = String::new();
    }

    pub fn search_push(&mut self, ch: char)
        requires
            old(self).tab_in_range(),
        ensures
            old(self).wf() ==> final(self).wf(),
            old(self).after_search(*final(self), old(self).search_query@.push(ch), old(self).searching),
    {
        let mut q = chars_of(self.search_query.as_str());
        q.push(ch);
        self.search_query = string_of(q.as_slice());
        self.apply_filter();
        self.selected = 0;
        self.scroll_offset = 0;
    }

    pub fn search_pop(&mut self)
        requires
            old(self).tab_in_range(),
        ensures
            old(self).wf() ==> final(self).wf(),
            old(self).after_search(
                *final(self),
                if old(self).search_query@.len() > 0 {
                    old(self).search_query@.drop_last()
                } else {
                    old(self).search_query@
                },
                old(self).searching,
            ),
    {
        let mut q = chars_of(self.search_query.as_str());
        if q.len() > 0 {
            q.pop();
        }
        self.search_query = string_of(q.as_slice());
        self.apply_filter();
        self.selected = 0;
        self.scroll_offset = 0;
    }

    /// Stops typing; the query stays in force.
    pub fn search_confirm(&mut self)
        ensures
            old(self).wf() ==> final(self).wf(),
            *final(self) == (App { searching: false, ..*old(self) }),
    {
        self.searching = false;
    }

    /// Stops searching and clears the query.
    pub fn search_cancel(&mut self)
        requires
            old(self).tab_in_range(),
        ensures
            old(self).wf() ==> final(self).wf(),
            old(self).after_search(*final(self), Seq::<char>::empty(), false),
    {
        self.searching = false;
        self.search_query = String::new();
        self.apply_filter();
        self.selected = 0;
        self.scroll_offset = 0;
    }

    // ── Background scanning ─────────────────────────────────────────

    /// Takes in what the caller saw of the scan in progress (nothing happens
    /// when no scan is under way): a result replaces the entries (see
    /// [`App::after_scan`]); a scan that ended without one is no longer
    /// under way.
    pub fn check_scan(&mut self, poll: ScanPoll)
        requires
            old(self).scanning && old(self).filter_idx >= old(self).filters@.len() ==> match poll {
                ScanPoll::Ready(results) => forall|t: Seq<TabView>|
                    tabs_for(t, port_views(results@)) ==> old(self).filter_idx < t.len(),
                _ => true,
            },
        ensures
            old(self).wf() ==> final(self).wf(),
            !old(self).scanning ==> *final(self) == *old(self),
            old(self).scanning ==> match poll {
                ScanPoll::Pending => *final(self) == *old(self),
                ScanPoll::Closed => *final(self) == (App { scanning: false, ..*old(self) }),
                ScanPoll::Ready(results) => old(self).after_scan(*final(self), port_views(results@)),
            },
    {
        if !self.scanning {
            return ;
        }
        match poll {
            ScanPoll::Pending => {},
            ScanPoll::Closed => {
                self.scanning = false;
            },
            ScanPoll::Ready(results) => {
                let ghost before = *self;
                let prev_port: Option<u16> = match self.selected_entry() {
                    Some(e) => Some(e.port),
                    None => None,
                };
                let ghost rv = port_views(results@);
                self.all_entries = results;
                self.rebuild_filters();
                proof {
                    let t = tab_views(self.filters@);
                    assert(tabs_for(t, rv));
                    if before.filter_idx < before.filters@.len() {
                        lemma_label_index_in_range(t, before.tab().label, 0);
                    } else {
                        assert(self.filter_idx < t.len());
                    }
                }
                self.apply_filter();
                let ghost es = port_views(self.entries@);
                let mut restored: bool = false;
                match prev_port {
                    Some(port) => {
                        let mut i: usize = 0;
                        while i < self.entries.len() && self.entries[i].port != port
                            invariant
                                i <= self.entries@.len(),
                                es == port_views(self.entries@),
                                port_index_from(es, port, 0) == port_index_from(es, port, i as int),
                            decreases self.entries.len() - i,
                        {
                            assert(es[i as int] == self.entries@[i as int]@);
                            i = i + 1;
                        }
                        if i < self.entries.len() {
                            assert(es[i as int] == self.entries@[i as int]@);
                            self.selected = i;
                            restored = true;
                        }
                    },
                    None => {},
                }
                if !restored && self.selected >= self.entries.len() && self.entries.len() > 0 {
                    self.selected = self.entries.len() - 1;
                }
                self.ensure_visible();
                self.scanning = false;
                proof {
                    assert(self.selected == selection_after(before, es));
                }
            },
        }
    }

    // ── Actions ─────────────────────────────────────────────────────

    /// Carries out the highlighted action: kill and force kill ask for
    /// confirmation, refresh asks for a scan (`true` when the caller must
    /// start one) and returns to the list, back returns to the list.
    pub fn execute_action(&mut self) -> (start: bool)
        requires
            old(self).action_idx < ACTION_COUNT,
        ensures
            old(self).wf() ==> final(self).wf(),
            old(self).execute_post(*final(self), start),
    {
        let action = action_at(self.action_idx);
        match action {
            Action::Kill => {
                self.confirm_force = false;
                self.view = View::Confirm;
                false
            },
            Action::ForceKill => {
                self.confirm_force = true;
                self.view = View::Confirm;
                false
            },
            Action::Refresh => {
                let start = self.refresh();
                self.set_toast(text("Refreshed"), false);
                self.view = View::List;
                start
            },
            Action::Back => {
                self.view = View::List;
                false
            },
        }
    }

    /// The process to signal from the confirmation: the selected entry's
    /// port, and whether to force.
    pub fn kill_target(&self) -> (r: Option<(u16, bool)>)
        ensures
            match r {
                Some(t) => self.selected < self.entries@.len() && t.0 == self.entries@[self.selected as int].port
                    && t.1 == self.confirm_force,
                None => self.selected >= self.entries@.len(),
            },
    {
        match self.selected_entry() {
            Some(e) => Some((e.port, self.confirm_force)),
            None => None,
        }
    }

    /// Finishes a kill: with the report of the signal (success, message) it
    /// shows the message (as an error on failure) and asks for a scan (`true`
    /// when the caller must start one); either way it returns to the list.
    pub fn do_kill(&mut self, report: Option<(bool, String)>) -> (start: bool)
        ensures
            old(self).wf() ==> final(self).wf(),
            match report {
                Some(rep) => start == !old(self).scanning && *final(self) == (App {
                    toast: final(self).toast,
                    scanning: true,
                    view: View::List,
                    ..*old(self)
                }) && toast_says(final(self).toast, rep.1@, !rep.0),
                None => !start && *final(self) == (App { view: View::List, ..*old(self) }),
            },
    {
        let start = match report {
            Some((ok, msg)) => {
                self.set_toast(msg, !ok);
                self.refresh()
            },
            None => false,
        };
        self.view = View::List;
        start
    }

    pub fn go_back(&mut self)
        ensures
            old(self).wf() ==> final(self).wf(),
            *final(self) == old(self).go_back_spec(),
    {
        match self.view {
            View::Actions => self.view = View::List,
            View::Confirm => self.view = View::Actions,
            View::List => {},
        }
    }
}

} // verus!
