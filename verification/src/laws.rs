//! Properties of the library that span several of its operations.
use vstd::prelude::*;

use crate::app::{
    filtered, lemma_lex_irreflexive, lemma_lex_transitive, lex_lt,
    port_index_from, search_hit, selection_after, search_match, tab_entries, tabs_for, visible_rows, App, TabView,
};
use crate::scanner::{
    describe, describe_all, first_per_pid, keep, known_framework, known_unique, listening_table,
    lists_table, pid_seen, port_views, ports_ascending, table_entries, PortView, ProcView,
};
use crate::app::{Action, Effect};
use crate::detect::DirView;
use crate::event::{key_post, Key, KeyPress};
use crate::text::spec_lowercase;
use crate::ui::{padded, truncated};

verus! {

// ───────────────────────────── sub-sequences ─────────────────────────────

/// `keep` keeps exactly the elements that satisfy the predicate.
pub proof fn law_keep_members<A>(s: Seq<A>, p: spec_fn(A) -> bool, x: A)
    ensures
        keep(s, p).contains(x) <==> (s.contains(x) && p(x)),
    decreases s.len(),
{
    if s.len() > 0 {
        let r = keep(s.drop_last(), p);
        law_keep_members(s.drop_last(), p, x);
        if s.contains(x) && !s.drop_last().contains(x) {
            let i = choose|i: int| 0 <= i < s.len() && s[i] == x;
            if i < s.len() - 1 {
                assert(s.drop_last()[i] == x);
            }
        }
        if s.drop_last().contains(x) {
            let i = choose|i: int| 0 <= i < s.drop_last().len() && s.drop_last()[i] == x;
            assert(s[i] == x);
        }
        if p(s.last()) {
            if r.push(s.last()).contains(x) && x != s.last() {
                let i = choose|i: int| 0 <= i < r.push(s.last()).len() && r.push(s.last())[i] == x;
                assert(r[i] == x);
            }
            if r.contains(x) {
                let i = choose|i: int| 0 <= i < r.len() && r[i] == x;
                assert(r.push(s.last())[i] == x);
            }
            assert(r.push(s.last())[r.len() as int] == s.last());
        }
    }
}

/// The search shows exactly the entries of the tab that match the query.
pub proof fn law_search_exact(
    all: Seq<PortView>,
    tabs: Seq<TabView>,
    idx: int,
    query: Seq<char>,
    e: PortView,
)
    requires
        tabs.len() > 0,
        query.len() > 0,
    ensures
        filtered(all, tabs, idx, query).contains(e) <==> (tab_entries(all, tabs[idx]).contains(e)
            && search_hit(e, spec_lowercase(query))),
{
    law_keep_members(tab_entries(all, tabs[idx]), search_match(spec_lowercase(query)), e);
}

proof fn lemma_first_per_pid(s: Seq<PortView>)
    ensures
        forall|i: int, j: int|
            0 <= i < j < first_per_pid(s).len() ==> first_per_pid(s)[i].pid != first_per_pid(s)[j].pid,
        forall|x: PortView| #[trigger] first_per_pid(s).contains(x) ==> s.contains(x),
        forall|i: int| 0 <= i < s.len() ==> pid_seen(first_per_pid(s), #[trigger] s[i].pid),
    decreases s.len(),
{
    if s.len() > 0 {
        let d = s.drop_last();
        lemma_first_per_pid(d);
        let r = first_per_pid(d);
        assert forall|x: PortView| #[trigger] first_per_pid(s).contains(x) implies s.contains(x) by {
            if r.contains(x) {
                assert(d.contains(x));
                let i = choose|i: int| 0 <= i < d.len() && d[i] == x;
                assert(s[i] == x);
            } else {
                let i = choose|i: int| 0 <= i < first_per_pid(s).len() && first_per_pid(s)[i] == x;
                if i < r.len() {
                    assert(r[i] == x);
                }
                assert(s[s.len() - 1] == x);
            }
        }
        assert forall|i: int| 0 <= i < s.len() implies pid_seen(first_per_pid(s), #[trigger] s[i].pid) by {
            let f = first_per_pid(s);
            if i < s.len() - 1 {
                assert(d[i] == s[i]);
                assert(pid_seen(r, d[i].pid));
                let j = choose|j: int| 0 <= j < r.len() && r[j].pid == d[i].pid;
                if !pid_seen(r, s.last().pid) {
                    assert(f[j] == r[j]);
                }
            } else if !pid_seen(r, s.last().pid) {
                assert(f[r.len() as int].pid == s[i].pid);
            }
        }
    }
}

/// The "Dev" tab (and `list` without `--all`) shows only entries of a known
/// framework, at most one per process, every process with such an entry
/// once, and nothing that was not scanned.
pub proof fn law_dev_list(s: Seq<PortView>)
    ensures
        forall|i: int, j: int|
            0 <= i < j < known_unique(s).len() ==> known_unique(s)[i].pid != known_unique(s)[j].pid,
        forall|x: PortView|
            #[trigger] known_unique(s).contains(x) ==> s.contains(x) && x.framework != "Unknown"@,
        forall|i: int|
            0 <= i < s.len() && s[i].framework != "Unknown"@ ==> pid_seen(
                known_unique(s),
                #[trigger] s[i].pid,
            ),
{
    let k = keep(s, known_framework());
    lemma_first_per_pid(k);
    assert forall|x: PortView| #[trigger] known_unique(s).contains(x) implies s.contains(x)
        && x.framework != "Unknown"@ by {
        law_keep_members(s, known_framework(), x);
    }
    assert forall|i: int| 0 <= i < s.len() && s[i].framework != "Unknown"@ implies pid_seen(
        known_unique(s),
        #[trigger] s[i].pid,
    ) by {
        law_keep_members(s, known_framework(), s[i]);
        assert(s.contains(s[i]));
        let j = choose|j: int| 0 <= j < k.len() && k[j] == s[i];
        assert(pid_seen(first_per_pid(k), k[j].pid));
    }
}

// ───────────────────────────── scans ─────────────────────────────

pub open spec fn lists_below(v: Seq<(u16, u32)>, m: Map<u16, u32>, k: int) -> bool {
    &&& forall|i: int|
        0 <= i < v.len() ==> (#[trigger] v[i]).0 < k && m.contains_key(v[i].0) && m[v[i].0] == v[i].1
    &&& forall|key: u16| key < k && #[trigger] m.contains_key(key) ==> exists|i: int| 0 <= i < v.len() && v[i].0 == key
}

proof fn lemma_listing_below(m: Map<u16, u32>, k: int) -> (v: Seq<(u16, u32)>)
    requires
        0 <= k <= 0x10000,
    ensures
        ports_ascending(v),
        lists_below(v, m, k),
    decreases k,
{
    if k == 0 {
        Seq::empty()
    } else {
        let v = lemma_listing_below(m, k - 1);
        let key = (k - 1) as u16;
        if m.contains_key(key) {
            let w = v.push((key, m[key]));
            assert forall|a: int, b: int| 0 <= a < b < w.len() implies w[a].0 < w[b].0 by {
                assert(w[a] == v[a] || a == v.len());
                if b == v.len() {
                    assert(w[a] == v[a]);
                    assert(v[a].0 < k - 1);
                } else {
                    assert(w[a] == v[a] && w[b] == v[b]);
                }
            }
            assert forall|key2: u16| key2 < k && #[trigger] m.contains_key(key2) implies exists|i: int|
                0 <= i < w.len() && w[i].0 == key2 by {
                if key2 == key {
                    assert(w[v.len() as int].0 == key2);
                } else {
                    let i = choose|i: int| 0 <= i < v.len() && v[i].0 == key2;
                    assert(w[i].0 == key2);
                }
            }
            assert forall|i: int| 0 <= i < w.len() implies (#[trigger] w[i]).0 < k && m.contains_key(
                w[i].0,
            ) && m[w[i].0] == w[i].1 by {
                if i < v.len() {
                    assert(w[i] == v[i]);
                    assert(m.contains_key(v[i].0));
                }
            }
            w
        } else {
            v
        }
    }
}

/// Every port table has an ascending listing, so `table_entries` lists it.
pub proof fn law_table_entries(m: Map<u16, u32>)
    ensures
        ports_ascending(table_entries(m)),
        lists_table(table_entries(m), m),
{
    let v = lemma_listing_below(m, 0x10000);
    assert(ports_ascending(v) && lists_table(v, m));
}

/// A scan lists each listening port once, in ascending order.
pub proof fn law_scan_ascending(
    listening: Seq<char>,
    ps: Seq<ProcView>,
    cwds: Seq<(u32, Seq<char>)>,
    dirs: Seq<DirView>,
)
    ensures
        ({
            let r = describe_all(table_entries(listening_table(listening)), ps, cwds, dirs);
            forall|i: int, j: int| 0 <= i < j < r.len() ==> r[i].port < r[j].port
        }),
{
    law_table_entries(listening_table(listening));
}

/// `info PORT` reports the same record for a port as `ps` lists for it.
pub proof fn law_scan_port_in_list(
    listening: Seq<char>,
    ps: Seq<ProcView>,
    cwds: Seq<(u32, Seq<char>)>,
    dirs: Seq<DirView>,
    port: u16,
)
    requires
        listening_table(listening).contains_key(port),
    ensures
        describe_all(table_entries(listening_table(listening)), ps, cwds, dirs).contains(
            describe(port, listening_table(listening)[port], ps, cwds, dirs),
        ),
{
    let m = listening_table(listening);
    law_table_entries(m);
    let v = table_entries(m);
    let i = choose|i: int| 0 <= i < v.len() && v[i].0 == port;
    assert(m[v[i].0] == v[i].1);
    let r = describe_all(v, ps, cwds, dirs);
    assert(r[i] == describe(port, m[port], ps, cwds, dirs));
}

// ───────────────────────────── columns ─────────────────────────────

/// A truncated text never exceeds the width, is the text itself when it
/// fits, and otherwise keeps the text's beginning before the ellipsis.
pub proof fn law_trunc(text: Seq<char>, max: int)
    requires
        0 <= max,
        text.len() <= max || max > 0,
    ensures
        truncated(text, max).len() <= max,
        text.len() <= max ==> truncated(text, max) == text,
        text.len() > max ==> truncated(text, max).take(max - 1) == text.take(max - 1),
{
    if text.len() > max {
        assert(truncated(text, max).take(max - 1) =~= text.take(max - 1));
    }
}

/// A padded column is the text followed by spaces, as wide as the column
/// or the text, whichever is wider.
pub proof fn law_fmt_col(text: Seq<char>, width: int)
    ensures
        padded(text, width).len() == if width > text.len() {
            width
        } else {
            text.len() as int
        },
        padded(text, width).take(text.len() as int) == text,
        forall|i: int| text.len() <= i < padded(text, width).len() ==> padded(text, width)[i] == ' ',
{
    assert(padded(text, width).take(text.len() as int) =~= text);
}

// ───────────────────────────── the list ─────────────────────────────

/// The next tab then the previous tab (or the previous then the next)
/// brings back the tab and the list it showed.
pub proof fn law_cycle_round_trip(a: App, b: App, c: App, forward_first: bool)
    requires
        a.wf(),
        forward_first ==> a.after_cycle(
            b,
            ((a.filter_idx + 1) % (a.filters@.len() as int)) as usize,
        ),
        forward_first ==> b.after_cycle(
            c,
            if b.filter_idx == 0 {
                (b.filters@.len() - 1) as usize
            } else {
                (b.filter_idx - 1) as usize
            },
        ),
        !forward_first ==> a.after_cycle(
            b,
            if a.filter_idx == 0 {
                (a.filters@.len() - 1) as usize
            } else {
                (a.filter_idx - 1) as usize
            },
        ),
        !forward_first ==> b.after_cycle(
            c,
            ((b.filter_idx + 1) % (b.filters@.len() as int)) as usize,
        ),
    ensures
        c.filter_idx == a.filter_idx,
        port_views(c.entries@) == a.listed(),
        c.filters == a.filters,
        c.search_query == a.search_query,
{
    let n = a.filters@.len() as int;
    assert(b.filters == a.filters);
    vstd::std_specs::vec::axiom_spec_len(&a.filters);
    vstd::arithmetic::div_mod::lemma_small_mod(0, n as nat);
    vstd::arithmetic::div_mod::lemma_mod_add_multiples_vanish(0, n);
    if a.filter_idx + 1 < n {
        vstd::arithmetic::div_mod::lemma_small_mod((a.filter_idx + 1) as nat, n as nat);
    }
    if a.filter_idx > 0 {
        vstd::arithmetic::div_mod::lemma_small_mod(a.filter_idx as nat, n as nat);
    }
    assert(c.filters == a.filters);
    assert(c.filter_idx == a.filter_idx);
    assert(c.all_entries == a.all_entries);
}

/// Typing a character and deleting it brings back the query and the list
/// that the query shows.
pub proof fn law_search_push_pop(a: App, b: App, c: App, ch: char)
    requires
        a.after_search(b, a.search_query@.push(ch), a.searching),
        b.after_search(
            c,
            if b.search_query@.len() > 0 {
                b.search_query@.drop_last()
            } else {
                b.search_query@
            },
            b.searching,
        ),
    ensures
        c.search_query@ == a.search_query@,
        port_views(c.entries@) == a.listed(),
        c.searching == a.searching,
{
    assert(a.search_query@.push(ch).drop_last() == a.search_query@);
}

/// Cancelling a search shows the current tab's whole list again.
pub proof fn law_search_cancel(a: App, b: App)
    requires
        a.wf(),
        a.after_search(b, Seq::<char>::empty(), false),
    ensures
        port_views(b.entries@) == tab_entries(a.scanned(), a.tab()),
        b.search_query@.len() == 0,
        b.selected == 0,
{
}

proof fn lemma_port_index(es: Seq<PortView>, p: u16, i: int)
    requires
        0 <= i,
        exists|j: int| i <= j < es.len() && es[j].port == p,
    ensures
        port_index_from(es, p, i) matches Some(k) && i <= k < es.len() && es[k].port == p,
    decreases es.len() - i,
{
    if es[i].port != p {
        lemma_port_index(es, p, i + 1);
    }
}

/// A new scan keeps the selection on the port that was selected, when that
/// port is still listed.
pub proof fn law_scan_keeps_selection(a: App, b: App, results: Seq<PortView>)
    requires
        a.wf(),
        a.after_scan(b, results),
        a.selected < a.entries@.len(),
        exists|j: int|
            0 <= j < b.entries@.len() && b.entries@[j].port == a.entries@[a.selected as int].port,
    ensures
        b.selected < b.entries@.len(),
        b.entries@[b.selected as int].port == a.entries@[a.selected as int].port,
{
    let es = port_views(b.entries@);
    vstd::std_specs::vec::axiom_spec_len(&b.entries);
    let p = a.entries@[a.selected as int].port;
    let j = choose|j: int| 0 <= j < b.entries@.len() && b.entries@[j].port == p;
    assert(es[j].port == p);
    lemma_port_index(es, p, 0);
    let k = port_index_from(es, p, 0)->0;
    assert(es[k] == b.entries@[k]@);
    assert(b.selected == selection_after(a, es));
    assert(selection_after(a, es) == k as usize);
}

/// After the selection moves, the selected row lies within the rows shown.
pub proof fn law_selection_visible(a: App, sel: usize)
    requires
        visible_rows(a.table_height) > 0,
    ensures
        a.with_selection(sel).scroll_offset <= sel < a.with_selection(sel).scroll_offset
            + visible_rows(a.table_height),
{
}

/// Opening the actions panel and going back returns to the list.
pub proof fn law_actions_back(a: App)
    requires
        a.view is List,
        a.entries@.len() > 0,
    ensures
        a.open_actions_spec().go_back_spec() == (App { action_idx: 0, ..a }),
{
}

/// The list never shows an entry that the last scan did not report.
pub proof fn law_listed_from_scan(
    all: Seq<PortView>,
    tabs: Seq<TabView>,
    idx: int,
    query: Seq<char>,
    e: PortView,
)
    requires
        tabs.len() > 0 ==> 0 <= idx < tabs.len(),
        filtered(all, tabs, idx, query).contains(e),
    ensures
        all.contains(e),
{
    if tabs.len() > 0 {
        let t = tabs[idx];
        let base = tab_entries(all, t);
        if query.len() > 0 {
            law_keep_members(base, search_match(spec_lowercase(query)), e);
        }
        assert(base.contains(e));
        if t.is_dev {
            law_dev_list(all);
        } else if let Some(l) = t.lang {
            law_keep_members(all, crate::app::lang_is(l), e);
        }
    }
}

/// Confirming a force kill signals the selected process with SIGKILL.
pub proof fn law_force_kill_confirmed(a: App, b: App, c: App, start: bool, r: (bool, Effect))
    requires
        a.wf(),
        !a.searching,
        crate::app::action_spec(a.action_idx as int) == Action::ForceKill,
        a.execute_post(b, start),
        key_post(b, c, KeyPress { code: Key::Char('y'), ctrl: false }, r),
        b.selected < b.entries@.len(),
    ensures
        r.0,
        r.1 == (Effect::Kill { port: b.entries@[b.selected as int].port, force: true }),
        c == b,
{
}

// ───────────────────────────── tabs ─────────────────────────────

/// Some tab from index `from` on is labelled `l`.
pub open spec fn has_label(t: Seq<TabView>, from: int, l: Seq<char>) -> bool {
    exists|a: int| from <= a < t.len() && t[a].label == l
}

proof fn lemma_ascending_unique(t1: Seq<TabView>, t2: Seq<TabView>, i: int, j: int)
    requires
        0 <= i <= t1.len(),
        0 <= j <= t2.len(),
        forall|a: int, b: int| i <= a < b < t1.len() ==> lex_lt(t1[a].label, t1[b].label),
        forall|a: int, b: int| j <= a < b < t2.len() ==> lex_lt(t2[a].label, t2[b].label),
        forall|l: Seq<char>| #[trigger] has_label(t1, i, l) <==> has_label(t2, j, l),
    ensures
        t1.len() - i == t2.len() - j,
        forall|a: int| i <= a < t1.len() ==> t1[a].label == t2[a - i + j].label,
    decreases t1.len() - i,
{
    if i == t1.len() && j < t2.len() {
        assert(has_label(t2, j, t2[j].label));
        assert(!has_label(t1, i, t2[j].label));
    }
    if i < t1.len() && j == t2.len() {
        assert(has_label(t1, i, t1[i].label));
        assert(!has_label(t2, j, t1[i].label));
    }
    if i < t1.len() && j < t2.len() {
        let x = t1[i].label;
        let y = t2[j].label;
        assert(has_label(t1, i, x));
        assert(has_label(t2, j, x));
        assert(has_label(t2, j, y));
        assert(has_label(t1, i, y));
        let b = choose|b: int| j <= b < t2.len() && t2[b].label == x;
        let a = choose|a: int| i <= a < t1.len() && t1[a].label == y;
        if x != y {
            if b > j {
                assert(lex_lt(y, x));
            }
            if a > i {
                assert(lex_lt(x, y));
            }
            if b > j && a > i {
                lemma_lex_transitive(x, y, x);
                lemma_lex_irreflexive(x);
            }
        }
        assert forall|l: Seq<char>| #[trigger] has_label(t1, i + 1, l) <==> has_label(t2, j + 1, l) by {
            if has_label(t1, i + 1, l) {
                let a2 = choose|a2: int| i + 1 <= a2 < t1.len() && t1[a2].label == l;
                assert(lex_lt(x, l));
                assert(has_label(t1, i, l));
                assert(has_label(t2, j, l));
                let b2 = choose|b2: int| j <= b2 < t2.len() && t2[b2].label == l;
                if b2 == j {
                    lemma_lex_irreflexive(x);
                }
            }
            if has_label(t2, j + 1, l) {
                let b2 = choose|b2: int| j + 1 <= b2 < t2.len() && t2[b2].label == l;
                assert(lex_lt(y, l));
                assert(has_label(t2, j, l));
                assert(has_label(t1, i, l));
                let a2 = choose|a2: int| i <= a2 < t1.len() && t1[a2].label == l;
                if a2 == i {
                    lemma_lex_irreflexive(y);
                }
            }
        }
        lemma_ascending_unique(t1, t2, i + 1, j + 1);
    }
}

/// The tabs after a scan are determined by the scan alone: "Dev", "All",
/// then the running languages in ascending order.
pub proof fn law_tabs_determined(t1: Seq<TabView>, t2: Seq<TabView>, all: Seq<PortView>)
    requires
        tabs_for(t1, all),
        tabs_for(t2, all),
    ensures
        t1 == t2,
{
    let n1 = t1.len();
    assert forall|l: Seq<char>| #[trigger] has_label(t1, 2, l) <==> has_label(t2, 2, l) by {
        assert(has_label(t1, 2, l) == crate::app::running_language(all, l));
        assert(has_label(t2, 2, l) == crate::app::running_language(all, l));
    }
    lemma_ascending_unique(t1, t2, 2, 2);
    assert forall|a: int| 0 <= a < n1 implies t1[a] == t2[a] by {
        if a >= 2 {
            assert(t1[a] == crate::app::lang_tab(t1[a].label));
            assert(t2[a] == crate::app::lang_tab(t2[a].label));
        }
    }
    assert(t1 =~= t2);
}

// ───────────────────────────── start commands ─────────────────────────────

/// Nothing in `chain` is a script runner, `node` running a script, or (with a
/// directory) a command line that a package.json script matches.
pub open spec fn plain_chain(ps: Seq<ProcView>, chain: Seq<u32>, dir: Option<DirView>) -> bool {
    forall|k: int|
        0 <= k < chain.len() ==> match crate::scanner::proc_lookup(ps, #[trigger] chain[k]) {
            Some(info) => !crate::scanner::is_runner(info.name) && !crate::scanner::node_script(info)
                && match dir {
                Some(d) => crate::detect::package_script_text(info.cmdline, d) is None,
                None => true,
            },
            None => true,
        }
}

proof fn lemma_plain_chain_picks(ps: Seq<ProcView>, chain: Seq<u32>, dir: Option<DirView>)
    requires
        plain_chain(ps, chain, dir),
    ensures
        crate::scanner::runner_pick(ps, chain) is None,
        crate::scanner::node_pick(ps, chain) is None,
        dir matches Some(d) ==> crate::scanner::script_pick(ps, chain, d) is None,
    decreases chain.len(),
{
    if chain.len() > 0 {
        let dl = chain.drop_last();
        let df = chain.drop_first();
        assert(plain_chain(ps, dl, dir)) by {
            assert forall|k: int| 0 <= k < dl.len() implies dl[k] == chain[k] by {}
        }
        assert(plain_chain(ps, df, dir)) by {
            assert forall|k: int| 0 <= k < df.len() implies df[k] == chain[k + 1] by {}
        }
        lemma_plain_chain_picks(ps, dl, dir);
        lemma_plain_chain_picks(ps, df, dir);
        assert(chain[chain.len() - 1] == chain.last());
        assert(chain[0] == chain[0]);
    }
}

/// When no process of the chain from `pid` up is a script runner or `node`
/// running a script, and no package.json script matches any of them, the
/// start command is the process's own command line, trimmed and cleaned
/// (its parents' command lines play no part), or "?" for an unknown process.
pub proof fn law_start_cmd_own_command(ps: Seq<ProcView>, pid: u32, dir: Option<DirView>)
    requires
        plain_chain(ps, crate::scanner::ancestry(ps, pid, 5), dir),
    ensures
        crate::scanner::start_cmd_text(ps, pid, dir) == match crate::scanner::proc_lookup(ps, pid) {
            Some(info) => crate::detect::clean_cmd_text(crate::text::trim(info.cmdline)),
            None => "?"@,
        },
{
    lemma_plain_chain_picks(ps, crate::scanner::ancestry(ps, pid, 5), dir);
}

// ───────────────────────────── detection ─────────────────────────────

proof fn lemma_first_sig(lower: Seq<char>, k: int, i: int)
    requires
        0 <= k <= i < 44,
        crate::text::contains(lower, crate::detect::cmd_sig(i).0),
        forall|j: int| 0 <= j < i ==> !crate::text::contains(lower, #[trigger] crate::detect::cmd_sig(j).0),
    ensures
        crate::detect::first_sig_from(lower, k) == Some(i),
    decreases i - k,
{
    if k < i {
        lemma_first_sig(lower, k + 1, i);
    }
}

proof fn lemma_no_sig(lower: Seq<char>, k: int)
    requires
        0 <= k,
        forall|j: int| 0 <= j < 44 ==> !crate::text::contains(lower, #[trigger] crate::detect::cmd_sig(j).0),
    ensures
        crate::detect::first_sig_from(lower, k) is None,
    decreases 44 - k,
{
    if k < 44 {
        lemma_no_sig(lower, k + 1);
    }
}

proof fn lemma_first_marker(d: DirView, k: int, j: int)
    requires
        0 <= k <= j < 19,
        crate::detect::has_file(d, crate::detect::dir_marker(j).0),
        forall|m: int| 0 <= m < j ==> !crate::detect::has_file(d, #[trigger] crate::detect::dir_marker(m).0),
    ensures
        crate::detect::first_marker_from(d, k) == Some(j),
    decreases j - k,
{
    if k < j {
        lemma_first_marker(d, k + 1, j);
    }
}

/// A command line that contains a framework signature is that framework's,
/// the first signature in the table winning, whatever files its working
/// directory holds.
pub proof fn law_detect_signature_first(cmdline: Seq<char>, dir: Option<DirView>, i: int)
    requires
        0 <= i < 44,
        crate::text::contains(spec_lowercase(cmdline), crate::detect::cmd_sig(i).0),
        forall|j: int|
            0 <= j < i ==> !crate::text::contains(spec_lowercase(cmdline), #[trigger] crate::detect::cmd_sig(j).0),
    ensures
        crate::detect::detection(cmdline, dir) == (crate::detect::cmd_sig(i).1, crate::detect::cmd_sig(i).2),
{
    lemma_first_sig(spec_lowercase(cmdline), 0, i);
}

/// The working directory is consulted only when no signature occurs: with
/// some signature in the command line, any two directories give the same
/// answer.
pub proof fn law_detect_dir_irrelevant(cmdline: Seq<char>, d1: Option<DirView>, d2: Option<DirView>, i: int)
    requires
        0 <= i < 44,
        crate::text::contains(spec_lowercase(cmdline), crate::detect::cmd_sig(i).0),
    ensures
        crate::detect::detection(cmdline, d1) == crate::detect::detection(cmdline, d2),
{
    lemma_some_sig(spec_lowercase(cmdline), 0, i);
}

proof fn lemma_some_sig(lower: Seq<char>, k: int, i: int)
    requires
        0 <= k <= i < 44,
        crate::text::contains(lower, crate::detect::cmd_sig(i).0),
    ensures
        crate::detect::first_sig_from(lower, k) is Some,
    decreases i - k,
{
    if k < i {
        lemma_some_sig(lower, k + 1, i);
    }
}

/// With no signature in the command line, the first marker file present in
/// the working directory decides; with no directory, or no marker in it,
/// the process is unknown.
pub proof fn law_detect_marker_fallback(cmdline: Seq<char>, dir: Option<DirView>)
    requires
        forall|j: int|
            0 <= j < 44 ==> !crate::text::contains(spec_lowercase(cmdline), #[trigger] crate::detect::cmd_sig(j).0),
    ensures
        forall|j: int|
            0 <= j < 19 && (dir matches Some(d) && crate::detect::has_file(d, crate::detect::dir_marker(j).0)
                && forall|m: int|
                0 <= m < j ==> !crate::detect::has_file(d, #[trigger] crate::detect::dir_marker(m).0))
                ==> crate::detect::detection(cmdline, dir) == (
                #[trigger] crate::detect::dir_marker(j).1,
                crate::detect::dir_marker(j).2,
            ),
        (dir is None || (dir matches Some(d) && forall|m: int|
            0 <= m < 19 ==> !crate::detect::has_file(d, #[trigger] crate::detect::dir_marker(m).0)))
            ==> crate::detect::detection(cmdline, dir) == ("Unknown"@, "Unknown"@),
{
    lemma_no_sig(spec_lowercase(cmdline), 0);
    assert forall|j: int|
        0 <= j < 19 && (dir matches Some(d) && crate::detect::has_file(d, crate::detect::dir_marker(j).0)
            && forall|m: int|
            0 <= m < j ==> !crate::detect::has_file(d, #[trigger] crate::detect::dir_marker(m).0))
        implies crate::detect::detection(cmdline, dir) == (
        #[trigger] crate::detect::dir_marker(j).1,
        crate::detect::dir_marker(j).2,
    ) by {
        let d = dir->0;
        lemma_first_marker(d, 0, j);
    }
    if let Some(d) = dir {
        if forall|m: int| 0 <= m < 19 ==> !crate::detect::has_file(d, #[trigger] crate::detect::dir_marker(m).0) {
            lemma_no_marker(d, 0);
        }
    }
}

proof fn lemma_no_marker(d: DirView, k: int)
    requires
        0 <= k,
        forall|m: int| 0 <= m < 19 ==> !crate::detect::has_file(d, #[trigger] crate::detect::dir_marker(m).0),
    ensures
        crate::detect::first_marker_from(d, k) is None,
    decreases 19 - k,
{
    if k < 19 {
        lemma_no_marker(d, k + 1);
    }
}

// ───────────────────────────── search fields ─────────────────────────────

/// An entry of the current tab is in the searched list exactly when the
/// lower-cased query occurs in its port or pid written in decimal, or in
/// the lower-cased project, framework, language, start command, process
/// name or user.
pub proof fn law_search_fields(
    all: Seq<PortView>,
    tabs: Seq<TabView>,
    idx: int,
    query: Seq<char>,
    e: PortView,
)
    requires
        tabs.len() > 0,
        query.len() > 0,
        tab_entries(all, tabs[idx]).contains(e),
    ensures
        ({
            let q = spec_lowercase(query);
            filtered(all, tabs, idx, query).contains(e) <==> (
            crate::text::contains(crate::text::decimal(e.port as nat), q)
                || crate::text::contains(crate::text::decimal(e.pid as nat), q)
                || crate::text::contains(spec_lowercase(e.project), q)
                || crate::text::contains(spec_lowercase(e.framework), q)
                || crate::text::contains(spec_lowercase(e.language), q)
                || crate::text::contains(spec_lowercase(e.start_cmd), q)
                || crate::text::contains(spec_lowercase(e.name), q)
                || crate::text::contains(spec_lowercase(e.user), q))
        }),
{
    law_search_exact(all, tabs, idx, query, e);
}

// ───────────────────────────── listening ports ─────────────────────────────

proof fn lemma_digits_parse(ds: Seq<char>, max: int)
    requires
        ds.len() > 0,
        forall|k: int| 0 <= k < ds.len() ==> crate::text::is_digit(#[trigger] ds[k]),
        crate::text::digits_value(ds) <= max,
    ensures
        crate::text::parse_uint(ds, max) == Some(crate::text::digits_value(ds)),
{
    assert(crate::text::is_digit(ds[0]));
    assert(ds[0] != '+');
}

/// After a `p` line naming a process, an `n` line `n` + address + `:` +
/// port records that port for that process, the port being the number
/// after the line's last `:` (so the address may hold colons, as IPv6
/// addresses do), unless an earlier process already holds the port.
pub proof fn law_listen_last_colon(
    st: (Option<u32>, Map<u16, u32>),
    pid_digits: Seq<char>,
    addr: Seq<char>,
    port_digits: Seq<char>,
)
    requires
        pid_digits.len() > 0,
        forall|k: int| 0 <= k < pid_digits.len() ==> crate::text::is_digit(#[trigger] pid_digits[k]),
        crate::text::digits_value(pid_digits) <= 0xffff_ffff,
        port_digits.len() > 0,
        forall|k: int| 0 <= k < port_digits.len() ==> crate::text::is_digit(#[trigger] port_digits[k]),
        crate::text::digits_value(port_digits) <= 0xffff,
    ensures
        ({
            let pid = crate::text::digits_value(pid_digits) as u32;
            let port = crate::text::digits_value(port_digits) as u16;
            let after_p = crate::scanner::listen_step(st, seq!['p'] + pid_digits);
            let after_n = crate::scanner::listen_step(after_p, seq!['n'] + addr + seq![':'] + port_digits);
            &&& after_p == (Some(pid), st.1)
            &&& after_n == (Some(pid), if st.1.contains_key(port) {
                st.1
            } else {
                st.1.insert(port, pid)
            })
        }),
{
    let pl = seq!['p'] + pid_digits;
    assert(pl.drop_first() =~= pid_digits);
    lemma_digits_parse(pid_digits, 0xffff_ffff);
    let line = seq!['n'] + addr + seq![':'] + port_digits;
    let colon: int = addr.len() + 1int;
    assert forall|j: int| line.len() - port_digits.len() <= j < line.len() implies #[trigger] crate::text::other_than(
        ':',
    )(line[j]) by {
        assert(line[j] == port_digits[j - colon - 1]);
        assert(crate::text::is_digit(port_digits[j - colon - 1]));
    }
    assert(line[line.len() - 1 - port_digits.len()] == ':');
    crate::text::lemma_suffix_len_is(line, crate::text::other_than(':'), port_digits.len() as int);
    assert(crate::text::last_index_of(line, ':') == Some(colon as int));
    assert(line.skip(colon + 1) =~= port_digits);
    lemma_digits_parse(port_digits, 0xffff);
}

// ───────────────────────────── package managers ─────────────────────────────

/// The package manager named for a project: the first of bun, yarn and pnpm
/// that the lower-cased command line mentions; else by lock file, bun's
/// (`bun.lockb` or `bun.lock`) first, then `yarn.lock`, then
/// `pnpm-lock.yaml`; else npm.
pub proof fn law_package_manager(cmdline: Seq<char>, d: DirView)
    ensures
        ({
            let lower = spec_lowercase(cmdline);
            let pm = crate::detect::package_manager_text(cmdline, d);
            let named = crate::text::contains(lower, "bun"@) || crate::text::contains(lower, "yarn"@)
                || crate::text::contains(lower, "pnpm"@);
            let bun_lock = crate::detect::has_file(d, "bun.lockb"@) || crate::detect::has_file(d, "bun.lock"@);
            &&& crate::text::contains(lower, "bun"@) ==> pm == "bun"@
            &&& !crate::text::contains(lower, "bun"@) && crate::text::contains(lower, "yarn"@) ==> pm == "yarn"@
            &&& !crate::text::contains(lower, "bun"@) && !crate::text::contains(lower, "yarn"@)
                && crate::text::contains(lower, "pnpm"@) ==> pm == "pnpm"@
            &&& !named && bun_lock ==> pm == "bun"@
            &&& !named && !bun_lock && crate::detect::has_file(d, "yarn.lock"@) ==> pm == "yarn"@
            &&& !named && !bun_lock && !crate::detect::has_file(d, "yarn.lock"@)
                && crate::detect::has_file(d, "pnpm-lock.yaml"@) ==> pm == "pnpm"@
            &&& !named && !bun_lock && !crate::detect::has_file(d, "yarn.lock"@)
                && !crate::detect::has_file(d, "pnpm-lock.yaml"@) ==> pm == "npm"@
        }),
{
}

/// A matched package.json script is named with the project's package
/// manager: the start command begins with that manager and " run ".
pub proof fn law_script_uses_package_manager(cmdline: Seq<char>, d: DirView)
    ensures
        crate::detect::package_script_text(cmdline, d) matches Some(s) ==> s.take(
            crate::detect::package_manager_text(cmdline, d).len() + 5int,
        ) == crate::detect::package_manager_text(cmdline, d) + " run "@,
{
    if let Some(s) = crate::detect::package_script_text(cmdline, d) {
        let pm = crate::detect::package_manager_text(cmdline, d);
        reveal_strlit(" run ");
        let b = crate::detect::best_script(
            crate::detect::spec_package_scripts(d.package_json->0)->0,
            spec_lowercase(cmdline),
        )->0;
        assert(s == pm + " run "@ + b.0);
        assert(s.take(pm.len() + 5int) =~= pm + " run "@);
    }
}

} // verus!
