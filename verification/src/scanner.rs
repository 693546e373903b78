//! Port scanning: reading the output of `lsof` and `ps`, recognising the
//! framework and language behind a listening process, finding the command
//! that started it, and assembling one [`PortInfo`] per listening port.
//!
//! The commands themselves are run by the caller; every function here works
//! on their output and on what the caller found in each working directory
//! ([`DirProbe`]).
use vstd::prelude::*;

use crate::detect::{
    clean_cmd, clean_cmd_text, detect, detection, project_name, project_text, match_package_script, package_script_text, probe_view, DirProbe,
    DirView,
};
use crate::text::{
    char_seqs, chars_eq, chars_of, concat_chars, contains, contains_chars, decimal, decimal_chars, find_ws, first_ws,
    last_index_of, lemma_prefix_len, lines, lines_of, non_ws, parse_uint, parse_uint_chars,
    opt_view, rfind_char, slice_chars, string_of, trim, trim_chars, trim_start, trim_start_chars,
};

verus! {

broadcast use vstd::string::group_string_axioms;

// ───────────────────────────── records ─────────────────────────────

/// One listening TCP port and the process behind it.
#[derive(Debug)]
pub struct PortInfo {
    pub port: u16,
    pub pid: u32,
    pub name: String,
    pub cmdline: String,
    pub start_cmd: String,
    pub cwd: Option<String>,
    pub project: String,
    pub framework: String,
    pub language: String,
    pub user: String,
}

/// The mathematical content of a [`PortInfo`].
pub struct PortView {
    pub port: u16,
    pub pid: u32,
    pub name: Seq<char>,
    pub cmdline: Seq<char>,
    pub start_cmd: Seq<char>,
    pub cwd: Option<Seq<char>>,
    pub project: Seq<char>,
    pub framework: Seq<char>,
    pub language: Seq<char>,
    pub user: Seq<char>,
}

impl View for PortInfo {
    type V = PortView;

    open spec fn view(&self) -> PortView {
        PortView {
            port: self.port,
            pid: self.pid,
            name: self.name@,
            cmdline: self.cmdline@,
            start_cmd: self.start_cmd@,
            cwd: opt_view(self.cwd),
            project: self.project@,
            framework: self.framework@,
            language: self.language@,
            user: self.user@,
        }
    }
}

/// The views of a sequence of [`PortInfo`]s.
pub open spec fn port_views(v: Seq<PortInfo>) -> Seq<PortView> {
    Seq::new(v.len(), |i: int| v[i]@)
}

pub fn copy_opt_string(o: &Option<String>) -> (r: Option<String>)
    ensures
        r == *o,
{
    match o {
        Some(s) => Some(s.clone()),
        None => None,
    }
}

impl PortInfo {
    /// A copy of this record.
    pub fn duplicate(&self) -> (r: PortInfo)
        ensures
            r == *self,
    {
        PortInfo {
            port: self.port,
            pid: self.pid,
            name: self.name.clone(),
            cmdline: self.cmdline.clone(),
            start_cmd: self.start_cmd.clone(),
            cwd: copy_opt_string(&self.cwd),
            project: self.project.clone(),
            framework: self.framework.clone(),
            language: self.language.clone(),
            user: self.user.clone(),
        }
    }
}

/// One line of `ps -axo pid=,ppid=,user=,comm=,args=`.
#[derive(Debug)]
pub struct ProcInfo {
    pub pid: u32,
    pub ppid: u32,
    pub user: String,
    pub name: String,
    pub cmdline: String,
}

pub struct ProcView {
    pub pid: u32,
    pub ppid: u32,
    pub user: Seq<char>,
    pub name: Seq<char>,
    pub cmdline: Seq<char>,
}

impl View for ProcInfo {
    type V = ProcView;

    open spec fn view(&self) -> ProcView {
        ProcView {
            pid: self.pid,
            ppid: self.ppid,
            user: self.user@,
            name: self.name@,
            cmdline: self.cmdline@,
        }
    }
}

pub open spec fn proc_views(v: Seq<ProcInfo>) -> Seq<ProcView> {
    Seq::new(v.len(), |i: int| v[i]@)
}

/// The working directory of a process, as `lsof -d cwd` reports it.
#[derive(Debug)]
pub struct CwdEntry {
    pub pid: u32,
    pub path: String,
}

pub open spec fn cwd_views(v: Seq<CwdEntry>) -> Seq<(u32, Seq<char>)> {
    Seq::new(v.len(), |i: int| (v[i].pid, v[i].path@))
}

// ───────────────────────────── lsof: listening ports ─────────────────────────────

/// `str::parse::<u32>`.
pub open spec fn parse_u32(s: Seq<char>) -> Option<u32> {
    match parse_uint(s, 0xffff_ffff) {
        Some(v) => Some(v as u32),
        None => None,
    }
}

/// `str::parse::<u16>`.
pub open spec fn parse_u16(s: Seq<char>) -> Option<u16> {
    match parse_uint(s, 0xffff) {
        Some(v) => Some(v as u16),
        None => None,
    }
}

/// One line of `lsof -F pn` output applied to the state (current pid, port
/// table): a `p` line names the process of the lines that follow, an `n` line
/// gives an address whose text after its last `:` is the port. The first
/// process seen on a port keeps it.
pub open spec fn listen_step(st: (Option<u32>, Map<u16, u32>), line: Seq<char>) -> (
    Option<u32>,
    Map<u16, u32>,
) {
    if line.len() > 0 && line[0] == 'p' {
        (parse_u32(line.drop_first()), st.1)
    } else if line.len() > 0 && line[0] == 'n' {
        match (st.0, last_index_of(line, ':')) {
            (Some(pid), Some(colon)) => match parse_u16(line.skip(colon + 1)) {
                Some(port) => if st.1.contains_key(port) {
                    st
                } else {
                    (st.0, st.1.insert(port, pid))
                },
                None => st,
            },
            _ => st,
        }
    } else {
        st
    }
}

pub open spec fn listen_fold(ls: Seq<Seq<char>>) -> (Option<u32>, Map<u16, u32>)
    decreases ls.len(),
{
    if ls.len() == 0 {
        (None, Map::empty())
    } else {
        listen_step(listen_fold(ls.drop_last()), ls.last())
    }
}

/// The port → pid table that the output of `lsof -iTCP -sTCP:LISTEN -nP -F pn`
/// describes.
pub open spec fn listening_table(out: Seq<char>) -> Map<u16, u32> {
    listen_fold(lines(out)).1
}

pub open spec fn ports_ascending(v: Seq<(u16, u32)>) -> bool {
    forall|i: int, j: int| 0 <= i < j < v.len() ==> v[i].0 < v[j].0
}

/// `v` lists the entries of `m`, each once.
pub open spec fn lists_table(v: Seq<(u16, u32)>, m: Map<u16, u32>) -> bool {
    &&& forall|i: int| 0 <= i < v.len() ==> #[trigger] m.contains_key(v[i].0) && m[v[i].0] == v[i].1
    &&& forall|k: u16| #[trigger] m.contains_key(k) ==> exists|i: int| 0 <= i < v.len() && v[i].0 == k
}

/// The first index whose port is at least `port`.
fn port_position(v: &Vec<(u16, u32)>, port: u16) -> (i: usize)
    requires
        ports_ascending(v@),
    ensures
        i <= v.len(),
        forall|j: int| 0 <= j < i ==> v@[j].0 < port,
        i < v.len() ==> v@[i as int].0 >= port,
{
    let mut i: usize = 0;
    while i < v.len() && v[i].0 < port
        invariant
            i <= v.len(),
            forall|j: int| 0 <= j < i ==> v@[j].0 < port,
        decreases v.len() - i,
    {
        i = i + 1;
    }
    i
}

/// Records `port → pid` unless the port is already taken.
fn add_listener(v: &mut Vec<(u16, u32)>, port: u16, pid: u32, Ghost(m): Ghost<Map<u16, u32>>)
    requires
        ports_ascending(old(v)@),
        lists_table(old(v)@, m),
    ensures
        ports_ascending(final(v)@),
        lists_table(
            final(v)@,
            if m.contains_key(port) {
                m
            } else {
                m.insert(port, pid)
            },
        ),
{
    let i = port_position(v, port);
    if i < v.len() && v[i].0 == port {
        assert(m.contains_key(port));
        return ;
    }
    proof {
        if m.contains_key(port) {
            let j = choose|j: int| 0 <= j < v@.len() && v@[j].0 == port;
            if j < i {
            } else {
                assert(v@[i as int].0 < v@[j].0 || i == j);
            }
        }
    }
    let ghost old_v = v@;
    v.insert(i, (port, pid));
    proof {
        let nv = v@;
        let m2 = m.insert(port, pid);
        old_v.insert_ensures(i as int, (port, pid));
        assert forall|a: int, b: int| 0 <= a < b < nv.len() implies nv[a].0 < nv[b].0 by {
            if b < i {
            } else if b == i {
            } else if a < i {
                assert(nv[b] == old_v[b - 1]);
            } else if a == i {
                assert(nv[b] == old_v[b - 1]);
            } else {
                assert(nv[a] == old_v[a - 1]);
                assert(nv[b] == old_v[b - 1]);
            }
        }
        assert forall|a: int| 0 <= a < nv.len() implies #[trigger] m2.contains_key(nv[a].0)
            && m2[nv[a].0] == nv[a].1 by {
            if a < i {
                assert(m.contains_key(old_v[a].0));
            } else if a > i {
                assert(nv[a] == old_v[a - 1]);
                assert(m.contains_key(old_v[a - 1].0));
            }
        }
        assert forall|k: u16| #[trigger] m2.contains_key(k) implies exists|a: int|
            0 <= a < nv.len() && nv[a].0 == k by {
            if k == port {
                assert(nv[i as int].0 == k);
            } else {
                assert(m.contains_key(k));
                let j = choose|j: int| 0 <= j < old_v.len() && old_v[j].0 == k;
                if j < i {
                    assert(nv[j].0 == k);
                } else {
                    assert(nv[j + 1].0 == k);
                }
            }
        }
    }
}

/// The listening ports that `lsof -iTCP -sTCP:LISTEN -nP -F pn` printed, each
/// with the first process reported on it, in ascending port order.
pub fn parse_listening(out: &str) -> (v: Vec<(u16, u32)>)
    ensures
        ports_ascending(v@),
        lists_table(v@, listening_table(out@)),
{
    let text = chars_of(out);
    let ls = lines_of(&text);
    let mut v: Vec<(u16, u32)> = Vec::new();
    let mut pid: Option<u32> = None;
    let mut i: usize = 0;
    while i < ls.len()
        invariant
            i <= ls.len(),
            char_seqs(ls@) == lines(out@),
            ports_ascending(v@),
            listen_fold(char_seqs(ls@).take(i as int)).0 == pid,
            lists_table(v@, listen_fold(char_seqs(ls@).take(i as int)).1),
        decreases ls.len() - i,
    {
        let line = &ls[i];
        let ghost all = char_seqs(ls@);
        let ghost st = listen_fold(all.take(i as int));
        assert(all.take(i + 1).drop_last() == all.take(i as int));
        assert(all.take(i + 1).last() == line@);
        if line.len() > 0 && line[0] == 'p' {
            let rest = slice_chars(line, 1, line.len());
            assert(rest@ == line@.drop_first());
            pid = parse_uint_chars(&rest, 0xffff_ffff);
        } else if line.len() > 0 && line[0] == 'n' {
            match pid {
                Some(p) => {
                    match rfind_char(line, ':') {
                        Some(colon) => {
                            let tail = slice_chars(line, colon + 1, line.len());
                            assert(tail@ == line@.skip(colon + 1));
                            match parse_uint_chars(&tail, 0xffff) {
                                Some(port) => {
                                    add_listener(&mut v, port as u16, p, Ghost(st.1));
                                },
                                None => {},
                            }
                        },
                        None => {},
                    }
                },
                None => {},
            }
        }
        i = i + 1;
    }
    assert(char_seqs(ls@).take(ls.len() as int) == char_seqs(ls@));
    v
}

// ───────────────────────────── pid lists ─────────────────────────────

pub open spec fn ascending_u32(v: Seq<u32>) -> bool {
    forall|i: int, j: int| 0 <= i < j < v.len() ==> v[i] < v[j]
}

/// The pids of `ports`, ascending, each once.
pub fn unique_pids(ports: &Vec<(u16, u32)>) -> (pids: Vec<u32>)
    ensures
        ascending_u32(pids@),
        forall|p: u32| pids@.contains(p) <==> exists|i: int| 0 <= i < ports.len() && ports@[i].1 == p,
{
    let mut pids: Vec<u32> = Vec::new();
    let mut k: usize = 0;
    while k < ports.len()
        invariant
            k <= ports.len(),
            ascending_u32(pids@),
            forall|p: u32|
                pids@.contains(p) <==> exists|i: int| 0 <= i < k && ports@[i].1 == p,
        decreases ports.len() - k,
    {
        let p = ports[k].1;
        let mut i: usize = 0;
        while i < pids.len() && pids[i] < p
            invariant
                i <= pids.len(),
                forall|j: int| 0 <= j < i ==> pids@[j] < p,
            decreases pids.len() - i,
        {
            i = i + 1;
        }
        let ghost old_p = pids@;
        if i < pids.len() && pids[i] == p {
            assert(pids@.contains(p));
        } else {
            pids.insert(i, p);
            proof {
                old_p.insert_ensures(i as int, p);
                let np = pids@;
                assert forall|a: int, b: int| 0 <= a < b < np.len() implies np[a] < np[b] by {
                    if b < i {
                    } else if b == i {
                    } else if a < i {
                        assert(np[b] == old_p[b - 1]);
                    } else if a == i {
                        assert(np[b] == old_p[b - 1]);
                    } else {
                        assert(np[a] == old_p[a - 1]);
                        assert(np[b] == old_p[b - 1]);
                    }
                }
                assert forall|q: u32| np.contains(q) implies old_p.contains(q) || q == p by {
                    let a = choose|a: int| 0 <= a < np.len() && np[a] == q;
                    if a < i {
                        assert(old_p[a] == q);
                    } else if a > i {
                        assert(old_p[a - 1] == q);
                    }
                }
                assert forall|q: u32| old_p.contains(q) implies np.contains(q) by {
                    let a = choose|a: int| 0 <= a < old_p.len() && old_p[a] == q;
                    if a < i {
                        assert(np[a] == q);
                    } else {
                        assert(np[a + 1] == q);
                    }
                }
                assert(np[i as int] == p);
            }
        }
        proof {
            assert forall|q: u32|
                pids@.contains(q) <==> exists|j: int| 0 <= j < k + 1 && ports@[j].1 == q by {
                if q == p {
                    assert(ports@[k as int].1 == q);
                } else if exists|j: int| 0 <= j < k + 1 && ports@[j].1 == q {
                    let j = choose|j: int| 0 <= j < k + 1 && ports@[j].1 == q;
                    assert(j < k);
                }
            }
        }
        k = k + 1;
    }
    pids
}

/// The pids joined by commas, as `lsof -p` takes them.
pub open spec fn pid_list_text(pids: Seq<u32>) -> Seq<char>
    decreases pids.len(),
{
    if pids.len() == 0 {
        seq![]
    } else if pids.len() == 1 {
        decimal(pids[0] as nat)
    } else {
        pid_list_text(pids.drop_last()) + seq![','] + decimal(pids.last() as nat)
    }
}

pub fn pid_list(pids: &Vec<u32>) -> (s: String)
    ensures
        s@ == pid_list_text(pids@),
{
    let mut out: Vec<char> = Vec::new();
    let mut i: usize = 0;
    while i < pids.len()
        invariant
            i <= pids.len(),
            out@ == pid_list_text(pids@.take(i as int)),
        decreases pids.len() - i,
    {
        assert(pids@.take(i + 1).drop_last() == pids@.take(i as int));
        let digits = decimal_chars(pids[i] as u64);
        if i == 0 {
            out = digits;
        } else {
            out.push(',');
            out = concat_chars(&out, &digits);
        }
        i = i + 1;
    }
    assert(pids@.take(pids.len() as int) == pids@);
    string_of(out.as_slice())
}

// ───────────────────────────── ps: processes ─────────────────────────────

/// The first whitespace-delimited token of `s` and what follows it with
/// leading whitespace removed; `None` when `s` holds no whitespace.
pub open spec fn split_token(s: Seq<char>) -> Option<(Seq<char>, Seq<char>)> {
    let k = first_ws(s);
    if k < s.len() {
        Some((s.take(k), trim_start(s.skip(k))))
    } else {
        None
    }
}

fn split_token_chars(s: &Vec<char>) -> (r: Option<(Vec<char>, Vec<char>)>)
    ensures
        match r {
            Some(p) => split_token(s@) == Some((p.0@, p.1@)),
            None => split_token(s@) is None,
        },
{
    proof {
        lemma_prefix_len(s@, non_ws());
    }
    let k = find_ws(s);
    if k < s.len() {
        let head = slice_chars(s, 0, k);
        let tail = slice_chars(s, k, s.len());
        let rest = trim_start_chars(&tail);
        assert(head@ == s@.take(k as int));
        assert(tail@ == s@.skip(k as int));
        Some((head, rest))
    } else {
        None
    }
}

/// One line of `ps -axo pid=,ppid=,user=,comm=,args=`: pid, parent pid, user,
/// then the command name and its arguments (the whole rest again when there
/// are no arguments).
pub open spec fn ps_line(line: Seq<char>) -> Option<ProcView> {
    let t = trim_start(trim(line));
    if trim(line).len() == 0 {
        None
    } else {
        match split_token(t) {
            None => None,
            Some((a, r1)) => match parse_u32(a) {
                None => None,
                Some(pid) => match split_token(r1) {
                    None => None,
                    Some((b, r2)) => match parse_u32(b) {
                        None => None,
                        Some(ppid) => match split_token(r2) {
                            None => None,
                            Some((user, r3)) => {
                                let (name, cmdline) = match split_token(r3) {
                                    Some((n, c)) => (n, c),
                                    None => (r3, r3),
                                };
                                Some(ProcView { pid, ppid, user, name, cmdline })
                            },
                        },
                    },
                },
            },
        }
    }
}

pub open spec fn ps_records(ls: Seq<Seq<char>>) -> Seq<ProcView>
    decreases ls.len(),
{
    if ls.len() == 0 {
        seq![]
    } else {
        let r = ps_records(ls.drop_last());
        match ps_line(ls.last()) {
            Some(p) => r.push(p),
            None => r,
        }
    }
}

/// The processes that the output of `ps -axo pid=,ppid=,user=,comm=,args=`
/// lists, in line order.
pub open spec fn ps_table(out: Seq<char>) -> Seq<ProcView> {
    ps_records(lines(out))
}

fn parse_ps_line(line: &Vec<char>) -> (r: Option<ProcInfo>)
    ensures
        match r {
            Some(p) => ps_line(line@) == Some(p@),
            None => ps_line(line@) is None,
        },
{
    let trimmed = trim_chars(line);
    if trimmed.len() == 0 {
        return None;
    }
    let t = trim_start_chars(&trimmed);
    let (a, r1) = match split_token_chars(&t) {
        Some(p) => p,
        None => return None,
    };
    let pid = match parse_uint_chars(&a, 0xffff_ffff) {
        Some(v) => v,
        None => return None,
    };
    let (b, r2) = match split_token_chars(&r1) {
        Some(p) => p,
        None => return None,
    };
    let ppid = match parse_uint_chars(&b, 0xffff_ffff) {
        Some(v) => v,
        None => return None,
    };
    let (user, r3) = match split_token_chars(&r2) {
        Some(p) => p,
        None => return None,
    };
    let (name, cmdline) = match split_token_chars(&r3) {
        Some(p) => p,
        None => (slice_chars(&r3, 0, r3.len()), slice_chars(&r3, 0, r3.len())),
    };
    assert(r3@.subrange(0, r3.len() as int) == r3@);
    Some(
        ProcInfo {
            pid,
            ppid,
            user: string_of(user.as_slice()),
            name: string_of(name.as_slice()),
            cmdline: string_of(cmdline.as_slice()),
        },
    )
}

/// The processes that `ps -axo pid=,ppid=,user=,comm=,args=` printed.
pub fn parse_ps(out: &str) -> (v: Vec<ProcInfo>)
    ensures
        proc_views(v@) == ps_table(out@),
{
    let text = chars_of(out);
    let ls = lines_of(&text);
    let mut v: Vec<ProcInfo> = Vec::new();
    let mut i: usize = 0;
    while i < ls.len()
        invariant
            i <= ls.len(),
            char_seqs(ls@) == lines(out@),
            proc_views(v@) == ps_records(char_seqs(ls@).take(i as int)),
        decreases ls.len() - i,
    {
        let ghost all = char_seqs(ls@);
        assert(all.take(i + 1).drop_last() == all.take(i as int));
        assert(all.take(i + 1).last() == ls@[i as int]@);
        let ghost before = proc_views(v@);
        match parse_ps_line(&ls[i]) {
            Some(p) => {
                v.push(p);
                assert(proc_views(v@) =~= before.push(v@.last()@));
            },
            None => {},
        }
        i = i + 1;
    }
    assert(char_seqs(ls@).take(ls.len() as int) == char_seqs(ls@));
    v
}

// ───────────────────────────── lsof: working directories ─────────────────────────────

/// One line of `lsof -a -p PIDS -d cwd -F pn` applied to the state (current
/// pid, directories found so far). The root directory is not recorded.
pub open spec fn cwd_step(st: (Option<u32>, Seq<(u32, Seq<char>)>), line: Seq<char>) -> (
    Option<u32>,
    Seq<(u32, Seq<char>)>,
) {
    if line.len() > 0 && line[0] == 'p' {
        (parse_u32(line.drop_first()), st.1)
    } else if line.len() > 0 && line[0] == 'n' {
        match st.0 {
            Some(pid) => if line.drop_first() != seq!['/'] {
                (st.0, st.1.push((pid, line.drop_first())))
            } else {
                st
            },
            None => st,
        }
    } else {
        st
    }
}

pub open spec fn cwd_fold(ls: Seq<Seq<char>>) -> (Option<u32>, Seq<(u32, Seq<char>)>)
    decreases ls.len(),
{
    if ls.len() == 0 {
        (None, seq![])
    } else {
        cwd_step(cwd_fold(ls.drop_last()), ls.last())
    }
}

/// The (pid, directory) pairs that the output of `lsof -d cwd -F pn` reports,
/// in order; a later pair for a pid supersedes an earlier one.
pub open spec fn cwd_table(out: Seq<char>) -> Seq<(u32, Seq<char>)> {
    cwd_fold(lines(out)).1
}

/// The working directories that `lsof -a -p PIDS -d cwd -F pn` printed.
pub fn parse_cwds(out: &str) -> (v: Vec<CwdEntry>)
    ensures
        cwd_views(v@) == cwd_table(out@),
{
    let text = chars_of(out);
    let ls = lines_of(&text);
    let mut v: Vec<CwdEntry> = Vec::new();
    let mut pid: Option<u32> = None;
    let slash: Vec<char> = chars_of("/");
    proof {
        reveal_strlit("/");
    }
    assert(slash@ == seq!['/']);
    let mut i: usize = 0;
    while i < ls.len()
        invariant
            i <= ls.len(),
            slash@ == seq!['/'],
            char_seqs(ls@) == lines(out@),
            cwd_fold(char_seqs(ls@).take(i as int)).0 == pid,
            cwd_views(v@) == cwd_fold(char_seqs(ls@).take(i as int)).1,
        decreases ls.len() - i,
    {
        let line = &ls[i];
        let ghost all = char_seqs(ls@);
        assert(all.take(i + 1).drop_last() == all.take(i as int));
        assert(all.take(i + 1).last() == line@);
        if line.len() > 0 && line[0] == 'p' {
            let rest = slice_chars(line, 1, line.len());
            assert(rest@ == line@.drop_first());
            pid = parse_uint_chars(&rest, 0xffff_ffff);
        } else if line.len() > 0 && line[0] == 'n' {
            let rest = slice_chars(line, 1, line.len());
            assert(rest@ == line@.drop_first());
            match pid {
                Some(p) => {
                    if !chars_eq(&rest, &slash) {
                        let ghost before = cwd_views(v@);
                        v.push(CwdEntry { pid: p, path: string_of(rest.as_slice()) });
                        assert(cwd_views(v@) =~= before.push((p, rest@)));
                    }
                },
                None => {},
            }
        }
        i = i + 1;
    }
    assert(char_seqs(ls@).take(ls.len() as int) == char_seqs(ls@));
    v
}


// ───────────────────────────── start commands ─────────────────────────────

/// The last process record with this pid (later `ps` lines supersede
/// earlier ones).
pub open spec fn proc_lookup(ps: Seq<ProcView>, pid: u32) -> Option<ProcView>
    decreases ps.len(),
{
    if ps.len() == 0 {
        None
    } else if ps.last().pid == pid {
        Some(ps.last())
    } else {
        proc_lookup(ps.drop_last(), pid)
    }
}

/// The index of the last record with this pid.
pub fn find_proc(ps: &Vec<ProcInfo>, pid: u32) -> (r: Option<usize>)
    ensures
        match r {
            Some(i) => i < ps.len() && proc_lookup(proc_views(ps@), pid) == Some(ps@[i as int]@),
            None => proc_lookup(proc_views(ps@), pid) is None,
        },
{
    let ghost all = proc_views(ps@);
    let mut k: usize = ps.len();
    assert(all.take(k as int) == all);
    while k > 0 && ps[k - 1].pid != pid
        invariant
            k <= ps.len(),
            all == proc_views(ps@),
            proc_lookup(all, pid) == proc_lookup(all.take(k as int), pid),
        decreases k,
    {
        assert(all.take(k as int).drop_last() == all.take(k - 1));
        k = k - 1;
    }
    if k == 0 {
        assert(all.take(0) == Seq::<ProcView>::empty());
        None
    } else {
        assert(all.take(k as int).last() == ps@[k - 1]@);
        Some(k - 1)
    }
}

/// The process and its ancestors, nearest first, at most `fuel` of them,
/// stopping at a parent pid of 0 or 1, at a process that is its own parent,
/// or at a process `ps` does not list.
pub open spec fn ancestry(ps: Seq<ProcView>, cur: u32, fuel: nat) -> Seq<u32>
    decreases fuel,
{
    if fuel == 0 {
        seq![]
    } else {
        seq![cur] + match proc_lookup(ps, cur) {
            Some(info) => if info.ppid <= 1 || info.ppid == cur {
                seq![]
            } else {
                ancestry(ps, info.ppid, (fuel - 1) as nat)
            },
            None => seq![],
        }
    }
}

/// Script runners whose command line is the start command itself.
pub open spec fn is_runner(name: Seq<char>) -> bool {
    ||| name == "bun"@
    ||| name == "npm"@
    ||| name == "yarn"@
    ||| name == "pnpm"@
    ||| name == "npx"@
    ||| name == "deno"@
}

pub open spec fn cleaned(info: ProcView) -> Seq<char> {
    clean_cmd_text(trim(info.cmdline))
}

/// The eldest process of the chain that is a script runner.
pub open spec fn runner_pick(ps: Seq<ProcView>, chain: Seq<u32>) -> Option<Seq<char>>
    decreases chain.len(),
{
    if chain.len() == 0 {
        None
    } else {
        match proc_lookup(ps, chain.last()) {
            Some(info) => if is_runner(info.name) {
                Some(cleaned(info))
            } else {
                runner_pick(ps, chain.drop_last())
            },
            None => runner_pick(ps, chain.drop_last()),
        }
    }
}

/// A cleaned `node` command that names a script (not just `node` or a
/// version banner).
pub open spec fn node_script(info: ProcView) -> bool {
    info.name == "node"@ && cleaned(info) != "node"@ && !contains(cleaned(info), "(v"@)
}

/// The eldest process of the chain that is `node` running a script.
pub open spec fn node_pick(ps: Seq<ProcView>, chain: Seq<u32>) -> Option<Seq<char>>
    decreases chain.len(),
{
    if chain.len() == 0 {
        None
    } else {
        match proc_lookup(ps, chain.last()) {
            Some(info) => if node_script(info) {
                Some(cleaned(info))
            } else {
                node_pick(ps, chain.drop_last())
            },
            None => node_pick(ps, chain.drop_last()),
        }
    }
}

/// The nearest process of the chain whose command line matches a
/// package.json script.
pub open spec fn script_pick(ps: Seq<ProcView>, chain: Seq<u32>, d: DirView) -> Option<Seq<char>>
    decreases chain.len(),
{
    if chain.len() == 0 {
        None
    } else {
        match proc_lookup(ps, chain[0]) {
            Some(info) => match package_script_text(info.cmdline, d) {
                Some(s) => Some(s),
                None => script_pick(ps, chain.drop_first(), d),
            },
            None => script_pick(ps, chain.drop_first(), d),
        }
    }
}

/// The command that started a process: a script runner among it and its
/// ancestors (eldest first), else `node` running a script, else a matching
/// package.json script, else its own cleaned command line, else "?".
pub open spec fn start_cmd_text(ps: Seq<ProcView>, pid: u32, dir: Option<DirView>) -> Seq<char> {
    let chain = ancestry(ps, pid, 5);
    match runner_pick(ps, chain) {
        Some(c) => c,
        None => match node_pick(ps, chain) {
            Some(c) => c,
            None => match match dir {
                Some(d) => script_pick(ps, chain, d),
                None => None,
            } {
                Some(c) => c,
                None => match proc_lookup(ps, pid) {
                    Some(info) => cleaned(info),
                    None => "?"@,
                },
            },
        },
    }
}

/// The pids of a process and its ancestors (see [`ancestry`]).
fn ancestors(pid: u32, ps: &Vec<ProcInfo>) -> (chain: Vec<u32>)
    ensures
        chain@ == ancestry(proc_views(ps@), pid, 5),
{
    let ghost psv = proc_views(ps@);
    let mut chain: Vec<u32> = Vec::new();
    let mut current: u32 = pid;
    let mut n: usize = 0;
    let mut done: bool = false;
    while n < 5 && !done
        invariant
            n <= 5,
            psv == proc_views(ps@),
            ancestry(psv, pid, 5) == chain@ + if done {
                Seq::<u32>::empty()
            } else {
                ancestry(psv, current, (5 - n) as nat)
            },
        decreases 5 - n,
    {
        let ghost before = chain@;
        let ghost cur0 = current;
        chain.push(current);
        match find_proc(ps, current) {
            Some(i) => {
                let pp = ps[i].ppid;
                if pp <= 1 || pp == current {
                    done = true;
                } else {
                    current = pp;
                }
            },
            None => {
                done = true;
            },
        }
        proof {
            assert(before + ancestry(psv, cur0, (5 - n) as nat) == chain@ + if done {
                Seq::<u32>::empty()
            } else {
                ancestry(psv, current, (5 - n - 1) as nat)
            });
        }
        n = n + 1;
    }
    if !done {
        assert(ancestry(psv, current, 0) == Seq::<u32>::empty());
    }
    assert(chain@ + Seq::<u32>::empty() == chain@);
    chain
}

fn cleaned_of(info: &ProcInfo) -> (r: String)
    ensures
        r@ == cleaned(info@),
{
    let t = trim_chars(&chars_of(info.cmdline.as_str()));
    let ts = string_of(t.as_slice());
    clean_cmd(ts.as_str())
}

/// Walks a process's parent chain to find the command that started it.
pub fn find_start_cmd(pid: u32, ps: &Vec<ProcInfo>, dir: Option<&DirProbe>) -> (r: String)
    ensures
        r@ == start_cmd_text(proc_views(ps@), pid, probe_view(dir)),
{
    let ghost psv = proc_views(ps@);
    let chain = ancestors(pid, ps);
    // 1) a script runner
    let mut k: usize = chain.len();
    assert(chain@.take(k as int) == chain@);
    while k > 0
        invariant
            k <= chain.len(),
            psv == proc_views(ps@),
            chain@ == ancestry(psv, pid, 5),
            runner_pick(psv, chain@) == runner_pick(psv, chain@.take(k as int)),
        decreases k,
    {
        assert(chain@.take(k as int).drop_last() == chain@.take(k - 1));
        assert(chain@.take(k as int).last() == chain@[k - 1]);
        match find_proc(ps, chain[k - 1]) {
            Some(i) => {
                let info = &ps[i];
                let nm = chars_of(info.name.as_str());
                if chars_eq(&nm, &chars_of("bun")) || chars_eq(&nm, &chars_of("npm")) || chars_eq(
                    &nm,
                    &chars_of("yarn"),
                ) || chars_eq(&nm, &chars_of("pnpm")) || chars_eq(&nm, &chars_of("npx"))
                    || chars_eq(&nm, &chars_of("deno")) {
                    return cleaned_of(info);
                }
            },
            None => {},
        }
        k = k - 1;
    }
    assert(chain@.take(0) == Seq::<u32>::empty());
    // 2) node running a script
    let mut k: usize = chain.len();
    assert(chain@.take(k as int) == chain@);
    while k > 0
        invariant
            k <= chain.len(),
            psv == proc_views(ps@),
            chain@ == ancestry(psv, pid, 5),
            runner_pick(psv, chain@) is None,
            node_pick(psv, chain@) == node_pick(psv, chain@.take(k as int)),
        decreases k,
    {
        assert(chain@.take(k as int).drop_last() == chain@.take(k - 1));
        assert(chain@.take(k as int).last() == chain@[k - 1]);
        match find_proc(ps, chain[k - 1]) {
            Some(i) => {
                let info = &ps[i];
                let nm = chars_of(info.name.as_str());
                if chars_eq(&nm, &chars_of("node")) {
                    let c = cleaned_of(info);
                    let cc = chars_of(c.as_str());
                    if !chars_eq(&cc, &chars_of("node")) && !contains_chars(&cc, &chars_of("(v")) {
                        return c;
                    }
                }
            },
            None => {},
        }
        k = k - 1;
    }
    assert(chain@.take(0) == Seq::<u32>::empty());
    // 3) a package.json script
    match dir {
        Some(d) => {
            let mut j: usize = 0;
            assert(chain@.skip(0) == chain@);
            while j < chain.len()
                invariant
                    j <= chain.len(),
                    psv == proc_views(ps@),
                    chain@ == ancestry(psv, pid, 5),
                    dir == Some(d),
                    runner_pick(psv, chain@) is None,
                    node_pick(psv, chain@) is None,
                    script_pick(psv, chain@, d@) == script_pick(psv, chain@.skip(j as int), d@),
                decreases chain.len() - j,
            {
                assert(chain@.skip(j as int).drop_first() == chain@.skip(j + 1));
                assert(chain@.skip(j as int)[0] == chain@[j as int]);
                match find_proc(ps, chain[j]) {
                    Some(i) => {
                        match match_package_script(ps[i].cmdline.as_str(), d) {
                            Some(sc) => {
                                return sc;
                            },
                            None => {},
                        }
                    },
                    None => {},
                }
                j = j + 1;
            }
            assert(chain@.skip(chain.len() as int) == Seq::<u32>::empty());
        },
        None => {},
    }
    // 4) the process's own command line
    match find_proc(ps, pid) {
        Some(i) => cleaned_of(&ps[i]),
        None => string_of(chars_of("?").as_slice()),
    }
}


// ───────────────────────────── assembling port records ─────────────────────────────

/// The elements of `s` that satisfy `p`, in order.
pub open spec fn keep<A>(s: Seq<A>, p: spec_fn(A) -> bool) -> Seq<A>
    decreases s.len(),
{
    if s.len() == 0 {
        seq![]
    } else {
        let r = keep(s.drop_last(), p);
        if p(s.last()) {
            r.push(s.last())
        } else {
            r
        }
    }
}

/// Some element of `s` belongs to process `pid`.
pub open spec fn pid_seen(s: Seq<PortView>, pid: u32) -> bool {
    exists|j: int| 0 <= j < s.len() && s[j].pid == pid
}

/// The first record of each process, in order.
pub open spec fn first_per_pid(s: Seq<PortView>) -> Seq<PortView>
    decreases s.len(),
{
    if s.len() == 0 {
        seq![]
    } else {
        let r = first_per_pid(s.drop_last());
        if pid_seen(r, s.last().pid) {
            r
        } else {
            r.push(s.last())
        }
    }
}

/// The framework of the record is known.
pub open spec fn known_framework() -> spec_fn(PortView) -> bool {
    |v: PortView| v.framework != "Unknown"@
}

/// Records of a known framework, the first one per process.
pub open spec fn known_unique(s: Seq<PortView>) -> Seq<PortView> {
    first_per_pid(keep(s, known_framework()))
}

fn pid_listed(v: &Vec<PortInfo>, pid: u32) -> (r: bool)
    ensures
        r == pid_seen(port_views(v@), pid),
{
    let mut i: usize = 0;
    while i < v.len()
        invariant
            i <= v.len(),
            forall|j: int| 0 <= j < i ==> v@[j].pid != pid,
        decreases v.len() - i,
    {
        if v[i].pid == pid {
            assert(port_views(v@)[i as int].pid == pid);
            return true;
        }
        i = i + 1;
    }
    assert forall|j: int| 0 <= j < port_views(v@).len() implies port_views(v@)[j].pid != pid by {
        assert(port_views(v@)[j] == v@[j]@);
    }
    false
}

/// The records whose framework is known, keeping only the first record of
/// each process.
pub fn keep_known_unique(v: &Vec<PortInfo>) -> (r: Vec<PortInfo>)
    ensures
        port_views(r@) == known_unique(port_views(v@)),
{
    let ghost all = port_views(v@);
    let mut out: Vec<PortInfo> = Vec::new();
    let unknown = chars_of("Unknown");
    let mut i: usize = 0;
    while i < v.len()
        invariant
            i <= v.len(),
            all == port_views(v@),
            unknown@ == "Unknown"@,
            port_views(out@) == first_per_pid(keep(all.take(i as int), known_framework())),
        decreases v.len() - i,
    {
        assert(all.take(i + 1).drop_last() == all.take(i as int));
        assert(all.take(i + 1).last() == v@[i as int]@);
        let e = &v[i];
        let fw = chars_of(e.framework.as_str());
        if !chars_eq(&fw, &unknown) {
            let ghost k = keep(all.take(i as int), known_framework());
            assert(keep(all.take(i + 1), known_framework()) == k.push(e@));
            assert(k.push(e@).drop_last() == k);
            if !pid_listed(&out, e.pid) {
                let ghost before = port_views(out@);
                out.push(e.duplicate());
                assert(port_views(out@) =~= before.push(e@));
            }
        }
        i = i + 1;
    }
    assert(all.take(v.len() as int) == all);
    out
}

/// The last directory reported for a process.
pub open spec fn cwd_lookup(c: Seq<(u32, Seq<char>)>, pid: u32) -> Option<Seq<char>>
    decreases c.len(),
{
    if c.len() == 0 {
        None
    } else if c.last().0 == pid {
        Some(c.last().1)
    } else {
        cwd_lookup(c.drop_last(), pid)
    }
}

pub open spec fn dir_views(d: Seq<DirProbe>) -> Seq<DirView> {
    Seq::new(d.len(), |i: int| d[i]@)
}

/// The first probe of the directory `path`.
pub open spec fn dir_lookup(dirs: Seq<DirView>, path: Seq<char>) -> Option<DirView>
    decreases dirs.len(),
{
    if dirs.len() == 0 {
        None
    } else if dirs[0].path == path {
        Some(dirs[0])
    } else {
        dir_lookup(dirs.drop_first(), path)
    }
}

/// What the scan reports of port `port`, on which process `pid` listens.
pub open spec fn describe(
    port: u16,
    pid: u32,
    ps: Seq<ProcView>,
    cwds: Seq<(u32, Seq<char>)>,
    dirs: Seq<DirView>,
) -> PortView {
    let pi = proc_lookup(ps, pid);
    let cwd = cwd_lookup(cwds, pid);
    let dir = match cwd {
        Some(p) => dir_lookup(dirs, p),
        None => None,
    };
    let name = match pi {
        Some(i) => i.name,
        None => "?"@,
    };
    let cmdline = match pi {
        Some(i) => i.cmdline,
        None => "?"@,
    };
    let user = match pi {
        Some(i) => i.user,
        None => "?"@,
    };
    let det = detection(cmdline, dir);
    PortView {
        port,
        pid,
        name,
        cmdline,
        start_cmd: start_cmd_text(ps, pid, dir),
        cwd,
        project: project_text(cwd),
        framework: det.0,
        language: det.1,
        user,
    }
}

/// The records of the given (port, pid) pairs, in their order.
pub open spec fn describe_all(
    pairs: Seq<(u16, u32)>,
    ps: Seq<ProcView>,
    cwds: Seq<(u32, Seq<char>)>,
    dirs: Seq<DirView>,
) -> Seq<PortView> {
    Seq::new(pairs.len(), |i: int| describe(pairs[i].0, pairs[i].1, ps, cwds, dirs))
}

fn find_cwd(cwds: &Vec<CwdEntry>, pid: u32) -> (r: Option<usize>)
    ensures
        match r {
            Some(i) => i < cwds.len() && cwd_lookup(cwd_views(cwds@), pid) == Some(
                cwds@[i as int].path@,
            ),
            None => cwd_lookup(cwd_views(cwds@), pid) is None,
        },
{
    let ghost all = cwd_views(cwds@);
    let mut k: usize = cwds.len();
    assert(all.take(k as int) == all);
    while k > 0 && cwds[k - 1].pid != pid
        invariant
            k <= cwds.len(),
            all == cwd_views(cwds@),
            cwd_lookup(all, pid) == cwd_lookup(all.take(k as int), pid),
        decreases k,
    {
        assert(all.take(k as int).drop_last() == all.take(k - 1));
        k = k - 1;
    }
    if k == 0 {
        assert(all.take(0) == Seq::<(u32, Seq<char>)>::empty());
        None
    } else {
        assert(all.take(k as int).last() == all[k - 1]);
        Some(k - 1)
    }
}

fn find_dir(dirs: &Vec<DirProbe>, path: &str) -> (r: Option<usize>)
    ensures
        match r {
            Some(i) => i < dirs.len() && dir_lookup(dir_views(dirs@), path@) == Some(
                dirs@[i as int]@,
            ),
            None => dir_lookup(dir_views(dirs@), path@) is None,
        },
{
    let ghost all = dir_views(dirs@);
    let want = chars_of(path);
    let mut i: usize = 0;
    assert(all.skip(0) == all);
    while i < dirs.len()
        invariant
            i <= dirs.len(),
            all == dir_views(dirs@),
            want@ == path@,
            dir_lookup(all, path@) == dir_lookup(all.skip(i as int), path@),
        decreases dirs.len() - i,
    {
        assert(all.skip(i as int).drop_first() == all.skip(i + 1));
        assert(all.skip(i as int)[0] == dirs@[i as int]@);
        let have = chars_of(dirs[i].path.as_str());
        if chars_eq(&have, &want) {
            return Some(i);
        }
        i = i + 1;
    }
    assert(all.skip(dirs.len() as int) == Seq::<DirView>::empty());
    None
}

fn question_mark() -> (s: String)
    ensures
        s@ == "?"@,
{
    string_of(chars_of("?").as_slice())
}

/// The record of port `port`, on which process `pid` listens.
pub fn describe_port(
    port: u16,
    pid: u32,
    ps: &Vec<ProcInfo>,
    cwds: &Vec<CwdEntry>,
    dirs: &Vec<DirProbe>,
) -> (r: PortInfo)
    ensures
        r@ == describe(port, pid, proc_views(ps@), cwd_views(cwds@), dir_views(dirs@)),
{
    let pi = find_proc(ps, pid);
    let cwd: Option<String> = match find_cwd(cwds, pid) {
        Some(i) => Some(cwds[i].path.clone()),
        None => None,
    };
    let dir: Option<&DirProbe> = match &cwd {
        Some(p) => match find_dir(dirs, p.as_str()) {
            Some(j) => Some(&dirs[j]),
            None => None,
        },
        None => None,
    };
    let (name, cmdline, user) = match pi {
        Some(i) => (ps[i].name.clone(), ps[i].cmdline.clone(), ps[i].user.clone()),
        None => (question_mark(), question_mark(), question_mark()),
    };
    let det = detect(cmdline.as_str(), dir);
    let project = match &cwd {
        Some(p) => project_name(Some(p.as_str())),
        None => project_name(None),
    };
    let start_cmd = find_start_cmd(pid, ps, dir);
    PortInfo {
        port,
        pid,
        name,
        cmdline,
        start_cmd,
        cwd,
        project,
        framework: string_of(chars_of(det.0).as_slice()),
        language: string_of(chars_of(det.1).as_slice()),
        user,
    }
}

// ───────────────────────────── ordering by port ─────────────────────────────

/// `s` with `x` placed after every entry, counted from the end, whose port is
/// greater than `x`'s: after all entries of a smaller or equal port.
pub open spec fn insert_by_port(s: Seq<(u16, u32)>, x: (u16, u32)) -> Seq<(u16, u32)>
    decreases s.len(),
{
    if s.len() == 0 || s.last().0 <= x.0 {
        s.push(x)
    } else {
        insert_by_port(s.drop_last(), x).push(s.last())
    }
}

/// `s` sorted by port, entries of equal ports in their order in `s` (what a
/// stable sort by port gives).
pub open spec fn sorted_by_port(s: Seq<(u16, u32)>) -> Seq<(u16, u32)>
    decreases s.len(),
{
    if s.len() == 0 {
        s
    } else {
        insert_by_port(sorted_by_port(s.drop_last()), s.last())
    }
}

/// The pairs' ports never decrease.
pub open spec fn ports_nondecreasing(v: Seq<(u16, u32)>) -> bool {
    forall|i: int, j: int| 0 <= i < j < v.len() ==> v[i].0 <= v[j].0
}

/// The records' ports never decrease.
pub open spec fn records_ascending(v: Seq<PortView>) -> bool {
    forall|i: int, j: int| 0 <= i < j < v.len() ==> v[i].port <= v[j].port
}

/// Where [`insert_by_port`] puts `x`.
pub open spec fn insert_pos(s: Seq<(u16, u32)>, x: (u16, u32)) -> int
    decreases s.len(),
{
    if s.len() == 0 || s.last().0 <= x.0 {
        s.len() as int
    } else {
        insert_pos(s.drop_last(), x)
    }
}

proof fn lemma_insert_pos(s: Seq<(u16, u32)>, x: (u16, u32))
    ensures
        0 <= insert_pos(s, x) <= s.len(),
        forall|j: int| insert_pos(s, x) <= j < s.len() ==> s[j].0 > x.0,
        insert_pos(s, x) > 0 ==> s[insert_pos(s, x) - 1].0 <= x.0,
    decreases s.len(),
{
    if !(s.len() == 0 || s.last().0 <= x.0) {
        lemma_insert_pos(s.drop_last(), x);
        let k = insert_pos(s, x);
        assert forall|j: int| k <= j < s.len() implies s[j].0 > x.0 by {
            if j < s.len() - 1 {
                assert(s.drop_last()[j] == s[j]);
            }
        }
        if k > 0 {
            assert(s.drop_last()[k - 1] == s[k - 1]);
        }
    }
}

/// Inserting after the last entry of a port at most `x`'s, with only greater
/// ports behind it, is [`insert_by_port`].
proof fn lemma_insert_at(s: Seq<(u16, u32)>, x: (u16, u32), k: int)
    requires
        0 <= k <= s.len(),
        forall|j: int| k <= j < s.len() ==> s[j].0 > x.0,
        k > 0 ==> s[k - 1].0 <= x.0,
    ensures
        insert_by_port(s, x) == s.insert(k, x),
    decreases s.len(),
{
    if s.len() == 0 || s.last().0 <= x.0 {
        if k < s.len() {
            assert(s[s.len() - 1].0 > x.0);
        }
        assert(s.push(x) =~= s.insert(k, x));
    } else {
        let d = s.drop_last();
        assert forall|j: int| k <= j < d.len() implies d[j].0 > x.0 by {
            assert(d[j] == s[j]);
        }
        if k > 0 {
            assert(k - 1 < d.len());
            assert(d[k - 1] == s[k - 1]);
        }
        lemma_insert_at(d, x, k);
        assert(d.insert(k, x).push(s.last()) =~= s.insert(k, x));
    }
}

/// [`sorted_by_port`] orders by port and keeps every pair, each as often.
pub proof fn lemma_sorted_by_port(s: Seq<(u16, u32)>)
    ensures
        ports_nondecreasing(sorted_by_port(s)),
        sorted_by_port(s).to_multiset() == s.to_multiset(),
        sorted_by_port(s).len() == s.len(),
    decreases s.len(),
{
    broadcast use vstd::seq_lib::group_to_multiset_ensures;

    if s.len() == 0 {
    } else {
        let d = s.drop_last();
        let x = s.last();
        lemma_sorted_by_port(d);
        let r = sorted_by_port(d);
        lemma_insert_pos(r, x);
        let k = insert_pos(r, x);
        lemma_insert_at(r, x, k);
        let t = r.insert(k, x);
        assert forall|a: int, b: int| 0 <= a < b < t.len() implies t[a].0 <= t[b].0 by {
            if b < k {
                assert(t[a] == r[a] && t[b] == r[b]);
            } else if b == k {
                assert(t[a] == r[a]);
                assert(r[a].0 <= r[k - 1].0);
            } else if a < k {
                assert(t[a] == r[a] && t[b] == r[b - 1]);
                assert(r[a].0 <= r[k - 1].0);
            } else if a == k {
                assert(t[b] == r[b - 1]);
            } else {
                assert(t[a] == r[a - 1] && t[b] == r[b - 1]);
            }
        }
        assert(s == d.push(x));
    }
}

/// Already ascending pairs are their own sorted order.
pub proof fn lemma_sorted_ascending(s: Seq<(u16, u32)>)
    requires
        ports_ascending(s),
    ensures
        sorted_by_port(s) == s,
    decreases s.len(),
{
    if s.len() > 0 {
        let d = s.drop_last();
        assert(ports_ascending(d));
        lemma_sorted_ascending(d);
        if d.len() > 0 {
            assert(d.last().0 < s.last().0);
        }
        assert(d.push(s.last()) == s);
    }
}

/// The pairs stably sorted by port.
fn sort_by_port(ports: &Vec<(u16, u32)>) -> (r: Vec<(u16, u32)>)
    ensures
        r@ == sorted_by_port(ports@),
{
    let mut out: Vec<(u16, u32)> = Vec::new();
    let mut i: usize = 0;
    while i < ports.len()
        invariant
            i <= ports.len(),
            out@ == sorted_by_port(ports@.take(i as int)),
        decreases ports.len() - i,
    {
        let x = ports[i];
        let mut k: usize = out.len();
        while k > 0 && out[k - 1].0 > x.0
            invariant
                k <= out.len(),
                forall|j: int| k <= j < out.len() ==> out@[j].0 > x.0,
            decreases k,
        {
            k = k - 1;
        }
        proof {
            lemma_insert_at(out@, x, k as int);
            assert(ports@.take(i + 1).drop_last() == ports@.take(i as int));
        }
        out.insert(k, x);
        i = i + 1;
    }
    assert(ports@.take(ports.len() as int) == ports@);
    out
}

/// A sub-sequence of records in ascending order stays ascending: what `keep`
/// keeps of them.
proof fn lemma_keep_ascending(s: Seq<PortView>, p: spec_fn(PortView) -> bool)
    requires
        records_ascending(s),
    ensures
        records_ascending(keep(s, p)),
    decreases s.len(),
{
    if s.len() > 0 {
        let d = s.drop_last();
        assert(records_ascending(d));
        lemma_keep_ascending(d, p);
        let r = keep(d, p);
        if p(s.last()) {
            assert forall|a: int| 0 <= a < r.len() implies r[a].port <= s.last().port by {
                crate::laws::law_keep_members(d, p, r[a]);
                assert(r.contains(r[a]));
                let j = choose|j: int| 0 <= j < d.len() && d[j] == r[a];
                assert(d[j] == s[j]);
            }
            assert forall|a: int, b: int| 0 <= a < b < r.push(s.last()).len() implies r.push(
                s.last(),
            )[a].port <= r.push(s.last())[b].port by {
                if b < r.len() {
                    assert(r.push(s.last())[a] == r[a] && r.push(s.last())[b] == r[b]);
                } else {
                    assert(r.push(s.last())[a] == r[a]);
                }
            }
        }
    }
}

/// What [`first_per_pid`] keeps of records in ascending order stays ascending.
proof fn lemma_first_per_pid_ascending(s: Seq<PortView>)
    requires
        records_ascending(s),
    ensures
        records_ascending(first_per_pid(s)),
        forall|x: PortView| #[trigger] first_per_pid(s).contains(x) ==> s.contains(x),
    decreases s.len(),
{
    if s.len() > 0 {
        let d = s.drop_last();
        assert(records_ascending(d));
        lemma_first_per_pid_ascending(d);
        let r = first_per_pid(d);
        assert forall|a: int| 0 <= a < r.len() implies r[a].port <= s.last().port by {
            assert(r.contains(r[a]));
            let j = choose|j: int| 0 <= j < d.len() && d[j] == r[a];
            assert(d[j] == s[j]);
        }
        assert forall|x: PortView| #[trigger] first_per_pid(s).contains(x) implies s.contains(x) by {
            let f = first_per_pid(s);
            let i = choose|i: int| 0 <= i < f.len() && f[i] == x;
            if i < r.len() {
                assert(f[i] == r[i]);
                assert(r.contains(x));
                let j = choose|j: int| 0 <= j < d.len() && d[j] == x;
                assert(s[j] == x);
            } else {
                assert(x == s.last());
                assert(s[s.len() - 1] == x);
            }
        }
        if !pid_seen(r, s.last().pid) {
            let t = r.push(s.last());
            assert forall|a: int, b: int| 0 <= a < b < t.len() implies t[a].port <= t[b].port by {
                assert(t[a] == r[a]);
                if b < r.len() {
                    assert(t[b] == r[b]);
                }
            }
        }
    }
}

/// The records of `ports`, stably sorted by port; with `known_only`, only
/// those of a known framework and only the first per process.
pub fn build_port_infos(
    ports: &Vec<(u16, u32)>,
    known_only: bool,
    ps: &Vec<ProcInfo>,
    cwds: &Vec<CwdEntry>,
    dirs: &Vec<DirProbe>,
) -> (r: Vec<PortInfo>)
    ensures
        port_views(r@) == if known_only {
            known_unique(
                describe_all(sorted_by_port(ports@), proc_views(ps@), cwd_views(cwds@), dir_views(dirs@)),
            )
        } else {
            describe_all(sorted_by_port(ports@), proc_views(ps@), cwd_views(cwds@), dir_views(dirs@))
        },
        records_ascending(port_views(r@)),
{
    let sorted = sort_by_port(ports);
    let ghost want = describe_all(sorted@, proc_views(ps@), cwd_views(cwds@), dir_views(dirs@));
    proof {
        lemma_sorted_by_port(ports@);
        assert forall|a: int, b: int| 0 <= a < b < want.len() implies want[a].port <= want[b].port by {
            assert(want[a].port == sorted@[a].0);
            assert(want[b].port == sorted@[b].0);
        }
    }
    let mut out: Vec<PortInfo> = Vec::new();
    let mut i: usize = 0;
    while i < sorted.len()
        invariant
            i <= sorted.len(),
            want == describe_all(sorted@, proc_views(ps@), cwd_views(cwds@), dir_views(dirs@)),
            out@.len() == i,
            port_views(out@) == want.take(i as int),
        decreases sorted.len() - i,
    {
        let ghost before = port_views(out@);
        let ghost prev = out@;
        let info = describe_port(sorted[i].0, sorted[i].1, ps, cwds, dirs);
        assert(info@ == want[i as int]);
        out.push(info);
        assert forall|j: int| 0 <= j < i implies port_views(out@)[j] == before[j] by {
            assert(out@[j] == prev[j]);
        }
        assert(port_views(out@) =~= want.take(i + 1));
        i = i + 1;
    }
    assert(want.take(sorted.len() as int) == want);
    if known_only {
        proof {
            lemma_keep_ascending(want, known_framework());
            lemma_first_per_pid_ascending(keep(want, known_framework()));
        }
        keep_known_unique(&out)
    } else {
        out
    }
}


// ───────────────────────────── scans ─────────────────────────────

/// The entries of a port table in ascending port order.
pub open spec fn table_entries(m: Map<u16, u32>) -> Seq<(u16, u32)> {
    choose|v: Seq<(u16, u32)>| ports_ascending(v) && lists_table(v, m)
}

/// A port table has only one ascending listing.
pub proof fn lemma_listing_unique(v: Seq<(u16, u32)>, w: Seq<(u16, u32)>, m: Map<u16, u32>)
    requires
        ports_ascending(v),
        lists_table(v, m),
        ports_ascending(w),
        lists_table(w, m),
    ensures
        v == w,
    decreases v.len(),
{
    if v.len() == 0 {
        if w.len() > 0 {
            assert(m.contains_key(w[0].0));
        }
        assert(v =~= w);
    } else {
        let k = v[0].0;
        assert(m.contains_key(k));
        let b = choose|b: int| 0 <= b < w.len() && w[b].0 == k;
        assert(m.contains_key(w[0].0));
        let a = choose|a: int| 0 <= a < v.len() && v[a].0 == w[0].0;
        assert(v[0].0 <= v[a].0);
        assert(w[0].0 <= w[b].0);
        assert(w[0].0 == k);
        let m2 = m.remove(k);
        let v2 = v.drop_first();
        let w2 = w.drop_first();
        assert forall|i: int| 0 <= i < v2.len() implies #[trigger] m2.contains_key(v2[i].0)
            && m2[v2[i].0] == v2[i].1 by {
            assert(v2[i] == v[i + 1]);
            assert(m.contains_key(v[i + 1].0));
        }
        assert forall|key: u16| #[trigger] m2.contains_key(key) implies exists|i: int|
            0 <= i < v2.len() && v2[i].0 == key by {
            assert(m.contains_key(key));
            let i = choose|i: int| 0 <= i < v.len() && v[i].0 == key;
            assert(i != 0);
            assert(v2[i - 1].0 == key);
        }
        assert forall|i: int| 0 <= i < w2.len() implies #[trigger] m2.contains_key(w2[i].0)
            && m2[w2[i].0] == w2[i].1 by {
            assert(w2[i] == w[i + 1]);
            assert(m.contains_key(w[i + 1].0));
        }
        assert forall|key: u16| #[trigger] m2.contains_key(key) implies exists|i: int|
            0 <= i < w2.len() && w2[i].0 == key by {
            assert(m.contains_key(key));
            let i = choose|i: int| 0 <= i < w.len() && w[i].0 == key;
            assert(i != 0);
            assert(w2[i - 1].0 == key);
        }
        lemma_listing_unique(v2, w2, m2);
        assert(v[0] == w[0]);
        assert(v =~= w) by {
            assert forall|i: int| 0 <= i < v.len() implies v[i] == w[i] by {
                if i > 0 {
                    assert(v[i] == v2[i - 1]);
                    assert(w[i] == w2[i - 1]);
                }
            }
        }
    }
}

/// The listening pairs that `parse_listening` returns are the table's entries.
proof fn lemma_is_table_entries(v: Seq<(u16, u32)>, m: Map<u16, u32>)
    requires
        ports_ascending(v),
        lists_table(v, m),
    ensures
        v == table_entries(m),
{
    let w = table_entries(m);
    assert(ports_ascending(w) && lists_table(w, m));
    lemma_listing_unique(v, w, m);
}

/// A port in the range that the `list` command calls dev ports.
pub open spec fn dev_port() -> spec_fn((u16, u32)) -> bool {
    |p: (u16, u32)| 1024 <= p.0 && p.0 <= 65000
}

/// Every listening port, ascending, with what the scan found of it.
///
/// `listening`, `procs` and `cwds` are the outputs of
/// `lsof -iTCP -sTCP:LISTEN -nP -F pn`, `ps -axo pid=,ppid=,user=,comm=,args=`
/// and `lsof -a -p PIDS -d cwd -F pn`; `dirs` holds what was found in the
/// working directories.
pub fn scan_all_ports(listening: &str, procs: &str, cwds: &str, dirs: &Vec<DirProbe>) -> (r: Vec<
    PortInfo,
>)
    ensures
        port_views(r@) == describe_all(
            table_entries(listening_table(listening@)),
            ps_table(procs@),
            cwd_table(cwds@),
            dir_views(dirs@),
        ),
{
    let pairs = parse_listening(listening);
    proof {
        lemma_is_table_entries(pairs@, listening_table(listening@));
        lemma_sorted_ascending(pairs@);
    }
    let ps = parse_ps(procs);
    let cw = parse_cwds(cwds);
    build_port_infos(&pairs, false, &ps, &cw, dirs)
}

/// The listening ports from 1024 to 65000, ascending, with what the scan
/// found of them; with `known_only`, only those of a known framework and the
/// first per process. The inputs are as for [`scan_all_ports`].
pub fn scan_ports(
    listening: &str,
    procs: &str,
    cwds: &str,
    dirs: &Vec<DirProbe>,
    known_only: bool,
) -> (r: Vec<PortInfo>)
    ensures
        port_views(r@) == ({
            let all = describe_all(
                keep(table_entries(listening_table(listening@)), dev_port()),
                ps_table(procs@),
                cwd_table(cwds@),
                dir_views(dirs@),
            );
            if known_only {
                known_unique(all)
            } else {
                all
            }
        }),
{
    let pairs = parse_listening(listening);
    proof {
        lemma_is_table_entries(pairs@, listening_table(listening@));
    }
    let ghost listed = pairs@;
    let pairs = dev_ports(&pairs);
    proof {
        lemma_keep_pairs_ascending(listed, dev_port());
        lemma_sorted_ascending(pairs@);
    }
    let ps = parse_ps(procs);
    let cw = parse_cwds(cwds);
    build_port_infos(&pairs, known_only, &ps, &cw, dirs)
}

/// What `keep` keeps of ascending pairs is ascending.
proof fn lemma_keep_pairs_ascending(s: Seq<(u16, u32)>, p: spec_fn((u16, u32)) -> bool)
    requires
        ports_ascending(s),
    ensures
        ports_ascending(keep(s, p)),
    decreases s.len(),
{
    if s.len() > 0 {
        let d = s.drop_last();
        assert(ports_ascending(d));
        lemma_keep_pairs_ascending(d, p);
        let r = keep(d, p);
        if p(s.last()) {
            assert forall|a: int| 0 <= a < r.len() implies r[a].0 < s.last().0 by {
                crate::laws::law_keep_members(d, p, r[a]);
                assert(r.contains(r[a]));
                let j = choose|j: int| 0 <= j < d.len() && d[j] == r[a];
                assert(d[j] == s[j]);
            }
            let t = r.push(s.last());
            assert forall|a: int, b: int| 0 <= a < b < t.len() implies t[a].0 < t[b].0 by {
                assert(t[a] == r[a]);
                if b < r.len() {
                    assert(t[b] == r[b]);
                }
            }
        }
    }
}

/// The pairs whose port lies from 1024 to 65000.
pub fn dev_ports(pairs: &Vec<(u16, u32)>) -> (r: Vec<(u16, u32)>)
    ensures
        r@ == keep(pairs@, dev_port()),
{
    let mut out: Vec<(u16, u32)> = Vec::new();
    let mut i: usize = 0;
    while i < pairs.len()
        invariant
            i <= pairs.len(),
            out@ == keep(pairs@.take(i as int), dev_port()),
        decreases pairs.len() - i,
    {
        assert(pairs@.take(i + 1).drop_last() == pairs@.take(i as int));
        assert(pairs@.take(i + 1).last() == pairs@[i as int]);
        let p = pairs[i];
        if 1024 <= p.0 && p.0 <= 65000 {
            out.push(p);
        }
        i = i + 1;
    }
    assert(pairs@.take(pairs.len() as int) == pairs@);
    out
}

/// What the scan found of one port, when something listens on it. The
/// inputs are as for [`scan_all_ports`].
pub fn scan_port(port: u16, listening: &str, procs: &str, cwds: &str, dirs: &Vec<DirProbe>) -> (r:
    Option<PortInfo>)
    ensures
        match r {
            Some(info) => listening_table(listening@).contains_key(port) && info@ == describe(
                port,
                listening_table(listening@)[port],
                ps_table(procs@),
                cwd_table(cwds@),
                dir_views(dirs@),
            ),
            None => !listening_table(listening@).contains_key(port),
        },
{
    let pairs = parse_listening(listening);
    let ghost m = listening_table(listening@);
    let mut i: usize = 0;
    while i < pairs.len() && pairs[i].0 != port
        invariant
            i <= pairs.len(),
            forall|j: int| 0 <= j < i ==> pairs@[j].0 != port,
        decreases pairs.len() - i,
    {
        i = i + 1;
    }
    if i == pairs.len() {
        proof {
            if m.contains_key(port) {
                let j = choose|j: int| 0 <= j < pairs@.len() && pairs@[j].0 == port;
                assert(pairs@[j].0 != port);
            }
        }
        return None;
    }
    let pid = pairs[i].1;
    assert(m.contains_key(pairs@[i as int].0));
    let ps = parse_ps(procs);
    let cw = parse_cwds(cwds);
    Some(describe_port(port, pid, &ps, &cw, dirs))
}

// ───────────────────────────── kill reports ─────────────────────────────

/// The report of an attempt to signal the process on `port`: no process
/// found, the process killed, or the failure's message.
pub open spec fn kill_report_text(port: u16, target: Option<PortView>, error: Option<Seq<char>>) -> (
    bool,
    Seq<char>,
) {
    match target {
        None => (false, "No process found on port "@ + decimal(port as nat)),
        Some(t) => match error {
            None => (
                true,
                "Killed PID "@ + decimal(t.pid as nat) + " ("@ + t.framework + " — "@ + t.project
                    + ") on port "@ + decimal(port as nat),
            ),
            Some(e) => (false, "Failed to kill PID "@ + decimal(t.pid as nat) + ": "@ + e),
        },
    }
}

/// (success, message) after signalling the process `target` found on
/// `port`; `error` is the signal's failure, if it failed.
pub fn kill_report(port: u16, target: Option<&PortInfo>, error: Option<&str>) -> (r: (bool, String))
    ensures
        (r.0, r.1@) == kill_report_text(
            port,
            match target {
                Some(t) => Some(t@),
                None => None,
            },
            match error {
                Some(e) => Some(e@),
                None => None,
            },
        ),
{
    match target {
        None => {
            let out = concat_chars(&chars_of("No process found on port "), &decimal_chars(port as u64));
            (false, string_of(out.as_slice()))
        },
        Some(t) => match error {
            None => {
                let mut out = concat_chars(&chars_of("Killed PID "), &decimal_chars(t.pid as u64));
                out = concat_chars(&out, &chars_of(" ("));
                out = concat_chars(&out, &chars_of(t.framework.as_str()));
                out = concat_chars(&out, &chars_of(" — "));
                out = concat_chars(&out, &chars_of(t.project.as_str()));
                out = concat_chars(&out, &chars_of(") on port "));
                out = concat_chars(&out, &decimal_chars(port as u64));
                (true, string_of(out.as_slice()))
            },
            Some(e) => {
                let mut out = concat_chars(
                    &chars_of("Failed to kill PID "),
                    &decimal_chars(t.pid as u64),
                );
                out = concat_chars(&out, &chars_of(": "));
                out = concat_chars(&out, &chars_of(e));
                (false, string_of(out.as_slice()))
            },
        },
    }
}

} // verus!
