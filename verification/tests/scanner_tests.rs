use portman::detect::{
    base_name, clean_cmd, detect, detect_package_manager, match_package_script, probed_files,
    project_name, DirProbe,
};
use portman::scanner::{
    build_port_infos, dev_ports, find_start_cmd, keep_known_unique, kill_report, parse_cwds,
    parse_listening, parse_ps, pid_list, scan_all_ports, scan_port, scan_ports, unique_pids,
    CwdEntry, PortInfo, ProcInfo,
};

fn proc(pid: u32, ppid: u32, user: &str, name: &str, cmdline: &str) -> ProcInfo {
    ProcInfo {
        pid,
        ppid,
        user: user.to_string(),
        name: name.to_string(),
        cmdline: cmdline.to_string(),
    }
}

fn dir(path: &str, present: &[&str], package_json: Option<&str>) -> DirProbe {
    DirProbe {
        path: path.to_string(),
        present: present.iter().map(|s| s.to_string()).collect(),
        package_json: package_json.map(|s| s.to_string()),
    }
}

#[test]
fn listening_ports_first_process_keeps_port() {
    let out = "p123\nf5\nn*:3000\nn[::1]:3000\np456\nf7\nn127.0.0.1:8080\np789\nn*:3000\n";
    assert_eq!(parse_listening(out), vec![(3000, 123), (8080, 456)]);
}

#[test]
fn listening_ports_ascending_and_unparsable_skipped() {
    let out = "p9\nn*:9000\nn*:70000\nn*:abc\nn*:+80\npx\nn*:22\np1\nn*:443\r\n";
    // "+80" parses as 80; a bad pid line leaves no current pid, so :22 is dropped
    assert_eq!(parse_listening(out), vec![(80, 9), (443, 1), (9000, 9)]);
}

#[test]
fn listening_ports_empty_output() {
    assert_eq!(parse_listening(""), vec![]);
}

#[test]
fn ps_lines_parse() {
    let out = "  123     1 alice    node      node /x/next dev\n   12   1 bob sshd\n\n bad line here\n";
    let ps = parse_ps(out);
    assert_eq!(ps.len(), 2);
    assert_eq!(ps[0].pid, 123);
    assert_eq!(ps[0].ppid, 1);
    assert_eq!(ps[0].user, "alice");
    assert_eq!(ps[0].name, "node");
    assert_eq!(ps[0].cmdline, "node /x/next dev");
    assert_eq!(ps[1].name, "sshd");
    assert_eq!(ps[1].cmdline, "sshd");
}

#[test]
fn ps_line_without_user_is_skipped() {
    assert_eq!(parse_ps("1 0\n").len(), 0);
}

#[test]
fn cwd_lines_parse_and_skip_root() {
    let out = "p123\nfcwd\nn/home/u/proj\np7\nfcwd\nn/\n";
    let c = parse_cwds(out);
    assert_eq!(c.len(), 1);
    assert_eq!(c[0].pid, 123);
    assert_eq!(c[0].path, "/home/u/proj");
}

#[test]
fn pid_lists() {
    let ports = vec![(3000, 22), (3001, 1), (3002, 22), (4000, 333)];
    let pids = unique_pids(&ports);
    assert_eq!(pids, vec![1, 22, 333]);
    assert_eq!(pid_list(&pids), "1,22,333");
    assert_eq!(pid_list(&vec![]), "");
}

#[test]
fn dev_port_range() {
    let pairs = vec![(22, 1), (1024, 2), (65000, 3), (65001, 4)];
    assert_eq!(dev_ports(&pairs), vec![(1024, 2), (65000, 3)]);
}

#[test]
fn detect_by_command_line_case_insensitive() {
    assert_eq!(detect("node /x/.bin/NEXT dev", None), ("Next.js", "JS/TS"));
    assert_eq!(detect("uvicorn main:app", None), ("FastAPI", "Python"));
    // signatures are tried in order: "nest" comes before "node"
    assert_eq!(detect("node dist/nest-app.js", None), ("NestJS", "TS"));
}

#[test]
fn detect_by_directory_marker() {
    let d = dir("/srv/app", &["Cargo.toml", "package.json"], None);
    assert_eq!(detect("/srv/app/target/server", Some(&d)), ("Rust", "Rust"));
    assert_eq!(detect("/srv/app/target/server", None), ("Unknown", "Unknown"));
    let e = dir("/srv/x", &[], None);
    assert_eq!(detect("postgres", Some(&e)), ("Unknown", "Unknown"));
}

#[test]
fn probed_files_cover_markers_and_locks() {
    let f = probed_files();
    assert!(f.contains(&"next.config.js"));
    assert!(f.contains(&"package.json"));
    assert!(f.contains(&"pnpm-lock.yaml"));
    assert_eq!(f.len(), 23);
}

#[test]
fn project_names() {
    assert_eq!(project_name(Some("/home/u/proj")), "proj");
    assert_eq!(project_name(Some("/home/u/proj/")), "proj");
    assert_eq!(project_name(Some("/")), "—");
    assert_eq!(project_name(None), "—");
    assert_eq!(base_name("/usr/bin/node"), "node");
    assert_eq!(base_name("node"), "node");
}

#[test]
fn clean_commands() {
    assert_eq!(
        clean_cmd("/usr/local/bin/node /app/node_modules/.bin/next dev --turbopack"),
        "node next dev --turbopack"
    );
    assert_eq!(clean_cmd("/usr/bin/python3"), "python3");
    assert_eq!(clean_cmd("node (v20.1.0)"), "node");
    assert_eq!(clean_cmd("/opt/java/bin/java -jar /srv/app.jar"), "java -jar /srv/app.jar");
    assert_eq!(clean_cmd("/usr/bin/ruby /srv/bin/rails"), "ruby rails");
    assert_eq!(clean_cmd("/usr/local/bin/cargo run --release"), "cargo run --release");
    assert_eq!(clean_cmd(""), "");
}

#[test]
fn package_managers() {
    let none = dir("/p", &[], None);
    let bun = dir("/p", &["bun.lockb"], None);
    let yarn = dir("/p", &["yarn.lock"], None);
    assert_eq!(detect_package_manager("node x", &none), "npm");
    assert_eq!(detect_package_manager("node x", &bun), "bun");
    assert_eq!(detect_package_manager("node x", &yarn), "yarn");
    assert_eq!(detect_package_manager("PNPM exec x", &bun), "pnpm");
}

#[test]
fn package_scripts_match() {
    let pkg = r#"{"name":"w","scripts":{"start":"next start","dev":"next dev --turbo","lint":"$BIN lint","n":7}}"#;
    let d = dir("/p", &[], Some(pkg));
    assert_eq!(
        match_package_script("node /p/node_modules/.bin/next dev", &d),
        Some("npm run dev".to_string())
    );
    let b = dir("/p", &["bun.lock"], Some(pkg));
    assert_eq!(
        match_package_script("node /p/node_modules/.bin/next start", &b),
        Some("bun run start".to_string())
    );
    assert_eq!(match_package_script("python app.py", &d), None);
    let bad = dir("/p", &[], Some("not json"));
    assert_eq!(match_package_script("next dev", &bad), None);
    let none = dir("/p", &[], None);
    assert_eq!(match_package_script("next dev", &none), None);
}

#[test]
fn start_command_prefers_script_runner() {
    let ps = vec![
        proc(300, 200, "u", "next-server", "next-server (v15)"),
        proc(200, 100, "u", "node", "node /p/node_modules/.bin/next dev"),
        proc(100, 50, "u", "bun", "bun run dev"),
        proc(50, 1, "u", "zsh", "-zsh"),
    ];
    assert_eq!(find_start_cmd(300, &ps, None), "bun run dev");
}

#[test]
fn start_command_node_script() {
    let ps = vec![
        proc(300, 200, "u", "next-server", "next-server (v15)"),
        proc(200, 1, "u", "node", "/usr/bin/node /p/node_modules/.bin/next dev"),
    ];
    assert_eq!(find_start_cmd(300, &ps, None), "node next dev");
}

#[test]
fn start_command_package_script_then_fallback() {
    let ps = vec![proc(300, 1, "u", "python3", "  /usr/bin/python3 /srv/app.py  ")];
    let d = dir("/srv", &[], Some(r#"{"scripts":{"serve":"python3 /srv/app.py"}}"#));
    assert_eq!(find_start_cmd(300, &ps, Some(&d)), "npm run serve");
    assert_eq!(find_start_cmd(300, &ps, None), "python3 app.py");
    assert_eq!(find_start_cmd(999, &ps, None), "?");
}

#[test]
fn start_command_stops_at_self_parent() {
    let ps = vec![proc(5, 5, "u", "node", "node (v1)")];
    assert_eq!(find_start_cmd(5, &ps, None), "node");
}

fn sample_outputs() -> (&'static str, &'static str, &'static str) {
    let listening = "p100\nn*:5173\np200\nn*:8000\np300\nn*:22\np100\nn*:5174\n";
    let procs = "100 1 alice node node /w/node_modules/.bin/vite\n200 1 bob python3 python3 -m uvicorn main:app\n300 1 root sshd /usr/sbin/sshd -D\n";
    let cwds = "p100\nn/w/web\np200\nn/w/api\n";
    (listening, procs, cwds)
}

#[test]
fn scan_all_and_dev() {
    let (l, p, c) = sample_outputs();
    let dirs = vec![dir("/w/web", &["vite.config.ts", "package.json"], None)];
    let all = scan_all_ports(l, p, c, &dirs);
    let ports: Vec<u16> = all.iter().map(|e| e.port).collect();
    assert_eq!(ports, vec![22, 5173, 5174, 8000]);
    assert_eq!(all[0].framework, "Unknown");
    assert_eq!(all[0].project, "—");
    assert_eq!(all[1].framework, "Vite");
    assert_eq!(all[1].project, "web");
    assert_eq!(all[1].start_cmd, "node vite");
    assert_eq!(all[3].framework, "FastAPI");
    assert_eq!(all[3].user, "bob");
    assert_eq!(all[3].cwd, Some("/w/api".to_string()));
    let dev = scan_ports(l, p, c, &dirs, true);
    let ports: Vec<u16> = dev.iter().map(|e| e.port).collect();
    // 22 is outside the dev range; 5174 shares pid 100 with 5173
    assert_eq!(ports, vec![5173, 8000]);
    let every = scan_ports(l, p, c, &dirs, false);
    assert_eq!(every.len(), 3);
}

#[test]
fn scan_single_port() {
    let (l, p, c) = sample_outputs();
    let info = scan_port(8000, l, p, c, &vec![]).unwrap();
    assert_eq!(info.pid, 200);
    assert_eq!(info.name, "python3");
    assert!(scan_port(9999, l, p, c, &vec![]).is_none());
}

#[test]
fn unknown_process_fields() {
    let infos = build_port_infos(&vec![(4000, 77)], false, &vec![], &vec![], &vec![]);
    assert_eq!(infos[0].name, "?");
    assert_eq!(infos[0].cmdline, "?");
    assert_eq!(infos[0].user, "?");
    assert_eq!(infos[0].start_cmd, "?");
    assert_eq!(infos[0].framework, "Unknown");
}

fn info(port: u16, pid: u32, fw: &str) -> PortInfo {
    PortInfo {
        port,
        pid,
        name: "n".into(),
        cmdline: "c".into(),
        start_cmd: "s".into(),
        cwd: None,
        project: "p".into(),
        framework: fw.into(),
        language: "L".into(),
        user: "u".into(),
    }
}

#[test]
fn known_unique_keeps_first_per_pid() {
    let v = vec![info(1, 10, "Unknown"), info(2, 10, "Vite"), info(3, 10, "Vite"), info(4, 11, "Go")];
    let r = keep_known_unique(&v);
    let ports: Vec<u16> = r.iter().map(|e| e.port).collect();
    assert_eq!(ports, vec![2, 4]);
}

#[test]
fn kill_reports() {
    assert_eq!(kill_report(3000, None, None), (false, "No process found on port 3000".to_string()));
    let mut t = info(3000, 42, "Next.js");
    t.project = "web".into();
    assert_eq!(
        kill_report(3000, Some(&t), None),
        (true, "Killed PID 42 (Next.js — web) on port 3000".to_string())
    );
    assert_eq!(
        kill_report(3000, Some(&t), Some("EPERM: Operation not permitted")),
        (false, "Failed to kill PID 42: EPERM: Operation not permitted".to_string())
    );
}

#[test]
fn cwd_entries_later_wins() {
    let ps = vec![];
    let cw = vec![
        CwdEntry { pid: 5, path: "/a/one".into() },
        CwdEntry { pid: 5, path: "/a/two".into() },
    ];
    let r = build_port_infos(&vec![(3000, 5)], false, &ps, &cw, &vec![]);
    assert_eq!(r[0].project, "two");
}

#[test]
fn records_sorted_by_port() {
    let r = build_port_infos(&vec![(3000, 1), (80, 2)], false, &vec![], &vec![], &vec![]);
    let ports: Vec<(u16, u32)> = r.iter().map(|e| (e.port, e.pid)).collect();
    assert_eq!(ports, vec![(80, 2), (3000, 1)]);
}

#[test]
fn records_sort_keeps_order_of_equal_ports() {
    let r = build_port_infos(&vec![(5000, 9), (4000, 3), (5000, 1), (4000, 7)], false, &vec![], &vec![], &vec![]);
    let ports: Vec<(u16, u32)> = r.iter().map(|e| (e.port, e.pid)).collect();
    assert_eq!(ports, vec![(4000, 3), (4000, 7), (5000, 9), (5000, 1)]);
}

#[test]
fn project_names_of_dot_paths() {
    assert_eq!(project_name(Some("/home/u/proj/.")), "proj");
    assert_eq!(project_name(Some("/home/u/proj/./")), "proj");
    assert_eq!(project_name(Some("/home//u//proj")), "proj");
    assert_eq!(project_name(Some("/home/u/..")), "—");
    assert_eq!(project_name(Some(".")), "—");
    assert_eq!(project_name(Some("...")), "...");
}
