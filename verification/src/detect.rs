//! Recognising what a listening process is: its framework and language, its
//! project, and the command that started it.
use vstd::prelude::*;

use crate::text::{
    char_seqs,
    chars_eq, chars_of, concat_chars, contains, contains_chars, find_ws, first_ws, has_char,
    lemma_prefix_len, lowercase, non_ws, opt_view, words, words_of, slice_chars, spec_file_name, spec_lowercase, string_of,
    trim, trim_chars, file_name,
};

verus! {

broadcast use vstd::string::group_string_axioms;

// ───────────────────────────── working directories ─────────────────────────────

/// What the caller found in a process's working directory: the names of the
/// probed files that exist there (see [`probed_files`]) and the text of its
/// `package.json`, when it could be read.
#[derive(Debug)]
pub struct DirProbe {
    pub path: String,
    pub present: Vec<String>,
    pub package_json: Option<String>,
}

pub struct DirView {
    pub path: Seq<char>,
    pub present: Seq<Seq<char>>,
    pub package_json: Option<Seq<char>>,
}

impl View for DirProbe {
    type V = DirView;

    open spec fn view(&self) -> DirView {
        DirView {
            path: self.path@,
            present: Seq::new(self.present@.len(), |i: int| self.present@[i]@),
            package_json: opt_view(self.package_json),
        }
    }
}

/// The file `name` exists in the directory.
pub open spec fn has_file(d: DirView, name: Seq<char>) -> bool {
    d.present.contains(name)
}

pub fn dir_has_file(d: &DirProbe, name: &str) -> (r: bool)
    ensures
        r == has_file(d@, name@),
{
    let want = chars_of(name);
    let mut i: usize = 0;
    while i < d.present.len()
        invariant
            i <= d.present.len(),
            want@ == name@,
            forall|j: int| 0 <= j < i ==> d@.present[j] != name@,
        decreases d.present.len() - i,
    {
        let have = chars_of(d.present[i].as_str());
        if chars_eq(&have, &want) {
            assert(d@.present[i as int] == name@);
            return true;
        }
        i = i + 1;
    }
    false
}

/// Command-line signatures: (pattern, framework, language), tried in order.
pub open spec fn cmd_sig(i: int) -> (Seq<char>, Seq<char>, Seq<char>) {
    if i == 0 {
        ("next"@, "Next.js"@, "JS/TS"@)
    } else if i == 1 {
        ("vite"@, "Vite"@, "JS/TS"@)
    } else if i == 2 {
        ("nuxt"@, "Nuxt"@, "JS/TS"@)
    } else if i == 3 {
        ("remix"@, "Remix"@, "JS/TS"@)
    } else if i == 4 {
        ("astro"@, "Astro"@, "JS/TS"@)
    } else if i == 5 {
        ("webpack-dev-server"@, "Webpack"@, "JS/TS"@)
    } else if i == 6 {
        ("react-scripts"@, "CRA"@, "JS/TS"@)
    } else if i == 7 {
        ("ng serve"@, "Angular"@, "TS"@)
    } else if i == 8 {
        ("angular"@, "Angular"@, "TS"@)
    } else if i == 9 {
        ("svelte"@, "SvelteKit"@, "JS/TS"@)
    } else if i == 10 {
        ("gatsby"@, "Gatsby"@, "JS/TS"@)
    } else if i == 11 {
        ("express"@, "Express"@, "JS/TS"@)
    } else if i == 12 {
        ("nest"@, "NestJS"@, "TS"@)
    } else if i == 13 {
        ("ts-node"@, "Node.js"@, "TS"@)
    } else if i == 14 {
        ("tsx"@, "Node.js"@, "TS"@)
    } else if i == 15 {
        ("bun"@, "Bun"@, "JS/TS"@)
    } else if i == 16 {
        ("deno"@, "Deno"@, "TS"@)
    } else if i == 17 {
        ("node"@, "Node.js"@, "JS"@)
    } else if i == 18 {
        ("uvicorn"@, "FastAPI"@, "Python"@)
    } else if i == 19 {
        ("fastapi"@, "FastAPI"@, "Python"@)
    } else if i == 20 {
        ("gunicorn"@, "Gunicorn"@, "Python"@)
    } else if i == 21 {
        ("flask"@, "Flask"@, "Python"@)
    } else if i == 22 {
        ("django"@, "Django"@, "Python"@)
    } else if i == 23 {
        ("manage.py"@, "Django"@, "Python"@)
    } else if i == 24 {
        ("streamlit"@, "Streamlit"@, "Python"@)
    } else if i == 25 {
        ("gradio"@, "Gradio"@, "Python"@)
    } else if i == 26 {
        ("python"@, "Python"@, "Python"@)
    } else if i == 27 {
        ("flink"@, "Flink"@, "Java"@)
    } else if i == 28 {
        ("spark"@, "Spark"@, "Java"@)
    } else if i == 29 {
        ("spring"@, "Spring"@, "Java"@)
    } else if i == 30 {
        ("gradle"@, "Gradle"@, "Java"@)
    } else if i == 31 {
        ("mvn"@, "Maven"@, "Java"@)
    } else if i == 32 {
        ("java"@, "Java"@, "Java"@)
    } else if i == 33 {
        ("kotlin"@, "Kotlin"@, "Kotlin"@)
    } else if i == 34 {
        ("scala"@, "Scala"@, "Scala"@)
    } else if i == 35 {
        ("go run"@, "Go"@, "Go"@)
    } else if i == 36 {
        ("cargo"@, "Cargo"@, "Rust"@)
    } else if i == 37 {
        ("rails"@, "Rails"@, "Ruby"@)
    } else if i == 38 {
        ("puma"@, "Puma"@, "Ruby"@)
    } else if i == 39 {
        ("ruby"@, "Ruby"@, "Ruby"@)
    } else if i == 40 {
        ("artisan"@, "Laravel"@, "PHP"@)
    } else if i == 41 {
        ("php"@, "PHP"@, "PHP"@)
    } else if i == 42 {
        ("mix phx"@, "Phoenix"@, "Elixir"@)
    } else {
        ("elixir"@, "Elixir"@, "Elixir"@)
    }
}

pub fn cmd_sig_at(i: usize) -> (r: (&'static str, &'static str, &'static str))
    requires
        i < 44,
    ensures
        (r.0@, r.1@, r.2@) == cmd_sig(i as int),
{
    if i == 0 {
        ("next", "Next.js", "JS/TS")
    } else if i == 1 {
        ("vite", "Vite", "JS/TS")
    } else if i == 2 {
        ("nuxt", "Nuxt", "JS/TS")
    } else if i == 3 {
        ("remix", "Remix", "JS/TS")
    } else if i == 4 {
        ("astro", "Astro", "JS/TS")
    } else if i == 5 {
        ("webpack-dev-server", "Webpack", "JS/TS")
    } else if i == 6 {
        ("react-scripts", "CRA", "JS/TS")
    } else if i == 7 {
        ("ng serve", "Angular", "TS")
    } else if i == 8 {
        ("angular", "Angular", "TS")
    } else if i == 9 {
        ("svelte", "SvelteKit", "JS/TS")
    } else if i == 10 {
        ("gatsby", "Gatsby", "JS/TS")
    } else if i == 11 {
        ("express", "Express", "JS/TS")
    } else if i == 12 {
        ("nest", "NestJS", "TS")
    } else if i == 13 {
        ("ts-node", "Node.js", "TS")
    } else if i == 14 {
        ("tsx", "Node.js", "TS")
    } else if i == 15 {
        ("bun", "Bun", "JS/TS")
    } else if i == 16 {
        ("deno", "Deno", "TS")
    } else if i == 17 {
        ("node", "Node.js", "JS")
    } else if i == 18 {
        ("uvicorn", "FastAPI", "Python")
    } else if i == 19 {
        ("fastapi", "FastAPI", "Python")
    } else if i == 20 {
        ("gunicorn", "Gunicorn", "Python")
    } else if i == 21 {
        ("flask", "Flask", "Python")
    } else if i == 22 {
        ("django", "Django", "Python")
    } else if i == 23 {
        ("manage.py", "Django", "Python")
    } else if i == 24 {
        ("streamlit", "Streamlit", "Python")
    } else if i == 25 {
        ("gradio", "Gradio", "Python")
    } else if i == 26 {
        ("python", "Python", "Python")
    } else if i == 27 {
        ("flink", "Flink", "Java")
    } else if i == 28 {
        ("spark", "Spark", "Java")
    } else if i == 29 {
        ("spring", "Spring", "Java")
    } else if i == 30 {
        ("gradle", "Gradle", "Java")
    } else if i == 31 {
        ("mvn", "Maven", "Java")
    } else if i == 32 {
        ("java", "Java", "Java")
    } else if i == 33 {
        ("kotlin", "Kotlin", "Kotlin")
    } else if i == 34 {
        ("scala", "Scala", "Scala")
    } else if i == 35 {
        ("go run", "Go", "Go")
    } else if i == 36 {
        ("cargo", "Cargo", "Rust")
    } else if i == 37 {
        ("rails", "Rails", "Ruby")
    } else if i == 38 {
        ("puma", "Puma", "Ruby")
    } else if i == 39 {
        ("ruby", "Ruby", "Ruby")
    } else if i == 40 {
        ("artisan", "Laravel", "PHP")
    } else if i == 41 {
        ("php", "PHP", "PHP")
    } else if i == 42 {
        ("mix phx", "Phoenix", "Elixir")
    } else {
        ("elixir", "Elixir", "Elixir")
    }
}

/// Directory markers: (file, framework, language), tried in order.
pub open spec fn dir_marker(i: int) -> (Seq<char>, Seq<char>, Seq<char>) {
    if i == 0 {
        ("next.config.js"@, "Next.js"@, "JS/TS"@)
    } else if i == 1 {
        ("next.config.mjs"@, "Next.js"@, "JS/TS"@)
    } else if i == 2 {
        ("next.config.ts"@, "Next.js"@, "JS/TS"@)
    } else if i == 3 {
        ("vite.config.ts"@, "Vite"@, "JS/TS"@)
    } else if i == 4 {
        ("vite.config.js"@, "Vite"@, "JS/TS"@)
    } else if i == 5 {
        ("nuxt.config.ts"@, "Nuxt"@, "JS/TS"@)
    } else if i == 6 {
        ("angular.json"@, "Angular"@, "TS"@)
    } else if i == 7 {
        ("svelte.config.js"@, "SvelteKit"@, "JS/TS"@)
    } else if i == 8 {
        ("astro.config.mjs"@, "Astro"@, "JS/TS"@)
    } else if i == 9 {
        ("manage.py"@, "Django"@, "Python"@)
    } else if i == 10 {
        ("pyproject.toml"@, "Python"@, "Python"@)
    } else if i == 11 {
        ("Cargo.toml"@, "Rust"@, "Rust"@)
    } else if i == 12 {
        ("go.mod"@, "Go"@, "Go"@)
    } else if i == 13 {
        ("Gemfile"@, "Ruby"@, "Ruby"@)
    } else if i == 14 {
        ("composer.json"@, "PHP"@, "PHP"@)
    } else if i == 15 {
        ("mix.exs"@, "Elixir"@, "Elixir"@)
    } else if i == 16 {
        ("build.gradle"@, "Gradle"@, "Java"@)
    } else if i == 17 {
        ("pom.xml"@, "Maven"@, "Java"@)
    } else {
        ("package.json"@, "Node.js"@, "JS/TS"@)
    }
}

pub fn dir_marker_at(i: usize) -> (r: (&'static str, &'static str, &'static str))
    requires
        i < 19,
    ensures
        (r.0@, r.1@, r.2@) == dir_marker(i as int),
{
    if i == 0 {
        ("next.config.js", "Next.js", "JS/TS")
    } else if i == 1 {
        ("next.config.mjs", "Next.js", "JS/TS")
    } else if i == 2 {
        ("next.config.ts", "Next.js", "JS/TS")
    } else if i == 3 {
        ("vite.config.ts", "Vite", "JS/TS")
    } else if i == 4 {
        ("vite.config.js", "Vite", "JS/TS")
    } else if i == 5 {
        ("nuxt.config.ts", "Nuxt", "JS/TS")
    } else if i == 6 {
        ("angular.json", "Angular", "TS")
    } else if i == 7 {
        ("svelte.config.js", "SvelteKit", "JS/TS")
    } else if i == 8 {
        ("astro.config.mjs", "Astro", "JS/TS")
    } else if i == 9 {
        ("manage.py", "Django", "Python")
    } else if i == 10 {
        ("pyproject.toml", "Python", "Python")
    } else if i == 11 {
        ("Cargo.toml", "Rust", "Rust")
    } else if i == 12 {
        ("go.mod", "Go", "Go")
    } else if i == 13 {
        ("Gemfile", "Ruby", "Ruby")
    } else if i == 14 {
        ("composer.json", "PHP", "PHP")
    } else if i == 15 {
        ("mix.exs", "Elixir", "Elixir")
    } else if i == 16 {
        ("build.gradle", "Gradle", "Java")
    } else if i == 17 {
        ("pom.xml", "Maven", "Java")
    } else {
        ("package.json", "Node.js", "JS/TS")
    }
}

/// Every file name whose presence the detection reads, so that the caller
/// knows which files to look for.
pub fn probed_files() -> (v: Vec<&'static str>)
    ensures
        forall|i: int| 0 <= i < 19 ==> v@.map_values(|s: &str| s@).contains(#[trigger] dir_marker(i).0),
        v@.map_values(|s: &str| s@).contains("bun.lockb"@),
        v@.map_values(|s: &str| s@).contains("bun.lock"@),
        v@.map_values(|s: &str| s@).contains("yarn.lock"@),
        v@.map_values(|s: &str| s@).contains("pnpm-lock.yaml"@),
{
    let mut v: Vec<&'static str> = Vec::new();
    let mut i: usize = 0;
    while i < 19
        invariant
            i <= 19,
            v@.len() == i,
            forall|j: int| 0 <= j < i ==> #[trigger] v@[j]@ == dir_marker(j).0,
        decreases 19 - i,
    {
        let m = dir_marker_at(i);
        v.push(m.0);
        i = i + 1;
    }
    v.push("bun.lockb");
    v.push("bun.lock");
    v.push("yarn.lock");
    v.push("pnpm-lock.yaml");
    proof {
        let vs = v@.map_values(|s: &str| s@);
        assert forall|j: int| 0 <= j < 19 implies vs.contains(#[trigger] dir_marker(j).0) by {
            assert(vs[j] == dir_marker(j).0);
        }
        assert(vs[19] == "bun.lockb"@);
        assert(vs[20] == "bun.lock"@);
        assert(vs[21] == "yarn.lock"@);
        assert(vs[22] == "pnpm-lock.yaml"@);
    }
    v
}

// ───────────────────────────── framework detection ─────────────────────────────

/// The first command signature, from index `i` on, whose pattern occurs in
/// the lower-cased command line.
pub open spec fn first_sig_from(lower: Seq<char>, i: int) -> Option<int>
    decreases 44 - i,
{
    if i < 0 || i >= 44 {
        None
    } else if contains(lower, cmd_sig(i).0) {
        Some(i)
    } else {
        first_sig_from(lower, i + 1)
    }
}

/// The first directory marker, from index `i` on, present in the directory.
pub open spec fn first_marker_from(d: DirView, i: int) -> Option<int>
    decreases 19 - i,
{
    if i < 0 || i >= 19 {
        None
    } else if has_file(d, dir_marker(i).0) {
        Some(i)
    } else {
        first_marker_from(d, i + 1)
    }
}

/// (framework, language) of a process: the first command signature that
/// its lower-cased command line contains; failing that, the first marker
/// file in its working directory; failing that, unknown.
pub open spec fn detection(cmdline: Seq<char>, dir: Option<DirView>) -> (Seq<char>, Seq<char>) {
    match first_sig_from(spec_lowercase(cmdline), 0) {
        Some(i) => (cmd_sig(i).1, cmd_sig(i).2),
        None => match dir {
            Some(d) => match first_marker_from(d, 0) {
                Some(j) => (dir_marker(j).1, dir_marker(j).2),
                None => ("Unknown"@, "Unknown"@),
            },
            None => ("Unknown"@, "Unknown"@),
        },
    }
}

pub open spec fn probe_view(dir: Option<&DirProbe>) -> Option<DirView> {
    match dir {
        Some(d) => Some(d@),
        None => None,
    }
}

/// The framework and language of a process with this command line, whose
/// working directory (if known) holds what `dir` says.
pub fn detect(cmdline: &str, dir: Option<&DirProbe>) -> (r: (&'static str, &'static str))
    ensures
        (r.0@, r.1@) == detection(cmdline@, probe_view(dir)),
{
    let lower_s = lowercase(cmdline);
    let lower = chars_of(lower_s.as_str());
    let mut i: usize = 0;
    while i < 44
        invariant
            i <= 44,
            lower@ == spec_lowercase(cmdline@),
            first_sig_from(lower@, 0) == first_sig_from(lower@, i as int),
        decreases 44 - i,
    {
        let s = cmd_sig_at(i);
        let pat = chars_of(s.0);
        if contains_chars(&lower, &pat) {
            return (s.1, s.2);
        }
        i = i + 1;
    }
    match dir {
        Some(d) => {
            let mut j: usize = 0;
            while j < 19
                invariant
                    j <= 19,
                    first_sig_from(spec_lowercase(cmdline@), 0) is None,
                    dir == Some(d),
                    first_marker_from(d@, 0) == first_marker_from(d@, j as int),
                decreases 19 - j,
            {
                let m = dir_marker_at(j);
                if dir_has_file(d, m.0) {
                    return (m.1, m.2);
                }
                j = j + 1;
            }
        },
        None => {},
    }
    ("Unknown", "Unknown")
}

// ───────────────────────────── names and commands ─────────────────────────────

/// The last component of a path, or the path itself when it has none.
pub open spec fn base_name_text(p: Seq<char>) -> Seq<char> {
    match spec_file_name(p) {
        Some(n) => n,
        None => p,
    }
}

fn base_name_chars(p: &Vec<char>) -> (r: Vec<char>)
    ensures
        r@ == base_name_text(p@),
{
    let s = string_of(p.as_slice());
    match file_name(s.as_str()) {
        Some(n) => chars_of(n.as_str()),
        None => slice_chars(p, 0, p.len()),
    }
}

/// The last component of `path`, or `path` itself when it has none.
pub fn base_name(path: &str) -> (r: String)
    ensures
        r@ == base_name_text(path@),
{
    let p = chars_of(path);
    let b = base_name_chars(&p);
    string_of(b.as_slice())
}

/// The project of a process: the last component of its working directory,
/// or "—" when that is unknown.
pub open spec fn project_text(cwd: Option<Seq<char>>) -> Seq<char> {
    match cwd {
        Some(p) => match spec_file_name(p) {
            Some(n) => n,
            None => "—"@,
        },
        None => "—"@,
    }
}

pub fn project_name(cwd: Option<&str>) -> (r: String)
    ensures
        r@ == project_text(
            match cwd {
                Some(p) => Some(p@),
                None => None,
            },
        ),
{
    match cwd {
        Some(p) => match file_name(p) {
            Some(n) => n,
            None => string_of(chars_of("—").as_slice()),
        },
        None => string_of(chars_of("—").as_slice()),
    }
}

/// Interpreters whose first argument is a script path.
pub open spec fn is_interpreter(bin: Seq<char>) -> bool {
    ||| bin == "node"@
    ||| bin == "python"@
    ||| bin == "python3"@
    ||| bin == "ruby"@
    ||| bin == "php"@
    ||| bin == "java"@
    ||| bin == "perl"@
}

fn is_interpreter_chars(bin: &Vec<char>) -> (r: bool)
    ensures
        r == is_interpreter(bin@),
{
    chars_eq(bin, &chars_of("node")) || chars_eq(bin, &chars_of("python")) || chars_eq(
        bin,
        &chars_of("python3"),
    ) || chars_eq(bin, &chars_of("ruby")) || chars_eq(bin, &chars_of("php")) || chars_eq(
        bin,
        &chars_of("java"),
    ) || chars_eq(bin, &chars_of("perl"))
}

/// What follows the first whitespace character of `s` (`splitn(2, ..)`'s
/// second part), or nothing.
pub open spec fn after_first_ws(s: Seq<char>) -> Seq<char> {
    if first_ws(s) < s.len() {
        s.skip(first_ws(s) + 1)
    } else {
        seq![]
    }
}

/// A command shown with the base names of its binary and, for an
/// interpreter, of its script path.
pub open spec fn clean_cmd_text(cmd: Seq<char>) -> Seq<char> {
    let bin = base_name_text(cmd.take(first_ws(cmd)));
    let args = trim(after_first_ws(cmd));
    if args.len() == 0 {
        bin
    } else if is_interpreter(bin) {
        let first = args.take(first_ws(args));
        let rest = after_first_ws(args);
        if first.len() > 0 && first[0] == '(' {
            bin
        } else {
            let cf = if first.contains('/') && !(first.len() > 0 && first[0] == '-') {
                base_name_text(first)
            } else {
                first
            };
            if rest.len() == 0 {
                bin + seq![' '] + cf
            } else {
                bin + seq![' '] + cf + seq![' '] + rest
            }
        }
    } else {
        bin + seq![' '] + args
    }
}

/// Splits at the first whitespace character: (before it, after it).
fn split_once_ws(s: &Vec<char>) -> (r: (Vec<char>, Vec<char>))
    ensures
        r.0@ == s@.take(first_ws(s@)),
        r.1@ == after_first_ws(s@),
{
    proof {
        lemma_prefix_len(s@, non_ws());
    }
    let k = find_ws(s);
    let head = slice_chars(s, 0, k);
    let tail = if k < s.len() {
        slice_chars(s, k + 1, s.len())
    } else {
        Vec::new()
    };
    assert(head@ == s@.take(k as int));
    assert(tail@ == after_first_ws(s@));
    (head, tail)
}

/// Cleans a command for display: base names for the binary and, for an
/// interpreter, for the script path it runs.
pub fn clean_cmd(cmd: &str) -> (r: String)
    ensures
        r@ == clean_cmd_text(cmd@),
{
    let c = chars_of(cmd);
    let (binary, after) = split_once_ws(&c);
    let args = trim_chars(&after);
    let bin = base_name_chars(&binary);
    if args.len() == 0 {
        return string_of(bin.as_slice());
    }
    if is_interpreter_chars(&bin) {
        let (first, rest) = split_once_ws(&args);
        if first.len() > 0 && first[0] == '(' {
            return string_of(bin.as_slice());
        }
        let cf = if has_char(&first, '/') && !(first.len() > 0 && first[0] == '-') {
            base_name_chars(&first)
        } else {
            slice_chars(&first, 0, first.len())
        };
        assert(first@.subrange(0, first.len() as int) == first@);
        let mut out = bin;
        out.push(' ');
        out = concat_chars(&out, &cf);
        if rest.len() > 0 {
            out.push(' ');
            out = concat_chars(&out, &rest);
        }
        return string_of(out.as_slice());
    }
    let mut out = bin;
    out.push(' ');
    out = concat_chars(&out, &args);
    string_of(out.as_slice())
}


// ───────────────────────────── package.json scripts ─────────────────────────────

/// The `scripts` object of a `package.json` text as serde_json reads it:
/// each script's name and, when its value is a JSON string, that string;
/// `None` when the text is not JSON or has no `scripts` object.
pub uninterp spec fn spec_package_scripts(content: Seq<char>) -> Option<
    Seq<(Seq<char>, Option<Seq<char>>)>,
>;

pub open spec fn scripts_view(v: Seq<(String, Option<String>)>) -> Seq<(Seq<char>, Option<Seq<char>>)> {
    Seq::new(v.len(), |i: int| (v[i].0@, opt_view(v[i].1)))
}

/// Trusted: `serde_json::from_str::<serde_json::Value>` on the text, then
/// `Value::get("scripts")`, `Value::as_object` and, for each entry of that
/// object in the order serde_json's map yields them, `Value::as_str`. Their
/// result depends on the text alone; the contract names it and claims
/// nothing more of it.
#[verifier::external_body]
fn package_scripts(content: &str) -> (r: Option<Vec<(String, Option<String>)>>)
    ensures
        match r {
            Some(v) => spec_package_scripts(content@) == Some(scripts_view(v@)),
            None => spec_package_scripts(content@) is None,
        },
{
    let json: serde_json::Value = serde_json::from_str(content).ok()?;
    let scripts = json.get("scripts")?.as_object()?;
    Some(scripts.iter().map(|(k, v)| (k.clone(), v.as_str().map(|s| s.to_string()))).collect())
}

/// The package manager a project runs under: named in the command line,
/// else told by its lock file, else npm.
pub open spec fn package_manager_text(cmdline: Seq<char>, d: DirView) -> Seq<char> {
    let lower = spec_lowercase(cmdline);
    if contains(lower, "bun"@) {
        "bun"@
    } else if contains(lower, "yarn"@) {
        "yarn"@
    } else if contains(lower, "pnpm"@) {
        "pnpm"@
    } else if has_file(d, "bun.lockb"@) || has_file(d, "bun.lock"@) {
        "bun"@
    } else if has_file(d, "yarn.lock"@) {
        "yarn"@
    } else if has_file(d, "pnpm-lock.yaml"@) {
        "pnpm"@
    } else {
        "npm"@
    }
}

pub fn detect_package_manager(cmdline: &str, dir: &DirProbe) -> (r: &'static str)
    ensures
        r@ == package_manager_text(cmdline@, dir@),
{
    let lower_s = lowercase(cmdline);
    let lower = chars_of(lower_s.as_str());
    if contains_chars(&lower, &chars_of("bun")) {
        return "bun";
    }
    if contains_chars(&lower, &chars_of("yarn")) {
        return "yarn";
    }
    if contains_chars(&lower, &chars_of("pnpm")) {
        return "pnpm";
    }
    if dir_has_file(dir, "bun.lockb") || dir_has_file(dir, "bun.lock") {
        return "bun";
    }
    if dir_has_file(dir, "yarn.lock") {
        return "yarn";
    }
    if dir_has_file(dir, "pnpm-lock.yaml") {
        return "pnpm";
    }
    "npm"
}

/// A word of a script that names something to match: not an option (`-`)
/// nor a variable (`$`).
pub open spec fn keep_word(w: Seq<char>) -> bool {
    !(w.len() > 0 && (w[0] == '-' || w[0] == '$'))
}

pub open spec fn kept_words(ws: Seq<Seq<char>>) -> Seq<Seq<char>>
    decreases ws.len(),
{
    if ws.len() == 0 {
        seq![]
    } else {
        let r = kept_words(ws.drop_last());
        if keep_word(ws.last()) {
            r.push(ws.last())
        } else {
            r
        }
    }
}

/// The first two words of a script that are neither options nor variables.
pub open spec fn script_words(script: Seq<char>) -> Seq<Seq<char>> {
    let k = kept_words(words(script));
    if k.len() < 2 {
        k
    } else {
        k.take(2)
    }
}

/// Every word occurs, lower-cased, in the lower-cased command line.
pub open spec fn all_found(ws: Seq<Seq<char>>, lower_cmd: Seq<char>) -> bool {
    forall|i: int| 0 <= i < ws.len() ==> contains(lower_cmd, spec_lowercase(#[trigger] ws[i]))
}

/// The script whose words all occur in the command line, preferring more
/// words and, among equals, the earliest: (name, number of words).
pub open spec fn best_script(entries: Seq<(Seq<char>, Option<Seq<char>>)>, lower_cmd: Seq<char>) -> Option<
    (Seq<char>, int),
>
    decreases entries.len(),
{
    if entries.len() == 0 {
        None
    } else {
        let prev = best_script(entries.drop_last(), lower_cmd);
        match entries.last().1 {
            None => prev,
            Some(v) => {
                let ws = script_words(v);
                if ws.len() > 0 && all_found(ws, lower_cmd) && match prev {
                    None => true,
                    Some(b) => ws.len() > b.1,
                } {
                    Some((entries.last().0, ws.len() as int))
                } else {
                    prev
                }
            },
        }
    }
}

/// "PM run SCRIPT" for the package.json script that the command line runs.
pub open spec fn package_script_text(cmdline: Seq<char>, d: DirView) -> Option<Seq<char>> {
    match d.package_json {
        None => None,
        Some(content) => match spec_package_scripts(content) {
            None => None,
            Some(entries) => match best_script(entries, spec_lowercase(cmdline)) {
                None => None,
                Some(b) => Some(package_manager_text(cmdline, d) + " run "@ + b.0),
            },
        },
    }
}

fn script_words_of(script: &str) -> (r: Vec<Vec<char>>)
    ensures
        char_seqs(r@) == script_words(script@),
{
    let ws = words_of(&chars_of(script));
    let mut kept: Vec<Vec<char>> = Vec::new();
    let mut i: usize = 0;
    while i < ws.len()
        invariant
            i <= ws.len(),
            char_seqs(kept@) == kept_words(char_seqs(ws@).take(i as int)),
        decreases ws.len() - i,
    {
        let ghost all = char_seqs(ws@);
        assert(all.take(i + 1).drop_last() == all.take(i as int));
        assert(all.take(i + 1).last() == ws@[i as int]@);
        let w = &ws[i];
        if !(w.len() > 0 && (w[0] == '-' || w[0] == '$')) {
            let ghost before = char_seqs(kept@);
            kept.push(slice_chars(w, 0, w.len()));
            assert(w@.subrange(0, w.len() as int) == w@);
            assert(char_seqs(kept@) =~= before.push(w@));
        }
        i = i + 1;
    }
    assert(char_seqs(ws@).take(ws.len() as int) == char_seqs(ws@));
    if kept.len() > 2 {
        let ghost before = char_seqs(kept@);
        kept.truncate(2);
        assert(char_seqs(kept@) =~= before.take(2));
    }
    kept
}

/// Whether every word occurs, lower-cased, in `lower_cmd`.
fn all_found_chars(ws: &Vec<Vec<char>>, lower_cmd: &Vec<char>) -> (r: bool)
    ensures
        r == all_found(char_seqs(ws@), lower_cmd@),
{
    let mut i: usize = 0;
    while i < ws.len()
        invariant
            i <= ws.len(),
            forall|j: int|
                0 <= j < i ==> contains(lower_cmd@, spec_lowercase(#[trigger] char_seqs(ws@)[j])),
        decreases ws.len() - i,
    {
        let w = string_of(ws[i].as_slice());
        let lw = lowercase(w.as_str());
        let lwc = chars_of(lw.as_str());
        if !contains_chars(lower_cmd, &lwc) {
            assert(!contains(lower_cmd@, spec_lowercase(char_seqs(ws@)[i as int])));
            return false;
        }
        i = i + 1;
    }
    true
}

/// The package.json script that `cmdline` runs, as "PM run SCRIPT".
pub fn match_package_script(cmdline: &str, dir: &DirProbe) -> (r: Option<String>)
    ensures
        opt_view(r) == package_script_text(cmdline@, dir@),
{
    let content = match &dir.package_json {
        Some(c) => c,
        None => return None,
    };
    let entries = match package_scripts(content.as_str()) {
        Some(e) => e,
        None => return None,
    };
    let lower_s = lowercase(cmdline);
    let lower = chars_of(lower_s.as_str());
    let mut best: Option<(usize, usize)> = None;
    let mut i: usize = 0;
    while i < entries.len()
        invariant
            i <= entries.len(),
            lower@ == spec_lowercase(cmdline@),
            match best_script(scripts_view(entries@).take(i as int), lower@) {
                None => best is None,
                Some(b) => match best {
                    Some(x) => x.0 < i && b.0 == entries@[x.0 as int].0@ && b.1 == x.1,
                    None => false,
                },
            },
        decreases entries.len() - i,
    {
        let ghost all = scripts_view(entries@);
        assert(all.take(i + 1).drop_last() == all.take(i as int));
        assert(all.take(i + 1).last() == all[i as int]);
        match &entries[i].1 {
            Some(v) => {
                let ws = script_words_of(v.as_str());
                if ws.len() > 0 && all_found_chars(&ws, &lower) {
                    let better = match best {
                        None => true,
                        Some(b) => ws.len() > b.1,
                    };
                    if better {
                        best = Some((i, ws.len()));
                    }
                }
            },
            None => {},
        }
        i = i + 1;
    }
    assert(scripts_view(entries@).take(entries.len() as int) == scripts_view(entries@));
    match best {
        None => None,
        Some(b) => {
            let pm = detect_package_manager(cmdline, dir);
            let mut out = chars_of(pm);
            out = concat_chars(&out, &chars_of(" run "));
            out = concat_chars(&out, &chars_of(entries[b.0].0.as_str()));
            Some(string_of(out.as_slice()))
        },
    }
}

} // verus!
