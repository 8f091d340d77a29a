//! The static-analysis collector's decisions: which package dirs the Go
//! linters scope to (each arg single-quoted for the shell), the tools' command
//! arguments, what a finished tool run reports (fail-soft: a missing
//! tool, a timeout or a silent failure is a recorded run, never an error),
//! and how the runs and findings of all tools are assembled into one report.
use vstd::prelude::*;
use crate::analysis::AnalyzerRun;
use crate::findings::{push_chars, push_str, dedupe_findings, dedupe_spec, findings_view, AnalysisFinding, FindingV};
use crate::gochecks::{parent_dir, parent_dir_exec, quoted_scope, quoted_scope_spec, strings_view};
use crate::paths::{eq_str, ext, ext_or_empty};
use crate::render::{in_change_part, pre_existing_part};
use crate::signatures::{bound, bound_spec};
use crate::text::{dec_text, dec_text_exec, chars_of, lex_compare, lex_lt, lower_seq, sorted_insert, string_of, strictly_sorted, trim, trim_exec, views_of};

verus! {

/// The most findings one analysis report keeps (changed-file ones first).
pub const MAX_FINDINGS: usize = 200;

/// The linter scope arg of a changed path: `./dir/...` for a `.go` file in
/// `dir`, `./...` at the root; nothing for another file. Every arg is
/// single-quoted before it reaches the shell ([`lint_scope_args`]).
pub open spec fn lint_scope_entry(p: Seq<char>) -> Option<Seq<char>> {
    if lower_seq(ext_or_empty(p)) != "go"@ {
        None
    } else {
        let dir = parent_dir(p);
        if dir.len() == 0 {
            Some("./..."@)
        } else {
            Some("./"@ + dir + "/..."@)
        }
    }
}

pub open spec fn lint_scope_set(cs: Seq<Seq<char>>) -> Set<Seq<char>>
    decreases cs.len(),
{
    if cs.len() == 0 {
        Set::empty()
    } else {
        let rest = lint_scope_set(cs.drop_last());
        match lint_scope_entry(cs.last()) {
            Some(e) => rest.insert(e),
            None => rest,
        }
    }
}

fn lint_scope_entry_exec(p: &str) -> (r: Option<Vec<char>>)
    ensures
        match lint_scope_entry(p@) {
            Some(e) => r matches Some(v) && v@ == e,
            None => r is None,
        },
{
    let e = ext(p);
    if !eq_str(&e, "go") {
        return None;
    }
    let pc = chars_of(p);
    let dir = parent_dir_exec(&pc);
    if dir.len() == 0 {
        return Some(chars_of("./..."));
    }
    let mut out = chars_of("./");
    crate::findings::push_chars(&mut out, &dir);
    crate::findings::push_str(&mut out, "/...");
    Some(out)
}

/// The distinct package-dir scope args of the changed `.go` files, sorted.
pub fn lint_scope(changed: &[String]) -> (r: Vec<String>)
    ensures
        strictly_sorted(strings_view(r@)),
        strings_view(r@).to_set() == lint_scope_set(strings_view(changed@)),
{
    let mut dirs: Vec<Vec<char>> = Vec::new();
    assert(views_of(dirs@).to_set() =~= Set::empty());
    let mut i: usize = 0;
    while i < changed.len()
        invariant
            i <= changed@.len(),
            strictly_sorted(views_of(dirs@)),
            views_of(dirs@).to_set() == lint_scope_set(strings_view(changed@).take(i as int)),
        decreases changed.len() - i,
    {
        let ghost cs = strings_view(changed@).take(i as int + 1);
        assert(cs.drop_last() =~= strings_view(changed@).take(i as int));
        assert(cs.last() == changed@[i as int]@);
        match lint_scope_entry_exec(changed[i].as_str()) {
            Some(e) => {
                sorted_insert(&mut dirs, e);
            },
            None => {},
        }
        i += 1;
    }
    assert(strings_view(changed@).take(changed@.len() as int) =~= strings_view(changed@));
    let mut out: Vec<String> = Vec::new();
    let mut k: usize = 0;
    while k < dirs.len()
        invariant
            k <= dirs@.len(),
            out@.len() == k,
            strings_view(out@) =~= views_of(dirs@).take(k as int),
        decreases dirs.len() - k,
    {
        out.push(string_of(&dirs[k]));
        assert(out@[k as int]@ == views_of(dirs@)[k as int]);
        k += 1;
        assert(strings_view(out@) =~= views_of(dirs@).take(k as int));
    }
    assert(views_of(dirs@).take(dirs@.len() as int) =~= views_of(dirs@));
    out
}

/// What a finished tool process gave back.
pub struct ToolExit {
    /// The sandbox could not run it (its error text).
    pub exec_error: Option<String>,
    pub timed_out: bool,
    pub exit_code: i32,
    pub stdout: String,
    pub stderr: String,
}

/// A run record as plain values: (status, reason, duration, finding count).
pub open spec fn run_fields(r: AnalyzerRun) -> (Seq<char>, Seq<char>, u32, u32) {
    (r.status@, r.reason@, r.duration_ms, r.finding_count)
}

pub open spec fn clamp_u32(n: nat) -> u32 {
    if n <= u32::MAX { n as u32 } else { u32::MAX }
}

/// The run a tool process reports: its diagnostics are on stderr when
/// `parse_stderr`, else on stdout, and `found` findings were read from them.
/// An unrunnable tool or a silent non-zero exit is `failed` with a short
/// reason, a timeout `timeout`, exit 127 (not on PATH) `skipped`; anything
/// else `ok` with its finding count.
pub open spec fn outcome_spec(x: ToolExit, parse_stderr: bool, found: nat, elapsed_ms: nat) -> (Seq<char>, Seq<char>, u32, u32) {
    let d = clamp_u32(elapsed_ms);
    match x.exec_error {
        Some(e) => ("failed"@, bound_spec(e@, 120), d, 0),
        None => if x.timed_out {
            ("timeout"@, Seq::empty(), d, 0)
        } else if x.exit_code == 127 {
            ("skipped"@, "tool not found on PATH"@, d, 0)
        } else {
            let diag = if parse_stderr { x.stderr@ } else { x.stdout@ };
            if found == 0 && x.exit_code != 0 && trim(diag).len() == 0 {
                let other = if trim(x.stderr@).len() == 0 { trim(x.stdout@) } else { trim(x.stderr@) };
                ("failed"@, bound_spec(other, 200), d, 0)
            } else {
                ("ok"@, Seq::empty(), d, clamp_u32(found))
            }
        },
    }
}

/// The run record of `tool` after its process finished.
pub fn tool_outcome(tool: &str, x: &ToolExit, parse_stderr: bool, found: usize, elapsed_ms: u128) -> (r: AnalyzerRun)
    ensures
        r.tool@ == tool@,
        run_fields(r) == outcome_spec(*x, parse_stderr, found as nat, elapsed_ms as nat),
{
    let d: u32 = if elapsed_ms <= 0xffff_ffffu128 { elapsed_ms as u32 } else { 0xffff_ffffu32 };
    let t = string_of(&chars_of(tool));
    let (status, reason, count): (&str, Vec<char>, u32) = match &x.exec_error {
        Some(e) => ("failed", bound(&chars_of(e.as_str()), 120), 0),
        None => if x.timed_out {
            ("timeout", Vec::new(), 0)
        } else if x.exit_code == 127 {
            ("skipped", chars_of("tool not found on PATH"), 0)
        } else {
            let out = chars_of(x.stdout.as_str());
            let err = chars_of(x.stderr.as_str());
            let diag = if parse_stderr { trim_exec(&err) } else { trim_exec(&out) };
            if found == 0 && x.exit_code != 0 && diag.len() == 0 {
                let te = trim_exec(&err);
                let other = if te.len() == 0 { trim_exec(&out) } else { te };
                ("failed", bound(&other, 200), 0)
            } else {
                let c: u32 = if found <= 0xffff_ffffusize { found as u32 } else { 0xffff_ffffu32 };
                ("ok", Vec::new(), c)
            }
        },
    };
    let r = AnalyzerRun { tool: t, status: string_of(&chars_of(status)), reason: string_of(&reason), duration_ms: d, finding_count: count };
    assert(r.reason@ =~= outcome_spec(*x, parse_stderr, found as nat, elapsed_ms as nat).1);
    r
}

/// `x` inserted into tool-sorted runs after every run whose tool is not
/// greater (a stable insertion).
pub open spec fn insert_run(s: Seq<AnalyzerRun>, x: AnalyzerRun) -> Seq<AnalyzerRun>
    decreases s.len(),
{
    if s.len() == 0 {
        seq![x]
    } else if lex_lt(x.tool@, s.last().tool@) {
        insert_run(s.drop_last(), x).push(s.last())
    } else {
        s.push(x)
    }
}

/// The runs sorted by tool name, runs of one tool in their given order.
pub open spec fn sort_runs(rs: Seq<AnalyzerRun>) -> Seq<AnalyzerRun>
    decreases rs.len(),
{
    if rs.len() == 0 {
        Seq::empty()
    } else {
        insert_run(sort_runs(rs.drop_last()), rs.last())
    }
}

proof fn lemma_insert_run_at(s: Seq<AnalyzerRun>, x: AnalyzerRun, p: int)
    requires
        0 <= p <= s.len(),
        forall|k: int| p <= k < s.len() ==> lex_lt(x.tool@, #[trigger] s[k].tool@),
        p > 0 ==> !lex_lt(x.tool@, s[p - 1].tool@),
    ensures
        insert_run(s, x) == s.take(p) + seq![x] + s.skip(p),
    decreases s.len(),
{
    if s.len() == 0 {
        assert(s.take(p) + seq![x] + s.skip(p) =~= seq![x]);
    } else if p == s.len() {
        assert(s.take(p) + seq![x] + s.skip(p) =~= s.push(x));
    } else {
        assert(lex_lt(x.tool@, s.last().tool@));
        let t = s.drop_last();
        lemma_insert_run_at(t, x, p);
        assert(t.take(p) + seq![x] + t.skip(p) + seq![s.last()] =~= s.take(p) + seq![x] + s.skip(p));
    }
}

fn insert_run_exec(s: &mut Vec<AnalyzerRun>, x: AnalyzerRun)
    ensures
        final(s)@ == insert_run(old(s)@, x),
{
    let ghost s0 = s@;
    let xc = chars_of(x.tool.as_str());
    let mut p: usize = s.len();
    while p > 0 && lex_compare(&xc, &chars_of(s[p - 1].tool.as_str())) < 0
        invariant
            p <= s0.len(),
            s@ == s0,
            xc@ == x.tool@,
            forall|k: int| p <= k < s0.len() ==> lex_lt(x.tool@, #[trigger] s0[k].tool@),
        decreases p,
    {
        p -= 1;
    }
    proof {
        lemma_insert_run_at(s0, x, p as int);
    }
    s.insert(p, x);
    assert(s@ =~= s0.take(p as int) + seq![x] + s0.skip(p as int));
}

fn sort_runs_exec(rs: Vec<AnalyzerRun>) -> (r: Vec<AnalyzerRun>)
    ensures
        r@ == sort_runs(rs@),
{
    let mut out: Vec<AnalyzerRun> = Vec::new();
    let mut src = rs;
    let ghost all = src@;
    let n = src.len();
    let mut i: usize = 0;
    assert(all.skip(0) =~= all);
    while src.len() > 0
        invariant
            n == all.len(),
            i + src@.len() == n,
            src@ == all.skip(i as int),
            out@ == sort_runs(all.take(i as int)),
        decreases src.len(),
    {
        let x = src.remove(0);
        assert(all.take(i + 1).drop_last() =~= all.take(i as int));
        assert(x == all[i as int]);
        insert_run_exec(&mut out, x);
        i += 1;
        assert(src@ =~= all.skip(i as int));
    }
    assert(all.take(n as int) =~= all);
    out
}

/// The report language of the changed files.
pub open spec fn language_spec(has_go: bool, has_rust: bool) -> Seq<char> {
    if has_go && has_rust {
        "mixed"@
    } else if has_go {
        "go"@
    } else {
        "rust"@
    }
}

/// One analysis report: the language, every tool's run, the findings.
#[derive(Clone, Debug)]
pub struct AnalysisReport {
    pub language: String,
    pub runs: Vec<AnalyzerRun>,
    pub findings: Vec<AnalysisFinding>,
}

/// The findings a report keeps: one per location and rule, changed-file ones
/// first, at most [`MAX_FINDINGS`].
pub open spec fn kept_findings(fs: Seq<FindingV>) -> Seq<FindingV> {
    let d = dedupe_spec(fs);
    let o = in_change_v(d) + pre_existing_v(d);
    if o.len() <= MAX_FINDINGS { o } else { o.take(MAX_FINDINGS as int) }
}

pub open spec fn in_change_v(fs: Seq<FindingV>) -> Seq<FindingV>
    decreases fs.len(),
{
    if fs.len() == 0 {
        Seq::empty()
    } else if fs.last().in_change {
        in_change_v(fs.drop_last()).push(fs.last())
    } else {
        in_change_v(fs.drop_last())
    }
}

pub open spec fn pre_existing_v(fs: Seq<FindingV>) -> Seq<FindingV>
    decreases fs.len(),
{
    if fs.len() == 0 {
        Seq::empty()
    } else if fs.last().in_change {
        pre_existing_v(fs.drop_last())
    } else {
        pre_existing_v(fs.drop_last()).push(fs.last())
    }
}

proof fn lemma_parts_view(fs: Seq<AnalysisFinding>)
    ensures
        findings_view(in_change_part(fs)) == in_change_v(findings_view(fs)),
        findings_view(pre_existing_part(fs)) == pre_existing_v(findings_view(fs)),
    decreases fs.len(),
{
    if fs.len() > 0 {
        lemma_parts_view(fs.drop_last());
        assert(findings_view(fs).drop_last() =~= findings_view(fs.drop_last()));
        assert(findings_view(in_change_part(fs.drop_last()).push(fs.last())) =~= findings_view(
            in_change_part(fs.drop_last()),
        ).push(crate::findings::finding_view(fs.last())));
        assert(findings_view(pre_existing_part(fs.drop_last()).push(fs.last())) =~= findings_view(
            pre_existing_part(fs.drop_last()),
        ).push(crate::findings::finding_view(fs.last())));
    } else {
        assert(findings_view(in_change_part(fs)) =~= in_change_v(findings_view(fs)));
        assert(findings_view(pre_existing_part(fs)) =~= pre_existing_v(findings_view(fs)));
    }
}

/// Assemble the collector's report from the runs (planned-but-skipped and
/// finished, in any order) and all tools' findings: runs sorted by tool,
/// findings deduplicated across tools, changed-file ones first, capped.
pub fn assemble_report(has_go: bool, has_rust: bool, runs: Vec<AnalyzerRun>, findings: Vec<AnalysisFinding>) -> (r:
    AnalysisReport)
    ensures
        r.language@ == language_spec(has_go, has_rust),
        r.runs@ == sort_runs(runs@),
        findings_view(r.findings@) == kept_findings(findings_view(findings@)),
{
    let language = if has_go && has_rust {
        string_of(&chars_of("mixed"))
    } else if has_go {
        string_of(&chars_of("go"))
    } else {
        string_of(&chars_of("rust"))
    };
    let sorted = sort_runs_exec(runs);
    let d = dedupe_findings(findings);
    let ghost dv = d@;
    let mut a: Vec<AnalysisFinding> = Vec::new();
    let mut b: Vec<AnalysisFinding> = Vec::new();
    let mut src = d;
    let n = src.len();
    let mut i: usize = 0;
    assert(dv.skip(0) =~= dv);
    while src.len() > 0
        invariant
            n == dv.len(),
            i + src@.len() == n,
            src@ == dv.skip(i as int),
            a@ == in_change_part(dv.take(i as int)),
            b@ == pre_existing_part(dv.take(i as int)),
        decreases src.len(),
    {
        let f = src.remove(0);
        assert(dv.take(i + 1).drop_last() =~= dv.take(i as int));
        assert(f == dv[i as int]);
        if f.in_change {
            a.push(f);
        } else {
            b.push(f);
        }
        i += 1;
        assert(src@ =~= dv.skip(i as int));
    }
    assert(dv.take(n as int) =~= dv);
    let ghost a0 = a@;
    a.append(&mut b);
    proof {
        lemma_parts_view(dv);
        assert(findings_view(a@) =~= findings_view(a0) + findings_view(pre_existing_part(dv)));
    }
    if a.len() > MAX_FINDINGS {
        a.truncate(MAX_FINDINGS);
        assert(findings_view(a@) =~= kept_findings(findings_view(findings@)));
    }
    AnalysisReport { language, runs: sorted, findings: a }
}

/// A tool command ready to run: the tool's label, the shell command line,
/// whether its report comes on stderr, and whether it may use the network.
pub struct ToolTask {
    pub tool: String,
    pub cmd: String,
    pub parse_stderr: bool,
    pub network: bool,
}

/// Plan one linter run from what the tool provider resolved: a program and a
/// ready-to-splice argument prefix become the command `env prefix program args`;
/// a tool the provider cannot supply is recorded as a fail-soft `skipped` run.
pub fn plan_tool(
    tool: &str,
    resolved: Option<(String, String)>,
    env: &str,
    args: &str,
    parse_stderr: bool,
    network: bool,
) -> (r: Result<ToolTask, AnalyzerRun>)
    ensures
        match resolved {
            Some(pp) => r matches Ok(t) && t.tool@ == tool@ && t.cmd@ == env@ + pp.1@ + pp.0@ + " "@ + args@
                && t.parse_stderr == parse_stderr && t.network == network,
            None => r matches Err(run) && run.tool@ == tool@ && run.status@ == "skipped"@ && run.reason@
                == "tool unavailable via the configured provider"@ && run.duration_ms == 0 && run.finding_count == 0,
        },
{
    match resolved {
        Some((program, prefix)) => {
            let mut cmd: Vec<char> = chars_of(env);
            push_str(&mut cmd, prefix.as_str());
            push_str(&mut cmd, program.as_str());
            push_str(&mut cmd, " ");
            push_str(&mut cmd, args);
            Ok(ToolTask { tool: string_of(&chars_of(tool)), cmd: string_of(&cmd), parse_stderr, network })
        },
        None => Err(
            AnalyzerRun {
                tool: string_of(&chars_of(tool)),
                status: string_of(&chars_of("skipped")),
                reason: string_of(&chars_of("tool unavailable via the configured provider")),
                duration_ms: 0,
                finding_count: 0,
            },
        ),
    }
}

/// The Go linters' package list as it reaches `sh -c`: the scope args of
/// [`lint_scope`], each single-quoted, space-joined.
pub fn lint_scope_args(changed: &[String]) -> (r: String)
    ensures
        exists|dirs: Seq<Seq<char>>|
            #[trigger] strictly_sorted(dirs) && dirs.to_set() == lint_scope_set(strings_view(changed@)) && r@
                == quoted_scope_spec(dirs),
{
    let dirs = lint_scope(changed);
    let r = quoted_scope(&dirs);
    assert(strictly_sorted(strings_view(dirs@)));
    r
}

/// `GOMAXPROCS` for each Go tool: the CPUs shared among the `parallelism`
/// tools that run at once (at least one each, and a parallelism of 0 counts
/// as 1).
pub fn gomaxprocs(cpus: usize, parallelism: usize) -> (r: usize)
    ensures
        ({
            let p = if parallelism == 0 { 1 } else { parallelism as int };
            r == if (cpus as int) / p >= 1 { (cpus as int) / p } else { 1 }
        }),
{
    let p = if parallelism == 0 { 1 } else { parallelism };
    let q = cpus / p;
    if q >= 1 { q } else { 1 }
}

/// The environment prefix that caps a Go tool's threads.
pub fn go_env(gomaxprocs: usize) -> (r: String)
    ensures
        r@ == "GOMAXPROCS="@ + dec_text(gomaxprocs as nat) + " "@,
{
    let mut v = chars_of("GOMAXPROCS=");
    push_chars(&mut v, &dec_text_exec(gomaxprocs as u64));
    push_str(&mut v, " ");
    string_of(&v)
}

/// The changed `.go` files (extension compared case-insensitively), in order.
pub open spec fn go_files_of(cs: Seq<Seq<char>>) -> Seq<Seq<char>>
    decreases cs.len(),
{
    if cs.len() == 0 {
        Seq::empty()
    } else if lower_seq(ext_or_empty(cs.last())) == "go"@ {
        go_files_of(cs.drop_last()).push(cs.last())
    } else {
        go_files_of(cs.drop_last())
    }
}

/// The Go tools' argument strings.
pub struct GoToolArgs {
    pub golangci: String,
    pub gosec: String,
    pub govet: String,
    /// `None` when no `.go` file changed.
    pub gofmt: Option<String>,
}

/// The arguments each Go tool runs with over the changed files: golangci-lint
/// (with `config_arg`, a ready `--config <path> ` fragment or empty, JSON on
/// stdout, and its own timeout), gosec and go vet over the package dirs, and
/// `gofmt -l` over exactly the changed `.go` files. Every dir and file is
/// single-quoted.
pub fn go_tool_args(changed: &[String], config_arg: &str, timeout_secs: u64) -> (r: GoToolArgs)
    ensures
        exists|dirs: Seq<Seq<char>>|
            #[trigger] strictly_sorted(dirs) && dirs.to_set() == lint_scope_set(strings_view(changed@)) && r.golangci@
                == "run "@ + config_arg@ + "--output.json.path stdout --timeout "@ + dec_text(timeout_secs as nat)
                + "s "@ + quoted_scope_spec(dirs) && r.gosec@ == "-fmt=json -quiet "@ + quoted_scope_spec(dirs)
                && r.govet@ == "vet "@ + quoted_scope_spec(dirs),
        match r.gofmt {
            None => go_files_of(strings_view(changed@)).len() == 0,
            Some(g) => go_files_of(strings_view(changed@)).len() > 0 && g@ == "-l "@ + quoted_scope_spec(
                go_files_of(strings_view(changed@)),
            ),
        },
{
    let dirs = lint_scope(changed);
    let d = quoted_scope(&dirs);
    let mut g = chars_of("run ");
    push_str(&mut g, config_arg);
    push_str(&mut g, "--output.json.path stdout --timeout ");
    push_chars(&mut g, &dec_text_exec(timeout_secs));
    push_str(&mut g, "s ");
    push_str(&mut g, d.as_str());
    let mut s = chars_of("-fmt=json -quiet ");
    push_str(&mut s, d.as_str());
    let mut v = chars_of("vet ");
    push_str(&mut v, d.as_str());
    let ghost cs = strings_view(changed@);
    let mut files: Vec<String> = Vec::new();
    let mut i: usize = 0;
    while i < changed.len()
        invariant
            i <= changed@.len(),
            cs == strings_view(changed@),
            strings_view(files@) == go_files_of(cs.take(i as int)),
        decreases changed.len() - i,
    {
        assert(cs.take(i + 1).drop_last() =~= cs.take(i as int));
        assert(cs[i as int] == changed@[i as int]@);
        let e = ext(changed[i].as_str());
        if eq_str(&e, "go") {
            let ghost before = strings_view(files@);
            files.push(string_of(&chars_of(changed[i].as_str())));
            assert(strings_view(files@) =~= before.push(cs[i as int]));
        }
        i += 1;
    }
    assert(cs.take(changed@.len() as int) =~= cs);
    let gofmt = if files.len() == 0 {
        None
    } else {
        let mut f = chars_of("-l ");
        let q = quoted_scope(&files);
        push_str(&mut f, q.as_str());
        Some(string_of(&f))
    };
    let r = GoToolArgs { golangci: string_of(&g), gosec: string_of(&s), govet: string_of(&v), gofmt };
    assert(strictly_sorted(strings_view(dirs@)));
    r
}

/// clippy's arguments over the crates owning the changed `.rs` files.
pub fn clippy_args(crates: &[String]) -> (r: String)
    ensures
        r@ == "clippy --message-format=json --quiet "@ + pkg_flags(strings_view(crates@)),
{
    let ghost cs = strings_view(crates@);
    let mut v = chars_of("clippy --message-format=json --quiet ");
    let ghost head = v@;
    let mut i: usize = 0;
    while i < crates.len()
        invariant
            i <= crates@.len(),
            cs == strings_view(crates@),
            v@ == head + pkg_flags(cs.take(i as int)),
        decreases crates.len() - i,
    {
        assert(cs.take(i + 1).drop_last() =~= cs.take(i as int));
        assert(cs[i as int] == crates@[i as int]@);
        push_str(&mut v, "-p ");
        push_str(&mut v, crates[i].as_str());
        push_str(&mut v, " ");
        i += 1;
    }
    assert(cs.take(crates@.len() as int) =~= cs);
    string_of(&v)
}

/// `-p <crate> ` for each crate, in order.
pub open spec fn pkg_flags(cs: Seq<Seq<char>>) -> Seq<char>
    decreases cs.len(),
{
    if cs.len() == 0 {
        Seq::empty()
    } else {
        pkg_flags(cs.drop_last()) + "-p "@ + cs.last() + " "@
    }
}

/// cargo-audit's arguments: offline JSON, against `db_arg` (a ready
/// `--db <path> -n ` fragment or empty).
pub fn audit_args(db_arg: &str) -> (r: String)
    ensures
        r@ == "audit "@ + db_arg@ + "--json"@,
{
    let mut v = chars_of("audit ");
    push_str(&mut v, db_arg);
    push_str(&mut v, "--json");
    string_of(&v)
}

/// cargo-deny's arguments: JSON diagnostics, offline, bans and sources only.
pub fn deny_args() -> (r: String)
    ensures
        r@ == "--format json --offline check bans sources"@,
{
    string_of(&chars_of("--format json --offline check bans sources"))
}

} // verus!
