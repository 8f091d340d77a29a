//! Rendering a grounded fact bundle as a human- and model-readable block:
//! hard facts first, clearly labelled tool-derived. The repo line, the
//! commits and the changed-file list are always included; the diff hunks
//! fill what remains of a byte budget, and those that do not fit are left
//! out with an honest count.
use vstd::prelude::*;
use crate::analysis::AnalyzerRun;
use crate::callgraph::{CallEdge, CallGraph, CallGraphNode};
use crate::findings::{push_chars, push_str, AnalysisFinding};
use crate::paths::{eq_str, utf8_len};
use crate::signatures::SignatureChange;
use crate::text::{chars_of, dec_text, dec_text_exec, lines_of, lines_spec, string_of, views_of};

verus! {

/// The most changed files listed one by one; the rest are counted.
pub const MAX_LISTED_FILES: usize = 200;
/// The default byte budget of a rendered bundle.
pub const DEFAULT_CONTEXT_BUDGET: usize = 24000;

/// How a file changed.
#[derive(Debug, Clone, Copy, PartialEq, Eq, Structural)]
pub enum ChangeKind {
    Added,
    Modified,
    Deleted,
    Renamed,
    Copied,
    TypeChange,
}

impl ChangeKind {
    pub open spec fn label_spec(self) -> Seq<char> {
        match self {
            ChangeKind::Added => "added"@,
            ChangeKind::Modified => "modified"@,
            ChangeKind::Deleted => "deleted"@,
            ChangeKind::Renamed => "renamed"@,
            ChangeKind::Copied => "copied"@,
            ChangeKind::TypeChange => "typechange"@,
        }
    }

    /// The kind's display label.
    pub fn serialize_label(&self) -> (s: &'static str)
        ensures
            s@ == self.label_spec(),
    {
        match self {
            ChangeKind::Added => "added",
            ChangeKind::Modified => "modified",
            ChangeKind::Deleted => "deleted",
            ChangeKind::Renamed => "renamed",
            ChangeKind::Copied => "copied",
            ChangeKind::TypeChange => "typechange",
        }
    }
}

/// A changed file of the bundle. `noisy` marks a generated file or lockfile
/// (its diff is left out).
#[derive(Clone, Debug)]
pub struct ChangedFile {
    pub path: String,
    pub change: ChangeKind,
    pub additions: u64,
    pub deletions: u64,
    pub is_binary: bool,
    pub noisy: bool,
    pub patch: String,
}

/// A commit of the change.
#[derive(Clone, Debug)]
pub struct ReviewCommit {
    pub short: String,
    pub summary: String,
    pub age_days: u64,
    pub author: String,
    pub body: String,
}

/// The UTF-8 size of `s` in bytes.
pub open spec fn byte_len(s: Seq<char>) -> nat
    decreases s.len(),
{
    if s.len() == 0 {
        0
    } else {
        byte_len(s.drop_last()) + utf8_len(s.last())
    }
}

pub open spec fn dec(n: u64) -> Seq<char> {
    dec_text(n as nat)
}

pub open spec fn repo_line(project: Seq<char>, relationship: Seq<char>, branch: Seq<char>) -> Seq<char> {
    "Repo: "@ + project + " · "@ + relationship + " · default branch `"@ + (if branch.len() == 0 {
        "unknown"@
    } else {
        branch
    }) + "`\n"@
}

pub open spec fn change_line(base: Seq<char>, head: Seq<char>, n: nat) -> Seq<char> {
    "Change: `"@ + base + "`..`"@ + head + "` — "@ + dec_text(n) + " changed file(s)\n"@
}

pub open spec fn commit_line(c: ReviewCommit) -> Seq<char> {
    "  "@ + c.short@ + " "@ + c.summary@ + " ("@ + dec(c.age_days) + "d, "@ + c.author@ + ")\n"@
}

pub open spec fn commit_lines(cs: Seq<ReviewCommit>) -> Seq<char>
    decreases cs.len(),
{
    if cs.len() == 0 {
        Seq::empty()
    } else {
        commit_lines(cs.drop_last()) + commit_line(cs.last())
    }
}

pub open spec fn body_lines(ls: Seq<Seq<char>>) -> Seq<char>
    decreases ls.len(),
{
    if ls.len() == 0 {
        Seq::empty()
    } else {
        body_lines(ls.drop_last()) + "  "@ + ls.last() + "\n"@
    }
}

/// The commits (intent): one line each, then the head commit's body.
pub open spec fn commits_section(cs: Seq<ReviewCommit>) -> Seq<char> {
    if cs.len() == 0 {
        Seq::empty()
    } else {
        "\nCommits ("@ + dec_text(cs.len()) + "):\n"@ + commit_lines(cs) + if cs[0].body@.len() > 0 {
            "  ---\n"@ + body_lines(lines_spec(cs[0].body@))
        } else {
            Seq::empty()
        }
    }
}

pub open spec fn spaces(n: nat) -> Seq<char> {
    Seq::new(n, |i: int| ' ')
}

/// `s` left-aligned in a field of 9 chars.
pub open spec fn pad9(s: Seq<char>) -> Seq<char> {
    if s.len() < 9 {
        s + spaces((9 - s.len()) as nat)
    } else {
        s
    }
}

pub open spec fn file_note(f: ChangedFile) -> Seq<char> {
    if f.is_binary {
        " [binary]"@
    } else if f.noisy {
        " [generated/lockfile — diff omitted]"@
    } else {
        Seq::empty()
    }
}

pub open spec fn file_line(f: ChangedFile) -> Seq<char> {
    "  "@ + pad9(f.change.label_spec()) + " "@ + f.path@ + " (+"@ + dec(f.additions) + "/-"@ + dec(f.deletions) + ")"@
        + file_note(f) + "\n"@
}

pub open spec fn file_lines(fs: Seq<ChangedFile>) -> Seq<char>
    decreases fs.len(),
{
    if fs.len() == 0 {
        Seq::empty()
    } else {
        file_lines(fs.drop_last()) + file_line(fs.last())
    }
}

/// The changed-file list, at most [`MAX_LISTED_FILES`] lines and a count of
/// the rest.
pub open spec fn files_section(fs: Seq<ChangedFile>) -> Seq<char> {
    "\nFiles:\n"@ + if fs.len() <= MAX_LISTED_FILES {
        file_lines(fs)
    } else {
        file_lines(fs.take(MAX_LISTED_FILES as int)) + "  … and "@ + dec_text((fs.len() - MAX_LISTED_FILES) as nat)
            + " more (omitted from the listing)\n"@
    }
}

fn push_dec(out: &mut Vec<char>, n: u64)
    ensures
        final(out)@ == old(out)@ + dec(n),
{
    let d = dec_text_exec(n);
    push_chars(out, &d);
}

fn render_commits(out: &mut Vec<char>, cs: &[ReviewCommit])
    ensures
        final(out)@ == old(out)@ + commits_section(cs@),
{
    if cs.len() == 0 {
        assert(old(out)@ + commits_section(cs@) =~= old(out)@);
        return;
    }
    let ghost o0 = out@;
    push_str(out, "\nCommits (");
    push_dec(out, cs.len() as u64);
    push_str(out, "):\n");
    let ghost o1 = out@;
    let mut i: usize = 0;
    while i < cs.len()
        invariant
            i <= cs@.len(),
            out@ == o1 + commit_lines(cs@.take(i as int)),
        decreases cs.len() - i,
    {
        assert(cs@.take(i + 1).drop_last() =~= cs@.take(i as int));
        let c = &cs[i];
        let ghost before = out@;
        push_str(out, "  ");
        push_str(out, c.short.as_str());
        push_str(out, " ");
        push_str(out, c.summary.as_str());
        push_str(out, " (");
        push_dec(out, c.age_days);
        push_str(out, "d, ");
        push_str(out, c.author.as_str());
        push_str(out, ")\n");
        assert(out@ =~= before + commit_line(cs@[i as int]));
        i += 1;
    }
    assert(cs@.take(cs@.len() as int) =~= cs@);
    let ghost o2 = out@;
    let body = chars_of(cs[0].body.as_str());
    if body.len() > 0 {
        push_str(out, "  ---\n");
        let ls = lines_of(&body);
        let ghost lv = views_of(ls@);
        let ghost o3 = out@;
        let mut j: usize = 0;
        while j < ls.len()
            invariant
                j <= ls@.len(),
                lv == views_of(ls@),
                out@ == o3 + body_lines(lv.take(j as int)),
            decreases ls.len() - j,
        {
            assert(lv.take(j + 1).drop_last() =~= lv.take(j as int));
            assert(lv[j as int] == ls@[j as int]@);
            push_str(out, "  ");
            push_chars(out, &ls[j]);
            push_str(out, "\n");
            j += 1;
        }
        assert(lv.take(ls@.len() as int) =~= lv);
        assert(out@ =~= o0 + commits_section(cs@));
    } else {
        assert(out@ =~= o0 + commits_section(cs@));
    }
}

fn push_padded9(out: &mut Vec<char>, s: &str)
    ensures
        final(out)@ == old(out)@ + pad9(s@),
{
    let lc = chars_of(s);
    push_chars(out, &lc);
    let ghost padded = out@;
    if lc.len() < 9 {
        let mut k: usize = lc.len();
        assert(spaces(0) =~= Seq::<char>::empty());
        while k < 9
            invariant
                lc@.len() <= k <= 9,
                out@ == padded + spaces((k - lc@.len()) as nat),
            decreases 9 - k,
        {
            out.push(' ');
            k += 1;
            assert(out@ =~= padded + spaces((k - lc@.len()) as nat));
        }
    }
    assert(out@ =~= old(out)@ + pad9(s@));
}

fn render_file_line(out: &mut Vec<char>, f: &ChangedFile)
    ensures
        final(out)@ == old(out)@ + file_line(*f),
{
    push_str(out, "  ");
    push_padded9(out, f.change.serialize_label());
    push_str(out, " ");
    push_str(out, f.path.as_str());
    push_str(out, " (+");
    push_dec(out, f.additions);
    push_str(out, "/-");
    push_dec(out, f.deletions);
    push_str(out, ")");
    if f.is_binary {
        push_str(out, " [binary]");
    } else if f.noisy {
        push_str(out, " [generated/lockfile — diff omitted]");
    }
    push_str(out, "\n");
    assert(out@ =~= old(out)@ + file_line(*f));
}

fn render_files(out: &mut Vec<char>, fs: &[ChangedFile])
    ensures
        final(out)@ == old(out)@ + files_section(fs@),
{
    let ghost o0 = out@;
    push_str(out, "\nFiles:\n");
    let ghost o1 = out@;
    let n = if fs.len() <= MAX_LISTED_FILES { fs.len() } else { MAX_LISTED_FILES };
    let mut i: usize = 0;
    while i < n
        invariant
            i <= n,
            n <= fs@.len(),
            out@ == o1 + file_lines(fs@.take(i as int)),
        decreases n - i,
    {
        assert(fs@.take(i + 1).drop_last() =~= fs@.take(i as int));
        render_file_line(out, &fs[i]);
        i += 1;
    }
    if fs.len() > MAX_LISTED_FILES {
        push_str(out, "  … and ");
        push_dec(out, (fs.len() - MAX_LISTED_FILES) as u64);
        push_str(out, " more (omitted from the listing)\n");
        assert(out@ =~= o0 + files_section(fs@));
    } else {
        assert(fs@.take(fs@.len() as int) =~= fs@);
        assert(out@ =~= o0 + files_section(fs@));
    }
}

pub open spec fn sig_change_line(c: SignatureChange) -> Seq<char> {
    if c.kind@ == "modified"@ {
        "    ~ "@ + c.name@ + "  "@ + c.before@ + "  →  "@ + c.after@ + "\n"@
    } else if c.kind@ == "added"@ {
        "    + "@ + c.name@ + "  "@ + c.after@ + "\n"@
    } else {
        "    - "@ + c.name@ + "  "@ + c.before@ + "\n"@
    }
}

/// The change lines, each file's name written once before its run of changes.
pub open spec fn sig_lines(cs: Seq<SignatureChange>, last: Seq<char>) -> Seq<char>
    decreases cs.len(),
{
    if cs.len() == 0 {
        Seq::empty()
    } else {
        let c = cs[0];
        (if c.file@ != last {
            "  "@ + c.file@ + "\n"@
        } else {
            Seq::empty()
        }) + sig_change_line(c) + sig_lines(cs.drop_first(), c.file@)
    }
}

/// The changed-signature section: `~` modified (before → after), `+` added,
/// `-` removed; nothing when there are no changes.
pub open spec fn sig_section(cs: Seq<SignatureChange>, truncated: bool) -> Seq<char> {
    if cs.len() == 0 {
        Seq::empty()
    } else {
        "\nAPI signature changes ("@ + dec_text(cs.len()) + "):\n"@ + sig_lines(cs, Seq::empty()) + if truncated {
            "    … more signature changes omitted (cap reached)\n"@
        } else {
            Seq::empty()
        }
    }
}

fn render_sig_change(out: &mut Vec<char>, c: &SignatureChange)
    ensures
        final(out)@ == old(out)@ + sig_change_line(*c),
{
    let kind = chars_of(c.kind.as_str());
    if eq_str(&kind, "modified") {
        push_str(out, "    ~ ");
        push_str(out, c.name.as_str());
        push_str(out, "  ");
        push_str(out, c.before.as_str());
        push_str(out, "  →  ");
        push_str(out, c.after.as_str());
    } else if eq_str(&kind, "added") {
        push_str(out, "    + ");
        push_str(out, c.name.as_str());
        push_str(out, "  ");
        push_str(out, c.after.as_str());
    } else {
        push_str(out, "    - ");
        push_str(out, c.name.as_str());
        push_str(out, "  ");
        push_str(out, c.before.as_str());
    }
    push_str(out, "\n");
    assert(out@ =~= old(out)@ + sig_change_line(*c));
}

fn render_signatures(out: &mut Vec<char>, cs: &[SignatureChange], truncated: bool)
    ensures
        final(out)@ == old(out)@ + sig_section(cs@, truncated),
{
    if cs.len() == 0 {
        assert(old(out)@ + sig_section(cs@, truncated) =~= old(out)@);
        return;
    }
    let ghost o0 = out@;
    push_str(out, "\nAPI signature changes (");
    push_dec(out, cs.len() as u64);
    push_str(out, "):\n");
    let ghost o1 = out@;
    let mut last: Vec<char> = Vec::new();
    let mut i: usize = 0;
    assert(cs@.skip(0) =~= cs@);
    while i < cs.len()
        invariant
            i <= cs@.len(),
            o1 + sig_lines(cs@, Seq::empty()) == out@ + sig_lines(cs@.skip(i as int), last@),
        decreases cs.len() - i,
    {
        let ghost before = out@;
        let ghost last0 = last@;
        let ghost rest = cs@.skip(i as int);
        assert(rest.drop_first() =~= cs@.skip(i + 1));
        assert(rest[0] == cs@[i as int]);
        let f = chars_of(cs[i].file.as_str());
        let same = f.len() == last.len() && crate::text::has_prefix_exec(&f, &last);
        assert(same ==> f@ =~= last@);
        if !same {
            push_str(out, "  ");
            push_chars(out, &f);
            push_str(out, "\n");
        }
        render_sig_change(out, &cs[i]);
        assert(out@ + sig_lines(cs@.skip(i + 1), f@) =~= before + sig_lines(rest, last0));
        last = f;
        i += 1;
    }
    if truncated {
        push_str(out, "    … more signature changes omitted (cap reached)\n");
    }
    assert(cs@.skip(cs@.len() as int) =~= Seq::<SignatureChange>::empty());
    assert(out@ =~= o0 + sig_section(cs@, truncated));
}

/// The most changed functions rendered with their blast radius.
pub const MAX_BLAST_FNS: usize = 40;
/// The most callers listed per changed function.
pub const MAX_CALLERS: usize = 8;

/// A function's qualified name: `package.name`, or the bare name.
pub open spec fn qual(n: CallGraphNode) -> Seq<char> {
    if n.package@.len() == 0 {
        n.name@
    } else {
        n.package@ + "."@ + n.name@
    }
}

/// The node with `id` (the last one listed, when ids repeat).
pub open spec fn node_by_id(ns: Seq<CallGraphNode>, id: u32) -> Option<CallGraphNode>
    decreases ns.len(),
{
    if ns.len() == 0 {
        None
    } else if ns.last().id == id {
        Some(ns.last())
    } else {
        node_by_id(ns.drop_last(), id)
    }
}

/// The known in-repo callers of `id`, in edge order (self-calls excluded).
pub open spec fn callers(es: Seq<CallEdge>, ns: Seq<CallGraphNode>, id: u32) -> Seq<Seq<char>>
    decreases es.len(),
{
    if es.len() == 0 {
        Seq::empty()
    } else {
        let rest = callers(es.drop_last(), ns, id);
        let e = es.last();
        if e.callee_id == id && e.caller_id != id {
            match node_by_id(ns, e.caller_id) {
                Some(n) => rest.push(qual(n)),
                None => rest,
            }
        } else {
            rest
        }
    }
}

/// How many calls `id` makes.
pub open spec fn calls(es: Seq<CallEdge>, id: u32) -> nat
    decreases es.len(),
{
    if es.len() == 0 {
        0
    } else {
        calls(es.drop_last(), id) + if es.last().caller_id == id { 1nat } else { 0nat }
    }
}

/// One changed function's line: who calls it (at most [`MAX_CALLERS`]
/// named) and how many calls it makes; nothing for an unknown id.
pub open spec fn blast_line(g: CallGraph, id: u32) -> Seq<char> {
    match node_by_id(g.nodes@, id) {
        None => Seq::empty(),
        Some(n) => {
            let cs = callers(g.edges@, g.nodes@, id);
            let k = calls(g.edges@, id);
            if cs.len() == 0 {
                "  "@ + qual(n) + "  ← no in-repo callers  · calls "@ + dec_text(k) + "\n"@
            } else {
                let shown = if cs.len() <= MAX_CALLERS { cs } else { cs.take(MAX_CALLERS as int) };
                let more = (cs.len() - shown.len()) as nat;
                "  "@ + qual(n) + "  ← called by "@ + crate::risk::join_comma(shown) + (if more > 0 {
                    " (+"@ + dec_text(more) + " more)"@
                } else {
                    Seq::empty()
                }) + "  · calls "@ + dec_text(k) + "\n"@
            }
        },
    }
}

pub open spec fn blast_lines(g: CallGraph, ids: Seq<u32>) -> Seq<char>
    decreases ids.len(),
{
    if ids.len() == 0 {
        Seq::empty()
    } else {
        blast_lines(g, ids.drop_last()) + blast_line(g, ids.last())
    }
}

pub open spec fn callgraph_header(g: CallGraph) -> Seq<char> {
    "\nCall graph — "@ + dec_text(g.nodes@.len()) + " fn(s), "@ + dec_text(g.edges@.len()) + " edge(s) across "@
        + dec_text(g.packages@.len()) + " package(s); blast radius of "@ + dec_text(g.changed_fns@.len())
        + " changed fn(s):\n"@
}

pub open spec fn callgraph_body(g: CallGraph) -> Seq<char> {
    let ids = g.changed_fns@;
    if ids.len() <= MAX_BLAST_FNS {
        blast_lines(g, ids)
    } else {
        blast_lines(g, ids.take(MAX_BLAST_FNS as int)) + "  … and "@ + dec_text((ids.len() - MAX_BLAST_FNS) as nat)
            + " more changed fn(s) (omitted)\n"@
    }
}

/// The call graph as a blast radius; nothing for an empty graph.
pub open spec fn callgraph_section(g: CallGraph) -> Seq<char> {
    if g.nodes@.len() == 0 {
        Seq::empty()
    } else {
        callgraph_header(g) + callgraph_body(g) + if g.truncated {
            "  (graph truncated — size cap reached)\n"@
        } else {
            Seq::empty()
        }
    }
}

fn find_node(ns: &[CallGraphNode], id: u32) -> (r: Option<usize>)
    ensures
        match r {
            Some(i) => i < ns@.len() && node_by_id(ns@, id) == Some(ns@[i as int]),
            None => node_by_id(ns@, id) is None,
        },
{
    let mut i: usize = ns.len();
    assert(ns@.take(ns@.len() as int) =~= ns@);
    while i > 0
        invariant
            i <= ns@.len(),
            node_by_id(ns@, id) == node_by_id(ns@.take(i as int), id),
        decreases i,
    {
        assert(ns@.take(i as int).drop_last() =~= ns@.take(i - 1));
        if ns[i - 1].id == id {
            return Some(i - 1);
        }
        i -= 1;
    }
    None
}

fn push_qual(out: &mut Vec<char>, n: &CallGraphNode)
    ensures
        final(out)@ == old(out)@ + qual(*n),
{
    let p = chars_of(n.package.as_str());
    if p.len() == 0 {
        push_str(out, n.name.as_str());
    } else {
        push_chars(out, &p);
        push_str(out, ".");
        push_str(out, n.name.as_str());
    }
    assert(out@ =~= old(out)@ + qual(*n));
}

fn render_blast_line(out: &mut Vec<char>, g: &CallGraph, id: u32)
    ensures
        final(out)@ == old(out)@ + blast_line(*g, id),
{
    let ni = match find_node(g.nodes.as_slice(), id) {
        Some(i) => i,
        None => {
            assert(old(out)@ + blast_line(*g, id) =~= old(out)@);
            return;
        },
    };
    let ghost es = g.edges@;
    let ghost ns = g.nodes@;
    // callers, as a joined text, how many there are, and the call count
    let mut joined: Vec<char> = Vec::new();
    let mut named: usize = 0;
    let mut total: usize = 0;
    let mut k: u64 = 0;
    let mut j: usize = 0;
    while j < g.edges.len()
        invariant
            j <= es.len(),
            es == g.edges@,
            ns == g.nodes@,
            total == callers(es.take(j as int), ns, id).len(),
            named == (if total <= MAX_CALLERS { total } else { MAX_CALLERS }),
            joined@ == crate::risk::join_comma(
                if total <= MAX_CALLERS {
                    callers(es.take(j as int), ns, id)
                } else {
                    callers(es.take(j as int), ns, id).take(MAX_CALLERS as int)
                },
            ),
            k == calls(es.take(j as int), id),
            total <= j,
            k <= j,
        decreases g.edges.len() - j,
    {
        assert(es.take(j + 1).drop_last() =~= es.take(j as int));
        let ghost c0 = callers(es.take(j as int), ns, id);
        let e = g.edges[j];
        if e.caller_id == id {
            k += 1;
        }
        if e.callee_id == id && e.caller_id != id {
            match find_node(g.nodes.as_slice(), e.caller_id) {
                Some(ci) => {
                    assert(callers(es.take(j + 1), ns, id) == c0.push(qual(ns[ci as int])));
                    assert(c0.push(qual(ns[ci as int])).drop_last() =~= c0);
                    if total < MAX_CALLERS {
                        if total > 0 {
                            push_str(&mut joined, ", ");
                        }
                        push_qual(&mut joined, &g.nodes[ci]);
                        named += 1;
                        if total == 0 {
                            assert(joined@ =~= crate::risk::join_comma(c0.push(qual(ns[ci as int]))));
                        }
                    } else {
                        assert(c0.push(qual(ns[ci as int])).take(MAX_CALLERS as int) =~= if total <= MAX_CALLERS {
                            c0
                        } else {
                            c0.take(MAX_CALLERS as int)
                        });
                    }
                    total += 1;
                },
                None => {},
            }
        }
        j += 1;
    }
    assert(es.take(es.len() as int) =~= es);
    push_str(out, "  ");
    push_qual(out, &g.nodes[ni]);
    if total == 0 {
        push_str(out, "  ← no in-repo callers  · calls ");
        push_dec(out, k);
        push_str(out, "\n");
    } else {
        push_str(out, "  ← called by ");
        push_chars(out, &joined);
        if total > named {
            push_str(out, " (+");
            push_dec(out, (total - named) as u64);
            push_str(out, " more)");
        }
        push_str(out, "  · calls ");
        push_dec(out, k);
        push_str(out, "\n");
    }
    assert(out@ =~= old(out)@ + blast_line(*g, id));
}

fn render_callgraph_header(out: &mut Vec<char>, g: &CallGraph)
    ensures
        final(out)@ == old(out)@ + callgraph_header(*g),
{
    push_str(out, "\nCall graph — ");
    push_dec(out, g.nodes.len() as u64);
    push_str(out, " fn(s), ");
    push_dec(out, g.edges.len() as u64);
    push_str(out, " edge(s) across ");
    push_dec(out, g.packages.len() as u64);
    push_str(out, " package(s); blast radius of ");
    push_dec(out, g.changed_fns.len() as u64);
    push_str(out, " changed fn(s):\n");
    assert(out@ =~= old(out)@ + callgraph_header(*g));
}

fn render_callgraph_body(out: &mut Vec<char>, g: &CallGraph)
    ensures
        final(out)@ == old(out)@ + callgraph_body(*g),
{
    let ghost o1 = out@;
    let ghost ids = g.changed_fns@;
    let n = if g.changed_fns.len() <= MAX_BLAST_FNS { g.changed_fns.len() } else { MAX_BLAST_FNS };
    let mut i: usize = 0;
    while i < n
        invariant
            i <= n,
            n <= ids.len(),
            ids == g.changed_fns@,
            out@ == o1 + blast_lines(*g, ids.take(i as int)),
        decreases n - i,
    {
        assert(ids.take(i + 1).drop_last() =~= ids.take(i as int));
        render_blast_line(out, g, g.changed_fns[i]);
        i += 1;
    }
    if g.changed_fns.len() > MAX_BLAST_FNS {
        push_str(out, "  … and ");
        push_dec(out, (g.changed_fns.len() - MAX_BLAST_FNS) as u64);
        push_str(out, " more changed fn(s) (omitted)\n");
    } else {
        assert(ids.take(ids.len() as int) =~= ids);
    }
    assert(out@ =~= o1 + callgraph_body(*g));
}

fn render_callgraph(out: &mut Vec<char>, g: &CallGraph)
    ensures
        final(out)@ == old(out)@ + callgraph_section(*g),
{
    if g.nodes.len() == 0 {
        assert(old(out)@ + callgraph_section(*g) =~= old(out)@);
        return;
    }
    let ghost o0 = out@;
    render_callgraph_header(out, g);
    let ghost o1 = out@;
    render_callgraph_body(out, g);
    let ghost o2 = out@;
    if g.truncated {
        push_str(out, "  (graph truncated — size cap reached)\n");
    }
    assert(out@ =~= o0 + callgraph_section(*g));
}

/// The most findings rendered one by one; the rest are counted.
pub const MAX_RENDERED_FINDINGS: usize = 80;

pub open spec fn run_line(r: AnalyzerRun) -> Seq<char> {
    "  "@ + r.tool@ + ": "@ + r.status@ + " ("@ + dec_text(r.finding_count as nat) + " finding(s), "@ + dec_text(r.duration_ms as nat)
        + " ms)"@ + (if r.reason@.len() == 0 {
        Seq::empty()
    } else {
        " — "@ + r.reason@
    }) + "\n"@
}

pub open spec fn run_lines(rs: Seq<AnalyzerRun>) -> Seq<char>
    decreases rs.len(),
{
    if rs.len() == 0 {
        Seq::empty()
    } else {
        run_lines(rs.drop_last()) + run_line(rs.last())
    }
}

/// The findings on changed files, in order.
pub open spec fn in_change_part(fs: Seq<AnalysisFinding>) -> Seq<AnalysisFinding>
    decreases fs.len(),
{
    if fs.len() == 0 {
        Seq::empty()
    } else if fs.last().in_change {
        in_change_part(fs.drop_last()).push(fs.last())
    } else {
        in_change_part(fs.drop_last())
    }
}

/// The pre-existing findings, in order.
pub open spec fn pre_existing_part(fs: Seq<AnalysisFinding>) -> Seq<AnalysisFinding>
    decreases fs.len(),
{
    if fs.len() == 0 {
        Seq::empty()
    } else if fs.last().in_change {
        pre_existing_part(fs.drop_last())
    } else {
        pre_existing_part(fs.drop_last()).push(fs.last())
    }
}

pub open spec fn finding_line(f: AnalysisFinding) -> Seq<char> {
    "  "@ + f.severity@ + " "@ + f.tool@ + "/"@ + f.rule@ + " "@ + f.file@ + ":"@ + dec_text(f.line as nat) + " — "@
        + f.message@ + (if f.in_change {
        Seq::empty()
    } else {
        " [pre-existing]"@
    }) + "\n"@
}

pub open spec fn finding_lines(fs: Seq<AnalysisFinding>) -> Seq<char>
    decreases fs.len(),
{
    if fs.len() == 0 {
        Seq::empty()
    } else {
        finding_lines(fs.drop_last()) + finding_line(fs.last())
    }
}

pub open spec fn findings_part(fs: Seq<AnalysisFinding>) -> Seq<char> {
    let ordered = in_change_part(fs) + pre_existing_part(fs);
    if fs.len() == 0 {
        Seq::empty()
    } else if ordered.len() <= MAX_RENDERED_FINDINGS {
        "Findings:\n"@ + finding_lines(ordered)
    } else {
        "Findings:\n"@ + finding_lines(ordered.take(MAX_RENDERED_FINDINGS as int)) + "  … and "@ + dec_text(
            (ordered.len() - MAX_RENDERED_FINDINGS) as nat,
        ) + " more finding(s) (omitted from the listing)\n"@
    }
}

/// The static-analysis section: one line per tool run, then the findings,
/// changed-file ones first; nothing when no analyzer ran.
pub open spec fn analysis_section(runs: Seq<AnalyzerRun>, fs: Seq<AnalysisFinding>) -> Seq<char> {
    if runs.len() == 0 {
        Seq::empty()
    } else {
        "\nAnalysis (static):\n"@ + run_lines(runs) + findings_part(fs)
    }
}

fn render_run(out: &mut Vec<char>, r: &AnalyzerRun)
    ensures
        final(out)@ == old(out)@ + run_line(*r),
{
    push_str(out, "  ");
    push_str(out, r.tool.as_str());
    push_str(out, ": ");
    push_str(out, r.status.as_str());
    push_str(out, " (");
    push_dec(out, r.finding_count as u64);
    push_str(out, " finding(s), ");
    push_dec(out, r.duration_ms as u64);
    push_str(out, " ms)");
    let reason = chars_of(r.reason.as_str());
    if reason.len() > 0 {
        push_str(out, " — ");
        push_chars(out, &reason);
    }
    push_str(out, "\n");
    assert(out@ =~= old(out)@ + run_line(*r));
}

fn render_finding(out: &mut Vec<char>, f: &AnalysisFinding)
    ensures
        final(out)@ == old(out)@ + finding_line(*f),
{
    push_str(out, "  ");
    push_str(out, f.severity.as_str());
    push_str(out, " ");
    push_str(out, f.tool.as_str());
    push_str(out, "/");
    push_str(out, f.rule.as_str());
    push_str(out, " ");
    push_str(out, f.file.as_str());
    push_str(out, ":");
    push_dec(out, f.line as u64);
    push_str(out, " — ");
    push_str(out, f.message.as_str());
    if !f.in_change {
        push_str(out, " [pre-existing]");
    }
    push_str(out, "\n");
    assert(out@ =~= old(out)@ + finding_line(*f));
}

/// The positions of the changed-file findings, then of the others.
fn changed_first(fs: &[AnalysisFinding]) -> (idx: Vec<usize>)
    ensures
        idx@.len() == fs@.len(),
        forall|k: int| 0 <= k < idx@.len() ==> #[trigger] idx@[k] < fs@.len(),
        idx@.map_values(|i: usize| fs@[i as int]) == in_change_part(fs@) + pre_existing_part(fs@),
{
    let mut a: Vec<usize> = Vec::new();
    let mut b: Vec<usize> = Vec::new();
    let mut i: usize = 0;
    while i < fs.len()
        invariant
            i <= fs@.len(),
            a@.len() + b@.len() == i,
            forall|k: int| 0 <= k < a@.len() ==> #[trigger] a@[k] < i,
            forall|k: int| 0 <= k < b@.len() ==> #[trigger] b@[k] < i,
            a@.map_values(|j: usize| fs@[j as int]) == in_change_part(fs@.take(i as int)),
            b@.map_values(|j: usize| fs@[j as int]) == pre_existing_part(fs@.take(i as int)),
        decreases fs.len() - i,
    {
        assert(fs@.take(i + 1).drop_last() =~= fs@.take(i as int));
        assert(fs@.take(i + 1).last() == fs@[i as int]);
        if fs[i].in_change {
            let ghost a0 = a@;
            a.push(i);
            assert(a@.map_values(|j: usize| fs@[j as int]) =~= a0.map_values(|j: usize| fs@[j as int]).push(fs@[i as int]));
        } else {
            let ghost b0 = b@;
            b.push(i);
            assert(b@.map_values(|j: usize| fs@[j as int]) =~= b0.map_values(|j: usize| fs@[j as int]).push(fs@[i as int]));
        }
        i += 1;
    }
    assert(fs@.take(fs@.len() as int) =~= fs@);
    let ghost a0 = a@;
    let ghost b0 = b@;
    a.append(&mut b);
    assert(a@.map_values(|j: usize| fs@[j as int]) =~= a0.map_values(|j: usize| fs@[j as int]) + b0.map_values(
        |j: usize| fs@[j as int],
    ));
    a
}

fn render_findings_part(out: &mut Vec<char>, fs: &[AnalysisFinding])
    ensures
        final(out)@ == old(out)@ + findings_part(fs@),
{
    let ghost o2 = out@;
    if fs.len() == 0 {
        assert(out@ =~= o2 + findings_part(fs@));
        return;
    }
    let idx = changed_first(fs);
    let ghost ordered = idx@.map_values(|j: usize| fs@[j as int]);
    push_str(out, "Findings:\n");
    let ghost o3 = out@;
    let n = if idx.len() <= MAX_RENDERED_FINDINGS { idx.len() } else { MAX_RENDERED_FINDINGS };
    let mut k: usize = 0;
    while k < n
        invariant
            k <= n,
            n <= idx@.len(),
            idx@.len() == fs@.len(),
            forall|q: int| 0 <= q < idx@.len() ==> #[trigger] idx@[q] < fs@.len(),
            ordered == idx@.map_values(|j: usize| fs@[j as int]),
            out@ == o3 + finding_lines(ordered.take(k as int)),
        decreases n - k,
    {
        assert(ordered.take(k + 1).drop_last() =~= ordered.take(k as int));
        assert(ordered.take(k + 1).last() == fs@[idx@[k as int] as int]);
        render_finding(out, &fs[idx[k]]);
        k += 1;
    }
    if idx.len() > MAX_RENDERED_FINDINGS {
        push_str(out, "  … and ");
        push_dec(out, (idx.len() - MAX_RENDERED_FINDINGS) as u64);
        push_str(out, " more finding(s) (omitted from the listing)\n");
    } else {
        assert(ordered.take(ordered.len() as int) =~= ordered);
    }
    assert(out@ =~= o2 + findings_part(fs@));
}

fn render_analysis(out: &mut Vec<char>, runs: &[AnalyzerRun], fs: &[AnalysisFinding])
    ensures
        final(out)@ == old(out)@ + analysis_section(runs@, fs@),
{
    if runs.len() == 0 {
        assert(old(out)@ + analysis_section(runs@, fs@) =~= old(out)@);
        return;
    }
    let ghost o0 = out@;
    push_str(out, "\nAnalysis (static):\n");
    let ghost o1 = out@;
    let mut i: usize = 0;
    while i < runs.len()
        invariant
            i <= runs@.len(),
            out@ == o1 + run_lines(runs@.take(i as int)),
        decreases runs.len() - i,
    {
        assert(runs@.take(i + 1).drop_last() =~= runs@.take(i as int));
        render_run(out, &runs[i]);
        i += 1;
    }
    assert(runs@.take(runs@.len() as int) =~= runs@);
    render_findings_part(out, fs);
    assert(out@ =~= o0 + analysis_section(runs@, fs@));
}

pub open spec fn diff_block(f: ChangedFile) -> Seq<char> {
    "### "@ + f.path@ + "\n"@ + f.patch@ + "\n"@
}

/// From `used` bytes on, the diff blocks of `fs` (files with a patch) that
/// fit the budget, and how many did not (a budget of 0 is unbounded).
pub open spec fn fit_blocks(used: nat, fs: Seq<ChangedFile>, budget: nat) -> (Seq<char>, nat)
    decreases fs.len(),
{
    if fs.len() == 0 {
        (Seq::empty(), 0)
    } else if fs[0].patch@.len() == 0 {
        fit_blocks(used, fs.drop_first(), budget)
    } else {
        let b = diff_block(fs[0]);
        if budget != 0 && used + byte_len(b) > budget {
            let r = fit_blocks(used, fs.drop_first(), budget);
            (r.0, r.1 + 1)
        } else {
            let r = fit_blocks(used + byte_len(b), fs.drop_first(), budget);
            (b + r.0, r.1)
        }
    }
}

pub open spec fn has_patch(fs: Seq<ChangedFile>) -> bool {
    exists|i: int| 0 <= i < fs.len() && (#[trigger] fs[i]).patch@.len() > 0
}

/// The diffs after `used` bytes of always-included text: the blocks that fit,
/// then a count of those left out.
pub open spec fn diffs_section(used: nat, fs: Seq<ChangedFile>, budget: nat) -> Seq<char> {
    if !has_patch(fs) {
        Seq::empty()
    } else {
        let head = "\nDiffs:\n"@;
        let r = fit_blocks(used + byte_len(head), fs, budget);
        head + r.0 + if r.1 > 0 {
            "  … "@ + dec_text(r.1) + " file diff(s) omitted (context budget "@ + dec_text(budget) + " bytes)\n"@
        } else {
            Seq::empty()
        }
    }
}

pub proof fn lemma_byte_len_append(a: Seq<char>, b: Seq<char>)
    ensures
        byte_len(a + b) == byte_len(a) + byte_len(b),
    decreases b.len(),
{
    if b.len() > 0 {
        lemma_byte_len_append(a, b.drop_last());
        assert((a + b).drop_last() =~= a + b.drop_last());
    } else {
        assert(a + b =~= a);
    }
}

/// With no budget, the starting size does not matter.
proof fn lemma_unbounded(u1: nat, u2: nat, fs: Seq<ChangedFile>)
    ensures
        fit_blocks(u1, fs, 0) == fit_blocks(u2, fs, 0),
    decreases fs.len(),
{
    if fs.len() > 0 {
        let b = diff_block(fs[0]);
        lemma_unbounded(u1, u2, fs.drop_first());
        lemma_unbounded(u1 + byte_len(b), u2 + byte_len(b), fs.drop_first());
    }
}

/// The diff hunks never push the rendered size past a nonzero budget: from
/// `used` bytes on, the kept blocks end within `max(used, budget)`.
pub proof fn law_budget_respected(used: nat, fs: Seq<ChangedFile>, budget: nat)
    requires
        budget > 0,
    ensures
        used + byte_len(fit_blocks(used, fs, budget).0) <= if used <= budget { budget } else { used },
    decreases fs.len(),
{
    if fs.len() > 0 {
        let b = diff_block(fs[0]);
        if fs[0].patch@.len() == 0 {
            law_budget_respected(used, fs.drop_first(), budget);
        } else if used + byte_len(b) > budget {
            law_budget_respected(used, fs.drop_first(), budget);
        } else {
            law_budget_respected(used + byte_len(b), fs.drop_first(), budget);
            lemma_byte_len_append(b, fit_blocks(used + byte_len(b), fs.drop_first(), budget).0);
        }
    } else {
        assert(byte_len(Seq::<char>::empty()) == 0);
    }
}

fn utf8_len_exec(c: char) -> (n: u128)
    ensures
        n == utf8_len(c),
{
    let x = c as u32;
    if x < 0x80 {
        1
    } else if x < 0x800 {
        2
    } else if x < 0x10000 {
        3
    } else {
        4
    }
}

fn byte_len_exec(v: &[char]) -> (n: u128)
    ensures
        n == byte_len(v@),
        n <= 4 * v@.len(),
{
    let mut n: u128 = 0;
    let mut i: usize = 0;
    while i < v.len()
        invariant
            i <= v@.len(),
            n == byte_len(v@.take(i as int)),
            n <= 4 * i,
        decreases v.len() - i,
    {
        assert(v@.take(i + 1).drop_last() =~= v@.take(i as int));
        n = n + utf8_len_exec(v[i]);
        i += 1;
    }
    assert(v@.take(v@.len() as int) =~= v@);
    n
}

fn render_diffs(out: &mut Vec<char>, fs: &[ChangedFile], budget: usize)
    ensures
        final(out)@ == old(out)@ + diffs_section(byte_len(old(out)@), fs@, budget as nat),
{
    let ghost o0 = out@;
    let mut any = false;
    let mut t: usize = 0;
    while t < fs.len()
        invariant
            t <= fs@.len(),
            any == exists|i: int| 0 <= i < t && (#[trigger] fs@[i]).patch@.len() > 0,
        decreases fs.len() - t,
    {
        if chars_of(fs[t].patch.as_str()).len() > 0 {
            any = true;
        }
        t += 1;
    }
    if !any {
        assert(o0 + diffs_section(byte_len(o0), fs@, budget as nat) =~= o0);
        return;
    }
    push_str(out, "\nDiffs:\n");
    proof {
        lemma_byte_len_append(o0, "\nDiffs:\n"@);
    }
    let ghost o1 = out@;
    let ghost used0 = byte_len(o1);
    let ghost total = fit_blocks(used0, fs@, budget as nat);
    let start = byte_len_exec(out.as_slice());
    let _olen = out.len();
    let mut used: u128 = start;
    let mut omitted: u64 = 0;
    let mut i: usize = 0;
    assert(fs@.skip(0) =~= fs@);
    assert(out@ =~= o1 + Seq::<char>::empty());
    assert(Seq::<char>::empty() + total.0 =~= total.0);
    while i < fs.len()
        invariant
            i <= fs@.len(),
            o1 == o0 + "\nDiffs:\n"@,
            used0 == byte_len(o1),
            start == used0,
            start <= 4 * o1.len(),
            o1.len() <= usize::MAX,
            total == fit_blocks(used0, fs@, budget as nat),
            budget != 0 ==> used <= if start <= budget { budget as u128 } else { start },
            budget == 0 ==> used == start,
            omitted <= i,
            exists|t: Seq<char>|
                {
                    &&& out@ == o1 + t
                    &&& t + fit_blocks(used as nat, fs@.skip(i as int), budget as nat).0 == total.0
                },
            omitted + fit_blocks(used as nat, fs@.skip(i as int), budget as nat).1 == total.1,
        decreases fs.len() - i,
    {
        let ghost rest = fs@.skip(i as int);
        assert(rest.drop_first() =~= fs@.skip(i + 1));
        assert(rest[0] == fs@[i as int]);
        let ghost t0 = choose|t: Seq<char>| out@ == o1 + t && t + fit_blocks(used as nat, rest, budget as nat).0 == total.0;
        let patch = chars_of(fs[i].patch.as_str());
        if patch.len() > 0 {
            let mut block: Vec<char> = Vec::new();
            push_str(&mut block, "### ");
            push_str(&mut block, fs[i].path.as_str());
            push_str(&mut block, "\n");
            push_chars(&mut block, &patch);
            push_str(&mut block, "\n");
            assert(block@ =~= diff_block(fs@[i as int]));
            let blen = byte_len_exec(&block);
            let _blen_chars = block.len();
            if budget != 0 && used + blen > budget as u128 {
                omitted += 1;
            } else {
                push_chars(out, &block);
                proof {
                    if budget == 0 {
                        lemma_unbounded(used as nat, (used + blen) as nat, fs@.skip(i + 1));
                    }
                    assert(out@ == o1 + (t0 + block@));
                    assert((t0 + block@) + fit_blocks((used + blen) as nat, fs@.skip(i + 1), budget as nat).0
                        =~= t0 + fit_blocks(used as nat, rest, budget as nat).0);
                }
                if budget != 0 {
                    used = used + blen;
                }
            }
        }
        i += 1;
    }
    assert(fs@.skip(fs@.len() as int) =~= Seq::<ChangedFile>::empty());
    let ghost tf = choose|t: Seq<char>| out@ == o1 + t && t + fit_blocks(used as nat, fs@.skip(fs@.len() as int), budget as nat).0 == total.0;
    assert(tf =~= total.0);
    if omitted > 0 {
        push_str(out, "  … ");
        push_dec(out, omitted);
        push_str(out, " file diff(s) omitted (context budget ");
        push_dec(out, budget as u64);
        push_str(out, " bytes)\n");
    }
    assert(has_patch(fs@));
    assert(out@ =~= o0 + diffs_section(byte_len(o0), fs@, budget as nat));
}

/// A review's grounded facts, ready to render. `style` is the house-style
/// section as already rendered (it is made of ratios).
#[derive(Clone, Debug)]
pub struct ReviewBundle {
    pub project: String,
    pub relationship: String,
    pub default_branch: String,
    pub base_rev: String,
    pub head_rev: String,
    pub files: Vec<ChangedFile>,
    pub commits: Vec<ReviewCommit>,
    pub signatures: Vec<SignatureChange>,
    pub signatures_truncated: bool,
    pub callgraph: CallGraph,
    pub runs: Vec<AnalyzerRun>,
    pub findings: Vec<AnalysisFinding>,
    pub style: String,
}

/// Everything before the diffs: always included.
pub open spec fn always_included(b: ReviewBundle) -> Seq<char> {
    "## Grounded review facts (tool-derived — not model-generated)\n\n"@ + repo_line(
        b.project@,
        b.relationship@,
        b.default_branch@,
    ) + change_line(b.base_rev@, b.head_rev@, b.files@.len()) + commits_section(b.commits@) + files_section(b.files@)
        + sig_section(b.signatures@, b.signatures_truncated) + callgraph_section(b.callgraph) + analysis_section(
        b.runs@,
        b.findings@,
    ) + b.style@
}

fn render_head(out: &mut Vec<char>, b: &ReviewBundle)
    ensures
        final(out)@ == old(out)@ + "## Grounded review facts (tool-derived — not model-generated)\n\n"@ + repo_line(
            b.project@,
            b.relationship@,
            b.default_branch@,
        ) + change_line(b.base_rev@, b.head_rev@, b.files@.len()),
{
    push_str(out, "## Grounded review facts (tool-derived — not model-generated)\n\n");
    push_str(out, "Repo: ");
    push_str(out, b.project.as_str());
    push_str(out, " · ");
    push_str(out, b.relationship.as_str());
    push_str(out, " · default branch `");
    let branch = chars_of(b.default_branch.as_str());
    if branch.len() == 0 {
        push_str(out, "unknown");
    } else {
        push_chars(out, &branch);
    }
    push_str(out, "`\n");
    push_str(out, "Change: `");
    push_str(out, b.base_rev.as_str());
    push_str(out, "`..`");
    push_str(out, b.head_rev.as_str());
    push_str(out, "` — ");
    push_dec(out, b.files.len() as u64);
    push_str(out, " changed file(s)\n");
    assert(out@ =~= old(out)@ + "## Grounded review facts (tool-derived — not model-generated)\n\n"@ + repo_line(
        b.project@,
        b.relationship@,
        b.default_branch@,
    ) + change_line(b.base_rev@, b.head_rev@, b.files@.len()));
}

/// Render the bundle within `budget_bytes` (0 is unbounded): the facts that
/// are always included, then the diff hunks that fit.
pub fn render_facts_with(b: &ReviewBundle, budget_bytes: usize) -> (r: String)
    ensures
        r@ == always_included(*b) + diffs_section(byte_len(always_included(*b)), b.files@, budget_bytes as nat),
{
    let mut out: Vec<char> = Vec::new();
    render_head(&mut out, b);
    render_commits(&mut out, b.commits.as_slice());
    render_files(&mut out, b.files.as_slice());
    render_signatures(&mut out, b.signatures.as_slice(), b.signatures_truncated);
    render_callgraph(&mut out, &b.callgraph);
    render_analysis(&mut out, b.runs.as_slice(), b.findings.as_slice());
    push_str(&mut out, b.style.as_str());
    assert(out@ =~= always_included(*b));
    render_diffs(&mut out, b.files.as_slice(), budget_bytes);
    string_of(&out)
}

/// Render the bundle at the default budget.
pub fn render_facts(b: &ReviewBundle) -> (r: String)
    ensures
        r@ == always_included(*b) + diffs_section(
            byte_len(always_included(*b)),
            b.files@,
            DEFAULT_CONTEXT_BUDGET as nat,
        ),
{
    render_facts_with(b, DEFAULT_CONTEXT_BUDGET)
}

} // verus!
