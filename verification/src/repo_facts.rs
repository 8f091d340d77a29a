//! Repository facts decided from what was probed: the project language, the
//! default branch, the changed files as the review shows them, and the
//! condensed commits of the change.
use vstd::prelude::*;
use crate::gochecks::strings_view;
use crate::findings::push_str;
use crate::paths::{eq_str, ext_or_empty, lang_of, lang_of_ext, safe_rev, safe_rev_spec, safe_segment, safe_segment_spec};
use crate::render::{ChangeKind, ChangedFile, ReviewCommit};
use crate::signatures::{bound, bound_spec};
use crate::text::{chars_of, contains, contains_exec, slice_of, string_of, trim, trim_exec};

verus! {

/// The repository's language.
#[derive(Debug, Clone, Copy, PartialEq, Eq, Structural)]
pub enum RepoLanguage {
    Go,
    Rust,
    Mixed,
    Unknown,
}

/// How many of the paths are of language `lang`.
pub open spec fn lang_count(fs: Seq<Seq<char>>, lang: Seq<char>) -> nat
    decreases fs.len(),
{
    if fs.len() == 0 {
        0
    } else {
        lang_count(fs.drop_last(), lang) + if lang_of_ext(ext_or_empty(fs.last())) == lang { 1nat } else { 0nat }
    }
}

pub open spec fn detect_language_spec(has_go_mod: bool, has_cargo: bool, fs: Seq<Seq<char>>) -> RepoLanguage {
    if has_go_mod && has_cargo {
        RepoLanguage::Mixed
    } else if has_go_mod {
        RepoLanguage::Go
    } else if has_cargo {
        RepoLanguage::Rust
    } else {
        let go = lang_count(fs, "go"@);
        let rust = lang_count(fs, "rust"@);
        if go == 0 && rust == 0 {
            RepoLanguage::Unknown
        } else if go > rust {
            RepoLanguage::Go
        } else if rust > go {
            RepoLanguage::Rust
        } else {
            RepoLanguage::Mixed
        }
    }
}

/// The repository language: a `go.mod` / `Cargo.toml` at the root decides;
/// without either, the tracked files' extensions are tallied.
pub fn detect_language(has_go_mod: bool, has_cargo: bool, files: &[String]) -> (r: RepoLanguage)
    ensures
        r == detect_language_spec(has_go_mod, has_cargo, strings_view(files@)),
{
    if has_go_mod && has_cargo {
        return RepoLanguage::Mixed;
    } else if has_go_mod {
        return RepoLanguage::Go;
    } else if has_cargo {
        return RepoLanguage::Rust;
    }
    let ghost fv = strings_view(files@);
    proof {
        reveal_strlit("go");
        reveal_strlit("rust");
        assert("go"@.len() == 2 && "rust"@.len() == 4);
    }
    let mut go: usize = 0;
    let mut rust: usize = 0;
    let mut i: usize = 0;
    while i < files.len()
        invariant
            i <= files@.len(),
            fv == strings_view(files@),
            go == lang_count(fv.take(i as int), "go"@),
            rust == lang_count(fv.take(i as int), "rust"@),
            go <= i,
            rust <= i,
            "go"@ != "rust"@,
        decreases files.len() - i,
    {
        assert(fv.take(i + 1).drop_last() =~= fv.take(i as int));
        assert(fv.take(i + 1).last() == files@[i as int]@);
        let l = chars_of(lang_of(files[i].as_str()).as_str());
        if eq_str(&l, "go") {
            go += 1;
        } else if eq_str(&l, "rust") {
            rust += 1;
        }
        i += 1;
    }
    assert(fv.take(files@.len() as int) =~= fv);
    if go == 0 && rust == 0 {
        RepoLanguage::Unknown
    } else if go > rust {
        RepoLanguage::Go
    } else if rust > go {
        RepoLanguage::Rust
    } else {
        RepoLanguage::Mixed
    }
}

/// The branch names without a `/` (local heads), in order.
pub open spec fn locals(ns: Seq<Seq<char>>) -> Seq<Seq<char>>
    decreases ns.len(),
{
    if ns.len() == 0 {
        Seq::empty()
    } else if contains(ns.last(), "/"@) {
        locals(ns.drop_last())
    } else {
        locals(ns.drop_last()).push(ns.last())
    }
}

pub open spec fn pick_default_spec(ns: Seq<Seq<char>>) -> Seq<char> {
    let l = locals(ns);
    if l.contains("main"@) {
        "main"@
    } else if l.contains("master"@) {
        "master"@
    } else if l.contains("develop"@) {
        "develop"@
    } else if l.contains("trunk"@) {
        "trunk"@
    } else if l.len() > 0 {
        l[0]
    } else if ns.len() > 0 {
        ns[0]
    } else {
        "main"@
    }
}

/// The default branch among the branch names: a usual name (`main`,
/// `master`, `develop`, `trunk`, in that preference) among the local heads,
/// else the first local head, else the first name, else `main`.
pub fn pick_default(names: &[String]) -> (r: String)
    ensures
        r@ == pick_default_spec(strings_view(names@)),
{
    let ghost nv = strings_view(names@);
    let mut loc: Vec<Vec<char>> = Vec::new();
    let mut i: usize = 0;
    while i < names.len()
        invariant
            i <= names@.len(),
            nv == strings_view(names@),
            crate::text::views_of(loc@) == locals(nv.take(i as int)),
        decreases names.len() - i,
    {
        assert(nv.take(i + 1).drop_last() =~= nv.take(i as int));
        assert(nv.take(i + 1).last() == names@[i as int]@);
        let c = chars_of(names[i].as_str());
        if !contains_exec(&c, &chars_of("/")) {
            let ghost l0 = crate::text::views_of(loc@);
            loc.push(c);
            assert(crate::text::views_of(loc@) =~= l0.push(names@[i as int]@));
        }
        i += 1;
    }
    assert(nv.take(names@.len() as int) =~= nv);
    let ghost lv = crate::text::views_of(loc@);
    let mut k: usize = 0;
    while k < loc.len()
        invariant
            k <= loc@.len(),
            lv == crate::text::views_of(loc@),
            lv == locals(strings_view(names@)),
            forall|j: int| 0 <= j < k ==> #[trigger] lv[j] != "main"@,
        decreases loc.len() - k,
    {
        assert(lv[k as int] == loc@[k as int]@);
        if eq_str(&loc[k], "main") {
            assert(lv.contains("main"@));
            return string_of(&chars_of("main"));
        }
        k += 1;
    }
    assert(!lv.contains("main"@));
    let mut k: usize = 0;
    while k < loc.len()
        invariant
            k <= loc@.len(),
            lv == crate::text::views_of(loc@),
            lv == locals(strings_view(names@)),
            forall|j: int| 0 <= j < k ==> #[trigger] lv[j] != "master"@,
            !lv.contains("main"@),
        decreases loc.len() - k,
    {
        assert(lv[k as int] == loc@[k as int]@);
        if eq_str(&loc[k], "master") {
            assert(lv.contains("master"@));
            return string_of(&chars_of("master"));
        }
        k += 1;
    }
    assert(!lv.contains("master"@));
    let mut k: usize = 0;
    while k < loc.len()
        invariant
            k <= loc@.len(),
            lv == crate::text::views_of(loc@),
            lv == locals(strings_view(names@)),
            forall|j: int| 0 <= j < k ==> #[trigger] lv[j] != "develop"@,
            !lv.contains("main"@),
            !lv.contains("master"@),
        decreases loc.len() - k,
    {
        assert(lv[k as int] == loc@[k as int]@);
        if eq_str(&loc[k], "develop") {
            assert(lv.contains("develop"@));
            return string_of(&chars_of("develop"));
        }
        k += 1;
    }
    assert(!lv.contains("develop"@));
    let mut k: usize = 0;
    while k < loc.len()
        invariant
            k <= loc@.len(),
            lv == crate::text::views_of(loc@),
            lv == locals(strings_view(names@)),
            forall|j: int| 0 <= j < k ==> #[trigger] lv[j] != "trunk"@,
            !lv.contains("main"@),
            !lv.contains("master"@),
            !lv.contains("develop"@),
        decreases loc.len() - k,
    {
        assert(lv[k as int] == loc@[k as int]@);
        if eq_str(&loc[k], "trunk") {
            assert(lv.contains("trunk"@));
            return string_of(&chars_of("trunk"));
        }
        k += 1;
    }
    assert(!lv.contains("trunk"@));
    if loc.len() > 0 {
        assert(lv[0] == loc@[0]@);
        return string_of(&loc[0]);
    }
    if names.len() > 0 {
        assert(nv[0] == names@[0]@);
        return string_of(&chars_of(names[0].as_str()));
    }
    string_of(&chars_of("main"))
}

/// Cap on a changed file's carried diff (chars).
pub const MAX_FILE_PATCH: usize = 16_000;
/// Cap on a commit summary (chars).
pub const MAX_COMMIT_SUMMARY: usize = 200;
/// Cap on the head commit's body (chars).
pub const MAX_COMMIT_BODY: usize = 2000;
/// Cap on a commit author (chars).
pub const MAX_COMMIT_AUTHOR: usize = 80;
/// Milliseconds per day.
pub const MS_PER_DAY: u64 = 86_400_000;

/// One file of the diff as the repository reported it, with whether its
/// display path stays inside the repository and whether it is noisy (a
/// lockfile or generated file).
pub struct FileDiff {
    pub new_path: Option<String>,
    pub old_path: Option<String>,
    pub confined: bool,
    pub noisy: bool,
    pub change: ChangeKind,
    pub additions: u64,
    pub deletions: u64,
    pub patch: String,
}

/// A commit of `base..head` as the repository reported it.
pub struct RawCommit {
    pub oid: String,
    pub summary: String,
    pub body: String,
    pub author: String,
    pub committed_ms: u64,
}

/// The display path of a diff entry: the new path, else the old one.
pub open spec fn display_path(d: FileDiff) -> Seq<char> {
    match d.new_path {
        Some(p) => p@,
        None => match d.old_path {
            Some(p) => p@,
            None => Seq::empty(),
        },
    }
}

pub struct ChangedFileV {
    pub path: Seq<char>,
    pub change: ChangeKind,
    pub additions: u64,
    pub deletions: u64,
    pub is_binary: bool,
    pub noisy: bool,
    pub patch: Seq<char>,
}

pub open spec fn changed_view(f: ChangedFile) -> ChangedFileV {
    ChangedFileV {
        path: f.path@,
        change: f.change,
        additions: f.additions,
        deletions: f.deletions,
        is_binary: f.is_binary,
        noisy: f.noisy,
        patch: f.patch@,
    }
}

/// A diff entry as the review shows it: binary when the patch says so; the
/// hunks carried bounded, and dropped for a binary or noisy file.
pub open spec fn shown_file(d: FileDiff) -> ChangedFileV {
    let is_binary = contains(d.patch@, "Binary files"@);
    ChangedFileV {
        path: display_path(d),
        change: d.change,
        additions: d.additions,
        deletions: d.deletions,
        is_binary,
        noisy: d.noisy,
        patch: if is_binary || d.noisy { Seq::empty() } else { bound_spec(d.patch@, MAX_FILE_PATCH as nat) },
    }
}

/// The shown files of the diff, in order; an entry whose path escapes the
/// repository is dropped.
pub open spec fn shown_files(ds: Seq<FileDiff>) -> Seq<ChangedFileV>
    decreases ds.len(),
{
    if ds.len() == 0 {
        Seq::empty()
    } else {
        let rest = shown_files(ds.drop_last());
        if ds.last().confined {
            rest.push(shown_file(ds.last()))
        } else {
            rest
        }
    }
}

/// The changed files of a change set, from the diff: escaping paths dropped,
/// binary files detected, hunks bounded and dropped where they would be noise.
pub fn change_set_files(diffs: &[FileDiff]) -> (r: Vec<ChangedFile>)
    ensures
        r@.map_values(|f: ChangedFile| changed_view(f)) == shown_files(diffs@),
{
    let marker = chars_of("Binary files");
    let mut out: Vec<ChangedFile> = Vec::new();
    let mut i: usize = 0;
    while i < diffs.len()
        invariant
            i <= diffs@.len(),
            marker@ == "Binary files"@,
            out@.map_values(|f: ChangedFile| changed_view(f)) == shown_files(diffs@.take(i as int)),
        decreases diffs.len() - i,
    {
        let d = &diffs[i];
        assert(diffs@.take(i + 1).drop_last() =~= diffs@.take(i as int));
        if d.confined {
            let path = match &d.new_path {
                Some(p) => string_of(&chars_of(p.as_str())),
                None => match &d.old_path {
                    Some(p) => string_of(&chars_of(p.as_str())),
                    None => String::new(),
                },
            };
            let pc = chars_of(d.patch.as_str());
            let is_binary = contains_exec(&pc, &marker);
            let patch = if is_binary || d.noisy {
                String::new()
            } else {
                string_of(&bound(&pc, MAX_FILE_PATCH))
            };
            let f = ChangedFile {
                path,
                change: d.change,
                additions: d.additions,
                deletions: d.deletions,
                is_binary,
                noisy: d.noisy,
                patch,
            };
            let ghost before = out@.map_values(|f: ChangedFile| changed_view(f));
            assert(changed_view(f) == shown_file(*d));
            out.push(f);
            assert(out@.map_values(|f: ChangedFile| changed_view(f)) =~= before.push(shown_file(*d)));
        }
        i += 1;
    }
    assert(diffs@.take(diffs@.len() as int) =~= diffs@);
    out
}

pub struct ReviewCommitV {
    pub short: Seq<char>,
    pub summary: Seq<char>,
    pub age_days: u64,
    pub author: Seq<char>,
    pub body: Seq<char>,
}

pub open spec fn commit_view(c: ReviewCommit) -> ReviewCommitV {
    ReviewCommitV { short: c.short@, summary: c.summary@, age_days: c.age_days, author: c.author@, body: c.body@ }
}

/// A commit condensed for the review: the first 8 chars of its id, its
/// summary and author bounded, its body (trimmed and bounded) only for the
/// head commit (`head`), and its age in whole days (0 for a future commit),
/// at most `u32::MAX`.
pub open spec fn condensed(c: RawCommit, head: bool, now_ms: u64) -> ReviewCommitV {
    let age: int = if now_ms >= c.committed_ms { (now_ms - c.committed_ms) / (MS_PER_DAY as int) } else { 0 };
    ReviewCommitV {
        short: if c.oid@.len() <= 8 { c.oid@ } else { c.oid@.take(8) },
        summary: bound_spec(c.summary@, MAX_COMMIT_SUMMARY as nat),
        age_days: if age > u32::MAX { u32::MAX as u64 } else { age as u64 },
        author: bound_spec(c.author@, MAX_COMMIT_AUTHOR as nat),
        body: if head { bound_spec(trim(c.body@), MAX_COMMIT_BODY as nat) } else { Seq::empty() },
    }
}

/// The commits of `base..head` (newest first) condensed for the review: only
/// the head commit keeps its body.
pub fn condense_commits(raw: &[RawCommit], now_ms: u64) -> (r: Vec<ReviewCommit>)
    ensures
        r@.len() == raw@.len(),
        forall|i: int| 0 <= i < raw@.len() ==> commit_view(#[trigger] r@[i]) == condensed(raw@[i], i == 0, now_ms),
{
    let mut out: Vec<ReviewCommit> = Vec::new();
    let mut i: usize = 0;
    while i < raw.len()
        invariant
            i <= raw@.len(),
            out@.len() == i,
            forall|q: int| 0 <= q < i ==> commit_view(#[trigger] out@[q]) == condensed(raw@[q], q == 0, now_ms),
        decreases raw.len() - i,
    {
        let c = &raw[i];
        let oid = chars_of(c.oid.as_str());
        let short = if oid.len() <= 8 { string_of(&oid) } else { string_of(&slice_of(&oid, 0, 8)) };
        proof {
            if oid@.len() > 8 {
                assert(oid@.subrange(0, 8) =~= oid@.take(8));
            }
        }
        let body = if i == 0 {
            string_of(&bound(&trim_exec(&chars_of(c.body.as_str())), MAX_COMMIT_BODY))
        } else {
            String::new()
        };
        let days: u64 = if now_ms >= c.committed_ms { (now_ms - c.committed_ms) / MS_PER_DAY } else { 0 };
        let age_days: u64 = if days > 0xffff_ffff { 0xffff_ffff } else { days };
        let rc = ReviewCommit {
            short,
            summary: string_of(&bound(&chars_of(c.summary.as_str()), MAX_COMMIT_SUMMARY)),
            age_days,
            author: string_of(&bound(&chars_of(c.author.as_str()), MAX_COMMIT_AUTHOR)),
            body,
        };
        assert(commit_view(rc) == condensed(*c, i == 0, now_ms));
        out.push(rc);
        i += 1;
    }
    out
}

/// What a review is asked to cover.
#[derive(Debug, Clone, PartialEq, Eq)]
pub enum ReviewTarget {
    /// A pull request, by number.
    Pr(u64),
    /// A branch against the default branch.
    Branch(String),
    /// The working tree (`HEAD`) against the default branch.
    WorkingTree,
    /// An explicit revision pair.
    Revs { base: String, head: String },
}

/// How a target resolves: a PR needs the forge (its target branch and head);
/// any other target names its base and head revisions directly.
#[derive(Debug, Clone, PartialEq, Eq)]
pub enum TargetPlan {
    NeedsForge(u64),
    Labels { base: String, head: String },
}

/// Resolve a review target against the repository's default branch, checking
/// names fail-closed before anything reaches git: a branch must be a safe
/// path segment and both revisions of a pair must be safe revisions; refused
/// targets get the error text.
pub fn plan_target(target: &ReviewTarget, default_branch: &str) -> (r: Result<TargetPlan, String>)
    ensures
        match target {
            ReviewTarget::Pr(n) => r matches Ok(TargetPlan::NeedsForge(m)) && m == n,
            ReviewTarget::Branch(b) => {
                &&& (r is Ok <==> safe_segment_spec(b@))
                &&& (r matches Ok(p) ==> p matches TargetPlan::Labels { base, head } && base@ == default_branch@
                    && head@ == b@)
                &&& (r matches Err(e) ==> e@ == "unsafe branch name `"@ + b@ + "` (rejected before touching git)"@)
            },
            ReviewTarget::WorkingTree => r matches Ok(TargetPlan::Labels { base, head }) && base@ == default_branch@
                && head@ == "HEAD"@,
            ReviewTarget::Revs { base: b, head: h } => {
                &&& (r is Ok <==> safe_rev_spec(b@) && safe_rev_spec(h@))
                &&& (r matches Ok(p) ==> p matches TargetPlan::Labels { base, head } && base@ == b@ && head@ == h@)
                &&& (r matches Err(e) ==> e@ == "unsafe revision in `"@ + b@ + ".."@ + h@
                    + "` (rejected before touching git)"@)
            },
        },
{
    match target {
        ReviewTarget::Pr(n) => Ok(TargetPlan::NeedsForge(*n)),
        ReviewTarget::Branch(b) => {
            if !safe_segment(b.as_str()) {
                let mut m = chars_of("unsafe branch name `");
                push_str(&mut m, b.as_str());
                push_str(&mut m, "` (rejected before touching git)");
                return Err(string_of(&m));
            }
            Ok(TargetPlan::Labels { base: string_of(&chars_of(default_branch)), head: string_of(&chars_of(b.as_str())) })
        },
        ReviewTarget::WorkingTree => Ok(
            TargetPlan::Labels { base: string_of(&chars_of(default_branch)), head: string_of(&chars_of("HEAD")) },
        ),
        ReviewTarget::Revs { base, head } => {
            if !safe_rev(base.as_str()) || !safe_rev(head.as_str()) {
                let mut m = chars_of("unsafe revision in `");
                push_str(&mut m, base.as_str());
                push_str(&mut m, "..");
                push_str(&mut m, head.as_str());
                push_str(&mut m, "` (rejected before touching git)");
                return Err(string_of(&m));
            }
            Ok(TargetPlan::Labels { base: string_of(&chars_of(base.as_str())), head: string_of(&chars_of(head.as_str())) })
        },
    }
}

} // verus!
