//! Path and identifier helpers: file extensions and languages, fail-closed
//! segment/revision validators, and git remote URL parsing.
use vstd::prelude::*;
use crate::text::{
    chars_of, has_prefix, has_prefix_exec, has_suffix, has_suffix_exec, is_alnum, is_ascii_alnum,
    lower_seq, slice_of, string_of, to_lower, trim, trim_exec,
};

verus! {

/// The first index at or after `i` holding `c`.
pub open spec fn index_from(s: Seq<char>, c: char, i: int) -> Option<int>
    decreases s.len() - i,
{
    if i < 0 || i >= s.len() {
        None
    } else if s[i] == c {
        Some(i)
    } else {
        index_from(s, c, i + 1)
    }
}

/// The last index before `j` holding `c`.
pub open spec fn rindex_before(s: Seq<char>, c: char, j: int) -> Option<int>
    decreases j,
{
    if j <= 0 || j > s.len() {
        None
    } else if s[j - 1] == c {
        Some(j - 1)
    } else {
        rindex_before(s, c, j - 1)
    }
}

proof fn lemma_index_from_range(s: Seq<char>, c: char, i: int)
    ensures
        index_from(s, c, i) matches Some(k) ==> i <= k < s.len() && s[k] == c,
    decreases s.len() - i,
{
    if 0 <= i < s.len() && s[i] != c {
        lemma_index_from_range(s, c, i + 1);
    }
}

pub fn index_of(s: &[char], c: char, from: usize) -> (r: Option<usize>)
    ensures
        r matches Some(k) ==> index_from(s@, c, from as int) == Some(k as int) && from <= k
            < s@.len() && s@[k as int] == c,
        r is None ==> index_from(s@, c, from as int) is None,
{
    proof {
        lemma_index_from_range(s@, c, from as int);
    }
    let mut i = from;
    while i < s.len()
        invariant
            from <= i,
            index_from(s@, c, from as int) == index_from(s@, c, i as int),
        decreases s.len() - i,
    {
        if s[i] == c {
            return Some(i);
        }
        i += 1;
    }
    None
}

pub fn rindex_of(s: &[char], c: char, end: usize) -> (r: Option<usize>)
    requires
        end <= s@.len(),
    ensures
        r matches Some(k) ==> rindex_before(s@, c, end as int) == Some(k as int) && k < end
            && s@[k as int] == c,
        r is None ==> rindex_before(s@, c, end as int) is None,
{
    let mut j = end;
    while j > 0
        invariant
            j <= end <= s@.len(),
            rindex_before(s@, c, end as int) == rindex_before(s@, c, j as int),
        decreases j,
    {
        if s[j - 1] == c {
            return Some(j - 1);
        }
        j -= 1;
    }
    None
}

/// Whether the chars of `v` are exactly those of `lit`.
pub fn eq_str(v: &[char], lit: &str) -> (r: bool)
    ensures
        r == (v@ == lit@),
{
    let l = chars_of(lit);
    if l.len() != v.len() {
        return false;
    }
    let r = has_prefix_exec(v, &l);
    assert(r ==> v@ =~= l@);
    r
}

/// The end of `p` once trailing `/`s are stripped.
pub open spec fn trimmed_end(p: Seq<char>, j: int) -> int
    decreases j,
{
    if j > 0 && j <= p.len() && p[j - 1] == '/' {
        trimmed_end(p, j - 1)
    } else {
        j
    }
}

/// A path's final component: the text after the last `/` once trailing `/`s are
/// stripped; `None` for an empty, `.` or `..` component.
pub open spec fn file_name(p: Seq<char>) -> Option<Seq<char>> {
    let end = trimmed_end(p, p.len() as int);
    let start = match rindex_before(p, '/', end) {
        Some(i) => i + 1,
        None => 0,
    };
    let name = p.subrange(start, end);
    if name.len() == 0 || name =~= seq!['.'] || name =~= seq!['.', '.'] {
        None
    } else {
        Some(name)
    }
}

/// A path's extension (`Path::extension`): the text after the last `.` of the
/// file name, when that `.` is not its first char.
pub open spec fn extension(p: Seq<char>) -> Option<Seq<char>> {
    match file_name(p) {
        None => None,
        Some(name) => match rindex_before(name, '.', name.len() as int) {
            Some(d) => if d > 0 { Some(name.subrange(d + 1, name.len() as int)) } else { None },
            None => None,
        },
    }
}

/// The extension as text, empty when there is none.
pub open spec fn ext_or_empty(p: Seq<char>) -> Seq<char> {
    match extension(p) {
        Some(e) => e,
        None => Seq::empty(),
    }
}

pub fn extension_of(p: &[char]) -> (r: Option<Vec<char>>)
    ensures
        match extension(p@) {
            Some(e) => r matches Some(v) && v@ == e,
            None => r is None,
        },
{
    let mut end = p.len();
    while end > 0 && p[end - 1] == '/'
        invariant
            end <= p@.len(),
            trimmed_end(p@, p@.len() as int) == trimmed_end(p@, end as int),
        decreases end,
    {
        end -= 1;
    }
    let start = match rindex_of(p, '/', end) {
        Some(i) => i + 1,
        None => 0,
    };
    let name = slice_of(p, start, end);
    if name.len() == 0 || eq_str(&name, ".") || eq_str(&name, "..") {
        proof {
            reveal_strlit(".");
            reveal_strlit("..");
        }
        return None;
    }
    proof {
        reveal_strlit(".");
        reveal_strlit("..");
        assert("."@ =~= seq!['.']);
        assert(".."@ =~= seq!['.', '.']);
    }
    assert(!(name@ =~= seq!['.']) && !(name@ =~= seq!['.', '.']));
    match rindex_of(&name, '.', name.len()) {
        Some(d) => if d > 0 {
            Some(slice_of(&name, d + 1, name.len()))
        } else {
            None
        },
        None => None,
    }
}

/// A path's extension, lower-cased (empty when there is none).
pub fn ext(path: &str) -> (r: Vec<char>)
    ensures
        r@ == lower_seq(ext_or_empty(path@)),
{
    let p = chars_of(path);
    match extension_of(&p) {
        Some(e) => to_lower(&e),
        None => {
            let v: Vec<char> = Vec::new();
            assert(lower_seq(Seq::<char>::empty()) =~= v@);
            v
        },
    }
}

/// Extension → coarse language label (an unknown extension labels itself).
pub open spec fn lang_of_ext(e: Seq<char>) -> Seq<char> {
    if e == "rs"@ {
        "rust"@
    } else if e == "nix"@ {
        "nix"@
    } else if e == "py"@ {
        "python"@
    } else if e == "js"@ || e == "jsx"@ {
        "javascript"@
    } else if e == "ts"@ || e == "tsx"@ {
        "typescript"@
    } else if e == "go"@ {
        "go"@
    } else if e == "c"@ || e == "h"@ {
        "c"@
    } else if e == "cc"@ || e == "cpp"@ || e == "cxx"@ || e == "hpp"@ {
        "cpp"@
    } else if e == "java"@ {
        "java"@
    } else if e == "rb"@ {
        "ruby"@
    } else if e == "sh"@ || e == "bash"@ {
        "shell"@
    } else if e == "toml"@ {
        "toml"@
    } else if e == "json"@ {
        "json"@
    } else if e == "yaml"@ || e == "yml"@ {
        "yaml"@
    } else if e == "md"@ || e == "markdown"@ {
        "markdown"@
    } else if e == "txt"@ {
        "text"@
    } else {
        e
    }
}

fn lang_label(e: &[char]) -> (r: String)
    ensures
        r@ == lang_of_ext(e@),
{
    if eq_str(e, "rs") {
        return "rust".to_owned();
    }
    if eq_str(e, "nix") {
        return "nix".to_owned();
    }
    if eq_str(e, "py") {
        return "python".to_owned();
    }
    if eq_str(e, "js") || eq_str(e, "jsx") {
        return "javascript".to_owned();
    }
    if eq_str(e, "ts") || eq_str(e, "tsx") {
        return "typescript".to_owned();
    }
    if eq_str(e, "go") {
        return "go".to_owned();
    }
    if eq_str(e, "c") || eq_str(e, "h") {
        return "c".to_owned();
    }
    if eq_str(e, "cc") || eq_str(e, "cpp") || eq_str(e, "cxx") || eq_str(e, "hpp") {
        return "cpp".to_owned();
    }
    if eq_str(e, "java") {
        return "java".to_owned();
    }
    if eq_str(e, "rb") {
        return "ruby".to_owned();
    }
    if eq_str(e, "sh") || eq_str(e, "bash") {
        return "shell".to_owned();
    }
    if eq_str(e, "toml") {
        return "toml".to_owned();
    }
    if eq_str(e, "json") {
        return "json".to_owned();
    }
    if eq_str(e, "yaml") || eq_str(e, "yml") {
        return "yaml".to_owned();
    }
    if eq_str(e, "md") || eq_str(e, "markdown") {
        return "markdown".to_owned();
    }
    if eq_str(e, "txt") {
        return "text".to_owned();
    }
    string_of(e)
}

/// The coarse language label of a path, by its (case-sensitive) extension.
pub fn lang_of(path: &str) -> (r: String)
    ensures
        r@ == lang_of_ext(ext_or_empty(path@)),
{
    let p = chars_of(path);
    match extension_of(&p) {
        Some(e) => lang_label(&e),
        None => {
            let v: Vec<char> = Vec::new();
            assert(v@ =~= Seq::<char>::empty());
            lang_label(&v)
        },
    }
}

/// `[A-Za-z0-9._-]`.
pub open spec fn seg_char(c: char) -> bool {
    is_alnum(c) || c == '-' || c == '_' || c == '.'
}

/// A fail-closed single path segment: non-empty, not `.`/`..`, no leading `-`,
/// and only `[A-Za-z0-9._-]`.
pub open spec fn safe_segment_spec(s: Seq<char>) -> bool {
    &&& s.len() > 0
    &&& s != seq!['.']
    &&& s != seq!['.', '.']
    &&& s[0] != '-'
    &&& forall|i: int| 0 <= i < s.len() ==> seg_char(#[trigger] s[i])
}

pub fn safe_segment_chars(s: &[char]) -> (r: bool)
    ensures
        r == safe_segment_spec(s@),
{
    if s.len() == 0 {
        return false;
    }
    if s.len() == 1 && s[0] == '.' {
        assert(s@ =~= seq!['.']);
        return false;
    }
    if s.len() == 2 && s[0] == '.' && s[1] == '.' {
        assert(s@ =~= seq!['.', '.']);
        return false;
    }
    assert(s@ != seq!['.']) by {
        if s@ =~= seq!['.'] {
            assert(s@.len() == 1 && s@[0] == '.');
        }
    }
    assert(s@ != seq!['.', '.']) by {
        if s@ =~= seq!['.', '.'] {
            assert(s@.len() == 2 && s@[0] == '.' && s@[1] == '.');
        }
    }
    if s[0] == '-' {
        return false;
    }
    let mut i: usize = 0;
    while i < s.len()
        invariant
            i <= s@.len(),
            forall|j: int| 0 <= j < i ==> seg_char(#[trigger] s@[j]),
        decreases s.len() - i,
    {
        let c = s[i];
        if !(is_ascii_alnum(c) || c == '-' || c == '_' || c == '.') {
            assert(!seg_char(s@[i as int]));
            return false;
        }
        i += 1;
    }
    true
}

/// Fail-closed single-segment validator: rejects empty, `.`/`..`, a leading `-`,
/// and anything outside `[A-Za-z0-9._-]` (path traversal, ref injection).
pub fn safe_segment(s: &str) -> (r: bool)
    ensures
        r == safe_segment_spec(s@),
{
    let v = chars_of(s);
    safe_segment_chars(&v)
}

/// `[A-Za-z0-9._/~^-]`.
pub open spec fn rev_char(c: char) -> bool {
    is_alnum(c) || c == '-' || c == '_' || c == '.' || c == '/' || c == '~' || c == '^'
}

/// The UTF-8 byte length of a char.
pub open spec fn utf8_len(c: char) -> nat {
    if (c as u32) < 0x80 {
        1
    } else if (c as u32) < 0x800 {
        2
    } else if (c as u32) < 0x10000 {
        3
    } else {
        4
    }
}

/// A fail-closed explicit revision (a commit id or a ref such as `HEAD~1`):
/// non-empty, at most 256 bytes, no leading `-`, only `[A-Za-z0-9._/~^-]`.
pub open spec fn safe_rev_spec(s: Seq<char>) -> bool {
    &&& s.len() > 0
    &&& s.len() <= 256
    &&& s[0] != '-'
    &&& forall|i: int| 0 <= i < s.len() ==> rev_char(#[trigger] s[i])
}

/// Fail-closed validator for an explicit revision: rejects empty, over-long
/// (256 bytes), a leading `-`, and any char outside `[A-Za-z0-9._/~^-]`. (Every
/// accepted char is ASCII, so the byte length is the char count.)
pub fn safe_rev(s: &str) -> (r: bool)
    ensures
        r == safe_rev_spec(s@),
{
    let v = chars_of(s);
    if v.len() == 0 || v[0] == '-' {
        return false;
    }
    let mut i: usize = 0;
    while i < v.len()
        invariant
            i <= v@.len(),
            v@ == s@,
            forall|j: int| 0 <= j < i ==> rev_char(#[trigger] v@[j]),
        decreases v.len() - i,
    {
        let c = v[i];
        if !(is_ascii_alnum(c) || c == '-' || c == '_' || c == '.' || c == '/' || c == '~' || c
            == '^') {
            assert(!rev_char(v@[i as int]));
            assert(s@[i as int] == v@[i as int]);
            assert(!safe_rev_spec(s@));
            return false;
        }
        i += 1;
    }
    v.len() <= 256
}

/// `[A-Za-z0-9.-]`.
pub open spec fn host_char(c: char) -> bool {
    is_alnum(c) || c == '.' || c == '-'
}

/// `s` with every trailing `/` removed.
pub open spec fn strip_trailing_slashes(s: Seq<char>) -> Seq<char> {
    s.subrange(0, trimmed_end(s, s.len() as int))
}

/// `s` without a `.git` suffix.
pub open spec fn strip_git(s: Seq<char>) -> Seq<char> {
    if has_suffix(s, ".git"@) {
        s.subrange(0, s.len() - ".git"@.len())
    } else {
        s
    }
}

/// The text after the last `c` (all of `s` when there is none).
pub open spec fn after_last(s: Seq<char>, c: char) -> Seq<char> {
    match rindex_before(s, c, s.len() as int) {
        Some(i) => s.subrange(i + 1, s.len() as int),
        None => s,
    }
}

/// The text before the first `c` (all of `s` when there is none).
pub open spec fn before_first(s: Seq<char>, c: char) -> Seq<char> {
    match index_from(s, c, 0) {
        Some(i) => s.subrange(0, i),
        None => s,
    }
}

/// The `(host, owner, repo)` of a remote once host and path are split out: the
/// path loses trailing `/`s and a `.git` suffix; `owner` is its first segment
/// and `repo` its last; each must be a safe segment and the host `[A-Za-z0-9.-]`.
pub open spec fn finish_spec(host: Seq<char>, path: Seq<char>) -> Option<(Seq<char>, Seq<char>, Seq<char>)> {
    let p = strip_git(strip_trailing_slashes(path));
    match index_from(p, '/', 0) {
        None => None,
        Some(i) => {
            let owner = p.subrange(0, i);
            let repo = p.subrange(i + 1, p.len() as int);
            let repo_name = after_last(repo, '/');
            if host.len() == 0 || !safe_segment_spec(owner) || !safe_segment_spec(repo_name)
                || !(forall|k: int| 0 <= k < host.len() ==> host_char(#[trigger] host[k])) {
                None
            } else {
                Some((host, owner, repo_name))
            }
        },
    }
}

fn after_last_exec(s: &[char], c: char) -> (r: Vec<char>)
    ensures
        r@ == after_last(s@, c),
{
    match rindex_of(s, c, s.len()) {
        Some(i) => slice_of(s, i + 1, s.len()),
        None => {
            let r = slice_of(s, 0, s.len());
            assert(r@ =~= s@);
            r
        },
    }
}

fn before_first_exec(s: &[char], c: char) -> (r: Vec<char>)
    ensures
        r@ == before_first(s@, c),
{
    match index_of(s, c, 0) {
        Some(i) => slice_of(s, 0, i),
        None => {
            let r = slice_of(s, 0, s.len());
            assert(r@ =~= s@);
            r
        },
    }
}

fn finish_exec(host: &[char], path: &[char]) -> (r: Option<(Vec<char>, Vec<char>, Vec<char>)>)
    ensures
        match finish_spec(host@, path@) {
            Some((h, o, n)) => r matches Some((rh, ro, rn)) && rh@ == h && ro@ == o && rn@ == n,
            None => r is None,
        },
{
    let mut end = path.len();
    while end > 0 && path[end - 1] == '/'
        invariant
            end <= path@.len(),
            trimmed_end(path@, path@.len() as int) == trimmed_end(path@, end as int),
        decreases end,
    {
        end -= 1;
    }
    let p0 = slice_of(path, 0, end);
    let git = chars_of(".git");
    let p = if has_suffix_exec(&p0, &git) {
        slice_of(&p0, 0, p0.len() - git.len())
    } else {
        p0
    };
    let i = match index_of(&p, '/', 0) {
        Some(i) => i,
        None => return None,
    };
    let owner = slice_of(&p, 0, i);
    let repo = slice_of(&p, i + 1, p.len());
    let repo_name = after_last_exec(&repo, '/');
    if host.len() == 0 || !safe_segment_chars(&owner) || !safe_segment_chars(&repo_name) {
        return None;
    }
    let mut k: usize = 0;
    while k < host.len()
        invariant
            k <= host@.len(),
            forall|j: int| 0 <= j < k ==> host_char(#[trigger] host@[j]),
        decreases host.len() - k,
    {
        let c = host[k];
        if !(is_ascii_alnum(c) || c == '.' || c == '-') {
            assert(!host_char(host@[k as int]));
            return None;
        }
        k += 1;
    }
    Some((slice_of(host, 0, host.len()), owner, repo_name))
}

/// The `(host, owner, repo)` a git remote URL names, or `None` when it is not
/// fully recognised (fail closed): `git@host:owner/repo(.git)` (scp form) or
/// `https://`/`http://`/`ssh://` `[user@]host[:port]/owner/…/repo(.git)`.
pub open spec fn parse_remote_spec(url: Seq<char>) -> Option<(Seq<char>, Seq<char>, Seq<char>)> {
    let u = trim(url);
    if has_prefix(u, "git@"@) {
        let after = u.subrange("git@"@.len() as int, u.len() as int);
        match index_from(after, ':', 0) {
            None => None,
            Some(i) => finish_spec(after.subrange(0, i), after.subrange(i + 1, after.len() as int)),
        }
    } else {
        let plen: int = if has_prefix(u, "https://"@) {
            "https://"@.len() as int
        } else if has_prefix(u, "http://"@) {
            "http://"@.len() as int
        } else if has_prefix(u, "ssh://"@) {
            "ssh://"@.len() as int
        } else {
            -1
        };
        if plen < 0 {
            None
        } else {
            let after = u.subrange(plen, u.len() as int);
            match index_from(after, '/', 0) {
                None => None,
                Some(i) => {
                    let host_part = after.subrange(0, i);
                    let host = before_first(after_last(host_part, '@'), ':');
                    finish_spec(host, after.subrange(i + 1, after.len() as int))
                },
            }
        }
    }
}

/// Parse a git remote URL into `(host, owner, repo)`, failing closed.
pub fn parse_remote(url: &str) -> (r: Option<(String, String, String)>)
    ensures
        match parse_remote_spec(url@) {
            Some((h, o, n)) => r matches Some((rh, ro, rn)) && rh@ == h && ro@ == o && rn@ == n,
            None => r is None,
        },
{
    let v = chars_of(url);
    let u = trim_exec(&v);
    let git_at = chars_of("git@");
    let res = if has_prefix_exec(&u, &git_at) {
        let after = slice_of(&u, git_at.len(), u.len());
        match index_of(&after, ':', 0) {
            None => None,
            Some(i) => {
                let host = slice_of(&after, 0, i);
                let path = slice_of(&after, i + 1, after.len());
                finish_exec(&host, &path)
            },
        }
    } else {
        let https = chars_of("https://");
        let http = chars_of("http://");
        let ssh = chars_of("ssh://");
        let plen: Option<usize> = if has_prefix_exec(&u, &https) {
            Some(https.len())
        } else if has_prefix_exec(&u, &http) {
            Some(http.len())
        } else if has_prefix_exec(&u, &ssh) {
            Some(ssh.len())
        } else {
            None
        };
        match plen {
            None => None,
            Some(pl) => {
                let after = slice_of(&u, pl, u.len());
                match index_of(&after, '/', 0) {
                    None => None,
                    Some(i) => {
                        let host_part = slice_of(&after, 0, i);
                        let h1 = after_last_exec(&host_part, '@');
                        let host = before_first_exec(&h1, ':');
                        let path = slice_of(&after, i + 1, after.len());
                        finish_exec(&host, &path)
                    },
                }
            },
        }
    };
    match res {
        None => None,
        Some((h, o, n)) => Some((string_of(&h), string_of(&o), string_of(&n))),
    }
}

/// The closed set of forge hosts.
#[derive(Debug, Clone, Copy, PartialEq, Eq, Structural)]
pub enum ForgeHost {
    GitHub,
    GitLab,
    Other,
}

pub open spec fn forge_host_spec(host: Seq<char>) -> ForgeHost {
    let h = lower_seq(host);
    if h == "github.com"@ || has_suffix(h, ".github.com"@) {
        ForgeHost::GitHub
    } else if h == "gitlab.com"@ || crate::text::contains(h, "gitlab"@) {
        ForgeHost::GitLab
    } else {
        ForgeHost::Other
    }
}

/// Map a parsed host to the closed forge set (case-insensitively; fails closed
/// to `Other`).
pub fn forge_host(host: &str) -> (f: ForgeHost)
    ensures
        f == forge_host_spec(host@),
{
    let v = chars_of(host);
    let h = to_lower(&v);
    let gh_suffix = chars_of(".github.com");
    let gitlab = chars_of("gitlab");
    if eq_str(&h, "github.com") || has_suffix_exec(&h, &gh_suffix) {
        ForgeHost::GitHub
    } else if eq_str(&h, "gitlab.com") || crate::text::contains_exec(&h, &gitlab) {
        ForgeHost::GitLab
    } else {
        ForgeHost::Other
    }
}

} // verus!
