use agent_kit::paths::{ext, forge_host, lang_of, parse_remote, safe_rev, safe_segment, ForgeHost};

#[test]
fn parses_known_remotes() {
    for (url, host, owner, repo) in [
        ("https://github.com/randomizedcoder/agent-seddon.git", "github.com", "randomizedcoder", "agent-seddon"),
        ("https://github.com/o/r", "github.com", "o", "r"),
        ("git@github.com:o/r.git", "github.com", "o", "r"),
        ("ssh://git@gitlab.com/group/proj.git", "gitlab.com", "group", "proj"),
        ("https://gitlab.com/a/b/c.git", "gitlab.com", "a", "c"),
        ("  https://user@example.org:8443/o/r/  ", "example.org", "o", "r"),
    ] {
        let (h, o, r) = parse_remote(url).expect("parses");
        assert_eq!((h.as_str(), o.as_str(), r.as_str()), (host, owner, repo));
    }
}

#[test]
fn fails_closed_on_hostile_remotes() {
    for url in [
        "https://evil/../../x/y",
        "github.com/o/r",
        "",
        "https://github.com/onlyowner",
        "git@h:../r.git",
        "https://ho$t/o/r",
    ] {
        assert!(parse_remote(url).is_none(), "should fail closed: {url}");
    }
}

#[test]
fn safe_segment_validates() {
    assert!(safe_segment("main"));
    assert!(!safe_segment(".."));
    assert!(!safe_segment("."));
    assert!(!safe_segment(""));
    assert!(!safe_segment("../heads/main"));
    assert!(!safe_segment("-x"));
    assert!(safe_segment("a.b_c-d"));
}

#[test]
fn safe_rev_validates() {
    assert!(safe_rev("HEAD~1"));
    assert!(safe_rev("origin/main"));
    assert!(safe_rev("abc^"));
    assert!(!safe_rev(""));
    assert!(!safe_rev("-x"));
    assert!(!safe_rev("a b"));
    assert!(!safe_rev("$(rm)"));
    assert!(safe_rev(&"a".repeat(256)));
    assert!(!safe_rev(&"a".repeat(257)));
}

#[test]
fn lang_of_maps_extensions() {
    assert_eq!(lang_of("src/lib.rs"), "rust");
    assert_eq!(lang_of("a/b.tsx"), "typescript");
    assert_eq!(lang_of("x.hpp"), "cpp");
    assert_eq!(lang_of("deploy.bash"), "shell");
    assert_eq!(lang_of("Makefile"), "");
    assert_eq!(lang_of(".bashrc"), "");
    assert_eq!(lang_of("foo.weird"), "weird");
    assert_eq!(lang_of("dir.d/"), "d");
    assert_eq!(lang_of("x.RS"), "RS");
}

#[test]
fn ext_is_lowercased() {
    assert_eq!(ext("run.BASH").iter().collect::<String>(), "bash");
    assert_eq!(ext("Makefile").iter().collect::<String>(), "");
    assert_eq!(ext("a/b.c/d").iter().collect::<String>(), "");
}

#[test]
fn forge_host_closed_set() {
    assert_eq!(forge_host("github.com"), ForgeHost::GitHub);
    assert_eq!(forge_host("api.GitHub.com"), ForgeHost::GitHub);
    assert_eq!(forge_host("gitlab.com"), ForgeHost::GitLab);
    assert_eq!(forge_host("gitlab.example.org"), ForgeHost::GitLab);
    assert_eq!(forge_host("example.org"), ForgeHost::Other);
}
