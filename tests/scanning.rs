use source_secrets::diff::{parse_diff, DiffEvent, MAX_LINE_CHARS};
use source_secrets::git::{ChangeType, Commit, GitClient};
use source_secrets::pipeline::{partition, scan_commit};
use source_secrets::scan::{
    accepts, check_patterns, file_match, join_path, needs_path_read, select_accepted,
    FilePattern, MatchType, Pattern, PatternMatch,
};

fn commit(hash: &str, date: &str) -> Commit {
    Commit { hash: hash.to_string(), date: date.to_string(), client: None }
}

fn rule(description: &str, pattern: &str) -> Pattern {
    Pattern::new(description.to_string(), pattern.to_string(), None, None)
}

fn pem_rule() -> FilePattern {
    FilePattern {
        description: "PEM file".to_string(),
        extension: ".pem".to_string(),
        binary: Some(true),
    }
}

#[test]
fn partition_concatenates_to_input() {
    let items: Vec<u32> = (0..14).collect();
    let chunks = partition(items.clone(), 6);
    let sizes: Vec<usize> = chunks.iter().map(|c| c.len()).collect();
    assert_eq!(sizes, vec![2, 2, 2, 2, 2, 4]);
    let flat: Vec<u32> = chunks.into_iter().flatten().collect();
    assert_eq!(flat, items);
}

#[test]
fn partition_with_fewer_items_than_workers() {
    let chunks = partition(vec!['a', 'b', 'c'], 6);
    assert_eq!(chunks.len(), 6);
    for c in &chunks[..5] {
        assert!(c.is_empty());
    }
    assert_eq!(chunks[5], vec!['a', 'b', 'c']);
    assert!(partition(Vec::<u8>::new(), 3).iter().all(|c| c.is_empty()));
}

#[test]
fn rules_ignore_case_unless_asked() {
    let loose = rule("key", "api_key");
    assert!(loose.find_in("+API_KEY=1").is_some());
    let explicit = Pattern::new("key".to_string(), "api_key".to_string(), None, Some(false));
    assert!(explicit.find_in("+Api_Key=1").is_some());
    let strict = Pattern::new("key".to_string(), "api_key".to_string(), None, Some(true));
    assert!(strict.find_in("+API_KEY=1").is_none());
    assert!(strict.find_in("+api_key=1").is_some());
}

#[test]
fn disabled_or_broken_rules_are_inert() {
    let off = Pattern::new("x".to_string(), "a".to_string(), Some(false), None);
    assert!(off.regex.is_none());
    assert!(off.find_in("+a").is_none());
    let broken = rule("x", "foo(bar");
    assert!(broken.regex.is_none());
    assert!(broken.find_in("+foo(bar").is_none());
}

#[test]
fn change_type_follows_marker() {
    let ps = vec![rule("tok", "token")];
    let c = commit("h1", "2020-01-01T00:00:00+00:00");
    let repo = "repo".to_string();
    let file = "a.txt".to_string();
    let added = check_patterns(&ps, "+token", &repo, &file, &c);
    assert_eq!(added.len(), 1);
    assert_eq!(added[0].change_type, ChangeType::Addition);
    let removed = check_patterns(&ps, "-token", &repo, &file, &c);
    assert_eq!(removed.len(), 1);
    assert_eq!(removed[0].change_type, ChangeType::Removal);
    assert!(check_patterns(&ps, "@@ -1 +1 @@ token", &repo, &file, &c).is_empty());
    assert!(check_patterns(&ps, "xtoken", &repo, &file, &c).is_empty());
    assert!(check_patterns(&ps, "", &repo, &file, &c).is_empty());
}

#[test]
fn match_text_drops_marker_and_space() {
    let ps = vec![rule("secret", r"secretToken=\w+")];
    let c = commit("abc", "2021-05-01T10:00:00+02:00");
    let found = check_patterns(&ps, "+secretToken=ABC123", &"repo".to_string(), &"conf.ini".to_string(), &c);
    assert_eq!(found.len(), 1);
    let m = &found[0];
    assert_eq!(m.text, "secretToken=ABC123");
    assert_eq!(m.description, "secret");
    assert_eq!(m.file, "conf.ini");
    assert_eq!(m.full_path, "repo/conf.ini");
    assert_eq!(m.repo_path, "repo");
    assert_eq!(m.match_type, MatchType::Pattern);
    assert_eq!(m.commit_hash, "abc");
    assert_eq!(m.commit_date, "2021-05-01T10:00:00+02:00");
}

#[test]
fn match_at_marker_position_loses_marker() {
    let ps = vec![rule("all", ".+")];
    let c = commit("h", "d");
    let found = check_patterns(&ps, "+  value x ", &"r".to_string(), &"f".to_string(), &c);
    assert_eq!(found.len(), 1);
    assert_eq!(found[0].text, "value x");
}

#[test]
fn several_rules_match_one_line() {
    let ps = vec![rule("one", "pass"), rule("two", "word"), rule("three", "zzz")];
    let c = commit("h", "d");
    let found = check_patterns(&ps, "-password", &"r".to_string(), &"f".to_string(), &c);
    let names: Vec<&str> = found.iter().map(|m| m.description.as_str()).collect();
    assert_eq!(names, vec!["one", "two"]);
    assert_eq!(found[0].text, "pass");
    assert_eq!(found[1].text, "word");
}

#[test]
fn binary_capture_round_trips_through_base64() {
    let bytes: Vec<u8> = vec![0, 159, 146, 150, 255, 10, 13, 65];
    let c = commit("h", "d");
    let m = file_match(&"PEM file".to_string(), true, &"config.pem".to_string(), &bytes, &"repo".to_string(), &c);
    assert_eq!(m.text, "AJ+Slv8KDUE=");
    assert_eq!(base64::decode(&m.text).unwrap(), bytes);
    assert_ne!(m.text.as_bytes(), bytes.as_slice());
    assert_eq!(m.match_type, MatchType::File);
    assert_eq!(m.change_type, ChangeType::Unknown);
    assert_eq!(m.full_path, "repo/config.pem");
}

#[test]
fn text_capture_is_decoded_lossily() {
    let c = commit("h", "d");
    let m = file_match(&"key".to_string(), false, &"k.txt".to_string(), &vec![b'h', b'i', 0xff], &"r".to_string(), &c);
    assert_eq!(m.text, "hi\u{fffd}");
    let plain = file_match(&"key".to_string(), false, &"k.txt".to_string(), &b"key=1".to_vec(), &"r".to_string(), &c);
    assert_eq!(plain.text, "key=1");
}

fn found(text: &str, match_type: MatchType) -> PatternMatch {
    PatternMatch {
        description: "d".to_string(),
        text: text.to_string(),
        repo_path: "r".to_string(),
        file: "f".to_string(),
        full_path: "r/f".to_string(),
        match_type,
        change_type: ChangeType::Addition,
        commit_hash: "h".to_string(),
        commit_date: "d".to_string(),
    }
}

#[test]
fn enabled_filter_suppresses_match() {
    let m = found("password=demo", MatchType::Pattern);
    let on = vec![rule("demo", "demo")];
    assert!(!accepts(&on, &m));
    let off = vec![Pattern::new("demo".to_string(), "demo".to_string(), Some(false), None)];
    assert!(accepts(&off, &m));
    assert!(accepts(&vec![], &m));
    assert!(accepts(&vec![rule("other", "xyz")], &m));
}

#[test]
fn filters_skip_file_captures() {
    let on = vec![rule("demo", "demo")];
    assert!(accepts(&on, &found("demo", MatchType::File)));
    let kept = select_accepted(&on, vec![
        found("password=demo", MatchType::Pattern),
        found("password=real", MatchType::Pattern),
        found("demo", MatchType::File),
    ]);
    let texts: Vec<&str> = kept.iter().map(|m| m.text.as_str()).collect();
    assert_eq!(texts, vec!["password=real", "demo"]);
}

#[test]
fn fallback_read_gives_same_record() {
    let diff = "diff --git a/keys/new.pem b/keys/new.pem\nsimilarity index 90%\nrename from keys/old.pem\nrename to keys/new.pem\nindex 1111111..deadbee 100644\n";
    let events = parse_diff(diff, &vec![pem_rule()]);
    assert_eq!(events.len(), 1);
    let (file, blob) = match &events[0] {
        DiffEvent::Capture { file, blob, .. } => (file.clone(), blob.clone()),
        _ => panic!("expected a capture"),
    };
    assert_eq!(file, "keys/new.pem");
    assert_eq!(blob, "deadbee");
    let content = b"-----BEGIN KEY-----".to_vec();
    let direct: Vec<u8> = Vec::new();
    assert!(needs_path_read(&direct));
    assert!(!needs_path_read(&content));
    let c = commit("c1", "d");
    let repo = "repo".to_string();
    let via_path = scan_commit(&vec![], &events, &vec![content.clone()], &repo, &c);
    let via_blob = file_match(&"PEM file".to_string(), true, &file, &content, &repo, &c);
    assert_eq!(via_path.len(), 1);
    assert_eq!(via_path[0].text, via_blob.text);
    assert_eq!(via_path[0].file, via_blob.file);
    assert_eq!(via_path[0].full_path, via_blob.full_path);
}

#[test]
fn two_commit_history_yields_two_rows() {
    let patterns = vec![rule("API key", r"api_key: \w+")];
    let files = vec![pem_rule()];
    let repo = "/work/repo".to_string();
    let pem = vec![1u8, 2, 3, 250];

    let first = commit("c1", "2020-01-01T00:00:00+00:00");
    let diff1 = "diff --git a/config.pem b/config.pem\nnew file mode 100644\nindex 0000000..a1b2c3d\nBinary files /dev/null and b/config.pem differ\n";
    let ev1 = parse_diff(diff1, &files);
    let rows1 = scan_commit(&patterns, &ev1, &vec![pem.clone()], &repo, &first);

    let second = commit("c2", "2020-01-02T00:00:00+00:00");
    let diff2 = "diff --git a/settings.yml b/settings.yml\nindex 3333333..4444444 100644\n--- a/settings.yml\n+++ b/settings.yml\n@@ -0,0 +1 @@\n+api_key: XYZ\n";
    let ev2 = parse_diff(diff2, &files);
    let rows2 = scan_commit(&patterns, &ev2, &vec![], &repo, &second);

    let mut all = rows1;
    all.extend(rows2);
    let out = select_accepted(&vec![], all);
    assert_eq!(out.len(), 2);
    assert_eq!(out[0].match_type, MatchType::File);
    assert_eq!(out[0].file, "config.pem");
    assert_eq!(out[0].full_path, "/work/repo/config.pem");
    assert_eq!(base64::decode(&out[0].text).unwrap(), pem);
    assert_eq!(out[0].commit_hash, "c1");
    assert_eq!(out[1].match_type, MatchType::Pattern);
    assert_eq!(out[1].text, "api_key: XYZ");
    assert_eq!(out[1].file, "settings.yml");
    assert_eq!(out[1].change_type, ChangeType::Addition);
    assert_eq!(out[1].commit_hash, "c2");
}

#[test]
fn untracked_file_lines_are_forwarded() {
    let diff = "diff --git a/src/x.rs b/src/x.rs\nindex 1..2 100644\n--- a/src/x.rs\n+++ b/src/x.rs\n@@ -1 +1 @@\n-old\n+  new  \n";
    let events = parse_diff(diff, &vec![pem_rule()]);
    let lines: Vec<(String, String)> = events
        .iter()
        .map(|e| match e {
            DiffEvent::Line { file, line } => (file.clone(), line.clone()),
            _ => panic!("no capture expected"),
        })
        .collect();
    assert_eq!(lines.len(), 6);
    assert!(lines.iter().all(|(f, _)| f == "src/x.rs"));
    assert_eq!(lines[4].1, "-old");
    assert_eq!(lines[5].1, "+  new");
}

#[test]
fn tracked_file_capture_emitted_at_next_header_and_lines_hidden() {
    let diff = "diff --git a/a.pem b/a.pem\nindex 0000000..aaaaaaa\n+secret line\ndiff --git a/b.txt b/b.txt\n+other\n";
    let events = parse_diff(diff, &vec![pem_rule()]);
    assert_eq!(events.len(), 2);
    match &events[0] {
        DiffEvent::Capture { file, blob, description, binary } => {
            assert_eq!(file, "a.pem");
            assert_eq!(blob, "aaaaaaa");
            assert_eq!(description, "PEM file");
            assert!(*binary);
        }
        _ => panic!("expected a capture"),
    }
    match &events[1] {
        DiffEvent::Line { file, line } => {
            assert_eq!(file, "b.txt");
            assert_eq!(line, "+other");
        }
        _ => panic!("expected a line"),
    }
}

#[test]
fn tracked_file_without_index_is_not_captured() {
    let diff = "diff --git a/a.pem b/a.pem\nBinary files differ\n";
    assert!(parse_diff(diff, &vec![pem_rule()]).is_empty());
}

#[test]
fn path_holding_b_slash_is_cut_short() {
    let diff = "diff --git a/dir b/x.txt b/dir b/x.txt\n+k\n";
    let events = parse_diff(diff, &vec![]);
    assert_eq!(events.len(), 1);
    match &events[0] {
        DiffEvent::Line { file, .. } => assert_eq!(file, "dir"),
        _ => panic!("expected a line"),
    }
}

#[test]
fn overlong_lines_are_skipped() {
    let long = format!("+{}", "a".repeat(MAX_LINE_CHARS));
    let ok = format!("+{}", "a".repeat(MAX_LINE_CHARS - 1));
    let diff = format!("diff --git a/f b/f\n{}\n{}\n", long, ok);
    let events = parse_diff(&diff, &vec![]);
    assert_eq!(events.len(), 1);
    match &events[0] {
        DiffEvent::Line { line, .. } => assert_eq!(line.chars().count(), MAX_LINE_CHARS),
        _ => panic!("expected a line"),
    }
}

#[test]
fn commit_listing_is_parsed_in_order() {
    let client = GitClient::new("repo".to_string());
    assert_eq!(client.repo_path, "repo");
    let listing = "aaa 2020-01-01T00:00:00+00:00\r\n\nbbb   2020-01-02T00:00:00+00:00 extra\nonlyhash\n";
    let commits = client.get_commits(listing);
    assert_eq!(commits.len(), 2);
    assert_eq!(commits[0].hash, "aaa");
    assert_eq!(commits[0].date, "2020-01-01T00:00:00+00:00");
    assert_eq!(commits[1].hash, "bbb");
    assert_eq!(commits[1].date, "2020-01-02T00:00:00+00:00");
    assert!(commits.iter().all(|c| c.client.is_none()));
    assert!(client.get_commits("").is_empty());
}

#[test]
fn tool_output_is_decoded() {
    let client = GitClient::new("repo".to_string());
    assert_eq!(client.get_commit_content(&b"+a\n-b".to_vec()), "+a\n-b");
    assert_eq!(client.get_commit_content(&vec![0xc3, 0x28]), "\u{fffd}(");
    let names = client.get_file_names_for_commit(&b"a.txt\r\nb/c.pem\n".to_vec());
    assert_eq!(names, vec!["a.txt".to_string(), "b/c.pem".to_string()]);
}

#[test]
fn paths_join_like_std() {
    let j = |a: &str, b: &str| join_path(&a.to_string(), &b.to_string());
    assert_eq!(j("repo", "a/b.txt"), "repo/a/b.txt");
    assert_eq!(j("repo/", "a"), "repo/a");
    assert_eq!(j("repo", "/abs"), "/abs");
    assert_eq!(j("", "a"), "a");
}

#[test]
fn history_listing_arguments() {
    assert_eq!(
        GitClient::log_args(None, None),
        vec!["log".to_string(), "--format=%H %aI".to_string(), "--branches=*".to_string()]
    );
    let bounded = GitClient::log_args(Some("Jan 1, 2018"), Some("2 weeks ago"));
    assert_eq!(bounded.len(), 5);
    assert_eq!(bounded[3], "--since=\"Jan 1, 2018\"");
    assert_eq!(bounded[4], "--until=\"2 weeks ago\"");
    let only_until = GitClient::log_args(None, Some("today"));
    assert_eq!(only_until[3], "--until=\"today\"");
}

#[test]
fn show_object_names() {
    assert_eq!(GitClient::show_object("abc123", None), "abc123");
    assert_eq!(GitClient::show_object("c1", Some(&"dir/k.pem".to_string())), "c1:dir/k.pem");
}

#[test]
fn diff_and_name_arguments() {
    let c = commit("abc", "d");
    assert_eq!(GitClient::diff_args(&c), vec!["diff".to_string(), "-U0".to_string(), "abc^!".to_string()]);
    assert_eq!(
        GitClient::file_names_args(&c),
        vec!["diff".to_string(), "--name-only".to_string(), "abc".to_string()]
    );
}
