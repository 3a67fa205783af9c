use miri_the_world::aggregate::{
    dedup_names, landing_page, list_finished, render_ub, sort_listing,
};
use miri_the_world::compress::{xz_compress, xz_decompress};
use miri_the_world::model::{Cause, Crate, Status, Tool, Version};
use miri_the_world::orchestrate::{
    conclude_run, finish_transcript, is_ignored, pick_crates, request_line, select_pending,
    sentinel_line, split_key, transcript_complete, UploadCmd,
};
use miri_the_world::version_ord::compare_versions;

fn pkg(name: &str, version: &str) -> Crate {
    Crate {
        name: name.to_string(),
        version: Version::parse(version),
        recent_downloads: None,
        status: Status::Unknown,
    }
}

#[test]
fn tool_paths() {
    let k = pkg("serde", "1.0.0");
    assert_eq!(Tool::Miri.raw_path(), "miri/raw");
    assert_eq!(Tool::Asan.html_path(), "asan/logs");
    assert_eq!(Tool::Miri.raw_crate_path(&k), "miri/raw/serde/1.0.0");
    assert_eq!(Tool::Check.rendered_crate_path(&k), "check/logs/serde/1.0.0");
    assert!(matches!(Tool::from_name("build"), Ok(Tool::Build)));
    assert!(Tool::from_name("fuzz").is_err());
}

#[test]
fn version_round_trips() {
    assert_eq!(Version::parse("1.2.3").to_str(), "1.2.3");
    assert_eq!(Version::parse("1.0.0-alpha.1+build5").to_str(), "1.0.0-alpha.1+build5");
    assert_eq!(Version::parse("not a version").to_str(), "not a version");
}

#[test]
fn version_ordering_rules() {
    let cmp = |a: &str, b: &str| compare_versions(&Version::parse(a), &Version::parse(b));
    assert_eq!(cmp("1.9.0", "1.10.0"), -1);
    assert_eq!(cmp("1.0.0-alpha", "1.0.0"), -1);
    assert_eq!(cmp("1.0.0-alpha.9", "1.0.0-alpha.10"), -1);
    assert_eq!(cmp("1.0.0-alpha", "1.0.0-alpha.1"), -1);
    assert_eq!(cmp("1.0.0-1", "1.0.0-zz"), -1);
    assert_eq!(cmp("2.0.0", "2.0.0"), 0);
    // versions that did not parse rank above all parsed ones
    assert_eq!(cmp("zzz", "999.999.999"), 1);
}

#[test]
fn sentinel_framing() {
    let token: Vec<u8> = b"RUN".to_vec();
    let sent = sentinel_line(&token);
    assert_eq!(sent, b"-RUN-\n".to_vec());
    let mut buf: Vec<u8> = b"some output\n".to_vec();
    assert!(!transcript_complete(&buf, &sent));
    buf.extend_from_slice(&sent);
    assert!(transcript_complete(&buf, &sent));
    assert_eq!(finish_transcript(&buf, &sent), b"some output\n".to_vec());
}

#[test]
fn echo_worker_uploads_one_object_per_package() {
    // a mock worker that echoes the request and then the sentinel
    let token: Vec<u8> = b"UUID".to_vec();
    let sent = sentinel_line(&token);
    let packages = vec![pkg("a", "1.0.0"), pkg("b", "2.0.0"), pkg("c", "3.0.0")];
    let mut uploads: Vec<UploadCmd> = Vec::new();
    for k in &packages {
        let request = request_line(k);
        let mut out: Vec<u8> = request.as_bytes().to_vec();
        out.extend_from_slice(&sent);
        if let Some(cmd) = conclude_run(Tool::Miri, k, &out, &sent, false) {
            uploads.push(cmd);
        }
    }
    assert_eq!(uploads.len(), 3);
    assert_eq!(uploads[0].key, "miri/raw/a/1.0.0");
    assert_eq!(uploads[1].key, "miri/raw/b/2.0.0");
    assert_eq!(uploads[2].key, "miri/raw/c/3.0.0");
    let body = xz_decompress(&uploads[1].body).unwrap();
    assert_eq!(body, b"b@2.0.0\n".to_vec());
}

#[test]
fn crashed_worker_run_is_discarded() {
    let token: Vec<u8> = b"UUID".to_vec();
    let sent = sentinel_line(&token);
    let packages =
        vec![pkg("a", "1.0.0"), pkg("b", "1.0.0"), pkg("c", "1.0.0"), pkg("d", "1.0.0")];
    let crash_at = 2usize;
    let mut uploads: Vec<UploadCmd> = Vec::new();
    for (i, k) in packages.iter().enumerate() {
        let request = request_line(k);
        let mut out: Vec<u8> = request.as_bytes().to_vec();
        out.extend_from_slice(&sent);
        let crashed = i == crash_at;
        if let Some(cmd) = conclude_run(Tool::Miri, k, &out, &sent, crashed) {
            uploads.push(cmd);
        }
        // after a crash the orchestrator stands up a fresh worker and
        // goes on with the next package
    }
    assert_eq!(uploads.len(), 3);
    assert!(uploads.iter().all(|u| !u.key.contains("/c/")));
}

#[test]
fn rerun_false_with_full_store_selects_nothing() {
    let crates = vec![pkg("a", "1.0.0"), pkg("b", "2.0.0")];
    let fins = vec![
        ("a".to_string(), "1.0.0".to_string()),
        ("b".to_string(), "2.0.0".to_string()),
    ];
    let pending = select_pending(crates, &fins, false, false);
    assert!(pending.is_empty());
}

#[test]
fn pending_list_is_reversed_for_popping() {
    let crates = vec![pkg("a", "1.0.0"), pkg("b", "1.0.0"), pkg("c", "1.0.0")];
    let fins: Vec<(String, String)> = vec![("b".to_string(), "1.0.0".to_string())];
    let pending = select_pending(crates, &fins, false, false);
    let names: Vec<&str> = pending.iter().map(|c| c.name.as_str()).collect();
    assert_eq!(names, vec!["c", "a"]);
    let crates = vec![pkg("a", "1.0.0"), pkg("b", "1.0.0")];
    let pending = select_pending(crates, &fins, true, true);
    let names: Vec<&str> = pending.iter().map(|c| c.name.as_str()).collect();
    assert_eq!(names, vec!["a", "b"]);
}

#[test]
fn ignore_list() {
    assert!(is_ignored("stdweb"));
    assert!(is_ignored("clacks_mtproto"));
    assert!(!is_ignored("serde"));
}

#[test]
fn xz_round_trip() {
    let data: Vec<u8> = b"raw transcript bytes".to_vec();
    let packed = xz_compress(&data).unwrap();
    assert_eq!(xz_decompress(&packed).unwrap(), data);
}

#[test]
fn listing_sort_and_dedup() {
    let mut a = pkg("a", "1.0.0");
    a.recent_downloads = Some(10);
    let mut a2 = pkg("a", "2.0.0");
    a2.recent_downloads = Some(10);
    let mut b = pkg("b", "1.0.0");
    b.recent_downloads = Some(99);
    let c = pkg("c", "0.1.0");
    let sorted = sort_listing(vec![a, a2, b, c]);
    let names: Vec<String> =
        sorted.iter().map(|k| format!("{} {}", k.name, k.version.to_str())).collect();
    assert_eq!(names, vec!["b 1.0.0", "a 2.0.0", "a 1.0.0", "c 0.1.0"]);
    let deduped = dedup_names(sorted);
    let names: Vec<String> =
        deduped.iter().map(|k| format!("{} {}", k.name, k.version.to_str())).collect();
    assert_eq!(names, vec!["b 1.0.0", "a 2.0.0", "c 0.1.0"]);
}

#[test]
fn ub_listing_page() {
    let mut k = pkg("foo", "1.0.0");
    k.status = Status::UB {
        cause: vec![
            Cause { kind: "data race".to_string(), source_crate: None },
            Cause {
                kind: "invalid pointer offset".to_string(),
                source_crate: Some("bar-0.1.0".to_string()),
            },
        ],
    };
    let passing = pkg("ok", "1.0.0");
    let page = render_ub(&vec![k, passing]);
    assert!(page.contains(
        "<div class=\"row\">foo 1.0.0<br>data race, invalid pointer offset (bar-0.1.0)</div>"
    ));
    assert!(!page.contains("ok 1.0.0"));
}

#[test]
fn landing_page_map() {
    let keys = vec!["foo/1.0.0".to_string(), "noslash".to_string(), "bar/0.2.0".to_string()];
    let page = landing_page(&keys);
    assert!(page.contains("\"foo\": [\"1.0.0\"],"));
    assert!(page.ends_with("\"bar\": [\"0.2.0\"],};</script></html>"));
    assert!(!page.contains("noslash"));
}

#[test]
fn finished_listing_filters_by_age() {
    let entries = vec![
        ("miri/raw/a/1.0.0".to_string(), 1_000i64),
        ("miri/raw/b/1.0.0".to_string(), 100i64),
    ];
    let fresh = list_finished(entries, 1_010, 60);
    assert_eq!(fresh, vec!["miri/raw/a/1.0.0".to_string()]);
}

#[test]
fn crate_list_picking() {
    let mut reg_a = pkg("alpha", "1.2.3");
    reg_a.recent_downloads = Some(5);
    let reg_b = pkg("beta", "0.9.0");
    let all = vec![reg_a, reg_b];
    let picked = pick_crates(" alpha@2.0.0\nbeta\tunknown/1.0.0 alpha ", &all);
    let summary: Vec<String> = picked
        .iter()
        .map(|c| format!("{} {} {:?}", c.name, c.version.to_str(), c.recent_downloads))
        .collect();
    assert_eq!(
        summary,
        vec![
            "alpha 2.0.0 Some(5)".to_string(),
            "beta 0.9.0 None".to_string(),
            "alpha 1.2.3 Some(5)".to_string(),
        ]
    );
}

#[test]
fn storage_key_splitting() {
    assert_eq!(
        split_key("miri/raw/serde/1.0.219"),
        Some(("serde".to_string(), "1.0.219".to_string()))
    );
    assert_eq!(split_key("a/1.0.0"), Some(("a".to_string(), "1.0.0".to_string())));
    assert_eq!(split_key("noslash"), None);
}
