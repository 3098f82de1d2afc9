use base64::Engine;
use transmission_loader::entry::{Entry, Schema, Subdirectories};
use transmission_loader::path::join_dir;
use transmission_loader::pipeline::Pipeline;
use transmission_loader::config::{Config, DEFAULT_URL};
use transmission_loader::session::{
    default_headers, session_token, Arguments, Authentication, Request, Session,
    TorrentAddResponse, SESSION_GET_BODY, SESSION_ID_HEADER,
};
use transmission_loader::torrent::{is_url, Torrent};

fn leaf(torrents: &[&str]) -> Entry {
    Entry {
        torrents: torrents.iter().map(|t| t.to_string()).collect(),
        children: None,
    }
}

fn group(torrents: &[&str], children: Vec<(&str, Entry)>) -> Entry {
    Entry {
        torrents: torrents.iter().map(|t| t.to_string()).collect(),
        children: Some(Subdirectories(
            children.into_iter().map(|(n, e)| (n.to_string(), e)).collect(),
        )),
    }
}

fn job(filename: &str, download_dir: &str) -> Schema {
    Schema {
        filename: filename.to_string(),
        download_dir: download_dir.to_string(),
    }
}

fn pairs(jobs: &[Schema]) -> Vec<(String, String)> {
    let mut v: Vec<(String, String)> = jobs
        .iter()
        .map(|j| (j.filename.clone(), j.download_dir.clone()))
        .collect();
    v.sort();
    v
}

fn sample_tree() -> Entry {
    group(
        &[],
        vec![
            ("books", leaf(&["b.torrent", "c.torrent"])),
            ("movies", leaf(&["a.torrent"])),
        ],
    )
}

#[test]
fn traversal_of_sample_config() {
    let jobs = sample_tree().traverse("/downloads");
    assert_eq!(
        pairs(&jobs),
        vec![
            ("a.torrent".to_string(), "/downloads/movies".to_string()),
            ("b.torrent".to_string(), "/downloads/books".to_string()),
            ("c.torrent".to_string(), "/downloads/books".to_string()),
        ]
    );
}

#[test]
fn empty_tree_gives_no_jobs() {
    assert!(leaf(&[]).traverse("/downloads").is_empty());
    assert!(group(&[], vec![("x", leaf(&[]))]).traverse("/d").is_empty());
}

#[test]
fn job_count_matches_declared_sources() {
    let tree = group(
        &["r1", "r2"],
        vec![
            ("a", group(&["a1"], vec![("b", leaf(&["b1", "b2", "b3"]))])),
            ("c", leaf(&[])),
            ("d", leaf(&["d1"])),
        ],
    );
    assert_eq!(tree.traverse("/root").len(), 7);
}

#[test]
fn nested_directories_are_joined() {
    let tree = group(
        &["top"],
        vec![("g1", group(&[], vec![("g2", group(&[], vec![("g3", leaf(&["deep"]))]))]))],
    );
    let jobs = tree.traverse("/srv");
    assert_eq!(jobs, vec![job("top", "/srv"), job("deep", "/srv/g1/g2/g3")]);
}

#[test]
fn root_sources_keep_base_directory() {
    let jobs = leaf(&["x", "y"]).traverse("/base/");
    assert_eq!(jobs, vec![job("x", "/base/"), job("y", "/base/")]);
    let jobs = group(&[], vec![("sub", leaf(&["z"]))]).traverse("/base/");
    assert_eq!(jobs, vec![job("z", "/base/sub")]);
}

#[test]
fn traversal_is_reproducible() {
    let tree = sample_tree();
    let first = tree.traverse("/downloads");
    let second = tree.traverse("/downloads");
    assert_eq!(first, second);
}

#[test]
fn join_dir_cases() {
    assert_eq!(join_dir("/downloads", "movies"), "/downloads/movies");
    assert_eq!(join_dir("/downloads/", "movies"), "/downloads/movies");
    assert_eq!(join_dir("", "movies"), "movies");
    assert_eq!(join_dir("/downloads", "/abs"), "/abs");
    assert_eq!(join_dir("/downloads", ""), "/downloads/");
    assert_eq!(join_dir("/a", "../b"), "/a/../b");
}

#[test]
fn classify_url_is_reference() {
    let source = "https://example.org/a.torrent";
    assert!(is_url(source));
    let t = Torrent::classify(job(source, "/d"), None);
    assert_eq!(
        t,
        Torrent::File {
            filename: source.to_string(),
            download_dir: "/d".to_string()
        }
    );
}

#[test]
fn classify_url_ignores_file_contents() {
    let source = "https://example.org/a.torrent";
    let t = Torrent::classify(job(source, "/d"), Some(vec![1, 2, 3]));
    assert_eq!(
        t,
        Torrent::File {
            filename: source.to_string(),
            download_dir: "/d".to_string()
        }
    );
}

#[test]
fn classify_local_file_embeds_content() {
    let bytes: Vec<u8> = vec![0xff, 0xec, 0x20, 0x55, 0x00, b'd', b'8'];
    assert!(!is_url("local/a.torrent"));
    let t = Torrent::classify(job("local/a.torrent", "/d/x"), Some(bytes.clone()));
    match t {
        Torrent::Metainfo {
            metainfo,
            download_dir,
        } => {
            assert_eq!(metainfo, "/+wgVQBkOA==");
            assert_eq!(
                base64::prelude::BASE64_STANDARD.decode(metainfo).unwrap(),
                bytes
            );
            assert_eq!(download_dir, "/d/x");
        }
        other => panic!("expected embedded content, got {:?}", other),
    }
}

#[test]
fn classify_empty_file_embeds_empty_content() {
    let t = Torrent::classify(job("empty.torrent", "/d"), Some(Vec::new()));
    assert_eq!(
        t,
        Torrent::Metainfo {
            metainfo: String::new(),
            download_dir: "/d".to_string()
        }
    );
}

#[test]
fn classify_magnet_passes_through() {
    let source = "magnet:?xt=urn:btih:XYZ";
    let t = Torrent::classify(job(source, "/d"), None);
    assert_eq!(
        t,
        Torrent::File {
            filename: source.to_string(),
            download_dir: "/d".to_string()
        }
    );
}

#[test]
fn classify_unreadable_path_passes_through() {
    let source = "0123456789abcdef0123456789abcdef01234567";
    assert!(!is_url(source));
    let t = Torrent::classify(job(source, "/d"), None);
    assert_eq!(
        t,
        Torrent::File {
            filename: source.to_string(),
            download_dir: "/d".to_string()
        }
    );
}

#[test]
fn from_parts_follows_the_decision_order() {
    let j = job("src", "/d");
    assert_eq!(
        Torrent::from_parts(j.clone(), true, Some("QUJD".to_string())),
        Torrent::File {
            filename: "src".to_string(),
            download_dir: "/d".to_string()
        }
    );
    assert_eq!(
        Torrent::from_parts(j.clone(), false, Some("QUJD".to_string())),
        Torrent::Metainfo {
            metainfo: "QUJD".to_string(),
            download_dir: "/d".to_string()
        }
    );
    assert_eq!(
        Torrent::from_parts(j, false, None),
        Torrent::File {
            filename: "src".to_string(),
            download_dir: "/d".to_string()
        }
    );
}

#[test]
fn conflict_probe_sets_session_header() {
    let token = session_token(409, Some("abc123".to_string()));
    assert_eq!(token, Some("abc123".to_string()));
    let headers = default_headers(&token);
    assert_eq!(
        headers,
        vec![(SESSION_ID_HEADER.to_string(), "abc123".to_string())]
    );
    assert_eq!(SESSION_ID_HEADER, "X-Transmission-Session-Id");
    assert_eq!(SESSION_GET_BODY, r#"{"method":"session-get"}"#);
}

#[test]
fn other_probe_answers_give_no_session_header() {
    assert_eq!(session_token(200, Some("abc123".to_string())), None);
    assert_eq!(session_token(409, None), None);
    assert!(default_headers(&None).is_empty());
}

#[test]
fn credentials_need_both_parts() {
    let both = Authentication {
        username: Some("u".to_string()),
        password: Some("p".to_string()),
    };
    let c = both.credentials().unwrap();
    assert_eq!(c.username, "u");
    assert_eq!(c.password, "p");
    let only_user = Authentication {
        username: Some("u".to_string()),
        password: None,
    };
    assert!(only_user.credentials().is_none());
    let only_password = Authentication {
        username: None,
        password: Some("p".to_string()),
    };
    assert!(only_password.credentials().is_none());
}

fn config(url: Option<&str>, concurrency: Option<usize>) -> Config {
    Config {
        url: url.map(|u| u.to_string()),
        auth: Authentication {
            username: None,
            password: None,
        },
        concurrency,
        root: leaf(&[]),
    }
}

#[test]
fn config_defaults() {
    assert_eq!(config(None, None).rpc_url(), DEFAULT_URL);
    assert_eq!(DEFAULT_URL, "http://localhost:9091/transmission/rpc");
    assert_eq!(
        config(Some("http://host:1/rpc"), None).rpc_url(),
        "http://host:1/rpc"
    );
    assert_eq!(config(None, None).concurrency_limit(), 4);
    assert_eq!(config(None, Some(0)).concurrency_limit(), 4);
    assert_eq!(config(None, Some(1)).concurrency_limit(), 1);
    assert_eq!(config(None, Some(9)).concurrency_limit(), 9);
}

#[test]
fn add_response_success_and_failure() {
    let ok = TorrentAddResponse {
        result: "success".to_string(),
    };
    assert!(ok.check().is_ok());
    let bad = TorrentAddResponse {
        result: "duplicate torrent".to_string(),
    };
    assert_eq!(bad.check().unwrap_err().result, "duplicate torrent");
}

#[test]
fn pipeline_never_exceeds_limit() {
    let jobs: Vec<Schema> = (0..7).map(|i| job(&format!("t{}", i), "/d")).collect();
    let mut p = Pipeline::new(jobs, 3);
    let mut sent = Vec::new();
    while let Some(j) = p.dispatch() {
        sent.push(j);
    }
    assert_eq!(p.in_flight(), 3);
    assert_eq!(sent.len(), 3);
    p.complete();
    assert_eq!(p.in_flight(), 2);
    while !p.is_finished() {
        while let Some(j) = p.dispatch() {
            sent.push(j);
            assert!(p.in_flight() <= p.limit());
        }
        p.complete();
    }
    assert_eq!(p.in_flight(), 0);
    assert_eq!(sent.len(), 7);
    assert_eq!(sent[6], job("t6", "/d"));
}

#[test]
fn one_failure_does_not_stop_the_others() {
    let jobs = sample_tree().traverse("/downloads");
    let mut p = Pipeline::new(jobs, 4);
    let mut outcomes = Vec::new();
    let mut sent = Vec::new();
    while let Some(j) = p.dispatch() {
        sent.push(j);
    }
    assert_eq!(sent.len(), 3);
    for j in &sent {
        let result = if j.filename == "b.torrent" {
            "duplicate torrent"
        } else {
            "success"
        };
        let response = TorrentAddResponse {
            result: result.to_string(),
        };
        outcomes.push((j.filename.clone(), response.check().is_ok()));
        p.complete();
    }
    assert!(p.is_finished());
    outcomes.sort();
    assert_eq!(
        outcomes,
        vec![
            ("a.torrent".to_string(), true),
            ("b.torrent".to_string(), false),
            ("c.torrent".to_string(), true),
        ]
    );
}

#[test]
fn unique_names_are_recognised() {
    assert!(sample_tree().has_unique_names());
    assert!(leaf(&["a"]).has_unique_names());
    let same_level = group(&[], vec![("x", leaf(&["a"])), ("y", leaf(&[])), ("x", leaf(&[]))]);
    assert!(!same_level.has_unique_names());
    let nested = group(
        &[],
        vec![("x", group(&[], vec![("d", leaf(&[])), ("d", leaf(&["b"]))]))],
    );
    assert!(!nested.has_unique_names());
    let cousins = group(
        &[],
        vec![("x", group(&[], vec![("d", leaf(&[]))])), ("y", group(&[], vec![("d", leaf(&[]))]))],
    );
    assert!(cousins.has_unique_names());
}

#[test]
fn torrent_add_request_wraps_classified_source() {
    let t = Torrent::classify(job("https://example.org/a.torrent", "/d"), None);
    let r = Request::torrent_add(t.clone());
    assert_eq!(r.method, "torrent-add");
    assert_eq!(r.arguments, t);
}

#[test]
fn session_download_dir_roots_traversal() {
    let s = Session {
        arguments: Arguments {
            download_dir: "/downloads".to_string(),
        },
    };
    assert_eq!(s.download_dir(), "/downloads");
    let jobs = sample_tree().traverse(s.download_dir());
    assert_eq!(jobs.len(), 3);
}
