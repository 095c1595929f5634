use parser_ai::assemble::render_file_section;
use parser_ai::error::CommandError;
use parser_ai::fs_model::FsNode;
use parser_ai::paths::{get_content_path, get_metadata_path, get_parse_dir, get_tree_path};
use parser_ai::session::{
    derive_parse_id, format_timestamp, parse_files, sanitize_repo_url, ParseMetadata,
    SessionOutcome, SinkPlan, Timestamp,
};

fn text_file(name: &str, path: &str, content: &str) -> FsNode {
    FsNode::File {
        name: name.to_string(),
        path: path.to_string(),
        symlink: false,
        size: content.len() as u64,
        sample: Some(content.as_bytes().to_vec()),
        text: Some(content.to_string()),
    }
}

fn dir(name: &str, path: &str, children: Vec<FsNode>) -> FsNode {
    FsNode::Dir {
        name: name.to_string(),
        path: path.to_string(),
        symlink: false,
        children,
    }
}

fn ts() -> Timestamp {
    Timestamp { year: 2024, month: 1, day: 2, hour: 3, minute: 4, second: 5 }
}

#[test]
fn timestamp_formats_zero_padded() {
    assert_eq!(format_timestamp(&ts()), "2024-01-02_03-04-05");
    let t2 = Timestamp { year: 999, month: 12, day: 31, hour: 23, minute: 59, second: 58 };
    assert_eq!(format_timestamp(&t2), "0999-12-31_23-59-58");
}

#[test]
fn sanitize_strips_scheme_and_maps_special_characters() {
    assert_eq!(
        sanitize_repo_url("https://github.com/user/repo"),
        "github_com_user_repo"
    );
    assert_eq!(sanitize_repo_url("http://a.b/c"), "a_b_c");
    assert_eq!(sanitize_repo_url("plain-name_ok"), "plain-name_ok");
}

#[test]
fn sanitize_truncates_to_eighty_characters() {
    let long = "x".repeat(100);
    let out = sanitize_repo_url(&long);
    assert_eq!(out.len(), 80);
    assert!(out.chars().all(|c| c == 'x'));
}

#[test]
fn parse_id_with_and_without_remote() {
    assert_eq!(derive_parse_id("", &ts()), "2024-01-02_03-04-05");
    assert_eq!(
        derive_parse_id("https://github.com/u/r", &ts()),
        "github_com_u_r_2024-01-02_03-04-05"
    );
}

#[test]
fn artifact_paths_are_joined() {
    let parse_dir = get_parse_dir("/home/me/parser-ai", "scan1");
    assert_eq!(parse_dir, "/home/me/parser-ai/parsed-files/scan1");
    assert_eq!(get_content_path(&parse_dir), "/home/me/parser-ai/parsed-files/scan1/content.txt");
    assert_eq!(
        get_metadata_path(&parse_dir),
        "/home/me/parser-ai/parsed-files/scan1/metadata.json"
    );
    assert_eq!(get_tree_path(&parse_dir), "/home/me/parser-ai/parsed-files/scan1/tree.json");
}

#[test]
fn file_section_has_delimiter_content_and_blank_line() {
    assert_eq!(
        render_file_section("/r/a.txt", "hello"),
        "===== /r/a.txt =====\nhello\n"
    );
}

#[test]
fn command_error_keeps_its_message() {
    let e = CommandError::new("boom".to_string());
    assert_eq!(e.message(), "boom");
}

fn five_file_roots() -> Vec<FsNode> {
    vec![dir(
        "r",
        "/r",
        vec![
            text_file("f1", "/r/f1", "one"),
            text_file("f2", "/r/f2", "two"),
            dir(
                "sub",
                "/r/sub",
                vec![
                    text_file("f3", "/r/sub/f3", "three"),
                    text_file("f4", "/r/sub/f4", "four"),
                ],
            ),
            text_file("f5", "/r/f5", "five!"),
        ],
    )]
}

#[test]
fn progress_reports_count_off_every_file_then_terminate() {
    let roots = five_file_roots();
    let outcome = parse_files(&roots, "/app", "", &ts(), &SinkPlan { fail_after: None });
    match outcome {
        SessionOutcome::Completed { reports, .. } => {
            assert_eq!(reports.len(), 6);
            for (k, report) in reports.iter().take(5).enumerate() {
                assert_eq!(report.done, k + 1);
                assert_eq!(report.total, 5);
                assert!(report.result_path.is_none());
                let percent = report.done as f64 / report.total as f64 * 100.0;
                assert_eq!(percent, (k + 1) as f64 * 20.0);
            }
            let terminal = &reports[5];
            assert_eq!(terminal.done, 5);
            assert_eq!(terminal.total, 5);
            let percent = terminal.done as f64 / terminal.total as f64 * 100.0;
            assert_eq!(percent, 100.0);
            assert_eq!(
                terminal.result_path.as_deref(),
                Some("/app/parsed-files/2024-01-02_03-04-05/content.txt")
            );
        }
        SessionOutcome::Failed { .. } => panic!("session should complete"),
    }
}

#[test]
fn document_is_exact_concatenation_of_sections() {
    let roots = vec![dir(
        "r",
        "/r",
        vec![text_file("a.txt", "/r/a.txt", "alpha"), text_file("b.txt", "/r/b.txt", "beta")],
    )];
    let outcome = parse_files(&roots, "/app", "", &ts(), &SinkPlan { fail_after: None });
    match outcome {
        SessionOutcome::Completed { document, metadata, .. } => {
            assert_eq!(
                document,
                "===== /r/a.txt =====\nalpha\n===== /r/b.txt =====\nbeta\n"
            );
            assert_eq!(metadata.files_count, 2);
            assert_eq!(metadata.total_size, 9);
        }
        SessionOutcome::Failed { .. } => panic!("session should complete"),
    }
}

#[test]
fn failing_sink_leaves_no_metadata() {
    let roots = vec![dir(
        "r",
        "/r",
        vec![
            text_file("f1", "/r/f1", "one"),
            text_file("f2", "/r/f2", "two"),
            text_file("f3", "/r/f3", "three"),
        ],
    )];
    let outcome = parse_files(&roots, "/app", "", &ts(), &SinkPlan { fail_after: Some(2) });
    match outcome {
        SessionOutcome::Failed { document, reports } => {
            // the two accepted sections remain; the session is invisible
            // downstream because no metadata exists at all
            assert_eq!(document, "===== /r/f1 =====\none\n===== /r/f2 =====\ntwo\n");
            assert_eq!(reports.len(), 2);
            assert_eq!(reports[1].done, 2);
        }
        SessionOutcome::Completed { .. } => panic!("session should fail"),
    }
}

#[test]
fn generous_sink_budget_completes() {
    let roots = vec![dir("r", "/r", vec![text_file("f1", "/r/f1", "one")])];
    let outcome = parse_files(&roots, "/app", "", &ts(), &SinkPlan { fail_after: Some(1) });
    assert!(matches!(outcome, SessionOutcome::Completed { .. }));
}

#[test]
fn unreadable_text_file_is_skipped_silently() {
    let unreadable = FsNode::File {
        name: "gone".to_string(),
        path: "/r/gone".to_string(),
        symlink: false,
        size: 9,
        sample: Some(b"readable sample".to_vec()),
        text: None,
    };
    let roots = vec![dir("r", "/r", vec![text_file("f1", "/r/f1", "one"), unreadable])];
    let outcome = parse_files(&roots, "/app", "", &ts(), &SinkPlan { fail_after: None });
    match outcome {
        SessionOutcome::Completed { document, metadata, reports, .. } => {
            // the skipped file was counted up front but never written
            assert_eq!(document, "===== /r/f1 =====\none\n");
            assert_eq!(metadata.files_count, 1);
            assert_eq!(metadata.total_size, 3);
            assert_eq!(reports.len(), 2);
            assert_eq!(reports[0].done, 1);
            assert_eq!(reports[0].total, 2);
            assert_eq!(reports[1].done, 2);
        }
        SessionOutcome::Failed { .. } => panic!("session should complete"),
    }
}

#[test]
fn session_metadata_uses_remote_slug_identifier() {
    let roots = vec![dir("r", "/r", vec![text_file("f1", "/r/f1", "one")])];
    let outcome = parse_files(
        &roots,
        "/app",
        "https://github.com/u/r",
        &ts(),
        &SinkPlan { fail_after: None },
    );
    match outcome {
        SessionOutcome::Completed { metadata, .. } => {
            assert_eq!(metadata.id, "github_com_u_r_2024-01-02_03-04-05");
            assert_eq!(metadata.name, metadata.id);
            assert_eq!(metadata.remote_url, "https://github.com/u/r");
            assert_eq!(metadata.path, "/app/parsed-files/github_com_u_r_2024-01-02_03-04-05");
            assert_eq!(metadata.created_at, ts());
            assert_eq!(metadata.updated_at, ts());
        }
        SessionOutcome::Failed { .. } => panic!("session should complete"),
    }
}

#[test]
fn eager_tree_artifact_marks_skipped_files_with_zero_size() {
    let roots = vec![dir(
        "r",
        "/r",
        vec![
            text_file("f1", "/r/f1", "one"),
            FsNode::File {
                name: "b.bin".to_string(),
                path: "/r/b.bin".to_string(),
                symlink: false,
                size: 4,
                sample: Some(vec![0x00, 0x01, 0x02, 0x03]),
                text: None,
            },
        ],
    )];
    let outcome = parse_files(&roots, "/app", "", &ts(), &SinkPlan { fail_after: None });
    match outcome {
        SessionOutcome::Completed { tree, .. } => {
            assert_eq!(tree.len(), 1);
            match &tree[0] {
                parser_ai::tree::ParsedPath::Directory { size, children, .. } => {
                    assert_eq!(*size, 3);
                    assert_eq!(children.len(), 2);
                }
                _ => panic!("expected a directory"),
            }
        }
        SessionOutcome::Failed { .. } => panic!("session should complete"),
    }
}

fn sample_metadata() -> ParseMetadata {
    ParseMetadata {
        id: "id1".to_string(),
        name: "id1".to_string(),
        path: "/app/parsed-files/id1".to_string(),
        created_at: ts(),
        updated_at: ts(),
        files_count: 3,
        total_size: 12,
        remote_url: String::new(),
    }
}

#[test]
fn rename_changes_only_the_display_name() {
    let before = sample_metadata();
    let after = before.with_name("friendly".to_string());
    assert_eq!(after.name, "friendly");
    assert_eq!(after.id, before.id);
    assert_eq!(after.path, before.path);
    assert_eq!(after.created_at, before.created_at);
    assert_eq!(after.updated_at, before.updated_at);
    assert_eq!(after.files_count, before.files_count);
    assert_eq!(after.total_size, before.total_size);
    assert_eq!(after.remote_url, before.remote_url);
}

#[test]
fn content_update_refreshes_only_updated_at() {
    let before = sample_metadata();
    let later = Timestamp { year: 2025, month: 6, day: 7, hour: 8, minute: 9, second: 10 };
    let after = before.with_updated_at(later);
    assert_eq!(after.updated_at, later);
    assert_eq!(after.created_at, before.created_at);
    assert_eq!(after.id, before.id);
    assert_eq!(after.name, before.name);
    assert_eq!(after.files_count, before.files_count);
    assert_eq!(after.total_size, before.total_size);
}

#[test]
fn rerunning_a_session_at_another_time_gets_a_fresh_identifier() {
    let roots = vec![dir("r", "/r", vec![text_file("f1", "/r/f1", "one")])];
    let t1 = ts();
    let t2 = Timestamp { year: 2024, month: 1, day: 2, hour: 3, minute: 4, second: 6 };
    let first = parse_files(&roots, "/app", "", &t1, &SinkPlan { fail_after: None });
    let second = parse_files(&roots, "/app", "", &t2, &SinkPlan { fail_after: None });
    match (first, second) {
        (
            SessionOutcome::Completed { metadata: m1, .. },
            SessionOutcome::Completed { metadata: m2, .. },
        ) => {
            assert_ne!(m1.id, m2.id);
            assert_ne!(m1.path, m2.path);
        }
        _ => panic!("both sessions should complete"),
    }
}
