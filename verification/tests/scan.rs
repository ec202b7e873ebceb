use std::path::PathBuf;

use cratepro::progress::ProgressCounter;
use cratepro::scan::{
    join_path, scan_failure_message, scan_job, scan_jobs, Config, ToolConfig, GITLEAKS_CONFIG_PATH,
};
use cratepro::schema::{github_url_index, migration_name, programs_with_condition_table, ColumnType};

#[test]
fn join_path_matches_path_join() {
    for (base, part) in [
        ("/out", "tool"),
        ("/out/", "tool"),
        ("", "tool"),
        ("/out", "/abs"),
        ("rel", ""),
        ("a/b", "c/d"),
        ("/", "x"),
    ] {
        let expected = PathBuf::from(base).join(part);
        assert_eq!(join_path(base, part), expected.to_str().unwrap(), "{:?} + {:?}", base, part);
    }
}

#[test]
fn scan_job_paths_and_arguments() {
    let job = scan_job("/data/out", "sensleak", "tokio/tokio", "tokio-1.0.0");
    assert_eq!(job.tool_name, "sensleak");
    assert_eq!(job.output_dir, "/data/out/sensleak/tokio/tokio");
    assert_eq!(job.output_file, "/data/out/sensleak/tokio/tokio/tokio-1.0.0.txt");
    assert_eq!(
        job.args,
        vec![
            "--repo",
            "/var/target/new_crates_file/tokio/tokio",
            "--config",
            GITLEAKS_CONFIG_PATH,
            "-v",
            "--pretty",
            "--report",
            "/data/out/sensleak/tokio/tokio/tokio-1.0.0.txt",
        ]
    );
}

#[test]
fn one_job_per_run_entry() {
    let config = Config {
        tools: vec![
            ToolConfig {
                name: "a".to_string(),
                binary_path: "/bin/a".to_string(),
                run: vec!["x".to_string(), "y".to_string()],
            },
            ToolConfig { name: "b".to_string(), binary_path: "/bin/b".to_string(), run: vec![] },
            ToolConfig {
                name: "c".to_string(),
                binary_path: "/bin/c".to_string(),
                run: vec!["z".to_string()],
            },
        ],
    };
    let jobs = scan_jobs(&config, "/o", "ns", "k");
    let names: Vec<&str> = jobs.iter().map(|j| j.tool_name.as_str()).collect();
    assert_eq!(names, vec!["a", "a", "c"]);
    assert_eq!(jobs[2].output_file, "/o/c/ns/k.txt");
}

#[test]
fn scan_failure_text() {
    assert_eq!(
        scan_failure_message("sensleak", "boom"),
        "Failed to execute run command for sensleak: boom"
    );
}

#[test]
fn migration_schema() {
    assert_eq!(migration_name(), "m20260108_015909_add_programs_with_condition");
    let t = programs_with_condition_table();
    assert_eq!(t.name, "programs_with_condition");
    assert!(t.if_not_exists);
    let cols: Vec<(&str, ColumnType, bool)> =
        t.columns.iter().map(|c| (c.name.as_str(), c.column_type, c.primary_key)).collect();
    assert_eq!(
        cols,
        vec![
            ("id", ColumnType::Uuid, true),
            ("name", ColumnType::String, false),
            ("github_url", ColumnType::Text, false),
        ]
    );
    let i = github_url_index();
    assert_eq!(i.name, "idx-programs_cond_github_url");
    assert_eq!(i.table, "programs_with_condition");
    assert_eq!(i.columns, vec!["github_url"]);
    assert!(i.unique && i.if_not_exists);
}

#[test]
fn progress_reports_every_thousand() {
    let mut p = ProgressCounter::new();
    let mut reports = Vec::new();
    for _ in 0..2500 {
        if p.tick() {
            reports.push(p.handled());
        }
    }
    assert_eq!(reports, vec![1000, 2000]);
    assert_eq!(p.handled(), 2500);
}
