use batch_artifact_export::manifest::{entries_in_order, manifest_is_well_formed, text_before};
use batch_artifact_export::cli::parse_jobs;
use batch_artifact_export::digest::sha256_hex;
use batch_artifact_export::execute::{advance, start_job, Event, Stage};
use batch_artifact_export::manifest::{
    default_output_dir, default_report, default_timeout, Artifact, Converter, LoadedManifest,
    Manifest,
};
use batch_artifact_export::naming::{normalize_stem, output_name};
use batch_artifact_export::paths::{
    contains_parent, join_path, path_extension, path_file_name, path_file_stem, resolve,
    same_path_str,
};
use batch_artifact_export::plan::{
    converter_arguments, prepare_artifacts, run_failure_exit_code, sandbox_arguments,
    sandbox_plan, staged_input, substitute, temporary_output, work_root, worker_count,
};
use batch_artifact_export::report::{
    exit_code, parse_failure_report, summarize, validation_report, ArtifactReport, SandboxMode,
};
use batch_artifact_export::validate::{placeholders, validate, SourceCheck};

fn converter(name: &str, ext: &str) -> Converter {
    Converter {
        name: name.into(),
        command: "copy".into(),
        args: vec!["{input}".into(), "{output}".into()],
        output_extension: ext.into(),
        license: "MIT".into(),
        homepage: "https://example.com".into(),
        timeout_seconds: 30,
        environment: Vec::new(),
    }
}

fn artifact(source: &str, converter: &str, output: Option<&str>) -> Artifact {
    Artifact {
        source: source.into(),
        converter: converter.into(),
        output: output.map(|s| s.to_string()),
    }
}

fn loaded(converters: Vec<Converter>, artifacts: Vec<Artifact>) -> LoadedManifest {
    LoadedManifest {
        path: "/work/batch-export.toml".into(),
        directory: "/work".into(),
        manifest: Manifest {
            version: 1,
            output_dir: "out".into(),
            report: "out/report.json".into(),
            converters,
            artifacts,
        },
    }
}

fn files(l: &LoadedManifest) -> Vec<SourceCheck> {
    l.manifest.artifacts.iter().map(|_| SourceCheck::RegularFile).collect()
}

fn report(status: &str) -> ArtifactReport {
    ArtifactReport {
        source: "a.md".into(),
        output: "a.pdf".into(),
        converter: "copy".into(),
        status: status.into(),
        sandboxed: false,
        exit_code: Some(0),
        duration_ms: 5,
        input_sha256: None,
        output_sha256: None,
        error: None,
        stdout: String::new(),
        stderr: String::new(),
    }
}

#[test]
fn stem_keeps_words_and_drops_the_rest() {
    assert_eq!(normalize_stem("Hello, World"), "hello-world");
    assert_eq!(normalize_stem("--a--b--"), "a-b");
    assert_eq!(normalize_stem(""), "");
    assert_eq!(normalize_stem("ÄBC déf"), "bc-d-f");
}

#[test]
fn stem_is_capped_without_a_trailing_dash() {
    let long = format!("{} {}", "a".repeat(95), "b".repeat(10));
    let stem = normalize_stem(&long);
    assert_eq!(stem, "a".repeat(95));
    let exact = "c".repeat(200);
    assert_eq!(normalize_stem(&exact).len(), 96);
}

#[test]
fn stem_is_stable() {
    for raw in ["  Release Notes_v2!! ", "x__Y..z", "日本語 abc", "A-B-C"] {
        let once = normalize_stem(raw);
        assert_eq!(normalize_stem(&once), once);
    }
}

#[test]
fn output_names_follow_the_source() {
    let c = converter("c", "PDF");
    assert_eq!(output_name(&artifact("docs/Guide Book.md", "c", None), &c), "guide-book.pdf");
    assert_eq!(output_name(&artifact("docs/.hidden", "c", None), &c), "hidden.pdf");
    assert_eq!(output_name(&artifact("docs/!!!.md", "c", None), &c), "artifact.pdf");
    assert_eq!(output_name(&artifact("..", "c", None), &c), "artifact.pdf");
    assert_eq!(output_name(&artifact("a.md", "c", Some("Keep/Name.PDF")), &c), "Keep/Name.PDF");
}

#[test]
fn paths_read_like_std_paths() {
    assert!(contains_parent("a/../b"));
    assert!(contains_parent(".."));
    assert!(!contains_parent("a/..b/c"));
    assert!(same_path_str("a//b/./c/", "a/b/c"));
    assert!(!same_path_str("/a/b", "a/b"));
    assert!(!same_path_str("./a", "a"));
    assert_eq!(join_path("/work", "src/a.md"), "/work/src/a.md");
    assert_eq!(join_path("/work/", "a.md"), "/work/a.md");
    assert_eq!(join_path("/work", "/etc/x"), "/etc/x");
    assert_eq!(join_path("", "a"), "a");
    assert_eq!(resolve("/work", "out"), "/work/out");
    assert_eq!(resolve("/work", "/abs"), "/abs");
    let s = |v: Option<Vec<char>>| v.map(|c| c.into_iter().collect::<String>());
    assert_eq!(s(path_file_name("a/b.tar.gz")), Some("b.tar.gz".into()));
    assert_eq!(s(path_file_stem("a/b.tar.gz")), Some("b.tar".into()));
    assert_eq!(s(path_extension("a/b.tar.gz")), Some("gz".into()));
    assert_eq!(s(path_extension("a/.bashrc")), None);
    assert_eq!(s(path_file_stem("a/.bashrc")), Some(".bashrc".into()));
    assert_eq!(s(path_file_name("a/..")), None);
    assert_eq!(s(path_file_name("/")), None);
}

#[test]
fn placeholders_are_read_between_braces() {
    assert_eq!(placeholders("{input}-{stem}.x"), vec!["input", "stem"]);
    assert_eq!(placeholders("a{b"), Vec::<String>::new());
    assert_eq!(placeholders("{}{x}"), vec!["", "x"]);
    assert_eq!(placeholders("}{a}{"), vec!["a"]);
}

#[test]
fn substitution_fills_every_placeholder() {
    let out = substitute(
        "{input}|{output}|{stem}|{source_name}|{manifest_dir}|{other}",
        "/job/in.md",
        "/job/result.pdf",
        "docs/My File.md",
        "/work",
    );
    assert_eq!(out, "/job/in.md|/job/result.pdf|my-file|My File.md|/work|{other}");
    assert_eq!(substitute("{stem}{stem}", "", "", "x/.", ""), "xx");
}

#[test]
fn a_valid_manifest_has_no_errors() {
    let l = loaded(vec![converter("copy", "pdf")], vec![artifact("a.md", "copy", None)]);
    assert!(validate(&l, &files(&l)).is_empty());
}

#[test]
fn manifest_level_errors() {
    let mut l = loaded(vec![], vec![]);
    l.manifest.version = 2;
    l.manifest.output_dir = "/abs".into();
    l.manifest.report = "../r.json".into();
    let errors = validate(&l, &files(&l));
    assert_eq!(
        errors,
        vec![
            "unsupported manifest version 2; expected 1",
            "no converters declared",
            "no artifacts declared",
            "output_dir must be relative and cannot contain ..",
            "report must be relative and cannot contain ..",
        ]
    );
}

#[test]
fn converter_level_errors() {
    let mut bad = converter(" ", "p.df");
    bad.command = "".into();
    bad.args = vec!["{nope}".into()];
    bad.license = "\t".into();
    bad.timeout_seconds = 0;
    let mut dup = converter("COPY", "pdf");
    dup.args.push("{stem}{source_name}{manifest_dir}".into());
    let l = loaded(
        vec![converter("copy", "pdf"), dup, bad],
        vec![artifact("a.md", "copy", None)],
    );
    let errors = validate(&l, &files(&l));
    assert_eq!(
        errors,
        vec![
            "duplicate converter name: COPY",
            "converter name cannot be empty",
            "converter   has an empty command",
            "converter   args must contain {input}",
            "converter   args must contain {output}",
            "converter   has an invalid output_extension",
            "converter   must declare license and homepage",
            "converter   timeout_seconds must be greater than zero",
            "converter   uses unknown placeholder {nope}",
        ]
    );
}

#[test]
fn artifact_level_errors() {
    let l = loaded(
        vec![converter("copy", "pdf")],
        vec![
            artifact("/etc/passwd", "copy", None),
            artifact("dir", "copy", None),
            artifact("gone.md", "copy", None),
            artifact("a.md", "missing", None),
            artifact("b.md", "copy", Some("../b.pdf")),
            artifact("c.md", "copy", Some("c.txt")),
            artifact("C.md", "copy", Some("C.TXT")),
            artifact("out/d.pdf", "copy", Some("d.pdf")),
        ],
    );
    let checks = vec![
        SourceCheck::RegularFile,
        SourceCheck::NotRegularFile,
        SourceCheck::Unreadable("No such file or directory (os error 2)".into()),
        SourceCheck::RegularFile,
        SourceCheck::RegularFile,
        SourceCheck::RegularFile,
        SourceCheck::RegularFile,
        SourceCheck::RegularFile,
    ];
    let errors = validate(&l, &checks);
    assert_eq!(
        errors,
        vec![
            "artifact 1 (/etc/passwd): source must be relative and cannot contain ..",
            "artifact 2 (dir): source is not a regular file",
            "artifact 3 (gone.md): source is not readable: No such file or directory (os error 2)",
            "artifact 4 (a.md): unknown converter missing",
            "artifact 5 (b.md): output must be relative and cannot contain ..",
            "artifact 6 (c.md): output extension must be .pdf",
            "artifact 7 (C.md): output extension must be .pdf",
            "artifact 7 (C.md): output collides with another artifact: C.TXT",
            "artifact 8 (out/d.pdf): output would overwrite its source file",
        ]
    );
}

#[test]
fn the_last_converter_of_a_name_is_used() {
    let l = loaded(
        vec![converter("copy", "pdf"), converter("copy", "svg")],
        vec![artifact("a.md", "copy", None)],
    );
    let prepared = prepare_artifacts(&l, "/work/out");
    assert_eq!(prepared.len(), 1);
    assert_eq!(prepared[0].output_relative, "a.svg");
    assert_eq!(prepared[0].output, "/work/out/a.svg");
    assert_eq!(prepared[0].source, "/work/a.md");
    assert_eq!(prepared[0].index, 0);
    let args = converter_arguments(&prepared[0], "/job/a.md", "/job/result.svg", "/work");
    assert_eq!(args, vec!["/job/a.md", "/job/result.svg"]);
}

#[test]
fn sandbox_and_workers() {
    assert_eq!(sandbox_plan(SandboxMode::Off, true), Ok(false));
    assert_eq!(sandbox_plan(SandboxMode::Auto, true), Ok(true));
    assert_eq!(sandbox_plan(SandboxMode::Auto, false), Ok(false));
    assert_eq!(sandbox_plan(SandboxMode::Required, true), Ok(true));
    let err = sandbox_plan(SandboxMode::Required, false).unwrap_err();
    assert_eq!(err, "sandbox required, but Bubblewrap (bwrap) is unavailable on this platform");
    assert_eq!(run_failure_exit_code(&err), 3);
    assert_eq!(run_failure_exit_code("cannot create output directory x: denied"), 2);
    assert_eq!(worker_count(0, 0), 1);
    assert_eq!(worker_count(8, 3), 3);
    assert_eq!(worker_count(2, 100), 2);
}

#[test]
fn sandbox_argument_list() {
    let args = sandbox_arguments("/job", "/usr/bin/pandoc");
    assert_eq!(args[0], "--die-with-parent");
    assert_eq!(args.len(), 20);
    assert_eq!(&args[13..], ["--bind", "/job", "/job", "--chdir", "/job", "--", "/usr/bin/pandoc"]);
}

#[test]
fn job_paths() {
    assert_eq!(work_root("/work/out"), "/work/out/.batch-artifact-export-work");
    assert_eq!(staged_input("/job", "/work/docs/a b.md"), "/job/a b.md");
    assert_eq!(temporary_output("/job", "pdf"), "/job/result.pdf");
}

#[test]
fn jobs_must_be_in_range() {
    assert_eq!(parse_jobs("4"), Ok(4));
    assert_eq!(parse_jobs("+64"), Ok(64));
    assert_eq!(parse_jobs("0"), Err("jobs must be from 1 to 64".to_string()));
    assert_eq!(parse_jobs("65"), Err("jobs must be from 1 to 64".to_string()));
    assert_eq!(parse_jobs("x"), Err("jobs must be an integer from 1 to 64".to_string()));
    assert_eq!(parse_jobs(""), Err("jobs must be an integer from 1 to 64".to_string()));
    assert_eq!(parse_jobs("-1"), Err("jobs must be an integer from 1 to 64".to_string()));
    assert_eq!(
        parse_jobs("99999999999999999999999999"),
        Err("jobs must be an integer from 1 to 64".to_string())
    );
}

#[test]
fn summaries_and_exit_codes() {
    let l = loaded(vec![converter("copy", "pdf")], vec![artifact("a.md", "copy", None)]);
    let ok = summarize(&l, vec![report("ok"), report("ok")]);
    assert_eq!((ok.succeeded, ok.failed, ok.outcome.as_str()), (2, 0, "ok"));
    assert_eq!(exit_code(&ok), 0);
    assert_eq!(ok.converters.len(), 1);
    assert_eq!(ok.converters[0].license, "MIT");
    let bad = summarize(&l, vec![report("ok"), report("failed")]);
    assert_eq!((bad.succeeded, bad.failed, bad.outcome.as_str()), (1, 1, "failed"));
    assert_eq!(exit_code(&bad), 1);
    let invalid = validation_report(&l, vec!["no artifacts declared".into()]);
    assert_eq!(invalid.outcome, "invalid");
    assert_eq!(invalid.failed, 1);
    assert_eq!(exit_code(&invalid), 2);
    let parse = parse_failure_report("batch-export.toml", "invalid TOML");
    assert_eq!(parse.errors, vec!["invalid TOML"]);
    assert_eq!(parse.failed, 0);
    assert_eq!(exit_code(&parse), 2);
}

#[test]
fn a_job_is_ok_only_once_its_output_is_promoted() {
    let l = loaded(vec![converter("copy", "pdf")], vec![artifact("a.md", "copy", None)]);
    let task = &prepare_artifacts(&l, "/work/out")[0];
    let mut job = start_job(task, None, false);
    for _ in 0..8 {
        job = advance(job, Event::Succeeded);
    }
    assert!(job.stage == Stage::Wait);
    job = advance(job, Event::Exited { code: Some(0) });
    assert!(job.stage == Stage::CheckOutput);
    job = advance(job, Event::OutputChecked { present: true, contents: Some(b"abc".to_vec()) });
    assert_eq!(job.report.status, "failed");
    assert_eq!(
        job.report.output_sha256.as_deref(),
        Some("ba7816bf8f01cfea414140de5dae2223b00361a396177a9cb410ff61f20015ad")
    );
    job = advance(job, Event::Succeeded);
    assert!(job.stage == Stage::Done);
    assert_eq!(job.report.status, "ok");
    assert_eq!(job.report.exit_code, Some(0));
    assert_eq!(job.report.error, None);
}

#[test]
fn job_failures_are_reported() {
    let l = loaded(vec![converter("copy", "pdf")], vec![artifact("a.md", "copy", None)]);
    let task = &prepare_artifacts(&l, "/work/out")[0];
    let at = |steps: usize, event: Event| {
        let mut job = start_job(task, Some(b"abc".to_vec()), true);
        for step in 0..steps {
            job = if step == 8 {
                advance(job, Event::Exited { code: Some(0) })
            } else {
                advance(job, Event::Succeeded)
            };
        }
        let job = advance(job, event);
        assert!(job.stage == Stage::Done);
        assert_eq!(job.report.status, "failed");
        job.report
    };
    let r = at(0, Event::Failed("denied".into()));
    assert_eq!(r.error.as_deref(), Some("cannot create output directory: denied"));
    assert_eq!(
        r.input_sha256.as_deref(),
        Some("ba7816bf8f01cfea414140de5dae2223b00361a396177a9cb410ff61f20015ad")
    );
    assert!(r.sandboxed);
    let r = at(4, Event::Failed("not found".into()));
    assert_eq!(r.error.as_deref(), Some("converter executable 'copy' not found: not found"));
    let r = at(8, Event::Exited { code: Some(7) });
    assert_eq!(r.error.as_deref(), Some("converter exited with code 7"));
    assert_eq!(r.exit_code, Some(7));
    let r = at(8, Event::Exited { code: None });
    assert_eq!(r.error.as_deref(), Some("converter exited with a signal"));
    let r = at(8, Event::TimedOut { code: Some(-9) });
    assert_eq!(r.error.as_deref(), Some("converter timed out after 30 seconds"));
    let r = at(9, Event::OutputChecked { present: false, contents: None });
    assert_eq!(r.exit_code, Some(0));
    assert_eq!(r.output_sha256, None);
    assert_eq!(
        r.error.as_deref(),
        Some("converter reported success but did not create the declared output")
    );
}

#[test]
fn digests_are_lowercase_hex() {
    assert_eq!(
        sha256_hex(b"abc"),
        "ba7816bf8f01cfea414140de5dae2223b00361a396177a9cb410ff61f20015ad"
    );
    assert_eq!(sha256_hex(b"").len(), 64);
}

#[test]
fn defaults() {
    assert_eq!(default_output_dir(), "exports");
    assert_eq!(default_report(), "exports/report.json");
    assert_eq!(default_timeout(), 120);
}

#[test]
fn every_step_names_its_failure() {
    let l = loaded(vec![converter("copy", "pdf")], vec![artifact("a.md", "copy", None)]);
    let task = &prepare_artifacts(&l, "/work/out")[0];
    let expected = [
        "cannot create output directory: e",
        "cannot create work directory: e",
        "cannot create job directory: e",
        "cannot stage input: e",
        "converter executable 'copy' not found: e",
        "cannot create stdout capture: e",
        "cannot create stderr capture: e",
        "cannot start converter: e",
        "cannot wait for converter: e",
    ];
    for (steps, message) in expected.iter().enumerate() {
        let mut job = start_job(task, None, false);
        for _ in 0..steps {
            job = advance(job, Event::Succeeded);
        }
        let job = advance(job, Event::Failed("e".into()));
        assert!(job.stage == Stage::Done);
        assert_eq!(job.report.error.as_deref(), Some(*message));
    }
    let mut job = start_job(task, None, false);
    for _ in 0..8 {
        job = advance(job, Event::Succeeded);
    }
    job = advance(job, Event::Exited { code: Some(0) });
    job = advance(job, Event::OutputChecked { present: true, contents: None });
    job = advance(job, Event::Failed("busy".into()));
    assert_eq!(job.report.error.as_deref(), Some("cannot promote output: busy"));
    assert_eq!(job.report.status, "failed");
}

#[test]
fn finishing_records_the_duration() {
    let r = batch_artifact_export::execute::finish(report("ok"), 1234);
    assert_eq!(r.duration_ms, 1234);
    assert_eq!(r.status, "ok");
}

#[test]
fn missing_executables_are_listed() {
    let l = loaded(
        vec![converter("a", "pdf"), converter("b", "svg"), converter("c", "png")],
        vec![artifact("a.md", "a", None)],
    );
    let errors = batch_artifact_export::validate::missing_executables(&l.manifest, &vec![true, false, false]);
    assert_eq!(
        errors,
        vec!["converter executable not found on PATH: copy", "converter executable not found on PATH: copy"]
    );
    assert!(batch_artifact_export::validate::missing_executables(&l.manifest, &vec![true, true, true]).is_empty());
}

#[test]
fn a_refused_run_reports_every_artifact_as_failed() {
    let l = loaded(vec![converter("copy", "pdf")], vec![artifact("a.md", "copy", None)]);
    assert!(batch_artifact_export::report::refusal(&l, Vec::new()).is_none());
    let r = batch_artifact_export::report::refusal(&l, vec!["no converters declared".into()]).unwrap();
    assert_eq!(r.outcome, "invalid");
    assert_eq!(r.failed, 1);
    assert_eq!(r.errors, vec!["no converters declared"]);
    assert!(r.artifacts.is_empty());
}

#[test]
fn results_keep_manifest_order() {
    let mut first = report("ok");
    first.source = "first.md".into();
    let mut second = report("failed");
    second.source = "second.md".into();
    let collected = batch_artifact_export::report::collect_results(vec![Some(first), Some(second)]);
    assert_eq!(collected.len(), 2);
    assert_eq!(collected[0].source, "first.md");
    assert_eq!(collected[1].source, "second.md");
}

#[test]
fn an_output_may_not_land_on_another_source() {
    let l = loaded(
        vec![converter("copy", "pdf")],
        vec![artifact("a.md", "copy", Some("b.pdf")), artifact("out/b.pdf", "copy", Some("c.pdf"))],
    );
    let errors = validate(&l, &files(&l));
    assert_eq!(errors, vec!["artifact 1 (a.md): output would overwrite the source of artifact 2"]);
    let l = loaded(
        vec![converter("copy", "pdf")],
        vec![artifact("out/./x.pdf", "copy", Some("y.pdf")), artifact("b.md", "copy", Some("x.pdf"))],
    );
    let errors = validate(&l, &files(&l));
    assert_eq!(errors, vec!["artifact 2 (b.md): output would overwrite the source of artifact 1"]);
}

#[test]
fn environments_must_be_in_key_order() {
    assert!(text_before("A", "B"));
    assert!(text_before("ab", "abc"));
    assert!(!text_before("abc", "ab"));
    assert!(!text_before("x", "x"));
    assert!(text_before("Z", "a"));
    let pair = |k: &str| (k.to_string(), "v".to_string());
    assert!(entries_in_order(&vec![pair("HOME"), pair("LANG"), pair("PATH")]));
    assert!(!entries_in_order(&vec![pair("PATH"), pair("HOME")]));
    assert!(!entries_in_order(&vec![pair("HOME"), pair("HOME")]));
    let mut l = loaded(vec![converter("copy", "pdf")], vec![artifact("a.md", "copy", None)]);
    assert!(manifest_is_well_formed(&l.manifest));
    l.manifest.converters[0].environment = vec![pair("b"), pair("a")];
    assert!(!manifest_is_well_formed(&l.manifest));
}
