use batch_artifact_export::manifest::{Artifact, Converter, LoadedManifest, Manifest, DEFAULT_MANIFEST};
use batch_artifact_export::naming::{normalize_stem, output_name};
use batch_artifact_export::validate::{validate, SourceCheck};

fn fixture(dir: &str) -> LoadedManifest {
    LoadedManifest {
        path: format!("{}/{}", dir, DEFAULT_MANIFEST),
        directory: dir.to_string(),
        manifest: Manifest {
            version: 1,
            output_dir: "out".into(),
            report: "out/report.json".into(),
            converters: vec![Converter {
                name: "copy".into(),
                command: "copy".into(),
                args: vec!["{input}".into(), "{output}".into()],
                output_extension: "pdf".into(),
                license: "MIT".into(),
                homepage: "https://example.com".into(),
                timeout_seconds: 30,
                environment: Vec::new(),
            }],
            artifacts: vec![Artifact {
                source: "Draft Notes!!.md".into(),
                converter: "copy".into(),
                output: None,
            }],
        },
    }
}

fn all_files(loaded: &LoadedManifest) -> Vec<SourceCheck> {
    loaded.manifest.artifacts.iter().map(|_| SourceCheck::RegularFile).collect()
}

fn copy_artifact(a: &Artifact) -> Artifact {
    Artifact { source: a.source.clone(), converter: a.converter.clone(), output: a.output.clone() }
}

#[test]
fn names_are_portable_and_stable() {
    assert_eq!(normalize_stem("  Release Notes_v2!! "), "release-notes-v2");
    assert_eq!(normalize_stem("日本語"), "");
}

#[test]
fn derives_output_from_source() {
    let loaded = fixture("/work/project");
    assert_eq!(
        output_name(&loaded.manifest.artifacts[0], &loaded.manifest.converters[0]),
        "draft-notes.pdf"
    );
    assert!(validate(&loaded, &all_files(&loaded)).is_empty());
}

#[test]
fn detects_collisions_and_unknown_placeholders() {
    let mut loaded = fixture("/work/project");
    let again = copy_artifact(&loaded.manifest.artifacts[0]);
    loaded.manifest.artifacts.push(again);
    loaded.manifest.converters[0].args.push("{mystery}".into());
    let errors = validate(&loaded, &all_files(&loaded)).join("\n");
    assert!(errors.contains("collides"));
    assert!(errors.contains("unknown placeholder"));
}

#[test]
fn rejects_parent_traversal() {
    let mut loaded = fixture("/work/project");
    loaded.manifest.artifacts[0].source = "../secret.md".into();
    assert!(validate(&loaded, &all_files(&loaded)).iter().any(|e| e.contains("cannot contain ..")));
}
