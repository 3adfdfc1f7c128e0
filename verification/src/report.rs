//! The JSON report of a run: its shape, how a run's results become one, and the exit
//! status that it calls for.
use vstd::prelude::*;
use crate::manifest::{ConverterView, LoadedManifest, Manifest, ManifestView, REPORT_SCHEMA, string_views};
use crate::paths::chars_eq;
use crate::text::to_chars;

verus! {

/// Whether converters run inside Bubblewrap.
#[derive(Clone, Copy, Debug, PartialEq, Eq, Structural)]
pub enum SandboxMode {
    Off,
    Auto,
    Required,
}

/// How a run proceeds.
pub struct RunOptions {
    pub jobs: usize,
    pub sandbox: SandboxMode,
}

/// What the report says of a converter: who made it and under which license.
pub struct ConverterDisclosure {
    pub name: String,
    pub command: String,
    pub license: String,
    pub homepage: String,
}

/// What became of one artifact.
pub struct ArtifactReport {
    pub source: String,
    pub output: String,
    pub converter: String,
    pub status: String,
    pub sandboxed: bool,
    pub exit_code: Option<i32>,
    pub duration_ms: u128,
    pub input_sha256: Option<String>,
    pub output_sha256: Option<String>,
    pub error: Option<String>,
    pub stdout: String,
    pub stderr: String,
}

/// The report of a whole run.
pub struct RunReport {
    pub schema_version: u8,
    pub manifest: String,
    pub outcome: String,
    pub succeeded: usize,
    pub failed: usize,
    pub converters: Vec<ConverterDisclosure>,
    pub artifacts: Vec<ArtifactReport>,
    pub errors: Vec<String>,
}

/// `d` discloses the converters `cs`, one entry each, in order.
pub open spec fn discloses(d: Seq<ConverterDisclosure>, cs: Seq<ConverterView>) -> bool {
    &&& d.len() == cs.len()
    &&& forall|i: int|
        0 <= i < d.len() ==> {
            &&& #[trigger] d[i].name@ == cs[i].name
            &&& d[i].command@ == cs[i].command
            &&& d[i].license@ == cs[i].license
            &&& d[i].homepage@ == cs[i].homepage
        }
}

/// The artifact reports whose status is not `ok`.
pub open spec fn failed_count(s: Seq<ArtifactReport>) -> nat
    decreases s.len(),
{
    if s.len() == 0 {
        0
    } else {
        failed_count(s.drop_last()) + if s.last().status@ == "ok"@ {
            0nat
        } else {
            1nat
        }
    }
}

/// The exit status that a report calls for: 2 for an invalid manifest, 1 where an
/// artifact failed, 0 where all succeeded.
pub open spec fn exit_status(r: RunReport) -> u8 {
    if r.outcome@ == "invalid"@ {
        2
    } else if r.failed > 0 {
        1
    } else {
        0
    }
}

/// `r` reports that the manifest of `l` was refused for `errors`.
pub open spec fn is_invalid_report(r: RunReport, path: Seq<char>, m: ManifestView, errors: Seq<
    Seq<char>,
>) -> bool {
    &&& r.schema_version == REPORT_SCHEMA
    &&& r.manifest@ == path
    &&& r.outcome@ == "invalid"@
    &&& r.succeeded == 0
    &&& r.failed == m.artifacts.len()
    &&& discloses(r.converters@, m.converters)
    &&& r.artifacts.len() == 0
    &&& string_views(r.errors@) == errors
}

/// `r` sums up the artifact reports `arts` of a run of the manifest at `path`.
pub open spec fn is_summary(r: RunReport, path: Seq<char>, m: ManifestView, arts: Seq<
    ArtifactReport,
>) -> bool {
    &&& r.schema_version == REPORT_SCHEMA
    &&& r.manifest@ == path
    &&& r.failed == failed_count(arts)
    &&& r.succeeded + r.failed == arts.len()
    &&& r.outcome@ == (if r.failed == 0 {
        "ok"@
    } else {
        "failed"@
    })
    &&& discloses(r.converters@, m.converters)
    &&& r.artifacts@ == arts
    &&& r.errors.len() == 0
}

/// What the report says of each converter of `manifest`.
pub fn disclosures(manifest: &Manifest) -> (res: Vec<ConverterDisclosure>)
    ensures
        discloses(res@, manifest@.converters),
{
    let mut res: Vec<ConverterDisclosure> = Vec::new();
    let mut i: usize = 0;
    while i < manifest.converters.len()
        invariant
            i <= manifest.converters.len(),
            res.len() == i,
            forall|j: int|
                0 <= j < i ==> {
                    &&& #[trigger] res@[j].name@ == manifest@.converters[j].name
                    &&& res@[j].command@ == manifest@.converters[j].command
                    &&& res@[j].license@ == manifest@.converters[j].license
                    &&& res@[j].homepage@ == manifest@.converters[j].homepage
                },
        decreases manifest.converters.len() - i,
    {
        let c = &manifest.converters[i];
        assert(c@ == manifest@.converters[i as int]);
        res.push(
            ConverterDisclosure {
                name: c.name.clone(),
                command: c.command.clone(),
                license: c.license.clone(),
                homepage: c.homepage.clone(),
            },
        );
        i += 1;
    }
    assert(res@.len() == manifest@.converters.len());
    assert(discloses(res@, manifest@.converters));
    res
}

/// The report of a run that stopped because the manifest was refused for `errors`.
pub fn validation_report(loaded: &LoadedManifest, errors: Vec<String>) -> (res: RunReport)
    ensures
        is_invalid_report(res, loaded@.path, loaded@.manifest, string_views(errors@)),
{
    RunReport {
        schema_version: REPORT_SCHEMA,
        manifest: loaded.path.clone(),
        outcome: String::from_str("invalid"),
        succeeded: 0,
        failed: loaded.manifest.artifacts.len(),
        converters: disclosures(&loaded.manifest),
        artifacts: Vec::new(),
        errors,
    }
}

/// The report of a run refused for `errors`, or none where there are no errors and the
/// run goes on: a refused run creates nothing and reports every artifact as failed.
pub fn refusal(loaded: &LoadedManifest, errors: Vec<String>) -> (res: Option<RunReport>)
    ensures
        res is None <==> errors.len() == 0,
        res matches Some(r) ==> is_invalid_report(
            r,
            loaded@.path,
            loaded@.manifest,
            string_views(errors@),
        ),
{
    if errors.len() == 0 {
        None
    } else {
        Some(validation_report(loaded, errors))
    }
}

/// The artifact reports of a run in manifest order, from the slot that each job filled at
/// its artifact's index.
pub fn collect_results(slots: Vec<Option<ArtifactReport>>) -> (res: Vec<ArtifactReport>)
    requires
        forall|i: int| 0 <= i < slots.len() ==> (#[trigger] slots@[i]) is Some,
    ensures
        res.len() == slots.len(),
        forall|i: int| 0 <= i < res.len() ==> Some(#[trigger] res@[i]) == slots@[i],
{
    let mut slots = slots;
    let ghost all = slots@;
    let mut rest: Vec<ArtifactReport> = Vec::new();
    while slots.len() > 0
        invariant
            slots@ == all.take(slots.len() as int),
            slots.len() + rest.len() == all.len(),
            forall|i: int| 0 <= i < all.len() ==> (#[trigger] all[i]) is Some,
            forall|k: int|
                0 <= k < rest.len() ==> Some(#[trigger] rest@[k]) == all[all.len() - 1 - k],
        decreases slots.len(),
    {
        let last = slots.pop().unwrap();
        assert(slots@ =~= all.take(slots.len() as int));
        rest.push(last.unwrap());
    }
    let mut res: Vec<ArtifactReport> = Vec::new();
    while rest.len() > 0
        invariant
            res.len() + rest.len() == all.len(),
            forall|k: int|
                0 <= k < rest.len() ==> Some(#[trigger] rest@[k]) == all[all.len() - 1 - k],
            forall|i: int| 0 <= i < res.len() ==> Some(#[trigger] res@[i]) == all[i],
        decreases rest.len(),
    {
        let r = rest.pop().unwrap();
        res.push(r);
    }
    res
}

/// The report of a run whose manifest at `manifest_path` could not be read or parsed.
pub fn parse_failure_report(manifest_path: &str, message: &str) -> (res: RunReport)
    ensures
        res.schema_version == REPORT_SCHEMA,
        res.manifest@ == manifest_path@,
        res.outcome@ == "invalid"@,
        res.succeeded == 0,
        res.failed == 0,
        res.converters.len() == 0,
        res.artifacts.len() == 0,
        string_views(res.errors@) == seq![message@],
{
    let mut errors: Vec<String> = Vec::new();
    errors.push(String::from_str(message));
    assert(string_views(errors@) =~= seq![message@]);
    RunReport {
        schema_version: REPORT_SCHEMA,
        manifest: String::from_str(manifest_path),
        outcome: String::from_str("invalid"),
        succeeded: 0,
        failed: 0,
        converters: Vec::new(),
        artifacts: Vec::new(),
        errors,
    }
}

/// Whether an artifact report says the artifact succeeded.
pub fn is_ok_status(r: &ArtifactReport) -> (b: bool)
    ensures
        b == (r.status@ == "ok"@),
{
    chars_eq(&to_chars(&r.status), &to_chars("ok"))
}

/// The report of a run of `loaded` whose artifacts ended as `artifacts`, in manifest order.
pub fn summarize(loaded: &LoadedManifest, artifacts: Vec<ArtifactReport>) -> (res: RunReport)
    ensures
        is_summary(res, loaded@.path, loaded@.manifest, artifacts@),
{
    let mut failed: usize = 0;
    let mut i: usize = 0;
    while i < artifacts.len()
        invariant
            i <= artifacts.len(),
            failed == failed_count(artifacts@.take(i as int)),
            failed <= i,
        decreases artifacts.len() - i,
    {
        assert(artifacts@.take(i + 1).drop_last() =~= artifacts@.take(i as int));
        if !is_ok_status(&artifacts[i]) {
            failed += 1;
        }
        i += 1;
    }
    assert(artifacts@.take(artifacts.len() as int) =~= artifacts@);
    let succeeded = artifacts.len() - failed;
    RunReport {
        schema_version: REPORT_SCHEMA,
        manifest: loaded.path.clone(),
        outcome: if failed == 0 {
            String::from_str("ok")
        } else {
            String::from_str("failed")
        },
        succeeded,
        failed,
        converters: disclosures(&loaded.manifest),
        artifacts,
        errors: Vec::new(),
    }
}

/// The exit status that `report` calls for.
pub fn exit_code(report: &RunReport) -> (res: u8)
    ensures
        res == exit_status(*report),
{
    if chars_eq(&to_chars(&report.outcome), &to_chars("invalid")) {
        2
    } else if report.failed > 0 {
        1
    } else {
        0
    }
}

/// No artifact failed exactly where every artifact report says `ok`.
proof fn lemma_failed_count_zero(s: Seq<ArtifactReport>)
    ensures
        failed_count(s) == 0 <==> forall|i: int| 0 <= i < s.len() ==> (#[trigger] s[i]).status@
            == "ok"@,
        failed_count(s) <= s.len(),
    decreases s.len(),
{
    if s.len() > 0 {
        lemma_failed_count_zero(s.drop_last());
        assert forall|i: int| 0 <= i < s.len() - 1 implies s.drop_last()[i] == s[i] by {}
    }
}

/// A run's exit status is 0 exactly when every declared artifact succeeded, and 1
/// otherwise.
pub proof fn law_summary_exit_status(r: RunReport, path: Seq<char>, m: ManifestView, arts: Seq<
    ArtifactReport,
>)
    requires
        is_summary(r, path, m, arts),
    ensures
        exit_status(r) == 0 <==> forall|i: int| 0 <= i < arts.len() ==> (#[trigger] arts[i]).status@
            == "ok"@,
        exit_status(r) == 0 || exit_status(r) == 1,
{
    reveal_strlit("ok");
    reveal_strlit("failed");
    reveal_strlit("invalid");
    assert("ok"@ != "invalid"@) by {
        assert("ok"@.len() != "invalid"@.len());
    }
    assert("failed"@ != "invalid"@) by {
        assert("failed"@[0] != "invalid"@[0]);
    }
    lemma_failed_count_zero(arts);
}

/// An artifact report whose status is not `ok`.
pub open spec fn did_fail(a: ArtifactReport) -> bool {
    a.status@ != "ok"@
}

/// An artifact report whose status is `ok`.
pub open spec fn did_succeed(a: ArtifactReport) -> bool {
    a.status@ == "ok"@
}

/// The artifact reports among `s` that did not succeed, counted one by one.
proof fn lemma_failed_count_filter(s: Seq<ArtifactReport>)
    ensures
        failed_count(s) == s.filter(|a: ArtifactReport| did_fail(a)).len(),
        s.len() - failed_count(s) == s.filter(|a: ArtifactReport| did_succeed(a)).len(),
    decreases s.len(),
{
    if s.len() > 0 {
        lemma_failed_count_filter(s.drop_last());
        reveal_with_fuel(Seq::<_>::filter, 1);
        assert(s.filter(|a: ArtifactReport| did_fail(a)) == (if did_fail(s.last()) {
            s.drop_last().filter(|a: ArtifactReport| did_fail(a)).push(s.last())
        } else {
            s.drop_last().filter(|a: ArtifactReport| did_fail(a))
        }));
        assert(s.filter(|a: ArtifactReport| did_succeed(a)) == (if did_succeed(s.last()) {
            s.drop_last().filter(|a: ArtifactReport| did_succeed(a)).push(s.last())
        } else {
            s.drop_last().filter(|a: ArtifactReport| did_succeed(a))
        }));
    }
}

/// A run's report counts as failed exactly the artifacts whose status is not `ok`, and as
/// succeeded exactly those whose status is `ok`.
pub proof fn law_summary_counts(r: RunReport, path: Seq<char>, m: ManifestView, arts: Seq<
    ArtifactReport,
>)
    requires
        is_summary(r, path, m, arts),
    ensures
        r.failed == arts.filter(|a: ArtifactReport| did_fail(a)).len(),
        r.succeeded == arts.filter(|a: ArtifactReport| did_succeed(a)).len(),
{
    lemma_failed_count_filter(arts);
}

/// A run's outcome is `ok` exactly when every artifact report says `ok`, and `failed`
/// otherwise.
pub proof fn law_summary_outcome(r: RunReport, path: Seq<char>, m: ManifestView, arts: Seq<
    ArtifactReport,
>)
    requires
        is_summary(r, path, m, arts),
    ensures
        r.outcome@ == "ok"@ <==> forall|i: int| 0 <= i < arts.len() ==> (#[trigger] arts[i]).status@
            == "ok"@,
        r.outcome@ == "ok"@ || r.outcome@ == "failed"@,
{
    reveal_strlit("ok");
    reveal_strlit("failed");
    assert("ok"@ != "failed"@) by {
        assert("ok"@.len() != "failed"@.len());
    }
    lemma_failed_count_zero(arts);
}

/// A refused manifest calls for exit status 2.
pub proof fn law_invalid_exit_status(r: RunReport, path: Seq<char>, m: ManifestView, errors: Seq<
    Seq<char>,
>)
    requires
        is_invalid_report(r, path, m, errors),
    ensures
        exit_status(r) == 2,
{
}

} // verus!
