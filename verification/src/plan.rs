//! What a run decides before any converter starts: whether to sandbox, how many workers,
//! and the paths and arguments of each artifact's job.
use vstd::prelude::*;
use crate::manifest::{Converter, LoadedManifest, LoadedManifestView, ManifestView, string_views};
use crate::naming::{normalize_stem, normalized_stem, output_name, output_name_of};
use crate::paths::{file_name, file_stem, join, join_path, path_file_name, path_file_stem};
use crate::report::{ArtifactReport, RunReport, SandboxMode, is_summary};
use crate::text::{from_chars, has_sub, replace_all, replace_seq, to_chars, contains_seq};
use crate::validate::{
    artifact_errors, converter_index, find_converter, lemma_artifacts_errors_cover,
    validation_errors,
};

verus! {

/// What a run says when a sandbox is required and none is there.
pub open spec fn sandbox_unavailable_message() -> Seq<char> {
    "sandbox required, but Bubblewrap (bwrap) is unavailable on this platform"@
}

/// Whether converters run sandboxed, given the mode asked for and whether Bubblewrap is
/// there: an error where a sandbox is required and none is there.
pub fn sandbox_plan(mode: SandboxMode, available: bool) -> (res: Result<bool, String>)
    ensures
        match res {
            Ok(b) => !(mode == SandboxMode::Required && !available) && b == (mode
                != SandboxMode::Off && available),
            Err(e) => mode == SandboxMode::Required && !available && e@
                == sandbox_unavailable_message(),
        },
{
    if mode == SandboxMode::Required && !available {
        return Err(
            String::from_str(
                "sandbox required, but Bubblewrap (bwrap) is unavailable on this platform",
            ),
        );
    }
    Ok(mode != SandboxMode::Off && available)
}

/// How many workers export `count` artifacts when `jobs` were asked for.
pub open spec fn workers_for(jobs: int, count: int) -> int {
    let j = if jobs < 1 {
        1
    } else {
        jobs
    };
    let c = if count < 1 {
        1
    } else {
        count
    };
    if j < c {
        j
    } else {
        c
    }
}

/// `jobs.max(1).min(count.max(1))`.
pub fn worker_count(jobs: usize, count: usize) -> (res: usize)
    ensures
        res == workers_for(jobs as int, count as int),
{
    let j = if jobs < 1 {
        1
    } else {
        jobs
    };
    let c = if count < 1 {
        1
    } else {
        count
    };
    if j < c {
        j
    } else {
        c
    }
}

/// There is always at least one worker, never more than were asked for (or one), and
/// never more than there are artifacts (or one).
pub proof fn law_worker_count_bounds(jobs: int, count: int)
    ensures
        1 <= workers_for(jobs, count),
        workers_for(jobs, count) <= (if jobs < 1 {
            1
        } else {
            jobs
        }),
        workers_for(jobs, count) <= (if count < 1 {
            1
        } else {
            count
        }),
{
}

/// The exit status for a run that could not start: 3 where the required sandbox was
/// missing, 2 otherwise.
pub fn run_failure_exit_code(message: &str) -> (res: u8)
    ensures
        res == (if has_sub(message@, "sandbox required"@) {
            3u8
        } else {
            2u8
        }),
{
    if contains_seq(&to_chars(message), &to_chars("sandbox required")) {
        3
    } else {
        2
    }
}

/// One artifact, ready to export.
pub struct PreparedArtifact {
    pub index: usize,
    pub source_relative: String,
    pub source: String,
    pub output_relative: String,
    pub output: String,
    pub converter: Converter,
}

/// Every artifact of `m` names a converter that `m` declares.
pub open spec fn converters_known(m: ManifestView) -> bool {
    forall|i: int|
        0 <= i < m.artifacts.len() ==> #[trigger] converter_index(
            m.converters,
            m.artifacts[i].converter,
        ) is Some
}

/// `p` is artifact `i` of `l`, ready to export into `output_root`.
pub open spec fn is_prepared(
    p: PreparedArtifact,
    l: LoadedManifestView,
    output_root: Seq<char>,
    i: int,
) -> bool {
    let m = l.manifest;
    let a = m.artifacts[i];
    let c = m.converters[converter_index(m.converters, a.converter)->0];
    &&& p.index == i
    &&& p.source_relative@ == a.source
    &&& p.source@ == join(l.directory, a.source)
    &&& p.output_relative@ == output_name_of(a, c)
    &&& p.output@ == join(output_root, output_name_of(a, c))
    &&& p.converter@ == c
}

/// A manifest that passes validation names only converters that it declares.
pub proof fn law_valid_manifest_converters_known(l: LoadedManifestView, checks: Seq<
    crate::validate::SourceCheck,
>)
    requires
        validation_errors(l, checks).len() == 0,
    ensures
        converters_known(l.manifest),
{
    let m = l.manifest;
    assert forall|i: int| 0 <= i < m.artifacts.len() implies #[trigger] converter_index(
        m.converters,
        m.artifacts[i].converter,
    ) is Some by {
        lemma_artifacts_errors_cover(l, checks, m.artifacts.len() as int, i);
        if converter_index(m.converters, m.artifacts[i].converter) is None {
            assert(artifact_errors(l, checks, i).len() > 0);
        }
    }
}

/// Each artifact of `loaded`, in manifest order, ready to export into `output_root`.
pub fn prepare_artifacts(loaded: &LoadedManifest, output_root: &str) -> (res: Vec<
    PreparedArtifact,
>)
    requires
        converters_known(loaded@.manifest),
        loaded@.manifest.well_formed(),
    ensures
        res.len() == loaded.manifest.artifacts.len(),
        forall|i: int|
            0 <= i < res.len() ==> is_prepared(#[trigger] res@[i], loaded@, output_root@, i),
        forall|i: int| 0 <= i < res.len() ==> (#[trigger] res@[i]).converter@.well_formed(),
{
    let m = &loaded.manifest;
    let mut res: Vec<PreparedArtifact> = Vec::new();
    let mut i: usize = 0;
    while i < m.artifacts.len()
        invariant
            i <= m.artifacts.len(),
            m == &loaded.manifest,
            converters_known(loaded@.manifest),
            loaded@.manifest.well_formed(),
            res.len() == i,
            forall|j: int| 0 <= j < i ==> is_prepared(#[trigger] res@[j], loaded@, output_root@, j),
        decreases m.artifacts.len() - i,
    {
        let a = &m.artifacts[i];
        assert(a@ == loaded@.manifest.artifacts[i as int]);
        assert(converter_index(loaded@.manifest.converters, a@.converter) is Some);
        let k = find_converter(&m.converters, &a.converter).unwrap();
        let c = &m.converters[k];
        assert(c@ == loaded@.manifest.converters[k as int]);
        let output_relative = output_name(a, c);
        let output = join_path(output_root, &output_relative);
        res.push(
            PreparedArtifact {
                index: i,
                source_relative: a.source.clone(),
                source: join_path(&loaded.directory, &a.source),
                output_relative,
                output,
                converter: c.duplicate(),
            },
        );
        i += 1;
    }
    proof {
        if loaded@.manifest.well_formed() {
            assert forall|i: int| 0 <= i < res.len() implies (#[trigger] res@[i]).converter@.well_formed() by {
                let mv = loaded@.manifest;
                let k = converter_index(mv.converters, mv.artifacts[i].converter)->0;
                assert(is_prepared(res@[i], loaded@, output_root@, i));
                crate::validate::lemma_converter_index(mv.converters, mv.artifacts[i].converter);
                assert(mv.converters[k].well_formed());
            }
        }
    }
    res
}

/// The report `r` is about the job of task `t`: same source, output and converter.
pub open spec fn reports_on(r: ArtifactReport, t: PreparedArtifact) -> bool {
    &&& r.source@ == t.source_relative@
    &&& r.output@ == t.output_relative@
    &&& r.converter@ == t.converter@.name
}

/// The slot holds a report about the job of task `t`.
pub open spec fn slot_reports_on(slot: Option<ArtifactReport>, t: PreparedArtifact) -> bool {
    slot matches Some(rep) && reports_on(rep, t)
}

/// `arts` lists the artifacts of `l` in manifest order: report `i` is about artifact `i`,
/// its source, its output path and its converter.
pub open spec fn in_manifest_order(l: LoadedManifestView, arts: Seq<ArtifactReport>) -> bool {
    let m = l.manifest;
    &&& arts.len() == m.artifacts.len()
    &&& forall|i: int|
        0 <= i < arts.len() ==> {
            let a = m.artifacts[i];
            let c = m.converters[converter_index(m.converters, a.converter)->0];
            &&& (#[trigger] arts[i]).source@ == a.source
            &&& arts[i].output@ == output_name_of(a, c)
            &&& arts[i].converter@ == c.name
        }
}

/// However many workers a run has and in whatever order they finish, its report lists the
/// artifacts in manifest order: the jobs of the prepared tasks fill the slots at their
/// tasks' indices (a job's report is about its task from `start_job` on, as `advance` and
/// `finish` keep source, output and converter), and the slots are read in order.
pub proof fn law_report_order(
    l: LoadedManifestView,
    output_root: Seq<char>,
    tasks: Seq<PreparedArtifact>,
    slots: Seq<Option<ArtifactReport>>,
    collected: Seq<ArtifactReport>,
    r: RunReport,
)
    requires
        tasks.len() == l.manifest.artifacts.len(),
        forall|i: int| 0 <= i < tasks.len() ==> is_prepared(#[trigger] tasks[i], l, output_root, i),
        slots.len() == tasks.len(),
        forall|i: int|
            0 <= i < tasks.len() ==> slot_reports_on(
                #[trigger] slots[tasks[i].index as int],
                tasks[i],
            ),
        collected.len() == slots.len(),
        forall|i: int| 0 <= i < collected.len() ==> Some(#[trigger] collected[i]) == slots[i],
        is_summary(r, l.path, l.manifest, collected),
    ensures
        in_manifest_order(l, r.artifacts@),
{
    assert forall|i: int| 0 <= i < r.artifacts@.len() implies {
        let m = l.manifest;
        let a = m.artifacts[i];
        let c = m.converters[converter_index(m.converters, a.converter)->0];
        &&& (#[trigger] r.artifacts@[i]).source@ == a.source
        &&& r.artifacts@[i].output@ == output_name_of(a, c)
        &&& r.artifacts@[i].converter@ == c.name
    } by {
        assert(is_prepared(tasks[i], l, output_root, i));
        assert(tasks[i].index == i);
        assert(slot_reports_on(slots[tasks[i].index as int], tasks[i]));
        assert(Some(collected[i]) == slots[i]);
    }
}

/// The stem that `{stem}` stands for: the normalized stem of the source.
pub open spec fn stem_of_source(source: Seq<char>) -> Seq<char> {
    normalized_stem(
        match file_stem(source) {
            Some(s) => s,
            None => "artifact"@,
        },
    )
}

/// A converter argument with its placeholders filled in, each replaced in turn:
/// `{input}`, `{output}`, `{stem}`, `{source_name}`, `{manifest_dir}`.
pub open spec fn substituted(
    template: Seq<char>,
    input: Seq<char>,
    output: Seq<char>,
    source: Seq<char>,
    manifest_dir: Seq<char>,
) -> Seq<char> {
    let source_name = match file_name(source) {
        Some(n) => n,
        None => seq![],
    };
    replace_all(
        replace_all(
            replace_all(
                replace_all(replace_all(template, "{input}"@, input), "{output}"@, output),
                "{stem}"@,
                stem_of_source(source),
            ),
            "{source_name}"@,
            source_name,
        ),
        "{manifest_dir}"@,
        manifest_dir,
    )
}

/// `template` with its placeholders filled in.
pub fn substitute(
    template: &str,
    input: &str,
    output: &str,
    source: &str,
    manifest_dir: &str,
) -> (res: String)
    ensures
        res@ == substituted(template@, input@, output@, source@, manifest_dir@),
{
    let raw = match path_file_stem(source) {
        Some(s) => from_chars(&s),
        None => String::from_str("artifact"),
    };
    let stem = to_chars(&normalize_stem(&raw));
    let source_name: Vec<char> = match path_file_name(source) {
        Some(n) => n,
        None => Vec::new(),
    };
    let p_input = to_chars("{input}");
    let p_output = to_chars("{output}");
    let p_stem = to_chars("{stem}");
    let p_name = to_chars("{source_name}");
    let p_dir = to_chars("{manifest_dir}");
    proof {
        reveal_strlit("{input}");
        reveal_strlit("{output}");
        reveal_strlit("{stem}");
        reveal_strlit("{source_name}");
        reveal_strlit("{manifest_dir}");
    }
    let t = to_chars(template);
    let t = replace_seq(&t, &p_input, &to_chars(input));
    let t = replace_seq(&t, &p_output, &to_chars(output));
    let t = replace_seq(&t, &p_stem, &stem);
    let t = replace_seq(&t, &p_name, &source_name);
    let t = replace_seq(&t, &p_dir, &to_chars(manifest_dir));
    from_chars(&t)
}

/// The arguments of the converter of `task`, placeholders filled in.
pub fn converter_arguments(
    task: &PreparedArtifact,
    input: &str,
    output: &str,
    manifest_dir: &str,
) -> (res: Vec<String>)
    ensures
        res.len() == task.converter.args.len(),
        forall|i: int|
            0 <= i < res.len() ==> (#[trigger] res@[i])@ == substituted(
                task.converter@.args[i],
                input@,
                output@,
                task.source_relative@,
                manifest_dir@,
            ),
{
    let mut res: Vec<String> = Vec::new();
    let mut i: usize = 0;
    while i < task.converter.args.len()
        invariant
            i <= task.converter.args.len(),
            res.len() == i,
            forall|j: int|
                0 <= j < i ==> (#[trigger] res@[j])@ == substituted(
                    task.converter@.args[j],
                    input@,
                    output@,
                    task.source_relative@,
                    manifest_dir@,
                ),
        decreases task.converter.args.len() - i,
    {
        res.push(
            substitute(&task.converter.args[i], input, output, &task.source_relative, manifest_dir),
        );
        i += 1;
    }
    res
}

/// The fixed Bubblewrap options: a read-only root, fresh devices and processes, and no
/// network, IPC or host name shared.
pub open spec fn sandbox_flags() -> Seq<Seq<char>> {
    seq![
        "--die-with-parent"@,
        "--new-session"@,
        "--unshare-net"@,
        "--unshare-pid"@,
        "--unshare-ipc"@,
        "--unshare-uts"@,
        "--ro-bind"@,
        "/"@,
        "/"@,
        "--dev"@,
        "/dev"@,
        "--proc"@,
        "/proc"@,
    ]
}

/// The arguments that make Bubblewrap run `executable` with only `job_dir` writable and
/// as its working directory.
pub open spec fn sandbox_argv(job_dir: Seq<char>, executable: Seq<char>) -> Seq<Seq<char>> {
    sandbox_flags() + seq!["--bind"@, job_dir, job_dir, "--chdir"@, job_dir, "--"@, executable]
}

/// The arguments that `bwrap` gets before the converter's own.
pub fn sandbox_arguments(job_dir: &str, executable: &str) -> (res: Vec<String>)
    ensures
        string_views(res@) == sandbox_argv(job_dir@, executable@),
{
    let mut res: Vec<String> = Vec::new();
    res.push(String::from_str("--die-with-parent"));
    res.push(String::from_str("--new-session"));
    res.push(String::from_str("--unshare-net"));
    res.push(String::from_str("--unshare-pid"));
    res.push(String::from_str("--unshare-ipc"));
    res.push(String::from_str("--unshare-uts"));
    res.push(String::from_str("--ro-bind"));
    res.push(String::from_str("/"));
    res.push(String::from_str("/"));
    res.push(String::from_str("--dev"));
    res.push(String::from_str("/dev"));
    res.push(String::from_str("--proc"));
    res.push(String::from_str("/proc"));
    res.push(String::from_str("--bind"));
    res.push(String::from_str(job_dir));
    res.push(String::from_str(job_dir));
    res.push(String::from_str("--chdir"));
    res.push(String::from_str(job_dir));
    res.push(String::from_str("--"));
    res.push(String::from_str(executable));
    assert(string_views(res@) =~= sandbox_argv(job_dir@, executable@));
    res
}

/// The directory under the output root that holds each job's scratch directory.
pub fn work_root(output_root: &str) -> (res: String)
    ensures
        res@ == join(output_root@, ".batch-artifact-export-work"@),
{
    join_path(output_root, ".batch-artifact-export-work")
}

/// Where a job stages the read-only copy of its source: the source's file name in the
/// job directory.
pub fn staged_input(job_dir: &str, source: &str) -> (res: String)
    ensures
        res@ == join(
            job_dir@,
            match file_name(source@) {
                Some(n) => n,
                None => seq![],
            },
        ),
{
    let name = match path_file_name(source) {
        Some(n) => from_chars(&n),
        None => String::new(),
    };
    join_path(job_dir, &name)
}

/// Where a converter writes its output before it is promoted: `result.<extension>` in
/// the job directory.
pub fn temporary_output(job_dir: &str, extension: &str) -> (res: String)
    ensures
        res@ == join(job_dir@, "result."@ + extension@),
{
    let mut name = String::from_str("result.");
    name.append(extension);
    join_path(job_dir, &name)
}

} // verus!
