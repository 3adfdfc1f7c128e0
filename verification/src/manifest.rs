//! The manifest: converters, artifacts, and where the outputs and the report go.
use vstd::prelude::*;
use crate::text::to_chars;

verus! {

/// The manifest file name that the command line reads by default.
pub const DEFAULT_MANIFEST: &'static str = "batch-export.toml";

/// The schema version written into every report.
pub const REPORT_SCHEMA: u8 = 1;

/// The timeout, in seconds, of a converter that declares none.
pub const DEFAULT_TIMEOUT_SECONDS: u64 = 120;

/// An external program that turns a source file into an output file.
pub struct Converter {
    pub name: String,
    pub command: String,
    pub args: Vec<String>,
    pub output_extension: String,
    pub license: String,
    pub homepage: String,
    pub timeout_seconds: u64,
    /// Variables set for the converter, in key order, each key once (see
    /// `ConverterView::well_formed`).
    pub environment: Vec<(String, String)>,
}

/// One source file to export through a named converter.
pub struct Artifact {
    pub source: String,
    pub converter: String,
    pub output: Option<String>,
}

/// The whole manifest.
pub struct Manifest {
    pub version: u8,
    pub output_dir: String,
    pub report: String,
    pub converters: Vec<Converter>,
    pub artifacts: Vec<Artifact>,
}

/// A manifest together with its own path and the directory that holds it.
pub struct LoadedManifest {
    pub manifest: Manifest,
    pub path: String,
    pub directory: String,
}

/// What a converter is, as text.
pub struct ConverterView {
    pub name: Seq<char>,
    pub command: Seq<char>,
    pub args: Seq<Seq<char>>,
    pub output_extension: Seq<char>,
    pub license: Seq<char>,
    pub homepage: Seq<char>,
    pub timeout_seconds: u64,
    pub environment: Seq<(Seq<char>, Seq<char>)>,
}

/// What an artifact is, as text.
pub struct ArtifactView {
    pub source: Seq<char>,
    pub converter: Seq<char>,
    pub output: Option<Seq<char>>,
}

/// What a manifest is, as text.
pub struct ManifestView {
    pub version: u8,
    pub output_dir: Seq<char>,
    pub report: Seq<char>,
    pub converters: Seq<ConverterView>,
    pub artifacts: Seq<ArtifactView>,
}

/// What a loaded manifest is, as text.
pub struct LoadedManifestView {
    pub manifest: ManifestView,
    pub path: Seq<char>,
    pub directory: Seq<char>,
}

/// `a` comes before `b` in the order of `String`'s `Ord`: character by character, and a
/// proper prefix first.
pub open spec fn text_less(a: Seq<char>, b: Seq<char>) -> bool
    decreases a.len(),
{
    if a.len() == 0 {
        b.len() > 0
    } else if b.len() == 0 {
        false
    } else if a[0] != b[0] {
        (a[0] as u32) < (b[0] as u32)
    } else {
        text_less(a.skip(1), b.skip(1))
    }
}

/// Entries in strictly increasing key order, so each key once: how a `BTreeMap` of
/// strings lists its entries.
pub open spec fn is_ordered_map(entries: Seq<(Seq<char>, Seq<char>)>) -> bool {
    forall|i: int, j: int|
        0 <= i < j < entries.len() ==> text_less(#[trigger] entries[i].0, #[trigger] entries[j].0)
}

impl ConverterView {
    /// The environment of the converter lists each variable once, in key order.
    pub open spec fn well_formed(self) -> bool {
        is_ordered_map(self.environment)
    }
}

impl ManifestView {
    /// Every converter of the manifest is well formed.
    pub open spec fn well_formed(self) -> bool {
        forall|i: int| 0 <= i < self.converters.len() ==> (#[trigger] self.converters[i]).well_formed()
    }
}

/// The views of a sequence of strings.
pub open spec fn string_views(v: Seq<String>) -> Seq<Seq<char>> {
    v.map_values(|s: String| s@)
}

/// The view of an optional string.
pub open spec fn opt_view(o: Option<String>) -> Option<Seq<char>> {
    match o {
        Some(s) => Some(s@),
        None => None,
    }
}

impl View for Converter {
    type V = ConverterView;

    open spec fn view(&self) -> ConverterView {
        ConverterView {
            name: self.name@,
            command: self.command@,
            args: string_views(self.args@),
            output_extension: self.output_extension@,
            license: self.license@,
            homepage: self.homepage@,
            timeout_seconds: self.timeout_seconds,
            environment: self.environment@.map_values(|e: (String, String)| (e.0@, e.1@)),
        }
    }
}

impl View for Artifact {
    type V = ArtifactView;

    open spec fn view(&self) -> ArtifactView {
        ArtifactView { source: self.source@, converter: self.converter@, output: opt_view(self.output) }
    }
}

impl View for Manifest {
    type V = ManifestView;

    open spec fn view(&self) -> ManifestView {
        ManifestView {
            version: self.version,
            output_dir: self.output_dir@,
            report: self.report@,
            converters: self.converters@.map_values(|c: Converter| c@),
            artifacts: self.artifacts@.map_values(|a: Artifact| a@),
        }
    }
}

impl View for LoadedManifest {
    type V = LoadedManifestView;

    open spec fn view(&self) -> LoadedManifestView {
        LoadedManifestView { manifest: self.manifest@, path: self.path@, directory: self.directory@ }
    }
}

/// A copy of a list of strings.
pub fn copy_strings(v: &Vec<String>) -> (res: Vec<String>)
    ensures
        string_views(res@) == string_views(v@),
{
    let mut res: Vec<String> = Vec::new();
    let mut i: usize = 0;
    while i < v.len()
        invariant
            i <= v.len(),
            res.len() == i,
            string_views(res@) == string_views(v@).take(i as int),
        decreases v.len() - i,
    {
        let item: &String = &v[i];
        let c = item.clone();
        let ghost before = res@;
        res.push(c);
        proof {
            assert(res@ == before.push(c));
            assert(res@[i as int] == c);
            assert(c == v@[i as int]);
            assert(string_views(res@).len() == i + 1);
            assert(string_views(res@)[i as int] == res@[i as int]@);
            assert forall|j: int| 0 <= j <= i implies #[trigger] string_views(res@)[j] == string_views(
                v@,
            )[j] by {
                if j < i {
                    assert(string_views(before)[j] == string_views(v@).take(i as int)[j]);
                }
            }
        }
        i += 1;
        assert(string_views(res@) =~= string_views(v@).take(i as int));
    }
    assert(string_views(v@).take(v.len() as int) =~= string_views(v@));
    res
}

impl Converter {
    /// A copy of this converter.
    pub fn duplicate(&self) -> (res: Converter)
        ensures
            res@ == self@,
            self@.well_formed() ==> res@.well_formed(),
    {
        let mut environment: Vec<(String, String)> = Vec::new();
        let mut i: usize = 0;
        while i < self.environment.len()
            invariant
                i <= self.environment.len(),
                environment.len() == i,
                environment@.map_values(|e: (String, String)| (e.0@, e.1@)) == self.environment@.map_values(
                    |e: (String, String)| (e.0@, e.1@),
                ).take(i as int),
            decreases self.environment.len() - i,
        {
            let entry: &(String, String) = &self.environment[i];
            let k = entry.0.clone();
            let v = entry.1.clone();
            assert(k@ == self.environment@[i as int].0@);
            assert(v@ == self.environment@[i as int].1@);
            environment.push((k, v));
            i += 1;
            assert(environment@.map_values(|e: (String, String)| (e.0@, e.1@)) =~= self.environment@.map_values(
                |e: (String, String)| (e.0@, e.1@),
            ).take(i as int));
        }
        assert(self.environment@.map_values(|e: (String, String)| (e.0@, e.1@)).take(
            self.environment.len() as int,
        ) =~= self.environment@.map_values(|e: (String, String)| (e.0@, e.1@)));
        Converter {
            name: self.name.clone(),
            command: self.command.clone(),
            args: copy_strings(&self.args),
            output_extension: self.output_extension.clone(),
            license: self.license.clone(),
            homepage: self.homepage.clone(),
            timeout_seconds: self.timeout_seconds,
            environment,
        }
    }
}

/// Whether `a` comes before `b` in the order of `String`'s `Ord`.
pub fn text_before(a: &str, b: &str) -> (r: bool)
    ensures
        r == text_less(a@, b@),
{
    let x = to_chars(a);
    let y = to_chars(b);
    let mut i: usize = 0;
    assert(a@.skip(0) =~= a@);
    assert(b@.skip(0) =~= b@);
    while i < x.len() && i < y.len()
        invariant
            i <= x.len(),
            i <= y.len(),
            x@ == a@,
            y@ == b@,
            text_less(a@, b@) == text_less(a@.skip(i as int), b@.skip(i as int)),
        decreases x.len() - i,
    {
        assert(a@.skip(i as int)[0] == x@[i as int]);
        assert(b@.skip(i as int)[0] == y@[i as int]);
        if x[i] != y[i] {
            return (x[i] as u32) < (y[i] as u32);
        }
        assert(a@.skip(i as int).skip(1) =~= a@.skip(i + 1));
        assert(b@.skip(i as int).skip(1) =~= b@.skip(i + 1));
        i += 1;
    }
    i == x.len() && i < y.len()
}

/// Whether the entries list each key once, in key order.
pub fn entries_in_order(entries: &Vec<(String, String)>) -> (r: bool)
    ensures
        r == is_ordered_map(entries@.map_values(|e: (String, String)| (e.0@, e.1@))),
{
    let ghost v = entries@.map_values(|e: (String, String)| (e.0@, e.1@));
    let mut i: usize = 0;
    while i < entries.len()
        invariant
            i <= entries.len(),
            v == entries@.map_values(|e: (String, String)| (e.0@, e.1@)),
            forall|p: int, q: int| 0 <= p < i && p < q < v.len() ==> text_less(#[trigger] v[p].0, #[trigger] v[q].0),
        decreases entries.len() - i,
    {
        let mut j: usize = i + 1;
        while j < entries.len()
            invariant
                i < j <= entries.len(),
                i < entries.len(),
                v == entries@.map_values(|e: (String, String)| (e.0@, e.1@)),
                forall|p: int, q: int| 0 <= p < i && p < q < v.len() ==> text_less(#[trigger] v[p].0, #[trigger] v[q].0),
                forall|q: int| i < q < j ==> text_less(v[i as int].0, #[trigger] v[q].0),
            decreases entries.len() - j,
        {
            if !text_before(&entries[i].0, &entries[j].0) {
                assert(!text_less(v[i as int].0, v[j as int].0));
                return false;
            }
            j += 1;
        }
        i += 1;
    }
    true
}

/// Whether every converter of `manifest` is well formed.
pub fn manifest_is_well_formed(manifest: &Manifest) -> (r: bool)
    ensures
        r == manifest@.well_formed(),
{
    let mut i: usize = 0;
    while i < manifest.converters.len()
        invariant
            i <= manifest.converters.len(),
            forall|k: int| 0 <= k < i ==> (#[trigger] manifest@.converters[k]).well_formed(),
        decreases manifest.converters.len() - i,
    {
        assert(manifest.converters@[i as int]@ == manifest@.converters[i as int]);
        if !entries_in_order(&manifest.converters[i].environment) {
            return false;
        }
        i += 1;
    }
    true
}

/// The output directory of a manifest that names none.
pub fn default_output_dir() -> (res: String)
    ensures
        res@ == "exports"@,
{
    String::from_str("exports")
}

/// The report path of a manifest that names none.
pub fn default_report() -> (res: String)
    ensures
        res@ == "exports/report.json"@,
{
    String::from_str("exports/report.json")
}

/// The timeout of a converter that declares none.
pub fn default_timeout() -> (res: u64)
    ensures
        res == DEFAULT_TIMEOUT_SECONDS,
{
    DEFAULT_TIMEOUT_SECONDS
}

} // verus!
