//! The checks that a manifest must pass before any converter runs.
use vstd::prelude::*;
use crate::manifest::{
    ArtifactView, ConverterView, Converter, LoadedManifest, LoadedManifestView, Manifest,
    ManifestView, string_views,
};
use crate::naming::{
    is_stem_char, lemma_normalized_stem_is_normalized, normalized_stem, output_name,
    output_name_of,
};
use crate::paths::{
    chars_eq, components, contains_parent, extension, file_name, file_stem, has_parent_dir,
    is_absolute, is_skipped, join, join_path, path_extension, path_is_absolute, same_path,
    same_path_str, scan, seq_views,
};
use crate::text::{
    contains_char, contains_seq, decimal, decimal_string, eq_ignore_ascii_case, find_char_from,
    first_index, from_chars, has_sub, is_blank, is_blank_str, last_index, lemma_first_index,
    lower_seq, text2, text3, to_chars, to_lower,
};

verus! {

/// The placeholder names in `s`: each text between a `{` and the next `}`, scanning from
/// the left; an opening brace without a closing one ends the scan.
pub open spec fn placeholders_in(s: Seq<char>) -> Seq<Seq<char>>
    decreases s.len(),
{
    match first_index(s, '{') {
        None => seq![],
        Some(i) => {
            let after = s.skip(i + 1);
            match first_index(after, '}') {
                None => seq![],
                Some(j) => {
                    proof {
                        lemma_first_index(s, '{');
                        lemma_first_index(after, '}');
                    }
                    seq![after.take(j)] + placeholders_in(after.skip(j + 1))
                },
            }
        },
    }
}

/// The placeholder names that `value` uses, in order.
pub fn placeholders(value: &str) -> (res: Vec<String>)
    ensures
        string_views(res@) == placeholders_in(value@),
{
    let v = crate::text::to_chars(value);
    let mut found: Vec<String> = Vec::new();
    let mut pos: usize = 0;
    assert(v@.skip(0) =~= v@);
    assert(string_views(found@) + placeholders_in(v@) =~= placeholders_in(v@));
    while pos < v.len()
        invariant
            pos <= v.len(),
            v@ == value@,
            placeholders_in(value@) == string_views(found@) + placeholders_in(v@.skip(
                pos as int,
            )),
        decreases v.len() - pos,
    {
        let ghost rest = v@.skip(pos as int);
        match find_char_from(&v, '{', pos) {
            None => {
                assert(placeholders_in(rest) == Seq::<Seq<char>>::empty());
                assert(string_views(found@) + placeholders_in(rest) =~= string_views(found@));
                return found;
            },
            Some(start) => {
                let ghost after = rest.skip(start - pos + 1);
                assert(after =~= v@.skip(start + 1));
                match find_char_from(&v, '}', start + 1) {
                    None => {
                        assert(placeholders_in(rest) == Seq::<Seq<char>>::empty());
                        assert(string_views(found@) + placeholders_in(rest) =~= string_views(
                            found@,
                        ));
                        return found;
                    },
                    Some(end) => {
                        let mut token: Vec<char> = Vec::new();
                        let mut k: usize = start + 1;
                        while k < end
                            invariant
                                start + 1 <= k <= end,
                                end < v.len(),
                                token@ == v@.subrange(start + 1, k as int),
                            decreases end - k,
                        {
                            token.push(v[k]);
                            k += 1;
                            assert(token@ =~= v@.subrange(start + 1, k as int));
                        }
                        assert(token@ =~= after.take(end - start - 1));
                        assert(after.skip(end - start - 1 + 1) =~= v@.skip(end + 1));
                        let ghost before = string_views(found@);
                        found.push(from_chars(&token));
                        assert(string_views(found@) =~= before.push(token@));
                        assert(placeholders_in(rest) == seq![token@] + placeholders_in(
                            v@.skip(end + 1),
                        ));
                        assert(string_views(found@) + placeholders_in(v@.skip(end + 1))
                            =~= before + placeholders_in(rest));
                        pos = end + 1;
                    },
                }
            },
        }
    }
    assert(v@.skip(pos as int) =~= Seq::<char>::empty());
    assert(string_views(found@) + placeholders_in(v@.skip(pos as int)) =~= string_views(found@));
    found
}


/// What reading an artifact's source file found.
pub enum SourceCheck {
    /// The source is a regular file.
    RegularFile,
    /// The source exists but is no regular file.
    NotRegularFile,
    /// The source cannot be read; the text says why.
    Unreadable(String),
}

/// One error where `cond` holds, none otherwise.
pub open spec fn when(cond: bool, msg: Seq<char>) -> Seq<Seq<char>> {
    if cond {
        seq![msg]
    } else {
        seq![]
    }
}

/// A relative path none of whose components is `..`.
pub open spec fn is_contained(p: Seq<char>) -> bool {
    !is_absolute(p) && !has_parent_dir(p)
}

/// The errors about the manifest as a whole.
pub open spec fn header_errors(m: ManifestView) -> Seq<Seq<char>> {
    when(m.version != 1, "unsupported manifest version "@ + decimal(m.version as nat) + "; expected 1"@)
        + when(m.converters.len() == 0, "no converters declared"@) + when(
        m.artifacts.len() == 0,
        "no artifacts declared"@,
    ) + when(!is_contained(m.output_dir), "output_dir must be relative and cannot contain .."@)
        + when(!is_contained(m.report), "report must be relative and cannot contain .."@)
}

/// An earlier converter has the same name as converter `i`, ASCII case aside.
pub open spec fn name_taken(cs: Seq<ConverterView>, i: int) -> bool {
    exists|j: int| 0 <= j < i && #[trigger] lower_seq(cs[j].name) == lower_seq(cs[i].name)
}

/// One of `args` holds `pat`.
pub open spec fn args_mention(args: Seq<Seq<char>>, pat: Seq<char>) -> bool {
    exists|k: int| 0 <= k < args.len() && has_sub(#[trigger] args[k], pat)
}

/// An output extension that is empty or holds a separator or a dot.
pub open spec fn is_bad_extension(e: Seq<char>) -> bool {
    e.len() == 0 || e.contains('/') || e.contains('\\') || e.contains('.')
}

/// The placeholders that converter arguments may use.
pub open spec fn is_known_placeholder(t: Seq<char>) -> bool {
    t == "input"@ || t == "output"@ || t == "stem"@ || t == "source_name"@ || t == "manifest_dir"@
}

/// The errors about unknown placeholders among `toks`.
pub open spec fn token_errors(name: Seq<char>, toks: Seq<Seq<char>>) -> Seq<Seq<char>>
    decreases toks.len(),
{
    if toks.len() == 0 {
        seq![]
    } else {
        token_errors(name, toks.drop_last()) + when(
            !is_known_placeholder(toks.last()),
            "converter "@ + name + " uses unknown placeholder {"@ + toks.last() + "}"@,
        )
    }
}

/// The errors about unknown placeholders in the arguments `args`.
pub open spec fn placeholder_errors(name: Seq<char>, args: Seq<Seq<char>>) -> Seq<Seq<char>>
    decreases args.len(),
{
    if args.len() == 0 {
        seq![]
    } else {
        placeholder_errors(name, args.drop_last()) + token_errors(name, placeholders_in(args.last()))
    }
}

/// The errors about converter `i`.
pub open spec fn converter_errors(cs: Seq<ConverterView>, i: int) -> Seq<Seq<char>> {
    let c = cs[i];
    when(is_blank(c.name), "converter name cannot be empty"@) + when(
        name_taken(cs, i),
        "duplicate converter name: "@ + c.name,
    ) + when(is_blank(c.command), "converter "@ + c.name + " has an empty command"@) + when(
        !args_mention(c.args, "{input}"@),
        "converter "@ + c.name + " args must contain {input}"@,
    ) + when(
        !args_mention(c.args, "{output}"@),
        "converter "@ + c.name + " args must contain {output}"@,
    ) + when(
        is_bad_extension(c.output_extension),
        "converter "@ + c.name + " has an invalid output_extension"@,
    ) + when(
        is_blank(c.license) || is_blank(c.homepage),
        "converter "@ + c.name + " must declare license and homepage"@,
    ) + when(
        c.timeout_seconds == 0,
        "converter "@ + c.name + " timeout_seconds must be greater than zero"@,
    ) + placeholder_errors(c.name, c.args)
}

/// A placeholder name that converter arguments may use, listed out.
pub open spec fn is_listed_placeholder(t: Seq<char>) -> bool {
    ||| t == "input"@
    ||| t == "output"@
    ||| t == "stem"@
    ||| t == "source_name"@
    ||| t == "manifest_dir"@
}

/// The extension has at least one character and none of them is `/`, `\` or `.`.
pub open spec fn is_plain_extension(e: Seq<char>) -> bool {
    e.len() > 0 && forall|t: int| 0 <= t < e.len() ==> #[trigger] e[t] != '/' && e[t] != '\\' && e[t] != '.'
}

/// Converter `i` of `cs` declares everything a converter must: a name that no earlier
/// converter has (ASCII case aside), a command, arguments that hold `{input}` and
/// `{output}` and use only listed placeholders, a plain output extension, a license, a
/// homepage and a timeout.
pub open spec fn converter_is_sound(cs: Seq<ConverterView>, i: int) -> bool {
    let c = cs[i];
    &&& !is_blank(c.name)
    &&& forall|j: int| 0 <= j < i ==> lower_seq(#[trigger] cs[j].name) != lower_seq(c.name)
    &&& !is_blank(c.command)
    &&& exists|k: int| 0 <= k < c.args.len() && has_sub(#[trigger] c.args[k], "{input}"@)
    &&& exists|k: int| 0 <= k < c.args.len() && has_sub(#[trigger] c.args[k], "{output}"@)
    &&& is_plain_extension(c.output_extension)
    &&& !is_blank(c.license)
    &&& !is_blank(c.homepage)
    &&& c.timeout_seconds > 0
    &&& forall|k: int, t: int|
        0 <= k < c.args.len() && 0 <= t < placeholders_in(c.args[k]).len() ==> is_listed_placeholder(
            #[trigger] placeholders_in(c.args[k])[t],
        )
}

proof fn lemma_token_errors_empty(name: Seq<char>, toks: Seq<Seq<char>>)
    requires
        forall|t: int| 0 <= t < toks.len() ==> is_listed_placeholder(#[trigger] toks[t]),
    ensures
        token_errors(name, toks).len() == 0,
    decreases toks.len(),
{
    if toks.len() > 0 {
        assert(is_listed_placeholder(toks[toks.len() - 1]));
        lemma_token_errors_empty(name, toks.drop_last());
    }
}

proof fn lemma_placeholder_errors_empty(name: Seq<char>, args: Seq<Seq<char>>)
    requires
        forall|k: int, t: int|
            0 <= k < args.len() && 0 <= t < placeholders_in(args[k]).len() ==> is_listed_placeholder(
                #[trigger] placeholders_in(args[k])[t],
            ),
    ensures
        placeholder_errors(name, args).len() == 0,
    decreases args.len(),
{
    if args.len() > 0 {
        let last = args[args.len() - 1];
        assert forall|t: int| 0 <= t < placeholders_in(last).len() implies is_listed_placeholder(
            #[trigger] placeholders_in(last)[t],
        ) by {
            assert(is_listed_placeholder(placeholders_in(args[args.len() - 1])[t]));
        }
        lemma_token_errors_empty(name, placeholders_in(last));
        let rest = args.drop_last();
        assert forall|k: int, t: int|
            0 <= k < rest.len() && 0 <= t < placeholders_in(rest[k]).len() implies is_listed_placeholder(
            #[trigger] placeholders_in(rest[k])[t],
        ) by {
            assert(rest[k] == args[k]);
            assert(is_listed_placeholder(placeholders_in(args[k])[t]));
        }
        lemma_placeholder_errors_empty(name, rest);
    }
}

/// A converter that declares everything a converter must draws no error; in particular
/// any non-empty extension without `/`, `\` or `.` (`html`, `docx`, `jpeg`) is accepted.
pub proof fn law_sound_converter_is_accepted(cs: Seq<ConverterView>, i: int)
    requires
        0 <= i < cs.len(),
        converter_is_sound(cs, i),
    ensures
        converter_errors(cs, i).len() == 0,
{
    let c = cs[i];
    assert(!name_taken(cs, i));
    assert(args_mention(c.args, "{input}"@));
    assert(args_mention(c.args, "{output}"@));
    assert(!is_bad_extension(c.output_extension)) by {
        let e = c.output_extension;
        if e.contains('/') || e.contains('\\') || e.contains('.') {
            let t = choose|t: int| 0 <= t < e.len() && (e[t] == '/' || e[t] == '\\' || e[t] == '.');
            assert(e[t] != '/' && e[t] != '\\' && e[t] != '.');
        }
    }
    lemma_placeholder_errors_empty(c.name, c.args);
}

/// A converter whose output extension is empty or holds `/`, `\` or `.` draws the error
/// that says so.
pub proof fn law_bad_extension_is_refused(cs: Seq<ConverterView>, i: int)
    requires
        0 <= i < cs.len(),
        ({
            let e = cs[i].output_extension;
            e.len() == 0 || exists|t: int|
                0 <= t < e.len() && (#[trigger] e[t] == '/' || e[t] == '\\' || e[t] == '.')
        }),
    ensures
        converter_errors(cs, i).contains(
            "converter "@ + cs[i].name + " has an invalid output_extension"@,
        ),
{
    let c = cs[i];
    let msg = "converter "@ + c.name + " has an invalid output_extension"@;
    let e = c.output_extension;
    assert(is_bad_extension(e)) by {
        if e.len() > 0 {
            let t = choose|t: int| 0 <= t < e.len() && (#[trigger] e[t] == '/' || e[t] == '\\' || e[t] == '.');
            if e[t] == '/' {
                assert(e.contains('/'));
            } else if e[t] == '\\' {
                assert(e.contains('\\'));
            } else {
                assert(e.contains('.'));
            }
        }
    }
    let pre = when(is_blank(c.name), "converter name cannot be empty"@) + when(
        name_taken(cs, i),
        "duplicate converter name: "@ + c.name,
    ) + when(is_blank(c.command), "converter "@ + c.name + " has an empty command"@) + when(
        !args_mention(c.args, "{input}"@),
        "converter "@ + c.name + " args must contain {input}"@,
    ) + when(
        !args_mention(c.args, "{output}"@),
        "converter "@ + c.name + " args must contain {output}"@,
    );
    let errs = converter_errors(cs, i);
    assert(errs[pre.len() as int] == msg);
}

/// The error that refuses the output extension of a converter named `name`.
pub open spec fn bad_extension_error(name: Seq<char>) -> Seq<char> {
    "converter "@ + name + " has an invalid output_extension"@
}

proof fn lemma_not_in_either(a: Seq<Seq<char>>, b: Seq<Seq<char>>, x: Seq<char>)
    requires
        !a.contains(x),
        !b.contains(x),
    ensures
        !(a + b).contains(x),
{
    if (a + b).contains(x) {
        let i = choose|i: int| 0 <= i < (a + b).len() && (a + b)[i] == x;
        if i < a.len() {
            assert(a[i] == x);
        } else {
            assert(b[i - a.len()] == x);
        }
    }
}

/// A message about converter `name` whose text after the name differs from that of the
/// extension error at some place `j` is another message.
proof fn lemma_other_converter_message(name: Seq<char>, tail: Seq<char>, j: int)
    requires
        0 <= j < tail.len(),
        j < " has an invalid output_extension"@.len(),
        tail[j] != " has an invalid output_extension"@[j],
    ensures
        "converter "@ + name + tail != bad_extension_error(name),
{
    reveal_strlit("converter ");
    let k = (10 + name.len() + j) as int;
    assert(("converter "@ + name + tail)[k] == tail[j]);
    assert(bad_extension_error(name)[k] == " has an invalid output_extension"@[j]);
}

proof fn lemma_token_errors_skip_extension(name: Seq<char>, toks: Seq<Seq<char>>)
    ensures
        !token_errors(name, toks).contains(bad_extension_error(name)),
    decreases toks.len(),
{
    if toks.len() > 0 {
        lemma_token_errors_skip_extension(name, toks.drop_last());
        let t = toks.last();
        let tail = " uses unknown placeholder {"@ + t + "}"@;
        reveal_strlit(" uses unknown placeholder {");
        reveal_strlit(" has an invalid output_extension");
        assert(tail[1] == 'u');
        lemma_other_converter_message(name, tail, 1);
        assert("converter "@ + name + " uses unknown placeholder {"@ + t + "}"@ =~= "converter "@
            + name + tail);
        lemma_not_in_either(
            token_errors(name, toks.drop_last()),
            when(
                !is_known_placeholder(t),
                "converter "@ + name + " uses unknown placeholder {"@ + t + "}"@,
            ),
            bad_extension_error(name),
        );
    }
}

proof fn lemma_placeholder_errors_skip_extension(name: Seq<char>, args: Seq<Seq<char>>)
    ensures
        !placeholder_errors(name, args).contains(bad_extension_error(name)),
    decreases args.len(),
{
    if args.len() > 0 {
        lemma_placeholder_errors_skip_extension(name, args.drop_last());
        lemma_token_errors_skip_extension(name, placeholders_in(args.last()));
        lemma_not_in_either(
            placeholder_errors(name, args.drop_last()),
            token_errors(name, placeholders_in(args.last())),
            bad_extension_error(name),
        );
    }
}

/// A converter whose output extension is non-empty and holds no `/`, `\` or `.` never
/// draws the output extension error, whatever else is wrong with it.
pub proof fn law_plain_extension_is_not_refused(cs: Seq<ConverterView>, i: int)
    requires
        0 <= i < cs.len(),
        is_plain_extension(cs[i].output_extension),
    ensures
        !converter_errors(cs, i).contains(bad_extension_error(cs[i].name)),
{
    let c = cs[i];
    let name = c.name;
    let msg = bad_extension_error(name);
    let e = c.output_extension;
    assert(!is_bad_extension(e)) by {
        if e.contains('/') || e.contains('\\') || e.contains('.') {
            let t = choose|t: int| 0 <= t < e.len() && (e[t] == '/' || e[t] == '\\' || e[t] == '.');
            assert(e[t] != '/' && e[t] != '\\' && e[t] != '.');
        }
    }
    reveal_strlit("converter name cannot be empty");
    reveal_strlit("duplicate converter name: ");
    reveal_strlit(" has an empty command");
    reveal_strlit(" args must contain {input}");
    reveal_strlit(" args must contain {output}");
    reveal_strlit(" must declare license and homepage");
    reveal_strlit(" timeout_seconds must be greater than zero");
    reveal_strlit("converter ");
    reveal_strlit(" has an invalid output_extension");
    let w1 = when(is_blank(name), "converter name cannot be empty"@);
    assert(!w1.contains(msg)) by {
        if w1.contains(msg) {
            assert("converter name cannot be empty"@.len() != msg.len());
        }
    }
    let w2 = when(name_taken(cs, i), "duplicate converter name: "@ + name);
    assert(!w2.contains(msg)) by {
        if w2.contains(msg) {
            assert(("duplicate converter name: "@ + name)[0] != msg[0]);
        }
    }
    lemma_other_converter_message(name, " has an empty command"@, 8);
    lemma_other_converter_message(name, " args must contain {input}"@, 1);
    lemma_other_converter_message(name, " args must contain {output}"@, 1);
    lemma_other_converter_message(name, " must declare license and homepage"@, 1);
    lemma_other_converter_message(name, " timeout_seconds must be greater than zero"@, 1);
    let w3 = when(is_blank(c.command), "converter "@ + name + " has an empty command"@);
    let w4 = when(!args_mention(c.args, "{input}"@), "converter "@ + name + " args must contain {input}"@);
    let w5 = when(!args_mention(c.args, "{output}"@), "converter "@ + name + " args must contain {output}"@);
    let w6 = when(is_bad_extension(e), msg);
    let w7 = when(is_blank(c.license) || is_blank(c.homepage), "converter "@ + name + " must declare license and homepage"@);
    let w8 = when(c.timeout_seconds == 0, "converter "@ + name + " timeout_seconds must be greater than zero"@);
    let w9 = placeholder_errors(name, c.args);
    lemma_placeholder_errors_skip_extension(name, c.args);
    assert(w6 =~= Seq::<Seq<char>>::empty());
    lemma_not_in_either(w1, w2, msg);
    lemma_not_in_either(w1 + w2, w3, msg);
    lemma_not_in_either(w1 + w2 + w3, w4, msg);
    lemma_not_in_either(w1 + w2 + w3 + w4, w5, msg);
    lemma_not_in_either(w1 + w2 + w3 + w4 + w5, w6, msg);
    lemma_not_in_either(w1 + w2 + w3 + w4 + w5 + w6, w7, msg);
    lemma_not_in_either(w1 + w2 + w3 + w4 + w5 + w6 + w7, w8, msg);
    lemma_not_in_either(w1 + w2 + w3 + w4 + w5 + w6 + w7 + w8, w9, msg);
    assert(converter_errors(cs, i) == w1 + w2 + w3 + w4 + w5 + w6 + w7 + w8 + w9);
}

/// The errors about the first `n` converters.
pub open spec fn converters_errors(cs: Seq<ConverterView>, n: int) -> Seq<Seq<char>>
    decreases n,
{
    if n <= 0 {
        seq![]
    } else {
        converters_errors(cs, n - 1) + converter_errors(cs, n - 1)
    }
}

/// The converter that an artifact naming `name` runs: the last one of that exact name.
pub open spec fn converter_index(cs: Seq<ConverterView>, name: Seq<char>) -> Option<int>
    decreases cs.len(),
{
    if cs.len() == 0 {
        None
    } else if cs.last().name == name {
        Some(cs.len() - 1)
    } else {
        converter_index(cs.drop_last(), name)
    }
}

/// The converter that `converter_index` finds is one of `cs`, of that name.
pub proof fn lemma_converter_index(cs: Seq<ConverterView>, name: Seq<char>)
    ensures
        converter_index(cs, name) matches Some(k) ==> 0 <= k < cs.len() && cs[k].name == name,
    decreases cs.len(),
{
    if cs.len() > 0 && cs.last().name != name {
        lemma_converter_index(cs.drop_last(), name);
    }
}

/// The output path of artifact `i`, where its converter is known.
pub open spec fn planned_output(m: ManifestView, i: int) -> Option<Seq<char>> {
    match converter_index(m.converters, m.artifacts[i].converter) {
        Some(k) => Some(output_name_of(m.artifacts[i], m.converters[k])),
        None => None,
    }
}

/// The text by which two outputs collide: separators made `/`, letters made small.
pub open spec fn collision_key(p: Seq<char>) -> Seq<char> {
    lower_seq(p.map_values(|c: char| if c == '\\' { '/' } else { c }))
}

/// An earlier artifact with a known converter has an output that collides with that of
/// artifact `i`.
pub open spec fn output_taken(m: ManifestView, i: int) -> bool {
    exists|j: int|
        0 <= j < i && #[trigger] planned_output(m, j) is Some && collision_key(
            planned_output(m, j)->0,
        ) == collision_key(planned_output(m, i)->0)
}

/// The collision keys of the outputs of the first `n` artifacts, where their converter is known.
pub open spec fn keys_before(m: ManifestView, n: int) -> Seq<Seq<char>>
    decreases n,
{
    if n <= 0 {
        seq![]
    } else {
        keys_before(m, n - 1) + match planned_output(m, n - 1) {
            Some(o) => seq![collision_key(o)],
            None => seq![],
        }
    }
}

/// How errors about artifact `i` begin.
pub open spec fn artifact_label(m: ManifestView, i: int) -> Seq<char> {
    "artifact "@ + decimal((i + 1) as nat) + " ("@ + m.artifacts[i].source + ")"@
}

/// The extension of `p`, or nothing.
pub open spec fn extension_or_empty(p: Seq<char>) -> Seq<char> {
    match extension(p) {
        Some(e) => e,
        None => seq![],
    }
}

/// The errors about the source of artifact `i`.
pub open spec fn source_errors(m: ManifestView, check: SourceCheck, i: int) -> Seq<Seq<char>> {
    let label = artifact_label(m, i);
    if !is_contained(m.artifacts[i].source) {
        seq![label + ": source must be relative and cannot contain .."@]
    } else {
        match check {
            SourceCheck::RegularFile => seq![],
            SourceCheck::NotRegularFile => seq![label + ": source is not a regular file"@],
            SourceCheck::Unreadable(e) => seq![label + ": source is not readable: "@ + e@],
        }
    }
}

/// Where the output of artifact `i` would land, given its output path `out`.
pub open spec fn final_output(l: LoadedManifestView, out: Seq<char>) -> Seq<char> {
    join(join(l.directory, l.manifest.output_dir), out)
}

/// Where the source of artifact `j` lies.
pub open spec fn source_path(l: LoadedManifestView, j: int) -> Seq<char> {
    join(l.directory, l.manifest.artifacts[j].source)
}

/// The errors about the sources of other artifacts, among the first `n`, that the output
/// of artifact `i`, landing on `target`, would overwrite.
pub open spec fn foreign_source_errors(
    l: LoadedManifestView,
    i: int,
    target: Seq<char>,
    n: int,
) -> Seq<Seq<char>>
    decreases n,
{
    if n <= 0 {
        seq![]
    } else {
        foreign_source_errors(l, i, target, n - 1) + when(
            n - 1 != i && same_path(target, source_path(l, n - 1)),
            artifact_label(l.manifest, i) + ": output would overwrite the source of artifact "@
                + decimal(n as nat),
        )
    }
}

/// The errors about the output of artifact `i`, exported by converter `k`.
pub open spec fn output_errors(l: LoadedManifestView, i: int, k: int) -> Seq<Seq<char>> {
    let m = l.manifest;
    let a = m.artifacts[i];
    let c = m.converters[k];
    let label = artifact_label(m, i);
    let out = output_name_of(a, c);
    when(!is_contained(out), label + ": output must be relative and cannot contain .."@) + when(
        lower_seq(extension_or_empty(out)) != lower_seq(c.output_extension),
        label + ": output extension must be ."@ + c.output_extension,
    ) + when(output_taken(m, i), label + ": output collides with another artifact: "@ + out)
        + when(
        same_path(final_output(l, out), source_path(l, i)),
        label + ": output would overwrite its source file"@,
    ) + foreign_source_errors(l, i, final_output(l, out), m.artifacts.len() as int)
}

/// The errors about artifact `i`.
pub open spec fn artifact_errors(l: LoadedManifestView, checks: Seq<SourceCheck>, i: int) -> Seq<
    Seq<char>,
> {
    let m = l.manifest;
    source_errors(m, checks[i], i) + match converter_index(m.converters, m.artifacts[i].converter) {
        None => seq![artifact_label(m, i) + ": unknown converter "@ + m.artifacts[i].converter],
        Some(k) => output_errors(l, i, k),
    }
}

/// The errors about the first `n` artifacts.
pub open spec fn artifacts_errors(l: LoadedManifestView, checks: Seq<SourceCheck>, n: int) -> Seq<
    Seq<char>,
>
    decreases n,
{
    if n <= 0 {
        seq![]
    } else {
        artifacts_errors(l, checks, n - 1) + artifact_errors(l, checks, n - 1)
    }
}

/// Every error that `validate` reports, in its order.
pub open spec fn validation_errors(l: LoadedManifestView, checks: Seq<SourceCheck>) -> Seq<
    Seq<char>,
> {
    header_errors(l.manifest) + converters_errors(
        l.manifest.converters,
        l.manifest.converters.len() as int,
    ) + artifacts_errors(l, checks, l.manifest.artifacts.len() as int)
}

/// Adds `msg` to `errors` where `cond` holds.
fn push_when(errors: &mut Vec<String>, cond: bool, msg: String)
    ensures
        string_views(final(errors)@) == string_views(old(errors)@) + when(cond, msg@),
{
    let ghost before = string_views(errors@);
    if cond {
        errors.push(msg);
        assert(string_views(errors@) =~= before + when(cond, msg@));
    } else {
        assert(string_views(errors@) =~= before + when(cond, msg@));
    }
}

/// Adds all of `more` to `errors`.
fn push_all(errors: &mut Vec<String>, more: &Vec<String>)
    ensures
        string_views(final(errors)@) == string_views(old(errors)@) + string_views(more@),
{
    let ghost before = string_views(errors@);
    let mut i: usize = 0;
    while i < more.len()
        invariant
            i <= more.len(),
            string_views(errors@) == before + string_views(more@).take(i as int),
        decreases more.len() - i,
    {
        let item: &String = &more[i];
        let c = item.clone();
        let ghost prev = string_views(errors@);
        errors.push(c);
        assert(string_views(errors@) =~= prev.push(more@[i as int]@));
        i += 1;
        assert(string_views(errors@) =~= before + string_views(more@).take(i as int));
    }
    assert(string_views(more@).take(more.len() as int) =~= string_views(more@));
}

/// Whether `p` is relative and free of `..`.
pub fn is_contained_path(p: &str) -> (r: bool)
    ensures
        r == is_contained(p@),
{
    !path_is_absolute(p) && !contains_parent(p)
}

/// The errors about the manifest as a whole.
fn header_checks(m: &Manifest) -> (res: Vec<String>)
    ensures
        string_views(res@) == header_errors(m@),
{
    let mut errors: Vec<String> = Vec::new();
    push_when(
        &mut errors,
        m.version != 1,
        text3("unsupported manifest version ", &decimal_string(m.version as u64), "; expected 1"),
    );
    assert(string_views(errors@) =~= when(
        m.version != 1,
        "unsupported manifest version "@ + decimal(m.version as nat) + "; expected 1"@,
    ));
    push_when(&mut errors, m.converters.len() == 0, String::from_str("no converters declared"));
    push_when(&mut errors, m.artifacts.len() == 0, String::from_str("no artifacts declared"));
    push_when(
        &mut errors,
        !is_contained_path(&m.output_dir),
        String::from_str("output_dir must be relative and cannot contain .."),
    );
    push_when(
        &mut errors,
        !is_contained_path(&m.report),
        String::from_str("report must be relative and cannot contain .."),
    );
    errors
}

/// Whether `x` is one of `list`.
fn list_contains(list: &Vec<Vec<char>>, x: &Vec<char>) -> (r: bool)
    ensures
        r == exists|j: int| 0 <= j < list.len() && #[trigger] list@[j]@ == x@,
{
    let mut j: usize = 0;
    while j < list.len()
        invariant
            j <= list.len(),
            forall|k: int| 0 <= k < j ==> list@[k]@ != x@,
        decreases list.len() - j,
    {
        if chars_eq(&list[j], x) {
            return true;
        }
        j += 1;
    }
    false
}

/// Whether one of `args` holds `pat`.
fn any_arg_holds(args: &Vec<String>, pat: &str) -> (r: bool)
    ensures
        r == args_mention(string_views(args@), pat@),
{
    let p = to_chars(pat);
    let mut k: usize = 0;
    while k < args.len()
        invariant
            k <= args.len(),
            p@ == pat@,
            forall|j: int| 0 <= j < k ==> !has_sub(#[trigger] string_views(args@)[j], pat@),
        decreases args.len() - k,
    {
        let a = to_chars(&args[k]);
        if contains_seq(&a, &p) {
            assert(has_sub(string_views(args@)[k as int], pat@));
            return true;
        }
        k += 1;
    }
    false
}

/// Whether `t` names a placeholder that converter arguments may use.
fn known_placeholder(t: &str) -> (r: bool)
    ensures
        r == is_known_placeholder(t@),
{
    let v = to_chars(t);
    chars_eq(&v, &to_chars("input")) || chars_eq(&v, &to_chars("output")) || chars_eq(
        &v,
        &to_chars("stem"),
    ) || chars_eq(&v, &to_chars("source_name")) || chars_eq(&v, &to_chars("manifest_dir"))
}

/// The errors about unknown placeholders in `args`.
fn placeholder_checks(name: &str, args: &Vec<String>) -> (res: Vec<String>)
    ensures
        string_views(res@) == placeholder_errors(name@, string_views(args@)),
{
    let mut errors: Vec<String> = Vec::new();
    let mut j: usize = 0;
    assert(string_views(args@).take(0) =~= Seq::<Seq<char>>::empty());
    while j < args.len()
        invariant
            j <= args.len(),
            string_views(errors@) == placeholder_errors(name@, string_views(args@).take(j as int)),
        decreases args.len() - j,
    {
        let toks = placeholders(&args[j]);
        let ghost base = string_views(errors@);
        let ghost ts = string_views(toks@);
        assert(ts == placeholders_in(string_views(args@)[j as int]));
        let mut t: usize = 0;
        assert(base + token_errors(name@, ts.take(0)) =~= base);
        while t < toks.len()
            invariant
                t <= toks.len(),
                ts == string_views(toks@),
                string_views(errors@) == base + token_errors(name@, ts.take(t as int)),
            decreases toks.len() - t,
        {
            let known = known_placeholder(&toks[t]);
            let mut msg = text3("converter ", name, " uses unknown placeholder {");
            msg.append(&toks[t]);
            msg.append("}");
            let ghost prev = string_views(errors@);
            push_when(&mut errors, !known, msg);
            assert(ts.take(t + 1).drop_last() =~= ts.take(t as int));
            assert(ts.take(t + 1).last() == toks@[t as int]@);
            t += 1;
            assert(string_views(errors@) =~= base + token_errors(name@, ts.take(t as int)));
        }
        assert(ts.take(toks.len() as int) =~= ts);
        assert(string_views(args@).take(j + 1).drop_last() =~= string_views(args@).take(j as int));
        assert(string_views(args@).take(j + 1).last() == args@[j as int]@);
        j += 1;
    }
    assert(string_views(args@).take(args.len() as int) =~= string_views(args@));
    errors
}

/// The errors about converter `i`, given the lowercase names of those before it.
fn converter_checks(m: &Manifest, i: usize, names: &Vec<Vec<char>>) -> (res: Vec<String>)
    requires
        i < m.converters.len(),
        names.len() == i,
        forall|j: int| 0 <= j < i ==> #[trigger] names@[j]@ == lower_seq(m@.converters[j].name),
    ensures
        string_views(res@) == converter_errors(m@.converters, i as int),
{
    let c = &m.converters[i];
    let ghost cs = m@.converters;
    assert(c@ == cs[i as int]);
    let mut errors: Vec<String> = Vec::new();
    push_when(
        &mut errors,
        is_blank_str(&c.name),
        String::from_str("converter name cannot be empty"),
    );
    assert(string_views(errors@) =~= when(is_blank(c@.name), "converter name cannot be empty"@));
    let lower = to_chars(&to_lower(&c.name));
    let taken = list_contains(names, &lower);
    proof {
        if taken {
            let j = choose|j: int| 0 <= j < names.len() && #[trigger] names@[j]@ == lower@;
            assert(lower_seq(cs[j].name) == lower_seq(cs[i as int].name));
        }
        if name_taken(cs, i as int) {
            let j = choose|j: int|
                0 <= j < i && #[trigger] lower_seq(cs[j].name) == lower_seq(cs[i as int].name);
            assert(names@[j]@ == lower@);
        }
    }
    push_when(&mut errors, taken, text2("duplicate converter name: ", &c.name));
    push_when(
        &mut errors,
        is_blank_str(&c.command),
        text3("converter ", &c.name, " has an empty command"),
    );
    push_when(
        &mut errors,
        !any_arg_holds(&c.args, "{input}"),
        text3("converter ", &c.name, " args must contain {input}"),
    );
    push_when(
        &mut errors,
        !any_arg_holds(&c.args, "{output}"),
        text3("converter ", &c.name, " args must contain {output}"),
    );
    let e = &c.output_extension;
    let bad_extension = to_chars(e).len() == 0 || contains_char(e, '/') || contains_char(e, '\\')
        || contains_char(e, '.');
    push_when(
        &mut errors,
        bad_extension,
        text3("converter ", &c.name, " has an invalid output_extension"),
    );
    push_when(
        &mut errors,
        is_blank_str(&c.license) || is_blank_str(&c.homepage),
        text3("converter ", &c.name, " must declare license and homepage"),
    );
    push_when(
        &mut errors,
        c.timeout_seconds == 0,
        text3("converter ", &c.name, " timeout_seconds must be greater than zero"),
    );
    let more = placeholder_checks(&c.name, &c.args);
    push_all(&mut errors, &more);
    errors
}

/// The converter that an artifact naming `name` runs: the last one of that exact name.
pub fn find_converter(cs: &Vec<Converter>, name: &str) -> (r: Option<usize>)
    ensures
        match r {
            Some(k) => k < cs.len() && converter_index(cs@.map_values(|c: Converter| c@), name@)
                == Some(k as int),
            None => converter_index(cs@.map_values(|c: Converter| c@), name@) is None,
        },
{
    let ghost cv = cs@.map_values(|c: Converter| c@);
    let target = to_chars(name);
    let mut k: usize = cs.len();
    assert(cv.take(cv.len() as int) =~= cv);
    while k > 0
        invariant
            k <= cs.len(),
            cv == cs@.map_values(|c: Converter| c@),
            target@ == name@,
            converter_index(cv, name@) == converter_index(cv.take(k as int), name@),
        decreases k,
    {
        let ghost pre = cv.take(k as int);
        assert(pre.last() == cs@[k - 1]@);
        assert(pre.drop_last() =~= cv.take(k - 1));
        if chars_eq(&to_chars(&cs[k - 1].name), &target) {
            return Some(k - 1);
        }
        k -= 1;
    }
    None
}

/// The collision key of an output path.
fn collision_key_of(p: &str) -> (res: Vec<char>)
    ensures
        res@ == collision_key(p@),
{
    let v = to_chars(p);
    let mut res: Vec<char> = Vec::new();
    let mut i: usize = 0;
    while i < v.len()
        invariant
            i <= v.len(),
            v@ == p@,
            res@ == collision_key(p@).take(i as int),
        decreases v.len() - i,
    {
        let c = if v[i] == '\\' {
            '/'
        } else {
            v[i]
        };
        res.push(crate::text::lower_char(c));
        i += 1;
        assert(res@ =~= collision_key(p@).take(i as int));
    }
    assert(collision_key(p@).take(v.len() as int) =~= collision_key(p@));
    res
}

/// The keys before artifact `n` are exactly those of the earlier artifacts with a known
/// converter.
proof fn lemma_keys_before(m: ManifestView, n: int, x: Seq<char>)
    requires
        0 <= n,
    ensures
        keys_before(m, n).contains(x) <==> exists|j: int|
            0 <= j < n && #[trigger] planned_output(m, j) is Some && collision_key(
                planned_output(m, j)->0,
            ) == x,
    decreases n,
{
    if n > 0 {
        lemma_keys_before(m, n - 1, x);
        let prev = keys_before(m, n - 1);
        let tail = match planned_output(m, n - 1) {
            Some(o) => seq![collision_key(o)],
            None => seq![],
        };
        assert(keys_before(m, n) == prev + tail);
        if keys_before(m, n).contains(x) {
            let k = choose|k: int| 0 <= k < keys_before(m, n).len() && keys_before(m, n)[k] == x;
            if k < prev.len() {
                assert(prev[k] == x);
            } else {
                assert(planned_output(m, n - 1) is Some);
            }
        }
        if exists|j: int|
            0 <= j < n && #[trigger] planned_output(m, j) is Some && collision_key(
                planned_output(m, j)->0,
            ) == x {
            let j = choose|j: int|
                0 <= j < n && #[trigger] planned_output(m, j) is Some && collision_key(
                    planned_output(m, j)->0,
                ) == x;
            if j < n - 1 {
                let k = choose|k: int| 0 <= k < prev.len() && prev[k] == x;
                assert(keys_before(m, n)[k] == x);
            } else {
                assert(keys_before(m, n)[prev.len() as int] == x);
            }
        }
    }
}

/// The errors about artifact `i`, with the collision key of its output where its converter
/// is known.
fn artifact_checks(
    loaded: &LoadedManifest,
    sources: &Vec<SourceCheck>,
    i: usize,
    keys: &Vec<Vec<char>>,
) -> (res: (Vec<String>, Option<Vec<char>>))
    requires
        i < loaded.manifest.artifacts.len(),
        sources.len() == loaded.manifest.artifacts.len(),
        seq_views(keys@) == keys_before(loaded@.manifest, i as int),
    ensures
        string_views(res.0@) == artifact_errors(loaded@, sources@, i as int),
        match res.1 {
            Some(k) => planned_output(loaded@.manifest, i as int) is Some && k@ == collision_key(
                planned_output(loaded@.manifest, i as int)->0,
            ),
            None => planned_output(loaded@.manifest, i as int) is None,
        },
{
    let ghost l = loaded@;
    let ghost m = l.manifest;
    let m_exec = &loaded.manifest;
    let a = &m_exec.artifacts[i];
    assert(a@ == m.artifacts[i as int]);
    let mut label = text3("artifact ", &decimal_string((i + 1) as u64), " (");
    label.append(&a.source);
    label.append(")");
    assert(label@ == artifact_label(m, i as int));
    let mut errors: Vec<String> = Vec::new();
    if !is_contained_path(&a.source) {
        errors.push(text2(&label, ": source must be relative and cannot contain .."));
    } else {
        match &sources[i] {
            SourceCheck::RegularFile => {},
            SourceCheck::NotRegularFile => {
                errors.push(text2(&label, ": source is not a regular file"));
            },
            SourceCheck::Unreadable(e) => {
                errors.push(text3(&label, ": source is not readable: ", e));
            },
        }
    }
    assert(string_views(errors@) =~= source_errors(m, sources@[i as int], i as int));
    let ghost base = string_views(errors@);
    match find_converter(&m_exec.converters, &a.converter) {
        None => {
            errors.push(text3(&label, ": unknown converter ", &a.converter));
            assert(string_views(errors@) =~= artifact_errors(l, sources@, i as int));
            (errors, None)
        },
        Some(k) => {
            let c = &m_exec.converters[k];
            assert(c@ == m.converters[k as int]);
            let out = output_name(a, c);
            let mut more: Vec<String> = Vec::new();
            push_when(
                &mut more,
                !is_contained_path(&out),
                text2(&label, ": output must be relative and cannot contain .."),
            );
            assert(string_views(more@) =~= when(
                !is_contained(out@),
                label@ + ": output must be relative and cannot contain .."@,
            ));
            let ext = match path_extension(&out) {
                Some(v) => from_chars(&v),
                None => String::new(),
            };
            assert(ext@ == extension_or_empty(out@));
            push_when(
                &mut more,
                !eq_ignore_ascii_case(&ext, &c.output_extension),
                text3(&label, ": output extension must be .", &c.output_extension),
            );
            let key = collision_key_of(&out);
            let taken = list_contains(keys, &key);
            proof {
                lemma_keys_before(m, i as int, key@);
                if taken {
                    let j = choose|j: int| 0 <= j < keys.len() && #[trigger] keys@[j]@ == key@;
                    assert(seq_views(keys@)[j] == key@);
                    assert(keys_before(m, i as int).contains(key@));
                }
                if output_taken(m, i as int) {
                    assert(keys_before(m, i as int).contains(key@));
                    let j = choose|j: int|
                        0 <= j < keys_before(m, i as int).len() && keys_before(m, i as int)[j]
                            == key@;
                    assert(keys@[j]@ == key@);
                }
            }
            push_when(
                &mut more,
                taken,
                text3(&label, ": output collides with another artifact: ", &out),
            );
            let target = join_path(&join_path(&loaded.directory, &m_exec.output_dir), &out);
            let source = join_path(&loaded.directory, &a.source);
            push_when(
                &mut more,
                same_path_str(&target, &source),
                text2(&label, ": output would overwrite its source file"),
            );
            let others = foreign_source_checks(loaded, i, &label, &target);
            push_all(&mut more, &others);
            assert(string_views(more@) == output_errors(l, i as int, k as int));
            push_all(&mut errors, &more);
            (errors, Some(key))
        },
    }
}

/// The errors about the sources of other artifacts that the output of artifact `i`,
/// landing on `target`, would overwrite.
fn foreign_source_checks(loaded: &LoadedManifest, i: usize, label: &String, target: &String) -> (res:
    Vec<String>)
    requires
        i < loaded.manifest.artifacts.len(),
        label@ == artifact_label(loaded@.manifest, i as int),
    ensures
        string_views(res@) == foreign_source_errors(
            loaded@,
            i as int,
            target@,
            loaded.manifest.artifacts.len() as int,
        ),
{
    let mut errors: Vec<String> = Vec::new();
    let mut j: usize = 0;
    while j < loaded.manifest.artifacts.len()
        invariant
            j <= loaded.manifest.artifacts.len(),
            i < loaded.manifest.artifacts.len(),
            label@ == artifact_label(loaded@.manifest, i as int),
            string_views(errors@) == foreign_source_errors(loaded@, i as int, target@, j as int),
        decreases loaded.manifest.artifacts.len() - j,
    {
        let a = &loaded.manifest.artifacts[j];
        assert(a@ == loaded@.manifest.artifacts[j as int]);
        let source = join_path(&loaded.directory, &a.source);
        let hit = j != i && same_path_str(target, &source);
        push_when(
            &mut errors,
            hit,
            text3(label, ": output would overwrite the source of artifact ", &decimal_string((j + 1) as u64)),
        );
        j += 1;
    }
    errors
}

/// Validate structure, dependencies, sources, placeholders, and output collisions.
///
/// `sources` holds, for each artifact in turn, what reading its source file found.
pub fn validate(loaded: &LoadedManifest, sources: &Vec<SourceCheck>) -> (res: Vec<String>)
    requires
        sources.len() == loaded.manifest.artifacts.len(),
    ensures
        string_views(res@) == validation_errors(loaded@, sources@),
{
    let m = &loaded.manifest;
    let ghost cs = m@.converters;
    let mut errors = header_checks(m);
    let mut names: Vec<Vec<char>> = Vec::new();
    let mut i: usize = 0;
    assert(string_views(errors@) =~= header_errors(m@) + converters_errors(cs, 0));
    while i < m.converters.len()
        invariant
            i <= m.converters.len(),
            cs == m@.converters,
            names.len() == i,
            forall|j: int| 0 <= j < i ==> #[trigger] names@[j]@ == lower_seq(cs[j].name),
            string_views(errors@) == header_errors(m@) + converters_errors(cs, i as int),
        decreases m.converters.len() - i,
    {
        let more = converter_checks(m, i, &names);
        let ghost before = string_views(errors@);
        push_all(&mut errors, &more);
        assert(string_views(errors@) =~= header_errors(m@) + converters_errors(cs, i + 1));
        let lower = to_chars(&to_lower(&m.converters[i].name));
        assert(m.converters@[i as int]@ == cs[i as int]);
        names.push(lower);
        i += 1;
    }
    let ghost head = string_views(errors@);
    let mut keys: Vec<Vec<char>> = Vec::new();
    let mut j: usize = 0;
    assert(head + artifacts_errors(loaded@, sources@, 0) =~= head);
    assert(seq_views(keys@) =~= keys_before(m@, 0));
    while j < m.artifacts.len()
        invariant
            j <= m.artifacts.len(),
            sources.len() == m.artifacts.len(),
            m == &loaded.manifest,
            head == header_errors(m@) + converters_errors(cs, cs.len() as int),
            seq_views(keys@) == keys_before(m@, j as int),
            string_views(errors@) == head + artifacts_errors(loaded@, sources@, j as int),
        decreases m.artifacts.len() - j,
    {
        let (more, key) = artifact_checks(loaded, sources, j, &keys);
        push_all(&mut errors, &more);
        assert(string_views(errors@) =~= head + artifacts_errors(loaded@, sources@, j + 1));
        match key {
            Some(k) => {
                let ghost prev = seq_views(keys@);
                keys.push(k);
                assert(seq_views(keys@) =~= prev.push(collision_key(planned_output(m@, j as int)->0)));
                assert(seq_views(keys@) =~= keys_before(m@, j + 1));
            },
            None => {
                assert(seq_views(keys@) =~= keys_before(m@, j + 1));
            },
        }
        j += 1;
    }
    errors
}

/// The errors about the first `n` converters whose executable was not found: `found[i]`
/// tells whether converter `i`'s was.
pub open spec fn executable_errors(cs: Seq<ConverterView>, found: Seq<bool>, n: int) -> Seq<
    Seq<char>,
>
    decreases n,
{
    if n <= 0 {
        seq![]
    } else {
        executable_errors(cs, found, n - 1) + when(
            !found[n - 1],
            "converter executable not found on PATH: "@ + cs[n - 1].command,
        )
    }
}

/// The errors about converters whose executable is not on the search path; `found[i]`
/// tells whether converter `i`'s was found there.
pub fn missing_executables(manifest: &Manifest, found: &Vec<bool>) -> (res: Vec<String>)
    requires
        found.len() == manifest.converters.len(),
    ensures
        string_views(res@) == executable_errors(
            manifest@.converters,
            found@,
            manifest.converters.len() as int,
        ),
{
    let mut errors: Vec<String> = Vec::new();
    let mut i: usize = 0;
    while i < manifest.converters.len()
        invariant
            i <= manifest.converters.len(),
            found.len() == manifest.converters.len(),
            string_views(errors@) == executable_errors(manifest@.converters, found@, i as int),
        decreases manifest.converters.len() - i,
    {
        let c = &manifest.converters[i];
        assert(c@ == manifest@.converters[i as int]);
        push_when(
            &mut errors,
            !found[i],
            text2("converter executable not found on PATH: ", &c.command),
        );
        i += 1;
    }
    errors
}

/// The errors about the first `n` artifacts hold at least as many as those about any one
/// of them.
pub proof fn lemma_artifacts_errors_cover(
    l: LoadedManifestView,
    checks: Seq<SourceCheck>,
    n: int,
    i: int,
)
    requires
        0 <= i < n,
    ensures
        artifacts_errors(l, checks, n).len() >= artifact_errors(l, checks, i).len(),
    decreases n,
{
    if i < n - 1 {
        lemma_artifacts_errors_cover(l, checks, n - 1, i);
    }
}

/// The errors about other sources that an output would overwrite hold one for each such
/// source.
proof fn lemma_foreign_source_errors_cover(
    l: LoadedManifestView,
    i: int,
    target: Seq<char>,
    n: int,
    j: int,
)
    requires
        0 <= j < n,
        j != i,
        same_path(target, source_path(l, j)),
    ensures
        foreign_source_errors(l, i, target, n).len() > 0,
    decreases n,
{
    if j < n - 1 {
        lemma_foreign_source_errors_cover(l, i, target, n - 1, j);
    }
}

/// Artifact `i` of a manifest is safe to export: its source lies inside the manifest's
/// directory and is a regular file, its converter is known, its output lies inside the
/// output directory, lands on the source of no artifact (its own or another's), and
/// collides with no earlier artifact's output.
pub open spec fn artifact_is_safe(l: LoadedManifestView, checks: Seq<SourceCheck>, i: int) -> bool {
    let m = l.manifest;
    let a = m.artifacts[i];
    let out = planned_output(m, i)->0;
    &&& is_contained(a.source)
    &&& checks[i] is RegularFile
    &&& planned_output(m, i) is Some
    &&& is_contained(out)
    &&& forall|j: int|
        0 <= j < m.artifacts.len() ==> !same_path(final_output(l, out), #[trigger] source_path(l, j))
    &&& forall|j: int|
        0 <= j < i ==> collision_key(#[trigger] planned_output(m, j)->0) != collision_key(out)
}

/// A manifest that passes validation keeps its output directory and report inside its own
/// directory, and every artifact of it is safe to export: no output lands on any
/// artifact's source, so every source file is preserved, and no two outputs collide.
pub proof fn law_valid_manifest_is_safe(l: LoadedManifestView, checks: Seq<SourceCheck>)
    requires
        validation_errors(l, checks).len() == 0,
    ensures
        is_contained(l.manifest.output_dir),
        is_contained(l.manifest.report),
        forall|i: int| 0 <= i < l.manifest.artifacts.len() ==> #[trigger] artifact_is_safe(l, checks, i),
{
    let m = l.manifest;
    let n = m.artifacts.len() as int;
    assert(header_errors(m).len() == 0);
    assert forall|i: int| 0 <= i < n implies #[trigger] artifact_is_safe(l, checks, i) by {
        lemma_artifacts_errors_cover(l, checks, n, i);
        assert(artifact_errors(l, checks, i).len() == 0);
        assert(source_errors(m, checks[i], i).len() == 0);
        let k = converter_index(m.converters, m.artifacts[i].converter);
        assert(k is Some);
        assert(output_errors(l, i, k->0).len() == 0);
        assert(!output_taken(m, i));
        let out = planned_output(m, i)->0;
        assert forall|j: int| 0 <= j < n implies !same_path(
            final_output(l, out),
            #[trigger] source_path(l, j),
        ) by {
            if j != i && same_path(final_output(l, out), source_path(l, j)) {
                lemma_foreign_source_errors_cover(l, i, final_output(l, out), n, j);
            }
        }
        assert forall|j: int| 0 <= j < i implies collision_key(
            #[trigger] planned_output(m, j)->0,
        ) != collision_key(out) by {
            lemma_artifacts_errors_cover(l, checks, n, j);
            assert(artifact_errors(l, checks, j).len() == 0);
            assert(planned_output(m, j) is Some);
        }
    }
}

/// Reading a path that holds no separator completes no component.
proof fn lemma_scan_without_separator(p: Seq<char>)
    requires
        !p.contains('/'),
    ensures
        scan(p) == (Seq::<Seq<char>>::empty(), p),
    decreases p.len(),
{
    if p.len() > 0 {
        assert(!p.drop_last().contains('/')) by {
            if p.drop_last().contains('/') {
                let k = choose|k: int| 0 <= k < p.drop_last().len() && p.drop_last()[k] == '/';
                assert(p[k] == '/');
            }
        }
        lemma_scan_without_separator(p.drop_last());
        assert(p.last() != '/') by {
            assert(p[p.len() - 1] == p.last());
        }
        assert(p.drop_last().push(p.last()) =~= p);
    }
}

/// The last dot of `x.e`, where `e` holds none, is the one after `x`.
proof fn lemma_last_dot(x: Seq<char>, e: Seq<char>)
    requires
        !e.contains('.'),
    ensures
        last_index(x + seq!['.'] + e, '.') == Some(x.len() as int),
    decreases e.len(),
{
    let q = x + seq!['.'] + e;
    if e.len() == 0 {
        assert(q.last() == '.');
    } else {
        assert(e[e.len() - 1] != '.');
        assert(q.last() == e.last());
        assert(!e.drop_last().contains('.')) by {
            if e.drop_last().contains('.') {
                let k = choose|k: int| 0 <= k < e.drop_last().len() && e.drop_last()[k] == '.';
                assert(e[k] == '.');
            }
        }
        lemma_last_dot(x, e.drop_last());
        assert(q.drop_last() =~= x + seq!['.'] + e.drop_last());
    }
}

/// Lowercasing twice is lowercasing once.
proof fn lemma_lower_twice(s: Seq<char>)
    ensures
        lower_seq(lower_seq(s)) == lower_seq(s),
{
    assert(lower_seq(lower_seq(s)) =~= lower_seq(s));
}

/// An output name derived from its source stays inside the output directory and carries
/// the converter's extension, where that extension is a valid one.
pub proof fn law_derived_output_name(a: ArtifactView, c: ConverterView)
    requires
        a.output is None,
        !is_bad_extension(c.output_extension),
    ensures
        is_contained(output_name_of(a, c)),
        lower_seq(extension_or_empty(output_name_of(a, c))) == lower_seq(c.output_extension),
{
    let raw = match file_stem(a.source) {
        Some(s) => s,
        None => "artifact"@,
    };
    let normal = normalized_stem(raw);
    lemma_normalized_stem_is_normalized(raw);
    reveal_strlit("artifact");
    let stem = if normal.len() == 0 {
        "artifact"@
    } else {
        normal
    };
    assert(stem.len() > 0);
    assert(forall|i: int| 0 <= i < stem.len() ==> #[trigger] is_stem_char(stem[i]));
    assert(is_stem_char(stem[0]));
    assert(stem[0] != '.');
    let ext = c.output_extension;
    let e = lower_seq(ext);
    assert(!e.contains('/') && !e.contains('.') && e.len() > 0) by {
        if e.contains('/') {
            let k = choose|k: int| 0 <= k < e.len() && e[k] == '/';
            assert(ext[k] == '/');
        }
        if e.contains('.') {
            let k = choose|k: int| 0 <= k < e.len() && e[k] == '.';
            assert(ext[k] == '.');
        }
    }
    let p = stem + seq!['.'] + e;
    assert(p == output_name_of(a, c));
    assert(!p.contains('/')) by {
        if p.contains('/') {
            let k = choose|k: int| 0 <= k < p.len() && p[k] == '/';
            if k < stem.len() {
                assert(is_stem_char(stem[k]));
            } else if k > stem.len() {
                assert(e[k - stem.len() - 1] == '/');
            }
        }
    }
    lemma_scan_without_separator(p);
    assert(!is_skipped(p)) by {
        assert(p.len() >= 3);
    }
    assert(p[0] == stem[0]);
    assert(components(p) == seq![p]);
    assert(!has_parent_dir(p)) by {
        if components(p).contains(seq!['.', '.']) {
            assert(p == seq!['.', '.']);
            assert(p.len() >= 3);
        }
    }
    assert(file_name(p) == Some(p)) by {
        assert(p != seq!['.']) by {
            assert(p.len() >= 3);
        }
        assert(p != seq!['.', '.']) by {
            assert(p.len() >= 3);
        }
    }
    lemma_last_dot(stem, e);
    assert(p.skip(stem.len() + 1 as int) =~= e);
    assert(extension_or_empty(p) == e);
    lemma_lower_twice(ext);
}

} // verus!
