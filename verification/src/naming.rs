//! Output names: a portable stem for each source, and the output path of an artifact.
use vstd::prelude::*;
use crate::manifest::{Artifact, ArtifactView, Converter, ConverterView};
use crate::paths::{file_name, file_stem, path_file_stem};
use crate::text::{
    ascii_lower, from_chars, last_index, lemma_last_index, is_alnum_char, is_ascii_alnum, lower_char, lower_seq, to_chars,
    to_lower,
};

verus! {

/// The longest stem, in characters, that `normalize_stem` returns.
pub const MAX_STEM_CHARS: usize = 96;

/// Reading `s` from the left: the lowercase words found so far, joined by `-`, and whether
/// a character that is no ASCII letter or digit has come since the last word character.
pub open spec fn words_scan(s: Seq<char>) -> (Seq<char>, bool)
    decreases s.len(),
{
    if s.len() == 0 {
        (seq![], false)
    } else {
        let (out, sep) = words_scan(s.drop_last());
        let c = s.last();
        if is_ascii_alnum(c) {
            let joined = if sep && out.len() > 0 {
                out.push('-')
            } else {
                out
            };
            (joined.push(ascii_lower(c)), false)
        } else {
            (out, true)
        }
    }
}

/// The runs of ASCII letters and digits of `s`, lowercased and joined by single dashes.
pub open spec fn joined_words(s: Seq<char>) -> Seq<char> {
    words_scan(s).0
}

/// `s` without the dashes it starts with.
pub open spec fn strip_leading_dashes(s: Seq<char>) -> Seq<char>
    decreases s.len(),
{
    if s.len() > 0 && s[0] == '-' {
        strip_leading_dashes(s.skip(1))
    } else {
        s
    }
}

/// `s` without the dashes it ends with.
pub open spec fn strip_trailing_dashes(s: Seq<char>) -> Seq<char>
    decreases s.len(),
{
    if s.len() > 0 && s.last() == '-' {
        strip_trailing_dashes(s.drop_last())
    } else {
        s
    }
}

/// `str::trim_matches('-')`.
pub open spec fn trim_dashes(s: Seq<char>) -> Seq<char> {
    strip_trailing_dashes(strip_leading_dashes(s))
}

/// The first `n` characters of `s`, or all of them where there are fewer.
pub open spec fn first_chars(s: Seq<char>, n: nat) -> Seq<char> {
    if s.len() <= n {
        s
    } else {
        s.take(n as int)
    }
}

/// The stable name that `normalize_stem` makes of `s`.
pub open spec fn normalized_stem(s: Seq<char>) -> Seq<char> {
    trim_dashes(first_chars(trim_dashes(joined_words(s)), MAX_STEM_CHARS as nat))
}

/// The output path of an artifact: the one it names, else its normalized source stem
/// (`artifact` where that is empty or there is none) with the converter's extension in
/// lowercase.
pub open spec fn output_name_of(a: ArtifactView, c: ConverterView) -> Seq<char> {
    match a.output {
        Some(p) => p,
        None => {
            let raw = match file_stem(a.source) {
                Some(s) => s,
                None => "artifact"@,
            };
            let stem = normalized_stem(raw);
            (if stem.len() == 0 {
                "artifact"@
            } else {
                stem
            }) + seq!['.'] + lower_seq(c.output_extension)
        },
    }
}

/// A character that a normalized stem may hold: a small ASCII letter, a digit or `-`.
pub open spec fn is_stem_char(c: char) -> bool {
    ('a' <= c && c <= 'z') || ('0' <= c && c <= '9') || c == '-'
}

/// Only stem characters, no dash at either end, and no two dashes in a row.
pub open spec fn is_clean(r: Seq<char>) -> bool {
    &&& forall|i: int| 0 <= i < r.len() ==> #[trigger] is_stem_char(r[i])
    &&& (r.len() > 0 ==> r[0] != '-' && r.last() != '-')
    &&& forall|i: int| 0 <= i < r.len() - 1 ==> !(#[trigger] r[i] == '-' && r[i + 1] == '-')
}

/// A normalized stem: clean and no longer than `MAX_STEM_CHARS`.
pub open spec fn is_normalized(r: Seq<char>) -> bool {
    is_clean(r) && r.len() <= MAX_STEM_CHARS
}

proof fn lemma_lower_alnum(c: char)
    requires
        is_ascii_alnum(c),
    ensures
        is_stem_char(ascii_lower(c)),
        ascii_lower(c) != '-',
{
}

proof fn lemma_words_scan_clean(s: Seq<char>)
    ensures
        is_clean(words_scan(s).0),
    decreases s.len(),
{
    if s.len() > 0 {
        lemma_words_scan_clean(s.drop_last());
        let (out, sep) = words_scan(s.drop_last());
        let c = s.last();
        if is_ascii_alnum(c) {
            lemma_lower_alnum(c);
            let joined = if sep && out.len() > 0 {
                out.push('-')
            } else {
                out
            };
            let r = joined.push(ascii_lower(c));
            assert(r == words_scan(s).0);
            assert forall|i: int| 0 <= i < r.len() implies #[trigger] is_stem_char(r[i]) by {
                if i < out.len() {
                    assert(r[i] == out[i]);
                }
            }
            assert forall|i: int| 0 <= i < r.len() - 1 implies !(#[trigger] r[i] == '-' && r[i
                + 1] == '-') by {
                if i < out.len() - 1 {
                    assert(r[i] == out[i] && r[i + 1] == out[i + 1]);
                }
            }
            if out.len() > 0 {
                assert(r[0] == out[0]);
            }
        }
    }
}

proof fn lemma_strip_clean(r: Seq<char>)
    requires
        r.len() == 0 || (r[0] != '-' && r.last() != '-'),
    ensures
        strip_leading_dashes(r) == r,
        strip_trailing_dashes(r) == r,
        trim_dashes(r) == r,
{
}

/// Cutting a clean text short and trimming its dashes leaves it clean.
proof fn lemma_cap_clean(w: Seq<char>, n: nat)
    requires
        is_clean(w),
    ensures
        is_clean(trim_dashes(first_chars(w, n))),
        trim_dashes(first_chars(w, n)).len() <= n,
        trim_dashes(first_chars(w, n)).len() + 1 >= first_chars(w, n).len(),
{
    let p = first_chars(w, n);
    assert forall|i: int| 0 <= i < p.len() implies p[i] == w[i] by {}
    assert(strip_leading_dashes(p) == p);
    if p.len() > 0 && p.last() == '-' {
        let q = p.drop_last();
        assert(p.len() >= 2) by {
            assert(p[0] != '-');
        }
        assert(q.last() != '-') by {
            assert(!(w[p.len() - 2] == '-' && w[p.len() - 1] == '-'));
        }
        assert(strip_trailing_dashes(p) == strip_trailing_dashes(q));
        assert(strip_trailing_dashes(q) == q);
        assert forall|i: int| 0 <= i < q.len() implies #[trigger] is_stem_char(q[i]) by {
            assert(is_stem_char(w[i]));
        }
        assert forall|i: int| 0 <= i < q.len() - 1 implies !(#[trigger] q[i] == '-' && q[i + 1]
            == '-') by {
            assert(!(w[i] == '-' && w[i + 1] == '-'));
        }
    } else {
        lemma_strip_clean(p);
        assert forall|i: int| 0 <= i < p.len() implies #[trigger] is_stem_char(p[i]) by {
            assert(is_stem_char(w[i]));
        }
        assert forall|i: int| 0 <= i < p.len() - 1 implies !(#[trigger] p[i] == '-' && p[i + 1]
            == '-') by {
            assert(!(w[i] == '-' && w[i + 1] == '-'));
        }
    }
}

/// What `normalize_stem` returns is normalized: small ASCII letters, digits and single
/// dashes between them, at most `MAX_STEM_CHARS` characters.
pub proof fn lemma_normalized_stem_is_normalized(s: Seq<char>)
    ensures
        is_normalized(normalized_stem(s)),
{
    let w = joined_words(s);
    lemma_words_scan_clean(s);
    lemma_strip_clean(w);
    lemma_cap_clean(w, MAX_STEM_CHARS as nat);
}

proof fn lemma_words_scan_of_clean(r: Seq<char>, k: int)
    requires
        is_clean(r),
        0 <= k <= r.len(),
    ensures
        words_scan(r.take(k)) == (if k > 0 && r[k - 1] == '-' {
            (r.take(k - 1), true)
        } else {
            (r.take(k), false)
        }),
    decreases k,
{
    if k > 0 {
        lemma_words_scan_of_clean(r, k - 1);
        let p = r.take(k);
        assert(p.drop_last() =~= r.take(k - 1));
        assert(p.last() == r[k - 1]);
        let c = r[k - 1];
        assert(is_stem_char(c));
        if c == '-' {
            assert(k >= 2);
            assert(r[k - 2] != '-') by {
                assert(!(r[k - 2] == '-' && r[k - 1] == '-'));
            }
        } else {
            assert(is_ascii_alnum(c));
            assert(ascii_lower(c) == c);
            if k >= 2 && r[k - 2] == '-' {
                assert(r.take(k - 2).len() > 0) by {
                    assert(r[0] != '-');
                }
                assert(r.take(k - 2).push('-').push(c) =~= r.take(k));
            } else {
                assert(r.take(k - 1).push(c) =~= r.take(k));
            }
        }
    } else {
        assert(r.take(0) =~= Seq::<char>::empty());
    }
}

/// A normalized stem is its own normalization: `normalize_stem` is stable.
pub proof fn lemma_normalize_stem_idempotent(s: Seq<char>)
    ensures
        normalized_stem(normalized_stem(s)) == normalized_stem(s),
{
    let r = normalized_stem(s);
    lemma_normalized_stem_is_normalized(s);
    lemma_words_scan_of_clean(r, r.len() as int);
    assert(r.take(r.len() as int) =~= r);
    lemma_strip_clean(r);
}

/// An ASCII letter or digit.
pub open spec fn is_letter_or_digit(c: char) -> bool {
    ('0' <= c && c <= '9') || ('a' <= c && c <= 'z') || ('A' <= c && c <= 'Z')
}

/// `r` with its dashes taken out.
pub open spec fn without_dashes(r: Seq<char>) -> Seq<char> {
    r.filter(|c: char| c != '-')
}

/// The ASCII letters and digits of `s`, in order, in lowercase.
pub open spec fn kept_chars(s: Seq<char>) -> Seq<char> {
    lower_seq(s.filter(|c: char| is_letter_or_digit(c)))
}

proof fn lemma_joined_words_keep_every_letter(s: Seq<char>)
    ensures
        without_dashes(joined_words(s)) == kept_chars(s),
    decreases s.len(),
{
    reveal_with_fuel(Seq::<_>::filter, 1);
    if s.len() == 0 {
        assert(kept_chars(s) =~= Seq::<char>::empty());
    } else {
        let t = s.drop_last();
        lemma_joined_words_keep_every_letter(t);
        let (out, sep) = words_scan(t);
        let c = s.last();
        assert(s.filter(|c: char| is_letter_or_digit(c)) == (if is_letter_or_digit(c) {
            t.filter(|c: char| is_letter_or_digit(c)).push(c)
        } else {
            t.filter(|c: char| is_letter_or_digit(c))
        }));
        if is_ascii_alnum(c) {
            lemma_lower_alnum(c);
            let joined = if sep && out.len() > 0 {
                out.push('-')
            } else {
                out
            };
            if sep && out.len() > 0 {
                assert(out.push('-').drop_last() =~= out);
                assert(without_dashes(joined) == without_dashes(out));
            }
            let r = joined.push(ascii_lower(c));
            assert(r.drop_last() =~= joined);
            assert(without_dashes(r) == without_dashes(joined).push(ascii_lower(c)));
            assert(kept_chars(s) =~= kept_chars(t).push(ascii_lower(c)));
        } else {
            assert(kept_chars(s) == kept_chars(t));
        }
    }
}

/// Normalizing keeps every ASCII letter and digit of its input, lowercased and in order,
/// and nothing else but dashes, unless the name was cut at `MAX_STEM_CHARS` (a result
/// shorter than 95 characters never was).
pub proof fn law_normalize_stem_keeps_letters(s: Seq<char>)
    ensures
        normalized_stem(s).len() < 95 ==> without_dashes(normalized_stem(s)) == kept_chars(s),
{
    let w = joined_words(s);
    lemma_words_scan_clean(s);
    lemma_strip_clean(w);
    lemma_cap_clean(w, MAX_STEM_CHARS as nat);
    lemma_joined_words_keep_every_letter(s);
    if w.len() <= 96 {
        assert(first_chars(w, MAX_STEM_CHARS as nat) == w);
        assert(normalized_stem(s) == w);
    }
}

proof fn lemma_without_dashes_push(x: Seq<char>, c: char)
    ensures
        without_dashes(x.push(c)) == (if c != '-' {
            without_dashes(x).push(c)
        } else {
            without_dashes(x)
        }),
{
    reveal_with_fuel(Seq::<_>::filter, 1);
    assert(x.push(c).drop_last() =~= x);
}

/// A clean text has at least one letter or digit for every two of its characters.
proof fn lemma_clean_prefix_length(r: Seq<char>, k: int)
    requires
        is_clean(r),
        0 <= k <= r.len(),
    ensures
        k <= 2 * without_dashes(r.take(k)).len(),
    decreases k,
{
    if k > 0 {
        lemma_clean_prefix_length(r, k - 1);
        assert(r.take(k) =~= r.take(k - 1).push(r[k - 1]));
        lemma_without_dashes_push(r.take(k - 1), r[k - 1]);
        if r[k - 1] == '-' {
            assert(k >= 2) by {
                assert(r[0] != '-');
            }
            assert(r[k - 2] != '-') by {
                assert(!(r[k - 2] == '-' && r[k - 1] == '-'));
            }
            lemma_clean_prefix_length(r, k - 2);
            assert(r.take(k - 1) =~= r.take(k - 2).push(r[k - 2]));
            lemma_without_dashes_push(r.take(k - 2), r[k - 2]);
        }
    }
}

/// A text whose letters and digits all fit in a stem even with a dash after each of them
/// is never cut: its normalization keeps every ASCII letter and digit, lowercased and in
/// order, and adds nothing but dashes. `GettingStarted` gives `gettingstarted`.
pub proof fn law_short_stem_keeps_letters(s: Seq<char>)
    requires
        2 * kept_chars(s).len() <= MAX_STEM_CHARS,
    ensures
        without_dashes(normalized_stem(s)) == kept_chars(s),
{
    let w = joined_words(s);
    lemma_words_scan_clean(s);
    lemma_joined_words_keep_every_letter(s);
    lemma_clean_prefix_length(w, w.len() as int);
    assert(w.take(w.len() as int) =~= w);
    lemma_strip_clean(w);
    assert(first_chars(w, MAX_STEM_CHARS as nat) == w);
    lemma_strip_clean(w);
    assert(normalized_stem(s) == w);
}

proof fn lemma_without_dashes_take_prefix(w: Seq<char>, m: int)
    requires
        0 <= m <= w.len(),
    ensures
        without_dashes(w.take(m)).is_prefix_of(without_dashes(w)),
    decreases w.len() - m,
{
    if m == w.len() {
        assert(w.take(m) =~= w);
    } else {
        lemma_without_dashes_take_prefix(w, m + 1);
        assert(w.take(m + 1) =~= w.take(m).push(w[m]));
        lemma_without_dashes_push(w.take(m), w[m]);
        let a = without_dashes(w.take(m));
        let b = without_dashes(w.take(m + 1));
        let full = without_dashes(w);
        assert(a =~= full.subrange(0, a.len() as int)) by {
            assert forall|i: int| 0 <= i < a.len() implies a[i] == full[i] by {
                assert(a[i] == b[i]);
                assert(b[i] == full.subrange(0, b.len() as int)[i]);
            }
        }
    }
}

/// Whatever its length, a normalized stem holds, dashes aside, the first ASCII letters and
/// digits of its input, lowercased and in order: a cut only shortens it.
pub proof fn law_normalized_stem_is_prefix_of_letters(s: Seq<char>)
    ensures
        without_dashes(normalized_stem(s)).is_prefix_of(kept_chars(s)),
{
    let w = joined_words(s);
    lemma_words_scan_clean(s);
    lemma_strip_clean(w);
    lemma_joined_words_keep_every_letter(s);
    let p = first_chars(w, MAX_STEM_CHARS as nat);
    assert(p =~= w.take(p.len() as int));
    lemma_without_dashes_take_prefix(w, p.len() as int);
    assert(strip_leading_dashes(p) == p) by {
        if p.len() > 0 {
            assert(p[0] == w[0]);
        }
    }
    if p.len() > 0 && p.last() == '-' {
        let q = p.drop_last();
        assert(p.len() >= 2) by {
            assert(p[0] == w[0]);
        }
        assert(q.last() != '-') by {
            assert(p[p.len() - 2] == w[p.len() - 2] && p[p.len() - 1] == w[p.len() - 1]);
            assert(!(w[p.len() - 2] == '-' && w[p.len() - 1] == '-'));
        }
        assert(strip_trailing_dashes(p) == strip_trailing_dashes(q));
        assert(strip_trailing_dashes(q) == q);
        assert(q.push('-') =~= p);
        lemma_without_dashes_push(q, '-');
        assert(normalized_stem(s) == q);
    } else {
        assert(strip_trailing_dashes(p) == p);
        assert(normalized_stem(s) == p);
    }
}

/// What `words_scan` has written once the state `st` meets a word character: the
/// words so far, and a dash where a gap came after them.
pub open spec fn before_word(st: (Seq<char>, bool)) -> Seq<char> {
    if st.1 && st.0.len() > 0 {
        st.0.push('-')
    } else {
        st.0
    }
}

proof fn lemma_scan_word(x: Seq<char>, v: Seq<char>)
    requires
        v.len() > 0,
        forall|i: int| 0 <= i < v.len() ==> is_letter_or_digit(#[trigger] v[i]),
    ensures
        words_scan(x + v) == (before_word(words_scan(x)) + lower_seq(v), false),
    decreases v.len(),
{
    let c = v.last();
    assert(is_letter_or_digit(v[v.len() - 1]));
    assert((x + v).last() == c);
    if v.len() == 1 {
        assert((x + v).drop_last() =~= x);
        assert(lower_seq(v) =~= seq![ascii_lower(c)]);
        assert(before_word(words_scan(x)).push(ascii_lower(c)) =~= before_word(words_scan(x))
            + lower_seq(v));
    } else {
        let w = v.drop_last();
        assert forall|i: int| 0 <= i < w.len() implies is_letter_or_digit(#[trigger] w[i]) by {
            assert(w[i] == v[i]);
        }
        lemma_scan_word(x, w);
        assert((x + v).drop_last() =~= x + w);
        assert((before_word(words_scan(x)) + lower_seq(w)).push(ascii_lower(c)) =~= before_word(
            words_scan(x),
        ) + lower_seq(v));
    }
}

proof fn lemma_scan_gap(x: Seq<char>, g: Seq<char>)
    requires
        forall|i: int| 0 <= i < g.len() ==> !is_letter_or_digit(#[trigger] g[i]),
    ensures
        words_scan(x + g) == (words_scan(x).0, if g.len() > 0 {
            true
        } else {
            words_scan(x).1
        }),
    decreases g.len(),
{
    if g.len() == 0 {
        assert(x + g =~= x);
    } else {
        let h = g.drop_last();
        assert(!is_letter_or_digit(g[g.len() - 1]));
        assert forall|i: int| 0 <= i < h.len() implies !is_letter_or_digit(#[trigger] h[i]) by {
            assert(h[i] == g[i]);
        }
        lemma_scan_gap(x, h);
        assert((x + g).drop_last() =~= x + h);
        assert((x + g).last() == g.last());
    }
}

/// A word of ASCII letters and digits, with any gaps around it that hold none, normalizes
/// to the word in lowercase, as long as it fits: `GettingStarted` gives `gettingstarted`,
/// ` Notes! ` gives `notes`.
pub proof fn law_normalize_stem_one_word(g1: Seq<char>, u: Seq<char>, g2: Seq<char>)
    requires
        0 < u.len() <= MAX_STEM_CHARS,
        forall|i: int| 0 <= i < u.len() ==> is_letter_or_digit(#[trigger] u[i]),
        forall|i: int| 0 <= i < g1.len() ==> !is_letter_or_digit(#[trigger] g1[i]),
        forall|i: int| 0 <= i < g2.len() ==> !is_letter_or_digit(#[trigger] g2[i]),
    ensures
        normalized_stem(g1 + u + g2) == lower_seq(u),
{
    lemma_scan_gap(Seq::<char>::empty(), g1);
    assert(Seq::<char>::empty() + g1 =~= g1);
    assert(words_scan(Seq::<char>::empty()) == (Seq::<char>::empty(), false));
    lemma_scan_word(g1, u);
    assert(before_word(words_scan(g1)) =~= Seq::<char>::empty());
    lemma_scan_gap(g1 + u, g2);
    let r = lower_seq(u);
    assert(Seq::<char>::empty() + r =~= r);
    assert(joined_words(g1 + u + g2) == r);
    assert(is_letter_or_digit(u[0]) && is_letter_or_digit(u[u.len() - 1]));
    lemma_lower_alnum(u[0]);
    lemma_lower_alnum(u[u.len() - 1]);
    lemma_strip_clean(r);
    assert(first_chars(r, MAX_STEM_CHARS as nat) == r);
}

/// Two words of ASCII letters and digits with a gap between them that holds none
/// normalize to the two words in lowercase joined by one dash, as long as that fits:
/// `Release Notes` gives `release-notes`.
pub proof fn law_normalize_stem_two_words(u: Seq<char>, g: Seq<char>, v: Seq<char>)
    requires
        u.len() > 0,
        v.len() > 0,
        g.len() > 0,
        u.len() + 1 + v.len() <= MAX_STEM_CHARS,
        forall|i: int| 0 <= i < u.len() ==> is_letter_or_digit(#[trigger] u[i]),
        forall|i: int| 0 <= i < v.len() ==> is_letter_or_digit(#[trigger] v[i]),
        forall|i: int| 0 <= i < g.len() ==> !is_letter_or_digit(#[trigger] g[i]),
    ensures
        normalized_stem(u + g + v) == lower_seq(u) + seq!['-'] + lower_seq(v),
{
    assert(words_scan(Seq::<char>::empty()) == (Seq::<char>::empty(), false));
    lemma_scan_word(Seq::<char>::empty(), u);
    assert(Seq::<char>::empty() + u =~= u);
    assert(Seq::<char>::empty() + lower_seq(u) =~= lower_seq(u));
    lemma_scan_gap(u, g);
    lemma_scan_word(u + g, v);
    let r = lower_seq(u) + seq!['-'] + lower_seq(v);
    assert(lower_seq(u).push('-') + lower_seq(v) =~= r);
    assert(joined_words(u + g + v) == r);
    assert(is_letter_or_digit(u[0]) && is_letter_or_digit(v[v.len() - 1]));
    lemma_lower_alnum(u[0]);
    lemma_lower_alnum(v[v.len() - 1]);
    assert(r[0] == lower_seq(u)[0]);
    assert(r.last() == lower_seq(v)[v.len() - 1]);
    lemma_strip_clean(r);
    assert(first_chars(r, MAX_STEM_CHARS as nat) == r);
}

/// The base of a derived output name: the normalized stem, or `artifact` where that is
/// empty.
pub open spec fn name_base(stem: Seq<char>) -> Seq<char> {
    if normalized_stem(stem).len() == 0 {
        "artifact"@
    } else {
        normalized_stem(stem)
    }
}

/// An output name derived from a source whose file name has a last dot after its first
/// character is made from the text before that last dot, a dot, and the converter's
/// extension in lowercase: `notes.v2.md` gives `notes-v2.<ext>`.
pub proof fn law_output_name_cuts_at_last_dot(
    a: ArtifactView,
    c: ConverterView,
    name: Seq<char>,
    k: int,
)
    requires
        a.output is None,
        file_name(a.source) == Some(name),
        0 < k < name.len(),
        name[k] == '.',
        forall|j: int| k < j < name.len() ==> name[j] != '.',
    ensures
        output_name_of(a, c) == name_base(name.take(k)) + seq!['.'] + lower_seq(c.output_extension),
{
    lemma_last_index(name, '.');
    let found = last_index(name, '.');
    assert(found == Some(k)) by {
        if found is None {
            assert(name[k] != '.');
        } else {
            let f = found->0;
            if f < k {
                assert(name[k] != '.');
            }
        }
    }
}

/// An output name derived from a source whose file name has no dot after its first
/// character is made from the whole file name, a dot, and the converter's extension in
/// lowercase.
pub proof fn law_output_name_without_dot(a: ArtifactView, c: ConverterView, name: Seq<char>)
    requires
        a.output is None,
        file_name(a.source) == Some(name),
        forall|j: int| 0 < j < name.len() ==> name[j] != '.',
    ensures
        output_name_of(a, c) == name_base(name) + seq!['.'] + lower_seq(c.output_extension),
{
    lemma_last_index(name, '.');
}

/// An output name derived from a source that has no file name is `artifact`, a dot, and
/// the converter's extension in lowercase.
pub proof fn law_output_name_without_file_name(a: ArtifactView, c: ConverterView)
    requires
        a.output is None,
        file_name(a.source) is None,
    ensures
        output_name_of(a, c) == name_base("artifact"@) + seq!['.'] + lower_seq(c.output_extension),
{
}

/// `s` without the dashes at either end.
pub fn trim_dash_chars(s: &Vec<char>) -> (res: Vec<char>)
    ensures
        res@ == trim_dashes(s@),
{
    let mut start: usize = 0;
    assert(s@.skip(0) =~= s@);
    while start < s.len() && s[start] == '-'
        invariant
            start <= s.len(),
            strip_leading_dashes(s@) == strip_leading_dashes(s@.skip(start as int)),
        decreases s.len() - start,
    {
        assert(s@.skip(start as int).skip(1) =~= s@.skip(start + 1));
        start += 1;
    }
    assert(strip_leading_dashes(s@) == s@.skip(start as int));
    let mut end: usize = s.len();
    assert(s@.skip(start as int) =~= s@.subrange(start as int, end as int));
    while end > start && s[end - 1] == '-'
        invariant
            start <= end <= s.len(),
            trim_dashes(s@) == strip_trailing_dashes(s@.subrange(start as int, end as int)),
        decreases end - start,
    {
        assert(s@.subrange(start as int, end as int).drop_last() =~= s@.subrange(
            start as int,
            end - 1,
        ));
        end -= 1;
    }
    let mut res: Vec<char> = Vec::new();
    let mut i: usize = start;
    while i < end
        invariant
            start <= i <= end <= s.len(),
            res@ == s@.subrange(start as int, i as int),
        decreases end - i,
    {
        res.push(s[i]);
        i += 1;
        assert(res@ =~= s@.subrange(start as int, i as int));
    }
    res
}

/// Convert a filename stem to a stable lowercase ASCII artifact name.
pub fn normalize_stem(value: &str) -> (res: String)
    ensures
        res@ == normalized_stem(value@),
{
    let v = to_chars(value);
    let mut out: Vec<char> = Vec::new();
    let mut separator = false;
    let mut i: usize = 0;
    while i < v.len()
        invariant
            i <= v.len(),
            v@ == value@,
            (out@, separator) == words_scan(value@.take(i as int)),
        decreases v.len() - i,
    {
        assert(value@.take(i + 1).drop_last() =~= value@.take(i as int));
        assert(value@.take(i + 1).last() == value@[i as int]);
        let c = v[i];
        if is_alnum_char(c) {
            if separator && out.len() > 0 {
                out.push('-');
            }
            out.push(lower_char(c));
            separator = false;
        } else {
            separator = true;
        }
        i += 1;
    }
    assert(value@.take(v.len() as int) =~= value@);
    let trimmed = trim_dash_chars(&out);
    let mut capped: Vec<char> = Vec::new();
    let mut k: usize = 0;
    while k < trimmed.len() && k < MAX_STEM_CHARS
        invariant
            k <= trimmed.len(),
            k <= MAX_STEM_CHARS,
            capped@ == trimmed@.take(k as int),
        decreases trimmed.len() - k,
    {
        capped.push(trimmed[k]);
        k += 1;
        assert(capped@ =~= trimmed@.take(k as int));
    }
    assert(capped@ =~= first_chars(trimmed@, MAX_STEM_CHARS as nat));
    let result = trim_dash_chars(&capped);
    from_chars(&result)
}

/// The output path of `artifact` when `converter` exports it.
pub fn output_name(artifact: &Artifact, converter: &Converter) -> (res: String)
    ensures
        res@ == output_name_of(artifact@, converter@),
{
    if let Some(path) = &artifact.output {
        return path.clone();
    }
    let raw = match path_file_stem(&artifact.source) {
        Some(s) => from_chars(&s),
        None => String::from_str("artifact"),
    };
    let stem = normalize_stem(&raw);
    let mut res = if to_chars(&stem).len() == 0 {
        String::from_str("artifact")
    } else {
        stem
    };
    res.append(".");
    res.append(&to_lower(&converter.output_extension));
    proof {
        reveal_strlit(".");
    }
    res
}

} // verus!
