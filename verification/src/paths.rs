//! Relative and absolute paths held as strings, read the way `std::path::Path` reads a
//! path on a Unix system: `/` separates components, empty and `.` components vanish (but
//! for a leading `.`), and `..` is the parent directory.
use vstd::prelude::*;
use crate::text::{last_index, lemma_last_index, rfind_char, to_chars};

verus! {

/// A path that starts at the root.
pub open spec fn is_absolute(p: Seq<char>) -> bool {
    p.len() > 0 && p[0] == '/'
}

/// A component that reading drops: an empty one (between repeated separators) or `.`.
pub open spec fn is_skipped(seg: Seq<char>) -> bool {
    seg.len() == 0 || seg == seq!['.']
}

/// `done` with `seg` added, unless `seg` is skipped.
pub open spec fn keep_segment(done: Seq<Seq<char>>, seg: Seq<char>) -> Seq<Seq<char>> {
    if is_skipped(seg) {
        done
    } else {
        done.push(seg)
    }
}

/// Reading `p` from the left: the components completed so far, and the one being read.
pub open spec fn scan(p: Seq<char>) -> (Seq<Seq<char>>, Seq<char>)
    decreases p.len(),
{
    if p.len() == 0 {
        (seq![], seq![])
    } else {
        let (done, cur) = scan(p.drop_last());
        if p.last() == '/' {
            (keep_segment(done, cur), seq![])
        } else {
            (done, cur.push(p.last()))
        }
    }
}

/// The components of `p` between its separators, skipped ones left out.
pub open spec fn body_segments(p: Seq<char>) -> Seq<Seq<char>> {
    keep_segment(scan(p).0, scan(p).1)
}

/// A relative path that starts with the current directory `.`.
pub open spec fn starts_with_cur_dir(p: Seq<char>) -> bool {
    p.len() > 0 && p[0] == '.' && (p.len() == 1 || p[1] == '/')
}

/// The components of `p` after its root, if any: `.` stands for a leading current
/// directory, `..` for a parent directory, any other for a normal name.
pub open spec fn components(p: Seq<char>) -> Seq<Seq<char>> {
    if starts_with_cur_dir(p) {
        seq![seq!['.']] + body_segments(p)
    } else {
        body_segments(p)
    }
}

/// `Path == Path`: the same root and the same components.
pub open spec fn same_path(a: Seq<char>, b: Seq<char>) -> bool {
    is_absolute(a) == is_absolute(b) && components(a) == components(b)
}

/// One of the components of `p` is the parent directory `..`.
pub open spec fn has_parent_dir(p: Seq<char>) -> bool {
    components(p).contains(seq!['.', '.'])
}

/// `Path::file_name`: the last component, when that is a normal name.
pub open spec fn file_name(p: Seq<char>) -> Option<Seq<char>> {
    let c = components(p);
    if c.len() > 0 && c.last() != seq!['.'] && c.last() != seq!['.', '.'] {
        Some(c.last())
    } else {
        None
    }
}

/// The stem of a file name: what stands before its last `.`, unless that is nothing.
pub open spec fn name_stem(name: Seq<char>) -> Seq<char> {
    match last_index(name, '.') {
        Some(k) => if k > 0 {
            name.take(k)
        } else {
            name
        },
        None => name,
    }
}

/// The extension of a file name: what follows its last `.`, unless the name starts there.
pub open spec fn name_extension(name: Seq<char>) -> Option<Seq<char>> {
    match last_index(name, '.') {
        Some(k) => if k > 0 {
            Some(name.skip(k + 1))
        } else {
            None
        },
        None => None,
    }
}

/// `Path::file_stem`.
pub open spec fn file_stem(p: Seq<char>) -> Option<Seq<char>> {
    match file_name(p) {
        Some(n) => Some(name_stem(n)),
        None => None,
    }
}

/// `Path::extension`.
pub open spec fn extension(p: Seq<char>) -> Option<Seq<char>> {
    match file_name(p) {
        Some(n) => name_extension(n),
        None => None,
    }
}

/// `Path::join`: an absolute `p` replaces `base`; otherwise `p` follows `base`, with one
/// separator between them where `base` is not empty and does not end in one.
pub open spec fn join(base: Seq<char>, p: Seq<char>) -> Seq<char> {
    if is_absolute(p) {
        p
    } else if base.len() == 0 || base.last() == '/' {
        base + p
    } else {
        base + seq!['/'] + p
    }
}

/// The views of a sequence of character vectors.
pub open spec fn seq_views(v: Seq<Vec<char>>) -> Seq<Seq<char>> {
    v.map_values(|x: Vec<char>| x@)
}

/// The components of `p`, as `components` states them.
pub fn path_components(p: &[char]) -> (res: Vec<Vec<char>>)
    ensures
        seq_views(res@) == components(p@),
{
    let mut done: Vec<Vec<char>> = Vec::new();
    let cur_dir = p.len() > 0 && p[0] == '.' && (p.len() == 1 || p[1] == '/');
    let ghost lead: Seq<Seq<char>> = if cur_dir {
        seq![seq!['.']]
    } else {
        seq![]
    };
    if cur_dir {
        let mut dot: Vec<char> = Vec::new();
        dot.push('.');
        done.push(dot);
        assert(seq_views(done@) =~= lead);
    } else {
        assert(seq_views(done@) =~= lead);
    }
    let mut cur: Vec<char> = Vec::new();
    let mut i: usize = 0;
    assert(lead + scan(p@.take(0)).0 =~= lead);
    while i < p.len()
        invariant
            i <= p.len(),
            seq_views(done@) == lead + scan(p@.take(i as int)).0,
            cur@ == scan(p@.take(i as int)).1,
        decreases p.len() - i,
    {
        assert(p@.take(i + 1).drop_last() =~= p@.take(i as int));
        assert(p@.take(i + 1).last() == p@[i as int]);
        let ghost old_cur = cur@;
        let ghost old_done = seq_views(done@);
        if p[i] == '/' {
            if !(cur.len() == 0 || (cur.len() == 1 && cur[0] == '.')) {
                proof {
                    assert(!is_skipped(cur@));
                    assert(scan(p@.take(i + 1)).0 == scan(p@.take(i as int)).0.push(old_cur));
                }
                done.push(cur);
                assert(seq_views(done@) =~= old_done.push(old_cur));
                assert(seq_views(done@) =~= lead + scan(p@.take(i + 1)).0);
            } else {
                proof {
                    if cur.len() == 1 {
                        assert(cur@ =~= seq!['.']);
                    }
                }
            }
            cur = Vec::new();
        } else {
            cur.push(p[i]);
        }
        i += 1;
    }
    assert(p@.take(p.len() as int) =~= p@);
    if !(cur.len() == 0 || (cur.len() == 1 && cur[0] == '.')) {
        let ghost old_cur = cur@;
        let ghost old_done = seq_views(done@);
        assert(!is_skipped(cur@));
        done.push(cur);
        assert(seq_views(done@) =~= old_done.push(old_cur));
        assert(seq_views(done@) =~= lead + body_segments(p@));
    } else {
        proof {
            if cur.len() == 1 {
                assert(cur@ =~= seq!['.']);
            }
        }
        assert(seq_views(done@) =~= lead + body_segments(p@));
    }
    proof {
        if !cur_dir {
            assert(lead + body_segments(p@) =~= body_segments(p@));
        }
    }
    done
}

/// Whether two character vectors hold the same characters.
pub fn chars_eq(a: &[char], b: &[char]) -> (r: bool)
    ensures
        r == (a@ == b@),
{
    if a.len() != b.len() {
        return false;
    }
    let mut i: usize = 0;
    while i < a.len()
        invariant
            i <= a.len(),
            a.len() == b.len(),
            forall|j: int| 0 <= j < i ==> a@[j] == b@[j],
        decreases a.len() - i,
    {
        if a[i] != b[i] {
            return false;
        }
        i += 1;
    }
    assert(a@ =~= b@);
    true
}

/// Whether two lists of components are equal.
fn components_eq(a: &Vec<Vec<char>>, b: &Vec<Vec<char>>) -> (r: bool)
    ensures
        r == (seq_views(a@) == seq_views(b@)),
{
    if a.len() != b.len() {
        assert(seq_views(a@).len() != seq_views(b@).len());
        return false;
    }
    let mut i: usize = 0;
    while i < a.len()
        invariant
            i <= a.len(),
            a.len() == b.len(),
            forall|j: int| 0 <= j < i ==> a@[j]@ == b@[j]@,
        decreases a.len() - i,
    {
        if !chars_eq(&a[i], &b[i]) {
            assert(seq_views(a@)[i as int] != seq_views(b@)[i as int]);
            return false;
        }
        i += 1;
    }
    assert(seq_views(a@) =~= seq_views(b@));
    true
}

/// Whether `p` starts at the root.
pub fn path_is_absolute(p: &str) -> (r: bool)
    ensures
        r == is_absolute(p@),
{
    let v = to_chars(p);
    v.len() > 0 && v[0] == '/'
}

/// `Path == Path` on two paths.
pub fn same_path_str(a: &str, b: &str) -> (r: bool)
    ensures
        r == same_path(a@, b@),
{
    let x = to_chars(a);
    let y = to_chars(b);
    let ax = x.len() > 0 && x[0] == '/';
    let ay = y.len() > 0 && y[0] == '/';
    if ax != ay {
        return false;
    }
    let cx = path_components(&x);
    let cy = path_components(&y);
    components_eq(&cx, &cy)
}

/// Whether one of the components of `path` is the parent directory `..`.
pub fn contains_parent(path: &str) -> (r: bool)
    ensures
        r == has_parent_dir(path@),
{
    let v = to_chars(path);
    let c = path_components(&v);
    let mut i: usize = 0;
    while i < c.len()
        invariant
            i <= c.len(),
            seq_views(c@) == components(path@),
            forall|j: int| 0 <= j < i ==> components(path@)[j] != seq!['.', '.'],
        decreases c.len() - i,
    {
        if c[i].len() == 2 && c[i][0] == '.' && c[i][1] == '.' {
            assert(c@[i as int]@ =~= seq!['.', '.']);
            assert(components(path@)[i as int] == seq!['.', '.']);
            return true;
        }
        proof {
            if c@[i as int]@ == seq!['.', '.'] {
                assert(c@[i as int]@[0] == '.');
            }
        }
        i += 1;
    }
    false
}

/// `Path::file_name`.
pub fn path_file_name(p: &str) -> (res: Option<Vec<char>>)
    ensures
        match res {
            Some(n) => file_name(p@) == Some(n@),
            None => file_name(p@) is None,
        },
{
    let v = to_chars(p);
    let c = path_components(&v);
    if c.len() == 0 {
        return None;
    }
    let last = &c[c.len() - 1];
    assert(last@ == components(p@).last());
    let is_dot = last.len() == 1 && last[0] == '.';
    let is_dot_dot = last.len() == 2 && last[0] == '.' && last[1] == '.';
    proof {
        if last@ == seq!['.'] {
            assert(is_dot);
        }
        if last@ == seq!['.', '.'] {
            assert(is_dot_dot);
        }
        if is_dot {
            assert(last@ =~= seq!['.']);
        }
        if is_dot_dot {
            assert(last@ =~= seq!['.', '.']);
        }
    }
    if is_dot || is_dot_dot {
        None
    } else {
        Some(last.clone())
    }
}

/// `Path::file_stem`.
pub fn path_file_stem(p: &str) -> (res: Option<Vec<char>>)
    ensures
        match res {
            Some(n) => file_stem(p@) == Some(n@),
            None => file_stem(p@) is None,
        },
{
    match path_file_name(p) {
        Some(name) => {
            match rfind_char(&name, '.') {
                Some(k) => {
                    proof {
                        lemma_last_index(name@, '.');
                    }
                    if k > 0 {
                        let mut s: Vec<char> = Vec::new();
                        let mut i: usize = 0;
                        while i < k
                            invariant
                                i <= k,
                                k < name.len(),
                                s@ == name@.take(i as int),
                            decreases k - i,
                        {
                            s.push(name[i]);
                            i += 1;
                            assert(s@ =~= name@.take(i as int));
                        }
                        Some(s)
                    } else {
                        Some(name)
                    }
                },
                None => Some(name),
            }
        },
        None => None,
    }
}

/// `Path::extension`.
pub fn path_extension(p: &str) -> (res: Option<Vec<char>>)
    ensures
        match res {
            Some(n) => extension(p@) == Some(n@),
            None => extension(p@) is None,
        },
{
    match path_file_name(p) {
        Some(name) => {
            match rfind_char(&name, '.') {
                Some(k) => {
                    proof {
                        lemma_last_index(name@, '.');
                    }
                    if k > 0 {
                        let mut s: Vec<char> = Vec::new();
                        let mut i: usize = k + 1;
                        while i < name.len()
                            invariant
                                k + 1 <= i <= name.len(),
                                s@ == name@.subrange(k + 1, i as int),
                            decreases name.len() - i,
                        {
                            s.push(name[i]);
                            i += 1;
                            assert(s@ =~= name@.subrange(k + 1, i as int));
                        }
                        assert(name@.subrange(k + 1, name.len() as int) =~= name@.skip(k + 1));
                        Some(s)
                    } else {
                        None
                    }
                },
                None => None,
            }
        },
        None => None,
    }
}

/// `base.join(p)`.
pub fn join_path(base: &str, p: &str) -> (res: String)
    ensures
        res@ == join(base@, p@),
{
    if path_is_absolute(p) {
        return String::from_str(p);
    }
    let b = to_chars(base);
    let mut res = String::from_str(base);
    if !(b.len() == 0 || b[b.len() - 1] == '/') {
        res.append("/");
        proof {
            reveal_strlit("/");
        }
    }
    res.append(p);
    res
}

/// The path `p` taken from `base`: `p` itself when it is absolute, else `base.join(p)`.
pub fn resolve(base: &str, p: &str) -> (res: String)
    ensures
        res@ == (if is_absolute(p@) {
            p@
        } else {
            join(base@, p@)
        }),
{
    if path_is_absolute(p) {
        String::from_str(p)
    } else {
        join_path(base, p)
    }
}

} // verus!
