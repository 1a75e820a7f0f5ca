//! Paths as the library sees them: strings, joined and taken apart the way
//! `std::path` does on unix.

use vstd::prelude::*;
use crate::text::{chars_of, owned, push_char, string_of};

verus! {

pub open spec fn is_absolute(p: Seq<char>) -> bool {
    p.len() > 0 && p[0] == '/'
}

/// `PathBuf::join` on unix: an absolute `b` replaces `a`; otherwise a
/// separator goes between them unless `a` is empty or already ends in one.
pub open spec fn path_join(a: Seq<char>, b: Seq<char>) -> Seq<char> {
    if is_absolute(b) {
        b
    } else if a.len() > 0 && a.last() != '/' {
        a + seq!['/'] + b
    } else {
        a + b
    }
}

pub fn join(a: &str, b: &str) -> (r: String)
    ensures
        r@ == path_join(a@, b@),
{
    let bv = chars_of(b);
    if bv.len() > 0 && bv[0] == '/' {
        return owned(b);
    }
    let av = chars_of(a);
    let mut r = owned(a);
    if av.len() > 0 && av[av.len() - 1] != '/' {
        push_char(&mut r, '/');
    }
    r.append(b);
    r
}

/// A piece between separators that names something: not empty, and not
/// the `.` that `Path::components` skips.
pub open spec fn is_named(piece: Seq<char>) -> bool {
    piece.len() > 0 && piece != seq!['.']
}

/// Ends the piece being read, keeping it if it names something.
pub open spec fn flush(done: Seq<Seq<char>>, cur: Seq<char>) -> Seq<Seq<char>> {
    if is_named(cur) {
        done.push(cur)
    } else {
        done
    }
}

/// Reads `rest`, with `done` the pieces kept so far and `cur` the one being
/// read.
pub open spec fn scan(rest: Seq<char>, done: Seq<Seq<char>>, cur: Seq<char>) -> Seq<Seq<char>>
    decreases rest.len(),
{
    if rest.len() == 0 {
        flush(done, cur)
    } else if rest[0] == '/' {
        scan(rest.drop_first(), flush(done, cur), seq![])
    } else {
        scan(rest.drop_first(), done, cur.push(rest[0]))
    }
}

/// The named components of `p`, in order: what `Path::components` yields
/// after its root and leading `.`, so `..` included.
pub open spec fn comps(p: Seq<char>) -> Seq<Seq<char>> {
    scan(p, seq![], seq![])
}

/// A component has no separator in it.
pub open spec fn unslashed(pieces: Seq<Seq<char>>) -> bool {
    forall|i: int| 0 <= i < pieces.len() ==> is_named(#[trigger] pieces[i]) && !pieces[i].contains('/')
}

proof fn lemma_scan_unslashed(rest: Seq<char>, done: Seq<Seq<char>>, cur: Seq<char>)
    requires
        unslashed(done),
        !cur.contains('/'),
    ensures
        unslashed(scan(rest, done, cur)),
    decreases rest.len(),
{
    assert(unslashed(flush(done, cur))) by {
        if is_named(cur) {
            assert(flush(done, cur).last() == cur);
        }
    }
    if rest.len() > 0 {
        if rest[0] == '/' {
            lemma_scan_unslashed(rest.drop_first(), flush(done, cur), seq![]);
        } else {
            assert(!cur.push(rest[0]).contains('/')) by {
                if cur.push(rest[0]).contains('/') {
                    let k = choose|k: int| 0 <= k < cur.push(rest[0]).len() && cur.push(rest[0])[k] == '/';
                    if k < cur.len() {
                        assert(cur[k] == '/');
                    }
                }
            }
            lemma_scan_unslashed(rest.drop_first(), done, cur.push(rest[0]));
        }
    }
}

/// The components of a path name something and hold no separator.
pub proof fn lemma_comps_unslashed(p: Seq<char>)
    ensures
        unslashed(comps(p)),
{
    lemma_scan_unslashed(p, seq![], seq![]);
}

/// Whether `Path::components` starts with a `.` for `p`.
pub open spec fn has_cur(p: Seq<char>) -> bool {
    p.len() > 0 && p[0] == '.' && (p.len() == 1 || p[1] == '/')
}

/// `Path::file_name`: the last component, if it names a file.
pub open spec fn file_name(p: Seq<char>) -> Option<Seq<char>> {
    let c = comps(p);
    if c.len() > 0 && c.last() != seq!['.', '.'] {
        Some(c.last())
    } else {
        None
    }
}

/// `Path::parent` followed by `Path::file_name`: the component before the
/// last one, if it names a directory.
pub open spec fn parent_name(p: Seq<char>) -> Option<Seq<char>> {
    let c = comps(p);
    if c.len() >= 2 && c[c.len() - 2] != seq!['.', '.'] {
        Some(c[c.len() - 2])
    } else {
        None
    }
}

pub open spec fn or_empty(o: Option<Seq<char>>) -> Seq<char> {
    match o {
        Some(s) => s,
        None => seq![],
    }
}

/// Whether two paths have the same components, which is what `Path`'s `==`
/// compares.
pub open spec fn same_path(a: Seq<char>, b: Seq<char>) -> bool {
    &&& is_absolute(a) == is_absolute(b)
    &&& has_cur(a) == has_cur(b)
    &&& comps(a) == comps(b)
}

/// `Path::starts_with`: `base`'s components are the first ones of `p`'s.
pub open spec fn path_starts_with(p: Seq<char>, base: Seq<char>) -> bool {
    &&& is_absolute(p) == is_absolute(base)
    &&& (has_cur(base) ==> has_cur(p))
    &&& (has_cur(p) && !has_cur(base) ==> comps(base).len() == 0 && !is_absolute(base))
    &&& comps(base).is_prefix_of(comps(p))
}

/// The characters of each element.
pub open spec fn views(s: Seq<Vec<char>>) -> Seq<Seq<char>> {
    s.map_values(|v: Vec<char>| v@)
}

/// The named components of a path.
pub fn components(p: &str) -> (r: Vec<Vec<char>>)
    ensures
        views(r@) == comps(p@),
{
    let v = chars_of(p);
    let mut done: Vec<Vec<char>> = Vec::new();
    let mut cur: Vec<char> = Vec::new();
    let mut i: usize = 0;
    assert(v@.skip(0) == v@);
    assert(views(done@) =~= Seq::<Seq<char>>::empty());
    while i < v.len()
        invariant
            i <= v@.len(),
            v@ == p@,
            comps(p@) == scan(v@.skip(i as int), views(done@), cur@),
        decreases v@.len() - i,
    {
        assert(v@.skip(i as int).drop_first() == v@.skip(i + 1));
        if v[i] == '/' {
            let named = cur.len() > 0 && !(cur.len() == 1 && cur[0] == '.');
            assert(named == is_named(cur@)) by {
                if cur@.len() == 1 && cur@[0] == '.' {
                    assert(cur@ == seq!['.']);
                }
            }
            if named {
                let ghost before = done@;
                done.push(cur);
                assert(views(done@) =~= views(before).push(cur@));
            }
            cur = Vec::new();
        } else {
            cur.push(v[i]);
        }
        i = i + 1;
    }
    let named = cur.len() > 0 && !(cur.len() == 1 && cur[0] == '.');
    assert(named == is_named(cur@)) by {
        if cur@.len() == 1 && cur@[0] == '.' {
            assert(cur@ == seq!['.']);
        }
    }
    if named {
        let ghost before = done@;
        done.push(cur);
        assert(views(done@) =~= views(before).push(cur@));
    }
    done
}

/// Whether two character vectors hold the same characters.
pub fn chars_eq(a: &Vec<char>, b: &Vec<char>) -> (r: bool)
    ensures
        r == (a@ == b@),
{
    if a.len() != b.len() {
        return false;
    }
    let mut i: usize = 0;
    while i < a.len()
        invariant
            i <= a@.len(),
            a@.len() == b@.len(),
            a@.take(i as int) == b@.take(i as int),
        decreases a@.len() - i,
    {
        if a[i] != b[i] {
            return false;
        }
        assert(a@.take(i + 1) == a@.take(i as int).push(a@[i as int]));
        assert(b@.take(i + 1) == b@.take(i as int).push(b@[i as int]));
        i = i + 1;
    }
    assert(a@.take(i as int) == a@);
    assert(b@.take(i as int) == b@);
    true
}

/// Whether the pieces of `a` are the first pieces of `b`.
fn is_prefix(a: &Vec<Vec<char>>, b: &Vec<Vec<char>>) -> (r: bool)
    ensures
        r == views(a@).is_prefix_of(views(b@)),
{
    if a.len() > b.len() {
        return false;
    }
    let mut i: usize = 0;
    while i < a.len()
        invariant
            i <= a@.len() <= b@.len(),
            forall|j: int| 0 <= j < i ==> a@[j]@ == b@[j]@,
        decreases a@.len() - i,
    {
        if !chars_eq(&a[i], &b[i]) {
            assert(views(a@)[i as int] != views(b@).subrange(0, a@.len() as int)[i as int]);
            return false;
        }
        i = i + 1;
    }
    assert(views(a@) =~= views(b@).subrange(0, a@.len() as int));
    true
}

fn is_absolute_of(v: &Vec<char>) -> (r: bool)
    ensures
        r == is_absolute(v@),
{
    v.len() > 0 && v[0] == '/'
}

fn has_cur_of(v: &Vec<char>) -> (r: bool)
    ensures
        r == has_cur(v@),
{
    v.len() > 0 && v[0] == '.' && (v.len() == 1 || v[1] == '/')
}

/// `Path::starts_with`.
pub fn starts_with_path(p: &str, base: &str) -> (r: bool)
    ensures
        r == path_starts_with(p@, base@),
{
    let pv = chars_of(p);
    let bv = chars_of(base);
    let pc = components(p);
    let bc = components(base);
    let pa = is_absolute_of(&pv);
    let ba = is_absolute_of(&bv);
    let ph = has_cur_of(&pv);
    let bh = has_cur_of(&bv);
    pa == ba && (!bh || ph) && (!(ph && !bh) || (bc.len() == 0 && !ba)) && is_prefix(&bc, &pc)
}

/// Whether two paths have the same components, as `Path`'s `==` has it.
pub fn same_path_of(a: &str, b: &str) -> (r: bool)
    ensures
        r == same_path(a@, b@),
{
    let av = chars_of(a);
    let bv = chars_of(b);
    let ac = components(a);
    let bc = components(b);
    let same = ac.len() == bc.len() && is_prefix(&ac, &bc);
    assert(same == (comps(a@) == comps(b@))) by {
        assert(views(ac@).len() == ac@.len());
        assert(views(bc@).len() == bc@.len());
        if ac@.len() == bc@.len() && views(ac@).is_prefix_of(views(bc@)) {
            assert(views(ac@) =~= views(bc@));
        }
    }
    is_absolute_of(&av) == is_absolute_of(&bv) && has_cur_of(&av) == has_cur_of(&bv) && same
}

fn is_dot_dot(c: &Vec<char>) -> (b: bool)
    ensures
        b == (c@ == seq!['.', '.']),
{
    let b = c.len() == 2 && c[0] == '.' && c[1] == '.';
    assert(b ==> c@ == seq!['.', '.']);
    b
}

pub fn file_name_of(p: &str) -> (r: String)
    ensures
        r@ == or_empty(file_name(p@)),
{
    let c = components(p);
    proof {
        assert(views(c@).len() == c@.len());
    }
    if c.len() > 0 && !is_dot_dot(&c[c.len() - 1]) {
        assert(views(c@)[c@.len() - 1] == c@[c@.len() - 1]@);
        string_of(&c[c.len() - 1])
    } else {
        String::new()
    }
}

/// `Path::parent` followed by `Path::file_name`.
pub fn parent_name_opt(p: &str) -> (r: Option<String>)
    ensures
        match r {
            Some(n) => parent_name(p@) == Some(n@),
            None => parent_name(p@) is None,
        },
{
    let c = components(p);
    proof {
        assert(views(c@).len() == c@.len());
    }
    if c.len() >= 2 && !is_dot_dot(&c[c.len() - 2]) {
        assert(views(c@)[c@.len() - 2] == c@[c@.len() - 2]@);
        Some(string_of(&c[c.len() - 2]))
    } else {
        None
    }
}

pub fn parent_name_of(p: &str) -> (r: String)
    ensures
        r@ == or_empty(parent_name(p@)),
{
    let c = components(p);
    proof {
        assert(views(c@).len() == c@.len());
    }
    if c.len() >= 2 && !is_dot_dot(&c[c.len() - 2]) {
        assert(views(c@)[c@.len() - 2] == c@[c@.len() - 2]@);
        string_of(&c[c.len() - 2])
    } else {
        String::new()
    }
}

} // verus!

verus! {

/// The index of the last `c` in `s`, or -1.
pub open spec fn last_index(s: Seq<char>, c: char) -> int
    decreases s.len(),
{
    if s.len() == 0 {
        -1
    } else if s.last() == c {
        s.len() - 1
    } else {
        last_index(s.drop_last(), c)
    }
}

/// `Path::file_stem` of a file name: all of it up to the last `.`, unless
/// that dot is its first character or there is none.
pub open spec fn file_stem(name: Seq<char>) -> Seq<char> {
    let j = last_index(name, '.');
    if name == seq!['.', '.'] || j <= 0 {
        name
    } else {
        name.subrange(0, j)
    }
}

/// `Path::extension` of a file name: what follows its last `.`, when the
/// name does not start with it.
pub open spec fn extension(name: Seq<char>) -> Option<Seq<char>> {
    let j = last_index(name, '.');
    if name == seq!['.', '.'] || j <= 0 {
        None
    } else {
        Some(name.subrange(j + 1, name.len() as int))
    }
}

/// `Path::with_extension` for a path that ends in its file name: the stem
/// of that name, then `.` and `ext` unless `ext` is empty.
pub open spec fn with_extension(p: Seq<char>, ext: Seq<char>) -> Seq<char> {
    let k = last_index(p, '/');
    p.subrange(0, k + 1) + file_stem(p.subrange(k + 1, p.len() as int)) + if ext.len() > 0 {
        seq!['.'] + ext
    } else {
        seq![]
    }
}

/// Where the last `c` is in `v[..to]`, if anywhere.
fn find_last(v: &Vec<char>, to: usize, c: char) -> (r: Option<usize>)
    requires
        to <= v@.len(),
    ensures
        match r {
            Some(j) => j == last_index(v@.subrange(0, to as int), c) && j < to,
            None => last_index(v@.subrange(0, to as int), c) == -1,
        },
{
    let mut j = to;
    while j > 0 && v[j - 1] != c
        invariant
            j <= to <= v@.len(),
            last_index(v@.subrange(0, to as int), c) == last_index(v@.subrange(0, j as int), c),
        decreases j,
    {
        assert(v@.subrange(0, j as int).drop_last() == v@.subrange(0, j - 1));
        j = j - 1;
    }
    if j == 0 {
        assert(v@.subrange(0, 0).len() == 0);
        None
    } else {
        Some(j - 1)
    }
}

pub fn extension_of(name: &str) -> (r: Option<String>)
    ensures
        match (r, extension(name@)) {
            (Some(a), Some(b)) => a@ == b,
            (None, None) => true,
            _ => false,
        },
{
    let v = chars_of(name);
    assert(v@.subrange(0, v@.len() as int) == v@);
    let dotdot = v.len() == 2 && v[0] == '.' && v[1] == '.';
    proof {
        if dotdot {
            assert(v@ =~= seq!['.', '.']);
        }
        if v@ == seq!['.', '.'] {
            assert(v@.len() == 2 && v@[0] == '.' && v@[1] == '.');
        }
    }
    match find_last(&v, v.len(), '.') {
        Some(j) if !dotdot && j > 0 => {
            let mut r = String::new();
            crate::text::push_range(&mut r, &v, j + 1, v.len());
            Some(r)
        },
        _ => None,
    }
}

pub fn with_extension_of(p: &str, ext: &str) -> (r: String)
    ensures
        r@ == with_extension(p@, ext@),
{
    let v = chars_of(p);
    assert(v@.subrange(0, v@.len() as int) == v@);
    let start = match find_last(&v, v.len(), '/') {
        Some(k) => k + 1,
        None => 0,
    };
    let mut name: Vec<char> = Vec::new();
    let mut i = start;
    while i < v.len()
        invariant
            start <= i <= v@.len(),
            name@ == v@.subrange(start as int, i as int),
        decreases v@.len() - i,
    {
        name.push(v[i]);
        assert(v@.subrange(start as int, i + 1) == v@.subrange(start as int, i as int).push(v@[i as int]));
        i = i + 1;
    }
    let dotdot = name.len() == 2 && name[0] == '.' && name[1] == '.';
    proof {
        if dotdot {
            assert(name@ =~= seq!['.', '.']);
        }
        if name@ == seq!['.', '.'] {
            assert(name@.len() == 2 && name@[0] == '.' && name@[1] == '.');
        }
    }
    assert(name@.subrange(0, name@.len() as int) == name@);
    let mut r = String::new();
    crate::text::push_range(&mut r, &v, 0, start);
    let stem_end = match find_last(&name, name.len(), '.') {
        Some(j) if !dotdot && j > 0 => j,
        _ => name.len(),
    };
    crate::text::push_range(&mut r, &name, 0, stem_end);
    let e = chars_of(ext);
    if e.len() > 0 {
        push_char(&mut r, '.');
        r.append(ext);
    }
    proof {
        assert(name@.subrange(0, name@.len() as int) == name@);
        let want = with_extension(p@, ext@);
        assert(r@ =~= want);
    }
    r
}

} // verus!
