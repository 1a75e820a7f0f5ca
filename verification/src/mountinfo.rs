//! Finding the device behind a mount point in `/proc/self/mountinfo`.

use vstd::prelude::*;
use vstd::utf8::{decode_utf8, encode_scalar, encode_utf8, has_width_1_encoding, valid_utf8};
use crate::path::{path_starts_with, starts_with_path};
use crate::text::{from_utf8_lossy, is_whitespace, is_ws, lines, lines_of, lossy_utf8, string_of};

verus! {

pub open spec fn is_octal_digit(b: u8) -> bool {
    48u8 <= b <= 55u8
}

pub open spec fn all_octal(s: Seq<u8>) -> bool {
    forall|i: int| 0 <= i < s.len() ==> is_octal_digit(#[trigger] s[i])
}

/// The byte an escape spells: exactly three digits from `0` to `7`, with
/// a value that fits in a byte. Anything else is a malformed escape.
pub open spec fn octal_value(e: Seq<u8>) -> Option<u8> {
    if e.len() == 3 && all_octal(e) && octal_digits(e) <= 255 {
        Some(octal_digits(e) as u8)
    } else {
        None
    }
}

pub open spec fn octal_digits(s: Seq<u8>) -> nat
    decreases s.len(),
{
    if s.len() == 0 {
        0
    } else {
        octal_digits(s.drop_last()) * 8 + (s.last() - 48u8) as nat
    }
}

/// mountinfo octal-escapes the characters that would otherwise split a
/// field: a backslash and the three bytes after it stand for the byte they
/// spell in octal. A backslash not followed by three octal digits that fit
/// a byte is kept as it is, with the up to three bytes after it.
pub open spec fn unescape_bytes(s: Seq<u8>) -> Seq<u8>
    decreases s.len(),
{
    if s.len() == 0 {
        seq![]
    } else if s[0] != 92u8 {
        seq![s[0]] + unescape_bytes(s.drop_first())
    } else {
        let n: int = if s.len() >= 4 { 3 } else { s.len() - 1 };
        let e = s.subrange(1, 1 + n);
        match octal_value(e) {
            Some(v) => seq![v] + unescape_bytes(s.skip(1 + n)),
            None => seq![92u8] + e + unescape_bytes(s.skip(1 + n)),
        }
    }
}

fn octal(e: &Vec<u8>) -> (r: Option<u8>)
    ensures
        r == octal_value(e@),
{
    if e.len() != 3 {
        return None;
    }
    let (a, b, c) = (e[0], e[1], e[2]);
    if !(48u8 <= a && a <= 55u8 && 48u8 <= b && b <= 55u8 && 48u8 <= c && c <= 55u8) {
        assert(!all_octal(e@)) by {
            if !is_octal_digit(a) {
                assert(!is_octal_digit(e@[0]));
            } else if !is_octal_digit(b) {
                assert(!is_octal_digit(e@[1]));
            } else {
                assert(!is_octal_digit(e@[2]));
            }
        }
        return None;
    }
    let v: u32 = ((a - 48u8) as u32 * 8 + (b - 48u8) as u32) * 8 + (c - 48u8) as u32;
    proof {
        let s = e@;
        let s1 = s.drop_last().drop_last();
        let s2 = s.drop_last();
        assert(s1.drop_last() =~= Seq::<u8>::empty());
        assert(octal_digits(Seq::<u8>::empty()) == 0);
        assert(s1.last() == a);
        assert(octal_digits(s1) == (a - 48u8) as nat);
        assert(s2.drop_last() == s1);
        assert(s2.last() == b);
        assert(octal_digits(s2) == (a - 48u8) as nat * 8 + (b - 48u8) as nat);
        assert(s.last() == c);
        assert(octal_digits(s) == v);
        assert(all_octal(s)) by {
            assert forall|i: int| 0 <= i < s.len() implies is_octal_digit(#[trigger] s[i]) by {
                if i == 0 {
                    assert(s[0] == a);
                } else if i == 1 {
                    assert(s[1] == b);
                } else {
                    assert(s[2] == c);
                }
            }
        }
    }
    if v > 255 {
        return None;
    }
    Some(v as u8)
}

/// The bytes of a mountinfo field with its escapes decoded.
pub fn unescape_field(field: &[u8]) -> (r: Vec<u8>)
    ensures
        r@ == unescape_bytes(field@),
{
    let mut out: Vec<u8> = Vec::new();
    let mut i: usize = 0;
    assert(field@.skip(0) == field@);
    while i < field.len()
        invariant
            i <= field@.len(),
            out@ + unescape_bytes(field@.skip(i as int)) == unescape_bytes(field@),
        decreases field@.len() - i,
    {
        let ghost s = field@.skip(i as int);
        let b = field[i];
        assert(s[0] == b);
        if b != 92u8 {
            out.push(b);
            assert(s.drop_first() == field@.skip(i + 1));
            assert(out@ + unescape_bytes(field@.skip(i + 1)) =~= out@.drop_last() + unescape_bytes(s));
            i = i + 1;
        } else {
            let n: usize = if field.len() - i >= 4 { 3 } else { field.len() - i - 1 };
            let start: usize = i + 1;
            let mut e: Vec<u8> = Vec::new();
            let mut j: usize = 0;
            while j < n
                invariant
                    j <= n,
                    start + n <= field.len(),
                    e@ == field@.subrange(start as int, start + j),
                decreases n - j,
            {
                e.push(field[start + j]);
                assert(field@.subrange(start as int, start + j + 1) == field@.subrange(start as int, start + j).push(field@[start + j]));
                j = j + 1;
            }
            assert(e@ == s.subrange(1, 1 + n));
            assert(s.skip(1 + n) == field@.skip(i + 1 + n));
            let ghost before = out@;
            match octal(&e) {
                Some(v) => {
                    out.push(v);
                    assert(out@ + unescape_bytes(field@.skip(i + 1 + n)) =~= before + unescape_bytes(s));
                },
                None => {
                    out.push(92u8);
                    let mut k: usize = 0;
                    while k < e.len()
                        invariant
                            k <= e@.len(),
                            out@ == before + seq![92u8] + e@.take(k as int),
                        decreases e@.len() - k,
                    {
                        out.push(e[k]);
                        assert(e@.take(k + 1) == e@.take(k as int).push(e@[k as int]));
                        k = k + 1;
                    }
                    assert(e@.take(e@.len() as int) == e@);
                    assert(out@ + unescape_bytes(field@.skip(i + 1 + n)) =~= before + unescape_bytes(s));
                },
            }
            i = i + 1 + n;
        }
    }
    assert(field@.skip(field@.len() as int) =~= Seq::<u8>::empty());
    assert(out@ + Seq::<u8>::empty() =~= out@);
    out
}

proof fn lemma_scalar_not_backslash(c: char)
    requires
        c != '\\',
    ensures
        !encode_scalar(c as u32).contains(92u8),
{
    let v = c as u32;
    assert(v != 92u32);
    let e = encode_scalar(v);
    if has_width_1_encoding(v) {
        assert(((v & 0x7F) as u8) != 92u8) by (bit_vector)
            requires
                v <= 0x7F,
                v != 92u32,
        ;
        assert(e =~= seq![(v & 0x7F) as u8]);
    } else {
        assert forall|k: int| 0 <= k < e.len() implies e[k] >= 0x80u8 by {
            assert((0xC0u8 | ((v >> 6) & 0x1F) as u8) >= 0x80u8) by (bit_vector);
            assert((0xE0u8 | ((v >> 12) & 0x0F) as u8) >= 0x80u8) by (bit_vector);
            assert((0xF0u8 | ((v >> 18) & 0x7) as u8) >= 0x80u8) by (bit_vector);
            assert((0x80u8 | (v & 0x3F) as u8) >= 0x80u8) by (bit_vector);
            assert((0x80u8 | ((v >> 6) & 0x3F) as u8) >= 0x80u8) by (bit_vector);
            assert((0x80u8 | ((v >> 12) & 0x3F) as u8) >= 0x80u8) by (bit_vector);
        }
    }
}

proof fn lemma_no_backslash_bytes(s: Seq<char>)
    requires
        !s.contains('\\'),
    ensures
        !encode_utf8(s).contains(92u8),
    decreases s.len(),
{
    if s.len() > 0 {
        assert(s[0] != '\\');
        lemma_scalar_not_backslash(s[0]);
        assert(!s.drop_first().contains('\\')) by {
            if s.drop_first().contains('\\') {
                let k = choose|k: int| 0 <= k < s.drop_first().len() && s.drop_first()[k] == '\\';
                assert(s[k + 1] == '\\');
            }
        }
        lemma_no_backslash_bytes(s.drop_first());
        let a = encode_scalar(s[0] as u32);
        let b = encode_utf8(s.drop_first());
        assert(encode_utf8(s) == a + b);
        if (a + b).contains(92u8) {
            let k = choose|k: int| 0 <= k < (a + b).len() && (a + b)[k] == 92u8;
            if k < a.len() {
                assert(a[k] == 92u8);
            } else {
                assert(b[k - a.len()] == 92u8);
            }
        }
    }
}

proof fn lemma_unescape_plain(b: Seq<u8>)
    requires
        !b.contains(92u8),
    ensures
        unescape_bytes(b) == b,
    decreases b.len(),
{
    if b.len() > 0 {
        assert(b[0] != 92u8);
        assert(!b.drop_first().contains(92u8)) by {
            if b.drop_first().contains(92u8) {
                let k = choose|k: int| 0 <= k < b.drop_first().len() && b.drop_first()[k] == 92u8;
                assert(b[k + 1] == 92u8);
            }
        }
        lemma_unescape_plain(b.drop_first());
        assert(seq![b[0]] + b.drop_first() =~= b);
    }
}

/// A field with no backslash in it has nothing escaped, and reads back as
/// itself.
pub proof fn lemma_plain_field_unchanged(field: Seq<char>)
    requires
        !field.contains('\\'),
    ensures
        unescape_bytes(encode_utf8(field)) == encode_utf8(field),
{
    lemma_no_backslash_bytes(field);
    lemma_unescape_plain(encode_utf8(field));
}

/// A mountinfo field with its escapes decoded, read back as text.
pub open spec fn unescaped(field: Seq<char>) -> Seq<char> {
    lossy_utf8(unescape_bytes(encode_utf8(field)))
}

/// A mountinfo field with its escapes decoded: space, tab, newline and the
/// backslash itself are written as `\040`, `\011`, `\012` and `\134`.
pub fn unescape(field: &str) -> (r: String)
    ensures
        r@ == unescaped(field@),
        valid_utf8(unescape_bytes(encode_utf8(field@))) ==> r@ == decode_utf8(unescape_bytes(encode_utf8(field@))),
        !field@.contains('\\') ==> r@ == field@,
{
    proof {
        if !field@.contains('\\') {
            lemma_plain_field_unchanged(field@);
            vstd::utf8::encode_utf8_valid_utf8(field@);
            vstd::utf8::encode_utf8_decode_utf8(field@);
        }
    }
    let bytes = unescape_field(field.as_bytes());
    from_utf8_lossy(bytes.as_slice())
}

/// Where `pat` first occurs in `s` at or after `i`, or -1.
pub open spec fn find_from(s: Seq<char>, pat: Seq<char>, i: int) -> int
    decreases s.len() + 1 - i,
{
    if i < 0 || i + pat.len() > s.len() {
        -1
    } else if s.subrange(i, i + pat.len()) == pat {
        i
    } else {
        find_from(s, pat, i + 1)
    }
}

/// `str::split_once`: what comes before the first `pat` and what comes
/// after it.
pub open spec fn split_once(s: Seq<char>, pat: Seq<char>) -> Option<(Seq<char>, Seq<char>)> {
    let i = find_from(s, pat, 0);
    if i < 0 {
        None
    } else {
        Some((s.take(i), s.skip(i + pat.len())))
    }
}

/// Reads `rest` for `str::split_whitespace`, with `done` the words so far
/// and `cur` the one being read.
pub open spec fn words_from(rest: Seq<char>, done: Seq<Seq<char>>, cur: Seq<char>) -> Seq<Seq<char>>
    decreases rest.len(),
{
    let kept = if cur.len() > 0 { done.push(cur) } else { done };
    if rest.len() == 0 {
        kept
    } else if is_ws(rest[0]) {
        words_from(rest.drop_first(), kept, seq![])
    } else {
        words_from(rest.drop_first(), done, cur.push(rest[0]))
    }
}

/// `str::split_whitespace`: the runs of characters that are not white space.
pub open spec fn words(s: Seq<char>) -> Seq<Seq<char>> {
    words_from(s, seq![], seq![])
}

/// The mount point and the mounted source a mountinfo line names. The
/// optional fields before ` - ` vary in number, so the mount point is the
/// fifth word before it and the source the second word after it.
pub open spec fn mount_entry(line: Seq<char>) -> Option<(Seq<char>, Seq<char>)> {
    match split_once(line, seq![' ', '-', ' ']) {
        None => None,
        Some((head, tail)) => {
            let a = words(head);
            let b = words(tail);
            if a.len() > 4 && b.len() > 1 {
                Some((unescaped(a[4]), unescaped(b[1])))
            } else {
                None
            }
        },
    }
}

/// The mount that covers `path` among `lines`: the one whose mount point is
/// longest in bytes, the later line winning a tie. Its length and source.
pub open spec fn covering(path: Seq<char>, lines: Seq<Seq<char>>) -> Option<(nat, Seq<char>)>
    decreases lines.len(),
{
    if lines.len() == 0 {
        None
    } else {
        let before = covering(path, lines.drop_last());
        match mount_entry(lines.last()) {
            Some((mount, source)) => {
                let len = encode_utf8(mount).len();
                if path_starts_with(path, mount) && (before is None || len >= before.unwrap().0) {
                    Some((len, source))
                } else {
                    before
                }
            },
            None => before,
        }
    }
}

/// The source of the mount that covers `path`, if any does.
pub open spec fn device_of(path: Seq<char>, mountinfo: Seq<char>) -> Option<Seq<char>> {
    match covering(path, lines(mountinfo)) {
        Some((_, source)) => Some(source),
        None => None,
    }
}

proof fn lemma_find_from(s: Seq<char>, pat: Seq<char>, i: int)
    requires
        0 <= i,
    ensures
        find_from(s, pat, i) >= 0 ==> i <= find_from(s, pat, i) && find_from(s, pat, i) + pat.len() <= s.len(),
    decreases s.len() + 1 - i,
{
    if i + pat.len() <= s.len() && s.subrange(i, i + pat.len()) != pat {
        lemma_find_from(s, pat, i + 1);
    }
}

fn find_sep(v: &Vec<char>, pat: &Vec<char>) -> (r: Option<usize>)
    requires
        pat@.len() > 0,
    ensures
        match r {
            Some(i) => i as int == find_from(v@, pat@, 0),
            None => find_from(v@, pat@, 0) < 0,
        },
{
    let mut i: usize = 0;
    while pat.len() <= v.len() - i
        invariant
            i <= v@.len(),
            pat@.len() > 0,
            find_from(v@, pat@, 0) == find_from(v@, pat@, i as int),
        decreases v@.len() - i,
    {
        let mut j: usize = 0;
        let mut same = true;
        assert(v@.subrange(i as int, i as int) == pat@.take(0));
        while j < pat.len()
            invariant
                i + pat.len() <= v.len(),
                j <= pat@.len(),
                same == (v@.subrange(i as int, i + j) == pat@.take(j as int)),
            decreases pat@.len() - j,
        {
            if v[i + j] != pat[j] {
                same = false;
            }
            assert(v@.subrange(i as int, i + j + 1) == v@.subrange(i as int, i + j).push(v@[i + j]));
            assert(pat@.take(j + 1) == pat@.take(j as int).push(pat@[j as int]));
            if !same {
                assert(v@.subrange(i as int, i + j + 1) != pat@.take(j + 1)) by {
                    if v@.subrange(i as int, i + j) == pat@.take(j as int) {
                        assert(v@.subrange(i as int, i + j + 1)[j as int] != pat@.take(j + 1)[j as int]);
                    } else {
                        if v@.subrange(i as int, i + j + 1) == pat@.take(j + 1) {
                            assert(v@.subrange(i as int, i + j) == v@.subrange(i as int, i + j + 1).drop_last());
                            assert(pat@.take(j as int) == pat@.take(j + 1).drop_last());
                        }
                    }
                }
            }
            j = j + 1;
        }
        assert(pat@.take(pat@.len() as int) == pat@);
        if same {
            return Some(i);
        }
        i = i + 1;
    }
    None
}

/// The words of some characters, each as a vector.
fn split_words(v: &Vec<char>) -> (r: Vec<Vec<char>>)
    ensures
        crate::path::views(r@) == words(v@),
{
    let mut done: Vec<Vec<char>> = Vec::new();
    let mut cur: Vec<char> = Vec::new();
    let mut i: usize = 0;
    assert(v@.skip(0) == v@);
    assert(crate::path::views(done@) =~= Seq::<Seq<char>>::empty());
    while i < v.len()
        invariant
            i <= v@.len(),
            words(v@) == words_from(v@.skip(i as int), crate::path::views(done@), cur@),
        decreases v@.len() - i,
    {
        assert(v@.skip(i as int).drop_first() == v@.skip(i + 1));
        if is_whitespace(v[i]) {
            if cur.len() > 0 {
                let ghost before = done@;
                done.push(cur);
                assert(crate::path::views(done@) =~= crate::path::views(before).push(cur@));
            }
            cur = Vec::new();
        } else {
            cur.push(v[i]);
        }
        i = i + 1;
    }
    if cur.len() > 0 {
        let ghost before = done@;
        done.push(cur);
        assert(crate::path::views(done@) =~= crate::path::views(before).push(cur@));
    }
    done
}

/// A copy of `v[from..]`.
fn tail_of(v: &Vec<char>, from: usize) -> (r: Vec<char>)
    requires
        from <= v@.len(),
    ensures
        r@ == v@.skip(from as int),
{
    let mut r: Vec<char> = Vec::new();
    let mut i = from;
    while i < v.len()
        invariant
            from <= i <= v@.len(),
            r@ == v@.subrange(from as int, i as int),
        decreases v@.len() - i,
    {
        r.push(v[i]);
        assert(v@.subrange(from as int, i + 1) == v@.subrange(from as int, i as int).push(v@[i as int]));
        i = i + 1;
    }
    r
}

/// A copy of `v[..to]`.
fn head_of(v: &Vec<char>, to: usize) -> (r: Vec<char>)
    requires
        to <= v@.len(),
    ensures
        r@ == v@.take(to as int),
{
    let mut r: Vec<char> = Vec::new();
    let mut i: usize = 0;
    while i < to
        invariant
            i <= to <= v@.len(),
            r@ == v@.take(i as int),
        decreases to - i,
    {
        r.push(v[i]);
        assert(v@.take(i + 1) == v@.take(i as int).push(v@[i as int]));
        i = i + 1;
    }
    r
}

/// The mount point and source one mountinfo line names, unescaped.
pub fn entry_of(line: &Vec<char>) -> (r: Option<(String, String)>)
    ensures
        match r {
            Some((m, s)) => mount_entry(line@) == Some((m@, s@)),
            None => mount_entry(line@) is None,
        },
{
    let pat: Vec<char> = vec![' ', '-', ' '];
    assert(pat@ == seq![' ', '-', ' ']);
    let at = match find_sep(line, &pat) {
        Some(at) => at,
        None => return None,
    };
    proof {
        lemma_find_from(line@, pat@, 0);
    }
    let n = line.len();
    assert(at + 3 <= n);
    let head = head_of(line, at);
    let tail = tail_of(line, at + 3);
    let a = split_words(&head);
    let b = split_words(&tail);
    proof {
        assert(crate::path::views(a@).len() == a@.len());
        assert(crate::path::views(b@).len() == b@.len());
    }
    if a.len() > 4 && b.len() > 1 {
        assert(crate::path::views(a@)[4] == a@[4]@);
        assert(crate::path::views(b@)[1] == b@[1]@);
        let m = unescape(string_of(&a[4]).as_str());
        let s = unescape(string_of(&b[1]).as_str());
        Some((m, s))
    } else {
        None
    }
}

/// The device that backs the filesystem `path` sits on, going by the text
/// of `/proc/self/mountinfo`: the source of the longest mount point that is
/// a prefix of it, the most recent mount winning. `None` where no mount
/// covers it.
pub fn device_for(path: &str, mountinfo: &str) -> (r: Option<String>)
    ensures
        match r {
            Some(d) => device_of(path@, mountinfo@) == Some(d@),
            None => device_of(path@, mountinfo@) is None,
        },
{
    let ls = lines_of(mountinfo);
    let ghost all = crate::path::views(ls@);
    let mut best: Option<(usize, String)> = None;
    let mut i: usize = 0;
    while i < ls.len()
        invariant
            i <= ls@.len(),
            all == crate::path::views(ls@),
            all == lines(mountinfo@),
            match best {
                Some((n, d)) => covering(path@, all.take(i as int)) == Some((n as nat, d@)),
                None => covering(path@, all.take(i as int)) is None,
            },
        decreases ls@.len() - i,
    {
        assert(all.take(i + 1).drop_last() == all.take(i as int));
        assert(all.take(i + 1).last() == ls@[i as int]@);
        match entry_of(&ls[i]) {
            Some((mount, source)) => {
                let len = mount.as_str().as_bytes().len();
                let covers = starts_with_path(path, mount.as_str());
                let longer = match &best {
                    Some((n, _)) => len >= *n,
                    None => true,
                };
                if covers && longer {
                    best = Some((len, source));
                    assert(covering(path@, all.take(i + 1)) == Some((len as nat, source@)));
                } else {
                    assert(covering(path@, all.take(i + 1)) == covering(path@, all.take(i as int)));
                }
            },
            None => {},
        }
        i = i + 1;
    }
    assert(all.take(i as int) == all);
    match best {
        Some((_, d)) => Some(d),
        None => None,
    }
}

} // verus!
