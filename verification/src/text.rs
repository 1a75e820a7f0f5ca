//! Character-level helpers shared by everything that renders or parses text.

use vstd::prelude::*;
use vstd::utf8::{decode_utf8, valid_utf8};

verus! {

/// Appends one character to a string.
///
/// Trusted: `String::push`, whose documentation says it appends the given
/// `char` to the end of the string.
#[verifier::external_body]
pub(crate) fn push_char(s: &mut String, c: char)
    ensures
        final(s)@ == old(s)@.push(c),
{
    s.push(c);
}

/// The text `String::from_utf8_lossy` makes of some bytes.
pub uninterp spec fn lossy_utf8(bytes: Seq<u8>) -> Seq<char>;

/// Trusted: `String::from_utf8_lossy`. Its result depends on the bytes
/// alone, and its documentation says that valid UTF-8 comes back as the
/// text it encodes. What replaces an invalid sequence is not stated here.
#[verifier::external_body]
pub(crate) fn from_utf8_lossy(bytes: &[u8]) -> (r: String)
    ensures
        r@ == lossy_utf8(bytes@),
        valid_utf8(bytes@) ==> r@ == decode_utf8(bytes@),
{
    String::from_utf8_lossy(bytes).into_owned()
}

/// The characters of a string, one element each.
pub fn chars_of(s: &str) -> (v: Vec<char>)
    ensures
        v@ == s@,
{
    let mut v: Vec<char> = Vec::new();
    for c in it: s.chars()
        invariant
            v@ == it.seq().take(it.index() as int),
            it.seq() == s@,
    {
        v.push(c);
    }
    v
}

/// Appends `v[from..to]` to `s`.
pub fn push_range(s: &mut String, v: &Vec<char>, from: usize, to: usize)
    requires
        from <= to <= v@.len(),
    ensures
        final(s)@ == old(s)@ + v@.subrange(from as int, to as int),
{
    let mut i = from;
    while i < to
        invariant
            from <= i <= to <= v@.len(),
            s@ == old(s)@ + v@.subrange(from as int, i as int),
        decreases to - i,
    {
        push_char(s, v[i]);
        assert(v@.subrange(from as int, i + 1) == v@.subrange(from as int, i as int).push(v@[i as int]));
        i = i + 1;
    }
}

/// A string holding exactly the given characters.
pub fn string_of(v: &Vec<char>) -> (s: String)
    ensures
        s@ == v@,
{
    let mut s = String::new();
    push_range(&mut s, v, 0, v.len());
    assert(v@.subrange(0, v@.len() as int) == v@);
    s
}

/// A copy of a string slice as an owned string.
pub fn owned(s: &str) -> (r: String)
    ensures
        r@ == s@,
{
    let mut r = String::new();
    r.append(s);
    r
}

/// The Unicode `White_Space` property, which is what `char::is_whitespace`
/// and therefore `str::trim` and `str::split_whitespace` go by.
pub open spec fn is_ws(c: char) -> bool {
    let u = c as u32;
    ||| 9 <= u <= 13
    ||| u == 32
    ||| u == 0x85
    ||| u == 0xa0
    ||| u == 0x1680
    ||| 0x2000 <= u <= 0x200a
    ||| u == 0x2028
    ||| u == 0x2029
    ||| u == 0x202f
    ||| u == 0x205f
    ||| u == 0x3000
}

pub fn is_whitespace(c: char) -> (b: bool)
    ensures
        b == is_ws(c),
{
    let u = c as u32;
    (9 <= u && u <= 13) || u == 32 || u == 0x85 || u == 0xa0 || u == 0x1680 || (0x2000 <= u
        && u <= 0x200a) || u == 0x2028 || u == 0x2029 || u == 0x202f || u == 0x205f || u
        == 0x3000
}

/// `s` without its leading whitespace.
pub open spec fn trim_start(s: Seq<char>) -> Seq<char>
    decreases s.len(),
{
    if s.len() > 0 && is_ws(s[0]) {
        trim_start(s.drop_first())
    } else {
        s
    }
}

/// `s` without its trailing whitespace.
pub open spec fn trim_end(s: Seq<char>) -> Seq<char>
    decreases s.len(),
{
    if s.len() > 0 && is_ws(s.last()) {
        trim_end(s.drop_last())
    } else {
        s
    }
}

/// What `str::trim` leaves of `s`.
pub open spec fn trim(s: Seq<char>) -> Seq<char> {
    trim_end(trim_start(s))
}

/// The index of the first character of `v[from..]` that is not whitespace,
/// or `v.len()` when there is none.
fn skip_ws(v: &Vec<char>, from: usize) -> (i: usize)
    requires
        from <= v@.len(),
    ensures
        from <= i <= v@.len(),
        trim_start(v@.subrange(from as int, v@.len() as int)) == v@.subrange(
            i as int,
            v@.len() as int,
        ),
        i < v@.len() ==> !is_ws(v@[i as int]),
{
    let mut i = from;
    while i < v.len() && is_whitespace(v[i])
        invariant
            from <= i <= v@.len(),
            trim_start(v@.subrange(from as int, v@.len() as int)) == trim_start(
                v@.subrange(i as int, v@.len() as int),
            ),
        decreases v@.len() - i,
    {
        assert(v@.subrange(i as int, v@.len() as int).drop_first() == v@.subrange(
            i + 1,
            v@.len() as int,
        ));
        i = i + 1;
    }
    i
}

/// The end of `v[from..to]` once trailing whitespace is dropped.
fn skip_ws_back(v: &Vec<char>, from: usize, to: usize) -> (j: usize)
    requires
        from <= to <= v@.len(),
    ensures
        from <= j <= to,
        trim_end(v@.subrange(from as int, to as int)) == v@.subrange(from as int, j as int),
{
    let mut j = to;
    while j > from && is_whitespace(v[j - 1])
        invariant
            from <= j <= to <= v@.len(),
            trim_end(v@.subrange(from as int, to as int)) == trim_end(
                v@.subrange(from as int, j as int),
            ),
        decreases j,
    {
        assert(v@.subrange(from as int, j as int).drop_last() == v@.subrange(
            from as int,
            j - 1,
        ));
        j = j - 1;
    }
    j
}

/// `str::trim`: the characters between the first and the last that are not
/// whitespace.
pub fn trim_chars(v: &Vec<char>) -> (r: String)
    ensures
        r@ == trim(v@),
{
    let i = skip_ws(v, 0);
    let j = skip_ws_back(v, i, v.len());
    assert(v@.subrange(0, v@.len() as int) == v@);
    let mut r = String::new();
    push_range(&mut r, v, i, j);
    assert(r@ == v@.subrange(i as int, j as int));
    r
}

pub fn trimmed(s: &str) -> (r: String)
    ensures
        r@ == trim(s@),
{
    let v = chars_of(s);
    trim_chars(&v)
}

/// The decimal digit for `d`, which is below ten.
pub open spec fn digit_char(d: nat) -> char {
    seq!['0', '1', '2', '3', '4', '5', '6', '7', '8', '9'][d as int]
}

/// `n` in decimal, as `Display` writes unsigned integers.
pub open spec fn decimal(n: nat) -> Seq<char>
    decreases n,
{
    if n < 10 {
        seq![digit_char(n)]
    } else {
        decimal(n / 10).push(digit_char(n % 10))
    }
}

/// `i` in decimal, as `Display` writes signed integers.
pub open spec fn signed_decimal(i: int) -> Seq<char> {
    if i < 0 {
        seq!['-'] + decimal((-i) as nat)
    } else {
        decimal(i as nat)
    }
}

fn digit(d: u64) -> (c: char)
    requires
        d < 10,
    ensures
        c == digit_char(d as nat),
{
    let digits = ['0', '1', '2', '3', '4', '5', '6', '7', '8', '9'];
    assert(digits@ == seq!['0', '1', '2', '3', '4', '5', '6', '7', '8', '9']);
    digits[d as usize]
}

/// Appends `n` in decimal.
pub fn push_decimal(s: &mut String, n: u64)
    ensures
        final(s)@ == old(s)@ + decimal(n as nat),
    decreases n,
{
    if n >= 10 {
        push_decimal(s, n / 10);
    }
    push_char(s, digit(n % 10));
}

/// Appends `i` in decimal, with a leading `-` when it is negative.
pub fn push_signed_decimal(s: &mut String, i: i64)
    ensures
        final(s)@ == old(s)@ + signed_decimal(i as int),
{
    if i < 0 {
        push_char(s, '-');
        let magnitude: u64 = if i == i64::MIN {
            9223372036854775808u64
        } else {
            (-i) as u64
        };
        push_decimal(s, magnitude);
    } else {
        push_decimal(s, i as u64);
    }
}

pub fn decimal_string(n: u64) -> (s: String)
    ensures
        s@ == decimal(n as nat),
{
    let mut s = String::new();
    push_decimal(&mut s, n);
    s
}

/// The lowercase hex digit for `d`, which is below sixteen.
pub open spec fn hex_char(d: nat) -> char {
    seq!['0', '1', '2', '3', '4', '5', '6', '7', '8', '9', 'a', 'b', 'c', 'd', 'e', 'f'][d as int]
}

/// Each byte as two lowercase hex digits, as `{:02x}` writes it.
pub open spec fn hex(bytes: Seq<u8>) -> Seq<char>
    decreases bytes.len(),
{
    if bytes.len() == 0 {
        seq![]
    } else {
        hex(bytes.drop_last()) + seq![
            hex_char((bytes.last() / 16) as nat),
            hex_char((bytes.last() % 16) as nat),
        ]
    }
}

fn hex_digit(d: u8) -> (c: char)
    requires
        d < 16,
    ensures
        c == hex_char(d as nat),
{
    let digits = ['0', '1', '2', '3', '4', '5', '6', '7', '8', '9', 'a', 'b', 'c', 'd', 'e', 'f'];
    assert(digits@ == seq![
        '0',
        '1',
        '2',
        '3',
        '4',
        '5',
        '6',
        '7',
        '8',
        '9',
        'a',
        'b',
        'c',
        'd',
        'e',
        'f',
    ]);
    digits[d as usize]
}

pub fn hex_string(bytes: &[u8]) -> (s: String)
    ensures
        s@ == hex(bytes@),
{
    let mut s = String::new();
    let mut i: usize = 0;
    while i < bytes.len()
        invariant
            i <= bytes@.len(),
            s@ == hex(bytes@.take(i as int)),
        decreases bytes@.len() - i,
    {
        let b = bytes[i];
        push_char(&mut s, hex_digit(b / 16));
        push_char(&mut s, hex_digit(b % 16));
        assert(bytes@.take(i + 1).drop_last() == bytes@.take(i as int));
        i = i + 1;
    }
    assert(bytes@.take(bytes@.len() as int) == bytes@);
    s
}

/// Whether `a` sorts strictly before `b`, character by character. Code
/// points compare the way their UTF-8 encodings do, so this is the order of
/// `str`'s `Ord`.
pub open spec fn seq_lt(a: Seq<char>, b: Seq<char>) -> bool
    decreases a.len(),
{
    if a.len() == 0 {
        b.len() > 0
    } else if b.len() == 0 {
        false
    } else if a[0] != b[0] {
        (a[0] as u32) < (b[0] as u32)
    } else {
        seq_lt(a.drop_first(), b.drop_first())
    }
}

pub fn less(a: &str, b: &str) -> (r: bool)
    ensures
        r == seq_lt(a@, b@),
{
    let x = chars_of(a);
    let y = chars_of(b);
    let mut i: usize = 0;
    assert(x@.skip(0) == x@);
    assert(y@.skip(0) == y@);
    while i < x.len() && i < y.len() && x[i] == y[i]
        invariant
            i <= x@.len(),
            i <= y@.len(),
            seq_lt(a@, b@) == seq_lt(x@.skip(i as int), y@.skip(i as int)),
        decreases x@.len() - i,
    {
        assert(x@.skip(i as int).drop_first() == x@.skip(i + 1));
        assert(y@.skip(i as int).drop_first() == y@.skip(i + 1));
        i = i + 1;
    }
    if i == x.len() {
        i < y.len()
    } else if i == y.len() {
        false
    } else {
        (x[i] as u32) < (y[i] as u32)
    }
}

/// The pairs come in strictly increasing order of their keys, so no key
/// occurs twice: what a map walked in key order gives.
pub open spec fn keyed<T>(s: Seq<(String, T)>) -> bool {
    forall|i: int, j: int| 0 <= i < j < s.len() ==> seq_lt(#[trigger] s[i].0@, #[trigger] s[j].0@)
}

/// Whether every element of `s` sorts before or equal to the next.
pub open spec fn sorted(s: Seq<Seq<char>>) -> bool {
    forall|i: int, j: int|
        0 <= i < j < s.len() ==> !seq_lt(#[trigger] s[j], #[trigger] s[i])
}

} // verus!

verus! {

pub fn starts_with(s: &str, prefix: &str) -> (r: bool)
    ensures
        r == prefix@.is_prefix_of(s@),
{
    let v = chars_of(s);
    let p = chars_of(prefix);
    if p.len() > v.len() {
        return false;
    }
    let mut i: usize = 0;
    while i < p.len()
        invariant
            i <= p@.len() <= v@.len(),
            v@ == s@,
            p@ == prefix@,
            forall|k: int| 0 <= k < i ==> p@[k] == v@[k],
        decreases p@.len() - i,
    {
        if p[i] != v[i] {
            assert(p@[i as int] != v@.subrange(0, p@.len() as int)[i as int]);
            return false;
        }
        i = i + 1;
    }
    true
}

pub fn ends_with(s: &str, suffix: &str) -> (r: bool)
    ensures
        r == suffix@.is_suffix_of(s@),
{
    let v = chars_of(s);
    let p = chars_of(suffix);
    if p.len() > v.len() {
        return false;
    }
    let off = v.len() - p.len();
    let mut i: usize = 0;
    while i < p.len()
        invariant
            i <= p@.len() <= v@.len(),
            off + p@.len() == v@.len(),
            v@ == s@,
            p@ == suffix@,
            forall|k: int| 0 <= k < i ==> p@[k] == v@[off + k],
        decreases p@.len() - i,
    {
        if p[i] != v[v.len() - (p.len() - i)] {
            assert(p@[i as int] != v@.subrange(off as int, v@.len() as int)[i as int]);
            return false;
        }
        i = i + 1;
    }
    true
}

pub fn str_eq(a: &str, b: &str) -> (r: bool)
    ensures
        r == (a@ == b@),
{
    owned(a) == owned(b)
}

} // verus!

verus! {

/// The characters of each string, in order.
pub open spec fn strs(v: Seq<String>) -> Seq<Seq<char>> {
    v.map_values(|s: String| s@)
}

/// The pieces with `sep` between each two, as `[T]::join` does.
pub open spec fn join_with(pieces: Seq<Seq<char>>, sep: Seq<char>) -> Seq<char>
    decreases pieces.len(),
{
    if pieces.len() == 0 {
        seq![]
    } else if pieces.len() == 1 {
        pieces[0]
    } else {
        join_with(pieces.drop_last(), sep) + sep + pieces.last()
    }
}

/// Every piece with a space before it.
pub open spec fn spaced(pieces: Seq<Seq<char>>) -> Seq<char>
    decreases pieces.len(),
{
    if pieces.len() == 0 {
        seq![]
    } else {
        spaced(pieces.drop_last()) + seq![' '] + pieces.last()
    }
}

/// Joins the strings with `sep` between each two.
pub fn join_strings(v: &Vec<String>, sep: &str) -> (r: String)
    ensures
        r@ == join_with(strs(v@), sep@),
{
    let mut r = String::new();
    let mut i: usize = 0;
    while i < v.len()
        invariant
            i <= v@.len(),
            r@ == join_with(strs(v@.take(i as int)), sep@),
        decreases v@.len() - i,
    {
        if i > 0 {
            r.append(sep);
        }
        r.append(v[i].as_str());
        proof {
            let next = strs(v@.take(i + 1));
            assert(next.drop_last() =~= strs(v@.take(i as int)));
            assert(next.last() == v@[i as int]@);
            if i == 0 {
                assert(strs(v@.take(0)) =~= Seq::<Seq<char>>::empty());
                assert(next.len() == 1);
            }
        }
        i = i + 1;
    }
    assert(v@.take(v@.len() as int) =~= v@);
    r
}

/// Appends each string with a space before it.
pub fn push_spaced(r: &mut String, v: &Vec<String>)
    ensures
        final(r)@ == old(r)@ + spaced(strs(v@)),
{
    let mut i: usize = 0;
    assert(strs(v@.take(0)) =~= Seq::<Seq<char>>::empty());
    while i < v.len()
        invariant
            i <= v@.len(),
            r@ == old(r)@ + spaced(strs(v@.take(i as int))),
        decreases v@.len() - i,
    {
        push_char(r, ' ');
        r.append(v[i].as_str());
        proof {
            let next = strs(v@.take(i + 1));
            assert(next.drop_last() =~= strs(v@.take(i as int)));
            assert(next.last() == v@[i as int]@);
        }
        i = i + 1;
    }
    assert(v@.take(v@.len() as int) =~= v@);
}

/// `n` slashes, the depth marker of a limine menu entry.
pub open spec fn slashes(n: nat) -> Seq<char> {
    Seq::new(n, |i: int| '/')
}

pub fn push_slashes(r: &mut String, n: usize)
    ensures
        final(r)@ == old(r)@ + slashes(n as nat),
{
    let mut i: usize = 0;
    while i < n
        invariant
            i <= n,
            r@ == old(r)@ + slashes(i as nat),
        decreases n - i,
    {
        push_char(r, '/');
        assert(slashes((i + 1) as nat) =~= slashes(i as nat).push('/'));
        i = i + 1;
    }
}

} // verus!

verus! {

pub proof fn lemma_lt_irreflexive(a: Seq<char>)
    ensures
        !seq_lt(a, a),
    decreases a.len(),
{
    if a.len() > 0 {
        lemma_lt_irreflexive(a.drop_first());
    }
}

pub proof fn lemma_lt_transitive(a: Seq<char>, b: Seq<char>, c: Seq<char>)
    requires
        seq_lt(a, b),
        seq_lt(b, c),
    ensures
        seq_lt(a, c),
    decreases a.len(),
{
    if a.len() > 0 && b.len() > 0 && c.len() > 0 && a[0] == b[0] && b[0] == c[0] {
        lemma_lt_transitive(a.drop_first(), b.drop_first(), c.drop_first());
    }
}

pub proof fn lemma_lt_asymmetric(a: Seq<char>, b: Seq<char>)
    requires
        seq_lt(a, b),
    ensures
        !seq_lt(b, a),
{
    if seq_lt(b, a) {
        lemma_lt_transitive(a, b, a);
        lemma_lt_irreflexive(a);
    }
}

/// Inserting `x` at `k` adds it to the multiset of `s`.
pub proof fn lemma_insert_multiset<A>(s: Seq<A>, k: int, x: A)
    requires
        0 <= k <= s.len(),
    ensures
        s.insert(k, x).to_multiset() =~= s.to_multiset().insert(x),
{
    broadcast use vstd::seq_lib::group_to_multiset_ensures;
    let t = s.insert(k, x);
    assert(t.remove(k) =~= s);
    assert(t[k] == x);
    assert(t.contains(x));
    assert(t.to_multiset().count(x) > 0);
}

/// The strings in order, each at or after every one before it.
pub fn sort_strings(v: Vec<String>) -> (r: Vec<String>)
    ensures
        sorted(strs(r@)),
        strs(r@).to_multiset() =~= strs(v@).to_multiset(),
{
    let mut out: Vec<String> = Vec::new();
    let mut i: usize = 0;
    let mut rest = v;
    let ghost all = rest@;
    let total = rest.len();
    assert(all.skip(0) == all);
    proof {
        broadcast use vstd::seq_lib::group_to_multiset_ensures;
        assert(strs(all.take(0)) =~= Seq::<Seq<char>>::empty());
        assert(strs(out@) =~= Seq::<Seq<char>>::empty());
        assert(strs(out@).to_multiset().len() == 0);
        assert(strs(out@).to_multiset() =~= vstd::multiset::Multiset::empty());
        assert(strs(all.take(0)).to_multiset() =~= vstd::multiset::Multiset::empty());
    }
    while rest.len() > 0
        invariant
            i + rest@.len() == all.len(),
            total == all.len(),
            rest@ == all.skip(i as int),
            sorted(strs(out@)),
            strs(out@).to_multiset() =~= strs(all.take(i as int)).to_multiset(),
        decreases rest@.len(),
    {
        let x = rest.remove(0);
        assert(all.skip(i as int)[0] == all[i as int]);
        assert(rest@ =~= all.skip(i + 1));
        let mut k: usize = 0;
        while k < out.len() && !less(x.as_str(), out[k].as_str())
            invariant
                k <= out@.len(),
                forall|j: int| 0 <= j < k ==> !seq_lt(x@, #[trigger] out@[j]@),
            decreases out@.len() - k,
        {
            k = k + 1;
        }
        let ghost before = strs(out@);
        out.insert(k, x);
        proof {
            assert(strs(out@) =~= before.insert(k as int, x@));
            lemma_insert_multiset(before, k as int, x@);
            assert(strs(all.take(i + 1)) =~= strs(all.take(i as int)).push(x@));
            assert(strs(all.take(i as int)).push(x@).to_multiset() =~= strs(all.take(i as int)).to_multiset().insert(x@)) by {
                broadcast use vstd::seq_lib::group_to_multiset_ensures;
            }
            let s = strs(out@);
            assert forall|a: int, b: int| 0 <= a < b < s.len() implies !seq_lt(#[trigger] s[b], #[trigger] s[a]) by {
                if a < k && b == k {
                } else if a == k && b > k {
                    if k < before.len() && seq_lt(before[b - 1], x@) {
                        if b - 1 > k {
                            lemma_lt_transitive(before[b - 1], x@, before[k as int]);
                        } else {
                            lemma_lt_asymmetric(x@, before[k as int]);
                        }
                    }
                } else if a < k && b > k {
                    assert(s[a] == before[a]);
                    assert(s[b] == before[b - 1]);
                } else if a > k {
                    assert(s[a] == before[a - 1]);
                    assert(s[b] == before[b - 1]);
                } else {
                    assert(s[a] == before[a]);
                    assert(s[b] == before[b]);
                }
            }
        }
        i = i + 1;
    }
    assert(all.take(all.len() as int) =~= all);
    out
}

} // verus!

verus! {

/// A piece of `str::lines`: without its `\n`, and without a `\r` right
/// before that.
pub open spec fn strip_line_end(piece: Seq<char>) -> Seq<char> {
    if piece.len() > 0 && piece.last() == '\r' {
        piece.drop_last()
    } else {
        piece
    }
}

/// Reads `rest` with `cur` the line read so far, as `str::lines` does:
/// split after each `\n`, strip it and a `\r` before it, and yield no empty
/// line after a final `\n`.
pub open spec fn lines_from(rest: Seq<char>, cur: Seq<char>) -> Seq<Seq<char>>
    decreases rest.len(),
{
    if rest.len() == 0 {
        if cur.len() == 0 {
            seq![]
        } else {
            seq![cur]
        }
    } else if rest[0] == '\n' {
        seq![strip_line_end(cur)] + lines_from(rest.drop_first(), seq![])
    } else {
        lines_from(rest.drop_first(), cur.push(rest[0]))
    }
}

pub open spec fn lines(s: Seq<char>) -> Seq<Seq<char>> {
    lines_from(s, seq![])
}

fn strip_cr(v: Vec<char>) -> (r: Vec<char>)
    ensures
        r@ == strip_line_end(v@),
{
    let mut v = v;
    if v.len() > 0 && v[v.len() - 1] == '\r' {
        v.pop();
    }
    v
}

/// `str::lines`.
pub fn lines_of(s: &str) -> (r: Vec<Vec<char>>)
    ensures
        crate::path::views(r@) == lines(s@),
{
    let v = chars_of(s);
    let mut done: Vec<Vec<char>> = Vec::new();
    let mut cur: Vec<char> = Vec::new();
    let mut i: usize = 0;
    assert(v@.skip(0) == v@);
    assert(crate::path::views(done@) =~= Seq::<Seq<char>>::empty());
    while i < v.len()
        invariant
            i <= v@.len(),
            v@ == s@,
            lines(s@) == crate::path::views(done@) + lines_from(v@.skip(i as int), cur@),
        decreases v@.len() - i,
    {
        assert(v@.skip(i as int).drop_first() == v@.skip(i + 1));
        if v[i] == '\n' {
            let ghost before = done@;
            let line = strip_cr(cur);
            done.push(line);
            assert(crate::path::views(done@) =~= crate::path::views(before).push(line@));
            cur = Vec::new();
            assert(crate::path::views(before) + (seq![line@] + lines_from(v@.skip(i + 1), cur@)) =~= crate::path::views(done@) + lines_from(v@.skip(i + 1), cur@));
        } else {
            cur.push(v[i]);
        }
        i = i + 1;
    }
    if cur.len() > 0 {
        let ghost before = done@;
        done.push(cur);
        assert(crate::path::views(done@) =~= crate::path::views(before).push(cur@));
    } else {
        assert(crate::path::views(done@) + Seq::<Seq<char>>::empty() =~= crate::path::views(done@));
    }
    done
}

} // verus!

verus! {

/// The value of a decimal digit.
pub open spec fn digit_value(c: char) -> Option<nat> {
    if '0' <= c && c <= '9' {
        Some((c as u32 - '0' as u32) as nat)
    } else {
        None
    }
}

pub open spec fn all_digits(s: Seq<char>) -> bool {
    forall|i: int| 0 <= i < s.len() ==> #[trigger] digit_value(s[i]) is Some
}

/// The number a run of decimal digits spells.
pub open spec fn digits_value(s: Seq<char>) -> nat
    decreases s.len(),
{
    if s.len() == 0 {
        0
    } else {
        digits_value(s.drop_last()) * 10 + match digit_value(s.last()) {
            Some(d) => d,
            None => 0,
        }
    }
}

/// `str::parse::<u32>`: an optional `+`, then one or more decimal digits
/// spelling a number that fits.
pub open spec fn parse_u32(s: Seq<char>) -> Option<u32> {
    let body = if s.len() > 0 && s[0] == '+' {
        s.drop_first()
    } else {
        s
    };
    if body.len() == 0 || !all_digits(body) || digits_value(body) > u32::MAX {
        None
    } else {
        Some(digits_value(body) as u32)
    }
}

proof fn lemma_digits_grow(s: Seq<char>, k: int)
    requires
        0 <= k <= s.len(),
        all_digits(s),
    ensures
        digits_value(s.take(k)) <= digits_value(s),
    decreases s.len(),
{
    if k < s.len() {
        assert(all_digits(s.drop_last())) by {
            assert forall|i: int| 0 <= i < s.drop_last().len() implies #[trigger] digit_value(s.drop_last()[i]) is Some by {
                assert(s.drop_last()[i] == s[i]);
            }
        }
        lemma_digits_grow(s.drop_last(), k);
        assert(s.drop_last().take(k) == s.take(k));
    } else {
        assert(s.take(k) == s);
    }
}

fn parse_digits(v: &Vec<char>, from: usize) -> (r: Option<u32>)
    requires
        from <= v@.len(),
    ensures
        match r {
            Some(n) => all_digits(v@.skip(from as int)) && digits_value(v@.skip(from as int)) == n,
            None => !all_digits(v@.skip(from as int)) || digits_value(v@.skip(from as int)) > u32::MAX,
        },
{
    let ghost body = v@.skip(from as int);
    let mut acc: u64 = 0;
    let mut i = from;
    while i < v.len()
        invariant
            from <= i <= v@.len(),
            body == v@.skip(from as int),
            all_digits(body.take(i - from)),
            acc == digits_value(body.take(i - from)),
            acc <= u32::MAX,
        decreases v@.len() - i,
    {
        let c = v[i];
        let ghost k = (i - from) as int;
        assert(body[k] == c);
        if !('0' <= c && c <= '9') {
            assert(digit_value(body[k]) is None);
            return None;
        }
        let d = (c as u32 - '0' as u32) as u64;
        proof {
            let next = body.take(k + 1);
            assert(next.drop_last() == body.take(k));
            assert(next.last() == c);
            assert forall|j: int| 0 <= j < next.len() implies #[trigger] digit_value(next[j]) is Some by {
                if j < k {
                    assert(next[j] == body.take(k)[j]);
                }
            }
        }
        acc = acc * 10 + d;
        if acc > 0xffff_ffff {
            proof {
                if all_digits(body) {
                    lemma_digits_grow(body, k + 1);
                }
            }
            return None;
        }
        i = i + 1;
    }
    assert(body.take(body.len() as int) == body);
    Some(acc as u32)
}

/// `str::parse::<u32>`.
pub fn parse_u32_of(s: &str) -> (r: Option<u32>)
    ensures
        r == parse_u32(s@),
{
    let v = chars_of(s);
    let from: usize = if v.len() > 0 && v[0] == '+' { 1 } else { 0 };
    assert(from == 1 ==> v@.skip(1) == v@.drop_first());
    assert(v@.skip(0) == v@);
    if from == v.len() {
        return None;
    }
    parse_digits(&v, from)
}

/// Whether every element is at most the next.
pub open spec fn ascending(s: Seq<u32>) -> bool {
    forall|i: int, j: int| 0 <= i < j < s.len() ==> #[trigger] s[i] <= #[trigger] s[j]
}

/// The numbers in ascending order.
pub fn sort_u32(v: Vec<u32>) -> (r: Vec<u32>)
    ensures
        ascending(r@),
        r@.to_multiset() =~= v@.to_multiset(),
{
    let mut out: Vec<u32> = Vec::new();
    let mut i: usize = 0;
    let total = v.len();
    proof {
        broadcast use vstd::seq_lib::group_to_multiset_ensures;
        assert(v@.take(0) =~= Seq::<u32>::empty());
        assert(out@.to_multiset() =~= vstd::multiset::Multiset::empty());
        assert(v@.take(0).to_multiset() =~= vstd::multiset::Multiset::empty());
    }
    while i < total
        invariant
            i <= total,
            total == v@.len(),
            ascending(out@),
            out@.to_multiset() =~= v@.take(i as int).to_multiset(),
        decreases total - i,
    {
        let x = v[i];
        let mut k: usize = 0;
        while k < out.len() && out[k] <= x
            invariant
                k <= out@.len(),
                forall|j: int| 0 <= j < k ==> #[trigger] out@[j] <= x,
            decreases out@.len() - k,
        {
            k = k + 1;
        }
        let ghost before = out@;
        out.insert(k, x);
        proof {
            lemma_insert_multiset(before, k as int, x);
            assert(v@.take(i + 1) =~= v@.take(i as int).push(x));
            assert(v@.take(i as int).push(x).to_multiset() =~= v@.take(i as int).to_multiset().insert(x)) by {
                broadcast use vstd::seq_lib::group_to_multiset_ensures;
            }
            assert forall|a: int, b: int| 0 <= a < b < out@.len() implies #[trigger] out@[a] <= #[trigger] out@[b] by {
                if a < k && b == k {
                } else if a == k && b > k {
                    assert(out@[b] == before[b - 1]);
                    assert(before[k as int] > x);
                } else if a < k && b > k {
                    assert(out@[a] == before[a]);
                    assert(out@[b] == before[b - 1]);
                } else if a > k {
                    assert(out@[a] == before[a - 1]);
                    assert(out@[b] == before[b - 1]);
                } else {
                    assert(out@[a] == before[a]);
                    assert(out@[b] == before[b]);
                }
            }
        }
        i = i + 1;
    }
    assert(v@.take(total as int) =~= v@);
    out
}

} // verus!
