//! Character-level text operations with their mathematical meaning.
//!
//! Each exec function here matches one piece of `str`'s behaviour (trimming
//! Unicode whitespace, prefix tests, splitting into lines, joining with a
//! newline) and states it over `Seq<char>`, so that the modules above can
//! describe their text transformations exactly.

use vstd::prelude::*;

verus! {

/// Unicode `White_Space`, which is what `char::is_whitespace` tests.
pub open spec fn is_ws(c: char) -> bool {
    ||| ('\u{9}' <= c && c <= '\u{d}')
    ||| c == ' '
    ||| c == '\u{85}'
    ||| c == '\u{a0}'
    ||| c == '\u{1680}'
    ||| ('\u{2000}' <= c && c <= '\u{200a}')
    ||| c == '\u{2028}'
    ||| c == '\u{2029}'
    ||| c == '\u{202f}'
    ||| c == '\u{205f}'
    ||| c == '\u{3000}'
}

/// `s` without its leading whitespace.
pub open spec fn trim_start(s: Seq<char>) -> Seq<char>
    decreases s.len(),
{
    if s.len() > 0 && is_ws(s[0]) {
        trim_start(s.drop_first())
    } else {
        s
    }
}

/// `s` without its trailing whitespace.
pub open spec fn trim_end(s: Seq<char>) -> Seq<char>
    decreases s.len(),
{
    if s.len() > 0 && is_ws(s.last()) {
        trim_end(s.drop_last())
    } else {
        s
    }
}

/// `s` without whitespace at either end.
pub open spec fn trim(s: Seq<char>) -> Seq<char> {
    trim_end(trim_start(s))
}

pub open spec fn starts_with(s: Seq<char>, p: Seq<char>) -> bool {
    p.len() <= s.len() && s.subrange(0, p.len() as int) == p
}

/// `s` with every leading repetition of the non-empty pattern `p` removed,
/// as `str::trim_start_matches` does; an empty pattern removes nothing.
pub open spec fn strip_all_prefix(s: Seq<char>, p: Seq<char>) -> Seq<char>
    decreases s.len(),
{
    if p.len() > 0 && starts_with(s, p) {
        strip_all_prefix(s.skip(p.len() as int), p)
    } else {
        s
    }
}

/// How many characters precede the first `c` in `s` (all of them if none is `c`).
pub open spec fn prefix_len_before(s: Seq<char>, c: char) -> nat
    decreases s.len(),
{
    if s.len() == 0 || s[0] == c {
        0
    } else {
        1 + prefix_len_before(s.drop_first(), c)
    }
}

/// The part of `s` before its first `c`: the first piece of `s.split(c)`.
pub open spec fn before_first(s: Seq<char>, c: char) -> Seq<char> {
    s.take(prefix_len_before(s, c) as int)
}

/// A line without the carriage return of a `\r\n` ending.
pub open spec fn strip_cr(l: Seq<char>) -> Seq<char> {
    if l.len() > 0 && l.last() == '\r' {
        l.drop_last()
    } else {
        l
    }
}

/// The lines of `s` as `str::lines` yields them: split at `\n`, a `\r`
/// before the `\n` dropped, and no empty line after a final `\n`.
pub open spec fn lines(s: Seq<char>) -> Seq<Seq<char>>
    decreases s.len(),
{
    if s.len() == 0 {
        seq![]
    } else {
        let k = prefix_len_before(s, '\n');
        if k >= s.len() {
            seq![s]
        } else {
            seq![strip_cr(s.take(k as int))] + lines(s.skip(k + 1int))
        }
    }
}

/// The lines of `ls` joined with `\n` between them.
pub open spec fn join_lines(ls: Seq<Seq<char>>) -> Seq<char>
    decreases ls.len(),
{
    if ls.len() == 0 {
        seq![]
    } else if ls.len() == 1 {
        ls[0]
    } else {
        ls[0] + seq!['\n'] + join_lines(ls.drop_first())
    }
}

/// The character positions before the first `c` are exactly those below `k`.
pub proof fn lemma_prefix_len(t: Seq<char>, c: char, k: nat)
    requires
        k <= t.len(),
        forall|j: int| 0 <= j < k ==> t[j] != c,
        k == t.len() || t[k as int] == c,
    ensures
        prefix_len_before(t, c) == k,
    decreases k,
{
    if k > 0 {
        let d = t.drop_first();
        assert forall|j: int| 0 <= j < k - 1 implies d[j] != c by {
            assert(d[j] == t[j + 1]);
        }
        lemma_prefix_len(d, c, (k - 1) as nat);
    }
}

pub proof fn lemma_prefix_len_bound(t: Seq<char>, c: char)
    ensures
        prefix_len_before(t, c) <= t.len(),
        prefix_len_before(t, c) < t.len() ==> t[prefix_len_before(t, c) as int] == c,
        forall|j: int| 0 <= j < prefix_len_before(t, c) ==> t[j] != c,
    decreases t.len(),
{
    if t.len() > 0 && t[0] != c {
        let d = t.drop_first();
        lemma_prefix_len_bound(d, c);
        assert forall|j: int| 0 <= j < prefix_len_before(t, c) implies t[j] != c by {
            if j > 0 {
                assert(t[j] == d[j - 1]);
            }
        }
    }
}

/// A line with no `\n` in it, followed by `\n` and more text, is the first
/// line of the whole.
pub proof fn lemma_lines_cons(x: Seq<char>, rest: Seq<char>)
    requires
        !x.contains('\n'),
    ensures
        lines(x + seq!['\n'] + rest) == seq![strip_cr(x)] + lines(rest),
{
    let s = x + seq!['\n'] + rest;
    assert forall|j: int| 0 <= j < x.len() implies s[j] != '\n' by {
        assert(s[j] == x[j]);
        if x[j] == '\n' {
            assert(x.contains('\n'));
        }
    }
    lemma_prefix_len(s, '\n', x.len());
    assert(s.take(x.len() as int) =~= x);
    assert(s.skip(x.len() + 1int) =~= rest);
}

/// Text with no `\n` in it is a single line, or no line at all when empty.
pub proof fn lemma_lines_single(x: Seq<char>)
    requires
        !x.contains('\n'),
    ensures
        lines(x) == (if x.len() == 0 {
            Seq::<Seq<char>>::empty()
        } else {
            seq![x]
        }),
{
    if x.len() > 0 {
        assert forall|j: int| 0 <= j < x.len() implies x[j] != '\n' by {
            if x[j] == '\n' {
                assert(x.contains('\n'));
            }
        }
        lemma_prefix_len(x, '\n', x.len());
    }
}

/// No line produced by `lines` contains a `\n`.
pub proof fn lemma_lines_have_no_newline(s: Seq<char>)
    ensures
        forall|i: int| 0 <= i < lines(s).len() ==> !(#[trigger] lines(s)[i]).contains('\n'),
    decreases s.len(),
{
    if s.len() > 0 {
        let k = prefix_len_before(s, '\n');
        lemma_prefix_len_bound(s, '\n');
        if k >= s.len() {
            assert(!s.contains('\n')) by {
                if s.contains('\n') {
                    let j = choose|j: int| 0 <= j < s.len() && s[j] == '\n';
                    assert(s[j] != '\n');
                }
            }
        } else {
            let first = strip_cr(s.take(k as int));
            assert(!first.contains('\n')) by {
                if first.contains('\n') {
                    let j = choose|j: int| 0 <= j < first.len() && first[j] == '\n';
                    assert(s[j] == first[j]);
                }
            }
            lemma_lines_have_no_newline(s.skip(k + 1int));
            let rest = lines(s.skip(k + 1int));
            assert forall|i: int| 0 <= i < lines(s).len() implies !(
            #[trigger] lines(s)[i]).contains('\n') by {
                if i > 0 {
                    assert(lines(s)[i] == rest[i - 1]);
                }
            }
        }
    }
}

/// A `\n` splits the lines of a text into those before it and those after it.
pub proof fn lemma_lines_split(a: Seq<char>, b: Seq<char>)
    ensures
        lines(a + seq!['\n'] + b) == lines(a + seq!['\n']) + lines(b),
    decreases a.len(),
{
    let nl = seq!['\n'];
    if !a.contains('\n') {
        lemma_lines_cons(a, b);
        lemma_lines_cons(a, Seq::<char>::empty());
        assert(a + nl + Seq::<char>::empty() =~= a + nl);
        assert(lines(Seq::<char>::empty()) =~= Seq::<Seq<char>>::empty());
        assert(seq![strip_cr(a)] + Seq::<Seq<char>>::empty() =~= seq![strip_cr(a)]);
    } else {
        let k = prefix_len_before(a, '\n');
        lemma_prefix_len_bound(a, '\n');
        assert(k < a.len()) by {
            if k >= a.len() {
                let j = choose|j: int| 0 <= j < a.len() && a[j] == '\n';
                assert(a[j] != '\n');
            }
        }
        let x = a.take(k as int);
        let a2 = a.skip(k + 1int);
        assert(!x.contains('\n')) by {
            if x.contains('\n') {
                let j = choose|j: int| 0 <= j < x.len() && x[j] == '\n';
                assert(a[j] == x[j]);
            }
        }
        assert(a =~= x + nl + a2);
        assert(a + nl + b =~= x + nl + (a2 + nl + b));
        assert(a + nl =~= x + nl + (a2 + nl));
        lemma_lines_cons(x, a2 + nl + b);
        lemma_lines_cons(x, a2 + nl);
        lemma_lines_split(a2, b);
        assert(seq![strip_cr(x)] + (lines(a2 + nl) + lines(b)) =~= seq![strip_cr(x)] + lines(
            a2 + nl,
        ) + lines(b));
    }
}

/// Lines free of `\n`, each followed by `\n`, read back as themselves
/// (less the `\r` of a `\r\n` ending).
pub proof fn lemma_lines_of_terminated_join(ls: Seq<Seq<char>>)
    requires
        ls.len() > 0,
        forall|i: int| 0 <= i < ls.len() ==> !(#[trigger] ls[i]).contains('\n'),
    ensures
        lines(join_lines(ls) + seq!['\n']) == Seq::new(ls.len(), |i: int| strip_cr(ls[i])),
    decreases ls.len(),
{
    let nl = seq!['\n'];
    if ls.len() == 1 {
        lemma_lines_cons(ls[0], Seq::<char>::empty());
        assert(ls[0] + nl + Seq::<char>::empty() =~= ls[0] + nl);
        assert(lines(Seq::<char>::empty()) =~= Seq::<Seq<char>>::empty());
        assert(seq![strip_cr(ls[0])] + Seq::<Seq<char>>::empty() =~= Seq::new(
            ls.len(),
            |i: int| strip_cr(ls[i]),
        ));
    } else {
        let d = ls.drop_first();
        assert forall|i: int| 0 <= i < d.len() implies !(#[trigger] d[i]).contains('\n') by {
            assert(d[i] == ls[i + 1]);
        }
        lemma_lines_of_terminated_join(d);
        assert(join_lines(ls) + nl =~= ls[0] + nl + (join_lines(d) + nl));
        lemma_lines_cons(ls[0], join_lines(d) + nl);
        assert(seq![strip_cr(ls[0])] + Seq::new(d.len(), |i: int| strip_cr(d[i])) =~= Seq::new(
            ls.len(),
            |i: int| strip_cr(ls[i]),
        ));
    }
}

/// `trim_end(s)` is a prefix of `s` that, unless empty, ends with a
/// character that is not whitespace.
pub proof fn lemma_trim_end_prefix(s: Seq<char>)
    ensures
        trim_end(s).len() <= s.len(),
        trim_end(s) == s.take(trim_end(s).len() as int),
        trim_end(s).len() > 0 ==> !is_ws(trim_end(s).last()),
    decreases s.len(),
{
    if s.len() > 0 && is_ws(s.last()) {
        lemma_trim_end_prefix(s.drop_last());
        let t = trim_end(s);
        assert(s.drop_last().take(t.len() as int) =~= s.take(t.len() as int));
    } else {
        assert(s.take(s.len() as int) =~= s);
    }
}

/// A final `\n` after text that does not already end a line (its last
/// character is neither `\n` nor `\r`) adds no line and changes none.
pub proof fn lemma_lines_final_newline(a: Seq<char>)
    requires
        a.len() > 0,
        a.last() != '\n',
        a.last() != '\r',
    ensures
        lines(a + seq!['\n']) == lines(a),
    decreases a.len(),
{
    let nl = seq!['\n'];
    if !a.contains('\n') {
        lemma_lines_cons(a, Seq::<char>::empty());
        assert(a + nl + Seq::<char>::empty() =~= a + nl);
        assert(lines(Seq::<char>::empty()) =~= Seq::<Seq<char>>::empty());
        lemma_lines_single(a);
        assert(seq![strip_cr(a)] + Seq::<Seq<char>>::empty() =~= seq![a]);
    } else {
        let k = prefix_len_before(a, '\n');
        lemma_prefix_len_bound(a, '\n');
        assert(k < a.len()) by {
            if k >= a.len() {
                let j = choose|j: int| 0 <= j < a.len() && a[j] == '\n';
                assert(a[j] != '\n');
            }
        }
        assert(k < a.len() - 1);
        let x = a.take(k as int);
        let a2 = a.skip(k + 1int);
        assert(!x.contains('\n')) by {
            if x.contains('\n') {
                let j = choose|j: int| 0 <= j < x.len() && x[j] == '\n';
                assert(a[j] == x[j]);
            }
        }
        assert(a =~= x + nl + a2);
        assert(a + nl =~= x + nl + (a2 + nl));
        assert(a2.last() == a.last());
        lemma_lines_cons(x, a2);
        lemma_lines_cons(x, a2 + nl);
        lemma_lines_final_newline(a2);
    }
}

/// The lines read back from lines joined with `\n` (no final newline):
/// each line but the last less the `\r` of a `\r\n` ending, then the last
/// line as it is unless it is empty.
pub proof fn lemma_lines_of_join(r: Seq<Seq<char>>)
    requires
        r.len() > 0,
        forall|i: int| 0 <= i < r.len() ==> !(#[trigger] r[i]).contains('\n'),
    ensures
        lines(join_lines(r)) == Seq::new((r.len() - 1) as nat, |i: int| strip_cr(r[i])) + (if r.last().len()
            == 0 {
            Seq::<Seq<char>>::empty()
        } else {
            seq![r.last()]
        }),
{
    let n = r.len();
    if n == 1 {
        lemma_lines_single(r[0]);
        assert(join_lines(r) == r[0]);
        assert(Seq::new((r.len() - 1) as nat, |i: int| strip_cr(r[i])) =~= Seq::<Seq<char>>::empty());
    } else {
        let init = r.take(n - 1);
        assert(r.take(n as int) =~= r);
        lemma_join_extend(r, n - 1);
        assert forall|j: int| 0 <= j < init.len() implies !(#[trigger] init[j]).contains('\n') by {
            assert(init[j] == r[j]);
        }
        let a = join_lines(init);
        lemma_lines_split(a, r[n - 1]);
        lemma_lines_of_terminated_join(init);
        lemma_lines_single(r[n - 1]);
        assert(Seq::new(init.len(), |i: int| strip_cr(init[i])) =~= Seq::new(
            (r.len() - 1) as nat,
            |i: int| strip_cr(r[i]),
        ));
    }
}

#[verifier::external_body]
/// Appends one character; `String::push`.
fn push_char(s: &mut String, c: char)
    ensures
        final(s)@ == old(s)@.push(c),
{
    s.push(c);
}

/// Whether `c` is Unicode whitespace, as `char::is_whitespace` answers.
pub fn is_whitespace(c: char) -> (b: bool)
    ensures
        b == is_ws(c),
{
    ('\u{9}' <= c && c <= '\u{d}') || c == ' ' || c == '\u{85}' || c == '\u{a0}' || c == '\u{1680}'
        || ('\u{2000}' <= c && c <= '\u{200a}') || c == '\u{2028}' || c == '\u{2029}' || c
        == '\u{202f}' || c == '\u{205f}' || c == '\u{3000}'
}

/// The text of each line held in `v`.
pub open spec fn line_views(v: Seq<Vec<char>>) -> Seq<Seq<char>> {
    Seq::new(v.len(), |i: int| v[i]@)
}

/// The characters of `s`, in order.
pub fn chars_of(s: &str) -> (v: Vec<char>)
    ensures
        v@ == s@,
{
    let mut v: Vec<char> = Vec::new();
    for c in it: s.chars()
        invariant
            v@ == it.seq().take(it.index() as int),
            it.seq() == s@,
    {
        v.push(c);
        assert(v@ =~= it.seq().take(it.index() + 1));
    }
    assert(v@ =~= s@);
    v
}

/// A `String` holding exactly the characters of `v`.
pub fn string_of(v: &Vec<char>) -> (s: String)
    ensures
        s@ == v@,
{
    let mut s = String::new();
    let mut i: usize = 0;
    while i < v.len()
        invariant
            i <= v.len(),
            s@ == v@.take(i as int),
        decreases v.len() - i,
    {
        push_char(&mut s, v[i]);
        i = i + 1;
        assert(s@ =~= v@.take(i as int));
    }
    assert(v@.take(v.len() as int) =~= v@);
    s
}

/// The characters of `v` from position `lo` up to, not including, `hi`.
pub fn sub_chars(v: &Vec<char>, lo: usize, hi: usize) -> (r: Vec<char>)
    requires
        lo <= hi <= v.len(),
    ensures
        r@ == v@.subrange(lo as int, hi as int),
{
    let mut r: Vec<char> = Vec::new();
    let mut i: usize = lo;
    while i < hi
        invariant
            lo <= i <= hi <= v.len(),
            r@ == v@.subrange(lo as int, i as int),
        decreases hi - i,
    {
        r.push(v[i]);
        i = i + 1;
        assert(r@ =~= v@.subrange(lo as int, i as int));
    }
    r
}

/// `a` followed by `b`.
pub fn concat_chars(a: &Vec<char>, b: &Vec<char>) -> (r: Vec<char>)
    ensures
        r@ == a@ + b@,
{
    let mut r = sub_chars(a, 0, a.len());
    let mut i: usize = 0;
    while i < b.len()
        invariant
            i <= b.len(),
            r@ == a@ + b@.take(i as int),
        decreases b.len() - i,
    {
        r.push(b[i]);
        i = i + 1;
        assert(r@ =~= a@ + b@.take(i as int));
    }
    assert(b@.take(b.len() as int) =~= b@);
    assert(a@.subrange(0, a.len() as int) =~= a@);
    r
}

/// Whether `a` and `b` hold the same characters.
pub fn chars_eq(a: &Vec<char>, b: &Vec<char>) -> (r: bool)
    ensures
        r == (a@ == b@),
{
    if a.len() != b.len() {
        return false;
    }
    let mut i: usize = 0;
    while i < a.len()
        invariant
            a.len() == b.len(),
            i <= a.len(),
            forall|j: int| 0 <= j < i ==> a@[j] == b@[j],
        decreases a.len() - i,
    {
        if a[i] != b[i] {
            return false;
        }
        i = i + 1;
    }
    assert(a@ =~= b@);
    true
}

/// Whether `a` and `b` are the same text.
pub fn str_eq(a: &str, b: &str) -> (r: bool)
    ensures
        r == (a@ == b@),
{
    let x = chars_of(a);
    let y = chars_of(b);
    chars_eq(&x, &y)
}

pub fn trim_start_chars(s: &Vec<char>) -> (r: Vec<char>)
    ensures
        r@ == trim_start(s@),
{
    let mut i: usize = 0;
    assert(s@.skip(0) =~= s@);
    while i < s.len() && is_whitespace(s[i])
        invariant
            i <= s.len(),
            trim_start(s@) == trim_start(s@.skip(i as int)),
        decreases s.len() - i,
    {
        assert(s@.skip(i as int).drop_first() =~= s@.skip(i + 1));
        i = i + 1;
    }
    sub_chars(s, i, s.len())
}

pub fn trim_end_chars(s: &Vec<char>) -> (r: Vec<char>)
    ensures
        r@ == trim_end(s@),
{
    let mut j: usize = s.len();
    assert(s@.take(j as int) =~= s@);
    while j > 0 && is_whitespace(s[j - 1])
        invariant
            j <= s.len(),
            trim_end(s@) == trim_end(s@.take(j as int)),
        decreases j,
    {
        assert(s@.take(j as int).drop_last() =~= s@.take(j - 1));
        j = j - 1;
    }
    let r = sub_chars(s, 0, j);
    assert(r@ =~= s@.take(j as int));
    r
}

pub fn trim_chars(s: &Vec<char>) -> (r: Vec<char>)
    ensures
        r@ == trim(s@),
{
    let t = trim_start_chars(s);
    trim_end_chars(&t)
}

pub fn starts_with_chars(s: &Vec<char>, p: &Vec<char>) -> (b: bool)
    ensures
        b == starts_with(s@, p@),
{
    if p.len() > s.len() {
        return false;
    }
    let mut i: usize = 0;
    while i < p.len()
        invariant
            p.len() <= s.len(),
            i <= p.len(),
            forall|j: int| 0 <= j < i ==> s@[j] == p@[j],
        decreases p.len() - i,
    {
        if s[i] != p[i] {
            assert(s@.subrange(0, p.len() as int)[i as int] != p@[i as int]);
            return false;
        }
        i = i + 1;
    }
    assert(s@.subrange(0, p.len() as int) =~= p@);
    true
}

pub fn contains_char(s: &Vec<char>, c: char) -> (b: bool)
    ensures
        b == s@.contains(c),
{
    let mut i: usize = 0;
    while i < s.len()
        invariant
            i <= s.len(),
            forall|j: int| 0 <= j < i ==> s@[j] != c,
        decreases s.len() - i,
    {
        if s[i] == c {
            assert(s@[i as int] == c);
            return true;
        }
        i = i + 1;
    }
    false
}

/// `s` with every leading repetition of `p` removed (`str::trim_start_matches`).
pub fn strip_all_prefix_chars(s: &Vec<char>, p: &Vec<char>) -> (r: Vec<char>)
    ensures
        r@ == strip_all_prefix(s@, p@),
{
    let mut cur = sub_chars(s, 0, s.len());
    assert(cur@ =~= s@);
    if p.len() == 0 {
        return cur;
    }
    while starts_with_chars(&cur, p)
        invariant
            p@.len() > 0,
            strip_all_prefix(s@, p@) == strip_all_prefix(cur@, p@),
        decreases cur@.len(),
    {
        cur = sub_chars(&cur, p.len(), cur.len());
    }
    cur
}

/// The part of `s` before its first `c` (`s.split(c).next()`).
pub fn before_first_chars(s: &Vec<char>, c: char) -> (r: Vec<char>)
    ensures
        r@ == before_first(s@, c),
{
    let mut i: usize = 0;
    while i < s.len() && s[i] != c
        invariant
            i <= s.len(),
            forall|j: int| 0 <= j < i ==> s@[j] != c,
        decreases s.len() - i,
    {
        i = i + 1;
    }
    proof {
        lemma_prefix_len(s@, c, i as nat);
    }
    sub_chars(s, 0, i)
}

/// The lines of `s`, as `str::lines` yields them.
pub fn split_lines(s: &Vec<char>) -> (ls: Vec<Vec<char>>)
    ensures
        line_views(ls@) == lines(s@),
{
    let mut ls: Vec<Vec<char>> = Vec::new();
    let mut start: usize = 0;
    let mut i: usize = 0;
    assert(s@.skip(0) =~= s@);
    assert(line_views(ls@) + lines(s@) =~= lines(s@));
    while i < s.len()
        invariant
            start <= i <= s.len(),
            forall|j: int| start <= j < i ==> s@[j] != '\n',
            lines(s@) == line_views(ls@) + lines(s@.skip(start as int)),
        decreases s.len() - i,
    {
        if s[i] == '\n' {
            let piece = sub_chars(s, start, i);
            let mut line = piece;
            if line.len() > 0 && line[line.len() - 1] == '\r' {
                let cut = sub_chars(&line, 0, line.len() - 1);
                line = cut;
            }
            proof {
                let x = s@.subrange(start as int, i as int);
                let rest = s@.skip(i + 1);
                assert(!x.contains('\n')) by {
                    if x.contains('\n') {
                        let k = choose|k: int| 0 <= k < x.len() && x[k] == '\n';
                        assert(s@[start + k] == '\n');
                    }
                }
                assert(s@.skip(start as int) =~= x + seq!['\n'] + rest);
                lemma_lines_cons(x, rest);
                assert(line@ == strip_cr(x)) by {
                    if x.len() > 0 && x.last() == '\r' {
                        assert(x.drop_last() =~= piece@.subrange(0, piece@.len() - 1));
                    }
                }
            }
            let ghost before = line_views(ls@);
            ls.push(line);
            proof {
                assert(line_views(ls@) =~= before.push(line@));
                assert(lines(s@) =~= line_views(ls@) + lines(s@.skip(i + 1)));
            }
            start = i + 1;
        }
        i = i + 1;
    }
    proof {
        let x = s@.skip(start as int);
        assert(!x.contains('\n')) by {
            if x.contains('\n') {
                let k = choose|k: int| 0 <= k < x.len() && x[k] == '\n';
                assert(s@[start + k] == '\n');
            }
        }
        lemma_lines_single(x);
    }
    if start < s.len() {
        let last = sub_chars(s, start, s.len());
        let ghost before = line_views(ls@);
        ls.push(last);
        proof {
            assert(last@ =~= s@.skip(start as int));
            assert(line_views(ls@) =~= before.push(last@));
            assert(lines(s@) =~= line_views(ls@));
        }
    } else {
        proof {
            assert(lines(s@) =~= line_views(ls@));
        }
    }
    ls
}

/// Joining the first `i + 1` lines extends the join of the first `i`.
pub proof fn lemma_join_extend(ls: Seq<Seq<char>>, i: int)
    requires
        0 < i < ls.len(),
    ensures
        join_lines(ls.take(i + 1)) == join_lines(ls.take(i)) + seq!['\n'] + ls[i],
    decreases i,
{
    if i == 1 {
        let t2 = ls.take(2);
        assert(t2.len() == 2);
        assert(t2[0] == ls[0]);
        assert(t2.drop_first() =~= seq![ls[1]]);
        assert(join_lines(t2.drop_first()) == ls[1]);
        assert(ls.take(1)[0] == ls[0]);
        assert(join_lines(ls.take(1)) == ls[0]);
    } else {
        let d = ls.drop_first();
        lemma_join_extend(d, i - 1);
        assert(ls.take(i + 1).drop_first() =~= d.take(i));
        assert(ls.take(i).drop_first() =~= d.take(i - 1));
        assert(d[i - 1] == ls[i]);
        assert(ls.take(i + 1)[0] == ls[0]);
        assert(ls.take(i)[0] == ls[0]);
        let a = ls[0];
        let nl = seq!['\n'];
        let j = join_lines(d.take(i - 1));
        assert(join_lines(ls.take(i + 1)) == a + nl + join_lines(d.take(i)));
        assert(join_lines(ls.take(i)) == a + nl + j);
        assert(a + nl + (j + nl + ls[i]) =~= a + nl + j + nl + ls[i]);
    }
}

/// The lines of `ls` joined with `\n` (`.join("\n")`).
pub fn join_lines_chars(ls: &Vec<Vec<char>>) -> (r: Vec<char>)
    ensures
        r@ == join_lines(line_views(ls@)),
{
    let ghost d = line_views(ls@);
    let mut r: Vec<char> = Vec::new();
    let mut i: usize = 0;
    while i < ls.len()
        invariant
            i <= ls.len(),
            d == line_views(ls@),
            r@ == join_lines(d.take(i as int)),
        decreases ls.len() - i,
    {
        if i == 0 {
            r = sub_chars(&ls[0], 0, ls[0].len());
            assert(r@ =~= join_lines(d.take(1))) by {
                assert(d.take(1)[0] == d[0]);
            }
        } else {
            let mut nl: Vec<char> = Vec::new();
            nl.push('\n');
            let with_nl = concat_chars(&r, &nl);
            r = concat_chars(&with_nl, &ls[i]);
            proof {
                lemma_join_extend(d, i as int);
                assert(nl@ =~= seq!['\n']);
            }
        }
        i = i + 1;
    }
    assert(d.take(ls.len() as int) =~= d);
    r
}

} // verus!
