//! Character-level helpers for splitting source text: lines, comments,
//! whitespace-separated words and trimming.

use vstd::prelude::*;
use vstd::std_specs::iter::IteratorSpec;

verus! {

/// The characters with the Unicode `White_Space` property, which separate
/// words.
pub open spec fn is_space(c: char) -> bool {
    let u = c as u32;
    (9 <= u && u <= 13) || u == 32 || u == 0x85 || u == 0xa0 || u == 0x1680 || (0x2000 <= u && u
        <= 0x200a) || u == 0x2028 || u == 0x2029 || u == 0x202f || u == 0x205f || u == 0x3000
}

/// `c` occurs in `s`.
pub open spec fn contains(s: Seq<char>, c: char) -> bool {
    exists|i: int| 0 <= i < s.len() && s[i] == c
}

/// The part of `s` before the first `c` (all of `s` when there is none).
pub open spec fn before(s: Seq<char>, c: char) -> Seq<char>
    decreases s.len(),
{
    if s.len() == 0 {
        s
    } else if contains(s.drop_last(), c) {
        before(s.drop_last(), c)
    } else if s.last() == c {
        s.drop_last()
    } else {
        s
    }
}

/// The part of `s` after the first `c` (empty when there is none).
pub open spec fn after(s: Seq<char>, c: char) -> Seq<char>
    decreases s.len(),
{
    if s.len() == 0 {
        s
    } else if contains(s.drop_last(), c) {
        after(s.drop_last(), c).push(s.last())
    } else {
        Seq::empty()
    }
}

/// The pieces of `s` between the occurrences of `sep`: one more than there
/// are separators.
pub open spec fn split_by(s: Seq<char>, sep: char) -> Seq<Seq<char>>
    decreases s.len(),
{
    if s.len() == 0 {
        seq![Seq::empty()]
    } else {
        let prev = split_by(s.drop_last(), sep);
        if s.last() == sep {
            prev.push(Seq::empty())
        } else {
            prev.update(prev.len() - 1, prev.last().push(s.last()))
        }
    }
}

/// The words that are finished, and the one being read, after reading `s`.
pub open spec fn word_state(s: Seq<char>) -> (Seq<Seq<char>>, Seq<char>)
    decreases s.len(),
{
    if s.len() == 0 {
        (Seq::empty(), Seq::empty())
    } else {
        let (done, cur) = word_state(s.drop_last());
        if is_space(s.last()) {
            if cur.len() > 0 {
                (done.push(cur), Seq::empty())
            } else {
                (done, cur)
            }
        } else {
            (done, cur.push(s.last()))
        }
    }
}

/// The maximal runs of non-whitespace characters of `s`, in order.
pub open spec fn words(s: Seq<char>) -> Seq<Seq<char>> {
    let (done, cur) = word_state(s);
    if cur.len() > 0 {
        done.push(cur)
    } else {
        done
    }
}

/// `s` without its trailing whitespace.
pub open spec fn trim_end(s: Seq<char>) -> Seq<char>
    decreases s.len(),
{
    if s.len() > 0 && is_space(s.last()) {
        trim_end(s.drop_last())
    } else {
        s
    }
}

/// `s` without its leading whitespace.
pub open spec fn trim_start(s: Seq<char>) -> Seq<char>
    decreases s.len(),
{
    if s.len() > 0 && is_space(s[0]) {
        trim_start(s.drop_first())
    } else {
        s
    }
}

/// `s` without whitespace at either end.
pub open spec fn trim(s: Seq<char>) -> Seq<char> {
    trim_start(trim_end(s))
}

/// `s` ends with the non-empty `pat`.
pub open spec fn ends_with(s: Seq<char>, pat: Seq<char>) -> bool {
    pat.len() <= s.len() && s.subrange(s.len() - pat.len(), s.len() as int) == pat
}

/// `s` with every trailing repetition of `pat` removed.
pub open spec fn strip_suffix(s: Seq<char>, pat: Seq<char>) -> Seq<char>
    decreases s.len(),
{
    if pat.len() > 0 && ends_with(s, pat) {
        strip_suffix(s.subrange(0, s.len() - pat.len()), pat)
    } else {
        s
    }
}

/// `s` with every leading `c` removed.
pub open spec fn strip_prefix(s: Seq<char>, c: char) -> Seq<char>
    decreases s.len(),
{
    if s.len() > 0 && s[0] == c {
        strip_prefix(s.drop_first(), c)
    } else {
        s
    }
}

/// The characters of a string, in order.
pub fn chars_of(s: &str) -> (r: Vec<char>)
    ensures
        r@ == s@,
{
    broadcast use vstd::string::axiom_spec_iter, vstd::string::next_postcondition;

    let mut it = s.chars();
    let mut r: Vec<char> = Vec::new();
    loop
        invariant
            it.obeys_prophetic_iter_laws(),
            r@ + it.remaining() == s@,
            it.decrease() is Some,
        decreases it.decrease()->0,
    {
        match it.next() {
            Some(c) => {
                r.push(c);
                assert(r@ + it.remaining() =~= s@);
            },
            None => {
                assert(r@ =~= s@);
                return r;
            },
        }
    }
}

/// Copies `s[lo..hi]` into a new vector.
pub fn copy_range(s: &[char], lo: usize, hi: usize) -> (r: Vec<char>)
    requires
        lo <= hi <= s@.len(),
    ensures
        r@ == s@.subrange(lo as int, hi as int),
{
    let mut r: Vec<char> = Vec::new();
    let mut i: usize = lo;
    while i < hi
        invariant
            lo <= i <= hi <= s@.len(),
            r@ == s@.subrange(lo as int, i as int),
        decreases hi - i,
    {
        r.push(s[i]);
        i = i + 1;
        assert(r@ =~= s@.subrange(lo as int, i as int));
    }
    r
}

/// Whether two character sequences are equal.
pub fn same_chars(a: &[char], b: &[char]) -> (r: bool)
    ensures
        r == (a@ == b@),
{
    if a.len() != b.len() {
        return false;
    }
    let mut i: usize = 0;
    while i < a.len()
        invariant
            i <= a@.len(),
            a@.len() == b@.len(),
            forall|k: int| 0 <= k < i ==> a@[k] == b@[k],
        decreases a@.len() - i,
    {
        if a[i] != b[i] {
            return false;
        }
        i = i + 1;
    }
    assert(a@ =~= b@);
    true
}

/// Whether `c` occurs in `s`.
pub fn has_char(s: &[char], c: char) -> (r: bool)
    ensures
        r == contains(s@, c),
{
    let mut i: usize = 0;
    while i < s.len()
        invariant
            i <= s@.len(),
            forall|k: int| 0 <= k < i ==> s@[k] != c,
        decreases s@.len() - i,
    {
        if s[i] == c {
            return true;
        }
        i = i + 1;
    }
    false
}

/// Whether `c` is one of the whitespace characters.
pub fn is_space_char(c: char) -> (r: bool)
    ensures
        r == is_space(c),
{
    let u = c as u32;
    (9 <= u && u <= 13) || u == 32 || u == 0x85 || u == 0xa0 || u == 0x1680 || (0x2000 <= u && u
        <= 0x200a) || u == 0x2028 || u == 0x2029 || u == 0x202f || u == 0x205f || u == 0x3000
}

/// The part of `s` before the first `c`, and the part after it.
pub fn split_once(s: &[char], c: char) -> (r: (Vec<char>, Vec<char>))
    ensures
        r.0@ == before(s@, c),
        r.1@ == after(s@, c),
{
    let mut head: Vec<char> = Vec::new();
    let mut tail: Vec<char> = Vec::new();
    let mut seen = false;
    let mut i: usize = 0;
    while i < s.len()
        invariant
            i <= s@.len(),
            seen == contains(s@.subrange(0, i as int), c),
            head@ == (if seen {
                before(s@.subrange(0, i as int), c)
            } else {
                s@.subrange(0, i as int)
            }),
            tail@ == after(s@.subrange(0, i as int), c),
        decreases s@.len() - i,
    {
        let ghost prev = s@.subrange(0, i as int);
        let ghost next = s@.subrange(0, i + 1);
        assert(next.drop_last() =~= prev);
        assert(next.last() == s@[i as int]);
        if seen {
            tail.push(s[i]);
        } else if s[i] == c {
            seen = true;
            assert(next[i as int] == c);
        } else {
            head.push(s[i]);
            assert(!contains(next, c)) by {
                assert forall|k: int| 0 <= k < next.len() implies next[k] != c by {
                    if k < prev.len() {
                        assert(next[k] == prev[k]);
                    }
                }
            }
            assert(head@ =~= next);
        }
        proof {
            if seen && !contains(prev, c) {
                assert(before(next, c) == prev);
            }
        }
        i = i + 1;
    }
    assert(s@.subrange(0, s@.len() as int) =~= s@);
    if !seen {
        assert(before(s@, c) == s@) by {
            if s@.len() > 0 {
                assert(s@.drop_last().len() < s@.len());
                assert(!contains(s@.drop_last(), c)) by {
                    if contains(s@.drop_last(), c) {
                        let k = choose|k: int| 0 <= k < s@.drop_last().len() && s@.drop_last()[k] == c;
                        assert(s@[k] == c);
                    }
                }
            }
        }
    }
    (head, tail)
}

/// The character sequences held by a vector of vectors.
pub open spec fn views(v: Seq<Vec<char>>) -> Seq<Seq<char>> {
    v.map_values(|x: Vec<char>| x@)
}

/// The whitespace-separated words of `s`.
pub fn split_words(s: &[char]) -> (r: Vec<Vec<char>>)
    ensures
        views(r@) == words(s@),
{
    let mut done: Vec<Vec<char>> = Vec::new();
    let mut cur: Vec<char> = Vec::new();
    let mut i: usize = 0;
    while i < s.len()
        invariant
            i <= s@.len(),
            word_state(s@.subrange(0, i as int)) == (views(done@), cur@),
        decreases s@.len() - i,
    {
        let ghost prev = s@.subrange(0, i as int);
        let ghost next = s@.subrange(0, i + 1);
        assert(next.drop_last() =~= prev);
        assert(next.last() == s@[i as int]);
        if is_space_char(s[i]) {
            if cur.len() > 0 {
                let w = cur;
                cur = Vec::new();
                done.push(w);
                assert(views(done@) =~= word_state(prev).0.push(w@));
            }
        } else {
            cur.push(s[i]);
        }
        i = i + 1;
    }
    assert(s@.subrange(0, s@.len() as int) =~= s@);
    if cur.len() > 0 {
        let w = cur;
        done.push(w);
        assert(views(done@) =~= word_state(s@).0.push(w@));
    }
    done
}

/// The pieces of `s` between the occurrences of `sep`.
pub fn split_pieces(s: &[char], sep: char) -> (r: Vec<Vec<char>>)
    ensures
        views(r@) == split_by(s@, sep),
{
    let mut done: Vec<Vec<char>> = Vec::new();
    let mut cur: Vec<char> = Vec::new();
    let mut i: usize = 0;
    assert(s@.subrange(0, 0) =~= Seq::<char>::empty());
    assert(views(done@).push(cur@) =~= split_by(Seq::<char>::empty(), sep));
    while i < s.len()
        invariant
            i <= s@.len(),
            split_by(s@.subrange(0, i as int), sep) == views(done@).push(cur@),
        decreases s@.len() - i,
    {
        let ghost prev = s@.subrange(0, i as int);
        let ghost next = s@.subrange(0, i + 1);
        assert(next.drop_last() =~= prev);
        assert(next.last() == s@[i as int]);
        if s[i] == sep {
            let w = cur;
            cur = Vec::new();
            done.push(w);
            assert(views(done@).push(cur@) =~= split_by(prev, sep).push(Seq::empty()));
        } else {
            cur.push(s[i]);
            assert(views(done@).push(cur@) =~= split_by(next, sep));
        }
        i = i + 1;
    }
    assert(s@.subrange(0, s@.len() as int) =~= s@);
    let w = cur;
    done.push(w);
    assert(views(done@) =~= split_by(s@, sep));
    done
}

/// `s` without whitespace at either end.
pub fn trim_chars(s: &[char]) -> (r: Vec<char>)
    ensures
        r@ == trim(s@),
{
    let mut hi: usize = s.len();
    assert(s@.subrange(0, hi as int) =~= s@);
    while hi > 0 && is_space_char(s[hi - 1])
        invariant
            hi <= s@.len(),
            trim_end(s@) == trim_end(s@.subrange(0, hi as int)),
        decreases hi,
    {
        assert(s@.subrange(0, hi as int).drop_last() =~= s@.subrange(0, hi - 1));
        hi = hi - 1;
    }
    let ghost t = s@.subrange(0, hi as int);
    assert(trim_end(s@) == t);
    let mut lo: usize = 0;
    assert(t.subrange(0, t.len() as int) =~= t);
    while lo < hi && is_space_char(s[lo])
        invariant
            lo <= hi <= s@.len(),
            t == s@.subrange(0, hi as int),
            trim_start(t) == trim_start(s@.subrange(lo as int, hi as int)),
        decreases hi - lo,
    {
        assert(s@.subrange(lo as int, hi as int).drop_first() =~= s@.subrange(lo + 1, hi as int));
        lo = lo + 1;
    }
    copy_range(s, lo, hi)
}

/// `s` with every trailing repetition of `pat` removed.
pub fn strip_suffix_chars(s: &[char], pat: &[char]) -> (r: Vec<char>)
    requires
        pat@.len() > 0,
    ensures
        r@ == strip_suffix(s@, pat@),
{
    let mut hi: usize = s.len();
    let m = pat.len();
    assert(s@.subrange(0, hi as int) =~= s@);
    loop
        invariant
            hi <= s@.len(),
            m == pat@.len() > 0,
            strip_suffix(s@, pat@) == strip_suffix(s@.subrange(0, hi as int), pat@),
        decreases hi,
    {
        let ghost cur = s@.subrange(0, hi as int);
        if m > hi {
            return copy_range(s, 0, hi);
        }
        let mut k: usize = 0;
        let mut matched = true;
        while k < m
            invariant
                k <= m <= hi <= s@.len(),
                m == pat@.len(),
                matched == (forall|j: int| 0 <= j < k ==> s@[hi - m + j] == pat@[j]),
            decreases m - k,
        {
            if s[hi - m + k] != pat[k] {
                matched = false;
            }
            k = k + 1;
        }
        if matched {
            assert(cur.subrange(hi - m, hi as int) =~= pat@);
            assert(cur.subrange(0, hi - m) =~= s@.subrange(0, hi - m));
            hi = hi - m;
        } else {
            assert(!ends_with(cur, pat@)) by {
                if ends_with(cur, pat@) {
                    assert forall|j: int| 0 <= j < m implies s@[hi - m + j] == pat@[j] by {
                        assert(cur.subrange(hi - m, hi as int)[j] == pat@[j]);
                    }
                }
            }
            return copy_range(s, 0, hi);
        }
    }
}

/// `s` with every leading `c` removed.
pub fn strip_prefix_chars(s: &[char], c: char) -> (r: Vec<char>)
    ensures
        r@ == strip_prefix(s@, c),
{
    let mut lo: usize = 0;
    assert(s@.subrange(0, s@.len() as int) =~= s@);
    while lo < s.len() && s[lo] == c
        invariant
            lo <= s@.len(),
            strip_prefix(s@, c) == strip_prefix(s@.subrange(lo as int, s@.len() as int), c),
        decreases s@.len() - lo,
    {
        assert(s@.subrange(lo as int, s@.len() as int).drop_first() =~= s@.subrange(
            lo + 1,
            s@.len() as int,
        ));
        lo = lo + 1;
    }
    copy_range(s, lo, s.len())
}

/// `s` padded on the right with spaces to at least `n` characters.
pub open spec fn pad_right(s: Seq<char>, n: nat) -> Seq<char> {
    if s.len() >= n {
        s
    } else {
        s + Seq::new((n - s.len()) as nat, |i: int| ' ')
    }
}

/// Whether `s` ends with `pat`.
pub fn ends_with_chars(s: &[char], pat: &[char]) -> (r: bool)
    ensures
        r == ends_with(s@, pat@),
{
    if pat.len() > s.len() {
        return false;
    }
    let len = s.len();
    let off = len - pat.len();
    let mut k: usize = 0;
    while k < pat.len()
        invariant
            k <= pat@.len(),
            len == s@.len(),
            off + pat@.len() == len,
            off + pat@.len() == s@.len(),
            forall|j: int| 0 <= j < k ==> s@[off + j] == pat@[j],
        decreases pat@.len() - k,
    {
        assert(off + k < s@.len());
        if s[off + k] != pat[k] {
            assert(s@.subrange(off as int, s@.len() as int)[k as int] == s@[off + k]);
            return false;
        }
        k = k + 1;
    }
    assert(s@.subrange(off as int, s@.len() as int) =~= pat@);
    true
}

/// Appends `s` to `out`.
pub fn push_all(out: &mut Vec<char>, s: &[char])
    ensures
        final(out)@ == old(out)@ + s@,
{
    let mut i: usize = 0;
    while i < s.len()
        invariant
            i <= s@.len(),
            out@ == old(out)@ + s@.subrange(0, i as int),
        decreases s@.len() - i,
    {
        out.push(s[i]);
        i = i + 1;
        assert(out@ =~= old(out)@ + s@.subrange(0, i as int));
    }
    assert(s@.subrange(0, s@.len() as int) =~= s@);
}

/// Appends `s` padded on the right with spaces to at least `n` characters.
pub fn push_padded(out: &mut Vec<char>, s: &[char], n: usize)
    ensures
        final(out)@ == old(out)@ + pad_right(s@, n as nat),
{
    push_all(out, s);
    let mut k: usize = s.len();
    while k < n
        invariant
            k == s@.len() || (s@.len() < k && k <= n),
            out@ == old(out)@ + s@ + Seq::new((k - s@.len()) as nat, |i: int| ' '),
        decreases n - k,
    {
        out.push(' ');
        k = k + 1;
        assert(out@ =~= old(out)@ + s@ + Seq::new((k - s@.len()) as nat, |i: int| ' '));
    }
    if s.len() >= n {
        assert(Seq::new((k - s@.len()) as nat, |i: int| ' ') =~= Seq::<char>::empty());
        assert(out@ =~= old(out)@ + s@);
    } else {
        assert(out@ =~= old(out)@ + pad_right(s@, n as nat));
    }
}

} // verus!
