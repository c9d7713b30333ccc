//! Character-sequence utilities shared by the search scorer, the
//! configuration store and the shim registry: ASCII case folding,
//! case-insensitive comparison, prefix and substring tests.

use vstd::prelude::*;
use vstd::string::StrSliceExecFns;

verus! {

/// ASCII case folding of a single character: code points 65..=90
/// (`'A'..='Z'`) map to their lowercase counterparts 32 higher, every other
/// character is unchanged.
pub open spec fn lower_char(c: char) -> char {
    if 65 <= c as u32 && c as u32 <= 90 {
        (((c as u32) + 32) as u8) as char
    } else {
        c
    }
}

/// ASCII case folding of a whole character sequence.
pub open spec fn lower(s: Seq<char>) -> Seq<char> {
    Seq::new(s.len(), |i: int| lower_char(s[i]))
}

/// `p` is a prefix of `s`.
pub open spec fn is_prefix_of(p: Seq<char>, s: Seq<char>) -> bool {
    p.len() <= s.len() && s.subrange(0, p.len() as int) == p
}

/// `needle` occurs somewhere inside `hay` as a contiguous subsequence.
pub open spec fn contains_seq(hay: Seq<char>, needle: Seq<char>) -> bool {
    exists|i: int|
        0 <= i && i + needle.len() <= hay.len() && #[trigger] hay.subrange(
            i,
            i + needle.len(),
        ) == needle
}

/// Executable twin of `lower_char`.
pub fn lower_char_x(c: char) -> (r: char)
    ensures
        r == lower_char(c),
{
    let u = c as u32;
    if 65 <= u && u <= 90 {
        ((u + 32) as u8) as char
    } else {
        c
    }
}

/// Collect the characters of a string slice into a vector, so that the
/// callers can index them freely.
pub fn chars_of(s: &str) -> (v: Vec<char>)
    ensures
        v@ == s@,
{
    let n = s.unicode_len();
    let mut v: Vec<char> = Vec::new();
    let mut i: usize = 0;
    while i < n
        invariant
            n == s@.len(),
            i <= n,
            v@ == s@.take(i as int),
        decreases n - i,
    {
        v.push(s.get_char(i));
        i += 1;
        proof {
            assert(v@ =~= s@.take(i as int));
        }
    }
    proof {
        assert(v@ =~= s@);
    }
    v
}

/// Equality of two strings, by characters.
pub fn str_eq(a: &str, b: &str) -> (r: bool)
    ensures
        r == (a@ == b@),
{
    let av = chars_of(a);
    let bv = chars_of(b);
    if av.len() != bv.len() {
        return false;
    }
    let n = av.len();
    let mut i: usize = 0;
    while i < n
        invariant
            n == av.len() == bv.len(),
            av@ == a@,
            bv@ == b@,
            i <= n,
            forall|j: int| 0 <= j < i ==> a@[j] == b@[j],
        decreases n - i,
    {
        if av[i] != bv[i] {
            return false;
        }
        i += 1;
    }
    proof {
        assert(a@ =~= b@);
    }
    true
}

/// Case-insensitive equality: the two strings fold to the same characters.
pub fn eq_ci(a: &str, b: &str) -> (r: bool)
    ensures
        r == (lower(a@) == lower(b@)),
{
    let av = chars_of(a);
    let bv = chars_of(b);
    if av.len() != bv.len() {
        assert(lower(a@).len() != lower(b@).len());
        return false;
    }
    let n = av.len();
    let mut i: usize = 0;
    while i < n
        invariant
            n == av.len() == bv.len(),
            av@ == a@,
            bv@ == b@,
            i <= n,
            forall|j: int| 0 <= j < i ==> lower_char(a@[j]) == lower_char(b@[j]),
        decreases n - i,
    {
        if lower_char_x(av[i]) != lower_char_x(bv[i]) {
            assert(lower(a@)[i as int] != lower(b@)[i as int]);
            return false;
        }
        i += 1;
    }
    proof {
        assert(lower(a@) =~= lower(b@));
    }
    true
}

/// `p` is a prefix of `s`, up to ASCII case.
pub fn starts_with_ci(s: &str, p: &str) -> (r: bool)
    ensures
        r == is_prefix_of(lower(p@), lower(s@)),
{
    let sv = chars_of(s);
    let pv = chars_of(p);
    if pv.len() > sv.len() {
        return false;
    }
    let n = pv.len();
    let mut i: usize = 0;
    while i < n
        invariant
            n == pv.len() <= sv.len(),
            sv@ == s@,
            pv@ == p@,
            i <= n,
            forall|j: int| 0 <= j < i ==> lower_char(s@[j]) == lower_char(p@[j]),
        decreases n - i,
    {
        if lower_char_x(sv[i]) != lower_char_x(pv[i]) {
            assert(lower(s@).subrange(0, lower(p@).len() as int)[i as int] != lower(
                p@,
            )[i as int]);
            return false;
        }
        i += 1;
    }
    proof {
        assert(lower(s@).subrange(0, lower(p@).len() as int) =~= lower(p@));
    }
    true
}

/// `p` is a prefix of `s`, case-sensitively.
pub fn starts_with_plain(s: &str, p: &str) -> (r: bool)
    ensures
        r == is_prefix_of(p@, s@),
{
    let sv = chars_of(s);
    let pv = chars_of(p);
    if pv.len() > sv.len() {
        return false;
    }
    let n = pv.len();
    let mut i: usize = 0;
    while i < n
        invariant
            n == pv.len() <= sv.len(),
            sv@ == s@,
            pv@ == p@,
            i <= n,
            forall|j: int| 0 <= j < i ==> s@[j] == p@[j],
        decreases n - i,
    {
        if sv[i] != pv[i] {
            assert(s@.subrange(0, p@.len() as int)[i as int] != p@[i as int]);
            return false;
        }
        i += 1;
    }
    proof {
        assert(s@.subrange(0, p@.len() as int) =~= p@);
    }
    true
}

/// Whether `hay` matches `needle` at offset `at`, after case folding.
spec fn matches_at(hay: Seq<char>, needle: Seq<char>, at: int) -> bool {
    0 <= at && at + needle.len() <= hay.len() && lower(hay).subrange(
        at,
        at + needle.len(),
    ) == lower(needle)
}

/// `needle` occurs inside `hay`, up to ASCII case.
pub fn contains_ci(hay: &str, needle: &str) -> (r: bool)
    ensures
        r == contains_seq(lower(hay@), lower(needle@)),
{
    let hv = chars_of(hay);
    let nv = chars_of(needle);
    if nv.len() > hv.len() {
        return false;
    }
    let last = hv.len() - nv.len();
    let mut start: usize = 0;
    while start <= last
        invariant
            hv@ == hay@,
            nv@ == needle@,
            nv.len() <= hv.len(),
            last == hv.len() - nv.len(),
            start <= last + 1,
            forall|j: int| 0 <= j < start ==> !matches_at(hay@, needle@, j),
        decreases last + 1 - start,
    {
        let mut i: usize = 0;
        let n = nv.len();
        let mut hit = true;
        while i < n
            invariant
                hv@ == hay@,
                nv@ == needle@,
                n == nv.len(),
                start + n <= hv.len(),
                i <= n,
                hit == forall|j: int|
                    0 <= j < i ==> lower_char(hay@[start + j]) == lower_char(needle@[j]),
            decreases n - i,
        {
            if lower_char_x(hv[start + i]) != lower_char_x(nv[i]) {
                hit = false;
                assert(lower_char(hay@[start + i]) != lower_char(needle@[i as int]));
                i = n;
            } else {
                i += 1;
            }
        }
        if hit {
            proof {
                assert(lower(hay@).subrange(start as int, start + needle@.len()) =~= lower(
                    needle@,
                ));
            }
            return true;
        }
        proof {
            if matches_at(hay@, needle@, start as int) {
                let bad = choose|j: int|
                    0 <= j < n && lower_char(hay@[start + j]) != lower_char(needle@[j]);
                assert(lower(hay@).subrange(start as int, start + needle@.len())[bad] == lower(
                    needle@,
                )[bad]);
                assert(false);
            }
        }
        start += 1;
    }
    proof {
        assert forall|j: int|
            0 <= j && j + lower(needle@).len() <= lower(hay@).len() implies !(#[trigger] lower(
            hay@,
        ).subrange(j, j + lower(needle@).len()) == lower(needle@)) by {
            assert(!matches_at(hay@, needle@, j));
        }
    }
    false
}

/// The ASCII whitespace characters trimmed from the ends of values.
pub open spec fn is_space(c: char) -> bool {
    c == ' ' || c == '\t' || c == '\r' || c == '\n'
}

/// The sequence with leading and trailing ASCII whitespace removed.
pub open spec fn trim_spec(s: Seq<char>) -> Seq<char>
    decreases s.len(),
{
    if s.len() > 0 && is_space(s.first()) {
        trim_spec(s.drop_first())
    } else if s.len() > 0 && is_space(s.last()) {
        trim_spec(s.drop_last())
    } else {
        s
    }
}

/// Executable twin of `is_space`.
pub fn is_space_x(c: char) -> (r: bool)
    ensures
        r == is_space(c),
{
    c == ' ' || c == '\t' || c == '\r' || c == '\n'
}

/// Strip leading and trailing ASCII whitespace.
pub fn trim(s: &str) -> (r: String)
    ensures
        r@ == trim_spec(s@),
{
    let v = chars_of(s);
    let n = v.len();
    let mut a: usize = 0;
    proof {
        assert(s@.subrange(0, n as int) =~= s@);
    }
    while a < n && is_space_x(v[a])
        invariant
            v@ == s@,
            n == v.len(),
            a <= n,
            trim_spec(s@) == trim_spec(s@.subrange(a as int, n as int)),
        decreases n - a,
    {
        proof {
            assert(s@.subrange(a as int, n as int).first() == s@[a as int]);
            assert(s@.subrange(a as int, n as int).drop_first() =~= s@.subrange(
                a + 1,
                n as int,
            ));
        }
        a += 1;
    }
    let mut b: usize = n;
    while b > a && is_space_x(v[b - 1])
        invariant
            v@ == s@,
            n == v.len(),
            a <= b <= n,
            trim_spec(s@) == trim_spec(s@.subrange(a as int, b as int)),
            a < n ==> !is_space(s@[a as int]),
        decreases b,
    {
        proof {
            let piece = s@.subrange(a as int, b as int);
            assert(piece.last() == s@[b - 1]);
            assert(piece.first() == s@[a as int]);
            assert(piece.drop_last() =~= s@.subrange(a as int, b - 1));
        }
        b -= 1;
    }
    proof {
        let piece = s@.subrange(a as int, b as int);
        if piece.len() > 0 {
            assert(piece.first() == s@[a as int]);
            assert(piece.last() == s@[b - 1]);
            assert(!is_space(piece.first()));
            assert(!is_space(piece.last()));
        }
        assert(trim_spec(piece) == piece);
    }
    s.substring_char(a, b).to_owned()
}

/// Split at every comma; empty pieces are kept, so the result always holds
/// at least one piece.
pub open spec fn split_commas(s: Seq<char>) -> Seq<Seq<char>>
    decreases s.len(),
{
    if s.len() == 0 {
        seq![Seq::<char>::empty()]
    } else if s.last() == ',' {
        split_commas(s.drop_last()).push(Seq::<char>::empty())
    } else {
        let prev = split_commas(s.drop_last());
        prev.update(prev.len() - 1, prev.last().push(s.last()))
    }
}

/// A split always yields at least one piece.
pub proof fn lemma_split_commas_len(s: Seq<char>)
    ensures
        split_commas(s).len() >= 1,
    decreases s.len(),
{
    if s.len() > 0 {
        lemma_split_commas_len(s.drop_last());
    }
}

/// Every piece, trimmed.
pub open spec fn trim_all(parts: Seq<Seq<char>>) -> Seq<Seq<char>> {
    Seq::new(parts.len(), |i: int| trim_spec(parts[i]))
}

proof fn lemma_trim_all_snoc(done0: Seq<Seq<char>>, raw: Seq<char>, dv0: Seq<Seq<char>>, pv: Seq<char>)
    requires
        dv0 == trim_all(done0),
        pv == trim_spec(raw),
    ensures
        dv0 + seq![pv] == trim_all(done0 + seq![raw]),
{
    assert(trim_all(done0).len() == done0.len());
    assert(trim_all(done0 + seq![raw]).len() == done0.len() + 1);
    assert forall|k: int|
        0 <= k < done0.len() + 1 implies (dv0 + seq![pv])[k] == trim_all(
        done0 + seq![raw],
    )[k] by {
        if k < done0.len() {
            assert(trim_all(done0)[k] == trim_spec(done0[k]));
            assert((done0 + seq![raw])[k] == done0[k]);
            assert(trim_all(done0 + seq![raw])[k] == trim_spec(done0[k]));
        } else {
            assert((done0 + seq![raw])[k] == raw);
            assert(trim_all(done0 + seq![raw])[k] == trim_spec(raw));
        }
    }
    assert(dv0 + seq![pv] =~~= trim_all(done0 + seq![raw]));
}

/// Split at every comma and strip each piece of surrounding ASCII
/// whitespace.
pub fn split_and_trim(s: &str) -> (r: Vec<String>)
    ensures
        r.deep_view() == trim_all(split_commas(s@)),
{
    let v = chars_of(s);
    let n = v.len();
    let mut out: Vec<String> = Vec::new();
    let ghost mut done: Seq<Seq<char>> = Seq::empty();
    let mut start: usize = 0;
    let mut i: usize = 0;
    proof {
        assert(split_commas(s@.take(0)) =~~= done + seq![s@.subrange(0, 0)]);
    }
    while i < n
        invariant
            v@ == s@,
            n == v.len(),
            start <= i <= n,
            split_commas(s@.take(i as int)) == done + seq![
                s@.subrange(start as int, i as int),
            ],
            out.deep_view() == trim_all(done),
        decreases n - i,
    {
        proof {
            assert(s@.take(i + 1).drop_last() =~= s@.take(i as int));
            assert(s@.take(i + 1).last() == s@[i as int]);
            lemma_split_commas_len(s@.take(i as int));
        }
        if v[i] == ',' {
            let piece = trim(s.substring_char(start, i));
            let ghost dv0 = out.deep_view();
            let ghost piecev = piece@;
            out.push(piece);
            proof {
                assert(out.deep_view() =~~= dv0 + seq![piecev]);
                lemma_trim_all_snoc(done, s@.subrange(start as int, i as int), dv0, piecev);
                done = done + seq![s@.subrange(start as int, i as int)];
                assert(split_commas(s@.take(i + 1)) =~~= done + seq![s@.subrange(i + 1, i + 1)]);
                assert(out.deep_view() == trim_all(done));
            }
            start = i + 1;
        } else {
            proof {
                let prev = split_commas(s@.take(i as int));
                assert(prev.last() == s@.subrange(start as int, i as int));
                assert(prev.update(prev.len() - 1, prev.last().push(s@[i as int])) =~= done + seq![
                    s@.subrange(start as int, i + 1),
                ]) by {
                    assert(s@.subrange(start as int, i as int).push(s@[i as int]) =~= s@.subrange(
                        start as int,
                        i + 1,
                    ));
                }
            }
        }
        i += 1;
    }
    let piece = trim(s.substring_char(start, n));
    let ghost dv0 = out.deep_view();
    let ghost piecev = piece@;
    out.push(piece);
    proof {
        assert(s@.take(n as int) =~= s@);
        assert(out.deep_view() =~~= dv0 + seq![piecev]);
        lemma_trim_all_snoc(done, s@.subrange(start as int, n as int), dv0, piecev);
        assert(out.deep_view() == trim_all(done + seq![s@.subrange(start as int, n as int)]));
    }
    out
}

/// Split at every newline, keeping empty pieces, so the result always holds
/// at least one piece.
pub open spec fn split_newlines(s: Seq<char>) -> Seq<Seq<char>>
    decreases s.len(),
{
    if s.len() == 0 {
        seq![Seq::<char>::empty()]
    } else if s.last() == '\n' {
        split_newlines(s.drop_last()).push(Seq::<char>::empty())
    } else {
        let prev = split_newlines(s.drop_last());
        prev.update(prev.len() - 1, prev.last().push(s.last()))
    }
}

proof fn lemma_split_newlines_len(s: Seq<char>)
    ensures
        split_newlines(s).len() >= 1,
    decreases s.len(),
{
    if s.len() > 0 {
        lemma_split_newlines_len(s.drop_last());
    }
}

/// A line with one trailing carriage return removed.
pub open spec fn strip_cr(l: Seq<char>) -> Seq<char> {
    if l.len() > 0 && l.last() == '\r' {
        l.drop_last()
    } else {
        l
    }
}

/// Every piece, stripped of one trailing carriage return.
pub open spec fn strip_cr_all(parts: Seq<Seq<char>>) -> Seq<Seq<char>> {
    Seq::new(parts.len(), |i: int| strip_cr(parts[i]))
}

/// The lines of a text: pieces between newlines, each stripped of one
/// trailing carriage return; a trailing newline opens no further line, and
/// an empty text has none.
pub open spec fn lines_of(s: Seq<char>) -> Seq<Seq<char>> {
    if s.len() == 0 {
        Seq::<Seq<char>>::empty()
    } else if s.last() == '\n' {
        strip_cr_all(split_newlines(s).drop_last())
    } else {
        strip_cr_all(split_newlines(s))
    }
}

proof fn lemma_strip_cr_all_snoc(done0: Seq<Seq<char>>, raw: Seq<char>, dv0: Seq<Seq<char>>, pv: Seq<char>)
    requires
        dv0 == strip_cr_all(done0),
        pv == strip_cr(raw),
    ensures
        dv0 + seq![pv] == strip_cr_all(done0 + seq![raw]),
{
    assert(strip_cr_all(done0).len() == done0.len());
    assert(strip_cr_all(done0 + seq![raw]).len() == done0.len() + 1);
    assert forall|k: int|
        0 <= k < done0.len() + 1 implies (dv0 + seq![pv])[k] == strip_cr_all(
        done0 + seq![raw],
    )[k] by {
        if k < done0.len() {
            assert(strip_cr_all(done0)[k] == strip_cr(done0[k]));
            assert((done0 + seq![raw])[k] == done0[k]);
            assert(strip_cr_all(done0 + seq![raw])[k] == strip_cr(done0[k]));
        } else {
            assert((done0 + seq![raw])[k] == raw);
            assert(strip_cr_all(done0 + seq![raw])[k] == strip_cr(raw));
        }
    }
    assert(dv0 + seq![pv] =~~= strip_cr_all(done0 + seq![raw]));
}

/// Split a text into its lines.
pub fn split_lines(s: &str) -> (r: Vec<String>)
    ensures
        r.deep_view() == lines_of(s@),
{
    let v = chars_of(s);
    let n = v.len();
    let mut out: Vec<String> = Vec::new();
    let ghost mut done: Seq<Seq<char>> = Seq::empty();
    let mut start: usize = 0;
    let mut i: usize = 0;
    proof {
        assert(split_newlines(s@.take(0)) =~~= done + seq![s@.subrange(0, 0)]);
    }
    while i < n
        invariant
            v@ == s@,
            n == v.len(),
            start <= i <= n,
            split_newlines(s@.take(i as int)) == done + seq![
                s@.subrange(start as int, i as int),
            ],
            out.deep_view() == strip_cr_all(done),
            start > 0 ==> s@[start - 1] == '\n',
            forall|j: int| start <= j < i ==> s@[j] != '\n',
        decreases n - i,
    {
        proof {
            assert(s@.take(i + 1).drop_last() =~= s@.take(i as int));
            assert(s@.take(i + 1).last() == s@[i as int]);
            lemma_split_newlines_len(s@.take(i as int));
        }
        if v[i] == '\n' {
            let piece = if i > start && v[i - 1] == '\r' {
                s.substring_char(start, i - 1)
            } else {
                s.substring_char(start, i)
            };
            let piece = piece.to_owned();
            proof {
                if i > start && s@[i - 1] == '\r' {
                    assert(s@.subrange(start as int, i as int).last() == s@[i - 1]);
                    assert(s@.subrange(start as int, i as int).drop_last() =~= s@.subrange(
                        start as int,
                        i - 1,
                    ));
                }
                assert(piece@ == strip_cr(s@.subrange(start as int, i as int)));
            }
            let ghost dv0 = out.deep_view();
            let ghost piecev = piece@;
            out.push(piece);
            proof {
                assert(out.deep_view() =~~= dv0 + seq![piecev]);
                lemma_strip_cr_all_snoc(done, s@.subrange(start as int, i as int), dv0, piecev);
                done = done + seq![s@.subrange(start as int, i as int)];
                assert(split_newlines(s@.take(i + 1)) =~~= done + seq![
                    s@.subrange(i + 1, i + 1),
                ]);
                assert(out.deep_view() == strip_cr_all(done));
            }
            start = i + 1;
        } else {
            proof {
                let prev = split_newlines(s@.take(i as int));
                assert(prev.last() == s@.subrange(start as int, i as int));
                assert(prev.update(prev.len() - 1, prev.last().push(s@[i as int])) =~= done + seq![
                    s@.subrange(start as int, i + 1),
                ]) by {
                    assert(s@.subrange(start as int, i as int).push(s@[i as int]) =~= s@.subrange(
                        start as int,
                        i + 1,
                    ));
                }
            }
        }
        i += 1;
    }
    proof {
        assert(s@.take(n as int) =~= s@);
    }
    if n == 0 {
        proof {
            assert(out.deep_view() =~~= lines_of(s@));
        }
        return out;
    }
    if start == n {
        // the text ends with a newline: no further line opens
        proof {
            assert(s@[n - 1] == '\n');
            assert(s@.last() == '\n');
            assert(split_newlines(s@).drop_last() =~= done);
            assert(out.deep_view() =~~= lines_of(s@));
        }
        return out;
    }
    let piece = if v[n - 1] == '\r' {
        s.substring_char(start, n - 1)
    } else {
        s.substring_char(start, n)
    };
    let piece = piece.to_owned();
    proof {
        if s@[n - 1] == '\r' {
            assert(s@.subrange(start as int, n as int).last() == s@[n - 1]);
            assert(s@.subrange(start as int, n as int).drop_last() =~= s@.subrange(
                start as int,
                n - 1,
            ));
        }
        assert(piece@ == strip_cr(s@.subrange(start as int, n as int)));
    }
    let ghost dv0 = out.deep_view();
    let ghost piecev = piece@;
    out.push(piece);
    proof {
        assert(s@.last() != '\n');
        assert(out.deep_view() =~~= dv0 + seq![piecev]);
        lemma_strip_cr_all_snoc(done, s@.subrange(start as int, n as int), dv0, piecev);
        assert(out.deep_view() =~~= lines_of(s@));
    }
    out
}

/// The smallest offset at or after `from` where `pat` matches inside `s`,
/// or -1 when there is none.
pub open spec fn first_match_from(s: Seq<char>, pat: Seq<char>, from: int) -> int
    decreases s.len() - from,
{
    if from < 0 || from + pat.len() > s.len() {
        -1
    } else if pat.len() == 0 {
        from
    } else if s.subrange(from, from + pat.len() as int) == pat {
        from
    } else {
        first_match_from(s, pat, from + 1)
    }
}

/// The smallest offset where `pat` matches inside `s`, or -1 when none.
pub open spec fn first_match(s: Seq<char>, pat: Seq<char>) -> int {
    first_match_from(s, pat, 0)
}

/// Find the first occurrence of `pat` inside `s`.
pub fn find_first(s: &str, pat: &str) -> (r: Option<usize>)
    ensures
        match r {
            Some(i) => first_match(s@, pat@) == i as int,
            None => first_match(s@, pat@) == -1,
        },
{
    let sv = chars_of(s);
    let pv = chars_of(pat);
    if pv.len() > sv.len() {
        proof {
            assert(first_match_from(s@, pat@, 0) == -1);
        }
        return None;
    }
    let last = sv.len() - pv.len();
    let mut at: usize = 0;
    proof {
        assert(first_match(s@, pat@) == first_match_from(s@, pat@, 0));
    }
    while at <= last
        invariant
            sv@ == s@,
            pv@ == pat@,
            pv.len() <= sv.len(),
            last == sv.len() - pv.len(),
            at <= last + 1,
            first_match(s@, pat@) == first_match_from(s@, pat@, at as int),
        decreases last + 1 - at,
    {
        let mut k: usize = 0;
        let m = pv.len();
        let mut hit = true;
        while k < m
            invariant
                sv@ == s@,
                pv@ == pat@,
                m == pv.len(),
                at + m <= sv.len(),
                k <= m,
                hit == forall|j: int| 0 <= j < k ==> s@[at + j] == pat@[j],
            decreases m - k,
        {
            if sv[at + k] != pv[k] {
                hit = false;
                assert(s@[at + k] != pat@[k as int]);
                k = m;
            } else {
                k += 1;
            }
        }
        if hit {
            proof {
                assert(s@.subrange(at as int, at + pat@.len()) =~= pat@);
            }
            return Some(at);
        }
        proof {
            if s@.subrange(at as int, at + pat@.len()) == pat@ {
                let bad = choose|j: int| 0 <= j < m && s@[at + j] != pat@[j];
                assert(s@.subrange(at as int, at + pat@.len())[bad] == pat@[bad]);
                assert(false);
            }
        }
        at += 1;
    }
    proof {
        assert(first_match_from(s@, pat@, at as int) == -1);
    }
    None
}

/// The pieces joined with a comma between each adjacent pair.
pub open spec fn join_commas(parts: Seq<Seq<char>>) -> Seq<char>
    decreases parts.len(),
{
    if parts.len() == 0 {
        Seq::<char>::empty()
    } else if parts.len() == 1 {
        parts.first()
    } else {
        join_commas(parts.drop_last()) + seq![','] + parts.last()
    }
}

/// Join the strings with a comma between each adjacent pair.
pub fn join_with_commas(parts: &Vec<String>) -> (r: String)
    ensures
        r@ == join_commas(parts.deep_view()),
{
    let n = parts.len();
    let mut r = String::new();
    if n == 0 {
        proof {
            assert(parts.deep_view().len() == 0);
        }
        return r;
    }
    r.append(parts[0].as_str());
    let mut i: usize = 1;
    proof {
        assert(parts.deep_view().take(1).len() == 1);
        assert(parts.deep_view().take(1).first() == parts.deep_view()[0]);
        assert(r@ == join_commas(parts.deep_view().take(1)));
    }
    while i < n
        invariant
            n == parts@.len(),
            1 <= i <= n,
            r@ == join_commas(parts.deep_view().take(i as int)),
        decreases n - i,
    {
        r.append(",");
        r.append(parts[i].as_str());
        proof {
            let d = parts.deep_view();
            assert(d.take(i + 1).drop_last() =~= d.take(i as int));
            assert(d.take(i + 1).last() == d[i as int]);
            assert(d[i as int] == parts@[i as int]@);
            reveal_strlit(",");
            assert(","@ =~= seq![',']);
            assert(r@ =~= join_commas(d.take(i as int)) + seq![','] + d[i as int]);
        }
        i += 1;
    }
    proof {
        assert(parts.deep_view().take(n as int) =~= parts.deep_view());
    }
    r
}

/// The text of a boolean: `true` or `false`.
pub open spec fn bool_seq(b: bool) -> Seq<char> {
    if b {
        "true"@
    } else {
        "false"@
    }
}

/// Render a boolean as `true` or `false`.
pub fn bool_string(b: bool) -> (r: String)
    ensures
        r@ == bool_seq(b),
{
    if b {
        "true".to_owned()
    } else {
        "false".to_owned()
    }
}

/// Parse `true` or `false`, exactly; anything else is no boolean.
pub fn parse_bool(s: &str) -> (r: Option<bool>)
    ensures
        r == (if s@ == "true"@ {
            Some(true)
        } else if s@ == "false"@ {
            Some(false)
        } else {
            None::<bool>
        }),
{
    if str_eq(s, "true") {
        Some(true)
    } else if str_eq(s, "false") {
        Some(false)
    } else {
        None
    }
}

/// Whether a character occurs in a string.
pub fn contains_char(s: &str, c: char) -> (r: bool)
    ensures
        r == s@.contains(c),
{
    let sv = chars_of(s);
    let n = sv.len();
    let mut i: usize = 0;
    while i < n
        invariant
            sv@ == s@,
            n == sv.len(),
            i <= n,
            forall|j: int| 0 <= j < i ==> s@[j] != c,
        decreases n - i,
    {
        if sv[i] == c {
            return true;
        }
        i += 1;
    }
    false
}

} // verus!


