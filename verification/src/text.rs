//! Character-level helpers shared by the path, naming and command modules.
//!
//! Strings are modelled by their sequence of characters (`Seq<char>`).

use vstd::prelude::*;

verus! {

/// `String::push` of the standard library: the string afterwards is the
/// string before with `c` appended as its last character.
pub assume_specification[ String::push ](s: &mut String, c: char)
    ensures
        final(s)@ == old(s)@.push(c),
;

/// The characters of a string slice, in order.
pub fn chars_of(s: &str) -> (v: Vec<char>)
    ensures
        v@ == s@,
{
    let mut v: Vec<char> = Vec::new();
    for c in it: s.chars()
        invariant
            it.seq() == s@,
            v@ == s@.subrange(0, it.index() as int),
    {
        v.push(c);
    }
    assert(v@ =~= s@);
    v
}

/// The string made of the characters `v[from..to]`.
pub fn string_of_range(v: &Vec<char>, from: usize, to: usize) -> (s: String)
    requires
        from <= to <= v.len(),
    ensures
        s@ == v@.subrange(from as int, to as int),
{
    let mut s = String::new();
    let mut i: usize = from;
    while i < to
        invariant
            from <= i <= to <= v.len(),
            s@ == v@.subrange(from as int, i as int),
        decreases to - i,
    {
        s.push(v[i]);
        assert(v@.subrange(from as int, i as int).push(v@[i as int]) =~= v@.subrange(
            from as int,
            i + 1,
        ));
        i += 1;
    }
    s
}

/// The string made of the characters of `v`.
pub fn string_of(v: &Vec<char>) -> (s: String)
    ensures
        s@ == v@,
{
    let s = string_of_range(v, 0, v.len());
    assert(v@.subrange(0, v.len() as int) =~= v@);
    s
}

/// Whether `v[from..to]` holds exactly the characters of `w`.
pub fn range_eq(v: &Vec<char>, from: usize, to: usize, w: &Vec<char>) -> (r: bool)
    requires
        from <= to <= v.len(),
    ensures
        r == (v@.subrange(from as int, to as int) == w@),
{
    if to - from != w.len() {
        return false;
    }
    let mut i: usize = 0;
    while i < w.len()
        invariant
            from <= to <= v.len(),
            to - from == w.len(),
            i <= w.len(),
            forall|k: int| 0 <= k < i ==> v@[from + k] == w@[k],
        decreases w.len() - i,
    {
        if v[from + i] != w[i] {
            assert(v@.subrange(from as int, to as int)[i as int] != w@[i as int]);
            return false;
        }
        i += 1;
    }
    assert(v@.subrange(from as int, to as int) =~= w@);
    true
}

/// Whether two string slices hold the same characters.
pub fn str_eq(a: &str, b: &str) -> (r: bool)
    ensures
        r == (a@ == b@),
{
    let left = chars_of(a);
    let right = chars_of(b);
    assert(left@.subrange(0, left.len() as int) =~= left@);
    range_eq(&left, 0, left.len(), &right)
}

/// The index of the first `sep` in `s`, or `s.len()` where `s` holds none.
pub open spec fn first_index(s: Seq<char>, sep: char) -> int
    decreases s.len(),
{
    if s.len() == 0 || s[0] == sep {
        0
    } else {
        1 + first_index(s.drop_first(), sep)
    }
}

/// The pieces of `s` between the occurrences of `sep`: one more piece than
/// there are separators, empty pieces included.
pub open spec fn split(s: Seq<char>, sep: char) -> Seq<Seq<char>>
    decreases s.len(),
{
    let i = first_index(s, sep);
    if 0 <= i < s.len() {
        seq![s.subrange(0, i)] + split(s.subrange(i + 1, s.len() as int), sep)
    } else {
        seq![s]
    }
}

/// The pieces joined again, with `sep` between neighbours.
pub open spec fn join(parts: Seq<Seq<char>>, sep: char) -> Seq<char>
    decreases parts.len(),
{
    if parts.len() == 0 {
        Seq::empty()
    } else if parts.len() == 1 {
        parts[0]
    } else {
        parts[0] + seq![sep] + join(parts.drop_first(), sep)
    }
}

/// `first_index` is the position of the first separator.
pub proof fn lemma_first_index(s: Seq<char>, sep: char)
    ensures
        0 <= first_index(s, sep) <= s.len(),
        forall|k: int| 0 <= k < first_index(s, sep) ==> s[k] != sep,
        first_index(s, sep) < s.len() ==> s[first_index(s, sep)] == sep,
    decreases s.len(),
{
    if s.len() == 0 || s[0] == sep {
    } else {
        let t = s.drop_first();
        lemma_first_index(t, sep);
        assert forall|k: int| 0 <= k < first_index(s, sep) implies s[k] != sep by {
            if k > 0 {
                assert(s[k] == t[k - 1]);
            }
        }
        assert(first_index(s, sep) < s.len() ==> s[first_index(s, sep)] == t[first_index(t, sep)]);
    }
}

/// A position that holds the separator and has none before it is `first_index`.
pub proof fn lemma_first_index_is(s: Seq<char>, sep: char, j: int)
    requires
        0 <= j <= s.len(),
        forall|k: int| 0 <= k < j ==> s[k] != sep,
        j < s.len() ==> s[j] == sep,
    ensures
        first_index(s, sep) == j,
{
    lemma_first_index(s, sep);
    let i = first_index(s, sep);
    if i < j {
        assert(s[i] != sep);
    }
}

/// Splitting cuts at every separator and nowhere else: no piece holds the
/// separator, there is at least one piece, and joining the pieces with the
/// separator gives the text back.
pub proof fn lemma_split_join(s: Seq<char>, sep: char)
    ensures
        split(s, sep).len() >= 1,
        forall|i: int| 0 <= i < split(s, sep).len() ==> !(#[trigger] split(s, sep)[i]).contains(sep),
        join(split(s, sep), sep) == s,
    decreases s.len(),
{
    lemma_first_index(s, sep);
    let i = first_index(s, sep);
    if 0 <= i < s.len() {
        let head = s.subrange(0, i);
        let rest = s.subrange(i + 1, s.len() as int);
        lemma_split_join(rest, sep);
        let parts = split(s, sep);
        assert(parts == seq![head] + split(rest, sep));
        assert(parts.drop_first() =~= split(rest, sep));
        assert(parts[0] == head);
        assert(!head.contains(sep)) by {
            if head.contains(sep) {
                let k = choose|k: int| 0 <= k < head.len() && head[k] == sep;
                assert(s[k] == sep);
            }
        }
        assert forall|k: int| 0 <= k < parts.len() implies !(#[trigger] parts[k]).contains(sep) by {
            if k > 0 {
                assert(parts[k] == split(rest, sep)[k - 1]);
            }
        }
        assert(join(parts, sep) =~= s);
    } else {
        assert(!s.contains(sep)) by {
            if s.contains(sep) {
                let k = choose|k: int| 0 <= k < s.len() && s[k] == sep;
                assert(s[k] == sep);
            }
        }
    }
}

/// The character sequences held by a list of character vectors.
pub open spec fn views(parts: Seq<Vec<char>>) -> Seq<Seq<char>> {
    parts.map_values(|p: Vec<char>| p@)
}

/// Cuts `v` at every `sep`; the pieces come in order, empty ones included.
pub fn split_chars(v: &Vec<char>, sep: char) -> (parts: Vec<Vec<char>>)
    ensures
        views(parts@) == split(v@, sep),
        parts.len() >= 1,
{
    let mut parts: Vec<Vec<char>> = Vec::new();
    let mut piece: Vec<char> = Vec::new();
    let mut start: usize = 0;
    let mut i: usize = 0;
    assert(views(parts@) =~= Seq::empty());
    assert(v@.subrange(0, v.len() as int) =~= v@);
    while i < v.len()
        invariant
            start <= i <= v.len(),
            piece@ == v@.subrange(start as int, i as int),
            forall|k: int| start <= k < i ==> v@[k] != sep,
            split(v@, sep) == views(parts@) + split(v@.subrange(start as int, v.len() as int), sep),
        decreases v.len() - i,
    {
        let ghost tail = v@.subrange(start as int, v.len() as int);
        if v[i] == sep {
            proof {
                lemma_first_index_is(tail, sep, i - start);
                assert(tail.subrange(0, i - start) =~= piece@);
                assert(tail.subrange(i - start + 1, tail.len() as int) =~= v@.subrange(
                    i + 1,
                    v.len() as int,
                ));
                assert(views(parts@).push(piece@) + split(v@.subrange(i + 1, v.len() as int), sep)
                    =~= views(parts@) + split(tail, sep));
            }
            let ghost before = views(parts@);
            let ghost cut = piece@;
            parts.push(piece);
            assert(views(parts@) =~= before.push(cut));
            piece = Vec::new();
            start = i + 1;
            assert(piece@ =~= v@.subrange(start as int, i + 1));
        } else {
            piece.push(v[i]);
            assert(piece@ =~= v@.subrange(start as int, i + 1));
        }
        i += 1;
    }
    proof {
        let tail = v@.subrange(start as int, v.len() as int);
        lemma_first_index_is(tail, sep, tail.len() as int);
        assert(piece@ =~= tail);
    }
    let ghost before = views(parts@);
    let ghost cut = piece@;
    parts.push(piece);
    assert(views(parts@) =~= before.push(cut));
    assert(views(parts@) =~= split(v@, sep));
    parts
}

/// The index of the last `c` in `s`, or `-1` where `s` holds none.
pub open spec fn last_index(s: Seq<char>, c: char) -> int
    decreases s.len(),
{
    if s.len() == 0 {
        -1
    } else if s.last() == c {
        s.len() - 1
    } else {
        last_index(s.drop_last(), c)
    }
}

/// `last_index` is the position of the last occurrence.
pub proof fn lemma_last_index(s: Seq<char>, c: char)
    ensures
        -1 <= last_index(s, c) < s.len(),
        forall|k: int| last_index(s, c) < k < s.len() ==> s[k] != c,
        last_index(s, c) >= 0 ==> s[last_index(s, c)] == c,
    decreases s.len(),
{
    if s.len() > 0 && s.last() != c {
        let t = s.drop_last();
        lemma_last_index(t, c);
        assert forall|k: int| last_index(s, c) < k < s.len() implies s[k] != c by {
            if k < t.len() {
                assert(s[k] == t[k]);
            }
        }
        assert(last_index(s, c) >= 0 ==> s[last_index(s, c)] == t[last_index(t, c)]);
    }
}

/// A position that holds `c` and has none after it is `last_index`.
pub proof fn lemma_last_index_is(s: Seq<char>, c: char, j: int)
    requires
        -1 <= j < s.len(),
        forall|k: int| j < k < s.len() ==> s[k] != c,
        j >= 0 ==> s[j] == c,
    ensures
        last_index(s, c) == j,
{
    lemma_last_index(s, c);
    let i = last_index(s, c);
    if i > j {
        assert(s[i] != c);
    }
}

/// The position of the last `c` in `v`, if there is one.
pub fn find_last(v: &Vec<char>, c: char) -> (r: Option<usize>)
    ensures
        match r {
            Some(i) => i == last_index(v@, c),
            None => last_index(v@, c) == -1,
        },
{
    let mut i: usize = v.len();
    while i > 0
        invariant
            i <= v.len(),
            forall|k: int| i <= k < v.len() ==> v@[k] != c,
        decreases i,
    {
        if v[i - 1] == c {
            proof {
                lemma_last_index_is(v@, c, i - 1);
            }
            return Some(i - 1);
        }
        i -= 1;
    }
    proof {
        lemma_last_index_is(v@, c, -1);
    }
    None
}

/// Appends the characters of `w` to `out`.
pub fn push_all(out: &mut Vec<char>, w: &Vec<char>)
    ensures
        final(out)@ == old(out)@ + w@,
{
    let ghost before = out@;
    let mut i: usize = 0;
    while i < w.len()
        invariant
            i <= w.len(),
            out@ == before + w@.subrange(0, i as int),
        decreases w.len() - i,
    {
        out.push(w[i]);
        assert(out@ =~= before + w@.subrange(0, i + 1));
        i += 1;
    }
    assert(w@.subrange(0, w.len() as int) =~= w@);
}

/// Appends the characters of the string slice `s` to `out`.
pub fn push_str(out: &mut Vec<char>, s: &str)
    ensures
        final(out)@ == old(out)@ + s@,
{
    let ghost before = out@;
    for c in it: s.chars()
        invariant
            it.seq() == s@,
            out@ == before + s@.subrange(0, it.index() as int),
    {
        out.push(c);
        assert(out@ =~= before + s@.subrange(0, it.index() + 1));
    }
    assert(s@.subrange(0, s@.len() as int) =~= s@);
}

/// The characters `v[from..to]` as a vector of their own.
pub fn copy_range(v: &Vec<char>, from: usize, to: usize) -> (w: Vec<char>)
    requires
        from <= to <= v.len(),
    ensures
        w@ == v@.subrange(from as int, to as int),
{
    let mut w: Vec<char> = Vec::new();
    let mut i: usize = from;
    while i < to
        invariant
            from <= i <= to <= v.len(),
            w@ == v@.subrange(from as int, i as int),
        decreases to - i,
    {
        w.push(v[i]);
        assert(w@ =~= v@.subrange(from as int, i + 1));
        i += 1;
    }
    w
}

/// `s` with every occurrence of the non-empty `pat` replaced by `with`,
/// found from left to right, none overlapping another. An empty `pat` occurs
/// nowhere.
pub open spec fn replaced(s: Seq<char>, pat: Seq<char>, with: Seq<char>) -> Seq<char>
    decreases s.len(),
{
    if pat.len() == 0 || s.len() < pat.len() {
        s
    } else if s.subrange(0, pat.len() as int) == pat {
        with + replaced(s.subrange(pat.len() as int, s.len() as int), pat, with)
    } else {
        seq![s[0]] + replaced(s.drop_first(), pat, with)
    }
}

/// Replaces every occurrence of `pat` in `v` by `with`.
pub fn replace_all(v: &Vec<char>, pat: &Vec<char>, with: &Vec<char>) -> (out: Vec<char>)
    ensures
        out@ == replaced(v@, pat@, with@),
{
    if pat.len() == 0 {
        let out = copy_range(v, 0, v.len());
        assert(out@ =~= v@);
        return out;
    }
    let mut out: Vec<char> = Vec::new();
    let mut i: usize = 0;
    assert(v@.subrange(0, v.len() as int) =~= v@);
    while i < v.len() && v.len() - i >= pat.len()
        invariant
            i <= v.len(),
            pat.len() > 0,
            replaced(v@, pat@, with@) == out@ + replaced(
                v@.subrange(i as int, v.len() as int),
                pat@,
                with@,
            ),
        decreases v.len() - i,
    {
        let ghost rest = v@.subrange(i as int, v.len() as int);
        let ghost done = out@;
        assert(rest.subrange(0, pat.len() as int) =~= v@.subrange(i as int, i + pat.len()));
        if range_eq(v, i, i + pat.len(), pat) {
            push_all(&mut out, with);
            assert(rest.subrange(pat.len() as int, rest.len() as int) =~= v@.subrange(
                i + pat.len(),
                v.len() as int,
            ));
            assert(out@ + replaced(v@.subrange(i + pat.len(), v.len() as int), pat@, with@)
                =~= done + replaced(rest, pat@, with@));
            i += pat.len();
        } else {
            out.push(v[i]);
            assert(rest.drop_first() =~= v@.subrange(i + 1, v.len() as int));
            assert(out@ + replaced(v@.subrange(i + 1, v.len() as int), pat@, with@) =~= done
                + replaced(rest, pat@, with@));
            i += 1;
        }
    }
    let tail = copy_range(v, i, v.len());
    push_all(&mut out, &tail);
    out
}

/// A text without the separator is one piece.
pub proof fn lemma_split_single(s: Seq<char>, sep: char)
    requires
        !s.contains(sep),
    ensures
        split(s, sep) == seq![s],
{
    lemma_first_index(s, sep);
    let i = first_index(s, sep);
    if i < s.len() {
        assert(s.contains(s[i]));
    }
}

/// A piece behind the last separator is the last piece: for `tail` without
/// the separator, the pieces of `head`, the separator and `tail` are the pieces
/// of `head` followed by `tail`.
pub proof fn lemma_split_last(head: Seq<char>, sep: char, tail: Seq<char>)
    requires
        !tail.contains(sep),
    ensures
        split(head + seq![sep] + tail, sep) == split(head, sep).push(tail),
    decreases head.len(),
{
    let s = head + seq![sep] + tail;
    lemma_first_index(head, sep);
    let j = first_index(head, sep);
    if j < head.len() {
        assert forall|k: int| 0 <= k < j implies s[k] != sep by {
            assert(s[k] == head[k]);
        }
        assert(s[j] == head[j]);
        lemma_first_index_is(s, sep, j);
        let rest = head.subrange(j + 1, head.len() as int);
        lemma_split_last(rest, sep, tail);
        assert(s.subrange(j + 1, s.len() as int) =~= rest + seq![sep] + tail);
        assert(s.subrange(0, j) =~= head.subrange(0, j));
        assert(split(s, sep) =~= split(head, sep).push(tail));
    } else {
        assert forall|k: int| 0 <= k < head.len() implies s[k] != sep by {
            assert(s[k] == head[k]);
        }
        assert(s[head.len() as int] == sep);
        lemma_first_index_is(s, sep, head.len() as int);
        lemma_split_single(tail, sep);
        assert(s.subrange(0, head.len() as int) =~= head);
        assert(s.subrange(head.len() as int + 1, s.len() as int) =~= tail);
        assert(split(s, sep) =~= split(head, sep).push(tail));
    }
}

/// The last `c` of a text that ends in `c` and a `tail` without `c` is the one
/// in front of `tail`.
pub proof fn lemma_last_index_before(head: Seq<char>, c: char, tail: Seq<char>)
    requires
        !tail.contains(c),
    ensures
        last_index(head + seq![c] + tail, c) == head.len(),
{
    let s = head + seq![c] + tail;
    assert forall|k: int| head.len() < k < s.len() implies s[k] != c by {
        assert(s[k] == tail[k - head.len() - 1]);
        assert(tail.contains(tail[k - head.len() - 1]));
    }
    assert(s[head.len() as int] == c);
    lemma_last_index_is(s, c, head.len() as int);
}

/// A text without `c` has no last `c`.
pub proof fn lemma_last_index_none(s: Seq<char>, c: char)
    requires
        !s.contains(c),
    ensures
        last_index(s, c) == -1,
{
    lemma_last_index(s, c);
    let i = last_index(s, c);
    if i >= 0 {
        assert(s.contains(s[i]));
    }
}

} // verus!
