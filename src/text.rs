//! Character-level helpers on strings, each stated over `Seq<char>`.
use vstd::prelude::*;
use vstd::string::*;

verus! {

/// The pieces of `s` between occurrences of `c`, as `str::split` yields them:
/// always at least one piece, empty pieces kept.
pub open spec fn split_on(s: Seq<char>, c: char) -> Seq<Seq<char>>
    decreases s.len(),
{
    if s.len() == 0 {
        seq![Seq::<char>::empty()]
    } else {
        let prev = split_on(s.drop_last(), c);
        if s.last() == c {
            prev.push(Seq::<char>::empty())
        } else {
            prev.update(prev.len() - 1, prev.last().push(s.last()))
        }
    }
}

pub proof fn lemma_split_nonempty(s: Seq<char>, c: char)
    ensures
        split_on(s, c).len() >= 1,
    decreases s.len(),
{
    if s.len() > 0 {
        lemma_split_nonempty(s.drop_last(), c);
    }
}

/// A piece of a split never holds the separator.
pub proof fn lemma_split_pieces_lack_sep(s: Seq<char>, c: char)
    ensures
        forall|k: int, j: int|
            0 <= k < split_on(s, c).len() && 0 <= j < split_on(s, c)[k].len() ==> split_on(
                s,
                c,
            )[k][j] != c,
    decreases s.len(),
{
    if s.len() > 0 {
        lemma_split_nonempty(s.drop_last(), c);
        lemma_split_pieces_lack_sep(s.drop_last(), c);
        let prev = split_on(s.drop_last(), c);
        let cur = split_on(s, c);
        assert forall|k: int, j: int| 0 <= k < cur.len() && 0 <= j < cur[k].len() implies cur[k][j]
            != c by {
            if k < prev.len() && !(k == prev.len() - 1 && s.last() != c) {
                assert(cur[k] == prev[k]);
            } else if k == prev.len() - 1 {
                assert(cur[k] == prev.last().push(s.last()));
                if j < prev.last().len() {
                    assert(cur[k][j] == prev[k][j]);
                }
            }
        }
    }
}

/// The views of a vector of strings.
pub open spec fn views_of(v: Seq<String>) -> Seq<Seq<char>> {
    v.map_values(|x: String| x@)
}

/// `t` occurs in `s` starting at index `i`.
pub open spec fn occurs_at(s: Seq<char>, t: Seq<char>, i: int) -> bool {
    0 <= i && i + t.len() <= s.len() && s.subrange(i, i + t.len()) == t
}

/// `t` occurs somewhere in `s`.
pub open spec fn has_infix(s: Seq<char>, t: Seq<char>) -> bool {
    exists|i: int| occurs_at(s, t, i)
}

/// `s` with every leading `c` removed.
pub open spec fn trim_leading(s: Seq<char>, c: char) -> Seq<char>
    decreases s.len(),
{
    if s.len() > 0 && s[0] == c {
        trim_leading(s.drop_first(), c)
    } else {
        s
    }
}

/// The pieces of `parts` with `sep` between each two of them.
pub open spec fn join_with(parts: Seq<Seq<char>>, sep: Seq<char>) -> Seq<char>
    decreases parts.len(),
{
    if parts.len() == 0 {
        Seq::<char>::empty()
    } else if parts.len() == 1 {
        parts[0]
    } else {
        join_with(parts.drop_last(), sep) + sep + parts.last()
    }
}

/// The characters of `s`, one by one.
pub fn chars_of(s: &str) -> (r: Vec<char>)
    ensures
        r@ == s@,
{
    let n = s.unicode_len();
    let mut out: Vec<char> = Vec::new();
    let mut i: usize = 0;
    while i < n
        invariant
            n == s@.len(),
            i <= n,
            out@ == s@.take(i as int),
        decreases n - i,
    {
        let ch = s.get_char(i);
        out.push(ch);
        i = i + 1;
        assert(out@ =~= s@.take(i as int));
    }
    assert(out@ =~= s@);
    out
}

/// Splits `s` at every `c`, as `str::split` does.
pub fn split_str(s: &str, c: char) -> (r: Vec<String>)
    ensures
        views_of(r@) == split_on(s@, c),
{
    let n = s.unicode_len();
    let mut parts: Vec<String> = Vec::new();
    let mut start: usize = 0;
    let mut i: usize = 0;
    assert(s@.take(0) =~= Seq::<char>::empty());
    assert(views_of(parts@).push(s@.subrange(0, 0)) =~= seq![Seq::<char>::empty()]);
    while i < n
        invariant
            n == s@.len(),
            start <= i <= n,
            views_of(parts@).push(s@.subrange(start as int, i as int)) == split_on(
                s@.take(i as int),
                c,
            ),
        decreases n - i,
    {
        let ch = s.get_char(i);
        let ghost before = views_of(parts@);
        assert(s@.take(i + 1).drop_last() =~= s@.take(i as int));
        if ch == c {
            let piece = String::from_str(s.substring_char(start, i));
            parts.push(piece);
            assert(views_of(parts@) =~= before.push(s@.subrange(start as int, i as int)));
            start = i + 1;
            assert(s@.subrange(start as int, i + 1) =~= Seq::<char>::empty());
        } else {
            assert(s@.subrange(start as int, i + 1) =~= s@.subrange(start as int, i as int).push(
                ch,
            ));
        }
        i = i + 1;
        assert(views_of(parts@).push(s@.subrange(start as int, i as int)) =~= split_on(
            s@.take(i as int),
            c,
        ));
    }
    let last = String::from_str(s.substring_char(start, n));
    let ghost before = views_of(parts@);
    parts.push(last);
    assert(views_of(parts@) =~= before.push(s@.subrange(start as int, n as int)));
    assert(s@.take(n as int) =~= s@);
    parts
}

/// Whether `t` occurs in `s`.
pub fn contains_str(s: &str, t: &str) -> (r: bool)
    ensures
        r == has_infix(s@, t@),
{
    let sc = chars_of(s);
    let tc = chars_of(t);
    let n = sc.len();
    let m = tc.len();
    if m > n {
        assert forall|i: int| !occurs_at(s@, t@, i) by {}
        return false;
    }
    let mut i: usize = 0;
    while i <= n - m
        invariant
            sc@ == s@,
            tc@ == t@,
            n == sc@.len(),
            m == tc@.len(),
            m <= n,
            i <= n - m + 1,
            forall|k: int| 0 <= k < i ==> !occurs_at(s@, t@, k),
        decreases n - i,
    {
        let mut j: usize = 0;
        let mut same = true;
        while j < m
            invariant
                sc@ == s@,
                tc@ == t@,
                n == sc@.len(),
                m == tc@.len(),
                i + m <= n,
                j <= m,
                same == (forall|q: int| 0 <= q < j ==> sc@[i + q] == tc@[q]),
            decreases m - j,
        {
            if sc[i + j] != tc[j] {
                same = false;
            }
            j = j + 1;
        }
        if same {
            assert(s@.subrange(i as int, i + m) =~= t@);
            assert(occurs_at(s@, t@, i as int));
            return true;
        }
        assert(!occurs_at(s@, t@, i as int)) by {
            if occurs_at(s@, t@, i as int) {
                assert forall|q: int| 0 <= q < m implies sc@[i + q] == tc@[q] by {
                    assert(s@.subrange(i as int, i + m)[q] == sc@[i + q]);
                }
            }
        }
        i = i + 1;
    }
    assert forall|k: int| !occurs_at(s@, t@, k) by {
        if 0 <= k && k + m <= n {
            assert(k < i);
        }
    }
    false
}

/// Whether `s` and `t` hold the same characters.
pub fn same_text(s: &str, t: &str) -> (r: bool)
    ensures
        r == (s@ == t@),
{
    let sc = chars_of(s);
    let tc = chars_of(t);
    if sc.len() != tc.len() {
        return false;
    }
    let mut j: usize = 0;
    while j < tc.len()
        invariant
            sc@ == s@,
            tc@ == t@,
            tc@.len() == sc@.len(),
            j <= tc@.len(),
            forall|q: int| 0 <= q < j ==> sc@[q] == tc@[q],
        decreases tc@.len() - j,
    {
        if sc[j] != tc[j] {
            return false;
        }
        j = j + 1;
    }
    assert(s@ =~= t@);
    true
}

/// Whether `s` begins with `t`.
pub fn starts_with_str(s: &str, t: &str) -> (r: bool)
    ensures
        r == (t@.len() <= s@.len() && s@.take(t@.len() as int) == t@),
{
    let sc = chars_of(s);
    let tc = chars_of(t);
    if tc.len() > sc.len() {
        return false;
    }
    let mut j: usize = 0;
    while j < tc.len()
        invariant
            sc@ == s@,
            tc@ == t@,
            tc@.len() <= sc@.len(),
            j <= tc@.len(),
            forall|q: int| 0 <= q < j ==> sc@[q] == tc@[q],
        decreases tc@.len() - j,
    {
        if sc[j] != tc[j] {
            assert(s@.take(t@.len() as int)[j as int] != t@[j as int]);
            return false;
        }
        j = j + 1;
    }
    assert(s@.take(t@.len() as int) =~= t@);
    true
}

/// `s` with every leading `c` removed, as `str::trim_start_matches` with a char.
pub fn trim_leading_str(s: &str, c: char) -> (r: String)
    ensures
        r@ == trim_leading(s@, c),
{
    let n = s.unicode_len();
    let mut i: usize = 0;
    assert(s@.skip(0) =~= s@);
    while i < n && s.get_char(i) == c
        invariant
            n == s@.len(),
            i <= n,
            trim_leading(s@, c) == trim_leading(s@.skip(i as int), c),
        decreases n - i,
    {
        assert(s@.skip(i as int).drop_first() =~= s@.skip(i + 1));
        i = i + 1;
    }
    let r = String::from_str(s.substring_char(i, n));
    assert(r@ =~= s@.skip(i as int));
    r
}

/// The strings of `parts` with `sep` between each two of them.
pub fn join_strings(parts: &Vec<String>, sep: &str) -> (r: String)
    ensures
        r@ == join_with(views_of(parts@), sep@),
{
    let mut out = String::new();
    let mut i: usize = 0;
    while i < parts.len()
        invariant
            i <= parts@.len(),
            out@ == join_with(views_of(parts@).take(i as int), sep@),
        decreases parts@.len() - i,
    {
        let ghost prev = views_of(parts@).take(i as int);
        if i > 0 {
            out.append(sep);
        }
        out.append(parts[i].as_str());
        assert(views_of(parts@).take(i + 1).drop_last() =~= prev);
        if i == 0 {
            assert(join_with(views_of(parts@).take(1), sep@) == views_of(parts@)[0]);
            assert(out@ =~= parts@[0]@);
        }
        i = i + 1;
    }
    assert(views_of(parts@).take(i as int) =~= views_of(parts@));
    out
}

/// The non-empty pieces of `s`, in order.
pub open spec fn keep_nonempty(s: Seq<Seq<char>>) -> Seq<Seq<char>>
    decreases s.len(),
{
    if s.len() == 0 {
        Seq::<Seq<char>>::empty()
    } else {
        let prev = keep_nonempty(s.drop_last());
        if s.last().len() > 0 {
            prev.push(s.last())
        } else {
            prev
        }
    }
}

/// The non-empty strings of `v` from index `from` on, in order.
pub fn nonempty_from(v: &Vec<String>, from: usize) -> (r: Vec<String>)
    requires
        from <= v@.len(),
    ensures
        views_of(r@) == keep_nonempty(views_of(v@).skip(from as int)),
{
    let mut out: Vec<String> = Vec::new();
    let mut i: usize = from;
    assert(views_of(v@).subrange(from as int, from as int) =~= Seq::<Seq<char>>::empty());
    assert(views_of(out@) =~= Seq::<Seq<char>>::empty());
    while i < v.len()
        invariant
            from <= i <= v@.len(),
            views_of(out@) == keep_nonempty(views_of(v@).subrange(from as int, i as int)),
        decreases v@.len() - i,
    {
        let ghost before = views_of(out@);
        assert(views_of(v@).subrange(from as int, i + 1).drop_last() =~= views_of(v@).subrange(
            from as int,
            i as int,
        ));
        if v[i].unicode_len() > 0 {
            out.push(v[i].clone());
            assert(views_of(out@) =~= before.push(v@[i as int]@));
        }
        i = i + 1;
    }
    assert(views_of(v@).subrange(from as int, i as int) =~= views_of(v@).skip(from as int));
    out
}

/// The index of the first string of `v` equal to `t`, if any.
pub fn position_of(v: &Vec<String>, t: &str) -> (r: Option<usize>)
    ensures
        r matches Some(k) ==> k < v@.len() && v@[k as int]@ == t@ && forall|q: int|
            0 <= q < k ==> v@[q]@ != t@,
        r is None ==> forall|q: int| 0 <= q < v@.len() ==> v@[q]@ != t@,
{
    let mut i: usize = 0;
    while i < v.len()
        invariant
            i <= v@.len(),
            forall|q: int| 0 <= q < i ==> v@[q]@ != t@,
        decreases v@.len() - i,
    {
        if same_text(v[i].as_str(), t) {
            return Some(i);
        }
        i = i + 1;
    }
    None
}

/// A text that starts with the separator splits into an empty first piece
/// and at least one more.
pub proof fn lemma_split_leading_sep(s: Seq<char>, c: char)
    requires
        s.len() > 0,
        s[0] == c,
    ensures
        split_on(s, c).len() >= 2,
        split_on(s, c)[0].len() == 0,
    decreases s.len(),
{
    if s.len() == 1 {
        assert(s.drop_last() =~= Seq::<char>::empty());
    } else {
        lemma_split_leading_sep(s.drop_last(), c);
    }
}

/// An empty first piece does not change the non-empty pieces.
pub proof fn lemma_keep_nonempty_skip_empty(s: Seq<Seq<char>>)
    requires
        s.len() > 0,
        s[0].len() == 0,
    ensures
        keep_nonempty(s) == keep_nonempty(s.drop_first()),
    decreases s.len(),
{
    if s.len() == 1 {
        assert(s.drop_last() =~= Seq::<Seq<char>>::empty());
        assert(s.drop_first() =~= Seq::<Seq<char>>::empty());
    } else {
        lemma_keep_nonempty_skip_empty(s.drop_last());
        assert(s.drop_first().drop_last() =~= s.drop_last().drop_first());
        assert(s.drop_first().last() == s.last());
    }
}

} // verus!
