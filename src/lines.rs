use vstd::prelude::*;

verus! {

/// The index of the last line feed in `s`, or -1 when there is none.
pub open spec fn last_newline(s: Seq<char>) -> int
    decreases s.len(),
{
    if s.len() == 0 {
        -1
    } else if s.last() == '\n' {
        s.len() - 1
    } else {
        last_newline(s.drop_last())
    }
}

/// The lines of `s`: the pieces between line feeds, line feeds excluded.
/// A text with `n` line feeds has `n + 1` lines; a final line feed leaves an
/// empty last line.
pub open spec fn split_lines(s: Seq<char>) -> Seq<Seq<char>>
    decreases s.len(),
{
    let j = last_newline(s);
    if j < 0 || j >= s.len() {
        seq![s]
    } else {
        split_lines(s.take(j)).push(s.skip(j + 1))
    }
}

/// Lines joined with a line feed between each two of them.
pub open spec fn join_lines(ls: Seq<Seq<char>>) -> Seq<char>
    decreases ls.len(),
{
    if ls.len() == 0 {
        Seq::empty()
    } else if ls.len() == 1 {
        ls[0]
    } else {
        join_lines(ls.drop_last()).push('\n') + ls.last()
    }
}

pub open spec fn no_newline(s: Seq<char>) -> bool {
    forall|i: int| 0 <= i < s.len() ==> s[i] != '\n'
}

pub proof fn lemma_last_newline_bounds(s: Seq<char>)
    ensures
        -1 <= last_newline(s) < s.len(),
        last_newline(s) >= 0 ==> s[last_newline(s)] == '\n',
        forall|i: int| last_newline(s) < i < s.len() ==> s[i] != '\n',
    decreases s.len(),
{
    if s.len() > 0 && s.last() != '\n' {
        let d = s.drop_last();
        lemma_last_newline_bounds(d);
        assert forall|i: int| last_newline(s) < i < s.len() implies s[i] != '\n' by {
            if i < d.len() {
                assert(s[i] == d[i]);
            }
        }
    }
}

/// A tail without line feeds leaves the last line feed where it was.
pub proof fn lemma_last_newline_prefix(s: Seq<char>, k: int)
    requires
        0 <= k <= s.len(),
        forall|i: int| k <= i < s.len() ==> s[i] != '\n',
    ensures
        last_newline(s) == last_newline(s.take(k)),
    decreases s.len() - k,
{
    if k < s.len() {
        assert(s.drop_last().take(k) =~= s.take(k));
        lemma_last_newline_prefix(s.drop_last(), k);
    } else {
        assert(s.take(k) =~= s);
    }
}

pub proof fn lemma_split_lines_no_newline(s: Seq<char>)
    ensures
        forall|k: int| 0 <= k < split_lines(s).len() ==> no_newline(#[trigger] split_lines(s)[k]),
        split_lines(s).len() >= 1,
    decreases s.len(),
{
    lemma_last_newline_bounds(s);
    let j = last_newline(s);
    if j >= 0 {
        lemma_split_lines_no_newline(s.take(j));
    }
}

/// Splitting and joining are inverse: joining the lines gives back the text.
pub proof fn lemma_join_split(s: Seq<char>)
    ensures
        join_lines(split_lines(s)) == s,
    decreases s.len(),
{
    lemma_last_newline_bounds(s);
    let j = last_newline(s);
    if j >= 0 {
        let a = s.take(j);
        let b = s.skip(j + 1);
        lemma_join_split(a);
        lemma_split_lines_no_newline(a);
        let la = split_lines(a);
        let ls = split_lines(s);
        assert(ls == la.push(b));
        assert(ls.drop_last() =~= la);
        assert(ls.last() == b);
        assert(join_lines(ls) == join_lines(la).push('\n') + b);
        assert(a.push('\n') + b =~= s);
    }
}

/// Lines without line feeds come back unchanged from a join and a split.
pub proof fn lemma_split_join(ls: Seq<Seq<char>>)
    requires
        ls.len() >= 1,
        forall|k: int| 0 <= k < ls.len() ==> no_newline(#[trigger] ls[k]),
    ensures
        split_lines(join_lines(ls)) == ls,
    decreases ls.len(),
{
    let s = join_lines(ls);
    if ls.len() == 1 {
        lemma_last_newline_prefix(s, 0);
        assert(s.take(0) =~= Seq::<char>::empty());
    } else {
        let front = ls.drop_last();
        let p = join_lines(front);
        lemma_split_join(front);
        assert(s == p.push('\n') + ls.last());
        let k = p.len() as int + 1;
        assert(s.take(k) =~= p.push('\n'));
        assert(s.take(k - 1) =~= p);
        assert(s.skip(k) =~= ls.last());
        assert forall|i: int| k <= i < s.len() implies s[i] != '\n' by {
            assert(s[i] == ls.last()[i - k]);
        }
        lemma_last_newline_prefix(s, k);
        assert(last_newline(s) == k - 1);
        assert(ls =~= front.push(ls.last()));
    }
}

/// The index of the first line feed at or after `i`, or the end of `s`.
fn line_end(s: &str, n: usize, i: usize) -> (e: usize)
    requires
        n == s@.len(),
        i <= n,
    ensures
        i <= e <= n,
        e < n ==> s@[e as int] == '\n',
        forall|j: int| i <= j < e ==> s@[j] != '\n',
{
    let mut e = i;
    while e < n
        invariant
            n == s@.len(),
            i <= e <= n,
            forall|j: int| i <= j < e ==> s@[j] != '\n',
        decreases n - e,
    {
        if s.get_char(e) == '\n' {
            return e;
        }
        e = e + 1;
    }
    e
}

/// The lines of `s`, each as a string of its own.
pub fn lines_of(s: &str) -> (r: Vec<String>)
    ensures
        r@.len() == split_lines(s@).len(),
        forall|k: int| 0 <= k < r@.len() ==> #[trigger] r@[k]@ == split_lines(s@)[k],
{
    let n = s.unicode_len();
    let mut r: Vec<String> = Vec::new();
    let mut start: usize = 0;
    loop
        invariant_except_break
            n == s@.len(),
            start <= n,
            start == 0 ==> r@.len() == 0,
            start > 0 ==> s@[start - 1] == '\n' && r@.len() == split_lines(s@.take(start - 1)).len()
                && forall|k: int|
                0 <= k < r@.len() ==> #[trigger] r@[k]@ == split_lines(s@.take(start - 1))[k],
        ensures
            r@.len() == split_lines(s@).len(),
            forall|k: int| 0 <= k < r@.len() ==> #[trigger] r@[k]@ == split_lines(s@)[k],
        decreases n - start,
    {
        let e = line_end(s, n, start);
        let line = String::from_str(s.substring_char(start, e));
        let ghost t = s@.take(e as int);
        let ghost old_r = r@;
        proof {
            assert forall|i: int| start <= i < t.len() implies t[i] != '\n' by {}
            lemma_last_newline_prefix(t, start as int);
            if start > 0 {
                let u = t.take(start as int);
                assert(u.last() == '\n');
                assert(last_newline(u) == start - 1);
                assert(u.take(start - 1) =~= s@.take(start - 1));
                assert(t.take(start - 1) =~= s@.take(start - 1));
                assert(t.skip(start as int) =~= line@);
                assert(split_lines(t) == split_lines(s@.take(start - 1)).push(line@));
            } else {
                assert(t.take(0) =~= Seq::<char>::empty());
                assert(last_newline(t.take(0)) == -1);
                assert(t =~= line@);
                assert(split_lines(t) == seq![line@]);
            }
            if e == n {
                assert(t =~= s@);
            }
        }
        r.push(line);
        proof {
            assert(r@.len() == split_lines(t).len());
            assert forall|k: int| 0 <= k < r@.len() implies #[trigger] r@[k]@ == split_lines(t)[k] by {
                if k < old_r.len() {
                    assert(r@[k] == old_r[k]);
                }
            }
        }
        if e == n {
            break;
        }
        proof {
            assert(s@.take(e + 1 - 1) =~= t);
        }
        start = e + 1;
    }
    r
}

} // verus!
