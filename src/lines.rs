//! The persisted file format: entries separated by a single `'\n'`.

use vstd::prelude::*;

verus! {

/// The pieces of `s` between line breaks, read from left to right.
/// There is always at least one piece; an empty text gives one empty piece.
pub open spec fn split_lines(s: Seq<char>) -> Seq<Seq<char>>
    decreases s.len(),
{
    if s.len() == 0 {
        seq![Seq::<char>::empty()]
    } else {
        let p = split_lines(s.drop_last());
        if s.last() == '\n' {
            p.push(Seq::<char>::empty())
        } else {
            p.update(p.len() - 1, p.last().push(s.last()))
        }
    }
}

/// The pieces of `ps` joined with one `'\n'` between neighbours.
pub open spec fn join_lines(ps: Seq<Seq<char>>) -> Seq<char>
    decreases ps.len(),
{
    if ps.len() == 0 {
        Seq::<char>::empty()
    } else if ps.len() == 1 {
        ps[0]
    } else {
        join_lines(ps.drop_last()) + seq!['\n'] + ps.last()
    }
}

/// `s` holds no line break of either kind.
pub open spec fn single_line(s: Seq<char>) -> bool {
    !s.contains('\n') && !s.contains('\r')
}

/// The texts held by a vector of strings.
pub open spec fn texts(v: Seq<String>) -> Seq<Seq<char>> {
    v.map_values(|s: String| s@)
}

pub proof fn lemma_split_nonempty(s: Seq<char>)
    ensures
        split_lines(s).len() >= 1,
    decreases s.len(),
{
    if s.len() > 0 {
        lemma_split_nonempty(s.drop_last());
    }
}

proof fn lemma_join_extend_last(ps: Seq<Seq<char>>, c: char)
    requires
        ps.len() >= 1,
    ensures
        join_lines(ps.update(ps.len() - 1, ps.last().push(c))) == join_lines(ps).push(c),
{
    let qs = ps.update(ps.len() - 1, ps.last().push(c));
    if ps.len() > 1 {
        assert(qs.drop_last() =~= ps.drop_last());
        assert(join_lines(qs) =~= join_lines(ps).push(c));
    } else {
        assert(join_lines(qs) =~= join_lines(ps).push(c));
    }
}

/// Joining the pieces of a text gives the text back, whatever it holds.
pub proof fn lemma_join_split(s: Seq<char>)
    ensures
        join_lines(split_lines(s)) == s,
    decreases s.len(),
{
    if s.len() > 0 {
        let t = s.drop_last();
        lemma_join_split(t);
        lemma_split_nonempty(t);
        let p = split_lines(t);
        if s.last() == '\n' {
            let q = p.push(Seq::<char>::empty());
            assert(q.drop_last() =~= p);
            assert(join_lines(q) =~= s);
        } else {
            lemma_join_extend_last(p, s.last());
            assert(t.push(s.last()) =~= s);
        }
    }
}

proof fn lemma_split_append_plain(a: Seq<char>, b: Seq<char>)
    requires
        !b.contains('\n'),
    ensures
        split_lines(a + b) == split_lines(a).update(
            split_lines(a).len() - 1,
            split_lines(a).last() + b,
        ),
    decreases b.len(),
{
    lemma_split_nonempty(a);
    if b.len() == 0 {
        assert(a + b =~= a);
        assert(split_lines(a).last() + b =~= split_lines(a).last());
        assert(split_lines(a).update(split_lines(a).len() - 1, split_lines(a).last())
            =~= split_lines(a));
    } else {
        let b0 = b.drop_last();
        assert(!b0.contains('\n')) by {
            if b0.contains('\n') {
                let k = choose|k: int| 0 <= k < b0.len() && b0[k] == '\n';
                assert(b[k] == '\n');
            }
        }
        assert(b[b.len() - 1] != '\n');
        lemma_split_append_plain(a, b0);
        assert((a + b).drop_last() =~= a + b0);
        assert((a + b0).len() + 1 == (a + b).len());
        assert((a + b).last() == b.last());
        let p = split_lines(a);
        assert(p.update(p.len() - 1, p.last() + b0).last().push(b.last()) =~= p.last() + b);
        assert(p.update(p.len() - 1, p.last() + b0).update(p.len() - 1, p.last() + b)
            =~= p.update(p.len() - 1, p.last() + b));
    }
}

/// Splitting the joined pieces gives them back, when no piece holds a `'\n'`.
pub proof fn lemma_split_join(ps: Seq<Seq<char>>)
    requires
        ps.len() >= 1,
        forall|i: int| 0 <= i < ps.len() ==> !(#[trigger] ps[i]).contains('\n'),
    ensures
        split_lines(join_lines(ps)) == ps,
    decreases ps.len(),
{
    if ps.len() == 1 {
        lemma_split_append_plain(Seq::<char>::empty(), ps[0]);
        assert(Seq::<char>::empty() + ps[0] =~= ps[0]);
        assert(Seq::<char>::empty() + ps[0] =~= ps[0]);
        assert(split_lines(ps[0]) =~= ps);
    } else {
        let front = ps.drop_last();
        assert forall|i: int| 0 <= i < front.len() implies !(#[trigger] front[i]).contains('\n') by {
            assert(front[i] == ps[i]);
        }
        lemma_split_join(front);
        let a = join_lines(front) + seq!['\n'];
        assert(a.drop_last() =~= join_lines(front));
        assert(split_lines(a) == front.push(Seq::<char>::empty()));
        assert(!ps.last().contains('\n'));
        lemma_split_append_plain(a, ps.last());
        assert(Seq::<char>::empty() + ps.last() =~= ps.last());
        assert(join_lines(ps) == a + ps.last());
        assert(front.push(Seq::<char>::empty()).update(front.len() as int, ps.last()) =~= ps);
    }
}

/// Every character of a piece of `s` is a character of `s` other than `'\n'`.
pub proof fn lemma_split_pieces(s: Seq<char>)
    ensures
        forall|i: int, j: int|
            0 <= i < split_lines(s).len() && 0 <= j < split_lines(s)[i].len() ==> {
                &&& #[trigger] split_lines(s)[i][j] != '\n'
                &&& s.contains(split_lines(s)[i][j])
            },
    decreases s.len(),
{
    if s.len() > 0 {
        let t = s.drop_last();
        lemma_split_pieces(t);
        lemma_split_nonempty(t);
        let p = split_lines(t);
        assert forall|i: int, j: int|
            0 <= i < split_lines(s).len() && 0 <= j < split_lines(s)[i].len() implies {
                &&& #[trigger] split_lines(s)[i][j] != '\n'
                &&& s.contains(split_lines(s)[i][j])
            } by {
            let x = split_lines(s)[i][j];
            if i < p.len() - 1 || (s.last() == '\n' && i < p.len()) || j < p[i].len() {
                assert(x == p[i][j]);
                let k = choose|k: int| 0 <= k < t.len() && t[k] == x;
                assert(s[k] == x);
            } else {
                assert(x == s[s.len() - 1]);
            }
        }
    }
}

/// A text without `'\r'` splits into pieces without any line break.
pub proof fn lemma_split_single_lines(s: Seq<char>)
    requires
        !s.contains('\r'),
    ensures
        forall|i: int| 0 <= i < split_lines(s).len() ==> single_line(#[trigger] split_lines(s)[i]),
{
    lemma_split_pieces(s);
    assert forall|i: int| 0 <= i < split_lines(s).len() implies single_line(
        #[trigger] split_lines(s)[i],
    ) by {
        let piece = split_lines(s)[i];
        if piece.contains('\n') {
            let j = choose|j: int| 0 <= j < piece.len() && piece[j] == '\n';
            assert(split_lines(s)[i][j] != '\n');
        }
        if piece.contains('\r') {
            let j = choose|j: int| 0 <= j < piece.len() && piece[j] == '\r';
            assert(s.contains(split_lines(s)[i][j]));
        }
    }
}

/// A character other than `'\n'` that no piece holds is not in the joined text.
pub proof fn lemma_join_free_of(ps: Seq<Seq<char>>, x: char)
    requires
        x != '\n',
        forall|i: int| 0 <= i < ps.len() ==> !(#[trigger] ps[i]).contains(x),
    ensures
        !join_lines(ps).contains(x),
    decreases ps.len(),
{
    if ps.len() == 1 {
        assert(!ps[0].contains(x));
    } else if ps.len() > 1 {
        let f = ps.drop_last();
        assert forall|i: int| 0 <= i < f.len() implies !(#[trigger] f[i]).contains(x) by {
            assert(f[i] == ps[i]);
        }
        lemma_join_free_of(f, x);
        let j = join_lines(ps);
        let a = join_lines(f);
        if j.contains(x) {
            let k = choose|k: int| 0 <= k < j.len() && j[k] == x;
            if k < a.len() {
                assert(a[k] == x);
            } else if k > a.len() {
                let last = ps[ps.len() - 1];
                assert(last[k - a.len() - 1] == x);
                assert(last.contains(x));
            }
        }
    }
}

/// Relies on `str::chars`, collected into a vector: the characters of `s` in order.
#[verifier::external_body]
pub(crate) fn chars_of(s: &str) -> (r: Vec<char>)
    ensures
        r@ == s@,
{
    s.chars().collect()
}

/// Relies on `String`'s `FromIterator<&char>`: a string of exactly these characters.
#[verifier::external_body]
pub(crate) fn string_of(v: &Vec<char>) -> (r: String)
    ensures
        r@ == v@,
{
    v.iter().collect()
}

/// Splits `content` at every `'\n'`, as the file format reads a list.
pub fn split_lines_of(content: &str) -> (r: Vec<String>)
    ensures
        texts(r@) == split_lines(content@),
{
    let cs = chars_of(content);
    let mut done: Vec<String> = Vec::new();
    let mut cur: Vec<char> = Vec::new();
    let mut i: usize = 0;
    while i < cs.len()
        invariant
            cs@ == content@,
            0 <= i <= cs.len(),
            texts(done@).push(cur@) == split_lines(cs@.take(i as int)),
        decreases cs.len() - i,
    {
        let c = cs[i];
        proof {
            assert(cs@.take(i + 1).drop_last() =~= cs@.take(i as int));
            lemma_split_nonempty(cs@.take(i as int));
        }
        if c == '\n' {
            let piece = string_of(&cur);
            done.push(piece);
            cur = Vec::new();
            proof {
                assert(texts(done@).push(cur@) =~= split_lines(cs@.take(i + 1)));
            }
        } else {
            cur.push(c);
            proof {
                let p = split_lines(cs@.take(i as int));
                assert(texts(done@).push(cur@) =~= p.update(p.len() - 1, p.last().push(c)));
            }
        }
        i = i + 1;
    }
    let last = string_of(&cur);
    done.push(last);
    proof {
        assert(cs@.take(cs.len() as int) =~= cs@);
        assert(texts(done@) =~= split_lines(content@));
    }
    done
}

/// Joins `parts` with one `'\n'` between neighbours, as the file format writes a list.
pub fn join_lines_of(parts: &Vec<String>) -> (r: String)
    ensures
        r@ == join_lines(texts(parts@)),
{
    let mut out: Vec<char> = Vec::new();
    let mut i: usize = 0;
    while i < parts.len()
        invariant
            0 <= i <= parts.len(),
            out@ == join_lines(texts(parts@).take(i as int)),
        decreases parts.len() - i,
    {
        let cs = chars_of(parts[i].as_str());
        proof {
            let ps = texts(parts@).take(i + 1);
            assert(ps.drop_last() =~= texts(parts@).take(i as int));
            assert(ps.last() == parts@[i as int]@);
        }
        if i > 0 {
            out.push('\n');
        }
        let mut j: usize = 0;
        let ghost base = out@;
        while j < cs.len()
            invariant
                0 <= j <= cs.len(),
                out@ == base + cs@.take(j as int),
            decreases cs.len() - j,
        {
            out.push(cs[j]);
            proof {
                assert(cs@.take(j + 1) =~= cs@.take(j as int).push(cs@[j as int]));
            }
            j = j + 1;
        }
        proof {
            assert(cs@.take(cs.len() as int) =~= cs@);
            let ps = texts(parts@).take(i + 1);
            if i == 0 {
                assert(out@ =~= join_lines(ps));
            } else {
                assert(out@ =~= join_lines(ps));
            }
        }
        i = i + 1;
    }
    proof {
        assert(texts(parts@).take(parts.len() as int) =~= texts(parts@));
    }
    string_of(&out)
}

} // verus!
