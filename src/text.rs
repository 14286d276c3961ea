use vstd::prelude::*;
use vstd::string::*;

verus! {

/// The pieces of `s` between occurrences of `d`, as `str::split` gives them:
/// always at least one piece, and an empty piece around each leading, trailing
/// or doubled delimiter.
pub open spec fn split(s: Seq<char>, d: char) -> Seq<Seq<char>>
    decreases s.len(),
{
    if s.len() == 0 {
        seq![Seq::<char>::empty()]
    } else {
        let prev = split(s.drop_last(), d);
        if s.last() == d {
            prev.push(Seq::<char>::empty())
        } else {
            prev.update(prev.len() - 1, prev.last().push(s.last()))
        }
    }
}

/// The pieces of `xs` with `sep` between each two neighbours.
pub open spec fn join(xs: Seq<Seq<char>>, sep: Seq<char>) -> Seq<char>
    decreases xs.len(),
{
    if xs.len() == 0 {
        Seq::<char>::empty()
    } else if xs.len() == 1 {
        xs[0]
    } else {
        join(xs.drop_last(), sep) + sep + xs.last()
    }
}

/// The pieces of `xs` that are not empty, in order.
pub open spec fn nonempty(xs: Seq<Seq<char>>) -> Seq<Seq<char>>
    decreases xs.len(),
{
    if xs.len() == 0 {
        Seq::<Seq<char>>::empty()
    } else if xs.last().len() == 0 {
        nonempty(xs.drop_last())
    } else {
        nonempty(xs.drop_last()).push(xs.last())
    }
}

/// The lines of a text: its pieces between newline characters.
pub open spec fn lines(s: Seq<char>) -> Seq<Seq<char>> {
    split(s, '\n')
}

/// `s` does not hold `d`.
pub open spec fn free_of(s: Seq<char>, d: char) -> bool {
    forall|i: int| 0 <= i < s.len() ==> s[i] != d
}

/// The texts of a sequence of strings.
pub open spec fn views(v: Seq<String>) -> Seq<Seq<char>> {
    v.map_values(|x: String| x@)
}

pub proof fn lemma_split_nonempty(s: Seq<char>, d: char)
    ensures
        split(s, d).len() >= 1,
    decreases s.len(),
{
    if s.len() > 0 {
        lemma_split_nonempty(s.drop_last(), d);
    }
}

/// No piece of a split holds the delimiter.
pub proof fn lemma_split_pieces_free(s: Seq<char>, d: char)
    ensures
        forall|i: int| 0 <= i < split(s, d).len() ==> free_of(#[trigger] split(s, d)[i], d),
    decreases s.len(),
{
    if s.len() > 0 {
        lemma_split_pieces_free(s.drop_last(), d);
        lemma_split_nonempty(s.drop_last(), d);
        let prev = split(s.drop_last(), d);
        assert forall|i: int| 0 <= i < split(s, d).len() implies free_of(
            #[trigger] split(s, d)[i],
            d,
        ) by {
            if s.last() != d && i == prev.len() - 1 {
                assert(free_of(prev[i], d));
                assert(split(s, d)[i] == prev[i].push(s.last()));
            }
        }
    }
}

/// A character that the text lacks is lacking in every piece of its split.
pub proof fn lemma_split_pieces_keep_free(s: Seq<char>, d: char, c: char)
    requires
        free_of(s, c),
    ensures
        forall|i: int| 0 <= i < split(s, d).len() ==> free_of(#[trigger] split(s, d)[i], c),
    decreases s.len(),
{
    if s.len() > 0 {
        assert(free_of(s.drop_last(), c));
        lemma_split_pieces_keep_free(s.drop_last(), d, c);
        lemma_split_nonempty(s.drop_last(), d);
        let prev = split(s.drop_last(), d);
        assert forall|i: int| 0 <= i < split(s, d).len() implies free_of(
            #[trigger] split(s, d)[i],
            c,
        ) by {
            if s.last() != d && i == prev.len() - 1 {
                assert(free_of(prev[i], c));
                assert(s.last() == s[s.len() - 1]);
                assert(split(s, d)[i] == prev[i].push(s.last()));
            }
        }
    }
}

/// Dropping the empty pieces keeps each remaining piece as it was.
pub proof fn lemma_nonempty_keeps_free(xs: Seq<Seq<char>>, c: char)
    requires
        forall|i: int| 0 <= i < xs.len() ==> free_of(#[trigger] xs[i], c),
    ensures
        forall|i: int| 0 <= i < nonempty(xs).len() ==> free_of(#[trigger] nonempty(xs)[i], c),
    decreases xs.len(),
{
    if xs.len() > 0 {
        let init = xs.drop_last();
        assert forall|i: int| 0 <= i < init.len() implies free_of(#[trigger] init[i], c) by {
            assert(init[i] == xs[i]);
        }
        lemma_nonempty_keeps_free(init, c);
        assert(free_of(xs[xs.len() - 1], c));
        assert(xs.last() == xs[xs.len() - 1]);
        assert forall|i: int| 0 <= i < nonempty(xs).len() implies free_of(
            #[trigger] nonempty(xs)[i],
            c,
        ) by {
            if xs.last().len() > 0 && i == nonempty(init).len() {
                assert(nonempty(xs)[i] == xs.last());
            } else {
                assert(nonempty(xs)[i] == nonempty(init)[i]);
            }
        }
    }
}

/// Appending text without the delimiter extends the last piece.
pub proof fn lemma_split_append_free(a: Seq<char>, b: Seq<char>, d: char)
    requires
        free_of(b, d),
    ensures
        split(a + b, d) == split(a, d).update(split(a, d).len() - 1, split(a, d).last() + b),
    decreases b.len(),
{
    lemma_split_nonempty(a, d);
    let sa = split(a, d);
    if b.len() == 0 {
        assert(a + b =~= a);
        assert(sa.last() + b =~= sa.last());
        assert(sa.update(sa.len() - 1, sa.last() + b) =~= sa);
    } else {
        let b0 = b.drop_last();
        assert(free_of(b0, d));
        lemma_split_append_free(a, b0, d);
        assert((a + b).drop_last() =~= a + b0);
        assert((a + b).last() == b.last());
        assert(b.last() == b[b.len() - 1]);
        assert((sa.last() + b0).push(b.last()) =~= sa.last() + b);
        assert(split(a + b, d) =~= sa.update(sa.len() - 1, sa.last() + b));
    }
}

/// Splitting the joined pieces gives the pieces back, when none holds the
/// delimiter.
pub proof fn lemma_split_join(xs: Seq<Seq<char>>, d: char)
    requires
        xs.len() >= 1,
        forall|i: int| 0 <= i < xs.len() ==> free_of(#[trigger] xs[i], d),
    ensures
        split(join(xs, seq![d]), d) == xs,
    decreases xs.len(),
{
    if xs.len() == 1 {
        lemma_split_append_free(Seq::<char>::empty(), xs[0], d);
        assert(Seq::<char>::empty() + xs[0] =~= xs[0]);
        assert(split(Seq::<char>::empty(), d) =~= seq![Seq::<char>::empty()]);
        assert(split(xs[0], d) =~= xs);
    } else {
        let init = xs.drop_last();
        assert forall|i: int| 0 <= i < init.len() implies free_of(#[trigger] init[i], d) by {
            assert(init[i] == xs[i]);
        }
        lemma_split_join(init, d);
        let j = join(init, seq![d]);
        let jd = j + seq![d];
        assert(jd.drop_last() =~= j);
        assert(jd.last() == d);
        assert(split(jd, d) == init.push(Seq::<char>::empty()));
        assert(free_of(xs.last(), d));
        lemma_split_append_free(jd, xs.last(), d);
        assert(join(xs, seq![d]) == jd + xs.last());
        assert(Seq::<char>::empty() + xs.last() =~= xs.last());
        assert(split(join(xs, seq![d]), d) =~= xs);
    }
}

/// The characters of `s`, one by one.
fn chars_of(s: &str) -> (r: Vec<char>)
    ensures
        r@ == s@,
{
    let n = s.unicode_len();
    let mut r: Vec<char> = Vec::new();
    let mut i: usize = 0;
    while i < n
        invariant
            n == s@.len(),
            i <= n,
            r@ == s@.take(i as int),
        decreases n - i,
    {
        r.push(s.get_char(i));
        i = i + 1;
        assert(r@ =~= s@.take(i as int));
    }
    assert(r@ =~= s@);
    r
}

/// Whether `s` starts with `p`.
pub fn has_prefix(s: &str, p: &str) -> (r: bool)
    ensures
        r == (p@.len() <= s@.len() && s@.take(p@.len() as int) == p@),
{
    let cs = chars_of(s);
    let ps = chars_of(p);
    if ps.len() > cs.len() {
        return false;
    }
    let mut i: usize = 0;
    while i < ps.len()
        invariant
            cs@ == s@,
            ps@ == p@,
            ps@.len() <= cs@.len(),
            i <= ps@.len(),
            forall|j: int| 0 <= j < i ==> cs@[j] == ps@[j],
        decreases ps@.len() - i,
    {
        if cs[i] != ps[i] {
            assert(s@.take(p@.len() as int)[i as int] != p@[i as int]);
            return false;
        }
        i = i + 1;
    }
    assert(s@.take(p@.len() as int) =~= p@);
    true
}

/// Splits `s` at each occurrence of `d`.
pub fn split_text(s: &str, d: char) -> (r: Vec<String>)
    ensures
        views(r@) == split(s@, d),
{
    let cs = chars_of(s);
    let n = cs.len();
    let mut parts: Vec<String> = Vec::new();
    let mut start: usize = 0;
    let mut i: usize = 0;
    assert(s@.take(0) =~= Seq::<char>::empty());
    assert(s@.subrange(0, 0) =~= Seq::<char>::empty());
    assert(views(parts@) =~= Seq::<Seq<char>>::empty());
    assert(seq![Seq::<char>::empty()] =~= Seq::<Seq<char>>::empty().push(Seq::<char>::empty()));
    while i < n
        invariant
            n == s@.len(),
            cs@ == s@,
            start <= i <= n,
            split(s@.take(i as int), d) == views(parts@).push(s@.subrange(start as int, i as int)),
        decreases n - i,
    {
        let ghost prev = s@.take(i as int);
        assert(s@.take(i as int + 1).drop_last() =~= prev);
        assert(s@.take(i as int + 1).last() == s@[i as int]);
        if cs[i] == d {
            let piece = String::from_str(s.substring_char(start, i));
            let ghost old_parts = parts@;
            parts.push(piece);
            assert(views(parts@) =~= views(old_parts).push(s@.subrange(start as int, i as int)));
            start = i + 1;
            assert(s@.subrange(start as int, start as int) =~= Seq::<char>::empty());
        } else {
            assert(s@.subrange(start as int, i as int).push(s@[i as int]) =~= s@.subrange(
                start as int,
                i as int + 1,
            ));
            assert(views(parts@).push(s@.subrange(start as int, i as int)).update(
                views(parts@).len() as int,
                s@.subrange(start as int, i as int + 1),
            ) =~= views(parts@).push(s@.subrange(start as int, i as int + 1)));
        }
        i = i + 1;
    }
    let piece = String::from_str(s.substring_char(start, n));
    let ghost old_parts = parts@;
    parts.push(piece);
    assert(views(parts@) =~= views(old_parts).push(s@.subrange(start as int, n as int)));
    assert(s@.take(n as int) =~= s@);
    parts
}

/// Joins `parts` with `sep` between each two neighbours.
pub fn join_strings(parts: &Vec<String>, sep: &str) -> (r: String)
    ensures
        r@ == join(views(parts@), sep@),
{
    let mut r = String::new();
    let mut i: usize = 0;
    while i < parts.len()
        invariant
            i <= parts@.len(),
            r@ == join(views(parts@.take(i as int)), sep@),
        decreases parts@.len() - i,
    {
        let ghost before = views(parts@.take(i as int));
        assert(views(parts@.take(i as int + 1)).drop_last() =~= before);
        if i > 0 {
            r.append(sep);
        }
        r.append(parts[i].as_str());
        i = i + 1;
        assert(views(parts@.take(i as int)).last() == parts@[i - 1]@);
        assert(i == 1 ==> r@ =~= views(parts@.take(i as int))[0]);
    }
    assert(parts@.take(parts@.len() as int) =~= parts@);
    r
}

} // verus!
