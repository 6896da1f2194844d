//! Splitting a string at a separator and joining parts with one.

use vstd::prelude::*;

verus! {

/// The parts of `s` between occurrences of `sep`, as `str::split` gives
/// them: `n` separators give `n + 1` parts, some of them maybe empty.
pub open spec fn split_on(s: Seq<char>, sep: char) -> Seq<Seq<char>>
    decreases s.len(),
{
    if s.len() == 0 {
        seq![Seq::empty()]
    } else if s.last() == sep {
        split_on(s.drop_last(), sep).push(Seq::empty())
    } else {
        let parts = split_on(s.drop_last(), sep);
        parts.update(parts.len() - 1, parts.last().push(s.last()))
    }
}

/// The parts joined with `sep` between each two, as `[&str]::join` gives
/// them.
pub open spec fn join_with(parts: Seq<Seq<char>>, sep: char) -> Seq<char>
    decreases parts.len(),
{
    if parts.len() == 0 {
        Seq::empty()
    } else if parts.len() == 1 {
        parts[0]
    } else {
        join_with(parts.drop_last(), sep).push(sep) + parts.last()
    }
}

/// The views of a sequence of string slices.
pub open spec fn views(parts: Seq<&str>) -> Seq<Seq<char>> {
    parts.map_values(|p: &str| p@)
}

/// `s.split(',')`, collected: the parts of `s` between commas.
#[verifier::external_body]
pub(crate) fn split_commas(s: &str) -> (parts: Vec<&str>)
    ensures
        views(parts@) == split_on(s@, ','),
{
    s.split(',').collect()
}

/// `parts.join(",")`: the parts with a comma between each two.
#[verifier::external_body]
pub(crate) fn join_commas(parts: &[&str]) -> (s: String)
    ensures
        s@ == join_with(views(parts@), ','),
{
    parts.join(",")
}

/// A string without the separator is one part.
pub proof fn lemma_split_single(a: Seq<char>, sep: char)
    requires
        !a.contains(sep),
    ensures
        split_on(a, sep) == seq![a],
    decreases a.len(),
{
    if a.len() == 0 {
        assert(a =~= Seq::<char>::empty());
        assert(split_on(a, sep) =~= seq![a]);
    } else {
        let init = a.drop_last();
        assert(!init.contains(sep)) by {
            if init.contains(sep) {
                let i = choose|i: int| 0 <= i < init.len() && init[i] == sep;
                assert(a[i] == sep);
            }
        }
        assert(a[a.len() - 1] != sep);
        assert(a.last() != sep);
        lemma_split_single(init, sep);
        let parts = split_on(init, sep);
        assert(parts.len() == 1 && parts.last() == init);
        assert(split_on(a, sep) == parts.update(0, init.push(a.last())));
        assert(init.push(a.last()) =~= a);
        assert(split_on(a, sep) =~= seq![a]);
    }
}

/// Splitting at a separator splits the two sides apart: the parts of
/// `x`, then the parts of `y`.
pub proof fn lemma_split_concat(x: Seq<char>, y: Seq<char>, sep: char)
    ensures
        split_on(x.push(sep) + y, sep) == split_on(x, sep) + split_on(y, sep),
    decreases y.len(),
{
    let s = x.push(sep) + y;
    if y.len() == 0 {
        assert(s =~= x.push(sep));
        assert(s.drop_last() =~= x);
        assert(split_on(x, sep).push(Seq::empty()) =~= split_on(x, sep) + split_on(y, sep));
    } else {
        lemma_split_concat(x, y.drop_last(), sep);
        lemma_split_nonempty(y.drop_last(), sep);
        assert(s.drop_last() =~= x.push(sep) + y.drop_last());
        assert(s.last() == y.last());
        let a = split_on(x, sep);
        let b = split_on(y.drop_last(), sep);
        if y.last() == sep {
            assert((a + b).push(Seq::empty()) =~= a + b.push(Seq::empty()));
        } else {
            let ab = a + b;
            assert(ab.update(ab.len() - 1, ab.last().push(y.last())) =~= a + b.update(
                b.len() - 1,
                b.last().push(y.last()),
            ));
        }
    }
}

/// Splitting never gives an empty list of parts.
pub proof fn lemma_split_nonempty(s: Seq<char>, sep: char)
    ensures
        split_on(s, sep).len() >= 1,
    decreases s.len(),
{
    if s.len() > 0 {
        lemma_split_nonempty(s.drop_last(), sep);
    }
}

/// Joining the parts of a split with the same separator gives back the
/// string.
pub proof fn lemma_join_split(s: Seq<char>, sep: char)
    ensures
        join_with(split_on(s, sep), sep) == s,
    decreases s.len(),
{
    if s.len() == 0 {
        assert(join_with(split_on(s, sep), sep) =~= s);
    } else {
        let init = s.drop_last();
        lemma_join_split(init, sep);
        lemma_split_nonempty(init, sep);
        let parts = split_on(init, sep);
        if s.last() == sep {
            let p2 = parts.push(Seq::empty());
            assert(p2.drop_last() =~= parts);
            assert(join_with(p2, sep) =~= s);
        } else {
            let p2 = parts.update(parts.len() - 1, parts.last().push(s.last()));
            assert(p2.drop_last() =~= parts.drop_last());
            if parts.len() == 1 {
                assert(join_with(p2, sep) == p2[0]);
                assert(parts[0] == init);
                assert(init.push(s.last()) =~= s);
            } else {
                assert(join_with(p2, sep) =~= join_with(parts.drop_last(), sep).push(sep)
                    + parts.last().push(s.last()));
                let a = join_with(parts.drop_last(), sep).push(sep);
                assert(join_with(parts, sep) == a + parts.last());
                assert(a + parts.last().push(s.last()) =~= (a + parts.last()).push(s.last()));
                assert(init.push(s.last()) =~= s);
                assert(join_with(p2, sep) =~= s);
            }
        }
    }
}

} // verus!
