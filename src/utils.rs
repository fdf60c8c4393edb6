//! Removing repeated symbols from a list.
use vstd::prelude::*;

use crate::formula::Symbol;

verus! {

/// The names of a list of symbols.
pub open spec fn names(s: Seq<&Symbol>) -> Seq<Seq<char>> {
    s.map_values(|x: &Symbol| x@)
}

pub proof fn lemma_names_concat(a: Seq<&Symbol>, b: Seq<&Symbol>)
    ensures
        names(a + b) == names(a) + names(b),
{
    assert(names(a + b) =~= names(a) + names(b));
}

/// `s` with every entry after the first of each value left out.
pub open spec fn distinct(s: Seq<Seq<char>>) -> Seq<Seq<char>>
    decreases s.len(),
{
    if s.len() == 0 {
        Seq::empty()
    } else {
        let rest = distinct(s.drop_last());
        if rest.contains(s.last()) {
            rest
        } else {
            rest.push(s.last())
        }
    }
}

/// The symbols of `symbols`, each name once, in order of first occurrence.
pub fn unique<'a>(symbols: Vec<&'a Symbol>) -> (r: Vec<&'a Symbol>)
    ensures
        names(r@) == distinct(names(symbols@)),
{
    let mut r: Vec<&'a Symbol> = Vec::new();
    let mut i: usize = 0;
    while i < symbols.len()
        invariant
            0 <= i <= symbols@.len(),
            names(r@) == distinct(names(symbols@.subrange(0, i as int))),
        decreases symbols.len() - i,
    {
        let s = symbols[i];
        let mut seen = false;
        let mut j: usize = 0;
        while j < r.len()
            invariant
                0 <= j <= r@.len(),
                seen == exists|k: int| 0 <= k < j && r@[k]@ == s@,
            decreases r.len() - j,
        {
            if r[j].same(s) {
                seen = true;
            }
            j = j + 1;
        }
        let ghost prefix = names(symbols@.subrange(0, i + 1));
        proof {
            assert(prefix.drop_last() == names(symbols@.subrange(0, i as int)));
            assert(prefix.last() == s@);
            if seen {
                let k = choose|k: int| 0 <= k < r@.len() && r@[k]@ == s@;
                assert(names(r@)[k] == s@);
            } else {
                assert forall|k: int| 0 <= k < names(r@).len() implies names(r@)[k] != s@ by {
                    assert(r@[k]@ != s@);
                }
            }
        }
        if !seen {
            r.push(s);
            assert(names(r@) =~= names(r@.drop_last()).push(s@));
        }
        i = i + 1;
    }
    assert(symbols@.subrange(0, symbols@.len() as int) == symbols@);
    r
}

/// Each value of `s` stands in `distinct(s)` exactly once.
pub proof fn lemma_distinct(s: Seq<Seq<char>>)
    ensures
        distinct(s).no_duplicates(),
        forall|x: Seq<char>| #[trigger] distinct(s).contains(x) <==> s.contains(x),
    decreases s.len(),
{
    if s.len() > 0 {
        let rest = distinct(s.drop_last());
        lemma_distinct(s.drop_last());
        assert forall|x: Seq<char>| #[trigger] s.contains(x) <==> s.drop_last().contains(x) || x == s.last() by {
            if s.contains(x) {
                let i = choose|i: int| 0 <= i < s.len() && s[i] == x;
                if i < s.len() - 1 {
                    assert(s.drop_last()[i] == x);
                }
            }
            if s.drop_last().contains(x) {
                let i = choose|i: int| 0 <= i < s.len() - 1 && s.drop_last()[i] == x;
                assert(s[i] == x);
            }
            if x == s.last() {
                assert(s[s.len() - 1] == x);
            }
        }
        if !rest.contains(s.last()) {
            let d = rest.push(s.last());
            assert forall|x: Seq<char>| #[trigger] d.contains(x) <==> rest.contains(x) || x == s.last() by {
                if d.contains(x) {
                    let i = choose|i: int| 0 <= i < d.len() && d[i] == x;
                    if i < rest.len() {
                        assert(rest[i] == x);
                    }
                }
                if rest.contains(x) {
                    let i = choose|i: int| 0 <= i < rest.len() && rest[i] == x;
                    assert(d[i] == x);
                }
                if x == s.last() {
                    assert(d[rest.len() as int] == x);
                }
            }
        }
    }
}

} // verus!
