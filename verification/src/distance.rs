//! Levenshtein edit distance over sequences of Unicode scalar values,
//! computed by the classic single-column dynamic program and proved equal to
//! the recursive definition.

use vstd::prelude::*;
use crate::chars::str_chars;

verus! {

pub open spec fn min3(x: nat, y: nat, z: nat) -> nat {
    if x <= y && x <= z {
        x
    } else if y <= z {
        y
    } else {
        z
    }
}

/// One substitution step costs 1 when the characters differ.
pub open spec fn delta(x: char, y: char) -> nat {
    if x == y {
        0
    } else {
        1
    }
}

/// Levenshtein edit distance between two sequences of characters: the least
/// number of single-character insertions, deletions and substitutions that
/// turns one into the other.
pub open spec fn edit_distance(a: Seq<char>, b: Seq<char>) -> nat
    decreases a.len() + b.len(),
{
    if a.len() == 0 {
        b.len()
    } else if b.len() == 0 {
        a.len()
    } else {
        min3(
            edit_distance(a.drop_last(), b) + 1,
            edit_distance(a, b.drop_last()) + 1,
            edit_distance(a.drop_last(), b.drop_last()) + delta(a.last(), b.last()),
        )
    }
}

pub proof fn lemma_edit_distance_bound(a: Seq<char>, b: Seq<char>)
    ensures
        edit_distance(a, b) <= a.len() + b.len(),
    decreases a.len() + b.len(),
{
    if a.len() == 0 {
    } else if b.len() == 0 {
    } else {
        lemma_edit_distance_bound(a.drop_last(), b);
        lemma_edit_distance_bound(a, b.drop_last());
        lemma_edit_distance_bound(a.drop_last(), b.drop_last());
    }
}

/// The recurrence over prefixes that the dynamic program implements.
proof fn lemma_edit_distance_step(a: Seq<char>, b: Seq<char>, y: int, x: int)
    requires
        1 <= y <= a.len(),
        1 <= x <= b.len(),
    ensures
        edit_distance(a.take(y), b.take(x)) == min3(
            edit_distance(a.take(y - 1), b.take(x)) + 1,
            edit_distance(a.take(y), b.take(x - 1)) + 1,
            edit_distance(a.take(y - 1), b.take(x - 1)) + delta(a[y - 1], b[x - 1]),
        ),
{
    let s = a.take(y);
    let t = b.take(x);
    assert(s.drop_last() =~= a.take(y - 1));
    assert(t.drop_last() =~= b.take(x - 1));
    assert(s.last() == a[y - 1]);
    assert(t.last() == b[x - 1]);
}

fn umin3(x: usize, y: usize, z: usize) -> (r: usize)
    ensures
        r == min3(x as nat, y as nat, z as nat),
{
    if x <= y && x <= z {
        x
    } else if y <= z {
        y
    } else {
        z
    }
}

/// The Levenshtein edit distance between two strings, counted over Unicode
/// scalar values rather than bytes.
pub fn distance(a: &str, b: &str) -> (d: usize)
    requires
        a@.len() + b@.len() < usize::MAX,
    ensures
        d == edit_distance(a@, b@),
{
    let v1 = str_chars(a);
    let v2 = str_chars(b);
    let m = v1.len();
    let n = v2.len();
    if m == 0 {
        assert(v2@.len() == edit_distance(a@, b@));
        return n;
    }
    if n == 0 {
        assert(v1@.len() == edit_distance(a@, b@));
        return m;
    }
    let mut column: Vec<usize> = Vec::new();
    let mut y: usize = 0;
    while y <= m
        invariant
            y <= m + 1,
            m < usize::MAX,
            column@.len() == y,
            forall|j: int| 0 <= j < y ==> column@[j] == j,
        decreases m + 1 - y,
    {
        column.push(y);
        y = y + 1;
    }
    proof {
        assert forall|j: int| 0 <= j <= m implies column@[j] == edit_distance(
            v1@.take(j),
            v2@.take(0),
        ) by {
            assert(v2@.take(0) =~= Seq::<char>::empty());
            assert(v1@.take(j).len() == j);
        }
    }
    let mut x: usize = 1;
    while x <= n
        invariant
            1 <= x <= n + 1,
            m == v1@.len(),
            n == v2@.len(),
            m + n < usize::MAX,
            1 <= m,
            1 <= n,
            column@.len() == m + 1,
            forall|j: int|
                0 <= j <= m ==> column@[j] == edit_distance(v1@.take(j), v2@.take(x - 1)),
        decreases n + 1 - x,
    {
        proof {
            assert(v2@.take(x as int).drop_last() =~= v2@.take(x - 1));
        }
        column.set(0, x);
        proof {
            assert(v1@.take(0) =~= Seq::<char>::empty());
            assert(column@[0] == edit_distance(v1@.take(0), v2@.take(x as int)));
        }
        let mut lastdiag: usize = x - 1;
        proof {
            assert(v2@.take(x - 1).len() == x - 1);
            assert(edit_distance(v1@.take(0), v2@.take(x - 1)) == x - 1);
        }
        let mut y: usize = 1;
        while y <= m
            invariant
                1 <= y <= m + 1,
                1 <= x <= n,
                m == v1@.len(),
                n == v2@.len(),
                m + n < usize::MAX,
                column@.len() == m + 1,
                forall|j: int|
                    0 <= j < y ==> column@[j] == edit_distance(v1@.take(j), v2@.take(x as int)),
                forall|j: int|
                    y <= j <= m ==> column@[j] == edit_distance(v1@.take(j), v2@.take(x - 1)),
                lastdiag == edit_distance(v1@.take(y - 1), v2@.take(x - 1)),
            decreases m + 1 - y,
        {
            let olddiag = column[y];
            let dlt: usize = if v1[y - 1] == v2[x - 1] {
                0
            } else {
                1
            };
            proof {
                lemma_edit_distance_bound(v1@.take(y as int), v2@.take(x - 1));
                lemma_edit_distance_bound(v1@.take(y - 1), v2@.take(x as int));
                lemma_edit_distance_bound(v1@.take(y - 1), v2@.take(x - 1));
                assert(v1@.take(y as int).len() == y);
                assert(v1@.take(y - 1).len() == y - 1);
                assert(v2@.take(x as int).len() == x);
                assert(v2@.take(x - 1).len() == x - 1);
                lemma_edit_distance_step(v1@, v2@, y as int, x as int);
            }
            let c1 = column[y - 1] + 1;
            let c2 = column[y] + 1;
            let mn = umin3(c1, c2, lastdiag + dlt);
            column.set(y, mn);
            lastdiag = olddiag;
            y = y + 1;
        }
        x = x + 1;
    }
    proof {
        assert(v1@.take(m as int) =~= v1@);
        assert(v2@.take(n as int) =~= v2@);
    }
    column[m]
}

} // verus!
