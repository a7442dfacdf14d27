//! The statistics list: totals ordered from the longest down, each with a
//! short hours-and-minutes label.
use vstd::prelude::*;
use vstd::multiset::Multiset;
use vstd::seq_lib::{to_multiset_build, to_multiset_insert};
use crate::text::{decimal, push_decimal};

verus! {

/// Whether the totals of `s` never increase from one entry to the next.
pub open spec fn longest_first(s: Seq<(String, u64)>) -> bool {
    forall|i: int, j: int| 0 <= i < j < s.len() ==> s[i].1 >= s[j].1
}

/// `totals`, reordered so that the longest total comes first. Entries with
/// equal totals keep their relative order.
pub fn sort_by_time(totals: Vec<(String, u64)>) -> (r: Vec<(String, u64)>)
    ensures
        longest_first(r@),
        r@.to_multiset() == totals@.to_multiset(),
{
    let ghost all = totals@;
    let mut rest = totals;
    let mut out: Vec<(String, u64)> = Vec::new();
    proof {
        broadcast use vstd::multiset::group_multiset_axioms, vstd::seq_lib::group_to_multiset_ensures;
        assert(out@ =~= Seq::<(String, u64)>::empty());
        assert(out@.to_multiset() =~= Multiset::empty());
        assert(out@.to_multiset().add(rest@.to_multiset()) =~= all.to_multiset());
    }
    while rest.len() > 0
        invariant
            longest_first(out@),
            out@.to_multiset().add(rest@.to_multiset()) == all.to_multiset(),
        decreases rest@.len(),
    {
        let ghost before = rest@;
        let x = rest.pop().unwrap();
        let mut p: usize = 0;
        while p < out.len() && out[p].1 > x.1
            invariant
                p <= out@.len(),
                forall|k: int| 0 <= k < p ==> out@[k].1 > x.1,
            decreases out@.len() - p,
        {
            p = p + 1;
        }
        let ghost prev = out@;
        out.insert(p, x);
        proof {
            broadcast use vstd::multiset::group_multiset_axioms, vstd::seq_lib::group_to_multiset_ensures;
            assert(before == rest@.push(x));
            to_multiset_build(rest@, x);
            to_multiset_insert(prev, p as int, x);
            assert(out@.to_multiset().add(rest@.to_multiset()) =~= all.to_multiset());
            assert forall|i: int, j: int| 0 <= i < j < out@.len() implies out@[i].1 >= out@[j].1 by {
                if p < prev.len() {
                    assert(prev[p as int].1 <= x.1);
                }
                if i < p && j == p {
                } else if i < p && j > p {
                    assert(out@[j] == prev[j - 1]);
                } else if i == p && j > p {
                    assert(out@[j] == prev[j - 1]);
                    assert(prev[j - 1].1 <= prev[p as int].1);
                } else if i > p {
                    assert(out@[i] == prev[i - 1]);
                    assert(out@[j] == prev[j - 1]);
                }
            }
        }
    }
    proof {
        broadcast use vstd::multiset::group_multiset_axioms, vstd::seq_lib::group_to_multiset_ensures;
        assert(rest@ =~= Seq::<(String, u64)>::empty());
        assert(rest@.to_multiset() =~= Multiset::empty());
        assert(out@.to_multiset().add(rest@.to_multiset()) =~= out@.to_multiset());
    }
    out
}

/// `n` in decimal, right-aligned in two columns.
pub open spec fn two_columns(n: nat) -> Seq<char> {
    if n < 10 {
        seq![' '] + decimal(n)
    } else {
        decimal(n)
    }
}

/// A total in seconds as whole hours and minutes, each in two columns
/// (` 1h 5`).
pub open spec fn duration_text(seconds: nat) -> Seq<char> {
    two_columns(seconds / 3600) + seq!['h'] + two_columns((seconds % 3600) / 60)
}

fn push_two_columns(s: &mut String, n: u64)
    ensures
        final(s)@ == old(s)@ + two_columns(n as nat),
{
    proof {
        reveal_strlit(" ");
    }
    if n < 10 {
        s.append(" ");
    }
    push_decimal(s, n);
    assert(s@ =~= old(s)@ + two_columns(n as nat));
}

/// The label of a total of `seconds`.
pub fn duration_label(seconds: u64) -> (r: String)
    ensures
        r@ == duration_text(seconds as nat),
{
    proof {
        reveal_strlit("h");
    }
    let mut r = String::new();
    push_two_columns(&mut r, seconds / 3600);
    r.append("h");
    push_two_columns(&mut r, (seconds % 3600) / 60);
    assert(r@ =~= duration_text(seconds as nat));
    r
}

} // verus!
