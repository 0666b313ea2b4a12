//! The order in which forks are listed: by creation time, then by name.

use crate::fork_info::{ForkInfo, ForkInfoView};
use crate::sorting::{
    in_order, law_sort_is_in_order, law_sort_is_stable, law_sort_keeps_items, lemma_inserted_at,
    stably_sorted, total_order,
};
use vstd::prelude::*;
use vstd::string::StrSliceExecFns;

verus! {

/// A text comes at or before another, by the order of their characters.
pub open spec fn text_le(a: Seq<char>, b: Seq<char>) -> bool
    decreases a.len(),
{
    if a.len() == 0 {
        true
    } else if b.len() == 0 {
        false
    } else {
        a[0] < b[0] || (a[0] == b[0] && text_le(a.drop_first(), b.drop_first()))
    }
}

/// Whether a text comes at or before another.
pub fn is_text_le(a: &str, b: &str) -> (le: bool)
    ensures
        le == text_le(a@, b@),
{
    let n: usize = a.unicode_len();
    let m: usize = b.unicode_len();
    let mut i: usize = 0;
    assert(a@.skip(0) =~= a@);
    assert(b@.skip(0) =~= b@);
    while i < n && i < m
        invariant
            i <= n,
            i <= m,
            n == a@.len(),
            m == b@.len(),
            text_le(a@, b@) == text_le(a@.skip(i as int), b@.skip(i as int)),
        decreases n - i,
    {
        let x = a.get_char(i);
        let y = b.get_char(i);
        assert(a@.skip(i as int)[0] == x && b@.skip(i as int)[0] == y);
        assert(a@.skip(i as int).drop_first() =~= a@.skip(i + 1));
        assert(b@.skip(i as int).drop_first() =~= b@.skip(i + 1));
        if x < y {
            return true;
        }
        if y < x {
            return false;
        }
        i += 1;
    }
    i == n
}

proof fn lemma_text_le_total(a: Seq<char>, b: Seq<char>)
    ensures
        text_le(a, b) || text_le(b, a),
    decreases a.len(),
{
    if a.len() > 0 && b.len() > 0 {
        lemma_text_le_total(a.drop_first(), b.drop_first());
    }
}

proof fn lemma_text_le_transitive(a: Seq<char>, b: Seq<char>, c: Seq<char>)
    requires
        text_le(a, b),
        text_le(b, c),
    ensures
        text_le(a, c),
    decreases a.len(),
{
    if a.len() > 0 && a[0] == b[0] && b[0] == c[0] {
        lemma_text_le_transitive(a.drop_first(), b.drop_first(), c.drop_first());
    }
}

/// A fork is listed at or before another.
pub open spec fn fork_le(a: ForkInfoView, b: ForkInfoView) -> bool {
    a.created_at < b.created_at || (a.created_at == b.created_at && text_le(a.name, b.name))
}

/// The order of forks in a listing.
pub open spec fn fork_order() -> spec_fn(ForkInfoView, ForkInfoView) -> bool {
    |a: ForkInfoView, b: ForkInfoView| fork_le(a, b)
}

/// The contents of a list of forks.
pub open spec fn forks_view(forks: Seq<ForkInfo>) -> Seq<ForkInfoView> {
    forks.map_values(|f: ForkInfo| f@)
}

/// Puts forks in the order in which they are listed.
pub fn sort_forks(forks: Vec<ForkInfo>) -> (sorted: Vec<ForkInfo>)
    ensures
        forks_view(sorted@) == stably_sorted(forks_view(forks@), fork_order()),
{
    let ghost all = forks_view(forks@);
    let ghost items = forks@;
    let mut rest = forks;
    let mut sorted: Vec<ForkInfo> = Vec::new();
    let ghost mut done: int = 0;
    assert(forks_view(sorted@) =~= stably_sorted(all.subrange(0, 0), fork_order()));
    assert(items.skip(0) =~= items);
    while rest.len() > 0
        invariant
            0 <= done <= items.len(),
            all == forks_view(items),
            all.len() == items.len(),
            rest@ == items.skip(done),
            forks_view(sorted@) == stably_sorted(all.subrange(0, done), fork_order()),
        decreases rest@.len(),
    {
        let x = rest.remove(0);
        let ghost before = forks_view(sorted@);
        assert(x@ == all[done]);
        assert(rest@ =~= items.skip(done + 1));
        let mut at: usize = sorted.len();
        while at > 0 && !is_fork_le(&sorted[at - 1], &x)
            invariant
                at <= sorted@.len(),
                before == forks_view(sorted@),
                forall|k: int| at <= k < before.len() ==> !fork_order()(#[trigger] before[k], x@),
            decreases at,
        {
            assert(before[at - 1] == sorted@[at - 1]@);
            at -= 1;
        }
        proof {
            if at > 0 {
                assert(before[at - 1] == sorted@[at - 1]@);
            }
            lemma_inserted_at(before, x@, fork_order(), at as int);
            let longer = all.subrange(0, done + 1);
            assert(longer.drop_last() =~= all.subrange(0, done));
            assert(longer.last() == x@);
        }
        sorted.insert(at, x);
        assert(forks_view(sorted@) =~= before.insert(at as int, x@));
        proof {
            done = done + 1;
        }
    }
    assert(all.subrange(0, done) =~= all);
    sorted
}

fn is_fork_le(a: &ForkInfo, b: &ForkInfo) -> (le: bool)
    ensures
        le == fork_le(a@, b@),
{
    a.created_at < b.created_at || (a.created_at == b.created_at && is_text_le(
        a.name.as_str(),
        b.name.as_str(),
    ))
}

/// Forks are listed by creation time and, within one second, by name.
pub proof fn law_listing_is_in_order(forks: Seq<ForkInfoView>)
    ensures
        in_order(stably_sorted(forks, fork_order()), fork_order()),
        stably_sorted(forks, fork_order()).to_multiset() == forks.to_multiset(),
{
    let le = fork_order();
    assert forall|a: ForkInfoView, b: ForkInfoView| #[trigger] le(a, b) || le(b, a) by {
        lemma_text_le_total(a.name, b.name);
    }
    assert forall|a: ForkInfoView, b: ForkInfoView, c: ForkInfoView| #[trigger]
        le(a, b) && #[trigger] le(b, c) implies le(a, c) by {
        if a.created_at == b.created_at && b.created_at == c.created_at {
            lemma_text_le_transitive(a.name, b.name, c.name);
        }
    }
    law_sort_is_in_order(forks, le);
    law_sort_keeps_items(forks, le);
}

/// Texts compare by their first character that differs, and what ends first
/// comes first.
pub proof fn law_text_order_by_first_difference(a: char, s: Seq<char>, b: char, t: Seq<char>)
    ensures
        text_le(seq![a] + s, seq![b] + t) <==> a < b || (a == b && text_le(s, t)),
        text_le(Seq::empty(), t),
        !text_le(seq![a] + s, Seq::empty()),
{
    assert((seq![a] + s).drop_first() =~= s);
    assert((seq![b] + t).drop_first() =~= t);
}

/// A listing holds the forks that it was made of. Of two forks the one created
/// earlier comes first, and of two created in the same second the one whose name
/// does; forks that agree in both keep their order.
pub proof fn law_listing_by_time_and_name(forks: Seq<ForkInfoView>, i: int, j: int, k: int)
    requires
        0 <= i < j < stably_sorted(forks, fork_order()).len(),
        0 <= k < forks.len(),
    ensures
        ({
            let listed = stably_sorted(forks, fork_order());
            let alike = |f: ForkInfoView|
                fork_order()(forks[k], f) && fork_order()(f, forks[k]);
            &&& listed.len() == forks.len()
            &&& listed.contains(forks[k])
            &&& listed[i].created_at <= listed[j].created_at
            &&& listed[i].created_at == listed[j].created_at ==> text_le(
                listed[i].name,
                listed[j].name,
            )
            &&& listed.filter(alike) == forks.filter(alike)
        }),
{
    let listed = stably_sorted(forks, fork_order());
    law_listing_is_in_order(forks);
    law_sort_keeps_items(forks, fork_order());
    lemma_fork_order_is_total();
    law_sort_is_stable(forks, fork_order(), forks[k]);
    assert(fork_order()(listed[i], listed[j]));
    broadcast use vstd::seq_lib::group_to_multiset_ensures;

    assert(forks.to_multiset().count(forks[k]) > 0);
}

proof fn lemma_fork_order_is_total()
    ensures
        total_order(fork_order()),
{
    let le = fork_order();
    assert forall|a: ForkInfoView, b: ForkInfoView| #[trigger] le(a, b) || le(b, a) by {
        lemma_text_le_total(a.name, b.name);
    }
    assert forall|a: ForkInfoView, b: ForkInfoView, c: ForkInfoView| #[trigger]
        le(a, b) && #[trigger] le(b, c) implies le(a, c) by {
        if a.created_at == b.created_at && b.created_at == c.created_at {
            lemma_text_le_transitive(a.name, b.name, c.name);
        }
    }
}

} // verus!
