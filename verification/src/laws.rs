//! The store's laws: what a sequence of operations yields, proved over the
//! same spec functions the operations' own contracts use.

use vstd::prelude::*;
use crate::store::{DefSpec, ScopeSpec, keep_other_scopes, keep_this_scope, spec_add,
    spec_remove_scope};

verus! {

/// A list whose definitions all have scopes other than `sc` passes the
/// keep-other filter whole.
proof fn lemma_filter_other_keeps_all(s: Seq<DefSpec>, sc: ScopeSpec)
    requires
        forall|i: int| 0 <= i < s.len() ==> (#[trigger] s[i].scope) != sc,
    ensures
        s.filter(keep_other_scopes(sc)) == s,
    decreases s.len(),
{
    reveal(Seq::filter);
    if s.len() == 0 {
        assert(s.filter(keep_other_scopes(sc)) =~= s);
    } else {
        let dl = s.drop_last();
        assert forall|i: int| 0 <= i < dl.len() implies (#[trigger] dl[i].scope) != sc by {
            assert(s[i].scope != sc);
        }
        lemma_filter_other_keeps_all(dl, sc);
        assert(s =~= dl.push(s.last()));
        assert(s.filter(keep_other_scopes(sc)) =~= s);
    }
}

/// A list whose definitions all have scopes other than `sc` has nothing of
/// scope `sc` to keep.
proof fn lemma_filter_this_empty(s: Seq<DefSpec>, sc: ScopeSpec)
    requires
        forall|i: int| 0 <= i < s.len() ==> (#[trigger] s[i].scope) != sc,
    ensures
        s.filter(keep_this_scope(sc)).len() == 0,
    decreases s.len(),
{
    reveal(Seq::filter);
    if s.len() > 0 {
        let dl = s.drop_last();
        assert forall|i: int| 0 <= i < dl.len() implies (#[trigger] dl[i].scope) != sc by {
            assert(s[i].scope != sc);
        }
        lemma_filter_this_empty(dl, sc);
    }
}

/// Adding a definition and then listing shows exactly that (command, scope)
/// pairing under the name: the record exists and its last definition is the
/// added one.
pub proof fn lemma_add_then_list(
    m: Map<Seq<char>, Seq<DefSpec>>,
    name: Seq<char>,
    cmd: Seq<char>,
    sc: ScopeSpec,
)
    ensures
        spec_add(m, name, cmd, sc).contains_key(name),
        spec_add(m, name, cmd, sc)[name].len() > 0,
        spec_add(m, name, cmd, sc)[name].last() == (DefSpec { command: cmd, scope: sc }),
        spec_add(m, name, cmd, sc)[name].contains(DefSpec { command: cmd, scope: sc }),
{
    let l = spec_add(m, name, cmd, sc)[name];
    assert(l[l.len() - 1] == DefSpec { command: cmd, scope: sc });
}

/// Repeating an add for one (name, scope) with a newer command leaves
/// exactly one definition for that scope, holding the newer command.
pub proof fn lemma_add_overwrites(
    m: Map<Seq<char>, Seq<DefSpec>>,
    name: Seq<char>,
    first_cmd: Seq<char>,
    newer_cmd: Seq<char>,
    sc: ScopeSpec,
)
    ensures
        spec_add(spec_add(m, name, first_cmd, sc), name, newer_cmd, sc)[name].filter(
            keep_this_scope(sc),
        ) == seq![DefSpec { command: newer_cmd, scope: sc }],
{
    reveal(Seq::filter);
    broadcast use vstd::seq_lib::group_filter_ensures;

    let m1 = spec_add(m, name, first_cmd, sc);
    let prior = if m.contains_key(name) {
        m[name]
    } else {
        Seq::<DefSpec>::empty()
    };
    let f0 = prior.filter(keep_other_scopes(sc));
    let d1 = DefSpec { command: first_cmd, scope: sc };
    let d2 = DefSpec { command: newer_cmd, scope: sc };
    assert(m1[name] == f0.push(d1));
    assert forall|i: int| 0 <= i < f0.len() implies (#[trigger] f0[i].scope) != sc by {
        prior.lemma_filter_pred(keep_other_scopes(sc), i);
    }
    let l1 = f0.push(d1);
    assert(l1.drop_last() =~= f0);
    lemma_filter_other_keeps_all(f0, sc);
    assert(l1.filter(keep_other_scopes(sc)) == f0);
    let m2 = spec_add(m1, name, newer_cmd, sc);
    assert(m2[name] == f0.push(d2));
    let l2 = f0.push(d2);
    assert(l2.drop_last() =~= f0);
    lemma_filter_this_empty(f0, sc);
    assert(f0.filter(keep_this_scope(sc)) =~= Seq::<DefSpec>::empty());
    assert(l2.filter(keep_this_scope(sc)) =~= seq![d2]);
}

/// A run of adds for one name, each with its own scope.
pub open spec fn add_seq(
    m: Map<Seq<char>, Seq<DefSpec>>,
    name: Seq<char>,
    pairs: Seq<(Seq<char>, ScopeSpec)>,
) -> Map<Seq<char>, Seq<DefSpec>>
    decreases pairs.len(),
{
    if pairs.len() == 0 {
        m
    } else {
        spec_add(add_seq(m, name, pairs.drop_last()), name, pairs.last().0, pairs.last().1)
    }
}

/// After adds with pairwise distinct scopes for one absent name, the record
/// holds exactly those definitions in order — so removing the whole name
/// returns as many definitions as there were adds, and the name then
/// disappears from the listing.
pub proof fn lemma_distinct_adds_then_remove(
    m: Map<Seq<char>, Seq<DefSpec>>,
    name: Seq<char>,
    pairs: Seq<(Seq<char>, ScopeSpec)>,
)
    requires
        !m.contains_key(name),
        pairs.len() > 0,
        forall|i: int, j: int| 0 <= i < j < pairs.len() ==> (#[trigger] pairs[i].1) != (#[trigger]
        pairs[j].1),
    ensures
        add_seq(m, name, pairs).contains_key(name),
        add_seq(m, name, pairs)[name].len() == pairs.len(),
        forall|i: int| 0 <= i < pairs.len() ==> (#[trigger] add_seq(m, name, pairs)[name][i])
            == (DefSpec { command: pairs[i].0, scope: pairs[i].1 }),
        !add_seq(m, name, pairs).remove(name).contains_key(name),
    decreases pairs.len(),
{
    let n = pairs.len() as int;
    let sc = pairs.last().1;
    if pairs.len() == 1 {
        assert(add_seq(m, name, pairs.drop_last()) == m);
        reveal(Seq::filter);
        assert(Seq::<DefSpec>::empty().filter(keep_other_scopes(sc))
            =~= Seq::<DefSpec>::empty());
        assert(add_seq(m, name, pairs)[name] =~= seq![
            DefSpec { command: pairs[0].0, scope: pairs[0].1 },
        ]);
    } else {
        let init = pairs.drop_last();
        assert forall|i: int, j: int| 0 <= i < j < init.len() implies (#[trigger] init[i].1)
            != (#[trigger] init[j].1) by {
            assert(pairs[i].1 != pairs[j].1);
        }
        lemma_distinct_adds_then_remove(m, name, init);
        let m1 = add_seq(m, name, init);
        let prior = m1[name];
        assert forall|i: int| 0 <= i < prior.len() implies (#[trigger] prior[i].scope) != sc by {
            assert(prior[i] == DefSpec { command: init[i].0, scope: init[i].1 });
            assert(pairs[i].1 != pairs[n - 1].1);
        }
        lemma_filter_other_keeps_all(prior, sc);
        assert(add_seq(m, name, pairs)[name] == prior.push(
            DefSpec { command: pairs.last().0, scope: sc },
        ));
        assert forall|i: int| 0 <= i < pairs.len() implies (#[trigger] add_seq(
            m,
            name,
            pairs,
        )[name][i]) == DefSpec { command: pairs[i].0, scope: pairs[i].1 } by {
            if i < n - 1 {
                assert(add_seq(m, name, pairs)[name][i] == prior[i]);
                assert(init[i] == pairs[i]);
            }
        }
    }
}

/// Removing the last remaining scope deletes the whole record.
pub proof fn lemma_remove_scope_last(
    m: Map<Seq<char>, Seq<DefSpec>>,
    name: Seq<char>,
    sc: ScopeSpec,
)
    requires
        m.contains_key(name),
        m[name].filter(keep_this_scope(sc)).len() > 0,
        m[name].filter(keep_other_scopes(sc)).len() == 0,
    ensures
        !spec_remove_scope(m, name, sc).contains_key(name),
{
}

/// Removing a non-last scope keeps the record, with exactly the definitions
/// of the other scopes, in their stored order.
pub proof fn lemma_remove_scope_partial(
    m: Map<Seq<char>, Seq<DefSpec>>,
    name: Seq<char>,
    sc: ScopeSpec,
)
    requires
        m.contains_key(name),
        m[name].filter(keep_this_scope(sc)).len() > 0,
        m[name].filter(keep_other_scopes(sc)).len() > 0,
    ensures
        spec_remove_scope(m, name, sc).contains_key(name),
        spec_remove_scope(m, name, sc)[name] == m[name].filter(keep_other_scopes(sc)),
{
}

} // verus!
