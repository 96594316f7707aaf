//! Removal: of one alias, of one scope within an alias, of every alias, or
//! of one scope across all aliases, with the scope argument resolved against
//! the stored definitions.

use vstd::prelude::*;
use vstd::string::StrSliceExecFns;
use crate::store::{AliasDefinition, AliasScope, DefSpec, ScopeSpec, Store};
use crate::store::{keep_other_scopes, keep_this_scope, spec_remove_scope, spec_remove_all_in_scope};
use crate::error::AkaError;
use crate::text::dec_digits;

verus! {

/// The word selecting the global scope, in any letter case.
pub open spec fn is_global_word(s: Seq<char>) -> bool {
    s.len() == 6 && (s[0] == 'g' || s[0] == 'G') && (s[1] == 'l' || s[1] == 'L') && (s[2] == 'o'
        || s[2] == 'O') && (s[3] == 'b' || s[3] == 'B') && (s[4] == 'a' || s[4] == 'A') && (s[5]
        == 'l' || s[5] == 'L')
}

/// Checks for the global-scope keyword.
fn global_word_check(s: &str) -> (r: bool)
    ensures
        r == is_global_word(s@),
{
    let v = crate::text::str_to_chars(s);
    if v.len() != 6 {
        return false;
    }
    (v[0] == 'g' || v[0] == 'G') && (v[1] == 'l' || v[1] == 'L') && (v[2] == 'o' || v[2] == 'O')
        && (v[3] == 'b' || v[3] == 'B') && (v[4] == 'a' || v[4] == 'A') && (v[5] == 'l' || v[5]
        == 'L')
}

/// Whether one scope carries exactly the path `p`.
pub open spec fn scope_has_path(sc: ScopeSpec, p: Seq<char>) -> bool {
    sc == ScopeSpec::Exact(p) || sc == ScopeSpec::Recursive(p)
}

/// The scope of the first definition bound to the path `p`, if any.
pub open spec fn find_path_scope(defs: Seq<DefSpec>, p: Seq<char>) -> Option<ScopeSpec>
    decreases defs.len(),
{
    if defs.len() == 0 {
        None
    } else if scope_has_path(defs[0].scope, p) {
        Some(defs[0].scope)
    } else {
        find_path_scope(defs.skip(1), p)
    }
}

/// Whether one definition's scope carries exactly the path `p`.
fn scope_has_path_check(scope: &AliasScope, p: &str) -> (r: bool)
    ensures
        r == scope_has_path(scope@, p@),
{
    match scope {
        AliasScope::Global => false,
        AliasScope::Exact(q) => crate::text::str_eq(q.as_str(), p),
        AliasScope::Recursive(q) => crate::text::str_eq(q.as_str(), p),
    }
}

/// Finds, among `definitions`, the scope to remove: the global scope for the
/// global keyword; otherwise the scope of the first definition bound to the
/// resolved path. `normalized` carries the canonicalized form of `scope_str`,
/// or the resolver's message where no path could be resolved.
pub fn match_scope_in_definitions(
    definitions: &Vec<AliasDefinition>,
    scope_str: &str,
    normalized: &Result<String, String>,
) -> (r: Result<AliasScope, AkaError>)
    ensures
        is_global_word(scope_str@) ==> (r matches Ok(sc) && sc@ == ScopeSpec::Global),
        !is_global_word(scope_str@) ==> match normalized {
            Err(e) => r matches Err(err) && (err matches AkaError::InvalidScopePath(m) && m@
                == e@),
            Ok(p) => match find_path_scope(crate::codec::def_views(definitions@), p@) {
                Some(t) => r matches Ok(sc) && sc@ == t,
                None => r matches Err(err) && (err matches AkaError::InvalidScopePath(m) && m@
                    == "No matching scope found for path: "@ + scope_str@),
            },
        },
{
    if global_word_check(scope_str) {
        return Ok(AliasScope::Global);
    }
    let p = match normalized {
        Ok(p) => p,
        Err(e) => {
            return Err(AkaError::InvalidScopePath(e.clone()));
        },
    };
    let ghost vs = crate::codec::def_views(definitions@);
    let n = definitions.len();
    let mut i: usize = 0;
    proof {
        assert(vs.skip(0) =~= vs);
    }
    while i < n
        invariant
            n == definitions@.len(),
            i <= n,
            vs == crate::codec::def_views(definitions@),
            !is_global_word(scope_str@),
            normalized matches Ok(q) && q@ == p@,
            find_path_scope(vs, p@) == find_path_scope(vs.skip(i as int), p@),
        decreases n - i,
    {
        proof {
            assert(vs.skip(i as int)[0] == vs[i as int]);
            assert(vs.skip(i as int).skip(1) =~= vs.skip(i + 1));
        }
        if scope_has_path_check(&definitions[i].scope, p.as_str()) {
            return Ok(definitions[i].scope.clone());
        }
        i = i + 1;
    }
    proof {
        assert(vs.skip(n as int) =~= Seq::<DefSpec>::empty());
    }
    let mut msg: Vec<char> = Vec::new();
    crate::text::push_chars("No matching scope found for path: ", &mut msg);
    crate::text::push_chars(scope_str, &mut msg);
    Err(AkaError::InvalidScopePath(crate::text::chars_to_string(&msg)))
}

/// Finds, across a whole listing, some scope bound to exactly the path `p`;
/// `None` only when no stored definition is.
fn find_scope_for_path(entries: &Vec<(String, Vec<AliasDefinition>)>, p: &str) -> (r: Option<
    AliasScope,
>)
    ensures
        match r {
            Some(sc) => scope_has_path(sc@, p@),
            None => forall|w: int, j: int|
                0 <= w < entries@.len() && 0 <= j < entries@[w].1@.len() ==> !scope_has_path(
                    (#[trigger] entries@[w].1@[j])@.scope,
                    p@,
                ),
        },
{
    let n = entries.len();
    let mut i: usize = 0;
    while i < n
        invariant
            n == entries@.len(),
            i <= n,
            forall|w: int, j: int|
                0 <= w < i && 0 <= j < entries@[w].1@.len() ==> !scope_has_path(
                    (#[trigger] entries@[w].1@[j])@.scope,
                    p@,
                ),
        decreases n - i,
    {
        let defs = &entries[i].1;
        let m = defs.len();
        let mut j: usize = 0;
        while j < m
            invariant
                i < n == entries@.len(),
                m == entries@[i as int].1@.len(),
                defs == &entries@[i as int].1,
                j <= m,
                forall|w: int, q: int|
                    0 <= w < i && 0 <= q < entries@[w].1@.len() ==> !scope_has_path(
                        (#[trigger] entries@[w].1@[q])@.scope,
                        p@,
                    ),
                forall|q: int| 0 <= q < j ==> !scope_has_path(
                    (#[trigger] entries@[i as int].1@[q])@.scope,
                    p@,
                ),
            decreases m - j,
        {
            if scope_has_path_check(&defs[j].scope, p) {
                return Some(defs[j].scope.clone());
            }
            j = j + 1;
        }
        i = i + 1;
    }
    None
}

} // verus!

verus! {

/// The report for clearing the whole store.
pub open spec fn msg_removed_all(n: nat) -> Seq<char> {
    "Removed "@ + (dec_digits(n) + " alias(es)"@)
}

/// The report for clearing one scope across the store.
pub open spec fn msg_removed_in_scope(n: nat, s: Seq<char>) -> Seq<char> {
    "Removed "@ + (dec_digits(n) + (" alias(es) from scope '"@ + (s + "'"@)))
}

/// The report when no record held the requested scope.
pub open spec fn msg_none_in_scope(s: Seq<char>) -> Seq<char> {
    "No aliases found in scope '"@ + (s + "'"@)
}

/// The report for deleting one whole record.
pub open spec fn msg_removed_alias(a: Seq<char>, n: nat) -> Seq<char> {
    "Removed alias '"@ + (a + ("' ("@ + (dec_digits(n) + " definitions)"@)))
}

/// The report for removing one scope from one record.
pub open spec fn msg_removed_alias_scope(a: Seq<char>, s: Seq<char>, remaining: nat) -> Seq<char> {
    if remaining == 0 {
        "Removed alias '"@ + (a + ("' from scope '"@ + (s + "' (no definitions remaining)"@)))
    } else {
        "Removed alias '"@ + (a + ("' from scope '"@ + (s + ("' ("@ + (dec_digits(remaining)
            + " definitions remaining)"@)))))
    }
}

/// The aliases holding a definition of scope `t`.
pub open spec fn touched_set(m: Map<Seq<char>, Seq<DefSpec>>, t: ScopeSpec) -> Set<Seq<char>> {
    m.dom().filter(|k: Seq<char>| m[k].filter(keep_this_scope(t)).len() > 0)
}


} // verus!

verus! {

/// Removes aliases as the arguments direct. With `all` and no scope, every
/// record goes; with `all` and a scope, that scope goes from every record;
/// with a name alone, that whole record goes; with a name and a scope,
/// exactly that definition goes. `resolved` carries the canonicalized form
/// of the scope path, or the resolver's message, and is read only when a
/// non-global scope was given.
pub fn handle_remove_command(
    store: &mut Store,
    alias: Option<String>,
    all: bool,
    scope: Option<String>,
    resolved: Result<String, String>,
) -> (r: Result<String, AkaError>)
    requires
        old(store).wf(),
    ensures
        final(store).wf(),
        (all && alias is None && scope is None) ==> match r {
            Ok(msg) => (old(store).aliases() == Map::<Seq<char>, Seq<DefSpec>>::empty() ==> final(store).aliases() == old(store).aliases() && msg@ == "No aliases to remove"@) && (old(store).aliases() != Map::<Seq<char>, Seq<DefSpec>>::empty() ==> final(store).aliases()
                == Map::<Seq<char>, Seq<DefSpec>>::empty() && msg@ == msg_removed_all(
                old(store).aliases().dom().len(),
            )),
            Err(_) => final(store).aliases() == old(store).aliases() || final(store).aliases()
                == Map::<Seq<char>, Seq<DefSpec>>::empty(),
        },
        all && alias is None ==> (scope matches Some(s) ==> is_global_word(s@) ==> match r {
            Ok(msg) => final(store).aliases() == spec_remove_all_in_scope(
                old(store).aliases(),
                ScopeSpec::Global,
            ) && (touched_set(old(store).aliases(), ScopeSpec::Global).len() == 0 ==> msg@
                == msg_none_in_scope(s@)) && (touched_set(
                old(store).aliases(),
                ScopeSpec::Global,
            ).len() > 0 ==> msg@ == msg_removed_in_scope(
                touched_set(old(store).aliases(), ScopeSpec::Global).len(),
                s@,
            )),
            Err(_) => final(store).aliases() == old(store).aliases() || final(store).aliases()
                == spec_remove_all_in_scope(old(store).aliases(), ScopeSpec::Global),
        }),
        all && alias is None ==> (scope matches Some(s) ==> !is_global_word(s@) ==> (resolved
            matches Err(e) ==> final(store).aliases() == old(store).aliases() && (r matches Err(err)
            && (err matches AkaError::InvalidScopePath(m) && m@ == e@)))),
        all && alias is None ==> (scope matches Some(s) ==> !is_global_word(s@) ==> (resolved
            matches Ok(p) ==> match r {
            Ok(msg) => exists|t: ScopeSpec|
                scope_has_path(t, p@) && #[trigger] final(store).aliases()
                    == spec_remove_all_in_scope(old(store).aliases(), t) && (touched_set(
                    old(store).aliases(),
                    t,
                ).len() == 0 ==> msg@ == msg_none_in_scope(s@)) && (touched_set(
                    old(store).aliases(),
                    t,
                ).len() > 0 ==> msg@ == msg_removed_in_scope(
                    touched_set(old(store).aliases(), t).len(),
                    s@,
                )),
            Err(_) => final(store).aliases() == old(store).aliases() || exists|t: ScopeSpec|
                scope_has_path(t, p@) && #[trigger] final(store).aliases()
                    == spec_remove_all_in_scope(old(store).aliases(), t),
        })),
        !all && scope is None ==> (alias matches Some(a) ==> match r {
            Ok(msg) => old(store).aliases().contains_key(a@) && final(store).aliases() == old(store).aliases().remove(a@) && msg@ == msg_removed_alias(
                a@,
                old(store).aliases()[a@].len(),
            ),
            Err(err) => (final(store).aliases() == old(store).aliases() || final(store).aliases()
                == old(store).aliases().remove(a@)) && (crate::error::is_storage_failure(err)
                || err is AliasNotFound) && (err matches AkaError::AliasNotFound(x) ==> x@ == a@
                && !old(store).aliases().contains_key(a@) && final(store).aliases() == old(
                store,
            ).aliases()),
        }),
        !all ==> (alias matches Some(a) ==> (scope matches Some(s) ==> match r {
            Ok(msg) => old(store).aliases().contains_key(a@) && exists|t: ScopeSpec|
                {
                    &&& (if is_global_word(s@) {
                        t == ScopeSpec::Global
                    } else {
                        resolved matches Ok(p) && find_path_scope(old(store).aliases()[a@], p@)
                            == Some(t)
                    })
                    &&& old(store).aliases()[a@].filter(keep_this_scope(t)).len() > 0
                    &&& #[trigger] final(store).aliases() == spec_remove_scope(
                        old(store).aliases(),
                        a@,
                        t,
                    )
                    &&& msg@ == msg_removed_alias_scope(
                        a@,
                        s@,
                        old(store).aliases()[a@].filter(keep_other_scopes(t)).len(),
                    )
                },
            Err(err) => {
                &&& (final(store).aliases() == old(store).aliases() || exists|t: ScopeSpec|
                    #[trigger] final(store).aliases() == spec_remove_scope(
                        old(store).aliases(),
                        a@,
                        t,
                    ))
                &&& (crate::error::is_storage_failure(err) || err is AliasNotFound || err
                    is InvalidScopePath || err is ScopeNotFoundInAlias)
                &&& (err matches AkaError::AliasNotFound(x) ==> x@ == a@ && !old(
                    store,
                ).aliases().contains_key(a@))
                &&& (err matches AkaError::ScopeNotFoundInAlias(x, y) ==> x@ == a@ && y@ == s@)
            },
        })),
        (all && alias is Some) || (!all && alias is None) ==> final(store).aliases() == old(
            store,
        ).aliases() && (r matches Err(err) && err is ConfigError),
{
    match (all, alias, scope) {
        (true, None, None) => {
            let entries = match store.list() {
                Ok(es) => es,
                Err(e) => {
                    return Err(e);
                },
            };
            if entries.len() == 0 {
                proof {
                    assert forall|k: Seq<char>| !(#[trigger] store.aliases().contains_key(k)) by {
                        if store.aliases().contains_key(k) {
                            let w = choose|w: int|
                                0 <= w < entries@.len() && (#[trigger] entries@[w].0@) == k;
                        }
                    }
                    assert(store.aliases() =~= Map::<Seq<char>, Seq<DefSpec>>::empty());
                }
                return Ok(String::from_str("No aliases to remove"));
            }
            let n = match store.remove_all() {
                Ok(n) => n,
                Err(e) => {
                    return Err(e);
                },
            };
            proof {
                assert(old(store).aliases() != Map::<Seq<char>, Seq<DefSpec>>::empty()) by {
                    assert(old(store).aliases().contains_key(entries@[0].0@));
                    assert(!Map::<Seq<char>, Seq<DefSpec>>::empty().contains_key(entries@[0].0@));
                }
            }
            let mut msg: Vec<char> = Vec::new();
            crate::text::push_chars("Removed ", &mut msg);
            crate::text::push_decimal(n, &mut msg);
            crate::text::push_chars(" alias(es)", &mut msg);
            proof {
                assert(msg@ =~= msg_removed_all(n as nat));
            }
            Ok(crate::text::chars_to_string(&msg))
        },
        (true, None, Some(scope_str)) => {
            let target: AliasScope = if global_word_check(scope_str.as_str()) {
                AliasScope::Global
            } else {
                let p = match &resolved {
                    Ok(p) => p,
                    Err(e) => {
                        return Err(AkaError::InvalidScopePath(e.clone()));
                    },
                };
                let entries = match store.list() {
                    Ok(es) => es,
                    Err(e) => {
                        return Err(e);
                    },
                };
                match find_scope_for_path(&entries, p.as_str()) {
                    Some(sc) => sc,
                    None => AliasScope::Exact(p.clone()),
                }
            };
            proof {
                if !is_global_word(scope_str@) {
                    assert(resolved matches Ok(q) ==> scope_has_path(target@, q@));
                }
            }
            let removed = match store.remove_all_in_scope(&target) {
                Ok(out) => out,
                Err(e) => {
                    proof {
                        if store.aliases() != old(store).aliases() {
                            assert(store.aliases() == spec_remove_all_in_scope(
                                old(store).aliases(),
                                target@,
                            ));
                        }
                    }
                    return Err(e);
                },
            };
            let cnt = removed.len();
            proof {
                assert(store.aliases() == spec_remove_all_in_scope(
                    old(store).aliases(),
                    target@,
                ));
            }
            proof {
                let m0 = old(store).aliases();
                let nsq = Seq::new(removed@.len(), |q: int| removed@[q].0@);
                assert forall|a: Seq<char>| nsq.to_set().contains(a) implies touched_set(
                    m0,
                    target@,
                ).contains(a) by {
                    let q = choose|q: int| 0 <= q < nsq.len() && nsq[q] == a;
                    assert(m0.contains_key(removed@[q].0@));
                }
                assert forall|a: Seq<char>| touched_set(m0, target@).contains(a) implies
                    nsq.to_set().contains(a) by {
                    let w = choose|w: int|
                        0 <= w < removed@.len() && (#[trigger] removed@[w].0@) == a;
                    assert(nsq[w] == a);
                }
                assert(nsq.to_set() =~= touched_set(m0, target@));
                assert(nsq.no_duplicates());
                nsq.unique_seq_to_set();
                assert(touched_set(m0, target@).len() == cnt);
            }
            if cnt == 0 {
                let mut msg: Vec<char> = Vec::new();
                crate::text::push_chars("No aliases found in scope '", &mut msg);
                crate::text::push_chars(scope_str.as_str(), &mut msg);
                crate::text::push_chars("'", &mut msg);
                proof {
                    assert(msg@ =~= msg_none_in_scope(scope_str@));
                }
                return Ok(crate::text::chars_to_string(&msg));
            }
            let mut msg: Vec<char> = Vec::new();
            crate::text::push_chars("Removed ", &mut msg);
            crate::text::push_decimal(cnt, &mut msg);
            crate::text::push_chars(" alias(es) from scope '", &mut msg);
            crate::text::push_chars(scope_str.as_str(), &mut msg);
            crate::text::push_chars("'", &mut msg);
            proof {
                assert(msg@ =~= msg_removed_in_scope(cnt as nat, scope_str@));
            }
            Ok(crate::text::chars_to_string(&msg))
        },
        (false, Some(alias_name), None) => {
            match store.remove(alias_name.as_str()) {
                Ok(Some(defs)) => {
                    let cnt = defs.len();
                    proof {
                        assert(crate::codec::def_views(defs@).len() == defs@.len());
                    }
                    let mut msg: Vec<char> = Vec::new();
                    crate::text::push_chars("Removed alias '", &mut msg);
                    crate::text::push_chars(alias_name.as_str(), &mut msg);
                    crate::text::push_chars("' (", &mut msg);
                    crate::text::push_decimal(cnt, &mut msg);
                    crate::text::push_chars(" definitions)", &mut msg);
                    proof {
                        assert(msg@ =~= msg_removed_alias(alias_name@, cnt as nat));
                    }
                    Ok(crate::text::chars_to_string(&msg))
                },
                Ok(None) => Err(AkaError::AliasNotFound(alias_name)),
                Err(e) => Err(e),
            }
        },
        (false, Some(alias_name), Some(scope_str)) => {
            let entries = match store.list() {
                Ok(es) => es,
                Err(e) => {
                    return Err(e);
                },
            };
            let defs = match find_defs(&entries, alias_name.as_str()) {
                Some(d) => d,
                None => {
                    proof {
                        if old(store).aliases().contains_key(alias_name@) {
                            let w = choose|w: int|
                                0 <= w < entries@.len() && (#[trigger] entries@[w].0@)
                                    == alias_name@;
                        }
                    }
                    return Err(AkaError::AliasNotFound(alias_name));
                },
            };
            proof {
                let w = choose|w: int|
                    0 <= w < entries@.len() && (#[trigger] entries@[w].0@) == alias_name@
                        && entries@[w].1 == *defs;
                assert(old(store).aliases().contains_key(alias_name@));
                assert(crate::codec::def_views(defs@) == old(store).aliases()[alias_name@]);
            }
            let target = match match_scope_in_definitions(defs, scope_str.as_str(), &resolved) {
                Ok(t) => t,
                Err(e) => {
                    return Err(e);
                },
            };
            match store.remove_scope_from_alias(alias_name.as_str(), &target) {
                Ok(Some(_)) => {
                    let ghost m0 = old(store).aliases();
                    let ghost kept = m0[alias_name@].filter(keep_other_scopes(target@));
                    let remaining = match store.list() {
                        Ok(es2) => match find_defs(&es2, alias_name.as_str()) {
                            Some(d2) => {
                                proof {
                                    let w = choose|w: int|
                                        0 <= w < es2@.len() && (#[trigger] es2@[w].0@)
                                            == alias_name@ && es2@[w].1 == *d2;
                                    assert(store.aliases().contains_key(alias_name@));
                                    assert(crate::codec::def_views(d2@) == kept);
                                    assert(d2@.len() == kept.len());
                                }
                                d2.len()
                            },
                            None => {
                                proof {
                                    if kept.len() > 0 {
                                        assert(store.aliases().contains_key(alias_name@));
                                        let w = choose|w: int|
                                            0 <= w < es2@.len() && (#[trigger] es2@[w].0@)
                                                == alias_name@;
                                    }
                                }
                                0
                            },
                        },
                        Err(e) => {
                            proof {
                                assert(store.aliases() == spec_remove_scope(
                                    old(store).aliases(),
                                    alias_name@,
                                    target@,
                                ));
                            }
                            return Err(e);
                        },
                    };
                    proof {
                        assert(remaining as nat == kept.len());
                        assert(store.aliases() == spec_remove_scope(
                            old(store).aliases(),
                            alias_name@,
                            target@,
                        ));
                    }
                    let mut msg: Vec<char> = Vec::new();
                    if remaining == 0 {
                        crate::text::push_chars("Removed alias '", &mut msg);
                        crate::text::push_chars(alias_name.as_str(), &mut msg);
                        crate::text::push_chars("' from scope '", &mut msg);
                        crate::text::push_chars(scope_str.as_str(), &mut msg);
                        crate::text::push_chars("' (no definitions remaining)", &mut msg);
                        proof {
                            assert(msg@ =~= msg_removed_alias_scope(alias_name@, scope_str@, 0));
                        }
                    } else {
                        crate::text::push_chars("Removed alias '", &mut msg);
                        crate::text::push_chars(alias_name.as_str(), &mut msg);
                        crate::text::push_chars("' from scope '", &mut msg);
                        crate::text::push_chars(scope_str.as_str(), &mut msg);
                        crate::text::push_chars("' (", &mut msg);
                        crate::text::push_decimal(remaining, &mut msg);
                        crate::text::push_chars(" definitions remaining)", &mut msg);
                        proof {
                            assert(msg@ =~= msg_removed_alias_scope(
                                alias_name@,
                                scope_str@,
                                remaining as nat,
                            ));
                        }
                    }
                    Ok(crate::text::chars_to_string(&msg))
                },
                Ok(None) => Err(AkaError::ScopeNotFoundInAlias(alias_name, scope_str)),
                Err(e) => {
                    proof {
                        if store.aliases() != old(store).aliases() {
                            assert(store.aliases() == spec_remove_scope(
                                old(store).aliases(),
                                alias_name@,
                                target@,
                            ));
                        }
                    }
                    Err(e)
                },
            }
        },
        _ => Err(AkaError::ConfigError(String::from_str("Invalid argument combination"))),
    }
}

/// The listed definitions of one alias, if it is listed.
fn find_defs<'a>(entries: &'a Vec<(String, Vec<AliasDefinition>)>, name: &str) -> (r: Option<
    &'a Vec<AliasDefinition>,
>)
    ensures
        match r {
            Some(d) => exists|w: int|
                0 <= w < entries@.len() && (#[trigger] entries@[w].0@) == name@ && entries@[w].1
                    == *d,
            None => forall|w: int| 0 <= w < entries@.len() ==> (#[trigger] entries@[w].0@) != name@,
        },
{
    let n = entries.len();
    let mut i: usize = 0;
    while i < n
        invariant
            n == entries@.len(),
            i <= n,
            forall|w: int| 0 <= w < i ==> (#[trigger] entries@[w].0@) != name@,
        decreases n - i,
    {
        if crate::text::str_eq(entries[i].0.as_str(), name) {
            return Some(&entries[i].1);
        }
        i = i + 1;
    }
    None
}

} // verus!
