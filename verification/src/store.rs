//! The scoped alias store: the data model (scope, definition) and the `Store`
//! itself, which maps an alias name to an ordered list of definitions and
//! delegates durability to a transactional key-value collaborator.

use vstd::prelude::*;

verus! {

/// The directory context in which one definition of an alias is active:
/// everywhere, in one exact directory, or in a whole directory subtree.
/// A path is an absolute, canonicalized directory path fixed at creation.
#[derive(Debug)]
pub enum AliasScope {
    Global,
    Recursive(String),
    Exact(String),
}

/// The mathematical value of an [`AliasScope`]: the same tag over a
/// sequence of characters.
pub enum ScopeSpec {
    Global,
    Recursive(Seq<char>),
    Exact(Seq<char>),
}

impl View for AliasScope {
    type V = ScopeSpec;

    open spec fn view(&self) -> ScopeSpec {
        match self {
            AliasScope::Global => ScopeSpec::Global,
            AliasScope::Recursive(p) => ScopeSpec::Recursive(p@),
            AliasScope::Exact(p) => ScopeSpec::Exact(p@),
        }
    }
}

impl Clone for AliasScope {
    fn clone(&self) -> (r: Self)
        ensures
            r@ == self@,
    {
        match self {
            AliasScope::Global => AliasScope::Global,
            AliasScope::Recursive(p) => AliasScope::Recursive(p.clone()),
            AliasScope::Exact(p) => AliasScope::Exact(p.clone()),
        }
    }
}

impl PartialEq for AliasScope {
    fn eq(&self, other: &Self) -> (r: bool) {
        match (self, other) {
            (AliasScope::Global, AliasScope::Global) => true,
            (AliasScope::Recursive(a), AliasScope::Recursive(b)) => *a == *b,
            (AliasScope::Exact(a), AliasScope::Exact(b)) => *a == *b,
            _ => false,
        }
    }
}

impl vstd::std_specs::cmp::PartialEqSpecImpl for AliasScope {
    open spec fn obeys_eq_spec() -> bool {
        true
    }

    open spec fn eq_spec(&self, other: &Self) -> bool {
        self@ == other@
    }
}

impl Eq for AliasScope {}

/// One (command, scope) pairing stored under an alias name. The command is an
/// arbitrary shell-source string, possibly holding `@N` placeholders or
/// native `$`-parameters.
#[derive(Debug)]
pub struct AliasDefinition {
    pub command: String,
    pub scope: AliasScope,
}

/// The mathematical value of an [`AliasDefinition`].
pub struct DefSpec {
    pub command: Seq<char>,
    pub scope: ScopeSpec,
}

impl View for AliasDefinition {
    type V = DefSpec;

    open spec fn view(&self) -> DefSpec {
        DefSpec { command: self.command@, scope: self.scope@ }
    }
}

impl Clone for AliasDefinition {
    fn clone(&self) -> (r: Self)
        ensures
            r@ == self@,
    {
        AliasDefinition { command: self.command.clone(), scope: self.scope.clone() }
    }
}

impl PartialEq for AliasDefinition {
    fn eq(&self, other: &Self) -> (r: bool) {
        self.command == other.command && self.scope == other.scope
    }
}

impl vstd::std_specs::cmp::PartialEqSpecImpl for AliasDefinition {
    open spec fn obeys_eq_spec() -> bool {
        true
    }

    open spec fn eq_spec(&self, other: &Self) -> bool {
        self@ == other@
    }
}

impl Eq for AliasDefinition {}

} // verus!

verus! {

/// The filter keeping definitions whose scope differs from `sc`.
pub open spec fn keep_other_scopes(sc: ScopeSpec) -> spec_fn(DefSpec) -> bool {
    |d: DefSpec| d.scope != sc
}

/// The filter keeping definitions whose scope equals `sc`.
pub open spec fn keep_this_scope(sc: ScopeSpec) -> spec_fn(DefSpec) -> bool {
    |d: DefSpec| d.scope == sc
}

/// What `add` does to the records: the definitions under `name` lose any
/// entry with the given scope and gain the new pairing at the end.
pub open spec fn spec_add(
    m: Map<Seq<char>, Seq<DefSpec>>,
    name: Seq<char>,
    cmd: Seq<char>,
    sc: ScopeSpec,
) -> Map<Seq<char>, Seq<DefSpec>> {
    let prior = if m.contains_key(name) {
        m[name]
    } else {
        Seq::empty()
    };
    m.insert(name, prior.filter(keep_other_scopes(sc)).push(DefSpec { command: cmd, scope: sc }))
}

/// The records a raw key-value table denotes: each stored value read as a
/// definition list.
pub open spec fn records(m: Map<Seq<char>, Seq<char>>) -> Map<Seq<char>, Seq<DefSpec>> {
    m.map_values(|v: Seq<char>| crate::codec::spec_decode(v))
}

proof fn lemma_records_insert(m: Map<Seq<char>, Seq<char>>, k: Seq<char>, v: Seq<char>)
    ensures
        records(m.insert(k, v)) == records(m).insert(k, crate::codec::spec_decode(v)),
{
    assert(records(m.insert(k, v)) =~= records(m).insert(k, crate::codec::spec_decode(v)));
}

proof fn lemma_records_remove(m: Map<Seq<char>, Seq<char>>, k: Seq<char>)
    ensures
        records(m.remove(k)) == records(m).remove(k),
{
    assert(records(m.remove(k)) =~= records(m).remove(k));
}

/// Splits a definition list by scope: the pairs kept (scope differs) and the
/// pairs removed (scope equals), each in their stored order.
pub fn split_by_scope(defs: &Vec<AliasDefinition>, scope: &AliasScope) -> (r: (
    Vec<AliasDefinition>,
    Vec<AliasDefinition>,
))
    ensures
        crate::codec::def_views(r.0@) == crate::codec::def_views(defs@).filter(
            keep_other_scopes(scope@),
        ),
        crate::codec::def_views(r.1@) == crate::codec::def_views(defs@).filter(
            keep_this_scope(scope@),
        ),
{
    let ghost vs = crate::codec::def_views(defs@);
    let mut kept: Vec<AliasDefinition> = Vec::new();
    let mut removed: Vec<AliasDefinition> = Vec::new();
    let n = defs.len();
    let mut i: usize = 0;
    proof {
        reveal(Seq::filter);
        assert(vs.subrange(0, 0) =~= Seq::<DefSpec>::empty());
        assert(crate::codec::def_views(kept@) =~= vs.subrange(0, 0).filter(
            keep_other_scopes(scope@),
        ));
        assert(crate::codec::def_views(removed@) =~= vs.subrange(0, 0).filter(
            keep_this_scope(scope@),
        ));
    }
    while i < n
        invariant
            n == defs.len(),
            i <= n,
            vs == crate::codec::def_views(defs@),
            vs.len() == n,
            crate::codec::def_views(kept@) == vs.subrange(0, i as int).filter(
                keep_other_scopes(scope@),
            ),
            crate::codec::def_views(removed@) == vs.subrange(0, i as int).filter(
                keep_this_scope(scope@),
            ),
        decreases n - i,
    {
        let d = defs[i].clone();
        proof {
            assert(d@ == vs[i as int]);
        }
        if d.scope == *scope {
            removed.push(d);
        } else {
            kept.push(d);
        }
        proof {
            reveal(Seq::filter);
            let pre = vs.subrange(0, i as int);
            let cur = vs.subrange(0, i + 1);
            assert(cur.drop_last() =~= pre);
            assert(cur.last() == vs[i as int]);
            assert(crate::codec::def_views(kept@) =~= cur.filter(keep_other_scopes(scope@)));
            assert(crate::codec::def_views(removed@) =~= cur.filter(keep_this_scope(scope@)));
        }
        i = i + 1;
    }
    proof {
        assert(vs.subrange(0, n as int) =~= vs);
    }
    (kept, removed)
}

/// The storage for aliases: records owned here, durability delegated to the
/// key-value collaborator. Every mutation is one committed transaction, and
/// between operations no transaction is open ([`Store::wf`]).
pub struct Store {
    kv: crate::kv::Kv,
}

impl Store {
    /// The records this store holds, keyed by alias name.
    pub closed spec fn aliases(&self) -> Map<Seq<char>, Seq<DefSpec>> {
        records(crate::kv::kv_committed(&self.kv))
    }

    /// Well-formedness: no write transaction is open. [`Store::load`]
    /// establishes it and every method preserves it.
    pub closed spec fn wf(&self) -> bool {
        !crate::kv::kv_open(&self.kv)
    }

    /// Opens (or creates) the store's database file at `path`. What an
    /// existing file already holds becomes this store's records.
    pub fn load(path: &str) -> (r: Result<Store, crate::error::AkaError>)
        ensures
            r matches Ok(s) ==> s.wf(),
            r matches Err(e) ==> e is DatabaseError,
    {
        match crate::kv::kv_open_db(path) {
            Ok(kv) => Ok(Store { kv }),
            Err(e) => Err(e),
        }
    }

    /// Adds one definition: any existing definition under `alias` with an
    /// equal scope is dropped, and the new (command, scope) pairing is
    /// appended, all in one committed transaction. A failure leaves the
    /// records as they were, except for a failed commit, which applies the
    /// whole mutation or none of it.
    pub fn add(&mut self, alias: String, command: String, scope: AliasScope) -> (r: Result<
        (),
        crate::error::AkaError,
    >)
        requires
            old(self).wf(),
        ensures
            final(self).wf(),
            r is Ok ==> final(self).aliases() == spec_add(
                old(self).aliases(),
                alias@,
                command@,
                scope@,
            ),
            r is Err ==> final(self).aliases() == old(self).aliases() || final(self).aliases()
                == spec_add(old(self).aliases(), alias@, command@, scope@),
            r matches Err(e) ==> crate::error::is_storage_failure(e),
    {
        let ghost m0 = self.aliases();
        match self.kv.begin_write() {
            Ok(u) => u,
            Err(e) => {
                return Err(e);
            },
        };
        let existing = match self.kv.get(alias.as_str()) {
            Ok(o) => o,
            Err(e) => {
                self.kv.abort();
                return Err(e);
            },
        };
        let prior: Vec<AliasDefinition> = match existing {
            Some(v) => crate::codec::decode_definitions(v.as_str()),
            None => Vec::new(),
        };
        proof {
            if crate::kv::kv_pending(&self.kv).contains_key(alias@) {
                assert(crate::codec::def_views(prior@) == m0[alias@]);
            } else {
                assert(crate::codec::def_views(prior@) =~= Seq::<DefSpec>::empty());
            }
        }
        let (mut kept, _removed) = split_by_scope(&prior, &scope);
        let ghost keptv0 = crate::codec::def_views(kept@);
        let ghost cmdv = command@;
        let ghost scv = scope@;
        kept.push(AliasDefinition { command, scope });
        let ghost keptv = crate::codec::def_views(kept@);
        proof {
            assert(keptv =~= keptv0.push(DefSpec { command: cmdv, scope: scv }));
        }
        let encoded = crate::codec::encode_definitions(&kept);
        proof {
            crate::codec::lemma_decode_encode(keptv);
            assert(crate::codec::spec_decode(encoded@) == keptv);
        }
        match self.kv.insert(alias.as_str(), encoded.as_str()) {
            Ok(u) => u,
            Err(e) => {
                self.kv.abort();
                return Err(e);
            },
        };
        proof {
            let raw0 = crate::kv::kv_committed(&old(self).kv);
            lemma_records_insert(raw0, alias@, encoded@);
            assert(records(crate::kv::kv_pending(&self.kv)) == m0.insert(alias@, keptv));
            assert(m0.insert(alias@, keptv) == spec_add(m0, alias@, cmdv, scv));
        }
        self.kv.commit()
    }

    /// Deletes the whole record under `alias` in one committed transaction
    /// and returns what was removed, or `None` when no such record exists.
    pub fn remove(&mut self, alias: &str) -> (r: Result<
        Option<Vec<AliasDefinition>>,
        crate::error::AkaError,
    >)
        requires
            old(self).wf(),
        ensures
            final(self).wf(),
            r matches Ok(o) ==> match o {
                Some(defs) => old(self).aliases().contains_key(alias@) && crate::codec::def_views(
                    defs@,
                ) == old(self).aliases()[alias@] && final(self).aliases() == old(
                    self,
                ).aliases().remove(alias@),
                None => !old(self).aliases().contains_key(alias@) && final(self).aliases() == old(
                    self,
                ).aliases(),
            },
            r is Err ==> final(self).aliases() == old(self).aliases() || final(self).aliases()
                == old(self).aliases().remove(alias@),
            r matches Err(e) ==> crate::error::is_storage_failure(e),
    {
        let ghost m0 = self.aliases();
        let ghost raw0 = crate::kv::kv_committed(&self.kv);
        match self.kv.begin_write() {
            Ok(u) => u,
            Err(e) => {
                return Err(e);
            },
        };
        let taken = match self.kv.remove(alias) {
            Ok(o) => o,
            Err(e) => {
                self.kv.abort();
                return Err(e);
            },
        };
        let res: Option<Vec<AliasDefinition>> = match taken {
            Some(v) => {
                proof {
                    lemma_records_remove(raw0, alias@);
                }
                Some(crate::codec::decode_definitions(v.as_str()))
            },
            None => None,
        };
        match self.kv.commit() {
            Ok(u) => u,
            Err(e) => {
                return Err(e);
            },
        };
        Ok(res)
    }

    /// A full snapshot of the records: every alias with its definitions,
    /// each alias once. An empty store yields an empty listing.
    pub fn list(&self) -> (r: Result<
        Vec<(String, Vec<AliasDefinition>)>,
        crate::error::AkaError,
    >)
        ensures
            r matches Ok(es) ==> alias_entries_match(es@, self.aliases()),
            r matches Err(e) ==> crate::error::is_storage_failure(e),
    {
        let raw = match self.kv.read_committed() {
            Ok(es) => es,
            Err(e) => {
                return Err(e);
            },
        };
        let ghost raw0 = crate::kv::kv_committed(&self.kv);
        let mut out: Vec<(String, Vec<AliasDefinition>)> = Vec::new();
        let n = raw.len();
        let mut i: usize = 0;
        while i < n
            invariant
                n == raw@.len(),
                i <= n,
                crate::kv::entries_match(raw@, raw0),
                raw0 == crate::kv::kv_committed(&self.kv),
                out@.len() == i,
                forall|q: int| 0 <= q < i ==> (#[trigger] out@[q].0)@ == raw@[q].0@
                    && crate::codec::def_views(out@[q].1@) == crate::codec::spec_decode(
                    raw@[q].1@,
                ),
            decreases n - i,
        {
            let name = raw[i].0.clone();
            let defs = crate::codec::decode_definitions(raw[i].1.as_str());
            out.push((name, defs));
            i = i + 1;
        }
        proof {
            assert(self.aliases().dom() =~= raw0.dom());
            assert forall|q: int| 0 <= q < out@.len() implies self.aliases().contains_key(
                #[trigger] out@[q].0@,
            ) && crate::codec::def_views(out@[q].1@) == self.aliases()[out@[q].0@] by {
                assert(raw0.contains_key(raw@[q].0@) && raw0[raw@[q].0@] == raw@[q].1@);
            }
            assert forall|k: Seq<char>| self.aliases().contains_key(k) implies exists|q: int|
                0 <= q < out@.len() && (#[trigger] out@[q].0)@ == k by {
                assert(raw0.contains_key(k));
                let w = choose|w: int| 0 <= w < raw@.len() && (#[trigger] raw@[w].0@) == k;
                assert(out@[w].0@ == k);
            }
        }
        Ok(out)
    }
}

impl Store {
    /// Deletes every record in one committed transaction and returns how
    /// many existed.
    pub fn remove_all(&mut self) -> (r: Result<usize, crate::error::AkaError>)
        requires
            old(self).wf(),
        ensures
            final(self).wf(),
            r matches Ok(n) ==> n == old(self).aliases().dom().len() && final(self).aliases()
                == Map::<Seq<char>, Seq<DefSpec>>::empty(),
            r is Err ==> final(self).aliases() == old(self).aliases() || final(self).aliases()
                == Map::<Seq<char>, Seq<DefSpec>>::empty(),
            r matches Err(e) ==> crate::error::is_storage_failure(e),
    {
        let ghost m0 = self.aliases();
        let ghost raw0 = crate::kv::kv_committed(&self.kv);
        match self.kv.begin_write() {
            Ok(u) => u,
            Err(e) => {
                return Err(e);
            },
        };
        let entries = match self.kv.list_pending() {
            Ok(es) => es,
            Err(e) => {
                self.kv.abort();
                return Err(e);
            },
        };
        let ghost ks = Seq::new(entries@.len(), |q: int| entries@[q].0@);
        let n = entries.len();
        let mut i: usize = 0;
        while i < n
            invariant
                n == entries@.len(),
                i <= n,
                crate::kv::entries_match(entries@, raw0),
                ks == Seq::new(entries@.len(), |q: int| entries@[q].0@),
                crate::kv::kv_open(&self.kv),
                crate::kv::kv_committed(&self.kv) == raw0,
                old(self).aliases() == records(raw0),
                forall|k: Seq<char>| #[trigger] crate::kv::kv_pending(&self.kv).contains_key(k)
                    <==> (raw0.contains_key(k) && !(exists|q: int| 0 <= q < i && ks[q] == k)),
                forall|k: Seq<char>| crate::kv::kv_pending(&self.kv).contains_key(k)
                    ==> #[trigger] crate::kv::kv_pending(&self.kv)[k] == raw0[k],
            decreases n - i,
        {
            let ghost prevv = crate::kv::kv_pending(&self.kv);
            match self.kv.remove(entries[i].0.as_str()) {
                Ok(o) => o,
                Err(e) => {
                    self.kv.abort();
                    return Err(e);
                },
            };
            proof {
                assert(crate::kv::kv_pending(&self.kv) =~= prevv.remove(ks[i as int]));
                assert forall|k: Seq<char>| #[trigger] crate::kv::kv_pending(
                    &self.kv,
                ).contains_key(k) <==> (raw0.contains_key(k) && !(exists|q: int|
                    0 <= q < i + 1 && ks[q] == k)) by {
                    assert(prevv.contains_key(k) <==> (raw0.contains_key(k) && !(exists|q: int|
                        0 <= q < i && ks[q] == k)));
                    if raw0.contains_key(k) && !(exists|q: int| 0 <= q < i + 1 && ks[q] == k) {
                        assert(!(exists|q: int| 0 <= q < i && ks[q] == k));
                        assert(k != ks[i as int]);
                    }
                    if crate::kv::kv_pending(&self.kv).contains_key(k) {
                        if exists|q: int| 0 <= q < i + 1 && ks[q] == k {
                            let q = choose|q: int| 0 <= q < i + 1 && ks[q] == k;
                            assert(q == i ==> k == ks[i as int]);
                            assert(q < i ==> !prevv.contains_key(k));
                        }
                    }
                }
            }
            i = i + 1;
        }
        proof {
            assert forall|k: Seq<char>| !(#[trigger] crate::kv::kv_pending(&self.kv).contains_key(
                k,
            )) by {
                if crate::kv::kv_pending(&self.kv).contains_key(k) {
                    let w = choose|w: int| 0 <= w < entries@.len() && (#[trigger] entries@[w].0@)
                        == k;
                    assert(ks[w] == k);
                }
            }
            assert(crate::kv::kv_pending(&self.kv) =~= Map::<Seq<char>, Seq<char>>::empty());
            assert(ks.no_duplicates());
            ks.unique_seq_to_set();
            assert forall|a: Seq<char>| ks.to_set().contains(a) implies raw0.dom().contains(
                a,
            ) by {
                let q = choose|q: int| 0 <= q < ks.len() && ks[q] == a;
                assert(raw0.contains_key(entries@[q].0@));
            }
            assert forall|a: Seq<char>| raw0.dom().contains(a) implies ks.to_set().contains(
                a,
            ) by {
                let w = choose|w: int| 0 <= w < entries@.len() && (#[trigger] entries@[w].0@) == a;
                assert(ks[w] == a);
                assert(ks.contains(a));
            }
            assert(ks.to_set() =~= raw0.dom());
            assert(m0.dom() =~= raw0.dom());
            assert(records(Map::<Seq<char>, Seq<char>>::empty()) =~= Map::<
                Seq<char>,
                Seq<DefSpec>,
            >::empty());
        }
        match self.kv.commit() {
            Ok(u) => u,
            Err(e) => {
                return Err(e);
            },
        };
        Ok(n)
    }
}

/// What `removeScope` does to the records: under `name`, definitions whose
/// scope equals `sc` go away; a record left empty is deleted whole; a record
/// without such a definition, and an absent name, stay as they are.
pub open spec fn spec_remove_scope(
    m: Map<Seq<char>, Seq<DefSpec>>,
    name: Seq<char>,
    sc: ScopeSpec,
) -> Map<Seq<char>, Seq<DefSpec>> {
    if m.contains_key(name) {
        let kept = m[name].filter(keep_other_scopes(sc));
        if m[name].filter(keep_this_scope(sc)).len() == 0 {
            m
        } else if kept.len() == 0 {
            m.remove(name)
        } else {
            m.insert(name, kept)
        }
    } else {
        m
    }
}

impl Store {
    /// Removes exactly the definitions under `alias` whose scope equals the
    /// argument, in one committed transaction; deletes the record entirely
    /// when nothing remains. Returns the removed definition — the last one,
    /// should the stored list hold several with that scope — or `None` when
    /// the alias or the scope is absent, leaving the records unchanged.
    pub fn remove_scope_from_alias(&mut self, alias: &str, scope: &AliasScope) -> (r: Result<
        Option<AliasDefinition>,
        crate::error::AkaError,
    >)
        requires
            old(self).wf(),
        ensures
            final(self).wf(),
            r matches Ok(o) ==> match o {
                Some(d) => old(self).aliases().contains_key(alias@)
                    && old(self).aliases()[alias@].filter(keep_this_scope(scope@)).len() > 0
                    && d@ == old(self).aliases()[alias@].filter(keep_this_scope(scope@)).last()
                    && final(self).aliases() == spec_remove_scope(
                    old(self).aliases(),
                    alias@,
                    scope@,
                ),
                None => (!old(self).aliases().contains_key(alias@)
                    || old(self).aliases()[alias@].filter(keep_this_scope(scope@)).len() == 0)
                    && final(self).aliases() == old(self).aliases(),
            },
            r is Err ==> final(self).aliases() == old(self).aliases() || final(self).aliases()
                == spec_remove_scope(old(self).aliases(), alias@, scope@),
            r matches Err(e) ==> crate::error::is_storage_failure(e),
    {
        let ghost m0 = self.aliases();
        let ghost raw0 = crate::kv::kv_committed(&self.kv);
        match self.kv.begin_write() {
            Ok(u) => u,
            Err(e) => {
                return Err(e);
            },
        };
        let existing = match self.kv.get(alias) {
            Ok(o) => o,
            Err(e) => {
                self.kv.abort();
                return Err(e);
            },
        };
        let stored = match existing {
            Some(v) => v,
            None => {
                match self.kv.commit() {
                    Ok(u) => u,
                    Err(e) => {
                        return Err(e);
                    },
                };
                return Ok(None);
            },
        };
        let defs = crate::codec::decode_definitions(stored.as_str());
        let (kept, removed) = split_by_scope(&defs, scope);
        proof {
            assert(crate::codec::def_views(defs@) == m0[alias@]);
        }
        if removed.len() == 0 {
            match self.kv.commit() {
                Ok(u) => u,
                Err(e) => {
                    return Err(e);
                },
            };
            return Ok(None);
        }
        let last = removed[removed.len() - 1].clone();
        proof {
            assert(last@ == crate::codec::def_views(removed@)[removed@.len() - 1]);
        }
        if kept.len() == 0 {
            match self.kv.remove(alias) {
                Ok(o) => o,
                Err(e) => {
                    self.kv.abort();
                    return Err(e);
                },
            };
            proof {
                lemma_records_remove(raw0, alias@);
            }
        } else {
            let enc = crate::codec::encode_definitions(&kept);
            proof {
                crate::codec::lemma_decode_encode(crate::codec::def_views(kept@));
                lemma_records_insert(raw0, alias@, enc@);
            }
            match self.kv.insert(alias, enc.as_str()) {
                Ok(u) => u,
                Err(e) => {
                    self.kv.abort();
                    return Err(e);
                },
            };
        }
        match self.kv.commit() {
            Ok(u) => u,
            Err(e) => {
                return Err(e);
            },
        };
        Ok(Some(last))
    }
}

/// A list with no definition of scope `sc` is kept whole by the filter that
/// drops that scope.
proof fn lemma_filter_all(s: Seq<DefSpec>, sc: ScopeSpec)
    requires
        s.filter(keep_this_scope(sc)).len() == 0,
    ensures
        s.filter(keep_other_scopes(sc)) == s,
    decreases s.len(),
{
    reveal(Seq::filter);
    if s.len() == 0 {
        assert(s.filter(keep_other_scopes(sc)) =~= s);
    } else {
        let dl = s.drop_last();
        assert(s.filter(keep_this_scope(sc)).len() >= dl.filter(keep_this_scope(sc)).len());
        lemma_filter_all(dl, sc);
        assert(s =~= dl.push(s.last()));
        assert(s.filter(keep_other_scopes(sc)) =~= s);
    }
}

/// What `removeAllInScope` does to the records: every record loses its
/// definitions of scope `sc` (by exact scope equality); a record left empty
/// by that is deleted whole; the rest keep their remaining definitions.
pub open spec fn spec_remove_all_in_scope(m: Map<Seq<char>, Seq<DefSpec>>, sc: ScopeSpec) -> Map<
    Seq<char>,
    Seq<DefSpec>,
> {
    Map::new(
        |k: Seq<char>|
            m.contains_key(k) && (m[k].filter(keep_this_scope(sc)).len() == 0 || m[k].filter(
                keep_other_scopes(sc),
            ).len() > 0),
        |k: Seq<char>| m[k].filter(keep_other_scopes(sc)),
    )
}

/// The listing `es` is exactly what `removeAllInScope` removed from the
/// records `m`: every touched alias once, with the definitions of scope `sc`
/// it lost, and only aliases that held one.
pub open spec fn removed_entries_match(
    es: Seq<(String, Vec<AliasDefinition>)>,
    m: Map<Seq<char>, Seq<DefSpec>>,
    sc: ScopeSpec,
) -> bool {
    &&& forall|i: int| 0 <= i < es.len() ==> m.contains_key(#[trigger] es[i].0@)
        && crate::codec::def_views(es[i].1@) == m[es[i].0@].filter(keep_this_scope(sc))
        && m[es[i].0@].filter(keep_this_scope(sc)).len() > 0
    &&& forall|i: int, j: int| 0 <= i < j < es.len() ==> (#[trigger] es[i].0@) != (#[trigger] es[
        j
    ].0@)
    &&& forall|k: Seq<char>| m.contains_key(k) && m[k].filter(keep_this_scope(sc)).len() > 0
        ==> exists|i: int| 0 <= i < es.len() && (#[trigger] es[i].0@) == k
}

/// One record's state partway through `removeAllInScope`: processed records
/// hold their final stored value (rewritten, untouched, or gone), the rest
/// still hold their original one.
pub open spec fn sweep_entry(
    txn_m: Map<Seq<char>, Seq<char>>,
    raw0: Map<Seq<char>, Seq<char>>,
    ks: Seq<Seq<char>>,
    i: int,
    sc: ScopeSpec,
    k: Seq<char>,
) -> bool {
    if exists|q: int| 0 <= q < i && ks[q] == k {
        let dv = crate::codec::spec_decode(raw0[k]);
        if dv.filter(keep_this_scope(sc)).len() == 0 {
            txn_m.contains_key(k) && txn_m[k] == raw0[k]
        } else if dv.filter(keep_other_scopes(sc)).len() > 0 {
            txn_m.contains_key(k) && txn_m[k] == crate::codec::spec_encode(
                dv.filter(keep_other_scopes(sc)),
            )
        } else {
            !txn_m.contains_key(k)
        }
    } else {
        txn_m.contains_key(k) && txn_m[k] == raw0[k]
    }
}

impl Store {
    /// Removes, from every record, the definitions whose scope value-equals
    /// the argument — exact equality, not prefix containment — deleting any
    /// record left empty, all in one committed transaction. Returns the
    /// removed definitions keyed by alias name.
    #[verifier::rlimit(100)]
    pub fn remove_all_in_scope(&mut self, scope: &AliasScope) -> (r: Result<
        Vec<(String, Vec<AliasDefinition>)>,
        crate::error::AkaError,
    >)
        requires
            old(self).wf(),
        ensures
            final(self).wf(),
            r matches Ok(out) ==> removed_entries_match(out@, old(self).aliases(), scope@)
                && final(self).aliases() == spec_remove_all_in_scope(old(self).aliases(), scope@),
            r is Err ==> final(self).aliases() == old(self).aliases() || final(self).aliases()
                == spec_remove_all_in_scope(old(self).aliases(), scope@),
            r matches Err(e) ==> crate::error::is_storage_failure(e),
    {
        let ghost m0 = self.aliases();
        let ghost raw0 = crate::kv::kv_committed(&self.kv);
        match self.kv.begin_write() {
            Ok(u) => u,
            Err(e) => {
                return Err(e);
            },
        };
        let entries = match self.kv.list_pending() {
            Ok(es) => es,
            Err(e) => {
                self.kv.abort();
                return Err(e);
            },
        };
        let ghost ks = Seq::new(entries@.len(), |q: int| entries@[q].0@);
        let mut out: Vec<(String, Vec<AliasDefinition>)> = Vec::new();
        let n = entries.len();
        let mut i: usize = 0;
        while i < n
            invariant
                n == entries@.len(),
                i <= n,
                crate::kv::entries_match(entries@, raw0),
                ks == Seq::new(entries@.len(), |q: int| entries@[q].0@),
                m0 == records(raw0),
                crate::kv::kv_open(&self.kv),
                crate::kv::kv_committed(&self.kv) == raw0,
                old(self).aliases() == records(raw0),
                forall|k: Seq<char>| #[trigger] crate::kv::kv_pending(&self.kv).contains_key(k)
                    ==> raw0.contains_key(k),
                forall|k: Seq<char>| raw0.contains_key(k) ==> #[trigger] sweep_entry(
                    crate::kv::kv_pending(&self.kv),
                    raw0,
                    ks,
                    i as int,
                    scope@,
                    k,
                ),
                forall|a: int, b: int| 0 <= a < b < out@.len() ==> (#[trigger] out@[a].0@)
                    != (#[trigger] out@[b].0@),
                forall|j: int| 0 <= j < out@.len() ==> (exists|q: int|
                    0 <= q < i && ks[q] == (#[trigger] out@[j].0@)) && raw0.contains_key(
                    out@[j].0@,
                ) && crate::codec::def_views(out@[j].1@) == m0[out@[j].0@].filter(
                    keep_this_scope(scope@),
                ) && m0[out@[j].0@].filter(keep_this_scope(scope@)).len() > 0,
                forall|q: int| 0 <= q < i && m0[#[trigger] ks[q]].filter(
                    keep_this_scope(scope@),
                ).len() > 0 ==> exists|j: int| 0 <= j < out@.len() && (#[trigger] out@[j].0@)
                    == ks[q],
            decreases n - i,
        {
            let name = entries[i].0.clone();
            let defs = crate::codec::decode_definitions(entries[i].1.as_str());
            let (kept, removed) = split_by_scope(&defs, scope);
            let ghost kk = ks[i as int];
            let ghost dv = crate::codec::spec_decode(raw0[kk]);
            let ghost remv = crate::codec::def_views(removed@);
            let ghost keptv = crate::codec::def_views(kept@);
            proof {
                assert(raw0.contains_key(kk));
                assert(sweep_entry(crate::kv::kv_pending(&self.kv), raw0, ks, i as int, scope@, kk));
                assert(crate::kv::kv_pending(&self.kv)[kk] == raw0[kk]);
                assert(crate::codec::def_views(defs@) == dv);
                assert(dv == m0[kk]);
                assert(remv == dv.filter(keep_this_scope(scope@)));
                assert(keptv == dv.filter(keep_other_scopes(scope@)));
            }
            let ghost prevv = crate::kv::kv_pending(&self.kv);
            let ghost out0 = out@;
            let pushed = removed.len() > 0;
            if pushed {
                if kept.len() == 0 {
                    match self.kv.remove(entries[i].0.as_str()) {
                        Ok(o) => o,
                        Err(e) => {
                            self.kv.abort();
                            return Err(e);
                        },
                    };
                    proof {
                        assert(crate::kv::kv_pending(&self.kv) =~= prevv.remove(kk));
                    }
                } else {
                    let enc = crate::codec::encode_definitions(&kept);
                    proof {
                        crate::codec::lemma_decode_encode(keptv);
                        assert(crate::codec::spec_decode(enc@) == keptv);
                    }
                    match self.kv.insert(entries[i].0.as_str(), enc.as_str()) {
                        Ok(u) => u,
                        Err(e) => {
                            self.kv.abort();
                            return Err(e);
                        },
                    };
                    proof {
                        assert(crate::kv::kv_pending(&self.kv) =~= prevv.insert(kk, enc@));
                    }
                }
                out.push((name, removed));
                proof {
                    assert(out@ == out0.push((out@[out0.len() as int].0, out@[out0.len() as int].1)));
                    assert(out@[out0.len() as int].0@ == kk);
                    assert(crate::codec::def_views(out@[out0.len() as int].1@) == remv);
                }
            }
            proof {
                assert forall|k: Seq<char>| raw0.contains_key(k) implies #[trigger] sweep_entry(
                    crate::kv::kv_pending(&self.kv),
                    raw0,
                    ks,
                    i + 1,
                    scope@,
                    k,
                ) by {
                    assert(sweep_entry(prevv, raw0, ks, i as int, scope@, k));
                    if k == kk {
                        assert(exists|q: int| 0 <= q < i + 1 && ks[q] == k) by {
                            assert(ks[i as int] == k);
                        }
                        if remv.len() == 0 {
                            assert(crate::kv::kv_pending(&self.kv).contains_key(kk) && crate::kv::kv_pending(
                                &self.kv,
                            )[kk] == raw0[kk]);
                        } else if keptv.len() > 0 {
                            assert(crate::kv::kv_pending(&self.kv).contains_key(kk) && crate::kv::kv_pending(
                                &self.kv,
                            )[kk] == crate::codec::spec_encode(dv.filter(keep_other_scopes(scope@))));
                        } else {
                            assert(!crate::kv::kv_pending(&self.kv).contains_key(kk));
                        }
                    } else {
                        assert((exists|q: int| 0 <= q < i + 1 && ks[q] == k) <==> (exists|q: int|
                            0 <= q < i && ks[q] == k)) by {
                            if exists|q: int| 0 <= q < i + 1 && ks[q] == k {
                                let q = choose|q: int| 0 <= q < i + 1 && ks[q] == k;
                                assert(q != i);
                            }
                        }
                        assert(crate::kv::kv_pending(&self.kv).contains_key(k) <==> prevv.contains_key(
                            k,
                        ));
                        assert(prevv.contains_key(k) ==> crate::kv::kv_pending(&self.kv)[k] == prevv[k]);
                    }
                }
                assert forall|q: int|
                    0 <= q < i + 1 && m0[#[trigger] ks[q]].filter(keep_this_scope(scope@)).len()
                        > 0 implies exists|j: int|
                    0 <= j < out@.len() && (#[trigger] out@[j].0@) == ks[q] by {
                    if q < i {
                        let j = choose|j: int| 0 <= j < out0.len() && (#[trigger] out0[j].0@)
                            == ks[q];
                        assert(out@[j].0@ == ks[q]);
                    } else {
                        assert(remv.len() > 0);
                        assert(out@[out0.len() as int].0@ == kk);
                    }
                }
            }
            i = i + 1;
        }
        proof {
            assert forall|k: Seq<char>|
                #![trigger records(crate::kv::kv_pending(&self.kv)).contains_key(k)]
                #![trigger spec_remove_all_in_scope(m0, scope@).contains_key(k)]
                true implies {
                let lhs = records(crate::kv::kv_pending(&self.kv));
                let rhs = spec_remove_all_in_scope(m0, scope@);
                (lhs.contains_key(k) <==> rhs.contains_key(k)) && (lhs.contains_key(k)
                    ==> lhs[k] == rhs[k])
            } by {
                if raw0.contains_key(k) {
                    let w = choose|w: int|
                        0 <= w < entries@.len() && (#[trigger] entries@[w].0@) == k;
                    assert(ks[w] == k);
                    assert(sweep_entry(crate::kv::kv_pending(&self.kv), raw0, ks, n as int, scope@, k));
                    let dv = crate::codec::spec_decode(raw0[k]);
                    assert(dv == m0[k]);
                    if dv.filter(keep_this_scope(scope@)).len() == 0 {
                        lemma_filter_all(dv, scope@);
                    } else if dv.filter(keep_other_scopes(scope@)).len() > 0 {
                        crate::codec::lemma_decode_encode(dv.filter(keep_other_scopes(scope@)));
                    }
                } else {
                    if crate::kv::kv_pending(&self.kv).contains_key(k) {
                        assert(raw0.contains_key(k));
                    }
                }
            }
            assert(records(crate::kv::kv_pending(&self.kv)) =~= spec_remove_all_in_scope(m0, scope@));
        }
        match self.kv.commit() {
            Ok(u) => u,
            Err(e) => {
                return Err(e);
            },
        };
        proof {
            assert forall|k: Seq<char>| m0.contains_key(k) && m0[k].filter(
                keep_this_scope(scope@),
            ).len() > 0 implies exists|j: int|
                0 <= j < out@.len() && (#[trigger] out@[j].0@) == k by {
                let w = choose|w: int| 0 <= w < entries@.len() && (#[trigger] entries@[w].0@) == k;
                assert(ks[w] == k);
                assert(m0[ks[w]].filter(keep_this_scope(scope@)).len() > 0);
            }
        }
        Ok(out)
    }
}

/// The listing `es` is exactly the record table `m`: every listed record is
/// stored with those definitions, no alias is listed twice, and every stored
/// alias is listed.
pub open spec fn alias_entries_match(
    es: Seq<(String, Vec<AliasDefinition>)>,
    m: Map<Seq<char>, Seq<DefSpec>>,
) -> bool {
    &&& forall|i: int| 0 <= i < es.len() ==> m.contains_key(#[trigger] es[i].0@) && crate::codec::def_views(
        es[i].1@,
    ) == m[es[i].0@]
    &&& forall|i: int, j: int| 0 <= i < j < es.len() ==> (#[trigger] es[i].0@) != (#[trigger] es[
        j
    ].0@)
    &&& forall|k: Seq<char>| m.contains_key(k) ==> exists|i: int|
        0 <= i < es.len() && (#[trigger] es[i].0@) == k
    &&& m.dom().finite()
}

} // verus!
