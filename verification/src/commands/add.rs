//! Adding one alias definition: builds the scope from an optional, already
//! canonicalized directory path and persists the definition.

use vstd::prelude::*;
use crate::store::{AliasScope, ScopeSpec, Store, spec_add};
use crate::error::AkaError;

verus! {

/// The scope an add request denotes: global without a path, otherwise the
/// given canonicalized directory, as a subtree when `recursive` is set.
pub open spec fn requested_scope(scope: Option<String>, recursive: bool) -> ScopeSpec {
    match scope {
        None => ScopeSpec::Global,
        Some(p) => if recursive {
            ScopeSpec::Recursive(p@)
        } else {
            ScopeSpec::Exact(p@)
        },
    }
}

/// The confirmation an add reports.
pub open spec fn added_message(alias: Seq<char>, command: Seq<char>) -> Seq<char> {
    "Added alias '"@ + (alias + ("' for '"@ + (command + "'\n(Reload shell to apply)"@)))
}

/// Adds one definition under `alias`. `scope` is the directory the
/// definition is bound to, already resolved to an absolute, canonicalized
/// path, or `None` for a global definition.
pub fn handle_add_command(
    store: &mut Store,
    alias: String,
    command: String,
    scope: Option<String>,
    recursive: bool,
) -> (r: Result<String, AkaError>)
    requires
        old(store).wf(),
    ensures
        final(store).wf(),
        r matches Ok(msg) ==> final(store).aliases() == spec_add(
            old(store).aliases(),
            alias@,
            command@,
            requested_scope(scope, recursive),
        ) && msg@ == added_message(alias@, command@),
        r is Err ==> final(store).aliases() == old(store).aliases() || final(store).aliases()
            == spec_add(old(store).aliases(), alias@, command@, requested_scope(scope, recursive)),
        r matches Err(e) ==> crate::error::is_storage_failure(e),
{
    let sc = match scope {
        Some(d) => {
            if recursive {
                AliasScope::Recursive(d)
            } else {
                AliasScope::Exact(d)
            }
        },
        None => AliasScope::Global,
    };
    match store.add(alias.clone(), command.clone(), sc) {
        Ok(u) => u,
        Err(e) => {
            return Err(e);
        },
    };
    let mut msg: Vec<char> = Vec::new();
    crate::text::push_chars("Added alias '", &mut msg);
    crate::text::push_chars(alias.as_str(), &mut msg);
    crate::text::push_chars("' for '", &mut msg);
    crate::text::push_chars(command.as_str(), &mut msg);
    crate::text::push_chars("'\n(Reload shell to apply)", &mut msg);
    proof {
        assert(msg@ =~= added_message(alias@, command@));
    }
    Ok(crate::text::chars_to_string(&msg))
}

} // verus!
