//! Shell-source generation: the bootstrap hook, and dump mode, which renders
//! every stored alias as a shell function with directory-sensitive routing.
//! Includes the quoting-aware scanner that decides whether a command already
//! consumes shell arguments, and the placeholder rewriter.

use vstd::prelude::*;
use crate::store::{AliasDefinition, AliasScope, DefSpec, ScopeSpec, Store};
use crate::text::is_digit;

verus! {

// ---------------------------------------------------------------------------
// Placeholder rewriting
// ---------------------------------------------------------------------------
/// The placeholder rewrite: every `@` immediately followed by a digit becomes
/// `$`; the digit itself, and everything else, stands unchanged. The
/// substitution is textual and ignores quoting.
pub open spec fn rewrite_placeholders(s: Seq<char>) -> Seq<char>
    decreases s.len(),
{
    if s.len() == 0 {
        Seq::empty()
    } else if s[0] == '@' && s.len() > 1 && is_digit(s[1]) {
        seq!['$'] + rewrite_placeholders(s.skip(1))
    } else {
        seq![s[0]] + rewrite_placeholders(s.skip(1))
    }
}

/// Rewrites `@N` placeholders to `$N` positional parameters.
pub fn replace_placeholders(command: &str) -> (r: String)
    ensures
        r@ == rewrite_placeholders(command@),
{
    let v = crate::text::str_to_chars(command);
    let n = v.len();
    let mut out: Vec<char> = Vec::new();
    let mut i: usize = 0;
    proof {
        assert(command@.skip(0) =~= command@);
        assert(out@ =~= Seq::<char>::empty());
    }
    while i < n
        invariant
            v@ == command@,
            n == command@.len(),
            i <= n,
            rewrite_placeholders(command@) == out@ + rewrite_placeholders(command@.skip(i as int)),
        decreases n - i,
    {
        let ghost rest = command@.skip(i as int);
        proof {
            assert(rest[0] == command@[i as int]);
            assert(rest.len() > 1 ==> rest[1] == command@[i + 1]);
            assert(rest.skip(1) =~= command@.skip(i + 1));
        }
        let c = v[i];
        if c == '@' && i + 1 < n && crate::text::digit_check(v[i + 1]) {
            out.push('$');
            proof {
                assert(out@ + rewrite_placeholders(command@.skip(i + 1)) =~= (out@.drop_last()
                    + (seq!['$'] + rewrite_placeholders(rest.skip(1)))));
            }
        } else {
            out.push(c);
            proof {
                assert(out@ + rewrite_placeholders(command@.skip(i + 1)) =~= (out@.drop_last()
                    + (seq![rest[0]] + rewrite_placeholders(rest.skip(1)))));
            }
        }
        i = i + 1;
    }
    proof {
        assert(command@.skip(n as int) =~= Seq::<char>::empty());
        assert(out@ + Seq::<char>::empty() =~= out@);
    }
    crate::text::chars_to_string(&out)
}

// ---------------------------------------------------------------------------
// Positional-argument detection
// ---------------------------------------------------------------------------
/// The scanner's quoting state: outside quotes, inside single quotes, or
/// inside double quotes. The escape state is folded into the scan itself,
/// which consumes the escaped character together with the backslash.
pub enum QuoteState {
    Normal,
    Single,
    Double,
}

/// A positional parameter digit or one of the special parameters `@ * #`.
pub open spec fn is_param_char(c: char) -> bool {
    is_digit(c) || c == '@' || c == '*' || c == '#'
}

/// Executable mirror of [`is_param_char`].
pub fn param_char_check(c: char) -> (r: bool)
    ensures
        r == is_param_char(c),
{
    crate::text::digit_check(c) || c == '@' || c == '*' || c == '#'
}

/// The rest of a brace lookahead from `k`: parameter characters up to a
/// closing brace.
pub open spec fn brace_rest(s: Seq<char>, k: int) -> bool
    decreases s.len() - k,
{
    if k < 0 || k >= s.len() {
        false
    } else if s[k] == '}' {
        true
    } else if is_param_char(s[k]) {
        brace_rest(s, k + 1)
    } else {
        false
    }
}

/// A brace lookahead from `k` (the position right after `${`): a nonempty
/// run of parameter characters closed by `}`.
pub open spec fn brace_match(s: Seq<char>, k: int) -> bool {
    0 <= k < s.len() && is_param_char(s[k]) && brace_rest(s, k + 1)
}

/// A `$` at `i` that references a positional or special parameter: the next
/// character is a digit or one of `@ * #`, or opens a matching `${...}` form.
pub open spec fn dollar_hit(s: Seq<char>, i: int) -> bool {
    i + 1 < s.len() && (is_param_char(s[i + 1]) || (s[i + 1] == '{' && brace_match(s, i + 2)))
}

/// The quoting-aware scan from position `i` in state `st`: true when an
/// unquoted or double-quoted `$` ahead references a positional or special
/// parameter. A backslash outside single quotes consumes the next character;
/// inside single quotes nothing is interpreted but the closing quote.
pub open spec fn scan_args(s: Seq<char>, i: int, st: QuoteState) -> bool
    decreases s.len() - i,
{
    if i < 0 || i >= s.len() {
        false
    } else {
        let c = s[i];
        match st {
            QuoteState::Single => {
                if c == '\'' {
                    scan_args(s, i + 1, QuoteState::Normal)
                } else {
                    scan_args(s, i + 1, QuoteState::Single)
                }
            },
            QuoteState::Normal => {
                if c == '\\' {
                    if i + 1 < s.len() {
                        scan_args(s, i + 2, QuoteState::Normal)
                    } else {
                        false
                    }
                } else if c == '\'' {
                    scan_args(s, i + 1, QuoteState::Single)
                } else if c == '"' {
                    scan_args(s, i + 1, QuoteState::Double)
                } else if c == '$' {
                    if dollar_hit(s, i) {
                        true
                    } else {
                        scan_args(s, i + 1, QuoteState::Normal)
                    }
                } else {
                    scan_args(s, i + 1, QuoteState::Normal)
                }
            },
            QuoteState::Double => {
                if c == '\\' {
                    if i + 1 < s.len() {
                        scan_args(s, i + 2, QuoteState::Double)
                    } else {
                        false
                    }
                } else if c == '"' {
                    scan_args(s, i + 1, QuoteState::Normal)
                } else if c == '$' {
                    if dollar_hit(s, i) {
                        true
                    } else {
                        scan_args(s, i + 1, QuoteState::Double)
                    }
                } else {
                    scan_args(s, i + 1, QuoteState::Double)
                }
            },
        }
    }
}

/// Whether a command string already references shell positional or special
/// parameters, honouring quoting: a reference inside single quotes does not
/// count, unquoted or inside double quotes it does.
pub open spec fn uses_positional_args(s: Seq<char>) -> bool {
    scan_args(s, 0, QuoteState::Normal)
}

/// Checks a brace lookahead starting at `k`.
fn brace_check(v: &Vec<char>, k: usize) -> (r: bool)
    ensures
        r == brace_match(v@, k as int),
{
    if k >= v.len() || !param_char_check(v[k]) {
        return false;
    }
    let n = v.len();
    let mut j: usize = k + 1;
    while j < n
        invariant
            n == v@.len(),
            k + 1 <= j <= n,
            brace_match(v@, k as int) == brace_rest(v@, j as int),
        decreases n - j,
    {
        let c = v[j];
        if c == '}' {
            return true;
        }
        if !param_char_check(c) {
            return false;
        }
        j = j + 1;
    }
    false
}

/// Decides whether `command` already uses shell positional or special
/// parameters, with quote awareness.
pub fn has_positional_args(command: &str) -> (r: bool)
    ensures
        r == uses_positional_args(command@),
{
    let v = crate::text::str_to_chars(command);
    let n = v.len();
    let mut i: usize = 0;
    let mut st = QuoteState::Normal;
    while i < n
        invariant
            v@ == command@,
            n == command@.len(),
            i <= n,
            uses_positional_args(command@) == scan_args(command@, i as int, st),
        decreases n - i,
    {
        let c = v[i];
        match st {
            QuoteState::Single => {
                if c == '\'' {
                    st = QuoteState::Normal;
                }
                i = i + 1;
            },
            QuoteState::Normal => {
                if c == '\\' {
                    if i + 1 < n {
                        i = i + 2;
                    } else {
                        return false;
                    }
                } else if c == '\'' {
                    st = QuoteState::Single;
                    i = i + 1;
                } else if c == '"' {
                    st = QuoteState::Double;
                    i = i + 1;
                } else if c == '$' {
                    if i + 1 < n && (param_char_check(v[i + 1]) || (v[i + 1] == '{' && brace_check(
                        &v,
                        i + 2,
                    ))) {
                        return true;
                    }
                    i = i + 1;
                } else {
                    i = i + 1;
                }
            },
            QuoteState::Double => {
                if c == '\\' {
                    if i + 1 < n {
                        i = i + 2;
                    } else {
                        return false;
                    }
                } else if c == '"' {
                    st = QuoteState::Normal;
                    i = i + 1;
                } else if c == '$' {
                    if i + 1 < n && (param_char_check(v[i + 1]) || (v[i + 1] == '{' && brace_check(
                        &v,
                        i + 2,
                    ))) {
                        return true;
                    }
                    i = i + 1;
                } else {
                    i = i + 1;
                }
            },
        }
    }
    false
}

/// The forward-all-arguments suffix appended to a command that does not
/// consume its arguments itself.
pub open spec fn suffix_all_args() -> Seq<char> {
    seq![' ', '"', '$', '@', '"']
}

/// A command body ready for emission: placeholders rewritten, and the
/// forward-all-arguments suffix appended exactly when the rewritten command
/// does not already use shell parameters.
pub open spec fn spec_prepare(cmd: Seq<char>) -> Seq<char> {
    let rw = rewrite_placeholders(cmd);
    if uses_positional_args(rw) {
        rw
    } else {
        rw + suffix_all_args()
    }
}

/// Prepares one command body for emission.
pub fn prepare_command_body(command: &str) -> (r: String)
    ensures
        r@ == spec_prepare(command@),
{
    let rewritten = replace_placeholders(command);
    if has_positional_args(rewritten.as_str()) {
        rewritten
    } else {
        let mut out = crate::text::str_to_chars(rewritten.as_str());
        crate::text::push_chars(" \"$@\"", &mut out);
        proof {
            reveal_strlit(" \"$@\"");
            assert(" \"$@\""@ =~= suffix_all_args());
        }
        crate::text::chars_to_string(&out)
    }
}

} // verus!

verus! {

// ---------------------------------------------------------------------------
// Precedence ordering
// ---------------------------------------------------------------------------
/// The emission rank of a scope: exact-directory rules come first, then
/// subtree rules, then the global default.
pub open spec fn scope_rank(sc: ScopeSpec) -> int {
    match sc {
        ScopeSpec::Exact(_) => 0,
        ScopeSpec::Recursive(_) => 1,
        ScopeSpec::Global => 2,
    }
}

/// The path length a scope is ordered by within its rank.
pub open spec fn scope_path_len(sc: ScopeSpec) -> int {
    match sc {
        ScopeSpec::Exact(p) => p.len() as int,
        ScopeSpec::Recursive(p) => p.len() as int,
        ScopeSpec::Global => 0,
    }
}

/// Emission precedence: `a` may stand before `b` when its rank is lower, or,
/// within one rank, when its path is at least as long — a more specific
/// subtree is tested before a shallower enclosing one.
pub open spec fn prec_le(a: DefSpec, b: DefSpec) -> bool {
    scope_rank(a.scope) < scope_rank(b.scope) || (scope_rank(a.scope) == scope_rank(b.scope)
        && scope_path_len(a.scope) >= scope_path_len(b.scope))
}

/// A definition list in emission order.
pub open spec fn sorted_by_precedence(s: Seq<DefSpec>) -> bool {
    forall|i: int, j: int| 0 <= i < j < s.len() ==> prec_le(#[trigger] s[i], #[trigger] s[j])
}

/// Executable mirror of [`prec_le`].
fn prec_le_check(a: &AliasDefinition, b: &AliasDefinition) -> (r: bool)
    ensures
        r == prec_le(a@, b@),
{
    let ra: u8 = match &a.scope {
        AliasScope::Exact(_) => 0,
        AliasScope::Recursive(_) => 1,
        AliasScope::Global => 2,
    };
    let rb: u8 = match &b.scope {
        AliasScope::Exact(_) => 0,
        AliasScope::Recursive(_) => 1,
        AliasScope::Global => 2,
    };
    if ra != rb {
        return ra < rb;
    }
    let la: usize = match &a.scope {
        AliasScope::Exact(p) => p.as_str().unicode_len(),
        AliasScope::Recursive(p) => p.as_str().unicode_len(),
        AliasScope::Global => 0,
    };
    let lb: usize = match &b.scope {
        AliasScope::Exact(p) => p.as_str().unicode_len(),
        AliasScope::Recursive(p) => p.as_str().unicode_len(),
        AliasScope::Global => 0,
    };
    la >= lb
}

/// Sorts definitions into emission order: exact scopes before subtree scopes
/// before the global one, longer paths first within a rank. The result is a
/// permutation of the input.
pub fn sort_definitions(defs: Vec<AliasDefinition>) -> (r: Vec<AliasDefinition>)
    ensures
        sorted_by_precedence(crate::codec::def_views(r@)),
        crate::codec::def_views(r@).to_multiset() == crate::codec::def_views(defs@).to_multiset(),
{
    broadcast use vstd::seq_lib::group_to_multiset_ensures;

    let ghost all = crate::codec::def_views(defs@);
    let mut work = defs;
    let mut out: Vec<AliasDefinition> = Vec::new();
    while work.len() > 0
        invariant
            crate::codec::def_views(out@).to_multiset().add(
                crate::codec::def_views(work@).to_multiset(),
            ) == all.to_multiset(),
            sorted_by_precedence(crate::codec::def_views(out@)),
            forall|x: int, y: int|
                0 <= x < out@.len() && 0 <= y < work@.len() ==> prec_le(
                    #[trigger] out@[x]@,
                    #[trigger] work@[y]@,
                ),
        decreases work.len(),
    {
        let n = work.len();
        let mut mi: usize = 0;
        let mut j: usize = 1;
        while j < n
            invariant
                n == work@.len(),
                mi < j <= n,
                forall|q: int| 0 <= q < j ==> prec_le(work@[mi as int]@, #[trigger] work@[q]@),
            decreases n - j,
        {
            if !prec_le_check(&work[mi], &work[j]) {
                proof {
                    assert forall|q: int| 0 <= q < j + 1 implies prec_le(
                        work@[j as int]@,
                        #[trigger] work@[q]@,
                    ) by {
                        assert(prec_le(work@[mi as int]@, work@[q]@) || q == j);
                    }
                }
                mi = j;
            }
            j = j + 1;
        }
        let ghost workv0 = crate::codec::def_views(work@);
        let picked = work.remove(mi);
        proof {
            assert(workv0.len() == n);
            assert(picked@ == workv0[mi as int]);
            vstd::seq_lib::to_multiset_remove::<DefSpec>(workv0, mi as int);
            vstd::seq_lib::to_multiset_contains::<DefSpec>(workv0, picked@);
            assert(workv0.contains(picked@));
            assert(crate::codec::def_views(work@) =~= workv0.remove(mi as int));
            assert(workv0.remove(mi as int).to_multiset() =~= workv0.to_multiset().remove(
                picked@,
            ));
            assert(workv0.to_multiset().contains(picked@));
        }
        let ghost outv0 = crate::codec::def_views(out@);
        out.push(picked);
        proof {
            assert(crate::codec::def_views(out@) =~= outv0.push(picked@));
            vstd::seq_lib::to_multiset_build::<DefSpec>(outv0, picked@);
            assert(crate::codec::def_views(out@).to_multiset() =~= outv0.to_multiset().insert(
                picked@,
            ));
            assert(crate::codec::def_views(out@).to_multiset().add(
                crate::codec::def_views(work@).to_multiset(),
            ) =~= all.to_multiset());
            assert forall|x: int, y: int|
                0 <= x < out@.len() && 0 <= y < work@.len() implies prec_le(
                #[trigger] out@[x]@,
                #[trigger] work@[y]@,
            ) by {
                if x < out@.len() - 1 {
                    assert(prec_le(outv0[x], workv0[if y < mi { y } else { y + 1 }]));
                } else {
                    assert(prec_le(workv0[mi as int], workv0[if y < mi { y } else { y + 1 }]));
                }
            }
        }
    }
    out
}

} // verus!

verus! {

// ---------------------------------------------------------------------------
// Dump-mode rendering
// ---------------------------------------------------------------------------
/// One `if`/`elif` branch testing the current directory, with its command
/// body: an exact test, or a prefix test when `star` is set.
pub open spec fn cond_branch_text(ifs: bool, p: Seq<char>, body: Seq<char>, star: bool) -> Seq<
    char,
> {
    "    "@ + ((if ifs {
        "elif"@
    } else {
        "if"@
    }) + (" [[ \"$current_dir\" == \""@ + (p + ((if star {
        "\"* ]]; then\n"@
    } else {
        "\" ]]; then\n"@
    }) + ("        "@ + (body + "\n"@))))))
}

/// The global definition's branch: the final `else` when a chain is open,
/// else the sole bare body.
pub open spec fn global_branch_text(ifs: bool, body: Seq<char>) -> Seq<char> {
    (if ifs {
        "    else\n"@
    } else {
        Seq::<char>::empty()
    }) + ("        "@ + (body + "\n"@))
}

/// The close of one alias function: a fall-through to the unaliased command
/// when no global definition exists, the `fi` when a chain was opened, and
/// the closing brace.
pub open spec fn close_text(name: Seq<char>, ifs: bool, hg: bool) -> Seq<char> {
    (if !hg {
        (if ifs {
            "    else\n"@
        } else {
            Seq::<char>::empty()
        }) + ("        command "@ + (name + " \"$@\"\n"@))
    } else {
        Seq::<char>::empty()
    }) + ((if ifs {
        "    fi\n"@
    } else {
        Seq::<char>::empty()
    }) + "}\n"@)
}

/// The guards and header that open one alias function.
pub open spec fn header_text(name: Seq<char>) -> Seq<char> {
    "unalias "@ + (name + (" 2>/dev/null; unset -f "@ + (name + (" 2>/dev/null\n"@ + (name
        + "() {\n    local current_dir=\"$PWD\"\n"@)))))
}

/// The branches of one alias function from index `i` on, given whether a
/// conditional chain is open and whether a global definition was seen,
/// followed by the function's close.
pub open spec fn branch_tail(
    name: Seq<char>,
    defs: Seq<DefSpec>,
    i: int,
    if_started: bool,
    has_global: bool,
) -> Seq<char>
    decreases defs.len() - i,
{
    if i < 0 || i >= defs.len() {
        close_text(name, if_started, has_global)
    } else {
        match defs[i].scope {
            ScopeSpec::Exact(p) => cond_branch_text(
                if_started,
                p,
                spec_prepare(defs[i].command),
                false,
            ) + branch_tail(name, defs, i + 1, true, has_global),
            ScopeSpec::Recursive(p) => cond_branch_text(
                if_started,
                p,
                spec_prepare(defs[i].command),
                true,
            ) + branch_tail(name, defs, i + 1, true, has_global),
            ScopeSpec::Global => global_branch_text(if_started, spec_prepare(defs[i].command))
                + branch_tail(name, defs, i + 1, if_started, true),
        }
    }
}

/// One alias rendered as a shell function: guards clearing any previous
/// binding of the name, the function header, and its branches in the order
/// the definition list gives them.
pub open spec fn spec_render_alias(name: Seq<char>, defs: Seq<DefSpec>) -> Seq<char> {
    header_text(name) + branch_tail(name, defs, 0, false, false)
}

/// Emits one directory-test branch.
fn emit_cond_branch(out: &mut Vec<char>, ifs: bool, p: &str, body: &str, star: bool)
    ensures
        final(out)@ == old(out)@ + cond_branch_text(ifs, p@, body@, star),
{
    crate::text::push_chars("    ", out);
    if ifs {
        crate::text::push_chars("elif", out);
    } else {
        crate::text::push_chars("if", out);
    }
    crate::text::push_chars(" [[ \"$current_dir\" == \"", out);
    crate::text::push_chars(p, out);
    if star {
        crate::text::push_chars("\"* ]]; then\n", out);
    } else {
        crate::text::push_chars("\" ]]; then\n", out);
    }
    crate::text::push_chars("        ", out);
    crate::text::push_chars(body, out);
    crate::text::push_chars("\n", out);
    proof {
        assert(out@ =~= old(out)@ + cond_branch_text(ifs, p@, body@, star));
    }
}

/// Emits the global definition's branch.
fn emit_global_branch(out: &mut Vec<char>, ifs: bool, body: &str)
    ensures
        final(out)@ == old(out)@ + global_branch_text(ifs, body@),
{
    if ifs {
        crate::text::push_chars("    else\n", out);
    }
    crate::text::push_chars("        ", out);
    crate::text::push_chars(body, out);
    crate::text::push_chars("\n", out);
    proof {
        assert(out@ =~= old(out)@ + global_branch_text(ifs, body@));
    }
}

/// Emits the close of one alias function.
fn emit_close(out: &mut Vec<char>, name: &str, ifs: bool, hg: bool)
    ensures
        final(out)@ == old(out)@ + close_text(name@, ifs, hg),
{
    if !hg {
        if ifs {
            crate::text::push_chars("    else\n", out);
        }
        crate::text::push_chars("        command ", out);
        crate::text::push_chars(name, out);
        crate::text::push_chars(" \"$@\"\n", out);
    }
    if ifs {
        crate::text::push_chars("    fi\n", out);
    }
    crate::text::push_chars("}\n", out);
    proof {
        assert(out@ =~= old(out)@ + close_text(name@, ifs, hg));
    }
}

/// Emits the guards and header that open one alias function.
fn emit_header(out: &mut Vec<char>, name: &str)
    ensures
        final(out)@ == old(out)@ + header_text(name@),
{
    crate::text::push_chars("unalias ", out);
    crate::text::push_chars(name, out);
    crate::text::push_chars(" 2>/dev/null; unset -f ", out);
    crate::text::push_chars(name, out);
    crate::text::push_chars(" 2>/dev/null\n", out);
    crate::text::push_chars(name, out);
    crate::text::push_chars("() {\n    local current_dir=\"$PWD\"\n", out);
    proof {
        assert(out@ =~= old(out)@ + header_text(name@));
    }
}

/// Renders one alias into `out`.
fn render_alias(name: &str, sorted: &Vec<AliasDefinition>, out: &mut Vec<char>)
    ensures
        final(out)@ == old(out)@ + spec_render_alias(name@, crate::codec::def_views(sorted@)),
{
    let ghost vs = crate::codec::def_views(sorted@);
    emit_header(out, name);
    let n = sorted.len();
    let mut i: usize = 0;
    let mut if_started = false;
    let mut has_global = false;
    while i < n
        invariant
            n == sorted@.len(),
            i <= n,
            vs == crate::codec::def_views(sorted@),
            out@ + branch_tail(name@, vs, i as int, if_started, has_global) == old(out)@
                + spec_render_alias(name@, vs),
        decreases n - i,
    {
        let ghost out0 = out@;
        let prepared = prepare_command_body(sorted[i].command.as_str());
        proof {
            assert(vs[i as int] == sorted@[i as int]@);
        }
        match &sorted[i].scope {
            AliasScope::Exact(p) => {
                emit_cond_branch(out, if_started, p.as_str(), prepared.as_str(), false);
                proof {
                    assert(out@ + branch_tail(name@, vs, i + 1, true, has_global) =~= out0
                        + branch_tail(name@, vs, i as int, if_started, has_global));
                }
                if_started = true;
            },
            AliasScope::Recursive(p) => {
                emit_cond_branch(out, if_started, p.as_str(), prepared.as_str(), true);
                proof {
                    assert(out@ + branch_tail(name@, vs, i + 1, true, has_global) =~= out0
                        + branch_tail(name@, vs, i as int, if_started, has_global));
                }
                if_started = true;
            },
            AliasScope::Global => {
                emit_global_branch(out, if_started, prepared.as_str());
                proof {
                    assert(out@ + branch_tail(name@, vs, i + 1, if_started, true) =~= out0
                        + branch_tail(name@, vs, i as int, if_started, has_global));
                }
                has_global = true;
            },
        }
        i = i + 1;
    }
    let ghost out1 = out@;
    emit_close(out, name, if_started, has_global);
    proof {
        assert(out@ =~= out1 + branch_tail(name@, vs, n as int, if_started, has_global));
    }
}

} // verus!

verus! {

/// The static opening of a dump: shell-family detection that suspends alias
/// expansion, and the cleanup of functions installed by a previous dump.
pub open spec fn dump_prologue() -> Seq<char> {
    "if [ -n \"$ZSH_VERSION\" ]; then\n    if [[ -o aliases ]]; then\n        _aka_aliases_was_on=1\n    else\n        _aka_aliases_was_on=0\n    fi\n    unsetopt aliases\nelif [ -n \"$BASH_VERSION\" ]; then\n    _aka_aliases_was_on=$(shopt -q expand_aliases && echo 1 || echo 0)\n    shopt -u expand_aliases\nfi\nif [ -n \"$AKA_MANAGED_ALIASES\" ]; then\n    for al in $AKA_MANAGED_ALIASES; do unalias $al 2>/dev/null; unset -f $al 2>/dev/null; done\nfi\n"@
}

/// The static close of a dump: restores the alias-expansion setting that the
/// prologue suspended.
pub open spec fn dump_epilogue() -> Seq<char> {
    "if [ -n \"$ZSH_VERSION\" ]; then\n    if [ \"${_aka_aliases_was_on:-0}\" = \"1\" ]; then\n        setopt aliases\n    fi\nelif [ -n \"$BASH_VERSION\" ]; then\n    if [ \"${_aka_aliases_was_on:-0}\" = \"1\" ]; then\n        shopt -s expand_aliases\n    fi\nfi\nunset _aka_aliases_was_on"@
}

/// The rendered functions of a dump, one per listed alias, in listing order.
pub open spec fn render_entries(ses: Seq<(Seq<char>, Seq<DefSpec>)>) -> Seq<char>
    decreases ses.len(),
{
    if ses.len() == 0 {
        Seq::empty()
    } else {
        render_entries(ses.drop_last()) + spec_render_alias(ses.last().0, ses.last().1)
    }
}

/// The listed alias names joined by single spaces, in listing order.
pub open spec fn join_all(ses: Seq<(Seq<char>, Seq<DefSpec>)>) -> Seq<char>
    decreases ses.len(),
{
    if ses.len() == 0 {
        Seq::empty()
    } else if ses.len() == 1 {
        ses[0].0
    } else {
        join_all(ses.drop_last()) + (" "@ + ses.last().0)
    }
}

/// A whole dump over the listed aliases: the prologue, one function per
/// alias, the marker recording the managed names, and the epilogue.
pub open spec fn spec_dump(ses: Seq<(Seq<char>, Seq<DefSpec>)>) -> Seq<char> {
    dump_prologue() + (render_entries(ses) + ("export AKA_MANAGED_ALIASES=\""@ + (join_all(ses) + (
    "\"\n"@ + dump_epilogue()))))
}

/// `ses` lists the records of `m` ready for emission: every stored alias
/// exactly once, its definitions reordered into emission precedence.
pub open spec fn sorted_entries_of(
    ses: Seq<(Seq<char>, Seq<DefSpec>)>,
    m: Map<Seq<char>, Seq<DefSpec>>,
) -> bool {
    &&& forall|i: int| 0 <= i < ses.len() ==> m.contains_key(#[trigger] ses[i].0) && ses[i].1.to_multiset()
        == m[ses[i].0].to_multiset() && sorted_by_precedence(ses[i].1)
    &&& forall|i: int, j: int| 0 <= i < j < ses.len() ==> (#[trigger] ses[i].0) != (#[trigger] ses[
        j
    ].0)
    &&& forall|k: Seq<char>| m.contains_key(k) ==> exists|i: int|
        0 <= i < ses.len() && (#[trigger] ses[i].0) == k
}

/// The hook installed once into a shell profile: after each interactive
/// prompt that ran this tool, the shell re-evaluates the dump.
pub open spec fn spec_bootstrap() -> Seq<char> {
    "\n# Add this to your ~/.zshrc (Bash support is best-effort)\nif [ -n \"$ZSH_VERSION\" ]; then\n    autoload -Uz add-zsh-hook\n\n    _aka_precmd() {\n        # 1. Capture last command\n        export AKA_LAST_CMD=\"$(fc -ln -1 | sed 's/^[[:space:]]*//')\"\n\n        # 2. Check if we need to reload aliases (if last command was 'aka')\n        if [[ \"$AKA_LAST_CMD\" == aka* ]]; then\n             eval \"$(command aka init --dump)\"\n        fi\n    }\n    add-zsh-hook precmd _aka_precmd\n\nelif [ -n \"$BASH_VERSION\" ]; then\n    # Bash fallback using PROMPT_COMMAND\n    _aka_prompt_command() {\n        # Capture last command\n        export AKA_LAST_CMD=\"$(history 1 | sed 's/^[[:space:]]*[0-9]*[[:space:]]*//')\"\n\n        if [[ \"$AKA_LAST_CMD\" == aka* ]]; then\n             eval \"$(command aka init --dump)\"\n        fi\n    }\n    PROMPT_COMMAND=\"_aka_prompt_command;$PROMPT_COMMAND\"\nfi\n\neval \"$(command aka init --dump)\"\n"@
}

/// Copies a definition list.
fn clone_defs(v: &Vec<AliasDefinition>) -> (r: Vec<AliasDefinition>)
    ensures
        crate::codec::def_views(r@) == crate::codec::def_views(v@),
{
    let mut r: Vec<AliasDefinition> = Vec::new();
    let n = v.len();
    let mut i: usize = 0;
    while i < n
        invariant
            n == v@.len(),
            i <= n,
            r@.len() == i,
            forall|q: int| 0 <= q < i ==> (#[trigger] r@[q])@ == v@[q]@,
        decreases n - i,
    {
        r.push(v[i].clone());
        i = i + 1;
    }
    proof {
        assert(crate::codec::def_views(r@) =~= crate::codec::def_views(v@));
    }
    r
}

/// Produces shell source. Without `dump`, the static bootstrap hook. With
/// `dump`, the full installation script for every alias the store holds:
/// for each alias a function routing by directory precedence, then the
/// marker naming the managed functions, framed by the prologue and epilogue.
pub fn handle_init_command(store: Option<&Store>, dump: bool) -> (r: Result<
    String,
    crate::error::AkaError,
>)
    ensures
        !dump ==> (r matches Ok(out) && out@ == spec_bootstrap()),
        dump ==> (r matches Ok(out) ==> exists|ses: Seq<(Seq<char>, Seq<DefSpec>)>|
            sorted_entries_of(
                ses,
                match store {
                    Some(st) => st.aliases(),
                    None => Map::empty(),
                },
            ) && out@ == spec_dump(ses)),
        r matches Err(e) ==> dump && crate::error::is_storage_failure(e),
{
    if !dump {
        let text = String::from_str(
            "\n# Add this to your ~/.zshrc (Bash support is best-effort)\nif [ -n \"$ZSH_VERSION\" ]; then\n    autoload -Uz add-zsh-hook\n\n    _aka_precmd() {\n        # 1. Capture last command\n        export AKA_LAST_CMD=\"$(fc -ln -1 | sed 's/^[[:space:]]*//')\"\n\n        # 2. Check if we need to reload aliases (if last command was 'aka')\n        if [[ \"$AKA_LAST_CMD\" == aka* ]]; then\n             eval \"$(command aka init --dump)\"\n        fi\n    }\n    add-zsh-hook precmd _aka_precmd\n\nelif [ -n \"$BASH_VERSION\" ]; then\n    # Bash fallback using PROMPT_COMMAND\n    _aka_prompt_command() {\n        # Capture last command\n        export AKA_LAST_CMD=\"$(history 1 | sed 's/^[[:space:]]*[0-9]*[[:space:]]*//')\"\n\n        if [[ \"$AKA_LAST_CMD\" == aka* ]]; then\n             eval \"$(command aka init --dump)\"\n        fi\n    }\n    PROMPT_COMMAND=\"_aka_prompt_command;$PROMPT_COMMAND\"\nfi\n\neval \"$(command aka init --dump)\"\n",
        );
        return Ok(text);
    }
    let mut out: Vec<char> = Vec::new();
    crate::text::push_chars(
        "if [ -n \"$ZSH_VERSION\" ]; then\n    if [[ -o aliases ]]; then\n        _aka_aliases_was_on=1\n    else\n        _aka_aliases_was_on=0\n    fi\n    unsetopt aliases\nelif [ -n \"$BASH_VERSION\" ]; then\n    _aka_aliases_was_on=$(shopt -q expand_aliases && echo 1 || echo 0)\n    shopt -u expand_aliases\nfi\nif [ -n \"$AKA_MANAGED_ALIASES\" ]; then\n    for al in $AKA_MANAGED_ALIASES; do unalias $al 2>/dev/null; unset -f $al 2>/dev/null; done\nfi\n",
        &mut out,
    );
    let mut managed: Vec<char> = Vec::new();
    let ghost mut ses: Seq<(Seq<char>, Seq<DefSpec>)> = Seq::empty();
    let ghost m = match store {
        Some(st) => st.aliases(),
        None => Map::<Seq<char>, Seq<DefSpec>>::empty(),
    };
    match store {
        Some(st) => {
            let entries = match st.list() {
                Ok(es) => es,
                Err(e) => {
                    return Err(e);
                },
            };
            let n = entries.len();
            let mut i: usize = 0;
            while i < n
                invariant
                    n == entries@.len(),
                    i <= n,
                    crate::store::alias_entries_match(entries@, m),
                    ses.len() == i,
                    forall|q: int| 0 <= q < i ==> (#[trigger] ses[q]).0 == entries@[q].0@,
                    forall|q: int| 0 <= q < i ==> m.contains_key(#[trigger] ses[q].0)
                        && ses[q].1.to_multiset() == m[ses[q].0].to_multiset()
                        && sorted_by_precedence(ses[q].1),
                    out@ == dump_prologue() + render_entries(ses),
                    managed@ == join_all(ses),
                decreases n - i,
            {
                let ghost ses0 = ses;
                if i > 0 {
                    crate::text::push_chars(" ", &mut managed);
                }
                crate::text::push_chars(entries[i].0.as_str(), &mut managed);
                let sorted = sort_definitions(clone_defs(&entries[i].1));
                render_alias(entries[i].0.as_str(), &sorted, &mut out);
                proof {
                    ses = ses0.push((entries@[i as int].0@, crate::codec::def_views(sorted@)));
                    assert(ses.drop_last() =~= ses0);
                    assert(out@ =~= dump_prologue() + render_entries(ses));
                    if i == 0 {
                        assert(managed@ =~= join_all(ses));
                    } else {
                        assert(managed@ =~= join_all(ses));
                    }
                    assert(crate::codec::def_views(entries@[i as int].1@) == m[entries@[i
                        as int].0@]);
                }
                i = i + 1;
            }
            proof {
                assert forall|k: Seq<char>| m.contains_key(k) implies exists|q: int|
                    0 <= q < ses.len() && (#[trigger] ses[q]).0 == k by {
                    let w = choose|w: int|
                        0 <= w < entries@.len() && (#[trigger] entries@[w].0@) == k;
                    assert(ses[w].0 == k);
                }
            }
        },
        None => {
            proof {
                assert(out@ =~= dump_prologue() + render_entries(ses));
                assert(managed@ =~= join_all(ses));
            }
        },
    }
    crate::text::push_chars("export AKA_MANAGED_ALIASES=\"", &mut out);
    let mut managed_tail = managed;
    out.append(&mut managed_tail);
    crate::text::push_chars("\"\n", &mut out);
    crate::text::push_chars(
        "if [ -n \"$ZSH_VERSION\" ]; then\n    if [ \"${_aka_aliases_was_on:-0}\" = \"1\" ]; then\n        setopt aliases\n    fi\nelif [ -n \"$BASH_VERSION\" ]; then\n    if [ \"${_aka_aliases_was_on:-0}\" = \"1\" ]; then\n        shopt -s expand_aliases\n    fi\nfi\nunset _aka_aliases_was_on",
        &mut out,
    );
    proof {
        assert(out@ =~= spec_dump(ses));
    }
    Ok(crate::text::chars_to_string(&out))
}

} // verus!
