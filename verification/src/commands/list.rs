//! Listing aliases: scope filtering against the current directory, visual
//! width measurement that ignores terminal escape sequences, column padding,
//! and the assembled listing text.

use vstd::prelude::*;
use vstd::string::StrSliceExecFns;
use crate::store::{AliasDefinition, AliasScope, DefSpec, ScopeSpec, Store};
use crate::error::AkaError;
use owo_colors::OwoColorize;

verus! {

// ---------------------------------------------------------------------------
// Visual width and padding
// ---------------------------------------------------------------------------
/// The position right after the `m` that closes an escape sequence opened
/// before `j`, or the end of the string when no `m` follows.
pub open spec fn after_escape(s: Seq<char>, j: int) -> int
    decreases s.len() - j,
{
    if j < 0 || j >= s.len() {
        j
    } else if s[j] == 'm' {
        j + 1
    } else {
        after_escape(s, j + 1)
    }
}

proof fn lemma_after_escape_bounds(s: Seq<char>, j: int)
    requires
        0 <= j <= s.len(),
    ensures
        j <= after_escape(s, j) <= s.len(),
    decreases s.len() - j,
{
    if j < s.len() && s[j] != 'm' {
        lemma_after_escape_bounds(s, j + 1);
    }
}

/// The display width of the text from `i` on: one per character, with each
/// escape sequence (from its escape character through the closing `m`)
/// counting nothing.
pub open spec fn vis_width(s: Seq<char>, i: int) -> nat
    decreases s.len() - i,
{
    if i < 0 || i >= s.len() {
        0
    } else if s[i] == '\x1b' {
        let j = after_escape(s, i + 1);
        if i < j <= s.len() {
            vis_width(s, j)
        } else {
            0
        }
    } else {
        1 + vis_width(s, i + 1)
    }
}

/// Measures the display width of `s`: its character count, not counting
/// terminal escape sequences.
pub fn visual_width(s: &str) -> (r: usize)
    ensures
        r == vis_width(s@, 0),
{
    let v = crate::text::str_to_chars(s);
    let n = v.len();
    let mut w: usize = 0;
    let mut i: usize = 0;
    while i < n
        invariant
            v@ == s@,
            n == s@.len(),
            i <= n,
            w <= i,
            vis_width(s@, 0) == w + vis_width(s@, i as int),
        decreases n - i,
    {
        if v[i] == '\x1b' {
            proof {
                lemma_after_escape_bounds(s@, i + 1);
            }
            let mut j = i + 1;
            while j < n && v[j] != 'm'
                invariant
                    v@ == s@,
                    n == s@.len(),
                    i + 1 <= j <= n,
                    after_escape(s@, i + 1) == after_escape(s@, j as int),
                decreases n - j,
            {
                j = j + 1;
            }
            if j < n {
                j = j + 1;
            }
            proof {
                assert(after_escape(s@, i + 1) == j as int);
            }
            i = j;
        } else {
            w = w + 1;
            i = i + 1;
        }
    }
    w
}

/// `k` spaces.
pub open spec fn spaces(k: nat) -> Seq<char>
    decreases k,
{
    if k == 0 {
        Seq::empty()
    } else {
        spaces((k - 1) as nat).push(' ')
    }
}

/// `s` padded with spaces up to the target display width; text already that
/// wide stands unchanged.
pub open spec fn spec_pad(s: Seq<char>, target: nat) -> Seq<char> {
    if vis_width(s, 0) >= target {
        s
    } else {
        s + spaces((target - vis_width(s, 0)) as nat)
    }
}

/// Pads `s` with spaces up to `target_width` display columns.
pub fn pad_to_width(s: &str, target_width: usize) -> (r: String)
    ensures
        r@ == spec_pad(s@, target_width as nat),
{
    let w = visual_width(s);
    if w >= target_width {
        s.to_owned()
    } else {
        let mut out = crate::text::str_to_chars(s);
        let mut k: usize = 0;
        let ghost missing = (target_width - w) as nat;
        while k < target_width - w
            invariant
                w == vis_width(s@, 0),
                w < target_width,
                k <= target_width - w,
                out@ == s@ + spaces(k as nat),
            decreases target_width - w - k,
        {
            out.push(' ');
            k = k + 1;
        }
        crate::text::chars_to_string(&out)
    }
}

// ---------------------------------------------------------------------------
// Scope matching
// ---------------------------------------------------------------------------
/// The matching predicate against a current directory: the global scope
/// always matches, an exact scope matches its own directory alone, a subtree
/// scope matches every directory it prefixes.
pub open spec fn scope_matches(sc: ScopeSpec, dir: Seq<char>) -> bool {
    match sc {
        ScopeSpec::Global => true,
        ScopeSpec::Exact(p) => dir == p,
        ScopeSpec::Recursive(p) => dir.len() >= p.len() && dir.subrange(0, p.len() as int) == p,
    }
}

/// Decides whether one scope is active in the directory `dir`.
pub fn scope_matches_dir(scope: &AliasScope, dir: &str) -> (r: bool)
    ensures
        r == scope_matches(scope@, dir@),
{
    match scope {
        AliasScope::Global => true,
        AliasScope::Exact(p) => {
            let pv = crate::text::str_to_chars(p.as_str());
            let dv = crate::text::str_to_chars(dir);
            eq_chars(&dv, &pv)
        },
        AliasScope::Recursive(p) => {
            let pv = crate::text::str_to_chars(p.as_str());
            let dv = crate::text::str_to_chars(dir);
            prefix_chars(&dv, &pv)
        },
    }
}

/// Character-for-character equality of two vectors.
fn eq_chars(a: &Vec<char>, b: &Vec<char>) -> (r: bool)
    ensures
        r == (a@ == b@),
{
    if a.len() != b.len() {
        proof {
            assert(a@ != b@);
        }
        return false;
    }
    let n = a.len();
    let mut i: usize = 0;
    while i < n
        invariant
            n == a@.len() == b@.len(),
            i <= n,
            forall|q: int| 0 <= q < i ==> a@[q] == b@[q],
        decreases n - i,
    {
        if a[i] != b[i] {
            proof {
                assert(a@ != b@);
            }
            return false;
        }
        i = i + 1;
    }
    proof {
        assert(a@ =~= b@);
    }
    true
}

/// Whether `p` is a prefix of `d`.
fn prefix_chars(d: &Vec<char>, p: &Vec<char>) -> (r: bool)
    ensures
        r == (d@.len() >= p@.len() && d@.subrange(0, p@.len() as int) == p@),
{
    if d.len() < p.len() {
        return false;
    }
    let n = p.len();
    let mut i: usize = 0;
    while i < n
        invariant
            n == p@.len(),
            n <= d@.len(),
            i <= n,
            forall|q: int| 0 <= q < i ==> d@[q] == p@[q],
        decreases n - i,
    {
        if d[i] != p[i] {
            proof {
                assert(d@.subrange(0, p@.len() as int) != p@) by {
                    if d@.subrange(0, p@.len() as int) == p@ {
                        assert(d@.subrange(0, p@.len() as int)[i as int] == p@[i as int]);
                    }
                }
            }
            return false;
        }
        i = i + 1;
    }
    proof {
        assert forall|q: int| 0 <= q < n implies d@.subrange(0, p@.len() as int)[q] == p@[q] by {
            assert(d@[q] == p@[q]);
        }
        assert(d@.subrange(0, p@.len() as int) =~= p@);
    }
    true
}

} // verus!

verus! {

// ---------------------------------------------------------------------------
// Listing text
// ---------------------------------------------------------------------------
/// The scope tag shown behind one listed definition.
pub open spec fn scope_label(sc: ScopeSpec) -> Seq<char> {
    match sc {
        ScopeSpec::Global => "(Global)"@,
        ScopeSpec::Recursive(p) => "(Recursive: "@ + (p + ")"@),
        ScopeSpec::Exact(p) => "(Exact: "@ + (p + ")"@),
    }
}

/// The rows one record contributes: one per definition, all of them under
/// `all`, else only those whose scope matches the current directory.
pub open spec fn collect_defs(
    name: Seq<char>,
    defs: Seq<DefSpec>,
    dir: Seq<char>,
    all: bool,
) -> Seq<(Seq<char>, Seq<char>, ScopeSpec)>
    decreases defs.len(),
{
    if defs.len() == 0 {
        Seq::empty()
    } else {
        let init = collect_defs(name, defs.drop_last(), dir, all);
        if all || scope_matches(defs.last().scope, dir) {
            init.push((name, defs.last().command, defs.last().scope))
        } else {
            init
        }
    }
}

/// The rows of a whole listing, records in listing order, definitions in
/// stored order.
pub open spec fn collect_listing(
    ls: Seq<(Seq<char>, Seq<DefSpec>)>,
    dir: Seq<char>,
    all: bool,
) -> Seq<(Seq<char>, Seq<char>, ScopeSpec)>
    decreases ls.len(),
{
    if ls.len() == 0 {
        Seq::empty()
    } else {
        collect_listing(ls.drop_last(), dir, all) + collect_defs(
            ls.last().0,
            ls.last().1,
            dir,
            all,
        )
    }
}

/// The widest alias name among the rows.
pub open spec fn max_alias_width(items: Seq<(Seq<char>, Seq<char>, ScopeSpec)>) -> nat
    decreases items.len(),
{
    if items.len() == 0 {
        0
    } else {
        let rest = max_alias_width(items.drop_last());
        if items.last().0.len() > rest {
            items.last().0.len()
        } else {
            rest
        }
    }
}

/// The widest command among the rows.
pub open spec fn max_cmd_width(items: Seq<(Seq<char>, Seq<char>, ScopeSpec)>) -> nat
    decreases items.len(),
{
    if items.len() == 0 {
        0
    } else {
        let rest = max_cmd_width(items.drop_last());
        if items.last().1.len() > rest {
            items.last().1.len()
        } else {
            rest
        }
    }
}

/// The column width quoted commands are padded to: two more than the widest
/// command, for the quotes, capped at the machine's limit.
pub open spec fn quoted_width(maxc: nat) -> nat {
    if maxc < usize::MAX - 1 {
        maxc + 2
    } else {
        usize::MAX as nat
    }
}

/// One listing row: the padded alias, the quoted and padded command, and
/// the scope tag.
pub open spec fn render_item(
    it: (Seq<char>, Seq<char>, ScopeSpec),
    maxa: nat,
    maxc: nat,
) -> Seq<char> {
    spec_pad(it.0, maxa) + (" = "@ + (spec_pad("'"@ + (it.1 + "'"@), quoted_width(maxc)) + (" "@ + (
    scope_label(it.2) + "\n"@))))
}

/// All listing rows, each on its own line.
pub open spec fn render_lines(
    items: Seq<(Seq<char>, Seq<char>, ScopeSpec)>,
    maxa: nat,
    maxc: nat,
) -> Seq<char>
    decreases items.len(),
{
    if items.len() == 0 {
        Seq::empty()
    } else {
        render_lines(items.drop_last(), maxa, maxc) + render_item(items.last(), maxa, maxc)
    }
}

/// The listing text without colors: the collected rows in aligned columns,
/// without a trailing newline, or the fixed placeholder when nothing is
/// listed.
pub open spec fn spec_list_output(
    ls: Seq<(Seq<char>, Seq<DefSpec>)>,
    dir: Seq<char>,
    all: bool,
) -> Seq<char> {
    let items = collect_listing(ls, dir, all);
    if items.len() == 0 {
        "No aliases found"@
    } else {
        render_lines(items, max_alias_width(items), max_cmd_width(items)).drop_last()
    }
}

/// `ls` is exactly the record table `m`, as a listing: every listed record
/// stored with those definitions, each alias once, every alias listed.
pub open spec fn listing_of(
    ls: Seq<(Seq<char>, Seq<DefSpec>)>,
    m: Map<Seq<char>, Seq<DefSpec>>,
) -> bool {
    &&& forall|i: int| 0 <= i < ls.len() ==> m.contains_key(#[trigger] ls[i].0) && ls[i].1
        == m[ls[i].0]
    &&& forall|i: int, j: int| 0 <= i < j < ls.len() ==> (#[trigger] ls[i].0) != (#[trigger] ls[
        j
    ].0)
    &&& forall|k: Seq<char>| m.contains_key(k) ==> exists|i: int|
        0 <= i < ls.len() && (#[trigger] ls[i].0) == k
}

/// Relies on owo_colors' `if_supports_color` with the cyan style: the text
/// unchanged, or wrapped in the cyan foreground code and the default
/// foreground reset, by the stream's capability and the color overrides.
#[verifier::external_body]
fn paint_cyan(s: &str) -> (r: String)
    ensures
        r@ == s@ || r@ == "\x1b[36m"@ + s@ + "\x1b[39m"@,
{
    format!("{}", s.if_supports_color(owo_colors::Stream::Stdout, |t| t.cyan()))
}

/// Relies on owo_colors' `if_supports_color` with the white style: the text
/// unchanged, or wrapped in the white foreground code and the reset.
#[verifier::external_body]
fn paint_white(s: &str) -> (r: String)
    ensures
        r@ == s@ || r@ == "\x1b[37m"@ + s@ + "\x1b[39m"@,
{
    format!("{}", s.if_supports_color(owo_colors::Stream::Stdout, |t| t.white()))
}

/// Relies on owo_colors' `if_supports_color` with the bright-black style:
/// the text unchanged, or wrapped in the bright-black foreground code and
/// the reset.
#[verifier::external_body]
fn paint_bright_black(s: &str) -> (r: String)
    ensures
        r@ == s@ || r@ == "\x1b[90m"@ + s@ + "\x1b[39m"@,
{
    format!("{}", s.if_supports_color(owo_colors::Stream::Stdout, |t| t.bright_black()))
}

/// The scope tag of one definition, as listed.
fn scope_label_text(scope: &AliasScope) -> (r: String)
    ensures
        r@ == scope_label(scope@),
{
    let mut out: Vec<char> = Vec::new();
    match scope {
        AliasScope::Global => {
            crate::text::push_chars("(Global)", &mut out);
        },
        AliasScope::Recursive(p) => {
            crate::text::push_chars("(Recursive: ", &mut out);
            crate::text::push_chars(p.as_str(), &mut out);
            crate::text::push_chars(")", &mut out);
            proof {
                assert(out@ =~= scope_label(scope@));
            }
        },
        AliasScope::Exact(p) => {
            crate::text::push_chars("(Exact: ", &mut out);
            crate::text::push_chars(p.as_str(), &mut out);
            crate::text::push_chars(")", &mut out);
            proof {
                assert(out@ =~= scope_label(scope@));
            }
        },
    }
    crate::text::chars_to_string(&out)
}

/// The command wrapped in single quotes.
fn quoted(s: &str) -> (r: String)
    ensures
        r@ == "'"@ + (s@ + "'"@),
{
    let mut out: Vec<char> = Vec::new();
    crate::text::push_chars("'", &mut out);
    crate::text::push_chars(s, &mut out);
    crate::text::push_chars("'", &mut out);
    proof {
        assert(out@ =~= "'"@ + (s@ + "'"@));
    }
    crate::text::chars_to_string(&out)
}

/// Lists the store's aliases as aligned text. Under `all` every definition
/// is shown; otherwise only those whose scope matches `current_dir`. With
/// `use_colors` the fields carry the terminal's color codes when the stream
/// supports them; without it the text is plain and fully pinned down.
#[verifier::rlimit(100)]
pub fn handle_list_command(store: &Store, all: bool, current_dir: &str, use_colors: bool) -> (r:
    Result<String, AkaError>)
    ensures
        r matches Ok(out) ==> (!use_colors ==> exists|ls: Seq<(Seq<char>, Seq<DefSpec>)>|
            listing_of(ls, store.aliases()) && out@ == spec_list_output(ls, current_dir@, all)),
        r matches Ok(out) ==> (store.aliases() == Map::<Seq<char>, Seq<DefSpec>>::empty() ==> out@
            == "No aliases found"@),
        r matches Err(e) ==> crate::error::is_storage_failure(e),
{
    let entries = match store.list() {
        Ok(es) => es,
        Err(e) => {
            return Err(e);
        },
    };
    let ghost ls = Seq::new(
        entries@.len(),
        |q: int| (entries@[q].0@, crate::codec::def_views(entries@[q].1@)),
    );
    proof {
        assert forall|k: Seq<char>| store.aliases().contains_key(k) implies exists|i: int|
            0 <= i < ls.len() && (#[trigger] ls[i].0) == k by {
            let w = choose|w: int| 0 <= w < entries@.len() && (#[trigger] entries@[w].0@) == k;
            assert(ls[w].0 == k);
        }
        assert(listing_of(ls, store.aliases()));
    }
    let mut items: Vec<(String, String, AliasScope)> = Vec::new();
    let ghost gi = collect_listing(ls, current_dir@, all);
    let mut maxa: usize = 0;
    let mut maxc: usize = 0;
    let n = entries.len();
    let mut i: usize = 0;
    let ghost itemsv = Seq::<(Seq<char>, Seq<char>, ScopeSpec)>::empty();
    proof {
        assert(ls.subrange(0, 0) =~= Seq::<(Seq<char>, Seq<DefSpec>)>::empty());
    }
    while i < n
        invariant
            n == entries@.len(),
            i <= n,
            ls == Seq::new(
                entries@.len(),
                |q: int| (entries@[q].0@, crate::codec::def_views(entries@[q].1@)),
            ),
            items@.len() == collect_listing(ls.subrange(0, i as int), current_dir@, all).len(),
            forall|q: int| 0 <= q < items@.len() ==> ((#[trigger] items@[q].0)@, items@[q].1@,
            items@[q].2@) == collect_listing(ls.subrange(0, i as int), current_dir@, all)[q],
            maxa == max_alias_width(collect_listing(ls.subrange(0, i as int), current_dir@, all)),
            maxc == max_cmd_width(collect_listing(ls.subrange(0, i as int), current_dir@, all)),
        decreases n - i,
    {
        let defs = &entries[i].1;
        let m = defs.len();
        let mut j: usize = 0;
        proof {
            assert(crate::codec::def_views(defs@).subrange(0, 0) =~= Seq::<DefSpec>::empty());
            assert(collect_defs(
                entries@[i as int].0@,
                crate::codec::def_views(defs@).subrange(0, 0),
                current_dir@,
                all,
            ) =~= Seq::<(Seq<char>, Seq<char>, ScopeSpec)>::empty());
        }
        while j < m
            invariant
                n == entries@.len(),
                i < n,
                m == entries@[i as int].1@.len(),
                defs == &entries@[i as int].1,
                j <= m,
                ls == Seq::new(
                    entries@.len(),
                    |q: int| (entries@[q].0@, crate::codec::def_views(entries@[q].1@)),
                ),
                items@.len() == collect_listing(ls.subrange(0, i as int), current_dir@, all).len()
                    + collect_defs(
                    entries@[i as int].0@,
                    crate::codec::def_views(defs@).subrange(0, j as int),
                    current_dir@,
                    all,
                ).len(),
                forall|q: int| 0 <= q < items@.len() ==> ((#[trigger] items@[q].0)@, items@[q].1@,
                items@[q].2@) == (collect_listing(ls.subrange(0, i as int), current_dir@, all)
                    + collect_defs(
                    entries@[i as int].0@,
                    crate::codec::def_views(defs@).subrange(0, j as int),
                    current_dir@,
                    all,
                ))[q],
                maxa == max_alias_width(
                    collect_listing(ls.subrange(0, i as int), current_dir@, all) + collect_defs(
                        entries@[i as int].0@,
                        crate::codec::def_views(defs@).subrange(0, j as int),
                        current_dir@,
                        all,
                    ),
                ),
                maxc == max_cmd_width(
                    collect_listing(ls.subrange(0, i as int), current_dir@, all) + collect_defs(
                        entries@[i as int].0@,
                        crate::codec::def_views(defs@).subrange(0, j as int),
                        current_dir@,
                        all,
                    ),
                ),
            decreases m - j,
        {
            let ghost pre = collect_listing(ls.subrange(0, i as int), current_dir@, all)
                + collect_defs(
                entries@[i as int].0@,
                crate::codec::def_views(defs@).subrange(0, j as int),
                current_dir@,
                all,
            );
            let d = &defs[j];
            let relevant = if all {
                true
            } else {
                scope_matches_dir(&d.scope, current_dir)
            };
            proof {
                let dv = crate::codec::def_views(defs@).subrange(0, j + 1);
                assert(dv.drop_last() =~= crate::codec::def_views(defs@).subrange(0, j as int));
                assert(dv.last() == defs@[j as int]@);
            }
            if relevant {
                let aw = entries[i].0.as_str().unicode_len();
                let cw = d.command.as_str().unicode_len();
                if aw > maxa {
                    maxa = aw;
                }
                if cw > maxc {
                    maxc = cw;
                }
                items.push((entries[i].0.clone(), d.command.clone(), d.scope.clone()));
                proof {
                    let full = collect_listing(ls.subrange(0, i as int), current_dir@, all)
                        + collect_defs(
                        entries@[i as int].0@,
                        crate::codec::def_views(defs@).subrange(0, j + 1),
                        current_dir@,
                        all,
                    );
                    assert(full =~= pre.push(
                        (entries@[i as int].0@, defs@[j as int]@.command, defs@[j as int]@.scope),
                    ));
                    assert(full.drop_last() =~= pre);
                }
            } else {
                proof {
                    let full = collect_listing(ls.subrange(0, i as int), current_dir@, all)
                        + collect_defs(
                        entries@[i as int].0@,
                        crate::codec::def_views(defs@).subrange(0, j + 1),
                        current_dir@,
                        all,
                    );
                    assert(full =~= pre);
                }
            }
            j = j + 1;
        }
        proof {
            assert(crate::codec::def_views(defs@).subrange(0, m as int) =~= crate::codec::def_views(
                defs@,
            ));
            assert(ls.subrange(0, i + 1).drop_last() =~= ls.subrange(0, i as int));
            assert(ls.subrange(0, i + 1).last() == ls[i as int]);
            assert(collect_listing(ls.subrange(0, i + 1), current_dir@, all) =~= collect_listing(
                ls.subrange(0, i as int),
                current_dir@,
                all,
            ) + collect_defs(ls[i as int].0, ls[i as int].1, current_dir@, all));
        }
        i = i + 1;
    }
    proof {
        assert(ls.subrange(0, n as int) =~= ls);
    }
    if items.len() == 0 {
        return Ok(String::from_str("No aliases found"));
    }
    let nit = items.len();
    let mut out: Vec<char> = Vec::new();
    let mut t: usize = 0;
    let ghost target = collect_listing(ls, current_dir@, all);
    proof {
        assert(target.subrange(0, 0) =~= Seq::<(Seq<char>, Seq<char>, ScopeSpec)>::empty());
    }
    while t < nit
        invariant
            nit == items@.len(),
            t <= nit,
            target == collect_listing(ls, current_dir@, all),
            items@.len() == target.len(),
            forall|q: int| 0 <= q < items@.len() ==> ((#[trigger] items@[q].0)@, items@[q].1@,
            items@[q].2@) == target[q],
            maxa == max_alias_width(target),
            maxc == max_cmd_width(target),
            !use_colors ==> out@ == render_lines(target.subrange(0, t as int), maxa as nat,
            maxc as nat),
        decreases nit - t,
    {
        let ghost out0 = out@;
        let wq: usize = if maxc < usize::MAX - 1 {
            maxc + 2
        } else {
            usize::MAX
        };
        if use_colors {
            let pa = paint_cyan(items[t].0.as_str());
            let pc = paint_white(items[t].1.as_str());
            let label = scope_label_text(&items[t].2);
            let pl = paint_bright_black(label.as_str());
            let padded_alias = pad_to_width(pa.as_str(), maxa);
            let qcmd = quoted(pc.as_str());
            let padded_cmd = pad_to_width(qcmd.as_str(), wq);
            crate::text::push_chars(padded_alias.as_str(), &mut out);
            crate::text::push_chars(" = ", &mut out);
            crate::text::push_chars(padded_cmd.as_str(), &mut out);
            crate::text::push_chars(" ", &mut out);
            crate::text::push_chars(pl.as_str(), &mut out);
            crate::text::push_chars("\n", &mut out);
        } else {
            let padded_alias = pad_to_width(items[t].0.as_str(), maxa);
            let qcmd = quoted(items[t].1.as_str());
            let padded_cmd = pad_to_width(qcmd.as_str(), wq);
            let label = scope_label_text(&items[t].2);
            crate::text::push_chars(padded_alias.as_str(), &mut out);
            crate::text::push_chars(" = ", &mut out);
            crate::text::push_chars(padded_cmd.as_str(), &mut out);
            crate::text::push_chars(" ", &mut out);
            crate::text::push_chars(label.as_str(), &mut out);
            crate::text::push_chars("\n", &mut out);
            proof {
                let sub = target.subrange(0, t + 1);
                assert(sub.drop_last() =~= target.subrange(0, t as int));
                assert(sub.last() == target[t as int]);
                assert(out@ =~= out0 + render_item(target[t as int], maxa as nat, maxc as nat));
                assert(out@ =~= render_lines(sub, maxa as nat, maxc as nat));
            }
        }
        t = t + 1;
    }
    proof {
        assert(target.subrange(0, nit as int) =~= target);
    }
    if out.len() > 0 {
        out.pop();
    }
    proof {
        assert(store.aliases() != Map::<Seq<char>, Seq<DefSpec>>::empty()) by {
            assert(target.len() > 0);
            assert(ls.len() > 0) by {
                if ls.len() == 0 {
                    assert(collect_listing(ls, current_dir@, all) =~= Seq::<
                        (Seq<char>, Seq<char>, ScopeSpec),
                    >::empty());
                }
            }
            assert(store.aliases().contains_key(ls[0].0));
            assert(!Map::<Seq<char>, Seq<DefSpec>>::empty().contains_key(ls[0].0));
        }
        if !use_colors {
            reveal_strlit("\n");
            assert(render_lines(target, maxa as nat, maxc as nat).len() > 0);
            assert(out@ == spec_list_output(ls, current_dir@, all));
        }
    }
    Ok(crate::text::chars_to_string(&out))
}

} // verus!
