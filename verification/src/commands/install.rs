//! Installing the shell hook: deciding, from a profile's current text,
//! whether the hook line is already present, and what to append otherwise.

use vstd::prelude::*;

verus! {

/// `needle` occurs in `hay` at position `i`.
pub open spec fn occurs_at(hay: Seq<char>, i: int, needle: Seq<char>) -> bool {
    0 <= i && i + needle.len() <= hay.len() && hay.subrange(i, i + needle.len()) == needle
}

/// `needle` occurs somewhere in `hay`.
pub open spec fn occurs_in(hay: Seq<char>, needle: Seq<char>) -> bool {
    exists|i: int| occurs_at(hay, i, needle)
}

/// The hook line the installer looks for and appends.
pub open spec fn hook_line() -> Seq<char> {
    "eval \"$(aka init)\""@
}

/// What the installer appends behind an existing profile.
pub open spec fn hook_appendix() -> Seq<char> {
    "\n\n# aka alias manager\n"@ + (hook_line() + "\n"@)
}

/// Decides what installing into a profile with text `content` does: nothing
/// when the hook line is already there, else the appendix to add.
pub fn install_plan(content: &str) -> (r: Option<String>)
    ensures
        r is None <==> occurs_in(content@, hook_line()),
        r matches Some(t) ==> t@ == hook_appendix(),
{
    let hay = crate::text::str_to_chars(content);
    let needle = crate::text::str_to_chars("eval \"$(aka init)\"");
    let m = needle.len();
    let n = hay.len();
    let mut i: usize = 0;
    if m <= n {
        while i <= n - m
            invariant
                hay@ == content@,
                needle@ == hook_line(),
                m == needle@.len(),
                n == hay@.len(),
                m <= n,
                i <= n - m + 1,
                forall|q: int| 0 <= q < i ==> !occurs_at(content@, q, hook_line()),
            decreases n + 1 - i,
        {
            let mut k: usize = 0;
            let mut hit = true;
            while k < m
                invariant
                    hay@ == content@,
                    needle@ == hook_line(),
                    m == needle@.len(),
                    n == hay@.len(),
                    i + m <= n,
                    k <= m,
                    hit == (forall|q: int| 0 <= q < k ==> content@[i + q] == hook_line()[q]),
                decreases m - k,
            {
                if hay[i + k] != needle[k] {
                    hit = false;
                }
                k = k + 1;
            }
            if hit {
                proof {
                    assert forall|q: int| 0 <= q < m implies content@.subrange(
                        i as int,
                        i + m,
                    )[q] == hook_line()[q] by {
                        assert(content@[i + q] == hook_line()[q]);
                    }
                    assert(content@.subrange(i as int, i + m) =~= hook_line());
                    assert(occurs_at(content@, i as int, hook_line()));
                }
                return None;
            }
            proof {
                assert(!occurs_at(content@, i as int, hook_line())) by {
                    if occurs_at(content@, i as int, hook_line()) {
                        let q = choose|q: int|
                            0 <= q < m && content@[i + q] != hook_line()[q];
                        assert(content@.subrange(i as int, i + m)[q] == content@[i + q]);
                    }
                }
            }
            i = i + 1;
        }
    }
    proof {
        assert(!occurs_in(content@, hook_line())) by {
            if occurs_in(content@, hook_line()) {
                let w = choose|w: int| occurs_at(content@, w, hook_line());
            }
        }
    }
    let mut out: Vec<char> = Vec::new();
    crate::text::push_chars("\n\n# aka alias manager\n", &mut out);
    crate::text::push_chars("eval \"$(aka init)\"", &mut out);
    crate::text::push_chars("\n", &mut out);
    proof {
        assert(out@ =~= hook_appendix());
    }
    Some(crate::text::chars_to_string(&out))
}

} // verus!
