//! The persisted form of a definition list and its proof of exact round
//! tripping: a record value is a bracketed list of objects, each holding the
//! command string and the scope tag, with quotes and backslashes escaped.
//! A stored value that does not parse as such a list is read back as one
//! global definition whose command is the raw value itself.

use vstd::prelude::*;
use crate::store::{AliasDefinition, AliasScope, DefSpec, ScopeSpec};

verus! {

/// The views of the definitions held by an executable vector.
pub open spec fn def_views(v: Seq<AliasDefinition>) -> Seq<DefSpec> {
    v.map_values(|d: AliasDefinition| d@)
}

// ---------------------------------------------------------------------------
// Encoding
// ---------------------------------------------------------------------------
/// The escaped form of one command character: quotes and backslashes take a
/// backslash prefix, everything else stands for itself.
pub open spec fn escape_char(c: char) -> Seq<char> {
    if c == '"' {
        seq!['\\', '"']
    } else if c == '\\' {
        seq!['\\', '\\']
    } else {
        seq![c]
    }
}

/// The escaped form of a whole string.
pub open spec fn escape_seq(s: Seq<char>) -> Seq<char>
    decreases s.len(),
{
    if s.len() == 0 {
        Seq::empty()
    } else {
        escape_char(s[0]) + escape_seq(s.skip(1))
    }
}

/// A quoted, escaped string literal.
pub open spec fn enc_string(s: Seq<char>) -> Seq<char> {
    seq!['"'] + (escape_seq(s) + seq!['"'])
}

/// The key that opens a definition object.
pub open spec fn lit_command() -> Seq<char> {
    seq!['{', '"', 'c', 'o', 'm', 'm', 'a', 'n', 'd', '"', ':']
}

/// The key that separates the command from the scope.
pub open spec fn lit_scope_key() -> Seq<char> {
    seq![',', '"', 's', 'c', 'o', 'p', 'e', '"', ':']
}

/// The encoding of the global scope.
pub open spec fn lit_global() -> Seq<char> {
    seq!['"', 'G', 'l', 'o', 'b', 'a', 'l', '"']
}

/// The opener of an exact-directory scope.
pub open spec fn lit_exact() -> Seq<char> {
    seq!['{', '"', 'E', 'x', 'a', 'c', 't', '"', ':']
}

/// The opener of a subtree scope.
pub open spec fn lit_recursive() -> Seq<char> {
    seq!['{', '"', 'R', 'e', 'c', 'u', 'r', 's', 'i', 'v', 'e', '"', ':']
}

/// The encoding of one scope value.
pub open spec fn enc_scope(sc: ScopeSpec) -> Seq<char> {
    match sc {
        ScopeSpec::Global => lit_global(),
        ScopeSpec::Exact(p) => lit_exact() + (enc_string(p) + seq!['}']),
        ScopeSpec::Recursive(p) => lit_recursive() + (enc_string(p) + seq!['}']),
    }
}

/// The encoding of one definition object.
pub open spec fn enc_def(d: DefSpec) -> Seq<char> {
    lit_command() + (enc_string(d.command) + (lit_scope_key() + (enc_scope(d.scope) + seq!['}'])))
}

/// The encodings of the second and later definitions, each behind a comma.
pub open spec fn enc_defs_rest(l: Seq<DefSpec>) -> Seq<char>
    decreases l.len(),
{
    if l.len() == 0 {
        Seq::empty()
    } else {
        seq![','] + (enc_def(l[0]) + enc_defs_rest(l.skip(1)))
    }
}

/// The encoding of a whole definition list.
pub open spec fn spec_encode(l: Seq<DefSpec>) -> Seq<char> {
    if l.len() == 0 {
        seq!['[', ']']
    } else {
        seq!['['] + (enc_def(l[0]) + (enc_defs_rest(l.skip(1)) + seq![']']))
    }
}

// ---------------------------------------------------------------------------
// Parsing
// ---------------------------------------------------------------------------
/// Position after a literal, when the input holds it at `i`.
pub open spec fn expect(s: Seq<char>, i: int, lit: Seq<char>) -> Option<int> {
    if 0 <= i && i + lit.len() <= s.len() && s.subrange(i, i + lit.len()) == lit {
        Some(i + lit.len())
    } else {
        None
    }
}

/// The control character a `\u00--` escape's last two hex digits denote,
/// for the range such escapes are written in.
pub open spec fn control_char_of(h: char, l: char) -> Option<char> {
    let low: Option<int> = if l == '0' {
        Some(0)
    } else if l == '1' {
        Some(1)
    } else if l == '2' {
        Some(2)
    } else if l == '3' {
        Some(3)
    } else if l == '4' {
        Some(4)
    } else if l == '5' {
        Some(5)
    } else if l == '6' {
        Some(6)
    } else if l == '7' {
        Some(7)
    } else if l == '8' {
        Some(8)
    } else if l == '9' {
        Some(9)
    } else if l == 'a' || l == 'A' {
        Some(10)
    } else if l == 'b' || l == 'B' {
        Some(11)
    } else if l == 'c' || l == 'C' {
        Some(12)
    } else if l == 'd' || l == 'D' {
        Some(13)
    } else if l == 'e' || l == 'E' {
        Some(14)
    } else if l == 'f' || l == 'F' {
        Some(15)
    } else {
        None
    };
    match low {
        Some(v) => if h == '0' {
            Some(low_control(v))
        } else if h == '1' {
            Some(high_control(v))
        } else {
            None
        },
        None => None,
    }
}

/// The characters `\u0000` through `\u000f`.
pub open spec fn low_control(v: int) -> char {
    if v == 0 {
        '\u{00}'
    } else if v == 1 {
        '\u{01}'
    } else if v == 2 {
        '\u{02}'
    } else if v == 3 {
        '\u{03}'
    } else if v == 4 {
        '\u{04}'
    } else if v == 5 {
        '\u{05}'
    } else if v == 6 {
        '\u{06}'
    } else if v == 7 {
        '\u{07}'
    } else if v == 8 {
        '\u{08}'
    } else if v == 9 {
        '\u{09}'
    } else if v == 10 {
        '\u{0a}'
    } else if v == 11 {
        '\u{0b}'
    } else if v == 12 {
        '\u{0c}'
    } else if v == 13 {
        '\u{0d}'
    } else if v == 14 {
        '\u{0e}'
    } else {
        '\u{0f}'
    }
}

/// The characters `\u0010` through `\u001f`.
pub open spec fn high_control(v: int) -> char {
    if v == 0 {
        '\u{10}'
    } else if v == 1 {
        '\u{11}'
    } else if v == 2 {
        '\u{12}'
    } else if v == 3 {
        '\u{13}'
    } else if v == 4 {
        '\u{14}'
    } else if v == 5 {
        '\u{15}'
    } else if v == 6 {
        '\u{16}'
    } else if v == 7 {
        '\u{17}'
    } else if v == 8 {
        '\u{18}'
    } else if v == 9 {
        '\u{19}'
    } else if v == 10 {
        '\u{1a}'
    } else if v == 11 {
        '\u{1b}'
    } else if v == 12 {
        '\u{1c}'
    } else if v == 13 {
        '\u{1d}'
    } else if v == 14 {
        '\u{1e}'
    } else {
        '\u{1f}'
    }
}

/// Parses the interior of a quoted string starting at `i`, with the
/// characters already read in `acc`; stops after the closing quote. Beside
/// the escapes the encoder writes, the short escapes and the `\u00--`
/// control escapes that older stored values may carry are read back.
pub open spec fn parse_str_body(s: Seq<char>, i: int, acc: Seq<char>) -> Option<(Seq<char>, int)>
    decreases s.len() - i,
{
    if i < 0 || i >= s.len() {
        None
    } else if s[i] == '"' {
        Some((acc, i + 1))
    } else if s[i] == '\\' {
        if i + 1 < s.len() {
            let e = s[i + 1];
            if e == '"' {
                parse_str_body(s, i + 2, acc.push('"'))
            } else if e == '\\' {
                parse_str_body(s, i + 2, acc.push('\\'))
            } else if e == '/' {
                parse_str_body(s, i + 2, acc.push('/'))
            } else if e == 'n' {
                parse_str_body(s, i + 2, acc.push('\n'))
            } else if e == 't' {
                parse_str_body(s, i + 2, acc.push('\t'))
            } else if e == 'r' {
                parse_str_body(s, i + 2, acc.push('\r'))
            } else if e == 'b' {
                parse_str_body(s, i + 2, acc.push('\u{08}'))
            } else if e == 'f' {
                parse_str_body(s, i + 2, acc.push('\u{0c}'))
            } else if e == 'u' {
                if i + 5 < s.len() && s[i + 2] == '0' && s[i + 3] == '0' && control_char_of(
                    s[i + 4],
                    s[i + 5],
                ) is Some {
                    parse_str_body(s, i + 6, acc.push(control_char_of(s[i + 4], s[i + 5])->Some_0))
                } else {
                    None
                }
            } else {
                None
            }
        } else {
            None
        }
    } else {
        parse_str_body(s, i + 1, acc.push(s[i]))
    }
}

/// Parses a quoted string literal at `i`.
pub open spec fn parse_string(s: Seq<char>, i: int) -> Option<(Seq<char>, int)> {
    if 0 <= i && i < s.len() && s[i] == '"' {
        parse_str_body(s, i + 1, Seq::empty())
    } else {
        None
    }
}

/// Parses a scope value at `i`.
pub open spec fn parse_scope(s: Seq<char>, i: int) -> Option<(ScopeSpec, int)> {
    if expect(s, i, lit_global()) is Some {
        Some((ScopeSpec::Global, expect(s, i, lit_global())->Some_0))
    } else if expect(s, i, lit_exact()) is Some {
        let j = expect(s, i, lit_exact())->Some_0;
        match parse_string(s, j) {
            Some((p, k)) => match expect(s, k, seq!['}']) {
                Some(m) => Some((ScopeSpec::Exact(p), m)),
                None => None,
            },
            None => None,
        }
    } else if expect(s, i, lit_recursive()) is Some {
        let j = expect(s, i, lit_recursive())->Some_0;
        match parse_string(s, j) {
            Some((p, k)) => match expect(s, k, seq!['}']) {
                Some(m) => Some((ScopeSpec::Recursive(p), m)),
                None => None,
            },
            None => None,
        }
    } else {
        None
    }
}

/// Parses one definition object at `i`.
pub open spec fn parse_def(s: Seq<char>, i: int) -> Option<(DefSpec, int)> {
    match expect(s, i, lit_command()) {
        Some(j) => match parse_string(s, j) {
            Some((cmd, k)) => match expect(s, k, lit_scope_key()) {
                Some(m) => match parse_scope(s, m) {
                    Some((sc, n)) => match expect(s, n, seq!['}']) {
                        Some(q) => Some((DefSpec { command: cmd, scope: sc }, q)),
                        None => None,
                    },
                    None => None,
                },
                None => None,
            },
            None => None,
        },
        None => None,
    }
}

/// Parses the second and later list elements at `i`, accumulating into `acc`;
/// stops after the closing bracket.
pub open spec fn parse_defs_rest(s: Seq<char>, i: int, acc: Seq<DefSpec>) -> Option<
    (Seq<DefSpec>, int),
>
    decreases s.len() - i,
{
    if i < 0 || i >= s.len() {
        None
    } else if s[i] == ']' {
        Some((acc, i + 1))
    } else if s[i] == ',' {
        match parse_def(s, i + 1) {
            Some((d, j)) => {
                if i + 1 < j {
                    parse_defs_rest(s, j, acc.push(d))
                } else {
                    None
                }
            },
            None => None,
        }
    } else {
        None
    }
}

/// Parses a whole definition list at position zero.
pub open spec fn parse_defs(s: Seq<char>) -> Option<(Seq<DefSpec>, int)> {
    match expect(s, 0, seq!['[']) {
        Some(j) => {
            if j < s.len() && s[j] == ']' {
                Some((Seq::empty(), j + 1))
            } else {
                match parse_def(s, j) {
                    Some((d, k)) => parse_defs_rest(s, k, seq![d]),
                    None => None,
                }
            }
        },
        None => None,
    }
}

/// What a stored value denotes: the parsed definition list when the whole
/// value parses as one, else a single global definition holding the raw
/// value as its command.
pub open spec fn spec_decode(s: Seq<char>) -> Seq<DefSpec> {
    match parse_defs(s) {
        Some((l, j)) => if j == s.len() {
            l
        } else {
            seq![DefSpec { command: s, scope: ScopeSpec::Global }]
        },
        None => seq![DefSpec { command: s, scope: ScopeSpec::Global }],
    }
}

} // verus!

verus! {

// ---------------------------------------------------------------------------
// Round trip: parsing inverts encoding
// ---------------------------------------------------------------------------
/// A subrange equal to a concatenation splits into its two parts.
proof fn lemma_subrange_split(s: Seq<char>, i: int, a: Seq<char>, b: Seq<char>)
    requires
        0 <= i,
        i + a.len() + b.len() <= s.len(),
        s.subrange(i, i + a.len() + b.len()) == a + b,
    ensures
        s.subrange(i, i + a.len()) == a,
        s.subrange(i + a.len(), i + a.len() + b.len()) == b,
{
    assert forall|k: int| 0 <= k < a.len() + b.len() implies s[i + k] == (a + b)[k] by {
        assert(s.subrange(i, i + a.len() + b.len())[k] == s[i + k]);
    }
    assert(s.subrange(i, i + a.len()) =~= a);
    assert forall|k: int| 0 <= k < b.len() implies s.subrange(
        i + a.len(),
        i + a.len() + b.len(),
    )[k] == b[k] by {
        assert(s[i + (a.len() + k)] == (a + b)[a.len() + k]);
    }
    assert(s.subrange(i + a.len(), i + a.len() + b.len()) =~= b);
}

/// Parsing a string body over the escaped form of `t` followed by a closing
/// quote yields exactly `t` appended to the accumulator.
proof fn lemma_parse_str_body_of_escape(t: Seq<char>, s: Seq<char>, i: int, acc: Seq<char>)
    requires
        0 <= i,
        i + escape_seq(t).len() + 1 <= s.len(),
        s.subrange(i, i + escape_seq(t).len() + 1) == escape_seq(t) + seq!['"'],
    ensures
        parse_str_body(s, i, acc) == Some((acc + t, i + escape_seq(t).len() + 1)),
    decreases t.len(),
{
    if t.len() == 0 {
        assert(escape_seq(t) =~= Seq::<char>::empty());
        assert(s[i] == (escape_seq(t) + seq!['"'])[0]) by {
            assert(s.subrange(i, i + 1)[0] == s[i]);
        }
        assert(s[i] == '"');
        assert(acc + t =~= acc);
    } else {
        let c = t[0];
        let e = escape_char(c);
        let rest = t.skip(1);
        assert(escape_seq(t) == e + escape_seq(rest));
        let full = escape_seq(t) + seq!['"'];
        assert(full =~= e + (escape_seq(rest) + seq!['"']));
        lemma_subrange_split(s, i, e, escape_seq(rest) + seq!['"']);
        assert forall|k: int| 0 <= k < e.len() implies s[i + k] == e[k] by {
            assert(s.subrange(i, i + e.len())[k] == s[i + k]);
        }
        if c == '"' {
            assert(s[i] == '\\' && s[i + 1] == '"');
            lemma_parse_str_body_of_escape(rest, s, i + 2, acc.push('"'));
            assert(acc.push('"') + rest =~= acc + t);
        } else if c == '\\' {
            assert(s[i] == '\\' && s[i + 1] == '\\');
            lemma_parse_str_body_of_escape(rest, s, i + 2, acc.push('\\'));
            assert(acc.push('\\') + rest =~= acc + t);
        } else {
            assert(s[i] == c) by {
                assert(s[i + 0] == e[0]);
            }
            lemma_parse_str_body_of_escape(rest, s, i + 1, acc.push(c));
            assert(acc.push(c) + rest =~= acc + t);
        }
    }
}

/// Parsing a quoted string over the encoding of `t` yields exactly `t`.
proof fn lemma_parse_string_of_enc(t: Seq<char>, s: Seq<char>, i: int)
    requires
        0 <= i,
        i + enc_string(t).len() <= s.len(),
        s.subrange(i, i + enc_string(t).len()) == enc_string(t),
    ensures
        parse_string(s, i) == Some((t, i + enc_string(t).len())),
{
    assert(enc_string(t) =~= seq!['"'] + (escape_seq(t) + seq!['"']));
    lemma_subrange_split(s, i, seq!['"'], escape_seq(t) + seq!['"']);
    assert(s[i] == '"') by {
        assert(s.subrange(i, i + 1)[0] == s[i]);
    }
    lemma_parse_str_body_of_escape(t, s, i + 1, Seq::empty());
    assert(Seq::<char>::empty() + t =~= t);
}

/// A subrange equal to a literal makes `expect` succeed.
proof fn lemma_expect(s: Seq<char>, i: int, lit: Seq<char>)
    requires
        0 <= i,
        i + lit.len() <= s.len(),
        s.subrange(i, i + lit.len()) == lit,
    ensures
        expect(s, i, lit) == Some(i + lit.len()),
{
}

} // verus!

verus! {

/// Parsing a scope over the encoding of `sc` yields exactly `sc`.
proof fn lemma_parse_scope_of_enc(sc: ScopeSpec, s: Seq<char>, i: int)
    requires
        0 <= i,
        i + enc_scope(sc).len() <= s.len(),
        s.subrange(i, i + enc_scope(sc).len()) == enc_scope(sc),
    ensures
        parse_scope(s, i) == Some((sc, i + enc_scope(sc).len())),
{
    match sc {
        ScopeSpec::Global => {
            lemma_expect(s, i, lit_global());
        },
        ScopeSpec::Exact(p) => {
            assert(enc_scope(sc) =~= lit_exact() + (enc_string(p) + seq!['}']));
            lemma_subrange_split(s, i, lit_exact(), enc_string(p) + seq!['}']);
            let j = i + lit_exact().len();
            lemma_subrange_split(s, j, enc_string(p), seq!['}']);
            assert(expect(s, i, lit_global()) is None) by {
                if expect(s, i, lit_global()) is Some {
                    assert(s.subrange(i, i + lit_global().len())[0] == s[i]);
                    assert(s.subrange(i, i + lit_exact().len())[0] == s[i]);
                }
            }
            lemma_expect(s, i, lit_exact());
            lemma_parse_string_of_enc(p, s, j);
            let k = j + enc_string(p).len();
            lemma_expect(s, k, seq!['}']);
        },
        ScopeSpec::Recursive(p) => {
            assert(enc_scope(sc) =~= lit_recursive() + (enc_string(p) + seq!['}']));
            lemma_subrange_split(s, i, lit_recursive(), enc_string(p) + seq!['}']);
            let j = i + lit_recursive().len();
            lemma_subrange_split(s, j, enc_string(p), seq!['}']);
            assert(expect(s, i, lit_global()) is None) by {
                if expect(s, i, lit_global()) is Some {
                    assert(s.subrange(i, i + lit_global().len())[0] == s[i]);
                    assert(s.subrange(i, i + lit_recursive().len())[0] == s[i]);
                }
            }
            assert(expect(s, i, lit_exact()) is None) by {
                if expect(s, i, lit_exact()) is Some {
                    assert(s.subrange(i, i + lit_exact().len())[2] == s[i + 2]);
                    assert(s.subrange(i, i + lit_recursive().len())[2] == s[i + 2]);
                }
            }
            lemma_expect(s, i, lit_recursive());
            lemma_parse_string_of_enc(p, s, j);
            let k = j + enc_string(p).len();
            lemma_expect(s, k, seq!['}']);
        },
    }
}

/// Parsing a definition over the encoding of `d` yields exactly `d`.
proof fn lemma_parse_def_of_enc(d: DefSpec, s: Seq<char>, i: int)
    requires
        0 <= i,
        i + enc_def(d).len() <= s.len(),
        s.subrange(i, i + enc_def(d).len()) == enc_def(d),
    ensures
        parse_def(s, i) == Some((d, i + enc_def(d).len())),
{
    let tail1 = enc_string(d.command) + (lit_scope_key() + (enc_scope(d.scope) + seq!['}']));
    assert(enc_def(d) =~= lit_command() + tail1);
    lemma_subrange_split(s, i, lit_command(), tail1);
    lemma_expect(s, i, lit_command());
    let j = i + lit_command().len();
    let tail2 = lit_scope_key() + (enc_scope(d.scope) + seq!['}']);
    lemma_subrange_split(s, j, enc_string(d.command), tail2);
    lemma_parse_string_of_enc(d.command, s, j);
    let k = j + enc_string(d.command).len();
    let tail3 = enc_scope(d.scope) + seq!['}'];
    lemma_subrange_split(s, k, lit_scope_key(), tail3);
    lemma_expect(s, k, lit_scope_key());
    let m = k + lit_scope_key().len();
    lemma_subrange_split(s, m, enc_scope(d.scope), seq!['}']);
    lemma_parse_scope_of_enc(d.scope, s, m);
    let n = m + enc_scope(d.scope).len();
    lemma_expect(s, n, seq!['}']);
}

/// Parsing the tail of a list over the encoding of `l` followed by the
/// closing bracket appends exactly `l` to the accumulator.
proof fn lemma_parse_defs_rest_of_enc(l: Seq<DefSpec>, s: Seq<char>, i: int, acc: Seq<DefSpec>)
    requires
        0 <= i,
        i + enc_defs_rest(l).len() + 1 <= s.len(),
        s.subrange(i, i + enc_defs_rest(l).len() + 1) == enc_defs_rest(l) + seq![']'],
    ensures
        parse_defs_rest(s, i, acc) == Some((acc + l, i + enc_defs_rest(l).len() + 1)),
    decreases l.len(),
{
    if l.len() == 0 {
        assert(enc_defs_rest(l) =~= Seq::<char>::empty());
        assert(s[i] == ']') by {
            assert(s.subrange(i, i + 1)[0] == s[i]);
        }
        assert(acc + l =~= acc);
    } else {
        let d = l[0];
        let rest = l.skip(1);
        let tail = enc_def(d) + (enc_defs_rest(rest) + seq![']']);
        assert(enc_defs_rest(l) + seq![']'] =~= seq![','] + tail);
        lemma_subrange_split(s, i, seq![','], tail);
        assert(s[i] == ',') by {
            assert(s.subrange(i, i + 1)[0] == s[i]);
        }
        lemma_subrange_split(s, i + 1, enc_def(d), enc_defs_rest(rest) + seq![']']);
        lemma_parse_def_of_enc(d, s, i + 1);
        let j = i + 1 + enc_def(d).len();
        lemma_parse_defs_rest_of_enc(rest, s, j, acc.push(d));
        assert(acc.push(d) + rest =~= acc + l);
    }
}

/// Parsing the encoding of a whole list yields exactly that list and
/// consumes the whole input.
/// Assembles a whole-list parse from the parses of its pieces.
proof fn lemma_parse_defs_compose(s: Seq<char>, l: Seq<DefSpec>, d: DefSpec, k0: int)
    requires
        expect(s, 0, seq!['[']) == Some(1int),
        1 < s.len(),
        s[1] == '{',
        parse_def(s, 1) == Some((d, k0)),
        parse_defs_rest(s, k0, seq![d]) == Some((l, s.len() as int)),
    ensures
        parse_defs(s) == Some((l, s.len() as int)),
{
}

/// The opening bracket and first character of a nonempty encoding.
proof fn lemma_parse_defs_of_enc_head(l: Seq<DefSpec>)
    requires
        l.len() > 0,
    ensures
        expect(spec_encode(l), 0, seq!['[']) == Some(1int),
        1 < spec_encode(l).len(),
        spec_encode(l)[1] == '{',
{
    let s = spec_encode(l);
    assert(s.subrange(0, 1) =~= seq!['[']);
    lemma_expect(s, 0, seq!['[']);
    assert(s[1] == enc_def(l[0])[0]);
    assert(enc_def(l[0])[0] == '{');
}

/// The first definition of a nonempty encoding parses at position one.
proof fn lemma_parse_defs_of_enc_first(l: Seq<DefSpec>)
    requires
        l.len() > 0,
    ensures
        parse_def(spec_encode(l), 1) == Some((l[0], 1 + enc_def(l[0]).len() as int)),
{
    let s = spec_encode(l);
    let e = enc_def(l[0]);
    assert(s.subrange(1, 1 + e.len() as int) =~= e) by {
        assert forall|k: int| 0 <= k < e.len() implies s.subrange(1, 1 + e.len() as int)[k]
            == e[k] by {
            assert(s[1 + k] == e[k]);
        }
    }
    lemma_parse_def_of_enc(l[0], s, 1);
}

/// The shape of a nonempty encoding past its first definition: the tail
/// encoding sits there, and the input ends right after it.
proof fn lemma_enc_tail_shape(l: Seq<DefSpec>)
    requires
        l.len() > 0,
    ensures
        spec_encode(l).len() == 1 + enc_def(l[0]).len() + enc_defs_rest(l.skip(1)).len() + 1,
        spec_encode(l).subrange(
            1 + enc_def(l[0]).len() as int,
            spec_encode(l).len() as int,
        ) == enc_defs_rest(l.skip(1)) + seq![']'],
{
    let s = spec_encode(l);
    let e = enc_def(l[0]);
    let r2 = enc_defs_rest(l.skip(1));
    let k0: int = 1 + e.len() as int;
    let t1 = e + (r2 + seq![']']);
    assert forall|k: int| 0 <= k < r2.len() + 1 implies s.subrange(k0, s.len() as int)[k] == (r2
        + seq![']'])[k] by {
        assert(s[k0 + k] == t1[e.len() + k]);
        assert(t1[e.len() + k] == (r2 + seq![']'])[k]);
    }
    assert(s.subrange(k0, s.len() as int) =~= r2 + seq![']']);
}

/// The tail of a nonempty encoding parses from the end of the first
/// definition to the end of the input.
proof fn lemma_parse_defs_of_enc_tail(l: Seq<DefSpec>, s: Seq<char>, k0: int)
    requires
        l.len() > 0,
        k0 == 1 + enc_def(l[0]).len(),
        s.len() == k0 + enc_defs_rest(l.skip(1)).len() + 1,
        s.subrange(k0, s.len() as int) == enc_defs_rest(l.skip(1)) + seq![']'],
    ensures
        parse_defs_rest(s, k0, seq![l[0]]) == Some((l, s.len() as int)),
{
    lemma_parse_defs_rest_of_enc(l.skip(1), s, k0, seq![l[0]]);
    assert(seq![l[0]] + l.skip(1) =~= l);
}

/// The nonempty case of [`lemma_parse_defs_of_enc`].
proof fn lemma_parse_defs_of_enc_nonempty(l: Seq<DefSpec>)
    requires
        l.len() > 0,
    ensures
        parse_defs(spec_encode(l)) == Some((l, spec_encode(l).len() as int)),
{
    lemma_parse_defs_of_enc_head(l);
    lemma_parse_defs_of_enc_first(l);
    lemma_enc_tail_shape(l);
    lemma_parse_defs_of_enc_tail(l, spec_encode(l), 1 + enc_def(l[0]).len() as int);
    lemma_parse_defs_compose(spec_encode(l), l, l[0], 1 + enc_def(l[0]).len() as int);
}

proof fn lemma_parse_defs_of_enc(l: Seq<DefSpec>)
    ensures
        parse_defs(spec_encode(l)) == Some((l, spec_encode(l).len() as int)),
{
    let s = spec_encode(l);
    if l.len() == 0 {
        assert(s.subrange(0, 1) =~= seq!['[']);
        lemma_expect(s, 0, seq!['[']);
    } else {
        lemma_parse_defs_of_enc_nonempty(l);
    }
}

/// Decoding inverts encoding: any definition list, whatever its commands and
/// paths hold, is reproduced exactly by a round trip through the store's
/// persisted form.
pub proof fn lemma_decode_encode(l: Seq<DefSpec>)
    ensures
        spec_decode(spec_encode(l)) == l,
{
    lemma_parse_defs_of_enc(l);
}

} // verus!

verus! {

/// Escaping distributes over concatenation.
proof fn lemma_escape_seq_append(a: Seq<char>, b: Seq<char>)
    ensures
        escape_seq(a + b) == escape_seq(a) + escape_seq(b),
    decreases a.len(),
{
    if a.len() == 0 {
        assert(a + b =~= b);
        assert(escape_seq(a) + escape_seq(b) =~= escape_seq(b));
    } else {
        assert((a + b).skip(1) =~= a.skip(1) + b);
        lemma_escape_seq_append(a.skip(1), b);
        assert(escape_seq(a) + escape_seq(b) =~= escape_char(a[0]) + (escape_seq(a.skip(1))
            + escape_seq(b)));
        assert(escape_seq(a + b) =~= escape_char((a + b)[0]) + escape_seq((a + b).skip(1)));
    }
}

/// Appends the escaped form of `s` to `out`.
fn push_escaped(s: &str, out: &mut Vec<char>)
    ensures
        final(out)@ == old(out)@ + escape_seq(s@),
{
    let v = crate::text::str_to_chars(s);
    let n = v.len();
    let mut i: usize = 0;
    proof {
        assert(s@.subrange(0, 0) =~= Seq::<char>::empty());
        assert(out@ =~= old(out)@ + escape_seq(s@.subrange(0, 0)));
    }
    while i < n
        invariant
            v@ == s@,
            n == s@.len(),
            i <= n,
            out@ == old(out)@ + escape_seq(s@.subrange(0, i as int)),
        decreases n - i,
    {
        let c = v[i];
        if c == '"' {
            out.push('\\');
            out.push('"');
        } else if c == '\\' {
            out.push('\\');
            out.push('\\');
        } else {
            out.push(c);
        }
        proof {
            assert(s@.subrange(0, i + 1) =~= s@.subrange(0, i as int) + seq![s@[i as int]]);
            lemma_escape_seq_append(s@.subrange(0, i as int), seq![s@[i as int]]);
            assert(seq![s@[i as int]].skip(1) =~= Seq::<char>::empty());
            assert(escape_seq(Seq::<char>::empty()) =~= Seq::<char>::empty());
            assert(escape_seq(seq![s@[i as int]]) =~= escape_char(s@[i as int]));
            assert(out@ =~= old(out)@ + escape_seq(s@.subrange(0, i + 1)));
        }
        i = i + 1;
    }
    proof {
        assert(s@.subrange(0, n as int) =~= s@);
    }
}

/// Appends the quoted, escaped encoding of `s` to `out`.
fn push_string_enc(s: &str, out: &mut Vec<char>)
    ensures
        final(out)@ == old(out)@ + enc_string(s@),
{
    out.push('"');
    push_escaped(s, out);
    out.push('"');
    proof {
        assert(out@ =~= old(out)@ + enc_string(s@));
    }
}

/// Appends the encoding of one scope to `out`.
fn push_scope_enc(sc: &AliasScope, out: &mut Vec<char>)
    ensures
        final(out)@ == old(out)@ + enc_scope(sc@),
{
    match sc {
        AliasScope::Global => {
            crate::text::push_chars("\"Global\"", out);
            proof {
                reveal_strlit("\"Global\"");
                assert("\"Global\""@ =~= lit_global());
            }
        },
        AliasScope::Exact(p) => {
            crate::text::push_chars("{\"Exact\":", out);
            proof {
                reveal_strlit("{\"Exact\":");
                assert("{\"Exact\":"@ =~= lit_exact());
            }
            push_string_enc(p.as_str(), out);
            out.push('}');
            proof {
                assert(out@ =~= old(out)@ + enc_scope(sc@));
            }
        },
        AliasScope::Recursive(p) => {
            crate::text::push_chars("{\"Recursive\":", out);
            proof {
                reveal_strlit("{\"Recursive\":");
                assert("{\"Recursive\":"@ =~= lit_recursive());
            }
            push_string_enc(p.as_str(), out);
            out.push('}');
            proof {
                assert(out@ =~= old(out)@ + enc_scope(sc@));
            }
        },
    }
}

/// Appends the encoding of one definition to `out`.
fn push_def_enc(d: &AliasDefinition, out: &mut Vec<char>)
    ensures
        final(out)@ == old(out)@ + enc_def(d@),
{
    crate::text::push_chars("{\"command\":", out);
    proof {
        reveal_strlit("{\"command\":");
        assert("{\"command\":"@ =~= lit_command());
    }
    push_string_enc(d.command.as_str(), out);
    crate::text::push_chars(",\"scope\":", out);
    proof {
        reveal_strlit(",\"scope\":");
        assert(",\"scope\":"@ =~= lit_scope_key());
    }
    push_scope_enc(&d.scope, out);
    out.push('}');
    proof {
        assert(out@ =~= old(out)@ + enc_def(d@));
    }
}

/// Appending one more definition extends the encoded tail by a comma and
/// that definition's encoding.
proof fn lemma_enc_defs_rest_snoc(l: Seq<DefSpec>, d: DefSpec)
    ensures
        enc_defs_rest(l.push(d)) == enc_defs_rest(l) + (seq![','] + enc_def(d)),
    decreases l.len(),
{
    if l.len() == 0 {
        assert(l.push(d)[0] == d);
        assert(l.push(d).skip(1) =~= Seq::<DefSpec>::empty());
        assert(enc_defs_rest(l.push(d)) == seq![','] + (enc_def(d) + enc_defs_rest(
            l.push(d).skip(1),
        )));
        assert(enc_defs_rest(l.push(d)) =~= enc_defs_rest(l) + (seq![','] + enc_def(d)));
    } else {
        assert(l.push(d)[0] == l[0]);
        assert(l.push(d).skip(1) =~= l.skip(1).push(d));
        lemma_enc_defs_rest_snoc(l.skip(1), d);
        assert(enc_defs_rest(l.push(d)) =~= enc_defs_rest(l) + (seq![','] + enc_def(d)));
    }
}

/// Renders a definition list in its persisted form.
pub fn encode_definitions(defs: &Vec<AliasDefinition>) -> (r: String)
    ensures
        r@ == spec_encode(def_views(defs@)),
{
    let ghost views = def_views(defs@);
    let mut out: Vec<char> = Vec::new();
    if defs.len() == 0 {
        out.push('[');
        out.push(']');
        proof {
            assert(out@ =~= spec_encode(views));
        }
    } else {
        out.push('[');
        push_def_enc(&defs[0], &mut out);
        let n = defs.len();
        let mut i: usize = 1;
        proof {
            assert(views.subrange(1, 1) =~= Seq::<DefSpec>::empty());
            assert(out@ =~= seq!['['] + enc_def(views[0]) + enc_defs_rest(views.subrange(1, 1)));
        }
        while i < n
            invariant
                1 <= i <= n,
                n == defs.len(),
                views == def_views(defs@),
                views.len() == n,
                out@ == seq!['['] + enc_def(views[0]) + enc_defs_rest(views.subrange(1, i as int)),
            decreases n - i,
        {
            out.push(',');
            push_def_enc(&defs[i], &mut out);
            proof {
                assert(views.subrange(1, i + 1) =~= views.subrange(1, i as int).push(
                    views[i as int],
                ));
                lemma_enc_defs_rest_snoc(views.subrange(1, i as int), views[i as int]);
                assert(out@ =~= seq!['['] + enc_def(views[0]) + enc_defs_rest(
                    views.subrange(1, i + 1),
                ));
            }
            i = i + 1;
        }
        out.push(']');
        proof {
            assert(views.subrange(1, n as int) =~= views.skip(1));
            assert(out@ =~= spec_encode(views));
        }
    }
    crate::text::chars_to_string(&out)
}


} // verus!

verus! {

/// Checks that `lit` occurs in `v` at position `i`.
fn expect_lit(v: &Vec<char>, i: usize, lit: &str) -> (r: Option<usize>)
    ensures
        match r {
            Some(j) => expect(v@, i as int, lit@) == Some(j as int) && i <= j <= v@.len(),
            None => expect(v@, i as int, lit@) is None,
        },
{
    let litv = crate::text::str_to_chars(lit);
    let m = litv.len();
    let n = v.len();
    if n < m || i > n - m {
        return None;
    }
    let mut k: usize = 0;
    while k < m
        invariant
            litv@ == lit@,
            m == lit@.len(),
            n == v@.len(),
            i + m <= n,
            k <= m,
            forall|q: int| 0 <= q < k ==> v@[i + q] == lit@[q],
        decreases m - k,
    {
        if v[i + k] != litv[k] {
            proof {
                assert(v@.subrange(i as int, i + m) != lit@) by {
                    if v@.subrange(i as int, i + m) == lit@ {
                        assert(v@.subrange(i as int, i + m)[k as int] == lit@[k as int]);
                    }
                }
            }
            return None;
        }
        k = k + 1;
    }
    proof {
        assert forall|q: int| 0 <= q < m implies v@.subrange(i as int, i + m)[q] == lit@[q] by {
            assert(v@[i + q] == lit@[q]);
        }
        assert(v@.subrange(i as int, i + m) =~= lit@);
    }
    Some(i + m)
}


/// Executable mirror of [`control_char_of`].
fn control_char_exec(h: char, l: char) -> (r: Option<char>)
    ensures
        r == control_char_of(h, l),
{
    let low: Option<u32> = if l == '0' {
        Some(0)
    } else if l == '1' {
        Some(1)
    } else if l == '2' {
        Some(2)
    } else if l == '3' {
        Some(3)
    } else if l == '4' {
        Some(4)
    } else if l == '5' {
        Some(5)
    } else if l == '6' {
        Some(6)
    } else if l == '7' {
        Some(7)
    } else if l == '8' {
        Some(8)
    } else if l == '9' {
        Some(9)
    } else if l == 'a' || l == 'A' {
        Some(10)
    } else if l == 'b' || l == 'B' {
        Some(11)
    } else if l == 'c' || l == 'C' {
        Some(12)
    } else if l == 'd' || l == 'D' {
        Some(13)
    } else if l == 'e' || l == 'E' {
        Some(14)
    } else if l == 'f' || l == 'F' {
        Some(15)
    } else {
        None
    };
    match low {
        Some(va) => {
            if h == '0' {
                Some(low_control_exec(va))
            } else if h == '1' {
                Some(high_control_exec(va))
            } else {
                None
            }
        },
        None => None,
    }
}

/// Executable mirror of [`low_control`].
fn low_control_exec(v: u32) -> (c: char)
    requires
        v < 16,
    ensures
        c == low_control(v as int),
{
    if v == 0 {
        '\u{00}'
    } else if v == 1 {
        '\u{01}'
    } else if v == 2 {
        '\u{02}'
    } else if v == 3 {
        '\u{03}'
    } else if v == 4 {
        '\u{04}'
    } else if v == 5 {
        '\u{05}'
    } else if v == 6 {
        '\u{06}'
    } else if v == 7 {
        '\u{07}'
    } else if v == 8 {
        '\u{08}'
    } else if v == 9 {
        '\u{09}'
    } else if v == 10 {
        '\u{0a}'
    } else if v == 11 {
        '\u{0b}'
    } else if v == 12 {
        '\u{0c}'
    } else if v == 13 {
        '\u{0d}'
    } else if v == 14 {
        '\u{0e}'
    } else {
        '\u{0f}'
    }
}

/// Executable mirror of [`high_control`].
fn high_control_exec(v: u32) -> (c: char)
    requires
        v < 16,
    ensures
        c == high_control(v as int),
{
    if v == 0 {
        '\u{10}'
    } else if v == 1 {
        '\u{11}'
    } else if v == 2 {
        '\u{12}'
    } else if v == 3 {
        '\u{13}'
    } else if v == 4 {
        '\u{14}'
    } else if v == 5 {
        '\u{15}'
    } else if v == 6 {
        '\u{16}'
    } else if v == 7 {
        '\u{17}'
    } else if v == 8 {
        '\u{18}'
    } else if v == 9 {
        '\u{19}'
    } else if v == 10 {
        '\u{1a}'
    } else if v == 11 {
        '\u{1b}'
    } else if v == 12 {
        '\u{1c}'
    } else if v == 13 {
        '\u{1d}'
    } else if v == 14 {
        '\u{1e}'
    } else {
        '\u{1f}'
    }
}

/// Parses a quoted string literal at `i`, as [`parse_string`] reads it.
fn parse_string_exec(v: &Vec<char>, i: usize) -> (r: Option<(Vec<char>, usize)>)
    ensures
        match r {
            Some(t) => parse_string(v@, i as int) == Some((t.0@, t.1 as int)) && i < t.1 <= v@.len(),
            None => parse_string(v@, i as int) is None,
        },
{
    if i >= v.len() || v[i] != '"' {
        return None;
    }
    let mut cur: usize = i + 1;
    let mut acc: Vec<char> = Vec::new();
    loop
        invariant
            i + 1 <= cur <= v@.len(),
            i < v@.len(),
            v@[i as int] == '"',
            parse_string(v@, i as int) == parse_str_body(v@, cur as int, acc@),
        decreases v@.len() - cur,
    {
        if cur >= v.len() {
            return None;
        }
        let c = v[cur];
        if c == '"' {
            return Some((acc, cur + 1));
        }
        if c == '\\' {
            if cur + 1 >= v.len() {
                return None;
            }
            let e = v[cur + 1];
            if e == '"' {
                acc.push('"');
            } else if e == '\\' {
                acc.push('\\');
            } else if e == '/' {
                acc.push('/');
            } else if e == 'n' {
                acc.push('\n');
            } else if e == 't' {
                acc.push('\t');
            } else if e == 'r' {
                acc.push('\r');
            } else if e == 'b' {
                acc.push('\u{08}');
            } else if e == 'f' {
                acc.push('\u{0c}');
            } else if e == 'u' {
                if v.len() - cur > 5 && v[cur + 2] == '0' && v[cur + 3] == '0' {
                    match control_char_exec(v[cur + 4], v[cur + 5]) {
                        Some(c) => {
                            acc.push(c);
                            cur = cur + 6;
                            continue;
                        },
                        None => {
                            return None;
                        },
                    }
                } else {
                    return None;
                }
            } else {
                return None;
            }
            cur = cur + 2;
        } else {
            acc.push(c);
            cur = cur + 1;
        }
    }
}

/// Parses a scope value at `i`, as [`parse_scope`] reads it.
fn parse_scope_exec(v: &Vec<char>, i: usize) -> (r: Option<(AliasScope, usize)>)
    ensures
        match r {
            Some(t) => parse_scope(v@, i as int) == Some((t.0@, t.1 as int)) && i < t.1 <= v@.len(),
            None => parse_scope(v@, i as int) is None,
        },
{
    proof {
        reveal_strlit("\"Global\"");
        assert("\"Global\""@ =~= lit_global());
        reveal_strlit("{\"Exact\":");
        assert("{\"Exact\":"@ =~= lit_exact());
        reveal_strlit("{\"Recursive\":");
        assert("{\"Recursive\":"@ =~= lit_recursive());
        reveal_strlit("}");
        assert("}"@ =~= seq!['}']);
    }
    if let Some(j) = expect_lit(v, i, "\"Global\"") {
        return Some((AliasScope::Global, j));
    }
    if let Some(j) = expect_lit(v, i, "{\"Exact\":") {
        if let Some((p, k)) = parse_string_exec(v, j) {
            if let Some(m) = expect_lit(v, k, "}") {
                return Some((AliasScope::Exact(crate::text::chars_to_string(&p)), m));
            }
        }
        return None;
    }
    if let Some(j) = expect_lit(v, i, "{\"Recursive\":") {
        if let Some((p, k)) = parse_string_exec(v, j) {
            if let Some(m) = expect_lit(v, k, "}") {
                return Some((AliasScope::Recursive(crate::text::chars_to_string(&p)), m));
            }
        }
        return None;
    }
    None
}

/// Parses one definition object at `i`, as [`parse_def`] reads it.
fn parse_def_exec(v: &Vec<char>, i: usize) -> (r: Option<(AliasDefinition, usize)>)
    ensures
        match r {
            Some(t) => parse_def(v@, i as int) == Some((t.0@, t.1 as int)) && i < t.1 <= v@.len(),
            None => parse_def(v@, i as int) is None,
        },
{
    proof {
        reveal_strlit("{\"command\":");
        assert("{\"command\":"@ =~= lit_command());
        reveal_strlit(",\"scope\":");
        assert(",\"scope\":"@ =~= lit_scope_key());
        reveal_strlit("}");
        assert("}"@ =~= seq!['}']);
    }
    if let Some(j) = expect_lit(v, i, "{\"command\":") {
        if let Some((cmd, k)) = parse_string_exec(v, j) {
            if let Some(m) = expect_lit(v, k, ",\"scope\":") {
                if let Some((sc, n)) = parse_scope_exec(v, m) {
                    if let Some(q) = expect_lit(v, n, "}") {
                        let d = AliasDefinition {
                            command: crate::text::chars_to_string(&cmd),
                            scope: sc,
                        };
                        return Some((d, q));
                    }
                }
            }
        }
    }
    None
}

/// Parses a whole definition list, as [`parse_defs`] reads it.
fn parse_defs_exec(v: &Vec<char>) -> (r: Option<(Vec<AliasDefinition>, usize)>)
    ensures
        match r {
            Some(t) => parse_defs(v@) == Some((def_views(t.0@), t.1 as int)) && t.1 <= v@.len(),
            None => parse_defs(v@) is None,
        },
{
    proof {
        reveal_strlit("[");
        assert("["@ =~= seq!['[']);
    }
    let j = match expect_lit(v, 0, "[") {
        Some(j) => j,
        None => {
            return None;
        },
    };
    if j < v.len() && v[j] == ']' {
        let empty_list: Vec<AliasDefinition> = Vec::new();
        proof {
            assert(def_views(Seq::<AliasDefinition>::empty()) =~= Seq::<DefSpec>::empty());
        }
        return Some((empty_list, j + 1));
    }
    let (d0, k0) = match parse_def_exec(v, j) {
        Some(t) => t,
        None => {
            return None;
        },
    };
    let mut acc: Vec<AliasDefinition> = Vec::new();
    acc.push(d0);
    let mut cur: usize = k0;
    proof {
        assert(def_views(acc@) =~= seq![d0@]);
    }
    loop
        invariant
            cur <= v@.len(),
            parse_defs(v@) == parse_defs_rest(v@, cur as int, def_views(acc@)),
        decreases v@.len() - cur,
    {
        if cur >= v.len() {
            return None;
        }
        let c = v[cur];
        if c == ']' {
            return Some((acc, cur + 1));
        }
        if c != ',' {
            return None;
        }
        let (d, nxt) = match parse_def_exec(v, cur + 1) {
            Some(t) => t,
            None => {
                return None;
            },
        };
        proof {
            assert(def_views(acc@.push(d)) =~= def_views(acc@).push(d@));
        }
        acc.push(d);
        cur = nxt;
    }
}

/// Reads a stored value back as a definition list: the parsed list when the
/// whole value parses as one, else a single global definition holding the
/// raw value as its command.
pub fn decode_definitions(s: &str) -> (r: Vec<AliasDefinition>)
    ensures
        def_views(r@) == spec_decode(s@),
{
    let v = crate::text::str_to_chars(s);
    if let Some((l, j)) = parse_defs_exec(&v) {
        if j == v.len() {
            return l;
        }
    }
    let mut fallback: Vec<AliasDefinition> = Vec::new();
    fallback.push(AliasDefinition { command: s.to_owned(), scope: AliasScope::Global });
    proof {
        assert(def_views(fallback@) =~= seq![DefSpec { command: s@, scope: ScopeSpec::Global }]);
    }
    fallback
}

} // verus!
