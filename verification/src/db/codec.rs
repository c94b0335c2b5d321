//! The snapshot wire format: a single JSON object holding the
//! modification stamp and the three collections, rendered and parsed by
//! verified code.
//!
//! The `enc_*` functions define the canonical rendering; the `p_*`
//! functions define parsing. `lemma_db_round_trip` proves that parsing a
//! rendering yields exactly the rendered store, which is what the
//! load–store–load guarantee of the catalog rests on.
use vstd::prelude::*;
use vstd::string::StrSliceExecFns;

use crate::db::StoreV;
use crate::entities::{Group, GroupV, RelV, Relation, RepoV, Repository};
use crate::utils::{
    chars_to_string, dec_chars, dec_digit, digit_val, is_digit, lemma_dec_chars_digits,
    u64_to_chars,
};

verus! {

// ---------------------------------------------------------------------
// rendering
// ---------------------------------------------------------------------

/// One character as it appears inside a quoted string: quotes and
/// backslashes are escaped with a backslash.
pub open spec fn esc_char(c: char) -> Seq<char> {
    if c == '"' || c == '\\' {
        seq!['\\', c]
    } else {
        seq![c]
    }
}

/// A whole string body, escaped.
pub open spec fn esc(s: Seq<char>) -> Seq<char>
    decreases s.len(),
{
    if s.len() == 0 {
        Seq::empty()
    } else {
        esc_char(s[0]) + esc(s.drop_first())
    }
}

/// Escaping distributes over concatenation.
pub proof fn lemma_esc_append(a: Seq<char>, b: Seq<char>)
    ensures
        esc(a + b) == esc(a) + esc(b),
    decreases a.len(),
{
    if a.len() == 0 {
        assert(a + b =~= b);
        assert(esc(a) + esc(b) =~= esc(b));
    } else {
        assert((a + b).drop_first() =~= a.drop_first() + b);
        lemma_esc_append(a.drop_first(), b);
        assert((a + b)[0] == a[0]);
        assert(esc(a + b) =~= esc(a) + esc(b));
    }
}

/// A quoted, escaped string.
pub open spec fn enc_str(s: Seq<char>) -> Seq<char> {
    seq!['"'] + esc(s) + seq!['"']
}

/// An optional string: `null` when absent.
pub open spec fn enc_opt_str(s: Option<Seq<char>>) -> Seq<char> {
    match s {
        Some(t) => enc_str(t),
        None => "null"@,
    }
}

/// An optional counter: `null` when absent.
pub open spec fn enc_opt_u64(n: Option<u64>) -> Seq<char> {
    match n {
        Some(v) => dec_chars(v as int),
        None => "null"@,
    }
}

/// An optional flag: `true`, `false` or `null`.
pub open spec fn enc_opt_bool(b: Option<bool>) -> Seq<char> {
    match b {
        Some(true) => "true"@,
        Some(false) => "false"@,
        None => "null"@,
    }
}

/// One repository record.
pub open spec fn enc_repo(r: RepoV) -> Seq<char> {
    "{\"id\":"@ + enc_str(r.id) + ",\"path\":"@ + enc_str(r.path) + ",\"description\":"@
        + enc_opt_str(r.description) + ",\"last-access\":"@ + enc_opt_u64(r.last_access) + "}"@
}

/// One group record.
pub open spec fn enc_group(g: GroupV) -> Seq<char> {
    "{\"name\":"@ + enc_str(g.name) + ",\"note\":"@ + enc_str(g.note) + ",\"abbrev\":"@
        + enc_opt_bool(g.abbrev) + "}"@
}

/// One relation record.
pub open spec fn enc_rel(l: RelV) -> Seq<char> {
    "{\"id\":"@ + enc_str(l.id) + ",\"group\":"@ + enc_str(l.group) + "}"@
}

/// The tail of a repository list: `,record` repeated, then `]`.
pub open spec fn enc_repos_rest(items: Seq<RepoV>) -> Seq<char>
    decreases items.len(),
{
    if items.len() == 0 {
        seq![']']
    } else {
        seq![','] + enc_repo(items[0]) + enc_repos_rest(items.drop_first())
    }
}

/// A repository list including its closing bracket.
pub open spec fn enc_repos(items: Seq<RepoV>) -> Seq<char> {
    if items.len() == 0 {
        seq![']']
    } else {
        enc_repo(items[0]) + enc_repos_rest(items.drop_first())
    }
}

/// The tail of a group list.
pub open spec fn enc_groups_rest(items: Seq<GroupV>) -> Seq<char>
    decreases items.len(),
{
    if items.len() == 0 {
        seq![']']
    } else {
        seq![','] + enc_group(items[0]) + enc_groups_rest(items.drop_first())
    }
}

/// A group list including its closing bracket.
pub open spec fn enc_groups(items: Seq<GroupV>) -> Seq<char> {
    if items.len() == 0 {
        seq![']']
    } else {
        enc_group(items[0]) + enc_groups_rest(items.drop_first())
    }
}

/// The tail of a relation list.
pub open spec fn enc_rels_rest(items: Seq<RelV>) -> Seq<char>
    decreases items.len(),
{
    if items.len() == 0 {
        seq![']']
    } else {
        seq![','] + enc_rel(items[0]) + enc_rels_rest(items.drop_first())
    }
}

/// A relation list including its closing bracket.
pub open spec fn enc_rels(items: Seq<RelV>) -> Seq<char> {
    if items.len() == 0 {
        seq![']']
    } else {
        enc_rel(items[0]) + enc_rels_rest(items.drop_first())
    }
}

/// The whole snapshot document.
pub open spec fn enc_db(sv: StoreV) -> Seq<char> {
    "{\"last-modified\":"@ + dec_chars(sv.last_modified as int) + ",\"repositories\":["@
        + enc_repos(sv.repos) + ",\"groups\":["@ + enc_groups(sv.groups) + ",\"relations\":["@
        + enc_rels(sv.rels) + "}"@
}

// ---------------------------------------------------------------------
// parsing
// ---------------------------------------------------------------------

/// The characters of a string body up to its closing quote; a backslash
/// takes the next character literally.
pub open spec fn p_str_body(s: Seq<char>, i: int) -> Option<(Seq<char>, int)>
    decreases s.len() - i,
{
    if i < 0 || i >= s.len() {
        None
    } else if s[i] == '"' {
        Some((Seq::empty(), i + 1))
    } else if s[i] == '\\' {
        if i + 1 < s.len() {
            match p_str_body(s, i + 2) {
                Some((t, j)) => Some((seq![s[i + 1]] + t, j)),
                None => None,
            }
        } else {
            None
        }
    } else {
        match p_str_body(s, i + 1) {
            Some((t, j)) => Some((seq![s[i]] + t, j)),
            None => None,
        }
    }
}

/// A quoted string.
pub open spec fn p_string(s: Seq<char>, i: int) -> Option<(Seq<char>, int)> {
    if 0 <= i < s.len() && s[i] == '"' {
        p_str_body(s, i + 1)
    } else {
        None
    }
}

/// The position right after the run of digits starting at `i`.
pub open spec fn digits_end(s: Seq<char>, i: int) -> int
    decreases s.len() - i,
{
    if 0 <= i < s.len() && is_digit(s[i]) {
        digits_end(s, i + 1)
    } else {
        i
    }
}

/// The value of a digit string, most significant first.
pub open spec fn seq_to_val(ds: Seq<char>) -> int
    decreases ds.len(),
{
    if ds.len() == 0 {
        0
    } else {
        seq_to_val(ds.drop_last()) * 10 + digit_val(ds.last())
    }
}

/// A decimal counter; fails on an empty digit run or a value over the
/// 64-bit range.
pub open spec fn p_u64(s: Seq<char>, i: int) -> Option<(u64, int)> {
    let j = digits_end(s, i);
    if i < j && seq_to_val(s.subrange(i, j)) <= u64::MAX as int {
        Some((seq_to_val(s.subrange(i, j)) as u64, j))
    } else {
        None
    }
}

/// Fixed text.
pub open spec fn expect(s: Seq<char>, i: int, lit: Seq<char>) -> Option<int> {
    if 0 <= i && i + lit.len() <= s.len() && s.subrange(i, i + lit.len()) == lit {
        Some(i + lit.len())
    } else {
        None
    }
}

/// A string or `null`.
pub open spec fn p_opt_str(s: Seq<char>, i: int) -> Option<(Option<Seq<char>>, int)> {
    if 0 <= i < s.len() && s[i] == 'n' {
        match expect(s, i, "null"@) {
            Some(j) => Some((None, j)),
            None => None,
        }
    } else {
        match p_string(s, i) {
            Some((t, j)) => Some((Some(t), j)),
            None => None,
        }
    }
}

/// A counter or `null`.
pub open spec fn p_opt_u64(s: Seq<char>, i: int) -> Option<(Option<u64>, int)> {
    if 0 <= i < s.len() && s[i] == 'n' {
        match expect(s, i, "null"@) {
            Some(j) => Some((None, j)),
            None => None,
        }
    } else {
        match p_u64(s, i) {
            Some((v, j)) => Some((Some(v), j)),
            None => None,
        }
    }
}

/// `true`, `false` or `null`.
pub open spec fn p_opt_bool(s: Seq<char>, i: int) -> Option<(Option<bool>, int)> {
    if 0 <= i < s.len() && s[i] == 't' {
        match expect(s, i, "true"@) {
            Some(j) => Some((Some(true), j)),
            None => None,
        }
    } else if 0 <= i < s.len() && s[i] == 'f' {
        match expect(s, i, "false"@) {
            Some(j) => Some((Some(false), j)),
            None => None,
        }
    } else {
        match expect(s, i, "null"@) {
            Some(j) => Some((None, j)),
            None => None,
        }
    }
}

/// One repository record.
pub open spec fn p_repo(s: Seq<char>, i: int) -> Option<(RepoV, int)> {
    match expect(s, i, "{\"id\":"@) {
        None => None,
        Some(i1) => match p_string(s, i1) {
            None => None,
            Some((id, i2)) => match expect(s, i2, ",\"path\":"@) {
                None => None,
                Some(i3) => match p_string(s, i3) {
                    None => None,
                    Some((path, i4)) => match expect(s, i4, ",\"description\":"@) {
                        None => None,
                        Some(i5) => match p_opt_str(s, i5) {
                            None => None,
                            Some((description, i6)) => match expect(s, i6, ",\"last-access\":"@) {
                                None => None,
                                Some(i7) => match p_opt_u64(s, i7) {
                                    None => None,
                                    Some((last_access, i8)) => match expect(s, i8, "}"@) {
                                        None => None,
                                        Some(i9) => Some(
                                            (RepoV { id, path, description, last_access }, i9),
                                        ),
                                    },
                                },
                            },
                        },
                    },
                },
            },
        },
    }
}

/// One group record.
pub open spec fn p_group(s: Seq<char>, i: int) -> Option<(GroupV, int)> {
    match expect(s, i, "{\"name\":"@) {
        None => None,
        Some(i1) => match p_string(s, i1) {
            None => None,
            Some((name, i2)) => match expect(s, i2, ",\"note\":"@) {
                None => None,
                Some(i3) => match p_string(s, i3) {
                    None => None,
                    Some((note, i4)) => match expect(s, i4, ",\"abbrev\":"@) {
                        None => None,
                        Some(i5) => match p_opt_bool(s, i5) {
                            None => None,
                            Some((abbrev, i6)) => match expect(s, i6, "}"@) {
                                None => None,
                                Some(i7) => Some((GroupV { name, note, abbrev }, i7)),
                            },
                        },
                    },
                },
            },
        },
    }
}

/// One relation record.
pub open spec fn p_rel(s: Seq<char>, i: int) -> Option<(RelV, int)> {
    match expect(s, i, "{\"id\":"@) {
        None => None,
        Some(i1) => match p_string(s, i1) {
            None => None,
            Some((id, i2)) => match expect(s, i2, ",\"group\":"@) {
                None => None,
                Some(i3) => match p_string(s, i3) {
                    None => None,
                    Some((group, i4)) => match expect(s, i4, "}"@) {
                        None => None,
                        Some(i5) => Some((RelV { id, group }, i5)),
                    },
                },
            },
        },
    }
}

/// The tail of a repository list.
pub open spec fn p_repos_rest(s: Seq<char>, i: int) -> Option<(Seq<RepoV>, int)>
    decreases s.len() - i,
{
    if 0 <= i < s.len() && s[i] == ']' {
        Some((Seq::empty(), i + 1))
    } else if 0 <= i < s.len() && s[i] == ',' {
        match p_repo(s, i + 1) {
            Some((r, j)) => if i + 1 < j <= s.len() {
                match p_repos_rest(s, j) {
                    Some((rs, k)) => Some((seq![r] + rs, k)),
                    None => None,
                }
            } else {
                None
            },
            None => None,
        }
    } else {
        None
    }
}

/// A repository list up to and including its closing bracket.
pub open spec fn p_repos(s: Seq<char>, i: int) -> Option<(Seq<RepoV>, int)> {
    if 0 <= i < s.len() && s[i] == ']' {
        Some((Seq::empty(), i + 1))
    } else {
        match p_repo(s, i) {
            Some((r, j)) => if i < j <= s.len() {
                match p_repos_rest(s, j) {
                    Some((rs, k)) => Some((seq![r] + rs, k)),
                    None => None,
                }
            } else {
                None
            },
            None => None,
        }
    }
}

/// The tail of a group list.
pub open spec fn p_groups_rest(s: Seq<char>, i: int) -> Option<(Seq<GroupV>, int)>
    decreases s.len() - i,
{
    if 0 <= i < s.len() && s[i] == ']' {
        Some((Seq::empty(), i + 1))
    } else if 0 <= i < s.len() && s[i] == ',' {
        match p_group(s, i + 1) {
            Some((g, j)) => if i + 1 < j <= s.len() {
                match p_groups_rest(s, j) {
                    Some((gs, k)) => Some((seq![g] + gs, k)),
                    None => None,
                }
            } else {
                None
            },
            None => None,
        }
    } else {
        None
    }
}

/// A group list up to and including its closing bracket.
pub open spec fn p_groups(s: Seq<char>, i: int) -> Option<(Seq<GroupV>, int)> {
    if 0 <= i < s.len() && s[i] == ']' {
        Some((Seq::empty(), i + 1))
    } else {
        match p_group(s, i) {
            Some((g, j)) => if i < j <= s.len() {
                match p_groups_rest(s, j) {
                    Some((gs, k)) => Some((seq![g] + gs, k)),
                    None => None,
                }
            } else {
                None
            },
            None => None,
        }
    }
}

/// The tail of a relation list.
pub open spec fn p_rels_rest(s: Seq<char>, i: int) -> Option<(Seq<RelV>, int)>
    decreases s.len() - i,
{
    if 0 <= i < s.len() && s[i] == ']' {
        Some((Seq::empty(), i + 1))
    } else if 0 <= i < s.len() && s[i] == ',' {
        match p_rel(s, i + 1) {
            Some((l, j)) => if i + 1 < j <= s.len() {
                match p_rels_rest(s, j) {
                    Some((ls, k)) => Some((seq![l] + ls, k)),
                    None => None,
                }
            } else {
                None
            },
            None => None,
        }
    } else {
        None
    }
}

/// A relation list up to and including its closing bracket.
pub open spec fn p_rels(s: Seq<char>, i: int) -> Option<(Seq<RelV>, int)> {
    if 0 <= i < s.len() && s[i] == ']' {
        Some((Seq::empty(), i + 1))
    } else {
        match p_rel(s, i) {
            Some((l, j)) => if i < j <= s.len() {
                match p_rels_rest(s, j) {
                    Some((ls, k)) => Some((seq![l] + ls, k)),
                    None => None,
                }
            } else {
                None
            },
            None => None,
        }
    }
}

// ---------------------------------------------------------------------
// round trip
// ---------------------------------------------------------------------

/// A segment of an embedded piece of text equals the corresponding
/// segment of the piece.
pub proof fn lemma_seg(s: Seq<char>, i: int, whole: Seq<char>, a: int, b: int)
    requires
        0 <= i,
        i + whole.len() <= s.len(),
        s.subrange(i, i + whole.len()) == whole,
        0 <= a <= b <= whole.len(),
    ensures
        s.subrange(i + a, i + b) == whole.subrange(a, b),
{
    assert(s.subrange(i + a, i + b) =~= whole.subrange(a, b));
}

/// Parsing a string body that was rendered by `esc` recovers the
/// unescaped characters and stops right after the closing quote.
pub proof fn lemma_p_str_body_rt(s: Seq<char>, i: int, t: Seq<char>)
    requires
        0 <= i,
        i + esc(t).len() + 1 <= s.len(),
        s.subrange(i, i + esc(t).len() + 1) == esc(t) + seq!['"'],
    ensures
        p_str_body(s, i) == Some((t, i + esc(t).len() + 1)),
    decreases t.len(),
{
    if t.len() == 0 {
        assert(esc(t) =~= Seq::<char>::empty());
        assert(s[i] == (esc(t) + seq!['"'])[0]);
        assert(s[i] == '"');
    } else {
        let c = t[0];
        let rest = t.drop_first();
        assert(esc(t) == esc_char(c) + esc(rest));
        assert(esc(t) + seq!['"'] =~= esc_char(c) + (esc(rest) + seq!['"']));
        if c == '"' || c == '\\' {
            assert(s[i] == (esc(t) + seq!['"'])[0]);
            assert(s[i + 1] == (esc(t) + seq!['"'])[1]);
            assert(s[i] == '\\');
            assert(s[i + 1] == c);
            lemma_seg(s, i, esc(t) + seq!['"'], 2, esc(t).len() as int + 1);
            assert((esc(t) + seq!['"']).subrange(2, esc(t).len() as int + 1) =~= esc(rest) + seq!['"']);
            assert(s.subrange(i + 2, i + 2 + esc(rest).len() + 1) == esc(rest) + seq!['"']);
            lemma_p_str_body_rt(s, i + 2, rest);
            assert(seq![s[i + 1]] + rest =~= t);
            assert(i + 2 + esc(rest).len() + 1 == i + esc(t).len() + 1);
        } else {
            assert(s[i] == (esc(t) + seq!['"'])[0]);
            assert(s[i] == c);
            lemma_seg(s, i, esc(t) + seq!['"'], 1, esc(t).len() as int + 1);
            assert((esc(t) + seq!['"']).subrange(1, esc(t).len() as int + 1) =~= esc(rest) + seq!['"']);
            assert(s.subrange(i + 1, i + 1 + esc(rest).len() + 1) == esc(rest) + seq!['"']);
            lemma_p_str_body_rt(s, i + 1, rest);
            assert(seq![s[i]] + rest =~= t);
        }
    }
}

/// Parsing a rendered, quoted string recovers it.
pub proof fn lemma_p_string_rt(s: Seq<char>, i: int, t: Seq<char>)
    requires
        0 <= i,
        i + enc_str(t).len() <= s.len(),
        s.subrange(i, i + enc_str(t).len()) == enc_str(t),
    ensures
        p_string(s, i) == Some((t, i + enc_str(t).len())),
{
    assert(enc_str(t).len() == esc(t).len() + 2);
    assert(s[i] == enc_str(t)[0]);
    assert(s[i] == '"');
    lemma_seg(s, i, enc_str(t), 1, enc_str(t).len() as int);
    assert(enc_str(t).subrange(1, enc_str(t).len() as int) =~= esc(t) + seq!['"']);
    assert(s.subrange(i + 1, i + 1 + esc(t).len() + 1) == esc(t) + seq!['"']);
    lemma_p_str_body_rt(s, i + 1, t);
}

/// A run of `count` digit characters at `i`, bounded by a non-digit,
/// ends exactly at `i + count`.
proof fn lemma_digits_end_of(s: Seq<char>, i: int, count: int)
    requires
        0 <= i,
        0 <= count,
        i + count <= s.len(),
        forall|k: int| 0 <= k < count ==> is_digit(#[trigger] s[i + k]),
        i + count == s.len() || !is_digit(s[i + count]),
    ensures
        digits_end(s, i) == i + count,
    decreases count,
{
    if count == 0 {
    } else {
        assert(is_digit(s[i + 0]));
        assert forall|k: int| 0 <= k < count - 1 implies is_digit(#[trigger] s[i + 1 + k]) by {
            assert(is_digit(s[i + (k + 1)]));
        }
        lemma_digits_end_of(s, i + 1, count - 1);
    }
}

/// The decimal rendering of a counter evaluates back to it.
proof fn lemma_seq_to_val_dec(n: int)
    requires
        0 <= n,
    ensures
        seq_to_val(dec_chars(n)) == n,
    decreases n,
{
    if n < 10 {
        assert(dec_chars(n) =~= seq![dec_digit(n)]);
        assert(dec_chars(n).last() == dec_digit(n));
        assert(dec_chars(n).drop_last() =~= Seq::<char>::empty());
        assert(seq_to_val(dec_chars(n).drop_last()) == 0);
        assert(digit_val(dec_digit(n)) == n);
    } else {
        lemma_seq_to_val_dec(n / 10);
        assert(dec_chars(n).last() == dec_digit(n % 10));
        assert(dec_chars(n).drop_last() =~= dec_chars(n / 10));
        assert(seq_to_val(dec_chars(n).drop_last()) == n / 10);
        assert(digit_val(dec_digit(n % 10)) == n % 10);
        assert(n / 10 * 10 + n % 10 == n);
    }
}

/// Parsing a rendered counter recovers it, provided the next character
/// is not a digit.
pub proof fn lemma_p_u64_rt(s: Seq<char>, i: int, n: u64)
    requires
        0 <= i,
        i + dec_chars(n as int).len() <= s.len(),
        s.subrange(i, i + dec_chars(n as int).len()) == dec_chars(n as int),
        i + dec_chars(n as int).len() == s.len() || !is_digit(s[i + dec_chars(n as int).len()]),
    ensures
        p_u64(s, i) == Some((n, i + dec_chars(n as int).len())),
{
    let d = dec_chars(n as int);
    lemma_dec_chars_digits(n as int);
    assert forall|k: int| 0 <= k < d.len() implies is_digit(#[trigger] s[i + k]) by {
        assert(s[i + k] == d[k]);
    }
    lemma_digits_end_of(s, i, d.len() as int);
    assert(s.subrange(i, i + d.len()) == d);
    lemma_seq_to_val_dec(n as int);
}

/// Parsing a rendered optional string recovers it.
pub proof fn lemma_p_opt_str_rt(s: Seq<char>, i: int, o: Option<Seq<char>>)
    requires
        0 <= i,
        i + enc_opt_str(o).len() <= s.len(),
        s.subrange(i, i + enc_opt_str(o).len()) == enc_opt_str(o),
    ensures
        p_opt_str(s, i) == Some((o, i + enc_opt_str(o).len())),
{
    reveal_strlit("null");
    match o {
        Some(t) => {
            assert(s[i] == enc_str(t)[0]);
            assert(s[i] == '"');
            lemma_p_string_rt(s, i, t);
        },
        None => {
            assert(s[i] == "null"@[0]);
            assert(s[i] == 'n');
        },
    }
}

/// Parsing a rendered optional counter recovers it, provided the next
/// character is not a digit.
pub proof fn lemma_p_opt_u64_rt(s: Seq<char>, i: int, o: Option<u64>)
    requires
        0 <= i,
        i + enc_opt_u64(o).len() <= s.len(),
        s.subrange(i, i + enc_opt_u64(o).len()) == enc_opt_u64(o),
        i + enc_opt_u64(o).len() == s.len() || !is_digit(s[i + enc_opt_u64(o).len()]),
    ensures
        p_opt_u64(s, i) == Some((o, i + enc_opt_u64(o).len())),
{
    reveal_strlit("null");
    match o {
        Some(v) => {
            lemma_dec_chars_digits(v as int);
            assert(s[i] == dec_chars(v as int)[0]);
            assert(is_digit(s[i]));
            assert(s[i] != 'n');
            lemma_p_u64_rt(s, i, v);
        },
        None => {
            assert(s[i] == "null"@[0]);
            assert(s[i] == 'n');
        },
    }
}

/// Parsing a rendered optional flag recovers it.
pub proof fn lemma_p_opt_bool_rt(s: Seq<char>, i: int, o: Option<bool>)
    requires
        0 <= i,
        i + enc_opt_bool(o).len() <= s.len(),
        s.subrange(i, i + enc_opt_bool(o).len()) == enc_opt_bool(o),
    ensures
        p_opt_bool(s, i) == Some((o, i + enc_opt_bool(o).len())),
{
    reveal_strlit("null");
    reveal_strlit("true");
    reveal_strlit("false");
    match o {
        Some(b) => {
            if b {
                assert(s[i] == "true"@[0]);
            } else {
                assert(s[i] == "false"@[0]);
            }
        },
        None => {
            assert(s[i] == "null"@[0]);
        },
    }
}

/// Parsing a rendered repository record recovers it.
pub proof fn lemma_p_repo_rt(s: Seq<char>, i: int, r: RepoV)
    requires
        0 <= i,
        i + enc_repo(r).len() <= s.len(),
        s.subrange(i, i + enc_repo(r).len()) == enc_repo(r),
    ensures
        p_repo(s, i) == Some((r, i + enc_repo(r).len())),
{
    let e = enc_repo(r);
    let k1 = "{\"id\":"@;
    let v1 = enc_str(r.id);
    let k2 = ",\"path\":"@;
    let v2 = enc_str(r.path);
    let k3 = ",\"description\":"@;
    let v3 = enc_opt_str(r.description);
    let k4 = ",\"last-access\":"@;
    let v4 = enc_opt_u64(r.last_access);
    let k5 = "}"@;
    let o1 = k1.len() as int;
    let o2 = o1 + v1.len() as int;
    let o3 = o2 + k2.len() as int;
    let o4 = o3 + v2.len() as int;
    let o5 = o4 + k3.len() as int;
    let o6 = o5 + v3.len() as int;
    let o7 = o6 + k4.len() as int;
    let o8 = o7 + v4.len() as int;
    let o9 = o8 + k5.len() as int;
    assert(e.len() == o9);
    assert(e.subrange(0, o1) =~= k1);
    assert(e.subrange(o1, o2) =~= v1);
    assert(e.subrange(o2, o3) =~= k2);
    assert(e.subrange(o3, o4) =~= v2);
    assert(e.subrange(o4, o5) =~= k3);
    assert(e.subrange(o5, o6) =~= v3);
    assert(e.subrange(o6, o7) =~= k4);
    assert(e.subrange(o7, o8) =~= v4);
    assert(e.subrange(o8, o9) =~= k5);
    lemma_seg(s, i, e, 0, o1);
    lemma_seg(s, i, e, o1, o2);
    lemma_seg(s, i, e, o2, o3);
    lemma_seg(s, i, e, o3, o4);
    lemma_seg(s, i, e, o4, o5);
    lemma_seg(s, i, e, o5, o6);
    lemma_seg(s, i, e, o6, o7);
    lemma_seg(s, i, e, o7, o8);
    lemma_seg(s, i, e, o8, o9);
    assert(expect(s, i, k1) == Some(i + o1));
    lemma_p_string_rt(s, i + o1, r.id);
    assert(expect(s, i + o2, k2) == Some(i + o3));
    lemma_p_string_rt(s, i + o3, r.path);
    assert(expect(s, i + o4, k3) == Some(i + o5));
    lemma_p_opt_str_rt(s, i + o5, r.description);
    assert(expect(s, i + o6, k4) == Some(i + o7));
    reveal_strlit("}");
    assert(s[i + o8] == k5[0]);
    assert(!is_digit(s[i + o8]));
    lemma_p_opt_u64_rt(s, i + o7, r.last_access);
    assert(expect(s, i + o8, k5) == Some(i + o9));
}

/// Parsing a rendered group record recovers it.
pub proof fn lemma_p_group_rt(s: Seq<char>, i: int, g: GroupV)
    requires
        0 <= i,
        i + enc_group(g).len() <= s.len(),
        s.subrange(i, i + enc_group(g).len()) == enc_group(g),
    ensures
        p_group(s, i) == Some((g, i + enc_group(g).len())),
{
    let e = enc_group(g);
    let k1 = "{\"name\":"@;
    let v1 = enc_str(g.name);
    let k2 = ",\"note\":"@;
    let v2 = enc_str(g.note);
    let k3 = ",\"abbrev\":"@;
    let v3 = enc_opt_bool(g.abbrev);
    let k4 = "}"@;
    let o1 = k1.len() as int;
    let o2 = o1 + v1.len() as int;
    let o3 = o2 + k2.len() as int;
    let o4 = o3 + v2.len() as int;
    let o5 = o4 + k3.len() as int;
    let o6 = o5 + v3.len() as int;
    let o7 = o6 + k4.len() as int;
    assert(e.len() == o7);
    assert(e.subrange(0, o1) =~= k1);
    assert(e.subrange(o1, o2) =~= v1);
    assert(e.subrange(o2, o3) =~= k2);
    assert(e.subrange(o3, o4) =~= v2);
    assert(e.subrange(o4, o5) =~= k3);
    assert(e.subrange(o5, o6) =~= v3);
    assert(e.subrange(o6, o7) =~= k4);
    lemma_seg(s, i, e, 0, o1);
    lemma_seg(s, i, e, o1, o2);
    lemma_seg(s, i, e, o2, o3);
    lemma_seg(s, i, e, o3, o4);
    lemma_seg(s, i, e, o4, o5);
    lemma_seg(s, i, e, o5, o6);
    lemma_seg(s, i, e, o6, o7);
    assert(expect(s, i, k1) == Some(i + o1));
    lemma_p_string_rt(s, i + o1, g.name);
    assert(expect(s, i + o2, k2) == Some(i + o3));
    lemma_p_string_rt(s, i + o3, g.note);
    assert(expect(s, i + o4, k3) == Some(i + o5));
    lemma_p_opt_bool_rt(s, i + o5, g.abbrev);
    assert(expect(s, i + o6, k4) == Some(i + o7));
}

/// Parsing a rendered relation record recovers it.
pub proof fn lemma_p_rel_rt(s: Seq<char>, i: int, l: RelV)
    requires
        0 <= i,
        i + enc_rel(l).len() <= s.len(),
        s.subrange(i, i + enc_rel(l).len()) == enc_rel(l),
    ensures
        p_rel(s, i) == Some((l, i + enc_rel(l).len())),
{
    let e = enc_rel(l);
    let k1 = "{\"id\":"@;
    let v1 = enc_str(l.id);
    let k2 = ",\"group\":"@;
    let v2 = enc_str(l.group);
    let k3 = "}"@;
    let o1 = k1.len() as int;
    let o2 = o1 + v1.len() as int;
    let o3 = o2 + k2.len() as int;
    let o4 = o3 + v2.len() as int;
    let o5 = o4 + k3.len() as int;
    assert(e.len() == o5);
    assert(e.subrange(0, o1) =~= k1);
    assert(e.subrange(o1, o2) =~= v1);
    assert(e.subrange(o2, o3) =~= k2);
    assert(e.subrange(o3, o4) =~= v2);
    assert(e.subrange(o4, o5) =~= k3);
    lemma_seg(s, i, e, 0, o1);
    lemma_seg(s, i, e, o1, o2);
    lemma_seg(s, i, e, o2, o3);
    lemma_seg(s, i, e, o3, o4);
    lemma_seg(s, i, e, o4, o5);
    assert(expect(s, i, k1) == Some(i + o1));
    lemma_p_string_rt(s, i + o1, l.id);
    assert(expect(s, i + o2, k2) == Some(i + o3));
    lemma_p_string_rt(s, i + o3, l.group);
    assert(expect(s, i + o4, k3) == Some(i + o5));
}

/// Parsing the rendered tail of a repository list recovers it.
pub proof fn lemma_p_repos_rest_rt(s: Seq<char>, i: int, items: Seq<RepoV>)
    requires
        0 <= i,
        i + enc_repos_rest(items).len() <= s.len(),
        s.subrange(i, i + enc_repos_rest(items).len()) == enc_repos_rest(items),
    ensures
        p_repos_rest(s, i) == Some((items, i + enc_repos_rest(items).len())),
    decreases items.len(),
{
    let e = enc_repos_rest(items);
    if items.len() == 0 {
        assert(s[i] == e[0]);
        assert(s[i] == ']');
    } else {
        reveal_strlit("{\"id\":");
        let r0 = items[0];
        let l0 = enc_repo(r0).len() as int;
        assert(l0 >= 6) by {
            assert(enc_repo(r0).len() >= ("{\"id\":"@).len());
        }
        assert(s[i] == e[0]);
        assert(s[i] == ',');
        assert(e.subrange(1, 1 + l0) =~= enc_repo(r0));
        lemma_seg(s, i, e, 1, 1 + l0);
        lemma_p_repo_rt(s, i + 1, r0);
        let rest = items.drop_first();
        let lr = enc_repos_rest(rest).len() as int;
        assert(e.len() == 1 + l0 + lr);
        assert(e.subrange(1 + l0, e.len() as int) =~= enc_repos_rest(rest));
        lemma_seg(s, i, e, 1 + l0, e.len() as int);
        lemma_p_repos_rest_rt(s, i + 1 + l0, rest);
        assert(seq![r0] + rest =~= items);
    }
}

/// Parsing a rendered repository list recovers it.
pub proof fn lemma_p_repos_rt(s: Seq<char>, i: int, items: Seq<RepoV>)
    requires
        0 <= i,
        i + enc_repos(items).len() <= s.len(),
        s.subrange(i, i + enc_repos(items).len()) == enc_repos(items),
    ensures
        p_repos(s, i) == Some((items, i + enc_repos(items).len())),
{
    let e = enc_repos(items);
    if items.len() == 0 {
        assert(s[i] == e[0]);
        assert(s[i] == ']');
    } else {
        reveal_strlit("{\"id\":");
        let r0 = items[0];
        let l0 = enc_repo(r0).len() as int;
        assert(enc_repo(r0)[0] == ("{\"id\":"@)[0]);
        assert(s[i] == e[0]);
        assert(s[i] == '{');
        assert(s[i] != ']');
        assert(e.subrange(0, l0) =~= enc_repo(r0));
        lemma_seg(s, i, e, 0, l0);
        lemma_p_repo_rt(s, i, r0);
        let rest = items.drop_first();
        assert(e.len() == l0 + enc_repos_rest(rest).len());
        assert(e.subrange(l0, e.len() as int) =~= enc_repos_rest(rest));
        lemma_seg(s, i, e, l0, e.len() as int);
        lemma_p_repos_rest_rt(s, i + l0, rest);
        assert(seq![r0] + rest =~= items);
    }
}

/// Parsing the rendered tail of a group list recovers it.
pub proof fn lemma_p_groups_rest_rt(s: Seq<char>, i: int, items: Seq<GroupV>)
    requires
        0 <= i,
        i + enc_groups_rest(items).len() <= s.len(),
        s.subrange(i, i + enc_groups_rest(items).len()) == enc_groups_rest(items),
    ensures
        p_groups_rest(s, i) == Some((items, i + enc_groups_rest(items).len())),
    decreases items.len(),
{
    let e = enc_groups_rest(items);
    if items.len() == 0 {
        assert(s[i] == e[0]);
        assert(s[i] == ']');
    } else {
        reveal_strlit("{\"name\":");
        let g0 = items[0];
        let l0 = enc_group(g0).len() as int;
        assert(l0 >= 8) by {
            assert(enc_group(g0).len() >= ("{\"name\":"@).len());
        }
        assert(s[i] == e[0]);
        assert(s[i] == ',');
        assert(e.subrange(1, 1 + l0) =~= enc_group(g0));
        lemma_seg(s, i, e, 1, 1 + l0);
        lemma_p_group_rt(s, i + 1, g0);
        let rest = items.drop_first();
        assert(e.len() == 1 + l0 + enc_groups_rest(rest).len());
        assert(e.subrange(1 + l0, e.len() as int) =~= enc_groups_rest(rest));
        lemma_seg(s, i, e, 1 + l0, e.len() as int);
        lemma_p_groups_rest_rt(s, i + 1 + l0, rest);
        assert(seq![g0] + rest =~= items);
    }
}

/// Parsing a rendered group list recovers it.
pub proof fn lemma_p_groups_rt(s: Seq<char>, i: int, items: Seq<GroupV>)
    requires
        0 <= i,
        i + enc_groups(items).len() <= s.len(),
        s.subrange(i, i + enc_groups(items).len()) == enc_groups(items),
    ensures
        p_groups(s, i) == Some((items, i + enc_groups(items).len())),
{
    let e = enc_groups(items);
    if items.len() == 0 {
        assert(s[i] == e[0]);
        assert(s[i] == ']');
    } else {
        reveal_strlit("{\"name\":");
        let g0 = items[0];
        let l0 = enc_group(g0).len() as int;
        assert(enc_group(g0)[0] == ("{\"name\":"@)[0]);
        assert(s[i] == e[0]);
        assert(s[i] == '{');
        assert(s[i] != ']');
        assert(e.subrange(0, l0) =~= enc_group(g0));
        lemma_seg(s, i, e, 0, l0);
        lemma_p_group_rt(s, i, g0);
        let rest = items.drop_first();
        assert(e.len() == l0 + enc_groups_rest(rest).len());
        assert(e.subrange(l0, e.len() as int) =~= enc_groups_rest(rest));
        lemma_seg(s, i, e, l0, e.len() as int);
        lemma_p_groups_rest_rt(s, i + l0, rest);
        assert(seq![g0] + rest =~= items);
    }
}

/// Parsing the rendered tail of a relation list recovers it.
pub proof fn lemma_p_rels_rest_rt(s: Seq<char>, i: int, items: Seq<RelV>)
    requires
        0 <= i,
        i + enc_rels_rest(items).len() <= s.len(),
        s.subrange(i, i + enc_rels_rest(items).len()) == enc_rels_rest(items),
    ensures
        p_rels_rest(s, i) == Some((items, i + enc_rels_rest(items).len())),
    decreases items.len(),
{
    let e = enc_rels_rest(items);
    if items.len() == 0 {
        assert(s[i] == e[0]);
        assert(s[i] == ']');
    } else {
        reveal_strlit("{\"id\":");
        let l0v = items[0];
        let l0 = enc_rel(l0v).len() as int;
        assert(l0 >= 6) by {
            assert(enc_rel(l0v).len() >= ("{\"id\":"@).len());
        }
        assert(s[i] == e[0]);
        assert(s[i] == ',');
        assert(e.subrange(1, 1 + l0) =~= enc_rel(l0v));
        lemma_seg(s, i, e, 1, 1 + l0);
        lemma_p_rel_rt(s, i + 1, l0v);
        let rest = items.drop_first();
        assert(e.len() == 1 + l0 + enc_rels_rest(rest).len());
        assert(e.subrange(1 + l0, e.len() as int) =~= enc_rels_rest(rest));
        lemma_seg(s, i, e, 1 + l0, e.len() as int);
        lemma_p_rels_rest_rt(s, i + 1 + l0, rest);
        assert(seq![l0v] + rest =~= items);
    }
}

/// Parsing a rendered relation list recovers it.
pub proof fn lemma_p_rels_rt(s: Seq<char>, i: int, items: Seq<RelV>)
    requires
        0 <= i,
        i + enc_rels(items).len() <= s.len(),
        s.subrange(i, i + enc_rels(items).len()) == enc_rels(items),
    ensures
        p_rels(s, i) == Some((items, i + enc_rels(items).len())),
{
    let e = enc_rels(items);
    if items.len() == 0 {
        assert(s[i] == e[0]);
        assert(s[i] == ']');
    } else {
        reveal_strlit("{\"id\":");
        let l0v = items[0];
        let l0 = enc_rel(l0v).len() as int;
        assert(enc_rel(l0v)[0] == ("{\"id\":"@)[0]);
        assert(s[i] == e[0]);
        assert(s[i] == '{');
        assert(s[i] != ']');
        assert(e.subrange(0, l0) =~= enc_rel(l0v));
        lemma_seg(s, i, e, 0, l0);
        lemma_p_rel_rt(s, i, l0v);
        let rest = items.drop_first();
        assert(e.len() == l0 + enc_rels_rest(rest).len());
        assert(e.subrange(l0, e.len() as int) =~= enc_rels_rest(rest));
        lemma_seg(s, i, e, l0, e.len() as int);
        lemma_p_rels_rest_rt(s, i + l0, rest);
        assert(seq![l0v] + rest =~= items);
    }
}

/// Parsing a rendered snapshot yields exactly the rendered store and
/// consumes the whole document: the collections survive a store–load
/// round trip unchanged.
#[verifier::rlimit(100)]
pub proof fn lemma_db_round_trip(sv: StoreV)
    ensures
        p_db(enc_db(sv), 0) == Some((sv, enc_db(sv).len() as int)),
{
    let s = enc_db(sv);
    let k1 = "{\"last-modified\":"@;
    let v1 = dec_chars(sv.last_modified as int);
    let k2 = ",\"repositories\":["@;
    let v2 = enc_repos(sv.repos);
    let k3 = ",\"groups\":["@;
    let v3 = enc_groups(sv.groups);
    let k4 = ",\"relations\":["@;
    let v4 = enc_rels(sv.rels);
    let k5 = "}"@;
    let o1 = k1.len() as int;
    let o2 = o1 + v1.len() as int;
    let o3 = o2 + k2.len() as int;
    let o4 = o3 + v2.len() as int;
    let o5 = o4 + k3.len() as int;
    let o6 = o5 + v3.len() as int;
    let o7 = o6 + k4.len() as int;
    let o8 = o7 + v4.len() as int;
    let o9 = o8 + k5.len() as int;
    assert(s.len() == o9);
    assert(s.subrange(0, s.len() as int) =~= s);
    assert(s.subrange(0, o1) =~= k1);
    assert(s.subrange(o1, o2) =~= v1);
    assert(s.subrange(o2, o3) =~= k2);
    assert(s.subrange(o3, o4) =~= v2);
    assert(s.subrange(o4, o5) =~= k3);
    assert(s.subrange(o5, o6) =~= v3);
    assert(s.subrange(o6, o7) =~= k4);
    assert(s.subrange(o7, o8) =~= v4);
    assert(s.subrange(o8, o9) =~= k5);
    assert(expect(s, 0, k1) == Some(o1));
    reveal_strlit(",\"repositories\":[");
    assert(s[o2] == k2[0]);
    assert(!is_digit(s[o2]));
    lemma_p_u64_rt(s, o1, sv.last_modified);
    assert(expect(s, o2, k2) == Some(o3));
    lemma_p_repos_rt(s, o3, sv.repos);
    assert(expect(s, o4, k3) == Some(o5));
    lemma_p_groups_rt(s, o5, sv.groups);
    assert(expect(s, o6, k4) == Some(o7));
    lemma_p_rels_rt(s, o7, sv.rels);
    assert(expect(s, o8, k5) == Some(o9));
}

/// A whole snapshot document.
pub open spec fn p_db(s: Seq<char>, i: int) -> Option<(StoreV, int)> {
    match expect(s, i, "{\"last-modified\":"@) {
        None => None,
        Some(i1) => match p_u64(s, i1) {
            None => None,
            Some((lm, i2)) => match expect(s, i2, ",\"repositories\":["@) {
                None => None,
                Some(i3) => match p_repos(s, i3) {
                    None => None,
                    Some((rs, i4)) => match expect(s, i4, ",\"groups\":["@) {
                        None => None,
                        Some(i5) => match p_groups(s, i5) {
                            None => None,
                            Some((gs, i6)) => match expect(s, i6, ",\"relations\":["@) {
                                None => None,
                                Some(i7) => match p_rels(s, i7) {
                                    None => None,
                                    Some((ls, i8)) => match expect(s, i8, "}"@) {
                                        None => None,
                                        Some(i9) => Some(
                                            (
                                                StoreV {
                                                    last_modified: lm,
                                                    repos: rs,
                                                    groups: gs,
                                                    rels: ls,
                                                },
                                                i9,
                                            ),
                                        ),
                                    },
                                },
                            },
                        },
                    },
                },
            },
        },
    }
}

// ---------------------------------------------------------------------
// executable rendering
// ---------------------------------------------------------------------

/// Appends the characters of a fixed piece of text.
fn push_lit(out: &mut Vec<char>, lit: &str)
    ensures
        final(out)@ == old(out)@ + lit@,
{
    let n = lit.unicode_len();
    let mut i: usize = 0;
    while i < n
        invariant
            n == lit@.len(),
            i <= n,
            out@ == old(out)@ + lit@.take(i as int),
        decreases n - i,
    {
        out.push(lit.get_char(i));
        proof {
            assert(out@ =~= old(out)@ + lit@.take(i + 1 as int));
        }
        i = i + 1;
    }
    proof {
        assert(old(out)@ + lit@.take(n as int) =~= old(out)@ + lit@);
    }
}

/// Appends a quoted, escaped string.
fn push_esc_str(out: &mut Vec<char>, s: &str)
    ensures
        final(out)@ == old(out)@ + enc_str(s@),
{
    let n = s.unicode_len();
    out.push('"');
    let ghost base = out@;
    let mut i: usize = 0;
    while i < n
        invariant
            n == s@.len(),
            i <= n,
            base == old(out)@ + seq!['"'],
            out@ == base + esc(s@.take(i as int)),
        decreases n - i,
    {
        let c = s.get_char(i);
        if c == '"' || c == '\\' {
            out.push('\\');
            out.push(c);
        } else {
            out.push(c);
        }
        proof {
            lemma_esc_append(s@.take(i as int), seq![s@[i as int]]);
            assert(s@.take(i + 1 as int) =~= s@.take(i as int) + seq![s@[i as int]]);
            assert(seq![s@[i as int]].drop_first() =~= Seq::<char>::empty());
            assert(seq![s@[i as int]][0] == s@[i as int]);
            assert(esc(seq![s@[i as int]]) == esc_char(s@[i as int]) + esc(
                seq![s@[i as int]].drop_first(),
            ));
            assert(esc(Seq::<char>::empty()) =~= Seq::<char>::empty());
            assert(esc(seq![s@[i as int]]) =~= esc_char(s@[i as int]));
            assert(out@ =~= base + esc(s@.take(i + 1 as int)));
        }
        i = i + 1;
    }
    out.push('"');
    proof {
        assert(s@.take(n as int) =~= s@);
        assert(out@ =~= old(out)@ + enc_str(s@));
    }
}

/// Appends a counter in decimal.
fn push_u64(out: &mut Vec<char>, n: u64)
    ensures
        final(out)@ == old(out)@ + dec_chars(n as int),
{
    let ds = u64_to_chars(n);
    let m = ds.len();
    let mut i: usize = 0;
    while i < m
        invariant
            m == ds@.len(),
            ds@ == dec_chars(n as int),
            i <= m,
            out@ == old(out)@ + ds@.take(i as int),
        decreases m - i,
    {
        out.push(ds[i]);
        proof {
            assert(out@ =~= old(out)@ + ds@.take(i + 1 as int));
        }
        i = i + 1;
    }
    proof {
        assert(old(out)@ + ds@.take(m as int) =~= old(out)@ + ds@);
    }
}

/// Appends an optional string.
fn push_opt_str(out: &mut Vec<char>, o: &Option<String>)
    ensures
        final(out)@ == old(out)@ + enc_opt_str(o.deep_view()),
{
    match o {
        Some(t) => push_esc_str(out, t.as_str()),
        None => push_lit(out, "null"),
    }
}

/// Appends an optional counter.
fn push_opt_u64(out: &mut Vec<char>, o: &Option<u64>)
    ensures
        final(out)@ == old(out)@ + enc_opt_u64(*o),
{
    match o {
        Some(v) => push_u64(out, *v),
        None => push_lit(out, "null"),
    }
}

/// Appends an optional flag.
fn push_opt_bool(out: &mut Vec<char>, o: &Option<bool>)
    ensures
        final(out)@ == old(out)@ + enc_opt_bool(*o),
{
    match o {
        Some(b) => if *b {
            push_lit(out, "true")
        } else {
            push_lit(out, "false")
        },
        None => push_lit(out, "null"),
    }
}

/// Appends one repository record.
fn push_repo(out: &mut Vec<char>, r: &Repository)
    ensures
        final(out)@ == old(out)@ + enc_repo(r@),
{
    push_lit(out, "{\"id\":");
    push_esc_str(out, r.id.as_str());
    push_lit(out, ",\"path\":");
    push_esc_str(out, r.path.as_str());
    push_lit(out, ",\"description\":");
    push_opt_str(out, &r.description);
    push_lit(out, ",\"last-access\":");
    push_opt_u64(out, &r.last_access);
    push_lit(out, "}");
    proof {
        assert(out@ =~= old(out)@ + enc_repo(r@));
    }
}

/// Appends one group record.
fn push_group(out: &mut Vec<char>, g: &Group)
    ensures
        final(out)@ == old(out)@ + enc_group(g@),
{
    push_lit(out, "{\"name\":");
    push_esc_str(out, g.name.as_str());
    push_lit(out, ",\"note\":");
    push_esc_str(out, g.note.as_str());
    push_lit(out, ",\"abbrev\":");
    push_opt_bool(out, &g.abbrev);
    push_lit(out, "}");
    proof {
        assert(out@ =~= old(out)@ + enc_group(g@));
    }
}

/// Appends one relation record.
fn push_rel(out: &mut Vec<char>, l: &Relation)
    ensures
        final(out)@ == old(out)@ + enc_rel(l@),
{
    push_lit(out, "{\"id\":");
    push_esc_str(out, l.id.as_str());
    push_lit(out, ",\"group\":");
    push_esc_str(out, l.group.as_str());
    push_lit(out, "}");
    proof {
        assert(out@ =~= old(out)@ + enc_rel(l@));
    }
}

/// Appends the tail of a repository list, starting at index `i`.
fn push_repos_from(out: &mut Vec<char>, v: &Vec<Repository>, i: usize)
    requires
        i <= v.len(),
    ensures
        final(out)@ == old(out)@ + enc_repos_rest(v.deep_view().skip(i as int)),
    decreases v.len() - i,
{
    if i == v.len() {
        out.push(']');
        proof {
            assert(v.deep_view().skip(i as int) =~= Seq::<RepoV>::empty());
            assert(out@ =~= old(out)@ + enc_repos_rest(v.deep_view().skip(i as int)));
        }
    } else {
        out.push(',');
        push_repo(out, &v[i]);
        push_repos_from(out, v, i + 1);
        proof {
            let items = v.deep_view().skip(i as int);
            assert(items[0] == v.deep_view()[i as int]);
            assert(items.drop_first() =~= v.deep_view().skip(i + 1 as int));
            assert(out@ =~= old(out)@ + enc_repos_rest(items));
        }
    }
}

/// Appends a whole repository list with its closing bracket.
fn push_repos(out: &mut Vec<char>, v: &Vec<Repository>)
    ensures
        final(out)@ == old(out)@ + enc_repos(v.deep_view()),
{
    if v.len() == 0 {
        out.push(']');
        proof {
            assert(out@ =~= old(out)@ + enc_repos(v.deep_view()));
        }
    } else {
        push_repo(out, &v[0]);
        push_repos_from(out, v, 1);
        proof {
            assert(v.deep_view().skip(1) =~= v.deep_view().drop_first());
            assert(out@ =~= old(out)@ + enc_repos(v.deep_view()));
        }
    }
}

/// Appends the tail of a group list, starting at index `i`.
fn push_groups_from(out: &mut Vec<char>, v: &Vec<Group>, i: usize)
    requires
        i <= v.len(),
    ensures
        final(out)@ == old(out)@ + enc_groups_rest(v.deep_view().skip(i as int)),
    decreases v.len() - i,
{
    if i == v.len() {
        out.push(']');
        proof {
            assert(v.deep_view().skip(i as int) =~= Seq::<GroupV>::empty());
            assert(out@ =~= old(out)@ + enc_groups_rest(v.deep_view().skip(i as int)));
        }
    } else {
        out.push(',');
        push_group(out, &v[i]);
        push_groups_from(out, v, i + 1);
        proof {
            let items = v.deep_view().skip(i as int);
            assert(items[0] == v.deep_view()[i as int]);
            assert(items.drop_first() =~= v.deep_view().skip(i + 1 as int));
            assert(out@ =~= old(out)@ + enc_groups_rest(items));
        }
    }
}

/// Appends a whole group list with its closing bracket.
fn push_groups(out: &mut Vec<char>, v: &Vec<Group>)
    ensures
        final(out)@ == old(out)@ + enc_groups(v.deep_view()),
{
    if v.len() == 0 {
        out.push(']');
        proof {
            assert(out@ =~= old(out)@ + enc_groups(v.deep_view()));
        }
    } else {
        push_group(out, &v[0]);
        push_groups_from(out, v, 1);
        proof {
            assert(v.deep_view().skip(1) =~= v.deep_view().drop_first());
            assert(out@ =~= old(out)@ + enc_groups(v.deep_view()));
        }
    }
}

/// Appends the tail of a relation list, starting at index `i`.
fn push_rels_from(out: &mut Vec<char>, v: &Vec<Relation>, i: usize)
    requires
        i <= v.len(),
    ensures
        final(out)@ == old(out)@ + enc_rels_rest(v.deep_view().skip(i as int)),
    decreases v.len() - i,
{
    if i == v.len() {
        out.push(']');
        proof {
            assert(v.deep_view().skip(i as int) =~= Seq::<RelV>::empty());
            assert(out@ =~= old(out)@ + enc_rels_rest(v.deep_view().skip(i as int)));
        }
    } else {
        out.push(',');
        push_rel(out, &v[i]);
        push_rels_from(out, v, i + 1);
        proof {
            let items = v.deep_view().skip(i as int);
            assert(items[0] == v.deep_view()[i as int]);
            assert(items.drop_first() =~= v.deep_view().skip(i + 1 as int));
            assert(out@ =~= old(out)@ + enc_rels_rest(items));
        }
    }
}

/// Appends a whole relation list with its closing bracket.
fn push_rels(out: &mut Vec<char>, v: &Vec<Relation>)
    ensures
        final(out)@ == old(out)@ + enc_rels(v.deep_view()),
{
    if v.len() == 0 {
        out.push(']');
        proof {
            assert(out@ =~= old(out)@ + enc_rels(v.deep_view()));
        }
    } else {
        push_rel(out, &v[0]);
        push_rels_from(out, v, 1);
        proof {
            assert(v.deep_view().skip(1) =~= v.deep_view().drop_first());
            assert(out@ =~= old(out)@ + enc_rels(v.deep_view()));
        }
    }
}

/// Renders a whole store as one snapshot document.
pub fn render_db(db: &crate::db::jsondb::JsonDB) -> (out: Vec<char>)
    ensures
        out@ == enc_db(db@),
{
    let mut out: Vec<char> = Vec::new();
    push_lit(&mut out, "{\"last-modified\":");
    push_u64(&mut out, db.last_modified);
    push_lit(&mut out, ",\"repositories\":[");
    push_repos(&mut out, &db.repositories);
    push_lit(&mut out, ",\"groups\":[");
    push_groups(&mut out, &db.groups);
    push_lit(&mut out, ",\"relations\":[");
    push_rels(&mut out, &db.relations);
    push_lit(&mut out, "}");
    proof {
        assert(out@ =~= enc_db(db@));
    }
    out
}

// ---------------------------------------------------------------------
// executable parsing
// ---------------------------------------------------------------------

/// Whether `c` is a decimal digit.
fn is_digit_c(c: char) -> (r: bool)
    ensures
        r == is_digit(c),
{
    c == '0' || c == '1' || c == '2' || c == '3' || c == '4' || c == '5' || c == '6' || c == '7'
        || c == '8' || c == '9'
}

/// The value of a digit character.
fn digit_val_c(c: char) -> (r: u64)
    requires
        is_digit(c),
    ensures
        r == digit_val(c),
        r < 10,
{
    if c == '0' {
        0
    } else if c == '1' {
        1
    } else if c == '2' {
        2
    } else if c == '3' {
        3
    } else if c == '4' {
        4
    } else if c == '5' {
        5
    } else if c == '6' {
        6
    } else if c == '7' {
        7
    } else if c == '8' {
        8
    } else {
        9
    }
}

/// Matches a fixed piece of text.
fn x_expect(s: &Vec<char>, i: usize, lit: &str) -> (r: Option<usize>)
    requires
        i <= s.len(),
    ensures
        match r {
            Some(j) => expect(s@, i as int, lit@) == Some(j as int) && i <= j <= s.len(),
            None => expect(s@, i as int, lit@) is None,
        },
{
    let n = lit.unicode_len();
    if n > s.len() - i {
        return None;
    }
    let mut k: usize = 0;
    while k < n
        invariant
            n == lit@.len(),
            i + n <= s.len(),
            k <= n,
            forall|m: int| 0 <= m < k ==> s@[i + m] == lit@[m],
        decreases n - k,
    {
        if s[i + k] != lit.get_char(k) {
            proof {
                assert(s@.subrange(i as int, i + lit@.len())[k as int] != lit@[k as int]);
            }
            return None;
        }
        k = k + 1;
    }
    proof {
        assert(s@.subrange(i as int, i + lit@.len()) =~= lit@);
    }
    Some(i + n)
}

/// Reads a string body up to its closing quote.
fn x_str_body(s: &Vec<char>, i: usize) -> (r: Option<(Vec<char>, usize)>)
    requires
        i <= s.len(),
    ensures
        match r {
            Some(p) => p_str_body(s@, i as int) == Some((p.0@, p.1 as int)) && i < p.1 <= s.len(),
            None => p_str_body(s@, i as int) is None,
        },
    decreases s.len() - i,
{
    if i >= s.len() {
        return None;
    }
    let c = s[i];
    if c == '"' {
        let v: Vec<char> = Vec::new();
        proof {
            assert(v@ =~= Seq::<char>::empty());
        }
        Some((v, i + 1))
    } else if c == '\\' {
        if i + 1 < s.len() {
            match x_str_body(s, i + 2) {
                Some((t, j)) => {
                    let ghost tv = t@;
                    let mut t2 = t;
                    t2.insert(0, s[i + 1]);
                    proof {
                        assert(t2@ =~= seq![s@[i + 1]] + tv);
                    }
                    Some((t2, j))
                },
                None => None,
            }
        } else {
            None
        }
    } else {
        match x_str_body(s, i + 1) {
            Some((t, j)) => {
                let ghost tv = t@;
                let mut t2 = t;
                t2.insert(0, c);
                proof {
                    assert(t2@ =~= seq![s@[i as int]] + tv);
                }
                Some((t2, j))
            },
            None => None,
        }
    }
}

/// Reads a quoted string.
fn x_string(s: &Vec<char>, i: usize) -> (r: Option<(Vec<char>, usize)>)
    requires
        i <= s.len(),
    ensures
        match r {
            Some(p) => p_string(s@, i as int) == Some((p.0@, p.1 as int)) && i < p.1 <= s.len(),
            None => p_string(s@, i as int) is None,
        },
{
    if i < s.len() && s[i] == '"' {
        x_str_body(s, i + 1)
    } else {
        None
    }
}

/// A digit string is worth no less than any of its prefixes.
pub proof fn lemma_seq_to_val_nonneg(ds: Seq<char>)
    ensures
        seq_to_val(ds) >= 0,
    decreases ds.len(),
{
    if ds.len() > 0 {
        lemma_seq_to_val_nonneg(ds.drop_last());
    }
}

/// A digit string is worth no less than any of its prefixes.
pub proof fn lemma_seq_to_val_prefix_le(ds: Seq<char>, m: int)
    requires
        0 <= m <= ds.len(),
    ensures
        seq_to_val(ds.take(m)) <= seq_to_val(ds),
    decreases ds.len() - m,
{
    if m == ds.len() {
        assert(ds.take(m) =~= ds);
    } else {
        lemma_seq_to_val_prefix_le(ds, m + 1);
        lemma_seq_to_val_nonneg(ds.take(m));
        assert(ds.take(m + 1).drop_last() =~= ds.take(m));
        assert(seq_to_val(ds.take(m + 1)) == seq_to_val(ds.take(m)) * 10 + digit_val(
            ds.take(m + 1).last(),
        ));
    }
}

/// Reads a decimal counter.
fn x_u64(s: &Vec<char>, i: usize) -> (r: Option<(u64, usize)>)
    requires
        i <= s.len(),
    ensures
        match r {
            Some(p) => p_u64(s@, i as int) == Some((p.0, p.1 as int)) && i < p.1 <= s.len(),
            None => p_u64(s@, i as int) is None,
        },
{
    let mut j: usize = i;
    while j < s.len() && is_digit_c(s[j])
        invariant
            i <= j <= s.len(),
            digits_end(s@, i as int) == digits_end(s@, j as int),
            forall|m: int| i <= m < j ==> is_digit(#[trigger] s@[m]),
        decreases s.len() - j,
    {
        j = j + 1;
    }
    proof {
        assert(digits_end(s@, j as int) == j as int);
    }
    if j == i {
        return None;
    }
    let ghost ds = s@.subrange(i as int, j as int);
    let mut acc: u64 = 0;
    let mut k: usize = i;
    while k < j
        invariant
            i <= k <= j <= s.len(),
            forall|m: int| i <= m < j ==> is_digit(#[trigger] s@[m]),
            ds == s@.subrange(i as int, j as int),
            acc == seq_to_val(s@.subrange(i as int, k as int)),
            digits_end(s@, i as int) == j as int,
        decreases j - k,
    {
        let d = digit_val_c(s[k]);
        proof {
            assert(s@.subrange(i as int, k + 1 as int).drop_last() =~= s@.subrange(
                i as int,
                k as int,
            ));
            assert(s@.subrange(i as int, k + 1 as int).last() == s@[k as int]);
        }
        let m10 = match acc.checked_mul(10) {
            Some(v) => v,
            None => {
                proof {
                    assert(seq_to_val(s@.subrange(i as int, k + 1 as int)) > u64::MAX as int);
                    assert(ds.take(k + 1 - i) =~= s@.subrange(i as int, k + 1 as int));
                    lemma_seq_to_val_prefix_le(ds, k + 1 - i);
                }
                return None;
            },
        };
        let sum = match m10.checked_add(d) {
            Some(v) => v,
            None => {
                proof {
                    assert(seq_to_val(s@.subrange(i as int, k + 1 as int)) > u64::MAX as int);
                    assert(ds.take(k + 1 - i) =~= s@.subrange(i as int, k + 1 as int));
                    lemma_seq_to_val_prefix_le(ds, k + 1 - i);
                }
                return None;
            },
        };
        acc = sum;
        k = k + 1;
    }
    proof {
        assert(s@.subrange(i as int, j as int) == ds);
    }
    Some((acc, j))
}

/// Reads a string or `null`.
fn x_opt_str(s: &Vec<char>, i: usize) -> (r: Option<(Option<String>, usize)>)
    requires
        i <= s.len(),
    ensures
        match r {
            Some(p) => p_opt_str(s@, i as int) == Some((p.0.deep_view(), p.1 as int)) && i < p.1
                <= s.len(),
            None => p_opt_str(s@, i as int) is None,
        },
{
    if i < s.len() && s[i] == 'n' {
        match x_expect(s, i, "null") {
            Some(j) => {
                proof {
                    reveal_strlit("null");
                }
                Some((None, j))
            },
            None => None,
        }
    } else {
        match x_string(s, i) {
            Some((t, j)) => Some((Some(chars_to_string(&t)), j)),
            None => None,
        }
    }
}

/// Reads a counter or `null`.
fn x_opt_u64(s: &Vec<char>, i: usize) -> (r: Option<(Option<u64>, usize)>)
    requires
        i <= s.len(),
    ensures
        match r {
            Some(p) => p_opt_u64(s@, i as int) == Some((p.0, p.1 as int)) && i < p.1 <= s.len(),
            None => p_opt_u64(s@, i as int) is None,
        },
{
    if i < s.len() && s[i] == 'n' {
        match x_expect(s, i, "null") {
            Some(j) => {
                proof {
                    reveal_strlit("null");
                }
                Some((None, j))
            },
            None => None,
        }
    } else {
        match x_u64(s, i) {
            Some((v, j)) => Some((Some(v), j)),
            None => None,
        }
    }
}

/// Reads `true`, `false` or `null`.
fn x_opt_bool(s: &Vec<char>, i: usize) -> (r: Option<(Option<bool>, usize)>)
    requires
        i <= s.len(),
    ensures
        match r {
            Some(p) => p_opt_bool(s@, i as int) == Some((p.0, p.1 as int)) && i < p.1 <= s.len(),
            None => p_opt_bool(s@, i as int) is None,
        },
{
    if i < s.len() && s[i] == 't' {
        match x_expect(s, i, "true") {
            Some(j) => {
                proof {
                    reveal_strlit("true");
                }
                Some((Some(true), j))
            },
            None => None,
        }
    } else if i < s.len() && s[i] == 'f' {
        match x_expect(s, i, "false") {
            Some(j) => {
                proof {
                    reveal_strlit("false");
                }
                Some((Some(false), j))
            },
            None => None,
        }
    } else {
        match x_expect(s, i, "null") {
            Some(j) => {
                proof {
                    reveal_strlit("null");
                }
                Some((None, j))
            },
            None => None,
        }
    }
}

/// Reads one repository record.
fn x_repo(s: &Vec<char>, i: usize) -> (r: Option<(Repository, usize)>)
    requires
        i <= s.len(),
    ensures
        match r {
            Some(p) => p_repo(s@, i as int) == Some((p.0@, p.1 as int)) && i <= p.1 <= s.len(),
            None => p_repo(s@, i as int) is None,
        },
{
    let i1 = match x_expect(s, i, "{\"id\":") {
        Some(j) => j,
        None => {
            return None;
        },
    };
    let (id, i2) = match x_string(s, i1) {
        Some(p) => p,
        None => {
            return None;
        },
    };
    let i3 = match x_expect(s, i2, ",\"path\":") {
        Some(j) => j,
        None => {
            return None;
        },
    };
    let (path, i4) = match x_string(s, i3) {
        Some(p) => p,
        None => {
            return None;
        },
    };
    let i5 = match x_expect(s, i4, ",\"description\":") {
        Some(j) => j,
        None => {
            return None;
        },
    };
    let (description, i6) = match x_opt_str(s, i5) {
        Some(p) => p,
        None => {
            return None;
        },
    };
    let i7 = match x_expect(s, i6, ",\"last-access\":") {
        Some(j) => j,
        None => {
            return None;
        },
    };
    let (last_access, i8) = match x_opt_u64(s, i7) {
        Some(p) => p,
        None => {
            return None;
        },
    };
    let i9 = match x_expect(s, i8, "}") {
        Some(j) => j,
        None => {
            return None;
        },
    };
    let rep = Repository {
        id: chars_to_string(&id),
        path: chars_to_string(&path),
        description,
        last_access,
    };
    Some((rep, i9))
}

/// Reads one group record.
fn x_group(s: &Vec<char>, i: usize) -> (r: Option<(Group, usize)>)
    requires
        i <= s.len(),
    ensures
        match r {
            Some(p) => p_group(s@, i as int) == Some((p.0@, p.1 as int)) && i <= p.1 <= s.len(),
            None => p_group(s@, i as int) is None,
        },
{
    let i1 = match x_expect(s, i, "{\"name\":") {
        Some(j) => j,
        None => {
            return None;
        },
    };
    let (name, i2) = match x_string(s, i1) {
        Some(p) => p,
        None => {
            return None;
        },
    };
    let i3 = match x_expect(s, i2, ",\"note\":") {
        Some(j) => j,
        None => {
            return None;
        },
    };
    let (note, i4) = match x_string(s, i3) {
        Some(p) => p,
        None => {
            return None;
        },
    };
    let i5 = match x_expect(s, i4, ",\"abbrev\":") {
        Some(j) => j,
        None => {
            return None;
        },
    };
    let (abbrev, i6) = match x_opt_bool(s, i5) {
        Some(p) => p,
        None => {
            return None;
        },
    };
    let i7 = match x_expect(s, i6, "}") {
        Some(j) => j,
        None => {
            return None;
        },
    };
    let g = Group { name: chars_to_string(&name), note: chars_to_string(&note), abbrev };
    Some((g, i7))
}

/// Reads one relation record.
fn x_rel(s: &Vec<char>, i: usize) -> (r: Option<(Relation, usize)>)
    requires
        i <= s.len(),
    ensures
        match r {
            Some(p) => p_rel(s@, i as int) == Some((p.0@, p.1 as int)) && i <= p.1 <= s.len(),
            None => p_rel(s@, i as int) is None,
        },
{
    let i1 = match x_expect(s, i, "{\"id\":") {
        Some(j) => j,
        None => {
            return None;
        },
    };
    let (id, i2) = match x_string(s, i1) {
        Some(p) => p,
        None => {
            return None;
        },
    };
    let i3 = match x_expect(s, i2, ",\"group\":") {
        Some(j) => j,
        None => {
            return None;
        },
    };
    let (group, i4) = match x_string(s, i3) {
        Some(p) => p,
        None => {
            return None;
        },
    };
    let i5 = match x_expect(s, i4, "}") {
        Some(j) => j,
        None => {
            return None;
        },
    };
    let l = Relation { id: chars_to_string(&id), group: chars_to_string(&group) };
    Some((l, i5))
}

/// Reads the tail of a repository list.
fn x_repos_rest(s: &Vec<char>, i: usize) -> (r: Option<(Vec<Repository>, usize)>)
    requires
        i <= s.len(),
    ensures
        match r {
            Some(p) => p_repos_rest(s@, i as int) == Some((p.0.deep_view(), p.1 as int)) && i
                <= p.1 <= s.len(),
            None => p_repos_rest(s@, i as int) is None,
        },
    decreases s.len() - i,
{
    if i < s.len() && s[i] == ']' {
        let v: Vec<Repository> = Vec::new();
        proof {
            assert(v.deep_view() =~= Seq::<RepoV>::empty());
        }
        Some((v, i + 1))
    } else if i < s.len() && s[i] == ',' {
        match x_repo(s, i + 1) {
            Some((r0, j)) => if j > i + 1 {
                match x_repos_rest(s, j) {
                    Some((rs, k)) => {
                        let ghost rsv = rs.deep_view();
                        let ghost r0v = r0@;
                        let mut rs2 = rs;
                        rs2.insert(0, r0);
                        proof {
                            assert(rs2.deep_view() =~= seq![r0v] + rsv);
                        }
                        Some((rs2, k))
                    },
                    None => None,
                }
            } else {
                None
            },
            None => None,
        }
    } else {
        None
    }
}

/// Reads a repository list up to its closing bracket.
fn x_repos(s: &Vec<char>, i: usize) -> (r: Option<(Vec<Repository>, usize)>)
    requires
        i <= s.len(),
    ensures
        match r {
            Some(p) => p_repos(s@, i as int) == Some((p.0.deep_view(), p.1 as int)) && i <= p.1
                <= s.len(),
            None => p_repos(s@, i as int) is None,
        },
{
    if i < s.len() && s[i] == ']' {
        let v: Vec<Repository> = Vec::new();
        proof {
            assert(v.deep_view() =~= Seq::<RepoV>::empty());
        }
        Some((v, i + 1))
    } else {
        match x_repo(s, i) {
            Some((r0, j)) => if j > i {
                match x_repos_rest(s, j) {
                    Some((rs, k)) => {
                        let ghost rsv = rs.deep_view();
                        let ghost r0v = r0@;
                        let mut rs2 = rs;
                        rs2.insert(0, r0);
                        proof {
                            assert(rs2.deep_view() =~= seq![r0v] + rsv);
                        }
                        Some((rs2, k))
                    },
                    None => None,
                }
            } else {
                None
            },
            None => None,
        }
    }
}

/// Reads the tail of a group list.
fn x_groups_rest(s: &Vec<char>, i: usize) -> (r: Option<(Vec<Group>, usize)>)
    requires
        i <= s.len(),
    ensures
        match r {
            Some(p) => p_groups_rest(s@, i as int) == Some((p.0.deep_view(), p.1 as int)) && i
                <= p.1 <= s.len(),
            None => p_groups_rest(s@, i as int) is None,
        },
    decreases s.len() - i,
{
    if i < s.len() && s[i] == ']' {
        let v: Vec<Group> = Vec::new();
        proof {
            assert(v.deep_view() =~= Seq::<GroupV>::empty());
        }
        Some((v, i + 1))
    } else if i < s.len() && s[i] == ',' {
        match x_group(s, i + 1) {
            Some((g0, j)) => if j > i + 1 {
                match x_groups_rest(s, j) {
                    Some((gs, k)) => {
                        let ghost gsv = gs.deep_view();
                        let ghost g0v = g0@;
                        let mut gs2 = gs;
                        gs2.insert(0, g0);
                        proof {
                            assert(gs2.deep_view() =~= seq![g0v] + gsv);
                        }
                        Some((gs2, k))
                    },
                    None => None,
                }
            } else {
                None
            },
            None => None,
        }
    } else {
        None
    }
}

/// Reads a group list up to its closing bracket.
fn x_groups(s: &Vec<char>, i: usize) -> (r: Option<(Vec<Group>, usize)>)
    requires
        i <= s.len(),
    ensures
        match r {
            Some(p) => p_groups(s@, i as int) == Some((p.0.deep_view(), p.1 as int)) && i <= p.1
                <= s.len(),
            None => p_groups(s@, i as int) is None,
        },
{
    if i < s.len() && s[i] == ']' {
        let v: Vec<Group> = Vec::new();
        proof {
            assert(v.deep_view() =~= Seq::<GroupV>::empty());
        }
        Some((v, i + 1))
    } else {
        match x_group(s, i) {
            Some((g0, j)) => if j > i {
                match x_groups_rest(s, j) {
                    Some((gs, k)) => {
                        let ghost gsv = gs.deep_view();
                        let ghost g0v = g0@;
                        let mut gs2 = gs;
                        gs2.insert(0, g0);
                        proof {
                            assert(gs2.deep_view() =~= seq![g0v] + gsv);
                        }
                        Some((gs2, k))
                    },
                    None => None,
                }
            } else {
                None
            },
            None => None,
        }
    }
}

/// Reads the tail of a relation list.
fn x_rels_rest(s: &Vec<char>, i: usize) -> (r: Option<(Vec<Relation>, usize)>)
    requires
        i <= s.len(),
    ensures
        match r {
            Some(p) => p_rels_rest(s@, i as int) == Some((p.0.deep_view(), p.1 as int)) && i
                <= p.1 <= s.len(),
            None => p_rels_rest(s@, i as int) is None,
        },
    decreases s.len() - i,
{
    if i < s.len() && s[i] == ']' {
        let v: Vec<Relation> = Vec::new();
        proof {
            assert(v.deep_view() =~= Seq::<RelV>::empty());
        }
        Some((v, i + 1))
    } else if i < s.len() && s[i] == ',' {
        match x_rel(s, i + 1) {
            Some((l0, j)) => if j > i + 1 {
                match x_rels_rest(s, j) {
                    Some((ls, k)) => {
                        let ghost lsv = ls.deep_view();
                        let ghost l0v = l0@;
                        let mut ls2 = ls;
                        ls2.insert(0, l0);
                        proof {
                            assert(ls2.deep_view() =~= seq![l0v] + lsv);
                        }
                        Some((ls2, k))
                    },
                    None => None,
                }
            } else {
                None
            },
            None => None,
        }
    } else {
        None
    }
}

/// Reads a relation list up to its closing bracket.
fn x_rels(s: &Vec<char>, i: usize) -> (r: Option<(Vec<Relation>, usize)>)
    requires
        i <= s.len(),
    ensures
        match r {
            Some(p) => p_rels(s@, i as int) == Some((p.0.deep_view(), p.1 as int)) && i <= p.1
                <= s.len(),
            None => p_rels(s@, i as int) is None,
        },
{
    if i < s.len() && s[i] == ']' {
        let v: Vec<Relation> = Vec::new();
        proof {
            assert(v.deep_view() =~= Seq::<RelV>::empty());
        }
        Some((v, i + 1))
    } else {
        match x_rel(s, i) {
            Some((l0, j)) => if j > i {
                match x_rels_rest(s, j) {
                    Some((ls, k)) => {
                        let ghost lsv = ls.deep_view();
                        let ghost l0v = l0@;
                        let mut ls2 = ls;
                        ls2.insert(0, l0);
                        proof {
                            assert(ls2.deep_view() =~= seq![l0v] + lsv);
                        }
                        Some((ls2, k))
                    },
                    None => None,
                }
            } else {
                None
            },
            None => None,
        }
    }
}

/// Reads a whole snapshot document into a store value.
pub fn parse_db(s: &Vec<char>) -> (r: Option<(crate::db::jsondb::JsonDB, usize)>)
    ensures
        match r {
            Some(p) => p_db(s@, 0) == Some((p.0@, p.1 as int)) && p.1 <= s.len(),
            None => p_db(s@, 0) is None,
        },
{
    let i1 = match x_expect(s, 0, "{\"last-modified\":") {
        Some(j) => j,
        None => {
            return None;
        },
    };
    let (lm, i2) = match x_u64(s, i1) {
        Some(p) => p,
        None => {
            return None;
        },
    };
    let i3 = match x_expect(s, i2, ",\"repositories\":[") {
        Some(j) => j,
        None => {
            return None;
        },
    };
    let (repositories, i4) = match x_repos(s, i3) {
        Some(p) => p,
        None => {
            return None;
        },
    };
    let i5 = match x_expect(s, i4, ",\"groups\":[") {
        Some(j) => j,
        None => {
            return None;
        },
    };
    let (groups, i6) = match x_groups(s, i5) {
        Some(p) => p,
        None => {
            return None;
        },
    };
    let i7 = match x_expect(s, i6, ",\"relations\":[") {
        Some(j) => j,
        None => {
            return None;
        },
    };
    let (relations, i8) = match x_rels(s, i7) {
        Some(p) => p,
        None => {
            return None;
        },
    };
    let i9 = match x_expect(s, i8, "}") {
        Some(j) => j,
        None => {
            return None;
        },
    };
    let db = crate::db::jsondb::JsonDB { last_modified: lm, repositories, groups, relations };
    Some((db, i9))
}

} // verus!
