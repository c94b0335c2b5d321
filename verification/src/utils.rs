//! Small verified helpers shared across the crate: character-level string
//! comparison, decimal rendering and parsing of counters, and the
//! singular/plural phrase builder used by the reports.
use vstd::prelude::*;
use vstd::string::StrSliceExecFns;
use vstd::string::StringExecFns;

verus! {

/// Compares two string slices character by character.
pub fn str_eq(a: &str, b: &str) -> (r: bool)
    ensures
        r == (a@ == b@),
{
    let la = a.unicode_len();
    let lb = b.unicode_len();
    if la != lb {
        return false;
    }
    let mut i: usize = 0;
    while i < la
        invariant
            la == a@.len(),
            lb == b@.len(),
            la == lb,
            i <= la,
            forall|j: int| 0 <= j < i ==> a@[j] == b@[j],
        decreases la - i,
    {
        if a.get_char(i) != b.get_char(i) {
            return false;
        }
        i = i + 1;
    }
    proof {
        assert(a@ =~= b@);
    }
    true
}

/// Whether `s` ends with the characters of `suffix`.
pub open spec fn ends_with(s: Seq<char>, suffix: Seq<char>) -> bool {
    s.len() >= suffix.len() && s.subrange(s.len() - suffix.len(), s.len() as int) == suffix
}

/// Compares the tail of `s` against `suffix`, character by character.
pub fn str_ends_with(s: &str, suffix: &str) -> (r: bool)
    ensures
        r == ends_with(s@, suffix@),
{
    let ls = s.unicode_len();
    let lx = suffix.unicode_len();
    if ls < lx {
        proof {
            assert(!ends_with(s@, suffix@));
        }
        return false;
    }
    let start = ls - lx;
    let mut i: usize = 0;
    while i < lx
        invariant
            ls == s@.len(),
            lx == suffix@.len(),
            start == ls - lx,
            i <= lx,
            forall|j: int| 0 <= j < i ==> s@[start + j] == suffix@[j],
        decreases lx - i,
    {
        if s.get_char(start + i) != suffix.get_char(i) {
            proof {
                assert(s@.subrange(start as int, s@.len() as int)[i as int] != suffix@[i as int]);
            }
            return false;
        }
        i = i + 1;
    }
    proof {
        assert(s@.subrange(start as int, s@.len() as int) =~= suffix@);
    }
    true
}

/// Whether `s` starts with the characters of `prefix`.
pub open spec fn starts_with(s: Seq<char>, prefix: Seq<char>) -> bool {
    s.len() >= prefix.len() && s.subrange(0, prefix.len() as int) == prefix
}

/// Compares the head of `s` against `prefix`, character by character.
pub fn str_starts_with(s: &str, prefix: &str) -> (r: bool)
    ensures
        r == starts_with(s@, prefix@),
{
    let ls = s.unicode_len();
    let lx = prefix.unicode_len();
    if ls < lx {
        return false;
    }
    let mut i: usize = 0;
    while i < lx
        invariant
            ls == s@.len(),
            lx == prefix@.len(),
            lx <= ls,
            i <= lx,
            forall|j: int| 0 <= j < i ==> s@[j] == prefix@[j],
        decreases lx - i,
    {
        if s.get_char(i) != prefix.get_char(i) {
            proof {
                assert(s@.subrange(0, prefix@.len() as int)[i as int] != prefix@[i as int]);
            }
            return false;
        }
        i = i + 1;
    }
    proof {
        assert(s@.subrange(0, prefix@.len() as int) =~= prefix@);
    }
    true
}

/// What `str::to_lowercase` returns for a given character sequence: the
/// result depends on the characters alone.
pub uninterp spec fn lower_of(s: Seq<char>) -> Seq<char>;

/// Relies on `str::to_lowercase` of std: the lowercase form is a function
/// of the characters alone, and an empty string stays empty.
#[verifier::external_body]
pub fn to_lowercase(s: &str) -> (r: String)
    ensures
        r@ == lower_of(s@),
        s@.len() == 0 ==> r@.len() == 0,
{
    s.to_lowercase()
}

/// Whether `s` contains `w` as a contiguous run of characters.
pub open spec fn contains_seq(s: Seq<char>, w: Seq<char>) -> bool {
    exists|k: int| 0 <= k <= s.len() - w.len() && #[trigger] s.subrange(k, k + w.len()) == w
}

/// Checks whether `w` occurs at position `k` of `s`.
fn matches_at(s: &str, w: &str, k: usize) -> (r: bool)
    requires
        k + w@.len() <= s@.len(),
    ensures
        r == (s@.subrange(k as int, k + w@.len()) == w@),
{
    let ls = s.unicode_len();
    let lw = w.unicode_len();
    let mut i: usize = 0;
    while i < lw
        invariant
            ls == s@.len(),
            lw == w@.len(),
            k + lw <= ls,
            i <= lw,
            forall|j: int| 0 <= j < i ==> s@[k + j] == w@[j],
        decreases lw - i,
    {
        if s.get_char(k + i) != w.get_char(i) {
            proof {
                assert(s@.subrange(k as int, k + w@.len())[i as int] != w@[i as int]);
            }
            return false;
        }
        i = i + 1;
    }
    proof {
        assert(s@.subrange(k as int, k + w@.len()) =~= w@);
    }
    true
}

/// Naive substring search over characters.
pub fn str_contains(s: &str, w: &str) -> (r: bool)
    ensures
        r == contains_seq(s@, w@),
{
    let ls = s.unicode_len();
    let lw = w.unicode_len();
    if lw > ls {
        return false;
    }
    if lw == 0 {
        proof {
            assert(s@.subrange(0int, 0int + w@.len() as int) =~= w@);
            assert(s@.subrange(0int, 0int + w@.len() as int) == w@);
        }
        return true;
    }
    let mut k: usize = 0;
    while k <= ls - lw
        invariant
            ls == s@.len(),
            lw == w@.len(),
            0 < lw <= ls,
            k <= ls - lw + 1,
            forall|j: int| 0 <= j < k ==> #[trigger] s@.subrange(j, j + w@.len()) != w@,
        decreases ls - k,
    {
        if matches_at(s, w, k) {
            return true;
        }
        k = k + 1;
    }
    false
}

/// The character of one decimal digit.
pub open spec fn dec_digit(d: int) -> char {
    if d == 0 {
        '0'
    } else if d == 1 {
        '1'
    } else if d == 2 {
        '2'
    } else if d == 3 {
        '3'
    } else if d == 4 {
        '4'
    } else if d == 5 {
        '5'
    } else if d == 6 {
        '6'
    } else if d == 7 {
        '7'
    } else if d == 8 {
        '8'
    } else {
        '9'
    }
}

/// Whether a character is a decimal digit.
pub open spec fn is_digit(c: char) -> bool {
    c == '0' || c == '1' || c == '2' || c == '3' || c == '4' || c == '5' || c == '6' || c == '7'
        || c == '8' || c == '9'
}

/// The value of one decimal digit character.
pub open spec fn digit_val(c: char) -> int {
    if c == '0' {
        0
    } else if c == '1' {
        1
    } else if c == '2' {
        2
    } else if c == '3' {
        3
    } else if c == '4' {
        4
    } else if c == '5' {
        5
    } else if c == '6' {
        6
    } else if c == '7' {
        7
    } else if c == '8' {
        8
    } else {
        9
    }
}

/// The decimal rendering of a natural number, most significant digit
/// first.
pub open spec fn dec_chars(n: int) -> Seq<char>
    decreases n,
{
    if n < 10 {
        seq![dec_digit(n)]
    } else {
        dec_chars(n / 10).push(dec_digit(n % 10))
    }
}

/// Every character of a decimal rendering is a digit.
pub proof fn lemma_dec_chars_digits(n: int)
    requires
        n >= 0,
    ensures
        dec_chars(n).len() >= 1,
        forall|i: int| 0 <= i < dec_chars(n).len() ==> is_digit(#[trigger] dec_chars(n)[i]),
    decreases n,
{
    if n >= 10 {
        lemma_dec_chars_digits(n / 10);
    }
}

/// The digit character of a value below ten.
fn digit_char(d: u64) -> (c: char)
    requires
        d < 10,
    ensures
        c == dec_digit(d as int),
{
    if d == 0 {
        '0'
    } else if d == 1 {
        '1'
    } else if d == 2 {
        '2'
    } else if d == 3 {
        '3'
    } else if d == 4 {
        '4'
    } else if d == 5 {
        '5'
    } else if d == 6 {
        '6'
    } else if d == 7 {
        '7'
    } else if d == 8 {
        '8'
    } else {
        '9'
    }
}

/// Renders `n` in decimal as a character vector.
pub fn u64_to_chars(n: u64) -> (v: Vec<char>)
    ensures
        v@ == dec_chars(n as int),
    decreases n,
{
    if n < 10 {
        let mut v: Vec<char> = Vec::new();
        v.push(digit_char(n));
        proof {
            assert(v@ =~= dec_chars(n as int));
        }
        v
    } else {
        let mut v = u64_to_chars(n / 10);
        v.push(digit_char(n % 10));
        v
    }
}

/// Relies on `FromIterator<char> for String` of std: collecting characters
/// builds the string of exactly those characters.
#[verifier::external_body]
pub fn chars_to_string(v: &Vec<char>) -> (s: String)
    ensures
        s@ == v@,
{
    v.iter().collect()
}

/// Relies on `str::chars` of std: iterating a string yields exactly its
/// characters, in order.
#[verifier::external_body]
pub fn string_to_chars(s: &str) -> (v: Vec<char>)
    ensures
        v@ == s@,
{
    s.chars().collect()
}

/// Renders `n` in decimal.
pub fn u64_to_string(n: u64) -> (s: String)
    ensures
        s@ == dec_chars(n as int),
{
    let v = u64_to_chars(n);
    chars_to_string(&v)
}

/// A count followed by the singular or the plural word, as in the
/// confirmation messages.
pub fn format_humanize(count: usize, singular: &str, plural: &str) -> (s: String)
    ensures
        s@ == dec_chars(count as int) + " "@ + (if count == 1 {
            singular@
        } else {
            plural@
        }),
{
    let mut s = u64_to_string(count as u64);
    s.append(" ");
    if count == 1 {
        s.append(singular);
    } else {
        s.append(plural);
    }
    s
}

/// Clones a list of strings, keeping the values.
pub fn clone_string_vec(v: &Vec<String>) -> (r: Vec<String>)
    ensures
        r@ == v@,
{
    let n = v.len();
    let mut out: Vec<String> = Vec::new();
    let mut i: usize = 0;
    while i < n
        invariant
            n == v.len(),
            i <= n,
            out@.len() == i,
            forall|k: int| 0 <= k < i ==> #[trigger] out@[k] == v@[k],
        decreases n - i,
    {
        out.push(v[i].clone());
        i = i + 1;
    }
    proof {
        assert(out@ =~= v@);
    }
    out
}

/// The text with every occurrence of `pat` replaced by `to`, scanning
/// left to right without overlap, from position `i` on.
pub open spec fn replaced_from(s: Seq<char>, pat: Seq<char>, to: Seq<char>, i: int) -> Seq<char>
    decreases s.len() - i,
{
    if i < 0 || i >= s.len() {
        Seq::empty()
    } else if pat.len() > 0 && i + pat.len() <= s.len() && s.subrange(i, i + pat.len()) == pat {
        to + replaced_from(s, pat, to, i + pat.len())
    } else {
        seq![s[i]] + replaced_from(s, pat, to, i + 1)
    }
}

/// Replaces every occurrence of `pat` by `to`, scanning left to right.
pub fn replace_all(s: &str, pat: &str, to: &str) -> (r: String)
    ensures
        r@ == replaced_from(s@, pat@, to@, 0),
    {
    let n = s.unicode_len();
    let m = pat.unicode_len();
    let mut out = String::new();
    let mut i: usize = 0;
    while i < n
        invariant
            n == s@.len(),
            m == pat@.len(),
            i <= n,
            out@ + replaced_from(s@, pat@, to@, i as int) == replaced_from(s@, pat@, to@, 0),
        decreases n - i,
    {
        let ghost pre = out@;
        if m > 0 && m <= n - i && matches_at_pub(s, pat, i) {
            out.append(to);
            proof {
                assert(out@ + replaced_from(s@, pat@, to@, i + pat@.len()) =~= pre + (to@
                    + replaced_from(s@, pat@, to@, i + pat@.len())));
            }
            i = i + m;
        } else {
            let mut cv: Vec<char> = Vec::new();
            cv.push(s.get_char(i));
            let one = chars_to_string(&cv);
            out.append(one.as_str());
            proof {
                assert(one@ =~= seq![s@[i as int]]);
                assert(out@ + replaced_from(s@, pat@, to@, i + 1) =~= pre + (seq![s@[i as int]]
                    + replaced_from(s@, pat@, to@, i + 1)));
            }
            i = i + 1;
        }
    }
    proof {
        assert(replaced_from(s@, pat@, to@, n as int) =~= Seq::<char>::empty());
        assert(out@ =~= out@ + replaced_from(s@, pat@, to@, n as int));
    }
    out
}

/// Checks whether `w` occurs at position `k` of `s`.
pub fn matches_at_pub(s: &str, w: &str, k: usize) -> (r: bool)
    requires
        k + w@.len() <= s@.len(),
    ensures
        r == (s@.subrange(k as int, k + w@.len()) == w@),
{
    matches_at(s, w, k)
}

/// Appends a piece of text to a string in place.
pub fn append_str(s: &mut String, t: &str)
    ensures
        final(s)@ == old(s)@ + t@,
{
    s.append(t);
}

/// Whether `c` is a decimal digit.
pub fn is_digit_char(c: char) -> (r: bool)
    ensures
        r == is_digit(c),
{
    c == '0' || c == '1' || c == '2' || c == '3' || c == '4' || c == '5' || c == '6' || c == '7'
        || c == '8' || c == '9'
}

/// The value of a digit character.
pub fn digit_val_char(c: char) -> (r: u64)
    requires
        is_digit(c),
    ensures
        r == digit_val(c),
        r < 10,
{
    if c == '0' {
        0
    } else if c == '1' {
        1
    } else if c == '2' {
        2
    } else if c == '3' {
        3
    } else if c == '4' {
        4
    } else if c == '5' {
        5
    } else if c == '6' {
        6
    } else if c == '7' {
        7
    } else if c == '8' {
        8
    } else {
        9
    }
}

/// Whether every character is a decimal digit.
pub open spec fn all_digits(ds: Seq<char>) -> bool {
    forall|k: int| 0 <= k < ds.len() ==> is_digit(#[trigger] ds[k])
}

/// The number a piece of text reads as: an optional sign, then digits,
/// within the 32-bit range.
pub open spec fn i32_of(s: Seq<char>) -> Option<i32> {
    if s.len() == 0 {
        None
    } else {
        let neg = s[0] == '-';
        let ds = if s[0] == '-' || s[0] == '+' {
            s.drop_first()
        } else {
            s
        };
        if ds.len() == 0 || !all_digits(ds) {
            None
        } else {
            let v = crate::db::codec::seq_to_val(ds);
            if neg {
                if v <= 2147483648 {
                    Some((-v) as i32)
                } else {
                    None
                }
            } else {
                if v <= 2147483647 {
                    Some(v as i32)
                } else {
                    None
                }
            }
        }
    }
}

/// Reads a 32-bit number from text: an optional sign, then digits.
#[verifier::loop_isolation(false)]
pub fn parse_i32(s: &str) -> (r: Option<i32>)
    ensures
        r == i32_of(s@),
{
    let n = s.unicode_len();
    if n == 0 {
        return None;
    }
    let c0 = s.get_char(0);
    let neg = c0 == '-';
    let start: usize = if c0 == '-' || c0 == '+' {
        1
    } else {
        0
    };
    let ghost ds = if c0 == '-' || c0 == '+' {
        s@.drop_first()
    } else {
        s@
    };
    proof {
        assert(ds =~= s@.subrange(start as int, n as int));
    }
    if start == n {
        return None;
    }
    let mut k: usize = start;
    while k < n
        invariant
            start <= k <= n,
            forall|j: int| start <= j < k ==> is_digit(#[trigger] s@[j]),
        decreases n - k,
    {
        if !is_digit_char(s.get_char(k)) {
            proof {
                assert(!is_digit(ds[k - start]));
                assert(!all_digits(ds));
            }
            return None;
        }
        k = k + 1;
    }
    proof {
        assert(all_digits(ds));
    }
    let bound: u64 = if neg {
        2147483648
    } else {
        2147483647
    };
    let mut acc: u64 = 0;
    let mut p: usize = start;
    while p < n
        invariant
            start <= p <= n,
            acc == crate::db::codec::seq_to_val(s@.subrange(start as int, p as int)),
            acc <= bound,
        decreases n - p,
    {
        let d = digit_val_char(s.get_char(p));
        proof {
            assert(s@.subrange(start as int, p + 1 as int).drop_last() =~= s@.subrange(
                start as int,
                p as int,
            ));
            assert(s@.subrange(start as int, p + 1 as int).last() == s@[p as int]);
        }
        if acc > (bound - d) / 10 {
            proof {
                crate::db::codec::lemma_seq_to_val_nonneg(s@.subrange(start as int, p + 1 as int));
                assert(acc * 10 + d > bound) by (nonlinear_arith)
                    requires
                        acc > (bound - d) / 10,
                        d < 10,
                        d <= bound,
                        acc >= 0,
                ;
                assert(ds.take(p + 1 - start) =~= s@.subrange(start as int, p + 1 as int));
                crate::db::codec::lemma_seq_to_val_prefix_le(ds, p + 1 - start);
            }
            return None;
        }
        proof {
            assert(acc * 10 + d <= bound) by (nonlinear_arith)
                requires
                    acc <= (bound - d) / 10,
                    d < 10,
                    d <= bound,
                    acc >= 0,
            ;
        }
        acc = acc * 10 + d;
        p = p + 1;
    }
    proof {
        assert(s@.subrange(start as int, n as int) == ds);
    }
    if neg {
        let signed: i64 = 0i64 - (acc as i64);
        Some(signed as i32)
    } else {
        Some(acc as i32)
    }
}

/// Renders a signed number in decimal.
pub fn i64_to_string_signed(v: i64) -> (r: String)
    requires
        v >= -2147483648,
    ensures
        v >= 0 ==> r@ == dec_chars(v as int),
        v < 0 ==> r@ == seq!['-'] + dec_chars(-v as int),
{
    if v >= 0 {
        u64_to_string(v as u64)
    } else {
        let mag = (0i64 - v) as u64;
        let mut out = "-".to_owned();
        let digits = u64_to_string(mag);
        out.append(digits.as_str());
        proof {
            reveal_strlit("-");
            assert("-"@ =~= seq!['-']);
        }
        out
    }
}

} // verus!
