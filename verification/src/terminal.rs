//! Laying text items out in fixed-width columns: the width arithmetic
//! and padding are computed here; reading the terminal's width is the
//! caller's concern.
use vstd::prelude::*;
use vstd::string::StrSliceExecFns;
use vstd::string::StringExecFns;

verus! {

/// A run of `n` spaces.
pub open spec fn spaces(n: int) -> Seq<char> {
    Seq::new(n as nat, |i: int| ' ')
}

/// One item padded with spaces on the right up to `width` characters.
pub open spec fn padded_cell(s: Seq<char>, width: int) -> Seq<char> {
    s + spaces(width - s.len())
}

/// What follows the item at position `i`: nothing after the last one, a
/// line break at the end of each full row, the spacer otherwise.
pub open spec fn cell_separator(i: int, total: int, cc: int, sp: int) -> Seq<char> {
    if i == total - 1 {
        Seq::empty()
    } else if i % cc == cc - 1 {
        seq!['\n']
    } else {
        spaces(sp)
    }
}

/// The first `n` items laid out in columns of `width`, separated and
/// broken as `cell_separator` says.
pub open spec fn column_layout(vs: Seq<String>, width: int, cc: int, sp: int, n: int) -> Seq<char>
    decreases n,
{
    if n <= 0 {
        Seq::empty()
    } else {
        column_layout(vs, width, cc, sp, n - 1) + padded_cell(vs[n - 1]@, width) + cell_separator(
            n - 1,
            vs.len() as int,
            cc,
            sp,
        )
    }
}

/// The longest character length among the first `n` items.
pub open spec fn max_len_upto(vs: Seq<String>, n: int) -> int
    decreases n,
{
    if n <= 0 {
        0
    } else {
        let p = max_len_upto(vs, n - 1);
        if vs[n - 1]@.len() > p {
            vs[n - 1]@.len() as int
        } else {
            p
        }
    }
}

/// The longest item length and how many columns of that width, spaced by
/// `spacer`, fit into `cols` character cells.
pub fn find_max_length_and_column_count(values: &Vec<String>, cols: usize, spacer: usize) -> (r: (
    usize,
    usize,
))
    requires
        spacer >= 1,
        cols + spacer <= usize::MAX,
        forall|k: int| 0 <= k < values@.len() ==> (#[trigger] values@[k])@.len() <= cols,
    ensures
        r.0 == max_len_upto(values@, values@.len() as int),
        r.1 == (cols + spacer) / (r.0 + spacer),
        r.1 >= 1,
        forall|k: int| 0 <= k < values@.len() ==> (#[trigger] values@[k])@.len() <= r.0,
{
    let n = values.len();
    let mut max: usize = 0;
    let mut i: usize = 0;
    while i < n
        invariant
            n == values.len(),
            i <= n,
            max == max_len_upto(values@, i as int),
            max <= cols,
            forall|k: int| 0 <= k < i ==> (#[trigger] values@[k])@.len() <= max,
            forall|k: int| 0 <= k < values@.len() ==> (#[trigger] values@[k])@.len() <= cols,
        decreases n - i,
    {
        let l = values[i].as_str().unicode_len();
        if l > max {
            max = l;
        }
        i = i + 1;
    }
    let column_count = (cols + spacer) / (max + spacer);
    proof {
        assert(column_count >= 1) by (nonlinear_arith)
            requires
                max <= cols,
                spacer >= 1,
                column_count == (cols + spacer) / (max + spacer),
        ;
    }
    (max, column_count)
}

/// Every item padded with spaces on the right up to `size` characters.
pub fn padding(values: Vec<String>, size: usize) -> (r: Vec<String>)
    requires
        forall|k: int| 0 <= k < values@.len() ==> (#[trigger] values@[k])@.len() <= size,
    ensures
        r@.len() == values@.len(),
        forall|k: int| 0 <= k < r@.len() ==> (#[trigger] r@[k])@.len() == size,
        forall|k: int|
            0 <= k < r@.len() ==> (#[trigger] r@[k])@ == padded_cell(values@[k]@, size as int),
{
    let n = values.len();
    let mut out: Vec<String> = Vec::new();
    let mut i: usize = 0;
    while i < n
        invariant
            n == values.len(),
            i <= n,
            out@.len() == i,
            forall|k: int| 0 <= k < values@.len() ==> (#[trigger] values@[k])@.len() <= size,
            forall|k: int| 0 <= k < i ==> (#[trigger] out@[k])@.len() == size,
            forall|k: int|
                0 <= k < i ==> (#[trigger] out@[k])@ == padded_cell(values@[k]@, size as int),
        decreases n - i,
    {
        let mut s = values[i].clone();
        let l = values[i].as_str().unicode_len();
        let mut j: usize = l;
        while j < size
            invariant
                j <= size || j == l,
                l == values@[i as int]@.len(),
                l <= size,
                l <= j,
                s@.len() == j,
                s@ == values@[i as int]@ + spaces(j - l),
            decreases size - j,
        {
            s.append(" ");
            proof {
                reveal_strlit(" ");
                assert(" "@ =~= seq![' ']);
                assert(s@ =~= values@[i as int]@ + spaces(j + 1 - l));
            }
            j = j + 1;
        }
        proof {
            assert(s@ =~= padded_cell(values@[i as int]@, size as int));
        }
        out.push(s);
        i = i + 1;
    }
    out
}

/// Lays the items out left to right in columns of the longest item's
/// width, breaking lines so that `cols` character cells are never
/// exceeded: exactly the padded cells in order, with a spacer inside a
/// row and a line break between rows.
#[verifier::loop_isolation(false)]
pub fn to_string_in_column_with(values: Vec<String>, cols: usize, spacer: usize) -> (r: String)
    requires
        spacer >= 1,
        cols + spacer <= usize::MAX,
        forall|k: int| 0 <= k < values@.len() ==> (#[trigger] values@[k])@.len() <= cols,
    ensures
        r@ == column_layout(
            values@,
            max_len_upto(values@, values@.len() as int),
            (cols + spacer) / (max_len_upto(values@, values@.len() as int) + spacer) as int,
            spacer as int,
            values@.len() as int,
        ),
{
    let ghost vs = values@;
    let (max, column_count) = find_max_length_and_column_count(&values, cols, spacer);
    let count = values.len();
    let padded = padding(values, max);
    let mut space = String::new();
    let mut sp: usize = 0;
    while sp < spacer
        invariant
            sp <= spacer,
            space@ == spaces(sp as int),
        decreases spacer - sp,
    {
        space.append(" ");
        proof {
            reveal_strlit(" ");
            assert(" "@ =~= seq![' ']);
            assert(space@ =~= spaces(sp + 1 as int));
        }
        sp = sp + 1;
    }
    let mut out = String::new();
    let n = padded.len();
    let mut i: usize = 0;
    while i < n
        invariant
            n == padded.len(),
            n == count,
            i <= n,
            column_count >= 1,
            out@ == column_layout(vs, max as int, column_count as int, spacer as int, i as int),
        decreases n - i,
    {
        out.append(padded[i].as_str());
        if i % column_count == column_count - 1 || i == n - 1 {
            if i != n - 1 {
                out.append("\n");
                proof {
                    reveal_strlit("\n");
                    assert("\n"@ =~= seq!['\n']);
                }
            }
        } else {
            out.append(space.as_str());
        }
        proof {
            assert(out@ =~= column_layout(
                vs,
                max as int,
                column_count as int,
                spacer as int,
                i + 1 as int,
            ));
        }
        i = i + 1;
    }
    out
}

} // verus!
