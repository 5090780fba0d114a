//! Names of the SVG files that an extraction writes, one per page.
use vstd::prelude::*;

verus! {

/// Number of decimal digits of `n`, with zero counted as one digit.
pub open spec fn num_digits(n: nat) -> nat
    decreases n,
{
    if n < 10 {
        1
    } else {
        1 + num_digits(n / 10)
    }
}

/// Ten to the power `k`.
pub open spec fn pow10(k: nat) -> nat
    decreases k,
{
    if k == 0 {
        1
    } else {
        10 * pow10((k - 1) as nat)
    }
}

/// The character of the decimal digit `d` (`d < 10`).
pub open spec fn digit_char(d: nat) -> char {
    seq!['0', '1', '2', '3', '4', '5', '6', '7', '8', '9'][d as int]
}

/// The last `w` decimal digits of `v`, most significant first, with leading zeros.
pub open spec fn padded(v: nat, w: nat) -> Seq<char>
    decreases w,
{
    if w == 0 {
        seq![]
    } else {
        padded(v / 10, (w - 1) as nat).push(digit_char(v % 10))
    }
}

/// The label of the zero-based page `index` in a document of `page_count`
/// pages: its one-based number, padded to the width of `page_count`.
pub open spec fn page_label(index: nat, page_count: nat) -> Seq<char> {
    padded(index + 1, num_digits(page_count))
}

/// The file name of page `index`: `{prefix}-{label}.svg`.
pub open spec fn page_file_name(prefix: Seq<char>, index: nat, page_count: nat) -> Seq<char> {
    prefix + seq!['-'] + page_label(index, page_count) + seq!['.', 's', 'v', 'g']
}

/// Strict lexicographic order on character sequences, by code point.
pub open spec fn lex_less(a: Seq<char>, b: Seq<char>) -> bool {
    (exists|k: int|
        0 <= k < a.len() && k < b.len() && #[trigger] a.take(k) == b.take(k) && (a[k] as u32)
            < (b[k] as u32)) || (a.len() < b.len() && a == b.take(a.len() as int))
}

/// The number of digits of `n` is the width that makes `n` fit and no less:
/// for `n >= 1` it is `floor(log10(n)) + 1`.
pub proof fn lemma_num_digits_bounds(n: nat)
    ensures
        num_digits(n) >= 1,
        n < pow10(num_digits(n)),
        n >= 1 ==> pow10((num_digits(n) - 1) as nat) <= n,
    decreases n,
{
    reveal_with_fuel(pow10, 2);
    if n >= 10 {
        lemma_num_digits_bounds(n / 10);
        let d = num_digits(n / 10);
        assert(pow10(d + 1) == 10 * pow10(d));
        assert(n < pow10(d + 1)) by (nonlinear_arith)
            requires
                n / 10 < pow10(d),
                pow10(d + 1) == 10 * pow10(d),
        ;
        assert(pow10(d) == 10 * pow10((d - 1) as nat) ==> pow10(d) <= n) by (nonlinear_arith)
            requires
                pow10((d - 1) as nat) <= n / 10,
        ;
    }
}

/// A number below `10^k` (`k >= 1`) has at most `k` digits.
proof fn lemma_num_digits_below(n: nat, k: nat)
    requires
        k >= 1,
        n < pow10(k),
    ensures
        num_digits(n) <= k,
    decreases n,
{
    if n >= 10 {
        if k == 1 {
            assert(pow10(1) == 10) by {
                reveal_with_fuel(pow10, 2);
            }
        }
        lemma_num_digits_below(n / 10, (k - 1) as nat);
    }
}

/// Decimal width of `n` (zero has width one).
pub fn decimal_width(n: u32) -> (w: usize)
    ensures
        w == num_digits(n as nat),
        n < pow10(w as nat),
        n >= 1 ==> pow10((w - 1) as nat) <= n,
{
    proof {
        lemma_num_digits_bounds(n as nat);
    }
    proof {
        reveal_with_fuel(pow10, 11);
        lemma_num_digits_below(n as nat, 10);
    }
    let mut w: usize = 1;
    let mut rest: u32 = n;
    while rest >= 10
        invariant
            1 <= w,
            w + num_digits(rest as nat) - 1 == num_digits(n as nat),
            num_digits(n as nat) <= 10,
        decreases rest,
    {
        rest = rest / 10;
        w = w + 1;
    }
    w
}

/// The one-character string of the decimal digit `d`.
fn digit_str(d: u32) -> (r: &'static str)
    requires
        d < 10,
    ensures
        r@ == seq![digit_char(d as nat)],
{
    if d == 0 {
        proof { reveal_strlit("0"); }
        "0"
    } else if d == 1 {
        proof { reveal_strlit("1"); }
        "1"
    } else if d == 2 {
        proof { reveal_strlit("2"); }
        "2"
    } else if d == 3 {
        proof { reveal_strlit("3"); }
        "3"
    } else if d == 4 {
        proof { reveal_strlit("4"); }
        "4"
    } else if d == 5 {
        proof { reveal_strlit("5"); }
        "5"
    } else if d == 6 {
        proof { reveal_strlit("6"); }
        "6"
    } else if d == 7 {
        proof { reveal_strlit("7"); }
        "7"
    } else if d == 8 {
        proof { reveal_strlit("8"); }
        "8"
    } else {
        proof { reveal_strlit("9"); }
        "9"
    }
}

/// Appends the last `w` decimal digits of `v` to `out`, zero-padded.
fn push_padded(out: &mut String, v: u32, w: usize)
    ensures
        final(out)@ == old(out)@ + padded(v as nat, w as nat),
    decreases w,
{
    if w > 0 {
        push_padded(out, v / 10, w - 1);
        out.append(digit_str(v % 10));
        assert(padded(v as nat, w as nat) == padded((v / 10) as nat, (w - 1) as nat).push(
            digit_char((v % 10) as nat),
        ));
    }
}

/// The zero-padded label of the zero-based page `index` among `page_count` pages.
pub fn page_label_of(index: u32, page_count: u32) -> (r: String)
    requires
        index < page_count,
    ensures
        r@ == page_label(index as nat, page_count as nat),
{
    let w = decimal_width(page_count);
    let mut r = String::new();
    push_padded(&mut r, index + 1, w);
    assert(r@ =~= page_label(index as nat, page_count as nat));
    r
}

/// The SVG file name of the zero-based page `index` among `page_count` pages:
/// the prefix, a dash, the page's one-based number padded with zeros to the
/// decimal width of `page_count`, and `.svg`.
pub fn page_file_name_of(prefix: &str, index: u32, page_count: u32) -> (r: String)
    requires
        index < page_count,
    ensures
        r@ == page_file_name(prefix@, index as nat, page_count as nat),
{
    let mut r = String::from_str(prefix);
    proof { reveal_strlit("-"); reveal_strlit(".svg"); }
    r.append("-");
    let label = page_label_of(index, page_count);
    r.append(label.as_str());
    r.append(".svg");
    assert(r@ =~= page_file_name(prefix@, index as nat, page_count as nat));
    r
}

/// The file names of all pages of a document of `page_count` pages, in page order.
pub fn page_file_names(prefix: &str, page_count: u32) -> (r: Vec<String>)
    ensures
        r@.len() == page_count,
        forall|i: int|
            0 <= i < page_count ==> #[trigger] r@[i]@ == page_file_name(
                prefix@,
                i as nat,
                page_count as nat,
            ),
{
    let mut r: Vec<String> = Vec::new();
    let mut i: u32 = 0;
    while i < page_count
        invariant
            i <= page_count,
            r@.len() == i,
            forall|j: int|
                0 <= j < i ==> #[trigger] r@[j]@ == page_file_name(
                    prefix@,
                    j as nat,
                    page_count as nat,
                ),
        decreases page_count - i,
    {
        r.push(page_file_name_of(prefix, i, page_count));
        i = i + 1;
    }
    r
}

/// A padded label has exactly the width asked for.
pub proof fn lemma_padded_len(v: nat, w: nat)
    ensures
        padded(v, w).len() == w,
    decreases w,
{
    if w > 0 {
        lemma_padded_len(v / 10, (w - 1) as nat);
    }
}

/// Digit characters are ordered as the digits are.
proof fn lemma_digit_char_order(a: nat, b: nat)
    requires
        a < b < 10,
    ensures
        (digit_char(a) as u32) < (digit_char(b) as u32),
{
}

/// Below `10^w`, a larger number gets a `w`-digit label that differs first at
/// a position `k` where its digit is the larger one.
proof fn lemma_padded_order(v1: nat, v2: nat, w: nat) -> (k: int)
    requires
        v1 < v2 < pow10(w),
    ensures
        0 <= k < w,
        padded(v1, w).take(k) == padded(v2, w).take(k),
        (padded(v1, w)[k] as u32) < (padded(v2, w)[k] as u32),
    decreases w,
{
    reveal_with_fuel(pow10, 2);
    if w == 0 {
        assert(false);
        0
    } else {
        let p1 = padded(v1 / 10, (w - 1) as nat);
        let p2 = padded(v2 / 10, (w - 1) as nat);
        lemma_padded_len(v1 / 10, (w - 1) as nat);
        lemma_padded_len(v2 / 10, (w - 1) as nat);
        if v1 / 10 == v2 / 10 {
            lemma_digit_char_order(v1 % 10, v2 % 10);
            assert(padded(v1, w).take(w - 1) =~= p1);
            assert(padded(v2, w).take(w - 1) =~= p2);
            w - 1
        } else {
            assert(v2 / 10 < pow10((w - 1) as nat)) by (nonlinear_arith)
                requires
                    v2 < pow10(w),
                    pow10(w) == 10 * pow10((w - 1) as nat),
            ;
            let k = lemma_padded_order(v1 / 10, v2 / 10, (w - 1) as nat);
            assert(padded(v1, w).take(k) =~= p1.take(k));
            assert(padded(v2, w).take(k) =~= p2.take(k));
            k
        }
    }
}

/// Page labels of one document all have the decimal width of its page count,
/// which is `floor(log10(page_count)) + 1`.
pub proof fn lemma_page_label_width(index: nat, page_count: nat)
    requires
        page_count >= 1,
    ensures
        page_label(index, page_count).len() == num_digits(page_count),
        pow10((num_digits(page_count) - 1) as nat) <= page_count < pow10(num_digits(page_count)),
{
    lemma_padded_len(index + 1, num_digits(page_count));
    lemma_num_digits_bounds(page_count);
}

/// The file names of a document's pages sort in page order: for pages
/// `i < j`, the name of `i` is lexicographically smaller than the name of `j`.
/// In particular no two pages share a name.
pub proof fn lemma_page_file_names_sorted(prefix: Seq<char>, page_count: nat, i: nat, j: nat)
    requires
        i < j < page_count,
    ensures
        lex_less(page_file_name(prefix, i, page_count), page_file_name(prefix, j, page_count)),
        page_file_name(prefix, i, page_count) != page_file_name(prefix, j, page_count),
{
    let w = num_digits(page_count);
    lemma_num_digits_bounds(page_count);
    let k = lemma_padded_order(i + 1, j + 1, w);
    let a = page_file_name(prefix, i, page_count);
    let b = page_file_name(prefix, j, page_count);
    let la = page_label(i, page_count);
    let lb = page_label(j, page_count);
    lemma_padded_len(i + 1, w);
    lemma_padded_len(j + 1, w);
    let head = prefix + seq!['-'];
    let m = head.len() + k;
    assert(a.take(m) =~= head + la.take(k));
    assert(b.take(m) =~= head + lb.take(k));
    assert(a[m] == la[k]);
    assert(b[m] == lb[k]);
    assert(a.take(m) == b.take(m));
    assert(a[m] != b[m]);
}

} // verus!
