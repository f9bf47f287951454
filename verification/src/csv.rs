//! CSV preview: delimiter detection, header-row detection, and the HTML
//! table a CSV file is shown as.  Record parsing is the csv crate's work,
//! behind a trusted wrapper; every decision about the parsed rows is
//! verified.

use vstd::prelude::*;

use crate::text::{chars_string, escape_seq, push_all, str_chars};

verus! {

/// The records the csv crate reads from the text with the given
/// delimiter, unquoted and unescaped; none when any record is malformed.
/// A function of the text and the delimiter alone.
pub uninterp spec fn csv_rows_of(contents: Seq<char>, delimiter: u8) -> Option<
    Seq<Seq<Seq<char>>>,
>;

/// Relies on csv::ReaderBuilder / csv::Reader: parses the whole text as
/// headerless records with the given delimiter; a parse error of any
/// record yields none.
#[verifier::external_body]
fn parse_csv(contents: &str, delimiter: u8) -> (r: Option<Vec<Vec<String>>>)
    ensures
        match r {
            Some(rows) => csv_rows_of(contents@, delimiter) == Some(rows.deep_view()),
            None => csv_rows_of(contents@, delimiter) is None,
        },
{
    csv::ReaderBuilder::new().delimiter(delimiter).has_headers(false).from_reader(
        contents.as_bytes(),
    ).records().map(
        |rec| rec.map(|r| r.iter().map(|cell| cell.to_string()).collect::<Vec<String>>()),
    ).collect::<Result<Vec<Vec<String>>, csv::Error>>().ok()
}

/// What is left of a cell after surrounding whitespace is removed; a
/// function of the cell alone.
pub uninterp spec fn trimmed_of(cell: Seq<char>) -> Seq<char>;

/// Relies on str::trim: the cell without leading and trailing whitespace;
/// the result depends on the cell alone.
#[verifier::external_body]
fn trim_cell(cell: &str) -> (r: String)
    ensures
        r@ == trimmed_of(cell@),
{
    cell.trim().to_string()
}

pub open spec fn is_digit_char(c: char) -> bool {
    48 <= c as u32 && c as u32 <= 57
}

pub open spec fn all_digits(s: Seq<char>) -> bool {
    forall|i: int| 0 <= i < s.len() ==> is_digit_char(#[trigger] s[i])
}

/// The first position of `c1` or `c2` in `s` at or after `i`, or the end.
pub open spec fn first_of_two(s: Seq<char>, i: int, c1: char, c2: char) -> int
    decreases s.len() - i,
{
    if i < 0 || i >= s.len() {
        s.len() as int
    } else if s[i] == c1 || s[i] == c2 {
        i
    } else {
        first_of_two(s, i + 1, c1, c2)
    }
}

/// A well-formed exponent part: an optional sign, then digits.
pub open spec fn exp_ok(x: Seq<char>) -> bool {
    let body = if x.len() > 0 && (x[0] == '+' || x[0] == '-') {
        x.skip(1)
    } else {
        x
    };
    body.len() > 0 && all_digits(body)
}

/// A well-formed mantissa: digits, with at most one point and at least
/// one digit somewhere.
pub open spec fn mantissa_ok(m: Seq<char>) -> bool {
    let dp = first_of_two(m, 0, '.', '.');
    if dp == m.len() {
        m.len() > 0 && all_digits(m)
    } else {
        let before = m.subrange(0, dp);
        let after = m.subrange(dp + 1, m.len() as int);
        all_digits(before) && all_digits(after) && (before.len() > 0 || after.len() > 0)
    }
}

/// The text reads as a floating-point literal: an optional sign, then
/// `inf`, `infinity` or `nan` in any ASCII case, or a mantissa with an
/// optional exponent — the form the standard parser accepts.
pub open spec fn float_text(s: Seq<char>) -> bool {
    let b = if s.len() > 0 && (s[0] == '+' || s[0] == '-') {
        s.skip(1)
    } else {
        s
    };
    ||| crate::text::seq_eq_nocase(b, seq!['i', 'n', 'f'])
    ||| crate::text::seq_eq_nocase(b, seq!['i', 'n', 'f', 'i', 'n', 'i', 't', 'y'])
    ||| crate::text::seq_eq_nocase(b, seq!['n', 'a', 'n'])
    ||| ({
        let ep = first_of_two(b, 0, 'e', 'E');
        if ep == b.len() {
            mantissa_ok(b)
        } else {
            mantissa_ok(b.subrange(0, ep)) && exp_ok(b.subrange(ep + 1, b.len() as int))
        }
    })
}

/// The cell reads as a number: non-blank after trimming, and shaped like
/// a floating-point literal.
pub open spec fn reads_as_number(cell: Seq<char>) -> bool {
    trimmed_of(cell).len() > 0 && float_text(trimmed_of(cell))
}

/// The cell is blank: nothing is left of it after trimming.
pub open spec fn reads_as_blank(cell: Seq<char>) -> bool {
    trimmed_of(cell).len() == 0
}

fn all_digits_exec(v: &Vec<char>, from: usize, to: usize) -> (r: bool)
    requires
        from <= to <= v@.len(),
    ensures
        r == all_digits(v@.subrange(from as int, to as int)),
{
    let mut i: usize = from;
    while i < to
        invariant
            from <= i <= to <= v@.len(),
            forall|j: int| from <= j < i ==> is_digit_char(#[trigger] v@[j]),
        decreases to - i,
    {
        let c = v[i] as u32;
        if !(48 <= c && c <= 57) {
            assert(v@.subrange(from as int, to as int)[i - from] == v@[i as int]);
            return false;
        }
        i += 1;
    }
    assert forall|j: int|
        0 <= j < v@.subrange(from as int, to as int).len() implies is_digit_char(
        #[trigger] v@.subrange(from as int, to as int)[j],
    ) by {
        assert(v@.subrange(from as int, to as int)[j] == v@[from + j]);
    }
    true
}

fn mantissa_ok_exec(v: &Vec<char>, from: usize, to: usize) -> (r: bool)
    requires
        from <= to <= v@.len(),
    ensures
        r == mantissa_ok(v@.subrange(from as int, to as int)),
{
    let ghost m = v@.subrange(from as int, to as int);
    let mut i: usize = from;
    while i < to && v[i] != '.'
        invariant
            from <= i <= to,
            to <= v@.len(),
            m == v@.subrange(from as int, to as int),
            first_of_two(m, 0, '.', '.') == first_of_two(m, i - from, '.', '.'),
            forall|j: int| from <= j < i ==> v@[j] != '.',
        decreases to - i,
    {
        assert(m[i - from] == v@[i as int]);
        i += 1;
    }
    proof {
        if i < to {
            assert(m[i - from] == v@[i as int]);
        }
        assert(first_of_two(m, 0, '.', '.') == i - from);
    }
    if i == to {
        let r = to > from && all_digits_exec(v, from, to);
        assert(m.len() == to - from);
        r
    } else {
        let before_ok = all_digits_exec(v, from, i);
        let after_ok = all_digits_exec(v, i + 1, to);
        proof {
            assert(m.subrange(0, i - from) =~= v@.subrange(from as int, i as int));
            assert(m.subrange(i - from + 1, m.len() as int) =~= v@.subrange(i + 1, to as int));
        }
        before_ok && after_ok && (i > from || to > i + 1)
    }
}

fn float_text_exec(v: &Vec<char>) -> (r: bool)
    ensures
        r == float_text(v@),
{
    let start: usize = if v.len() > 0 && (v[0] == '+' || v[0] == '-') {
        1
    } else {
        0
    };
    let ghost b = if v@.len() > 0 && (v@[0] == '+' || v@[0] == '-') {
        v@.skip(1)
    } else {
        v@
    };
    proof {
        assert(b =~= v@.subrange(start as int, v@.len() as int));
    }
    let v_len: usize = v.len();
    let body = crate::text::sub_chars(v, start, v_len);
    let inf: Vec<char> = vec!['i', 'n', 'f'];
    let infinity: Vec<char> = vec!['i', 'n', 'f', 'i', 'n', 'i', 't', 'y'];
    let nan: Vec<char> = vec!['n', 'a', 'n'];
    assert(inf@ =~= seq!['i', 'n', 'f']);
    assert(infinity@ =~= seq!['i', 'n', 'f', 'i', 'n', 'i', 't', 'y']);
    assert(nan@ =~= seq!['n', 'a', 'n']);
    if crate::text::chars_eq_nocase(&body, &inf) || crate::text::chars_eq_nocase(&body, &infinity)
        || crate::text::chars_eq_nocase(&body, &nan) {
        return true;
    }
    let mut e: usize = start;
    while e < v_len && v[e] != 'e' && v[e] != 'E'
        invariant
            start <= e <= v_len,
            v_len == v@.len(),
            b == v@.subrange(start as int, v_len as int),
            first_of_two(b, 0, 'e', 'E') == first_of_two(b, e - start, 'e', 'E'),
            forall|j: int| start <= j < e ==> v@[j] != 'e' && v@[j] != 'E',
        decreases v_len - e,
    {
        assert(b[e - start] == v@[e as int]);
        e += 1;
    }
    proof {
        if e < v_len {
            assert(b[e - start] == v@[e as int]);
        }
        assert(first_of_two(b, 0, 'e', 'E') == e - start);
    }
    if e == v_len {
        let r = mantissa_ok_exec(v, start, v_len);
        assert(v@.subrange(start as int, v_len as int) == b);
        r
    } else {
        let mant_ok = mantissa_ok_exec(v, start, e);
        proof {
            assert(v@.subrange(start as int, e as int) =~= b.subrange(0, e - start));
        }
        let exp_start: usize = if e + 1 < v_len && (v[e + 1] == '+' || v[e + 1] == '-') {
            e + 2
        } else {
            e + 1
        };
        let ghost x = b.subrange(e - start + 1, b.len() as int);
        proof {
            assert(x =~= v@.subrange(e + 1, v_len as int));
            if x.len() > 0 && (x[0] == '+' || x[0] == '-') {
                assert(x.skip(1) =~= v@.subrange(exp_start as int, v_len as int));
            } else {
                assert(x =~= v@.subrange(exp_start as int, v_len as int));
            }
        }
        let exp_digits = exp_start < v_len && all_digits_exec(v, exp_start, v_len);
        mant_ok && exp_digits
    }
}

/// Whether the trimmed cell is a non-empty, well-formed number.
fn is_numeric(cell: &str) -> (r: bool)
    ensures
        r == reads_as_number(cell@),
{
    let t = trim_cell(cell);
    let v = str_chars(t.as_str());
    v.len() > 0 && float_text_exec(&v)
}

/// Whether the cell trims to nothing.
fn is_blank(cell: &str) -> (r: bool)
    ensures
        r == reads_as_blank(cell@),
{
    let t = trim_cell(cell);
    t.as_str().unicode_len() == 0
}

/// How many cells of the row, from position `i` on, read as numbers.
pub open spec fn numeric_count(cells: Seq<Seq<char>>, i: int) -> int
    decreases cells.len() - i,
{
    if i < 0 || i >= cells.len() {
        0
    } else {
        (if reads_as_number(cells[i]) {
            1int
        } else {
            0int
        }) + numeric_count(cells, i + 1)
    }
}

/// How many cells of the row, from position `i` on, hold non-blank text
/// that does not read as a number.
pub open spec fn text_count(cells: Seq<Seq<char>>, i: int) -> int
    decreases cells.len() - i,
{
    if i < 0 || i >= cells.len() {
        0
    } else {
        (if !reads_as_blank(cells[i]) && !reads_as_number(cells[i]) {
            1int
        } else {
            0int
        }) + text_count(cells, i + 1)
    }
}

fn count_numeric(cells: &Vec<String>) -> (n: usize)
    ensures
        n == numeric_count(cells.deep_view(), 0),
        n <= cells.deep_view().len(),
{
    let mut n: usize = 0;
    let mut i: usize = 0;
    while i < cells.len()
        invariant
            i <= cells@.len(),
            n <= i,
            numeric_count(cells.deep_view(), 0) == n + numeric_count(
                cells.deep_view(),
                i as int,
            ),
        decreases cells.len() - i,
    {
        assert(cells.deep_view()[i as int] =~~= cells@[i as int]@);
        if is_numeric(cells[i].as_str()) {
            n += 1;
        }
        i += 1;
    }
    n
}

fn count_text(cells: &Vec<String>) -> (n: usize)
    ensures
        n == text_count(cells.deep_view(), 0),
        n <= cells.deep_view().len(),
{
    let mut n: usize = 0;
    let mut i: usize = 0;
    while i < cells.len()
        invariant
            i <= cells@.len(),
            n <= i,
            text_count(cells.deep_view(), 0) == n + text_count(cells.deep_view(), i as int),
        decreases cells.len() - i,
    {
        assert(cells.deep_view()[i as int] =~~= cells@[i as int]@);
        if !is_blank(cells[i].as_str()) && !is_numeric(cells[i].as_str()) {
            n += 1;
        }
        i += 1;
    }
    n
}

/// The first row is taken for a header when it is clearly more textual
/// than the second: either mostly text and strictly less numeric, or
/// strictly more textual and no more numeric.
pub open spec fn header_row_spec(first: Seq<Seq<char>>, second: Seq<Seq<char>>) -> bool {
    if first.len() == 0 || second.len() == 0 {
        false
    } else {
        let cols = if first.len() >= second.len() {
            first.len() as int
        } else {
            second.len() as int
        };
        let first_numeric = numeric_count(first, 0);
        let second_numeric = numeric_count(second, 0);
        let first_text = text_count(first, 0);
        let second_text = text_count(second, 0);
        (first_text >= (cols + 1) / 2 && first_numeric < second_numeric) || (first_text
            > second_text && first_numeric <= second_numeric)
    }
}

/// Decide whether the first parsed row is a header, judged against the
/// second.
pub fn is_header_row(first: &Vec<String>, second: &Vec<String>) -> (r: bool)
    ensures
        r == header_row_spec(first.deep_view(), second.deep_view()),
{
    if first.len() == 0 || second.len() == 0 {
        return false;
    }
    let cols: usize = if first.len() >= second.len() {
        first.len()
    } else {
        second.len()
    };
    let first_numeric = count_numeric(first);
    let second_numeric = count_numeric(second);
    let first_text = count_text(first);
    let second_text = count_text(second);
    let half_up: usize = cols / 2 + cols % 2;
    assert(half_up == (cols as int + 1) / 2);
    let strong_header = first_text >= half_up && first_numeric < second_numeric;
    let text_heavier = first_text > second_text && first_numeric <= second_numeric;
    strong_header || text_heavier
}

/// The per-line delimiter counts of the text from position `i` on, given
/// the count of the current line so far: a count closes at each newline,
/// doubled quotes stay inside a quoted cell, and a delimiter inside
/// quotes does not count.  The count of the final line is always closed.
pub open spec fn counts_from(s: Seq<char>, d: char, i: int, cur: int, inq: bool) -> Seq<int>
    decreases s.len() - i,
{
    if i < 0 || i >= s.len() {
        seq![cur]
    } else if s[i] == '"' {
        if inq && i + 1 < s.len() && s[i + 1] == '"' {
            counts_from(s, d, i + 2, cur, inq)
        } else {
            counts_from(s, d, i + 1, cur, !inq)
        }
    } else if !inq && s[i] == d {
        counts_from(s, d, i + 1, cur + 1, inq)
    } else if s[i] == '\n' {
        seq![cur] + counts_from(s, d, i + 1, 0, inq)
    } else {
        counts_from(s, d, i + 1, cur, inq)
    }
}

/// The per-line delimiter counts the score is taken over; a text with no
/// newline and no delimiter has none.
pub open spec fn line_counts(s: Seq<char>, d: char) -> Seq<int> {
    let base = counts_from(s, d, 0, 0, false);
    if base.len() == 1 && base[0] == 0 {
        Seq::empty()
    } else {
        base
    }
}

pub open spec fn sum_of(counts: Seq<int>, i: int) -> int
    decreases counts.len() - i,
{
    if i < 0 || i >= counts.len() {
        0
    } else {
        counts[i] + sum_of(counts, i + 1)
    }
}

proof fn lemma_sum_push(counts: Seq<int>, x: int, i: int)
    requires
        0 <= i <= counts.len(),
    ensures
        sum_of(counts.push(x), i) == sum_of(counts, i) + x,
    decreases counts.len() - i,
{
    if i < counts.len() {
        assert(counts.push(x)[i] == counts[i]);
        lemma_sum_push(counts, x, i + 1);
    } else {
        assert(counts.push(x)[i] == x);
        assert(sum_of(counts.push(x), i + 1) == 0);
        assert(sum_of(counts, i) == 0);
    }
}

proof fn lemma_sum_nonneg(counts: Seq<int>, i: int)
    requires
        forall|q: int| 0 <= q < counts.len() ==> #[trigger] counts[q] >= 0,
    ensures
        sum_of(counts, i) >= 0,
    decreases counts.len() - i,
{
    if 0 <= i < counts.len() {
        lemma_sum_nonneg(counts, i + 1);
    }
}

pub open spec fn max_of(counts: Seq<int>, i: int, acc: int) -> int
    decreases counts.len() - i,
{
    if i < 0 || i >= counts.len() {
        acc
    } else {
        max_of(counts, i + 1, if counts[i] > acc {
            counts[i]
        } else {
            acc
        })
    }
}

pub open spec fn min_of(counts: Seq<int>, i: int, acc: int) -> int
    decreases counts.len() - i,
{
    if i < 0 || i >= counts.len() {
        acc
    } else {
        min_of(counts, i + 1, if counts[i] < acc {
            counts[i]
        } else {
            acc
        })
    }
}

pub open spec fn zeros_of(counts: Seq<int>, i: int) -> int
    decreases counts.len() - i,
{
    if i < 0 || i >= counts.len() {
        0
    } else {
        (if counts[i] == 0 {
            1int
        } else {
            0int
        }) + zeros_of(counts, i + 1)
    }
}

/// A candidate delimiter's score: the mean count per line, scaled by 100
/// and rounded down, less penalties for uneven counts and for lines with
/// none at all.  All-zero or empty counts score zero.
pub open spec fn score_spec(s: Seq<char>, d: char) -> int {
    let counts = line_counts(s, d);
    if counts.len() == 0 {
        0
    } else if sum_of(counts, 0) == 0 {
        0
    } else {
        let sum = sum_of(counts, 0);
        let mx = max_of(counts, 0, counts[0]);
        let mn = min_of(counts, 0, counts[0]);
        let zeros = zeros_of(counts, 0);
        sum * 100 / (counts.len() as int) - (mx - mn) * 10 - zeros * 25
    }
}

/// Score one candidate delimiter over the text.  The mean is computed in
/// integer arithmetic, scaled by 100.
pub fn delimiter_score(contents: &Vec<char>, d: char) -> (score: i128)
    ensures
        score == score_spec(contents@, d),
{
    let s_len: usize = contents.len();
    let mut counts: Vec<usize> = Vec::new();
    let mut cur: usize = 0;
    let mut inq: bool = false;
    let mut i: usize = 0;
    let ghost s = contents@;
    while i < s_len
        invariant
            i <= s_len,
            contents@ == s,
            s.len() == s_len,
            cur <= i,
            counts@.len() <= i,
            forall|q: int| 0 <= q < counts@.len() ==> 0 <= #[trigger] counts@[q] <= s_len,
            sum_of(counts@.map(|q: int, c: usize| c as int), 0) + cur <= i,
            counts_from(s, d, 0, 0, false) == counts@.map(|q: int, c: usize| c as int)
                + counts_from(s, d, i as int, cur as int, inq),
        decreases s_len - i,
    {
        let ghost pre = counts@.map(|q: int, c: usize| c as int);
        let c = contents[i];
        if c == '"' {
            if inq && i + 1 < s_len && contents[i + 1] == '"' {
                i += 2;
            } else {
                inq = !inq;
                i += 1;
            }
        } else if !inq && c == d {
            cur += 1;
            i += 1;
        } else if c == '\n' {
            counts.push(cur);
            proof {
                assert(counts@.map(|q: int, c2: usize| c2 as int) =~= pre.push(cur as int));
                assert(counts@.map(|q: int, c2: usize| c2 as int) =~= pre + seq![cur as int]);
                assert(pre + (seq![cur as int] + counts_from(s, d, i + 1, 0, inq)) =~= (pre
                    + seq![cur as int]) + counts_from(s, d, i + 1, 0, inq));
                lemma_sum_push(pre, cur as int, 0);
            }
            cur = 0;
            i += 1;
        } else {
            i += 1;
        }
    }
    let ghost pre_final = counts@.map(|q: int, c2: usize| c2 as int);
    counts.push(cur);
    proof {
        assert(counts@.map(|q: int, c2: usize| c2 as int) =~= pre_final.push(cur as int));
        assert(pre_final + seq![cur as int] =~= pre_final.push(cur as int));
        assert(counts@.map(|q: int, c2: usize| c2 as int) =~= counts_from(s, d, 0, 0, false));
        lemma_sum_push(pre_final, cur as int, 0);
    }
    let ghost base = counts_from(s, d, 0, 0, false);
    // Fold the counts into sum, max, min and zero-line tally.
    let first: usize = counts[0];
    let mut sum: u128 = 0;
    let mut mx: usize = first;
    let mut mn: usize = first;
    let mut zeros: usize = 0;
    let mut k: usize = 0;
    let ghost cints = counts@.map(|q: int, c2: usize| c2 as int);
    proof {
        assert(sum_of(cints, 0) <= s_len);
    }
    while k < counts.len()
        invariant
            k <= counts@.len(),
            counts@.len() >= 1,
            cints == counts@.map(|q: int, c2: usize| c2 as int),
            cints.len() == counts@.len(),
            forall|q: int| 0 <= q < counts@.len() ==> 0 <= #[trigger] cints[q] <= usize::MAX,
            sum_of(cints, 0) <= s_len,
            sum == sum_of(cints, 0) - sum_of(cints, k as int),
            sum <= s_len,
            zeros <= k,
            first == counts@[0],
            sum_of(cints, 0) == sum + sum_of(cints, k as int),
            max_of(cints, 0, cints[0]) == max_of(cints, k as int, mx as int),
            min_of(cints, 0, cints[0]) == min_of(cints, k as int, mn as int),
            zeros_of(cints, 0) == zeros + zeros_of(cints, k as int),
        decreases counts.len() - k,
    {
        let c = counts[k];
        proof {
            assert(cints[k as int] == c as int);
            lemma_sum_nonneg(cints, k + 1);
        }
        sum = sum + (c as u128);
        if c > mx {
            mx = c;
        }
        if c < mn {
            mn = c;
        }
        if c == 0 {
            zeros += 1;
        }
        k += 1;
    }
    let is_all_zero = sum == 0;
    let no_lines = counts.len() == 1 && first == 0;
    proof {
        if no_lines {
            assert(line_counts(s, d) =~= Seq::<int>::empty());
        } else {
            assert(line_counts(s, d) == cints);
        }
        if !no_lines && sum == 0 {
            assert(sum_of(cints, 0) == 0);
        }
    }
    if no_lines {
        return 0;
    }
    if is_all_zero {
        return 0;
    }
    let n = counts.len() as u128;
    let mean_scaled = (sum * 100) / n;
    proof {
        assert(mean_scaled == sum_of(cints, 0) * 100 / (cints.len() as int));
        assert(mean_scaled as int <= sum as int * 100) by (nonlinear_arith)
            requires
                n >= 1,
                mean_scaled as int == (sum as int * 100) / (n as int),
        ;
    }
    let score: i128 = (mean_scaled as i128) - (mx as i128 - mn as i128) * 10 - (zeros as i128)
        * 25;
    proof {
        assert(score == score_spec(s, d));
    }
    score
}

/// The candidate delimiters, in the order ties are broken.
pub open spec fn candidate_delims() -> Seq<char> {
    seq![',', ';', '\t', '|']
}

/// The delimiter the preview uses: the best-scoring candidate, earlier
/// candidates winning ties.
pub open spec fn detect_spec(s: Seq<char>) -> char {
    let c0 = score_spec(s, ',');
    let c1 = score_spec(s, ';');
    let c2 = score_spec(s, '\t');
    let c3 = score_spec(s, '|');
    if c1 > c0 {
        if c2 > c1 {
            if c3 > c2 {
                '|'
            } else {
                '\t'
            }
        } else if c3 > c1 {
            '|'
        } else {
            ';'
        }
    } else if c2 > c0 {
        if c3 > c2 {
            '|'
        } else {
            '\t'
        }
    } else if c3 > c0 {
        '|'
    } else {
        ','
    }
}

/// The byte the csv reader is given for a candidate delimiter.
pub open spec fn delim_byte(c: char) -> u8 {
    if c == ',' {
        44u8
    } else if c == ';' {
        59u8
    } else if c == '\t' {
        9u8
    } else {
        124u8
    }
}

/// Pick the delimiter whose score over the sample is highest; the comma
/// wins ties, then the semicolon, tab and pipe in that order.
pub fn detect_delimiter(sample: &str) -> (d: u8)
    ensures
        d == delim_byte(detect_spec(sample@)),
{
    let v = str_chars(sample);
    let c0 = delimiter_score(&v, ',');
    let c1 = delimiter_score(&v, ';');
    let c2 = delimiter_score(&v, '\t');
    let c3 = delimiter_score(&v, '|');
    let mut best: u8 = 44;
    let mut best_score = c0;
    if c1 > best_score {
        best = 59;
        best_score = c1;
    }
    if c2 > best_score {
        best = 9;
        best_score = c2;
    }
    if c3 > best_score {
        best = 124;
        best_score = c3;
    }
    best
}


/// The decimal digit character of `d`.
pub open spec fn dec_digit(d: int) -> char {
    ((48 + d) as u8) as char
}

/// The decimal numeral of `n`, most significant digit first.
pub open spec fn dec_of(n: int) -> Seq<char>
    decreases n,
{
    if n < 10 {
        seq![dec_digit(if n >= 0 {
            n
        } else {
            0
        })]
    } else {
        dec_of(n / 10).push(dec_digit(n % 10))
    }
}

/// Write `n` in decimal.
pub fn usize_to_dec(n: usize) -> (r: Vec<char>)
    ensures
        r@ == dec_of(n as int),
{
    let mut rev: Vec<char> = Vec::new();
    let ghost tail = Seq::<char>::empty();
    let mut m: usize = n;
    proof {
        assert(dec_of(n as int) =~= dec_of(n as int) + tail);
    }
    while m >= 10
        invariant
            dec_of(n as int) == dec_of(m as int) + tail,
            tail.len() == rev@.len(),
            forall|j: int| 0 <= j < tail.len() ==> #[trigger] tail[j] == rev@[tail.len() - 1 - j],
        decreases m,
    {
        let d: u8 = (m % 10) as u8;
        let c: char = (48 + d) as char;
        assert(c == dec_digit(m as int % 10));
        let ghost tail0 = tail;
        proof {
            tail = seq![c].add(tail);
        }
        rev.push(c);
        proof {
            assert forall|j: int| 0 <= j < tail.len() implies #[trigger] tail[j] == rev@[tail.len()
                - 1 - j] by {
                if j > 0 {
                    assert(tail[j] == tail0[j - 1]);
                }
            }
            assert(dec_of(m as int) == dec_of(m as int / 10).push(dec_digit(m as int % 10)));
            assert(dec_of(m as int / 10).push(dec_digit(m as int % 10)) + tail0 =~= dec_of(
                m as int / 10,
            ) + tail);
        }
        m = m / 10;
    }
    let d: u8 = (m % 10) as u8;
    let c: char = (48 + d) as char;
    proof {
        assert(m as int % 10 == m as int);
        assert(c == dec_digit(m as int));
        assert(dec_of(m as int) =~= seq![dec_digit(m as int)]);
    }
    let mut out: Vec<char> = Vec::new();
    out.push(c);
    let rev_len: usize = rev.len();
    let mut k: usize = 0;
    proof {
        assert(out@ =~= seq![c] + tail.subrange(0, 0));
    }
    while k < rev_len
        invariant
            k <= rev_len,
            rev_len == rev@.len(),
            tail.len() == rev@.len(),
            forall|j: int| 0 <= j < tail.len() ==> #[trigger] tail[j] == rev@[tail.len() - 1 - j],
            out@ == seq![c] + tail.subrange(0, k as int),
        decreases rev_len - k,
    {
        out.push(rev[rev_len - 1 - k]);
        k += 1;
        assert(out@ =~= seq![c] + tail.subrange(0, k as int));
    }
    proof {
        assert(tail.subrange(0, tail.len() as int) =~= tail);
        assert(out@ =~= dec_of(n as int));
    }
    out
}

/// The placeholder heading of one unnamed column.
pub open spec fn col_label(idx: int) -> Seq<char> {
    "Column "@ + dec_of(idx)
}

/// One header cell.
pub open spec fn th_cell(label: Seq<char>) -> Seq<char> {
    "<th scope=\"col\">"@ + escape_seq(label) + "</th>"@
}

/// One data cell.
pub open spec fn td_cell(value: Seq<char>) -> Seq<char> {
    "<td>"@ + escape_seq(value) + "</td>"@
}

/// The header cells, one per column, blank where the header row is short.
pub open spec fn th_cells(header: Seq<Seq<char>>, idx: int, max_cols: int) -> Seq<char>
    decreases max_cols - idx,
{
    if idx < 0 || idx >= max_cols {
        Seq::empty()
    } else {
        th_cell(
            if idx < header.len() {
                header[idx]
            } else {
                Seq::empty()
            },
        ) + th_cells(header, idx + 1, max_cols)
    }
}

/// The data cells of one row, blank where the row is short.
pub open spec fn td_cells(row: Seq<Seq<char>>, idx: int, max_cols: int) -> Seq<char>
    decreases max_cols - idx,
{
    if idx < 0 || idx >= max_cols {
        Seq::empty()
    } else {
        td_cell(
            if idx < row.len() {
                row[idx]
            } else {
                Seq::empty()
            },
        ) + td_cells(row, idx + 1, max_cols)
    }
}

/// The body rows, each wrapped in a table row.
pub open spec fn body_rows(data: Seq<Seq<Seq<char>>>, i: int, max_cols: int) -> Seq<char>
    decreases data.len() - i,
{
    if i < 0 || i >= data.len() {
        Seq::empty()
    } else {
        "<tr>"@ + td_cells(data[i], 0, max_cols) + "</tr>"@ + body_rows(data, i + 1, max_cols)
    }
}

/// The widest row of the table from position `i` on, at least `acc`.
pub open spec fn max_cols_of(data: Seq<Seq<Seq<char>>>, i: int, acc: int) -> int
    decreases data.len() - i,
{
    if i < 0 || i >= data.len() {
        acc
    } else {
        max_cols_of(data, i + 1, if data[i].len() > acc {
            data[i].len() as int
        } else {
            acc
        })
    }
}

/// The sort script appended after every rendered table.
pub open spec fn sort_script() -> Seq<char> {
    "<script>
(function () {
  if (window.__rendarCsvSort) {
    return;
  }
  window.__rendarCsvSort = true;

  function getCellValue(row, index) {
    var cell = row.children[index];
    return cell ? cell.textContent.trim() : \"\";
  }

  function isNumeric(value) {
    if (value === \"\") {
      return false;
    }
    var number = Number(value);
    return !Number.isNaN(number);
  }

  function setupTable(table) {
    var tbody = table.tBodies[0];
    if (!tbody) {
      return;
    }
    var headers = table.tHead ? table.tHead.rows[0].cells : table.rows[0].cells;
    Array.prototype.forEach.call(headers, function (th, index) {
      th.setAttribute(\"role\", \"button\");
      th.tabIndex = 0;
      function sort() {
        var rows = Array.prototype.slice.call(tbody.rows);
        var values = rows.map(function (row) {
          return getCellValue(row, index);
        });
        var numeric = values.filter(function (value) { return value !== \"\"; }).every(isNumeric);
        var current = th.getAttribute(\"data-sort\");
        var next = current === \"asc\" ? \"desc\" : \"asc\";
        Array.prototype.forEach.call(headers, function (header) {
          header.removeAttribute(\"data-sort\");
          header.removeAttribute(\"aria-sort\");
        });
        th.setAttribute(\"data-sort\", next);
        th.setAttribute(\"aria-sort\", next === \"asc\" ? \"ascending\" : \"descending\");
        rows.sort(function (a, b) {
          var aValue = getCellValue(a, index);
          var bValue = getCellValue(b, index);
          if (numeric && isNumeric(aValue) && isNumeric(bValue)) {
            var diff = Number(aValue) - Number(bValue);
            return next === \"asc\" ? diff : -diff;
          }
          var order = aValue.localeCompare(bValue);
          return next === \"asc\" ? order : -order;
        });
        rows.forEach(function (row) {
          tbody.appendChild(row);
        });
      }
      th.addEventListener(\"click\", sort);
      th.addEventListener(\"keydown\", function (event) {
        if (event.key === \"Enter\" || event.key === \" \") {
          event.preventDefault();
          sort();
        }
      });
    });
  }

  function init() {
    var tables = document.querySelectorAll(\"table.csv-table\");
    Array.prototype.forEach.call(tables, setupTable);
  }

  if (document.readyState === \"loading\") {
    document.addEventListener(\"DOMContentLoaded\", init);
  } else {
    init();
  }
})();
</script>
"@
}

/// What an empty CSV file is shown as.
pub open spec fn empty_csv_html() -> Seq<char> {
    "<div class=\"csv-preview\"><div class=\"csv-empty\">Empty CSV.</div></div>"@
}

/// The notice shown above a truncated table.
pub open spec fn truncation_notice(shown: int) -> Seq<char> {
    "<div class=\"csv-notice\">Showing first "@ + dec_of(shown) + " rows.</div>"@
}

/// The full preview of a non-empty table: an optional truncation notice,
/// the table with its detected or generated header, and the sort script.
pub open spec fn csv_html_spec(rows: Seq<Seq<Seq<char>>>, max_rows: Option<int>) -> Seq<char> {
    let header_present = rows.len() >= 2 && header_row_spec(rows[0], rows[1]);
    let data0 = if header_present {
        rows.skip(1)
    } else {
        rows
    };
    let truncated = match max_rows {
        Some(l) => data0.len() > l,
        None => false,
    };
    let data = match max_rows {
        Some(l) => if data0.len() > l {
            data0.take(l)
        } else {
            data0
        },
        None => data0,
    };
    let header_cols: int = if header_present {
        rows[0].len() as int
    } else {
        0
    };
    let raw_cols = max_cols_of(data, 0, header_cols);
    let max_cols: int = if raw_cols == 0 {
        1
    } else {
        raw_cols
    };
    let header: Seq<Seq<char>> = if header_present {
        rows[0]
    } else {
        Seq::new(max_cols as nat, |q: int| col_label(q + 1))
    };
    "<div class=\"csv-preview\">"@ + (if truncated {
        truncation_notice(data.len() as int)
    } else {
        Seq::<char>::empty()
    }) + "<div class=\"csv-table-wrap\">"@ + "<table class=\"csv-table\">"@ + "<thead><tr>"@
        + th_cells(header, 0, max_cols) + "</tr></thead><tbody>"@ + body_rows(data, 0, max_cols)
        + "</tbody></table></div>"@ + "</div>"@ + sort_script()
}


fn sort_script_text() -> (r: &'static str)
    ensures
        r@ == sort_script(),
{
    "<script>
(function () {
  if (window.__rendarCsvSort) {
    return;
  }
  window.__rendarCsvSort = true;

  function getCellValue(row, index) {
    var cell = row.children[index];
    return cell ? cell.textContent.trim() : \"\";
  }

  function isNumeric(value) {
    if (value === \"\") {
      return false;
    }
    var number = Number(value);
    return !Number.isNaN(number);
  }

  function setupTable(table) {
    var tbody = table.tBodies[0];
    if (!tbody) {
      return;
    }
    var headers = table.tHead ? table.tHead.rows[0].cells : table.rows[0].cells;
    Array.prototype.forEach.call(headers, function (th, index) {
      th.setAttribute(\"role\", \"button\");
      th.tabIndex = 0;
      function sort() {
        var rows = Array.prototype.slice.call(tbody.rows);
        var values = rows.map(function (row) {
          return getCellValue(row, index);
        });
        var numeric = values.filter(function (value) { return value !== \"\"; }).every(isNumeric);
        var current = th.getAttribute(\"data-sort\");
        var next = current === \"asc\" ? \"desc\" : \"asc\";
        Array.prototype.forEach.call(headers, function (header) {
          header.removeAttribute(\"data-sort\");
          header.removeAttribute(\"aria-sort\");
        });
        th.setAttribute(\"data-sort\", next);
        th.setAttribute(\"aria-sort\", next === \"asc\" ? \"ascending\" : \"descending\");
        rows.sort(function (a, b) {
          var aValue = getCellValue(a, index);
          var bValue = getCellValue(b, index);
          if (numeric && isNumeric(aValue) && isNumeric(bValue)) {
            var diff = Number(aValue) - Number(bValue);
            return next === \"asc\" ? diff : -diff;
          }
          var order = aValue.localeCompare(bValue);
          return next === \"asc\" ? order : -order;
        });
        rows.forEach(function (row) {
          tbody.appendChild(row);
        });
      }
      th.addEventListener(\"click\", sort);
      th.addEventListener(\"keydown\", function (event) {
        if (event.key === \"Enter\" || event.key === \" \") {
          event.preventDefault();
          sort();
        }
      });
    });
  }

  function init() {
    var tables = document.querySelectorAll(\"table.csv-table\");
    Array.prototype.forEach.call(tables, setupTable);
  }

  if (document.readyState === \"loading\") {
    document.addEventListener(\"DOMContentLoaded\", init);
  } else {
    init();
  }
})();
</script>
"
}

/// Append the header cells for the given width.
fn push_th_cells(out: &mut Vec<char>, header: &Vec<String>, max_cols: usize)
    ensures
        final(out)@ == old(out)@ + th_cells(header.deep_view(), 0, max_cols as int),
{
    let mut idx: usize = 0;
    proof {
        assert(out@ =~= old(out)@ + Seq::<char>::empty());
    }
    while idx < max_cols
        invariant
            idx <= max_cols,
            old(out)@ + th_cells(header.deep_view(), 0, max_cols as int) == out@ + th_cells(
                header.deep_view(),
                idx as int,
                max_cols as int,
            ),
        decreases max_cols - idx,
    {
        let label: String = if idx < header.len() {
            header[idx].clone()
        } else {
            String::new()
        };
        proof {
            if idx < header@.len() {
                assert(label@ =~~= header.deep_view()[idx as int]);
            }
        }
        let open_tag = str_chars("<th scope=\"col\">");
        push_all(out, &open_tag);
        let esc = crate::text::escape_chars(&str_chars(label.as_str()));
        push_all(out, &esc);
        let close_tag = str_chars("</th>");
        push_all(out, &close_tag);
        idx += 1;
        assert(old(out)@ + th_cells(header.deep_view(), 0, max_cols as int) =~= out@ + th_cells(
            header.deep_view(),
            idx as int,
            max_cols as int,
        ));
    }
    assert(out@ =~= out@ + th_cells(header.deep_view(), max_cols as int, max_cols as int));
    assert(final(out)@ =~= old(out)@ + th_cells(header.deep_view(), 0, max_cols as int));
}

/// Append the data cells of one row for the given width.
fn push_td_cells(out: &mut Vec<char>, row: &Vec<String>, max_cols: usize)
    ensures
        final(out)@ == old(out)@ + td_cells(row.deep_view(), 0, max_cols as int),
{
    let mut idx: usize = 0;
    while idx < max_cols
        invariant
            idx <= max_cols,
            old(out)@ + td_cells(row.deep_view(), 0, max_cols as int) == out@ + td_cells(
                row.deep_view(),
                idx as int,
                max_cols as int,
            ),
        decreases max_cols - idx,
    {
        let value: String = if idx < row.len() {
            row[idx].clone()
        } else {
            String::new()
        };
        proof {
            if idx < row@.len() {
                assert(value@ =~~= row.deep_view()[idx as int]);
            }
        }
        let open_tag = str_chars("<td>");
        push_all(out, &open_tag);
        let esc = crate::text::escape_chars(&str_chars(value.as_str()));
        push_all(out, &esc);
        let close_tag = str_chars("</td>");
        push_all(out, &close_tag);
        idx += 1;
        assert(old(out)@ + td_cells(row.deep_view(), 0, max_cols as int) =~= out@ + td_cells(
            row.deep_view(),
            idx as int,
            max_cols as int,
        ));
    }
    assert(final(out)@ =~= old(out)@ + td_cells(row.deep_view(), 0, max_cols as int));
}

/// Render CSV text as the preview's HTML table.  The delimiter is
/// detected from the text; a malformed record fails the render; at most
/// `max_rows` data rows are shown, under a notice when rows were cut.
#[verifier::rlimit(100)]
pub fn render_csv(contents: &str, max_rows: Option<usize>) -> (r: Result<String, String>)
    ensures
        match r {
            Ok(html) => csv_rows_of(contents@, delim_byte(detect_spec(contents@))) is Some && (
            {
                let rows = csv_rows_of(contents@, delim_byte(detect_spec(contents@))).unwrap();
                if rows.len() == 0 {
                    html@ == empty_csv_html()
                } else {
                    html@ == csv_html_spec(
                        rows,
                        match max_rows {
                            Some(l) => Some(l as int),
                            None => None::<int>,
                        },
                    )
                }
            }),
            Err(_) => csv_rows_of(contents@, delim_byte(detect_spec(contents@))) is None,
        },
{
    let delimiter = detect_delimiter(contents);
    let rows = match parse_csv(contents, delimiter) {
        Some(rows) => rows,
        None => {
            return Err("Failed to parse CSV record".to_owned());
        },
    };
    let ghost rv = rows.deep_view();
    if rows.len() == 0 {
        return Ok(
            "<div class=\"csv-preview\"><div class=\"csv-empty\">Empty CSV.</div></div>".to_owned(),
        );
    }
    let header_present = rows.len() >= 2 && {
        let first = &rows[0];
        let second = &rows[1];
        proof {
            assert(rows.deep_view()[0] =~~= rows@[0].deep_view());
            assert(rows.deep_view()[1] =~~= rows@[1].deep_view());
        }
        is_header_row(first, second)
    };
    proof {
        if rows@.len() >= 2 {
            assert(rows@[0].deep_view() =~~= rv[0]);
            assert(rows@[1].deep_view() =~~= rv[1]);
        }
    }
    let data_start: usize = if header_present {
        1
    } else {
        0
    };
    let ghost data0 = if header_present {
        rv.skip(1)
    } else {
        rv
    };
    let data_total: usize = rows.len() - data_start;
    let (shown, truncated): (usize, bool) = match max_rows {
        Some(l) => if data_total > l {
            (l, true)
        } else {
            (data_total, false)
        },
        None => (data_total, false),
    };
    let ghost data = if truncated {
        data0.take(shown as int)
    } else {
        data0
    };
    proof {
        assert(data.len() == shown);
        assert forall|q: int| 0 <= q < data.len() implies #[trigger] data[q] =~~= rows@[q
            + data_start].deep_view() by {
        }
    }
    let header_cols: usize = if header_present {
        rows[0].len()
    } else {
        0
    };
    let rows_len: usize = rows.len();
    let mut raw_cols: usize = header_cols;
    let mut t: usize = 0;
    proof {
        if header_present {
            assert(rv[0].len() == rows@[0].deep_view().len());
        }
    }
    while t < shown
        invariant
            t <= shown,
            shown <= data.len(),
            data.len() == shown,
            rows@.len() == rows_len,
            data_start + shown <= rows@.len(),
            forall|q: int| 0 <= q < data.len() ==> #[trigger] data[q] == rows@[q
                + data_start].deep_view(),
            max_cols_of(data, 0, header_cols as int) == max_cols_of(
                data,
                t as int,
                raw_cols as int,
            ),
            raw_cols <= usize::MAX,
        decreases shown - t,
    {
        let row_len = rows[data_start + t].len();
        proof {
            assert(data[t as int] == rows@[t + data_start].deep_view());
            assert(data[t as int].len() == rows@[t + data_start]@.len());
        }
        if row_len > raw_cols {
            raw_cols = row_len;
        }
        t += 1;
    }
    let max_cols: usize = if raw_cols == 0 {
        1
    } else {
        raw_cols
    };
    // The header row shown: the detected one, or generated column labels.
    let header: Vec<String> = if header_present {
        let mut h: Vec<String> = Vec::new();
        let first = &rows[0];
        let mut q: usize = 0;
        while q < first.len()
            invariant
                q <= first@.len(),
                h.deep_view() =~~= first.deep_view().subrange(0, q as int),
            decreases first.len() - q,
        {
            let ghost prev = h.deep_view();
            h.push(first[q].clone());
            assert(h.deep_view() =~~= prev.push(first.deep_view()[q as int]));
            q += 1;
            assert(h.deep_view() =~= first.deep_view().subrange(0, q as int));
        }
        proof {
            assert(h.deep_view() =~= first.deep_view());
            assert(first.deep_view() =~~= rv[0]);
        }
        h
    } else {
        let mut h: Vec<String> = Vec::new();
        let mut q: usize = 0;
        let ghost labels = Seq::new(max_cols as nat, |z: int| col_label(z + 1));
        while q < max_cols
            invariant
                q <= max_cols,
                labels == Seq::new(max_cols as nat, |z: int| col_label(z + 1)),
                h.deep_view() =~~= labels.subrange(0, q as int),
            decreases max_cols - q,
        {
            let mut lab = str_chars("Column ");
            let num = usize_to_dec(q + 1);
            push_all(&mut lab, &num);
            assert(lab@ =~= col_label(q + 1));
            let ghost prev = h.deep_view();
            h.push(chars_string(&lab));
            assert(h.deep_view() =~~= prev.push(col_label(q + 1)));
            q += 1;
            assert(h.deep_view() =~= labels.subrange(0, q as int));
        }
        assert(h.deep_view() =~= labels);
        h
    };
    let mut out: Vec<char> = Vec::new();
    let open_div = str_chars("<div class=\"csv-preview\">");
    push_all(&mut out, &open_div);
    if truncated {
        let n1 = str_chars("<div class=\"csv-notice\">Showing first ");
        push_all(&mut out, &n1);
        let num = usize_to_dec(shown);
        push_all(&mut out, &num);
        let n2 = str_chars(" rows.</div>");
        push_all(&mut out, &n2);
    }
    let wrap = str_chars("<div class=\"csv-table-wrap\">");
    push_all(&mut out, &wrap);
    let table = str_chars("<table class=\"csv-table\">");
    push_all(&mut out, &table);
    let thead = str_chars("<thead><tr>");
    push_all(&mut out, &thead);
    push_th_cells(&mut out, &header, max_cols);
    let tbody = str_chars("</tr></thead><tbody>");
    push_all(&mut out, &tbody);
    let ghost before_rows = out@;
    let mut rix: usize = 0;
    while rix < shown
        invariant
            rix <= shown,
            shown == data.len(),
            rows@.len() == rows_len,
            data_start + shown <= rows@.len(),
            forall|q: int| 0 <= q < data.len() ==> #[trigger] data[q] == rows@[q
                + data_start].deep_view(),
            out@ + body_rows(data, rix as int, max_cols as int) == before_rows + body_rows(
                data,
                0,
                max_cols as int,
            ),
        decreases shown - rix,
    {
        let tr_open = str_chars("<tr>");
        push_all(&mut out, &tr_open);
        let row = &rows[data_start + rix];
        proof {
            assert(row.deep_view() =~~= data[rix as int]);
        }
        push_td_cells(&mut out, row, max_cols);
        let tr_close = str_chars("</tr>");
        push_all(&mut out, &tr_close);
        rix += 1;
        assert(out@ + body_rows(data, rix as int, max_cols as int) =~= before_rows + body_rows(
            data,
            0,
            max_cols as int,
        ));
    }
    let closing = str_chars("</tbody></table></div>");
    push_all(&mut out, &closing);
    let close_div = str_chars("</div>");
    push_all(&mut out, &close_div);
    let script = str_chars(sort_script_text());
    push_all(&mut out, &script);
    proof {
        assert(out@ =~= csv_html_spec(
            rv,
            match max_rows {
                Some(l) => Some(l as int),
                None => None::<int>,
            },
        ));
    }
    Ok(chars_string(&out))
}

} // verus!
