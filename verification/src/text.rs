//! Character-level parsing and formatting helpers shared by the
//! configuration and generator logic.

use vstd::prelude::*;

verus! {

/// Numeric value of a decimal digit character; 10 for any other character.
pub open spec fn digit_val(c: char) -> int {
    if c == '0' {
        0
    } else if c == '1' {
        1
    } else if c == '2' {
        2
    } else if c == '3' {
        3
    } else if c == '4' {
        4
    } else if c == '5' {
        5
    } else if c == '6' {
        6
    } else if c == '7' {
        7
    } else if c == '8' {
        8
    } else if c == '9' {
        9
    } else {
        10
    }
}

pub open spec fn is_digit_char(c: char) -> bool {
    digit_val(c) < 10
}

pub open spec fn is_digit_seq(s: Seq<char>) -> bool {
    forall|i: int| 0 <= i < s.len() ==> is_digit_char(#[trigger] s[i])
}

/// The number denoted by a sequence of decimal digits, most significant
/// digit first.
pub open spec fn seq_digits_val(s: Seq<char>) -> int
    decreases s.len(),
{
    if s.len() == 0 {
        0
    } else {
        seq_digits_val(s.drop_last()) * 10 + digit_val(s.last())
    }
}

/// A string parses as a `u64` when it is one or more decimal digits
/// denoting a value that fits in 64 bits.
pub open spec fn spec_parse_u64(s: Seq<char>) -> Option<u64> {
    if s.len() > 0 && is_digit_seq(s) && seq_digits_val(s) <= u64::MAX {
        Some(seq_digits_val(s) as u64)
    } else {
        None
    }
}

/// The digit value of a prefix of a digit sequence never exceeds the
/// value of the whole sequence.
pub proof fn lemma_digits_prefix_le(s: Seq<char>, i: int)
    requires
        is_digit_seq(s),
        0 <= i <= s.len(),
    ensures
        seq_digits_val(s.take(i)) <= seq_digits_val(s),
        seq_digits_val(s) >= 0,
    decreases s.len() - i,
{
    lemma_digits_nonneg(s.take(i));
    if i < s.len() {
        lemma_digits_prefix_le(s, i + 1);
        assert(s.take(i + 1).drop_last() =~= s.take(i));
        assert(seq_digits_val(s.take(i + 1)) == seq_digits_val(s.take(i)) * 10 + digit_val(
            s.take(i + 1).last(),
        ));
        lemma_digits_nonneg(s.take(i));
        assert(seq_digits_val(s.take(i)) <= seq_digits_val(s.take(i)) * 10) by (nonlinear_arith)
            requires
                seq_digits_val(s.take(i)) >= 0,
        ;
    } else {
        assert(s.take(i) =~= s);
    }
}

pub proof fn lemma_digits_nonneg(s: Seq<char>)
    ensures
        seq_digits_val(s) >= 0,
    decreases s.len(),
{
    if s.len() > 0 {
        lemma_digits_nonneg(s.drop_last());
    }
}

/// Exec counterpart of `digit_val`.
pub fn digit_of(c: char) -> (r: u64)
    ensures
        r == digit_val(c),
{
    if c == '0' {
        0
    } else if c == '1' {
        1
    } else if c == '2' {
        2
    } else if c == '3' {
        3
    } else if c == '4' {
        4
    } else if c == '5' {
        5
    } else if c == '6' {
        6
    } else if c == '7' {
        7
    } else if c == '8' {
        8
    } else if c == '9' {
        9
    } else {
        10
    }
}

/// Parses a non-empty all-digit string as a `u64`; `None` on any other
/// input, including values too large for 64 bits.
pub fn parse_u64(s: &str) -> (r: Option<u64>)
    ensures
        r == spec_parse_u64(s@),
{
    let n = s.unicode_len();
    if n == 0 {
        return None;
    }
    let mut acc: u64 = 0;
    let mut i: usize = 0;
    while i < n
        invariant
            n == s@.len(),
            0 <= i <= n,
            is_digit_seq(s@.take(i as int)),
            acc == seq_digits_val(s@.take(i as int)),
        decreases n - i,
    {
        let c = s.get_char(i);
        let d = digit_of(c);
        if d >= 10 {
            assert(!is_digit_char(s@[i as int]));
            return None;
        }
        proof {
            assert(s@.take(i + 1).drop_last() =~= s@.take(i as int));
            assert(s@.take(i + 1).last() == s@[i as int]);
            lemma_digits_nonneg(s@.take(i as int));
        }
        if acc > (u64::MAX - d) / 10 {
            proof {
                assert(acc * 10 + d > u64::MAX) by (nonlinear_arith)
                    requires
                        acc > (u64::MAX - d) / 10,
                        0 <= d < 10,
                ;
                assert(seq_digits_val(s@.take(i + 1)) > u64::MAX);
                if is_digit_seq(s@) {
                    lemma_digits_prefix_le(s@, i + 1);
                }
            }
            return None;
        }
        assert(acc * 10 + d <= u64::MAX) by (nonlinear_arith)
            requires
                acc <= (u64::MAX - d) / 10,
                0 <= d < 10,
        ;
        acc = acc * 10 + d;
        i += 1;
    }
    assert(s@.take(n as int) =~= s@);
    Some(acc)
}

/// Decimal digit characters of a number, most significant first.
pub open spec fn spec_u64_string(n: int) -> Seq<char>
    decreases n,
{
    if n < 10 {
        seq![digit_char(n)]
    } else {
        spec_u64_string(n / 10) + seq![digit_char(n % 10)]
    }
}

pub open spec fn digit_char(d: int) -> char {
    if d == 0 {
        '0'
    } else if d == 1 {
        '1'
    } else if d == 2 {
        '2'
    } else if d == 3 {
        '3'
    } else if d == 4 {
        '4'
    } else if d == 5 {
        '5'
    } else if d == 6 {
        '6'
    } else if d == 7 {
        '7'
    } else if d == 8 {
        '8'
    } else {
        '9'
    }
}

fn digit_str(d: u64) -> (r: &'static str)
    requires
        d < 10,
    ensures
        r@ =~= seq![digit_char(d as int)],
{
    proof {
        reveal_strlit("0");
        reveal_strlit("1");
        reveal_strlit("2");
        reveal_strlit("3");
        reveal_strlit("4");
        reveal_strlit("5");
        reveal_strlit("6");
        reveal_strlit("7");
        reveal_strlit("8");
        reveal_strlit("9");
    }
    if d == 0 {
        "0"
    } else if d == 1 {
        "1"
    } else if d == 2 {
        "2"
    } else if d == 3 {
        "3"
    } else if d == 4 {
        "4"
    } else if d == 5 {
        "5"
    } else if d == 6 {
        "6"
    } else if d == 7 {
        "7"
    } else if d == 8 {
        "8"
    } else {
        "9"
    }
}

/// Renders a number in decimal, most significant digit first, with no
/// leading zeros (`0` itself prints as "0").
pub fn u64_to_string(n: u64) -> (r: String)
    ensures
        r@ == spec_u64_string(n as int),
    decreases n,
{
    if n < 10 {
        let mut s = String::new();
        s.append(digit_str(n));
        proof {
            assert(s@ =~= spec_u64_string(n as int));
        }
        s
    } else {
        let mut s = u64_to_string(n / 10);
        s.append(digit_str(n % 10));
        proof {
            assert(s@ =~= spec_u64_string(n as int));
        }
        s
    }
}

/// Decimal rendering of a signed number: a minus sign for negative
/// values, then the digits of the magnitude.
pub open spec fn spec_i32_string(n: int) -> Seq<char> {
    if n < 0 {
        seq!['-'] + spec_u64_string(-n)
    } else {
        spec_u64_string(n)
    }
}

pub fn i32_to_string(n: i32) -> (r: String)
    ensures
        r@ == spec_i32_string(n as int),
{
    if n >= 0 {
        u64_to_string(n as u64)
    } else {
        let mag: u64 = (-(n as i64)) as u64;
        let mut s = String::new();
        s.append("-");
        let digits = u64_to_string(mag);
        s.append(digits.as_str());
        proof {
            reveal_strlit("-");
            assert(s@ =~= spec_i32_string(n as int));
        }
        s
    }
}

/// The whitespace characters recognized when splitting fields and
/// trimming: the ASCII blank characters.
pub open spec fn is_space(c: char) -> bool {
    c == ' ' || c == '\t' || c == '\n' || c == '\r' || c == '\u{b}' || c == '\u{c}'
}

pub fn is_space_char(c: char) -> (r: bool)
    ensures
        r == is_space(c),
{
    c == ' ' || c == '\t' || c == '\n' || c == '\r' || c == '\u{b}' || c == '\u{c}'
}

/// Length of the leading run of whitespace.
pub open spec fn ws_run_len(s: Seq<char>) -> int
    decreases s.len(),
{
    if s.len() == 0 || !is_space(s[0]) {
        0
    } else {
        1 + ws_run_len(s.drop_first())
    }
}

/// Length of the leading run of non-whitespace.
pub open spec fn token_len(s: Seq<char>) -> int
    decreases s.len(),
{
    if s.len() == 0 || is_space(s[0]) {
        0
    } else {
        1 + token_len(s.drop_first())
    }
}

/// The whitespace-separated tokens of a string, in order.
pub open spec fn spec_fields(s: Seq<char>) -> Seq<Seq<char>>
    decreases s.len(),
    via spec_fields_decreases
{
    if s.len() == 0 {
        Seq::empty()
    } else if is_space(s[0]) {
        spec_fields(s.drop_first())
    } else {
        seq![s.take(token_len(s))] + spec_fields(s.skip(token_len(s)))
    }
}

#[via_fn]
proof fn spec_fields_decreases(s: Seq<char>) {
    if s.len() > 0 && !is_space(s[0]) {
        lemma_ws_run_len_bounds(s.drop_first());
    }
}

proof fn lemma_ws_run_len_bounds(s: Seq<char>)
    ensures
        0 <= ws_run_len(s) <= s.len(),
        0 <= token_len(s) <= s.len(),
        token_len(s) == 0 ==> s.len() == 0 || is_space(s[0]),
    decreases s.len(),
{
    if s.len() > 0 {
        lemma_ws_run_len_bounds(s.drop_first());
    }
}

/// Splitting a suffix: skipping one whitespace character changes
/// nothing, and a leading token becomes the next field.
proof fn lemma_fields_skip_space(s: Seq<char>, i: int)
    requires
        0 <= i < s.len(),
        is_space(s[i]),
    ensures
        spec_fields(s.skip(i)) == spec_fields(s.skip(i + 1)),
{
    assert(s.skip(i).drop_first() =~= s.skip(i + 1));
}

proof fn lemma_token_len_from(s: Seq<char>, i: int, j: int)
    requires
        0 <= i <= j <= s.len(),
        forall|k: int| i <= k < j ==> !is_space(#[trigger] s[k]),
        j == s.len() || is_space(s[j]),
    ensures
        token_len(s.skip(i)) == j - i,
    decreases j - i,
{
    if i < j {
        assert(s.skip(i).drop_first() =~= s.skip(i + 1));
        assert(s.skip(i)[0] == s[i]);
        lemma_token_len_from(s, i + 1, j);
    }
}

/// Collects the whitespace-separated fields of a string.
pub fn fields_of(s: &str) -> (r: Vec<String>)
    ensures
        r.deep_view() == spec_fields(s@),
{
    let n = s.unicode_len();
    let mut out: Vec<String> = Vec::new();
    let mut pos: usize = 0;
    proof {
        assert(s@.skip(0) =~= s@);
    }
    while pos < n
        invariant
            n == s@.len(),
            0 <= pos <= n,
            spec_fields(s@) == out.deep_view() + spec_fields(s@.skip(pos as int)),
        decreases n - pos,
    {
        let c = s.get_char(pos);
        if is_space_char(c) {
            proof {
                lemma_fields_skip_space(s@, pos as int);
            }
            pos += 1;
        } else {
            // scan to the end of the token
            let start = pos;
            let mut end: usize = pos;
            while end < n && !is_space_char(s.get_char(end))
                invariant
                    n == s@.len(),
                    0 <= start <= end <= n,
                    forall|k: int| start <= k < end ==> !is_space(#[trigger] s@[k]),
                decreases n - end,
            {
                end += 1;
            }
            proof {
                lemma_token_len_from(s@, start as int, end as int);
                assert(s@.skip(start as int).take(end - start) =~= s@.subrange(
                    start as int,
                    end as int,
                ));
                assert(s@.skip(start as int).skip(end - start) =~= s@.skip(end as int));
            }
            let tok = s.substring_char(start, end);
            let ghost prev = out.deep_view();
            out.push(String::from_str(tok));
            proof {
                let tokv = s@.subrange(start as int, end as int);
                assert(out.deep_view() =~= prev + seq![tokv]);
                assert(spec_fields(s@.skip(start as int)) == seq![tokv] + spec_fields(
                    s@.skip(end as int),
                ));
                assert((prev + seq![tokv]) + spec_fields(s@.skip(end as int)) =~= prev + (seq![
                    tokv,
                ] + spec_fields(s@.skip(end as int))));
            }
            pos = end;
        }
    }
    proof {
        assert(spec_fields(s@.skip(n as int)) =~= Seq::<Seq<char>>::empty());
        assert(out.deep_view() =~= out.deep_view() + spec_fields(s@.skip(n as int)));
    }
    out
}

/// A line's trailing carriage return is not part of the line.
pub open spec fn strip_cr(s: Seq<char>) -> Seq<char> {
    if s.len() > 0 && s.last() == '\r' {
        s.drop_last()
    } else {
        s
    }
}

/// Length of the first line: the characters before the first newline,
/// or the whole string if there is none.
pub open spec fn line_split_len(s: Seq<char>) -> int
    decreases s.len(),
{
    if s.len() == 0 || s[0] == '\n' {
        0
    } else {
        1 + line_split_len(s.drop_first())
    }
}

/// The lines of a string: split at `\n`, a trailing `\r` dropped from
/// each piece, no final empty line after a terminating newline.
pub open spec fn spec_lines(s: Seq<char>) -> Seq<Seq<char>>
    decreases s.len(),
    via spec_lines_decreases
{
    if s.len() == 0 {
        Seq::empty()
    } else {
        let k = line_split_len(s);
        if k == s.len() {
            seq![strip_cr(s)]
        } else {
            seq![strip_cr(s.take(k))] + spec_lines(s.skip(k + 1))
        }
    }
}

#[via_fn]
proof fn spec_lines_decreases(s: Seq<char>) {
    if s.len() > 0 {
        lemma_line_split_len_bounds(s);
    }
}

proof fn lemma_line_split_len_bounds(s: Seq<char>)
    ensures
        0 <= line_split_len(s) <= s.len(),
        line_split_len(s) < s.len() ==> s[line_split_len(s)] == '\n',
    decreases s.len(),
{
    if s.len() > 0 && s[0] != '\n' {
        lemma_line_split_len_bounds(s.drop_first());
    }
}

proof fn lemma_line_split_len_from(s: Seq<char>, i: int, j: int)
    requires
        0 <= i <= j <= s.len(),
        forall|k: int| i <= k < j ==> #[trigger] s[k] != '\n',
        j == s.len() || s[j] == '\n',
    ensures
        line_split_len(s.skip(i)) == j - i,
    decreases j - i,
{
    if i < j {
        assert(s.skip(i).drop_first() =~= s.skip(i + 1));
        assert(s.skip(i)[0] == s[i]);
        lemma_line_split_len_from(s, i + 1, j);
    }
}

/// Collects the lines of a string.
pub fn lines_of(s: &str) -> (r: Vec<String>)
    ensures
        r.deep_view() == spec_lines(s@),
{
    let n = s.unicode_len();
    let mut out: Vec<String> = Vec::new();
    let mut pos: usize = 0;
    proof {
        assert(s@.skip(0) =~= s@);
    }
    while pos < n
        invariant
            n == s@.len(),
            0 <= pos <= n,
            spec_lines(s@) == out.deep_view() + spec_lines(s@.skip(pos as int)),
        decreases n - pos,
    {
        let start = pos;
        let mut end: usize = pos;
        while end < n && s.get_char(end) != '\n'
            invariant
                n == s@.len(),
                0 <= start <= end <= n,
                forall|k: int| start <= k < end ==> #[trigger] s@[k] != '\n',
            decreases n - end,
        {
            end += 1;
        }
        proof {
            lemma_line_split_len_from(s@, start as int, end as int);
        }
        // drop a trailing carriage return
        let line_end = if end > start && s.get_char(end - 1) == '\r' {
            end - 1
        } else {
            end
        };
        let line = s.substring_char(start, line_end);
        let ghost prev = out.deep_view();
        out.push(String::from_str(line));
        proof {
            let rest = s@.skip(start as int);
            let linev = s@.subrange(start as int, line_end as int);
            assert(rest.take(end - start) =~= s@.subrange(start as int, end as int));
            assert(strip_cr(rest.take(end - start)) =~= linev);
            assert(out.deep_view() =~= prev + seq![linev]);
            if end < n {
                assert(rest.skip(end - start + 1) =~= s@.skip(end + 1));
                assert(spec_lines(rest) == seq![linev] + spec_lines(s@.skip(end + 1)));
                assert((prev + seq![linev]) + spec_lines(s@.skip(end + 1)) =~= prev + (seq![linev]
                    + spec_lines(s@.skip(end + 1))));
            } else {
                assert(rest.take(end - start) =~= rest);
                assert(spec_lines(rest) =~= seq![linev]);
                assert(spec_lines(s@.skip(n as int)) =~= Seq::<Seq<char>>::empty());
                assert((prev + seq![linev]) + spec_lines(s@.skip(n as int)) =~= prev + seq![linev]);
            }
        }
        pos = if end < n {
            end + 1
        } else {
            n
        };
        proof {
            assert(spec_lines(s@) == out.deep_view() + spec_lines(s@.skip(pos as int)));
        }
    }
    proof {
        assert(spec_lines(s@.skip(n as int)) =~= Seq::<Seq<char>>::empty());
        assert(out.deep_view() =~= out.deep_view() + spec_lines(s@.skip(n as int)));
    }
    out
}

/// Length of the trailing run of whitespace.
pub open spec fn ws_suffix_len(s: Seq<char>) -> int
    decreases s.len(),
{
    if s.len() == 0 || !is_space(s.last()) {
        0
    } else {
        1 + ws_suffix_len(s.drop_last())
    }
}

/// The string with leading and trailing whitespace removed.
pub open spec fn spec_trim(s: Seq<char>) -> Seq<char> {
    if ws_run_len(s) == s.len() {
        Seq::empty()
    } else {
        s.subrange(ws_run_len(s), s.len() - ws_suffix_len(s))
    }
}

/// The string with trailing whitespace removed.
pub open spec fn spec_trim_end(s: Seq<char>) -> Seq<char> {
    s.take(s.len() - ws_suffix_len(s))
}

proof fn lemma_ws_prefix_from(s: Seq<char>, i: int, j: int)
    requires
        0 <= i <= j <= s.len(),
        forall|k: int| i <= k < j ==> is_space(#[trigger] s[k]),
        j == s.len() || !is_space(s[j]),
    ensures
        ws_run_len(s.skip(i)) == j - i,
    decreases j - i,
{
    if i < j {
        assert(s.skip(i).drop_first() =~= s.skip(i + 1));
        assert(s.skip(i)[0] == s[i]);
        lemma_ws_prefix_from(s, i + 1, j);
    }
}

proof fn lemma_ws_suffix_to(s: Seq<char>, i: int, j: int)
    requires
        0 <= i <= j <= s.len(),
        forall|k: int| i <= k < j ==> is_space(#[trigger] s[k]),
        i == 0 || !is_space(s[i - 1]),
    ensures
        ws_suffix_len(s.take(j)) == j - i,
    decreases j - i,
{
    if i < j {
        assert(s.take(j).drop_last() =~= s.take(j - 1));
        assert(s.take(j).last() == s[j - 1]);
        lemma_ws_suffix_to(s, i, j - 1);
    }
}

/// Removes leading and trailing whitespace.
pub fn trim(s: &str) -> (r: &str)
    ensures
        r@ == spec_trim(s@),
{
    let n = s.unicode_len();
    let mut a: usize = 0;
    while a < n && is_space_char(s.get_char(a))
        invariant
            n == s@.len(),
            0 <= a <= n,
            forall|k: int| 0 <= k < a ==> is_space(#[trigger] s@[k]),
        decreases n - a,
    {
        a += 1;
    }
    proof {
        lemma_ws_prefix_from(s@, 0, a as int);
        assert(s@.skip(0) =~= s@);
    }
    if a == n {
        proof {
            assert(spec_trim(s@) =~= Seq::<char>::empty());
        }
        let r = s.substring_char(n, n);
        proof {
            assert(r@ =~= spec_trim(s@));
        }
        return r;
    }
    let mut b: usize = n;
    while b > a && is_space_char(s.get_char(b - 1))
        invariant
            n == s@.len(),
            a < n,
            !is_space(s@[a as int]),
            0 <= a <= b <= n,
            forall|k: int| b <= k < n ==> is_space(#[trigger] s@[k]),
        decreases b,
    {
        b -= 1;
    }
    proof {
        assert(b > a) by {
            if b == a {
                assert(is_space(s@[a as int]));
            }
        }
        assert(!is_space(s@[b - 1]));
        assert(s@.take(n as int) =~= s@);
        lemma_ws_suffix_to(s@, b as int, n as int);
        assert(s@.subrange(a as int, b as int) == spec_trim(s@));
    }
    s.substring_char(a, b)
}

/// Removes trailing whitespace.
pub fn trim_end(s: &str) -> (r: &str)
    ensures
        r@ == spec_trim_end(s@),
{
    let n = s.unicode_len();
    let mut b: usize = n;
    while b > 0 && is_space_char(s.get_char(b - 1))
        invariant
            n == s@.len(),
            0 <= b <= n,
            forall|k: int| b <= k < n ==> is_space(#[trigger] s@[k]),
        decreases b,
    {
        b -= 1;
    }
    proof {
        assert(s@.take(n as int) =~= s@);
        if b == 0 {
            lemma_ws_suffix_to(s@, 0, n as int);
        } else {
            lemma_ws_suffix_to(s@, b as int, n as int);
        }
        assert(s@.subrange(0, b as int) =~= s@.take(b as int));
    }
    s.substring_char(0, b)
}

/// Everything after the last colon; the whole string when there is no
/// colon.
pub open spec fn after_last_colon(s: Seq<char>) -> Seq<char>
    decreases s.len(),
{
    if s.len() == 0 {
        s
    } else if s.last() == ':' {
        Seq::empty()
    } else {
        after_last_colon(s.drop_last()).push(s.last())
    }
}

proof fn lemma_after_last_colon_at(s: Seq<char>, j: int)
    requires
        0 <= j < s.len(),
        s[j] == ':',
        forall|k: int| j < k < s.len() ==> #[trigger] s[k] != ':',
    ensures
        after_last_colon(s) =~= s.skip(j + 1),
    decreases s.len(),
{
    if j == s.len() - 1 {
        assert(s.last() == ':');
    } else {
        lemma_after_last_colon_at(s.drop_last(), j);
        assert(after_last_colon(s) =~= s.skip(j + 1));
    }
}

proof fn lemma_after_last_colon_none(s: Seq<char>)
    requires
        forall|k: int| 0 <= k < s.len() ==> #[trigger] s[k] != ':',
    ensures
        after_last_colon(s) =~= s,
    decreases s.len(),
{
    if s.len() > 0 {
        lemma_after_last_colon_none(s.drop_last());
    }
}

/// Returns the text after the last colon, or the whole string when no
/// colon occurs.
pub fn after_last_colon_of(s: &str) -> (r: &str)
    ensures
        r@ == after_last_colon(s@),
{
    let n = s.unicode_len();
    let mut b: usize = n;
    while b > 0
        invariant
            n == s@.len(),
            0 <= b <= n,
            forall|k: int| b <= k < n ==> #[trigger] s@[k] != ':',
        decreases b,
    {
        if s.get_char(b - 1) == ':' {
            proof {
                lemma_after_last_colon_at(s@, b - 1);
            }
            let r = s.substring_char(b, n);
            proof {
                assert(r@ =~= after_last_colon(s@));
            }
            return r;
        }
        b -= 1;
    }
    proof {
        lemma_after_last_colon_none(s@);
    }
    let r = s.substring_char(0, n);
    proof {
        assert(r@ =~= after_last_colon(s@));
    }
    r
}

/// Whether `p` is a prefix of `s`.
pub fn str_starts_with(s: &str, p: &str) -> (r: bool)
    ensures
        r == p@.is_prefix_of(s@),
{
    let np = p.unicode_len();
    let ns = s.unicode_len();
    if np > ns {
        assert(!p@.is_prefix_of(s@));
        return false;
    }
    let mut i: usize = 0;
    while i < np
        invariant
            np == p@.len(),
            ns == s@.len(),
            np <= ns,
            0 <= i <= np,
            forall|j: int| 0 <= j < i ==> s@[j] == p@[j],
        decreases np - i,
    {
        if s.get_char(i) != p.get_char(i) {
            assert(!p@.is_prefix_of(s@));
            return false;
        }
        i += 1;
    }
    proof {
        assert(s@.take(np as int) =~= p@);
    }
    true
}

/// Two string slices are equal exactly when their character sequences
/// are.
pub fn str_eq(a: &str, b: &str) -> (r: bool)
    ensures
        r == (a@ == b@),
{
    let na = a.unicode_len();
    let nb = b.unicode_len();
    if na != nb {
        return false;
    }
    let mut i: usize = 0;
    while i < na
        invariant
            na == a@.len(),
            nb == b@.len(),
            na == nb,
            0 <= i <= na,
            forall|j: int| 0 <= j < i ==> a@[j] == b@[j],
        decreases na - i,
    {
        if a.get_char(i) != b.get_char(i) {
            return false;
        }
        i += 1;
    }
    proof {
        assert(a@ =~= b@);
    }
    true
}

} // verus!
