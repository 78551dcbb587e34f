//! Decimal text: formatting of integers and parsing of `i32` values the
//! way the bus service writes them.
use vstd::prelude::*;
use vstd::string::{StrSliceExecFns, StringExecFns};

verus! {

/// The ASCII character of the decimal digit `d` (`d < 10`).
pub open spec fn digit_char(d: nat) -> char {
    if d == 0 { '0' }
    else if d == 1 { '1' }
    else if d == 2 { '2' }
    else if d == 3 { '3' }
    else if d == 4 { '4' }
    else if d == 5 { '5' }
    else if d == 6 { '6' }
    else if d == 7 { '7' }
    else if d == 8 { '8' }
    else { '9' }
}

/// The shortest decimal notation of `n`, most significant digit first.
pub open spec fn decimal(n: nat) -> Seq<char>
    decreases n,
{
    if n < 10 {
        seq![digit_char(n)]
    } else {
        decimal(n / 10).push(digit_char(n % 10))
    }
}

/// A one-character string holding the digit `d`.
fn digit_string(d: usize) -> (s: String)
    requires
        d < 10,
    ensures
        s@ == seq![digit_char(d as nat)],
{
    let lit: &str = if d == 0 {
        proof { reveal_strlit("0"); }
        "0"
    } else if d == 1 {
        proof { reveal_strlit("1"); }
        "1"
    } else if d == 2 {
        proof { reveal_strlit("2"); }
        "2"
    } else if d == 3 {
        proof { reveal_strlit("3"); }
        "3"
    } else if d == 4 {
        proof { reveal_strlit("4"); }
        "4"
    } else if d == 5 {
        proof { reveal_strlit("5"); }
        "5"
    } else if d == 6 {
        proof { reveal_strlit("6"); }
        "6"
    } else if d == 7 {
        proof { reveal_strlit("7"); }
        "7"
    } else if d == 8 {
        proof { reveal_strlit("8"); }
        "8"
    } else {
        proof { reveal_strlit("9"); }
        "9"
    };
    lit.to_owned()
}


/// The digits of `m` that remain to be written in front of the ones
/// already produced: nothing once `m` is zero.
spec fn pending_digits(m: nat) -> Seq<char> {
    if m == 0 { Seq::empty() } else { decimal(m) }
}

/// Formats `n` in decimal, as `format!("{}", n)` does for a `usize`.
pub fn usize_to_decimal(n: usize) -> (s: String)
    ensures
        s@ == decimal(n as nat),
{
    let mut m: usize = n / 10;
    let mut s = digit_string(n % 10);
    assert(decimal(n as nat) == pending_digits(m as nat) + s@);
    while m > 0
        invariant
            decimal(n as nat) == pending_digits(m as nat) + s@,
        decreases m,
    {
        let d = digit_string(m % 10);
        proof {
            assert(pending_digits(m as nat) == pending_digits((m / 10) as nat) + d@);
            assert(pending_digits(m as nat) + s@ == pending_digits((m / 10) as nat) + (d@ + s@));
        }
        s = d.concat(s.as_str());
        m = m / 10;
    }
    s
}


/// An ASCII decimal digit.
pub open spec fn is_digit(c: char) -> bool {
    48 <= (c as u32) <= 57
}

/// The value of the decimal digit `c`.
pub open spec fn digit_value(c: char) -> int {
    (c as u32) - 48
}

/// Every character of `s` is an ASCII decimal digit.
pub open spec fn all_digits(s: Seq<char>) -> bool {
    forall|i: int| 0 <= i < s.len() ==> is_digit(#[trigger] s[i])
}

/// The value of the digit string `s`, most significant digit first.
pub open spec fn digits_value(s: Seq<char>) -> int
    decreases s.len(),
{
    if s.len() == 0 {
        0
    } else {
        10 * digits_value(s.drop_last()) + digit_value(s.last())
    }
}

/// What `i32::from_str` gives for `s`: an optional `+` or `-`, then one or
/// more ASCII digits whose value fits in an `i32`; anything else (empty
/// text, a lone sign, spaces, other characters, overflow) is `None`.
pub open spec fn parse_i32_spec(s: Seq<char>) -> Option<i32> {
    if s.len() > 0 && s[0] == '-' {
        let d = s.skip(1);
        if d.len() > 0 && all_digits(d) && digits_value(d) <= 2147483648 {
            Some((-digits_value(d)) as i32)
        } else {
            None
        }
    } else {
        let d = if s.len() > 0 && s[0] == '+' { s.skip(1) } else { s };
        if d.len() > 0 && all_digits(d) && digits_value(d) <= 2147483647 {
            Some(digits_value(d) as i32)
        } else {
            None
        }
    }
}

/// Digit strings never lose value when they grow.
proof fn lemma_digits_value_grows(s: Seq<char>, p: int)
    requires
        all_digits(s),
        0 <= p <= s.len(),
    ensures
        0 <= digits_value(s.take(p)) <= digits_value(s),
    decreases s.len() - p,
{
    if p < s.len() {
        lemma_digits_value_grows(s, p + 1);
        assert(s.take(p + 1).drop_last() =~= s.take(p));
        lemma_digits_value_nonneg(s.take(p));
    } else {
        assert(s.take(p) =~= s);
        lemma_digits_value_nonneg(s);
    }
}

proof fn lemma_digits_value_nonneg(s: Seq<char>)
    requires
        all_digits(s),
    ensures
        digits_value(s) >= 0,
    decreases s.len(),
{
    if s.len() > 0 {
        assert(all_digits(s.drop_last()));
        lemma_digits_value_nonneg(s.drop_last());
    }
}

/// Parses `text` as `i32::from_str` does.
pub fn parse_i32(text: &str) -> (v: Option<i32>)
    ensures
        v == parse_i32_spec(text@),
{
    let n = text.unicode_len();
    let ghost s = text@;
    if n == 0 {
        return None;
    }
    let first = text.get_char(0);
    let negative = first == '-';
    let start: usize = if first == '-' || first == '+' { 1 } else { 0 };
    let ghost d = s.skip(start as int);
    assert(start == 0 ==> d =~= s);
    if start >= n {
        assert(d.len() == 0);
        return None;
    }
    let bound: i64 = if negative { 2147483648 } else { 2147483647 };
    let mut acc: i64 = 0;
    let mut i: usize = start;
    while i < n
        invariant
            n == s.len(),
            s == text@,
            s.len() > 0,
            negative == (s[0] == '-'),
            start == (if s[0] == '-' || s[0] == '+' { 1usize } else { 0usize }),
            start == 0 ==> d =~= s,
            start <= i <= n,
            d == s.skip(start as int),
            all_digits(d.take(i - start)),
            acc == digits_value(d.take(i - start)),
            0 <= acc <= bound,
            bound == (if negative { 2147483648i64 } else { 2147483647i64 }),
        decreases n - i,
    {
        let c = text.get_char(i);
        assert(d[i - start] == c);
        if !('0' <= c && c <= '9') {
            assert(!all_digits(d));
            return None;
        }
        let dv: i64 = (c as u32 - 48) as i64;
        let next: i64 = acc * 10 + dv;
        proof {
            assert(d.take(i - start + 1).drop_last() =~= d.take(i - start));
            assert(digits_value(d.take(i - start + 1)) == next);
            assert(all_digits(d.take(i - start + 1)));
        }
        if next > bound {
            proof {
                if all_digits(d) {
                    lemma_digits_value_grows(d, i - start + 1);
                }
            }
            return None;
        }
        acc = next;
        i = i + 1;
    }
    assert(d.take(n - start) =~= d);
    if negative {
        Some((0 - acc) as i32)
    } else {
        Some(acc as i32)
    }
}


/// The pieces of `s` between commas, as `str::split(',')` yields them:
/// `k` commas give `k + 1` pieces, empty ones included.
pub open spec fn split_commas(s: Seq<char>) -> Seq<Seq<char>>
    decreases s.len(),
{
    if s.len() == 0 {
        seq![Seq::<char>::empty()]
    } else {
        let rest = split_commas(s.drop_last());
        if s.last() == ',' {
            rest.push(Seq::<char>::empty())
        } else {
            rest.update(rest.len() - 1, rest.last().push(s.last()))
        }
    }
}

/// The texts of a vector of strings.
pub open spec fn texts(v: Seq<String>) -> Seq<Seq<char>> {
    v.map_values(|p: String| p@)
}

/// Splits `text` at every comma, as `text.split(',')` does.
pub fn split_commas_exec(text: &str) -> (pieces: Vec<String>)
    ensures
        texts(pieces@) == split_commas(text@),
{
    let n = text.unicode_len();
    let ghost s = text@;
    let mut pieces: Vec<String> = Vec::new();
    let mut start: usize = 0;
    let mut i: usize = 0;
    assert(s.take(0) =~= Seq::<char>::empty());
    assert(texts(pieces@).push(s.subrange(0, 0)) =~= split_commas(s.take(0)));
    while i < n
        invariant
            n == s.len(),
            s == text@,
            start <= i <= n,
            split_commas(s.take(i as int)) == texts(pieces@).push(s.subrange(start as int, i as int)),
        decreases n - i,
    {
        let c = text.get_char(i);
        assert(s.take(i + 1).drop_last() =~= s.take(i as int));
        assert(s.take(i + 1).last() == c);
        if c == ',' {
            let piece = text.substring_char(start, i).to_owned();
            proof {
                let old_texts = texts(pieces@);
                assert(texts(pieces@.push(piece)) =~= old_texts.push(piece@));
                assert(s.subrange(i + 1, i + 1) =~= Seq::<char>::empty());
            }
            pieces.push(piece);
            start = i + 1;
        } else {
            proof {
                assert(s.subrange(start as int, i as int).push(c) =~= s.subrange(
                    start as int,
                    i + 1,
                ));
                let old_texts = texts(pieces@);
                assert(old_texts.push(s.subrange(start as int, i as int)).update(
                    old_texts.len() as int,
                    s.subrange(start as int, i + 1),
                ) =~= old_texts.push(s.subrange(start as int, i + 1)));
            }
        }
        i = i + 1;
    }
    let last = text.substring_char(start, n).to_owned();
    proof {
        assert(s.take(n as int) =~= s);
        assert(texts(pieces@.push(last)) =~= texts(pieces@).push(last@));
    }
    pieces.push(last);
    pieces
}

} // verus!
