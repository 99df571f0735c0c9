//! Character-level scanning shared by the two control protocols:
//! whitespace skipping, token extraction, text equality, and decimal
//! numbers, each executable function verified against a specification
//! over the text's character sequence.

use vstd::prelude::*;

use vstd::string::StrSliceExecFns;

verus! {

/// The whitespace that delimits tokens: space, tab, line feed, carriage
/// return. Both control protocols deliberately recognise only these
/// ASCII separators; any other character belongs to a token.
pub open spec fn is_ws_char(c: char) -> bool {
    c == ' ' || c == '\t' || c == '\n' || c == '\r'
}

/// The first position at or after `i` holding a non-whitespace character,
/// or the end of the text.
pub open spec fn next_non_ws(s: Seq<char>, i: int) -> int
    decreases s.len() - i
        when 0 <= i <= s.len()
{
    if i < s.len() && is_ws_char(s[i]) {
        next_non_ws(s, i + 1)
    } else {
        i
    }
}

/// The first position at or after `i` holding whitespace, or the end of
/// the text: the end of the token that starts at `i`.
pub open spec fn token_end(s: Seq<char>, i: int) -> int
    decreases s.len() - i
        when 0 <= i <= s.len()
{
    if i < s.len() && !is_ws_char(s[i]) {
        token_end(s, i + 1)
    } else {
        i
    }
}

/// The first whitespace-delimited token at or after `i`.
pub open spec fn token_at(s: Seq<char>, i: int) -> Seq<char> {
    s.subrange(next_non_ws(s, i), token_end(s, next_non_ws(s, i)))
}

/// True when `c` is one of the characters that delimit tokens.
pub(crate) fn char_is_ws(c: char) -> (r: bool)
    ensures
        r == is_ws_char(c),
{
    c == ' ' || c == '\t' || c == '\n' || c == '\r'
}

/// Advances past whitespace, computing [`next_non_ws`].
pub(crate) fn skip_ws_chars(s: &str, from: usize, n: usize) -> (r: usize)
    requires
        n == s@.len(),
        from <= n,
    ensures
        r == next_non_ws(s@, from as int),
        from <= r <= n,
        r < n ==> !is_ws_char(s@[r as int]),
{
    let mut i: usize = from;
    while i < n && char_is_ws(s.get_char(i))
        invariant
            from <= i <= n,
            n == s@.len(),
            next_non_ws(s@, from as int) == next_non_ws(s@, i as int),
        decreases n - i,
    {
        i += 1;
    }
    i
}

/// Advances past a token's characters, computing [`token_end`].
pub(crate) fn token_end_chars(s: &str, from: usize, n: usize) -> (r: usize)
    requires
        n == s@.len(),
        from <= n,
    ensures
        r == token_end(s@, from as int),
        from <= r <= n,
{
    let mut i: usize = from;
    while i < n && !char_is_ws(s.get_char(i))
        invariant
            from <= i <= n,
            n == s@.len(),
            token_end(s@, from as int) == token_end(s@, i as int),
        decreases n - i,
    {
        i += 1;
    }
    i
}

/// Character-for-character equality of two pieces of text.
pub(crate) fn str_eq(a: &str, b: &str) -> (r: bool)
    ensures
        r == (a@ == b@),
{
    let na = a.unicode_len();
    let nb = b.unicode_len();
    if na != nb {
        return false;
    }
    let mut i: usize = 0;
    while i < na
        invariant
            0 <= i <= na,
            na == a@.len(),
            na == b@.len(),
            forall|k: int| 0 <= k < i ==> a@[k] == b@[k],
        decreases na - i,
    {
        if a.get_char(i) != b.get_char(i) {
            return false;
        }
        i += 1;
    }
    proof {
        assert(a@ =~= b@);
    }
    true
}

/// The ten decimal digit characters.
pub open spec fn is_digit_char(c: char) -> bool {
    48 <= c as u32 <= 57
}

/// The numeric value of a digit character.
pub open spec fn digit_val(c: char) -> int {
    c as u32 - 48
}

/// The first position at or after `i` holding a non-digit character, or
/// the end of the text: the end of the digit run that starts at `i`.
pub open spec fn digits_end(s: Seq<char>, i: int) -> int
    decreases s.len() - i
        when 0 <= i <= s.len()
{
    if i < s.len() && is_digit_char(s[i]) {
        digits_end(s, i + 1)
    } else {
        i
    }
}

/// The value of a digit run read in base ten, or `None` as soon as the
/// value would no longer fit in 64 bits. The empty run reads as zero.
pub open spec fn dec_u64(digits: Seq<char>) -> Option<u64>
    decreases digits.len(),
{
    if digits.len() == 0 {
        Some(0u64)
    } else {
        match dec_u64(digits.drop_last()) {
            None => None,
            Some(hi) => {
                let v = (hi as int) * 10 + digit_val(digits.last());
                if v <= u64::MAX as int {
                    Some(v as u64)
                } else {
                    None
                }
            },
        }
    }
}

/// The number that starts at `i`: its value and the position after its
/// digits, or `None` when no digit stands at `i` or the value does not
/// fit in 64 bits.
pub open spec fn number_at(s: Seq<char>, i: int) -> Option<(u64, int)> {
    let e = digits_end(s, i);
    if e == i {
        None
    } else {
        match dec_u64(s.subrange(i, e)) {
            None => None,
            Some(v) => Some((v, e)),
        }
    }
}

/// A digit run never runs backwards nor past the end of the text.
pub proof fn lemma_digits_end_bounds(s: Seq<char>, i: int)
    requires
        0 <= i <= s.len(),
    ensures
        i <= digits_end(s, i) <= s.len(),
    decreases s.len() - i,
{
    if i < s.len() && is_digit_char(s[i]) {
        lemma_digits_end_bounds(s, i + 1);
    }
}

/// A digit run that stops at a non-digit (or at the end) ends exactly
/// there.
pub proof fn lemma_digits_end_run(s: Seq<char>, i: int, e: int)
    requires
        0 <= i <= e <= s.len(),
        forall|k: int| i <= k < e ==> is_digit_char(#[trigger] s[k]),
        e == s.len() || !is_digit_char(s[e]),
    ensures
        digits_end(s, i) == e,
    decreases e - i,
{
    if i < e {
        lemma_digits_end_run(s, i + 1, e);
    }
}

/// A run that starts with an overlong prefix stays overlong however it
/// continues.
pub proof fn lemma_dec_none_extend(a: Seq<char>, b: Seq<char>)
    requires
        dec_u64(a) is None,
    ensures
        dec_u64(a + b) is None,
    decreases b.len(),
{
    if b.len() == 0 {
        assert(a + b =~= a);
    } else {
        lemma_dec_none_extend(a, b.drop_last());
        assert((a + b).drop_last() =~= a + b.drop_last());
        assert((a + b).len() > 0);
    }
}

/// The digit character for a value below ten.
pub open spec fn char_of_digit(d: int) -> char {
    if d == 0 {
        '0'
    } else if d == 1 {
        '1'
    } else if d == 2 {
        '2'
    } else if d == 3 {
        '3'
    } else if d == 4 {
        '4'
    } else if d == 5 {
        '5'
    } else if d == 6 {
        '6'
    } else if d == 7 {
        '7'
    } else if d == 8 {
        '8'
    } else {
        '9'
    }
}

/// The decimal digits of `v`, most significant first.
pub open spec fn u64_digits(v: u64) -> Seq<char>
    decreases v,
{
    if v < 10 {
        seq![char_of_digit(v as int)]
    } else {
        u64_digits(v / 10) + seq![char_of_digit((v % 10) as int)]
    }
}

/// The digits of `v` are decimal digits and read back as `v`.
pub proof fn lemma_u64_digits_valid(v: u64)
    ensures
        u64_digits(v).len() >= 1,
        forall|k: int|
            0 <= k < u64_digits(v).len() ==> is_digit_char(#[trigger] u64_digits(v)[k]),
        dec_u64(u64_digits(v)) == Some(v),
    decreases v,
{
    if v < 10 {
        let whole = u64_digits(v);
        assert(whole.drop_last() =~= Seq::<char>::empty());
        assert(dec_u64(Seq::<char>::empty()) == Some(0u64));
        assert(whole.last() == char_of_digit(v as int));
        assert(digit_val(char_of_digit(v as int)) == v as int);
    } else {
        lemma_u64_digits_valid(v / 10);
        let pre = u64_digits(v / 10);
        let whole = u64_digits(v);
        assert(whole.drop_last() =~= pre);
        assert(whole.last() == char_of_digit((v % 10) as int));
        assert(digit_val(whole.last()) == (v % 10) as int);
        assert((v / 10) as int * 10 + (v % 10) as int == v as int);
        assert forall|k: int| 0 <= k < whole.len() implies is_digit_char(
            #[trigger] whole[k],
        ) by {
            if k < pre.len() {
                assert(whole[k] == pre[k]);
            } else {
                assert(whole[k] == whole.last());
            }
        }
    }
}

/// Ten to the `k`.
pub open spec fn pow10(k: nat) -> int
    decreases k,
{
    if k == 0 {
        1
    } else {
        10 * pow10((k - 1) as nat)
    }
}

proof fn lemma_pow10_pos(k: nat)
    ensures
        pow10(k) >= 1,
    decreases k,
{
    if k > 0 {
        lemma_pow10_pos((k - 1) as nat);
    }
}

proof fn lemma_u64_digits_len_rec(v: u64, k: nat)
    requires
        k >= 1,
        (v as int) < pow10(k),
    ensures
        u64_digits(v).len() <= k,
    decreases k,
{
    if v >= 10 {
        lemma_pow10_pos((k - 1) as nat);
        assert(pow10(k) == 10 * pow10((k - 1) as nat));
        assert(((v / 10) as int) < pow10((k - 1) as nat));
        lemma_u64_digits_len_rec(v / 10, (k - 1) as nat);
    }
}

/// A 64-bit value never needs more than twenty digits.
pub proof fn lemma_u64_digits_len(v: u64)
    ensures
        u64_digits(v).len() <= 20,
{
    assert(pow10(20) > u64::MAX as int) by {
        reveal_with_fuel(pow10, 21);
    }
    lemma_u64_digits_len_rec(v, 20);
}

/// The one-character text of a digit.
fn digit_str(v: u64) -> (r: &'static str)
    requires
        v < 10,
    ensures
        r@ == seq![char_of_digit(v as int)],
{
    let r: &'static str = if v == 0 {
        "0"
    } else if v == 1 {
        "1"
    } else if v == 2 {
        "2"
    } else if v == 3 {
        "3"
    } else if v == 4 {
        "4"
    } else if v == 5 {
        "5"
    } else if v == 6 {
        "6"
    } else if v == 7 {
        "7"
    } else if v == 8 {
        "8"
    } else {
        "9"
    };
    proof {
        reveal_strlit("0");
        reveal_strlit("1");
        reveal_strlit("2");
        reveal_strlit("3");
        reveal_strlit("4");
        reveal_strlit("5");
        reveal_strlit("6");
        reveal_strlit("7");
        reveal_strlit("8");
        reveal_strlit("9");
    }
    proof {
        assert(r@ =~= seq![char_of_digit(v as int)]);
    }
    r
}

/// Appends the decimal digits of `v`, most significant first.
pub(crate) fn push_u64_digits(out: &mut String, v: u64)
    ensures
        final(out)@ == old(out)@ + u64_digits(v),
    decreases v,
{
    if v < 10 {
        out.append(digit_str(v));
        proof {
            assert(out@ =~= old(out)@ + u64_digits(v));
        }
    } else {
        push_u64_digits(out, v / 10);
        out.append(digit_str(v % 10));
        proof {
            assert(out@ =~= old(out)@ + u64_digits(v));
        }
    }
}

/// True when `c` is a decimal digit.
pub(crate) fn char_is_digit(c: char) -> (r: bool)
    ensures
        r == is_digit_char(c),
{
    let u = c as u32;
    48 <= u && u <= 57
}

/// Reads the decimal number that starts at `from`, if any: its value and
/// the position after its digits, exactly as [`number_at`] states.
pub(crate) fn parse_u64_at(s: &str, from: usize, n: usize) -> (r: Option<(u64, usize)>)
    requires
        n == s@.len(),
        from <= n,
    ensures
        match r {
            Some(pair) => number_at(s@, from as int) == Some((pair.0, pair.1 as int)) && from
                < pair.1 <= n,
            None => number_at(s@, from as int) is None,
        },
{
    let mut j: usize = from;
    let mut acc: u64 = 0;
    while j < n && char_is_digit(s.get_char(j))
        invariant
            from <= j <= n,
            n == s@.len(),
            digits_end(s@, from as int) == digits_end(s@, j as int),
            forall|k: int| from <= k < j ==> is_digit_char(#[trigger] s@[k]),
            dec_u64(s@.subrange(from as int, j as int)) == Some(acc),
        decreases n - j,
    {
        let c = s.get_char(j);
        let d = (c as u32 - 48) as u64;
        let ghost pre = s@.subrange(from as int, j as int);
        let ghost ext = s@.subrange(from as int, j + 1);
        proof {
            assert(ext.drop_last() =~= pre);
            assert(ext.last() == s@[j as int]);
        }
        if acc > 1844674407370955161 || (acc == 1844674407370955161 && d > 5) {
            proof {
                assert(dec_u64(ext) is None);
                let e = digits_end(s@, from as int);
                assert(digits_end(s@, j + 1) == e);
                lemma_digits_end_bounds(s@, j + 1);
                assert(s@.subrange(from as int, e) =~= ext + s@.subrange(j + 1, e));
                lemma_dec_none_extend(ext, s@.subrange(j + 1, e));
            }
            return None;
        }
        acc = acc * 10 + d;
        j += 1;
    }
    if j == from {
        proof {
            assert(digits_end(s@, from as int) == from);
        }
        return None;
    }
    Some((acc, j))
}

} // verus!
