//! Verified text helpers: string equality, decimal and hexadecimal
//! rendering, integer parsing, and whitespace splitting.

use vstd::prelude::*;
use vstd::string::*;

verus! {

/// A decimal digit character.
pub open spec fn is_digit_char(c: char) -> bool {
    48 <= c as u32 <= 57
}

/// Numeric value of a decimal digit character.
pub open spec fn digit_val(c: char) -> int {
    c as u32 - 48
}

/// The character for a single decimal digit.
pub open spec fn char_of_digit(d: int) -> char {
    if d == 0 {
        '0'
    } else if d == 1 {
        '1'
    } else if d == 2 {
        '2'
    } else if d == 3 {
        '3'
    } else if d == 4 {
        '4'
    } else if d == 5 {
        '5'
    } else if d == 6 {
        '6'
    } else if d == 7 {
        '7'
    } else if d == 8 {
        '8'
    } else {
        '9'
    }
}

/// Decimal rendering of a non-negative integer, most significant digit first.
pub open spec fn spec_dec_digits(n: nat) -> Seq<char>
    decreases n,
{
    if n < 10 {
        seq![char_of_digit(n as int)]
    } else {
        spec_dec_digits(n / 10) + seq![char_of_digit((n % 10) as int)]
    }
}

/// Decimal rendering of a signed integer: a leading '-' for negatives.
pub open spec fn spec_dec_signed(v: int) -> Seq<char> {
    if v < 0 {
        seq!['-'] + spec_dec_digits((-v) as nat)
    } else {
        spec_dec_digits(v as nat)
    }
}

fn digit_str(d: u8) -> (r: &'static str)
    requires
        d < 10,
    ensures
        r@ == seq![char_of_digit(d as int)],
{
    if d == 0 {
        proof { reveal_strlit("0"); }
        let r = "0";
        assert(r@ =~= seq![char_of_digit(0)]);
        r
    } else if d == 1 {
        proof { reveal_strlit("1"); }
        let r = "1";
        assert(r@ =~= seq![char_of_digit(1)]);
        r
    } else if d == 2 {
        proof { reveal_strlit("2"); }
        let r = "2";
        assert(r@ =~= seq![char_of_digit(2)]);
        r
    } else if d == 3 {
        proof { reveal_strlit("3"); }
        let r = "3";
        assert(r@ =~= seq![char_of_digit(3)]);
        r
    } else if d == 4 {
        proof { reveal_strlit("4"); }
        let r = "4";
        assert(r@ =~= seq![char_of_digit(4)]);
        r
    } else if d == 5 {
        proof { reveal_strlit("5"); }
        let r = "5";
        assert(r@ =~= seq![char_of_digit(5)]);
        r
    } else if d == 6 {
        proof { reveal_strlit("6"); }
        let r = "6";
        assert(r@ =~= seq![char_of_digit(6)]);
        r
    } else if d == 7 {
        proof { reveal_strlit("7"); }
        let r = "7";
        assert(r@ =~= seq![char_of_digit(7)]);
        r
    } else if d == 8 {
        proof { reveal_strlit("8"); }
        let r = "8";
        assert(r@ =~= seq![char_of_digit(8)]);
        r
    } else {
        proof { reveal_strlit("9"); }
        let r = "9";
        assert(r@ =~= seq![char_of_digit(9)]);
        r
    }
}

/// Decimal rendering of a `u64`.
pub fn dec_str_u64(n: u64) -> (s: String)
    ensures
        s@ == spec_dec_digits(n as nat),
    decreases n,
{
    if n < 10 {
        digit_str(n as u8).to_owned()
    } else {
        let mut s = dec_str_u64(n / 10);
        s.append(digit_str((n % 10) as u8));
        s
    }
}

/// Decimal rendering of an `i64`, with a leading '-' for negatives.
pub fn dec_str_i64(v: i64) -> (s: String)
    ensures
        s@ == spec_dec_signed(v as int),
{
    if v >= 0 {
        dec_str_u64(v as u64)
    } else {
        proof { reveal_strlit("-"); }
        let mag: u64 = if v == i64::MIN {
            9223372036854775808u64
        } else {
            (-v) as u64
        };
        assert(mag == -(v as int));
        let mut s = "-".to_owned();
        assert(s@ =~= seq!['-']);
        s.append(dec_str_u64(mag).as_str());
        s
    }
}

/// Character-by-character string equality.
pub fn str_eq(a: &str, b: &str) -> (r: bool)
    ensures
        r == (a@ == b@),
{
    let alen = a.unicode_len();
    let blen = b.unicode_len();
    if alen != blen {
        return false;
    }
    let mut i: usize = 0;
    while i < alen
        invariant
            alen == a@.len(),
            blen == b@.len(),
            alen == blen,
            i <= alen,
            forall|j: int| 0 <= j < i ==> a@[j] == b@[j],
        decreases alen - i,
    {
        if a.get_char(i) != b.get_char(i) {
            return false;
        }
        i = i + 1;
    }
    proof {
        assert(a@ =~= b@);
    }
    true
}

/// Every character of the sequence is a decimal digit.
pub open spec fn all_digits(s: Seq<char>) -> bool {
    forall|i: int| 0 <= i < s.len() ==> is_digit_char(#[trigger] s[i])
}

/// Value of a sequence of decimal digits read in base 10.
pub open spec fn dec_val(s: Seq<char>) -> int
    decreases s.len(),
{
    if s.len() == 0 {
        0
    } else {
        dec_val(s.drop_last()) * 10 + digit_val(s.last())
    }
}

/// The value of a digit sequence only grows as digits are appended.
pub proof fn lemma_dec_val_prefix(s: Seq<char>, i: int)
    requires
        all_digits(s),
        0 <= i <= s.len(),
    ensures
        0 <= dec_val(s.take(i)) <= dec_val(s),
    decreases s.len() - i,
{
    lemma_dec_val_nonneg(s.take(i));
    if i < s.len() {
        lemma_dec_val_prefix(s, i + 1);
        assert(s.take(i + 1).drop_last() =~= s.take(i));
        assert(dec_val(s.take(i + 1)) == dec_val(s.take(i)) * 10 + digit_val(s[i]));
        lemma_dec_val_nonneg(s.take(i));
    } else {
        assert(s.take(i) =~= s);
    }
}

/// A digit sequence has a non-negative value.
pub proof fn lemma_dec_val_nonneg(s: Seq<char>)
    requires
        all_digits(s),
    ensures
        dec_val(s) >= 0,
    decreases s.len(),
{
    if s.len() > 0 {
        assert(all_digits(s.drop_last()));
        lemma_dec_val_nonneg(s.drop_last());
        assert(is_digit_char(s.last()));
    }
}

/// What `str::parse::<i64>` accepts: an optional sign, then one or more
/// decimal digits, with the value in range for `i64`.
pub open spec fn spec_parse_i64(s: Seq<char>) -> Option<i64> {
    let signed = s.len() > 0 && (s[0] == '+' || s[0] == '-');
    let digits = if signed { s.drop_first() } else { s };
    if digits.len() == 0 || !all_digits(digits) {
        None
    } else {
        let v = if s.len() > 0 && s[0] == '-' {
            -dec_val(digits)
        } else {
            dec_val(digits)
        };
        if -0x8000000000000000 <= v <= 0x7fffffffffffffff {
            Some(v as i64)
        } else {
            None
        }
    }
}

fn digit_of_char(c: char) -> (r: Option<u8>)
    ensures
        r matches Some(d) ==> is_digit_char(c) && d == digit_val(c) && d < 10,
        r is None ==> !is_digit_char(c),
{
    let u = c as u32;
    if 48 <= u && u <= 57 {
        Some((u - 48) as u8)
    } else {
        None
    }
}

/// Parse a string as `str::parse::<i64>` does.
pub fn parse_i64(s: &str) -> (r: Option<i64>)
    ensures
        r == spec_parse_i64(s@),
{
    let len = s.unicode_len();
    if len == 0 {
        return None;
    }
    let c0 = s.get_char(0);
    let (neg, start): (bool, usize) = if c0 == '-' {
        (true, 1)
    } else if c0 == '+' {
        (false, 1)
    } else {
        (false, 0)
    };
    let ghost digits: Seq<char> = if start == 1 { s@.drop_first() } else { s@ };
    if len == start {
        return None;
    }
    let mut acc: u128 = 0;
    let mut i: usize = start;
    while i < len
        invariant
            start <= i <= len,
            len == s@.len(),
            start == 1 ==> digits == s@.drop_first(),
            start == 0 ==> digits == s@,
            start <= 1,
            (start == 1) == (s@[0] == '+' || s@[0] == '-'),
            neg == (s@[0] == '-'),
            len > start,
            forall|j: int| start <= j < i ==> is_digit_char(#[trigger] s@[j]),
            acc == dec_val(digits.take(i - start)),
            acc <= 0x8000000000000000,
        decreases len - i,
    {
        let d = match digit_of_char(s.get_char(i)) {
            Some(d) => d,
            None => {
                proof {
                    assert(digits[i - start] == s@[i as int]);
                    assert(!is_digit_char(digits[i - start]));
                    assert(!all_digits(digits));
                }
                return None;
            },
        };
        proof {
            assert(digits.take(i + 1 - start).drop_last() =~= digits.take(i - start));
            assert(digits.take(i + 1 - start).last() == s@[i as int]);
        }
        acc = acc * 10 + (d as u128);
        i = i + 1;
        if acc > 0x8000000000000000 {
            proof {
                if all_digits(digits) {
                    lemma_dec_val_prefix(digits, i - start);
                    assert(dec_val(digits) >= acc as int);
                }
            }
            return None;
        }
    }
    proof {
        assert(digits.take(len - start) =~= digits);
        assert(all_digits(digits));
        assert(dec_val(digits) == acc as int);
    }
    if neg {
        let v: i64 = if acc == 0x8000000000000000 {
            i64::MIN
        } else {
            -((acc as i64))
        };
        Some(v)
    } else {
        if acc > 0x7fffffffffffffff {
            None
        } else {
            Some(acc as i64)
        }
    }
}

/// Powers of ten.
pub open spec fn pow10(k: nat) -> nat
    decreases k,
{
    if k == 0 {
        1
    } else {
        10 * pow10((k - 1) as nat)
    }
}

/// Powers of sixteen.
pub open spec fn pow16(k: nat) -> nat
    decreases k,
{
    if k == 0 {
        1
    } else {
        16 * pow16((k - 1) as nat)
    }
}

/// A decimal rendering consists of digit characters.
pub proof fn lemma_dec_digits_all_digits(n: nat)
    ensures
        all_digits(spec_dec_digits(n)),
    decreases n,
{
    if n < 10 {
        assert(is_digit_char(char_of_digit(n as int)));
    } else {
        lemma_dec_digits_all_digits(n / 10);
        assert(is_digit_char(char_of_digit((n % 10) as int)));
        assert(forall|i: int|
            0 <= i < spec_dec_digits(n / 10).len() ==> spec_dec_digits(n)[i] == spec_dec_digits(
                n / 10,
            )[i]);
        assert(spec_dec_digits(n).last() == char_of_digit((n % 10) as int));
    }
}

/// Reading back a decimal rendering gives the number it renders.
pub proof fn lemma_dec_val_of_digits(n: nat)
    ensures
        dec_val(spec_dec_digits(n)) == n,
    decreases n,
{
    if n < 10 {
        let s = spec_dec_digits(n);
        assert(s.drop_last() =~= Seq::<char>::empty());
        assert(dec_val(Seq::<char>::empty()) == 0);
        assert(dec_val(s) == dec_val(s.drop_last()) * 10 + digit_val(s.last()));
        assert(digit_val(char_of_digit(n as int)) == n);
    } else {
        lemma_dec_val_of_digits(n / 10);
        let s = spec_dec_digits(n);
        assert(s.drop_last() =~= spec_dec_digits(n / 10));
        assert(s.last() == char_of_digit((n % 10) as int));
        assert(dec_val(s) == dec_val(s.drop_last()) * 10 + digit_val(s.last()));
        assert(digit_val(char_of_digit((n % 10) as int)) == n % 10);
    }
}

/// A number below `pow10(k)` renders in at most `k` digits.
pub proof fn lemma_dec_digits_len(n: nat, k: nat)
    requires
        k >= 1,
        n < pow10(k),
    ensures
        spec_dec_digits(n).len() <= k,
    decreases n,
{
    if n < 10 {
    } else {
        assert(pow10(k) == 10 * pow10((k - 1) as nat));
        assert(k >= 2) by {
            if k == 1 {
                assert(pow10(1nat) == 10);
            }
        }
        assert(n / 10 < pow10((k - 1) as nat));
        lemma_dec_digits_len(n / 10, (k - 1) as nat);
    }
}

/// The Unicode white-space characters, as `str::split_whitespace` sees them.
pub open spec fn is_space(c: char) -> bool {
    c == ' ' || c == '\t' || c == '\n' || c == '\u{b}' || c == '\u{c}' || c == '\r'
        || c == '\u{85}' || c == '\u{a0}' || c == '\u{1680}' || c == '\u{2000}' || c == '\u{2001}'
        || c == '\u{2002}' || c == '\u{2003}' || c == '\u{2004}' || c == '\u{2005}'
        || c == '\u{2006}' || c == '\u{2007}' || c == '\u{2008}' || c == '\u{2009}'
        || c == '\u{200a}' || c == '\u{2028}' || c == '\u{2029}' || c == '\u{202f}'
        || c == '\u{205f}' || c == '\u{3000}'
}

fn is_space_exec(c: char) -> (r: bool)
    ensures
        r == is_space(c),
{
    c == ' ' || c == '\t' || c == '\n' || c == '\u{b}' || c == '\u{c}' || c == '\r'
        || c == '\u{85}' || c == '\u{a0}' || c == '\u{1680}' || c == '\u{2000}' || c == '\u{2001}'
        || c == '\u{2002}' || c == '\u{2003}' || c == '\u{2004}' || c == '\u{2005}'
        || c == '\u{2006}' || c == '\u{2007}' || c == '\u{2008}' || c == '\u{2009}'
        || c == '\u{200a}' || c == '\u{2028}' || c == '\u{2029}' || c == '\u{202f}'
        || c == '\u{205f}' || c == '\u{3000}'
}

/// Length of the leading run of non-space characters.
pub open spec fn token_len(s: Seq<char>) -> nat
    decreases s.len(),
{
    if s.len() == 0 || is_space(s[0]) {
        0
    } else {
        1 + token_len(s.drop_first())
    }
}

/// The leading token never extends past the end of the sequence.
pub proof fn lemma_token_len_le(s: Seq<char>)
    ensures
        token_len(s) <= s.len(),
    decreases s.len(),
{
    if s.len() > 0 && !is_space(s[0]) {
        lemma_token_len_le(s.drop_first());
    }
}

/// A run of non-space characters ended by a space or the end of the sequence
/// is exactly the leading token.
pub proof fn lemma_token_len_is(s: Seq<char>, k: int)
    requires
        0 <= k <= s.len(),
        forall|m: int| 0 <= m < k ==> !is_space(#[trigger] s[m]),
        k == s.len() || is_space(s[k]),
    ensures
        token_len(s) == k,
    decreases k,
{
    if k == 0 {
    } else {
        assert(!is_space(s[0]));
        lemma_token_len_is(s.drop_first(), k - 1);
    }
}

/// The white-space-separated tokens of a character sequence, in order.
pub open spec fn spec_tokens(s: Seq<char>) -> Seq<Seq<char>>
    decreases s.len(),
    via spec_tokens_decreases
{
    if s.len() == 0 {
        Seq::empty()
    } else if is_space(s[0]) {
        spec_tokens(s.drop_first())
    } else {
        seq![s.take(token_len(s) as int)] + spec_tokens(s.skip(token_len(s) as int))
    }
}

#[via_fn]
proof fn spec_tokens_decreases(s: Seq<char>) {
    if s.len() > 0 && !is_space(s[0]) {
        lemma_token_len_le(s);
    }
}

/// Every element of `v` views to the corresponding element of `t`.
pub open spec fn views_match(v: Seq<String>, t: Seq<Seq<char>>) -> bool {
    v.len() == t.len() && forall|i: int| 0 <= i < v.len() ==> #[trigger] v[i]@ == t[i]
}

fn token_end(s: &str, from: usize) -> (r: usize)
    requires
        from <= s@.len(),
    ensures
        from <= r <= s@.len(),
        forall|m: int| from <= m < r ==> !is_space(#[trigger] s@[m]),
        r == s@.len() || is_space(s@[r as int]),
    decreases s@.len() - from,
{
    if from == s.unicode_len() {
        from
    } else if is_space_exec(s.get_char(from)) {
        from
    } else {
        token_end(s, from + 1)
    }
}

fn split_from(s: &str, from: usize) -> (r: Vec<String>)
    requires
        from <= s@.len(),
    ensures
        views_match(r@, spec_tokens(s@.skip(from as int))),
    decreases s@.len() - from,
{
    let len = s.unicode_len();
    if from == len {
        proof {
            assert(s@.skip(from as int) =~= Seq::<char>::empty());
        }
        Vec::new()
    } else if is_space_exec(s.get_char(from)) {
        let r = split_from(s, from + 1);
        proof {
            assert(s@.skip(from as int).drop_first() =~= s@.skip(from + 1));
            assert(s@.skip(from as int)[0] == s@[from as int]);
        }
        r
    } else {
        let j = token_end(s, from);
        assert(j > from);
        let tok = s.substring_char(from, j).to_owned();
        let mut rest = split_from(s, j);
        proof {
            let tail = s@.skip(from as int);
            assert(forall|m: int| 0 <= m < j - from ==> tail[m] == s@[m + from]);
            assert(j - from < tail.len() ==> tail[j - from] == s@[j as int]);
            lemma_token_len_is(tail, j - from);
            assert(tail.take(j - from) =~= s@.subrange(from as int, j as int));
            assert(tail.skip(j - from) =~= s@.skip(j as int));
        }
        let mut r: Vec<String> = Vec::new();
        r.push(tok);
        r.append(&mut rest);
        proof {
            let toks = spec_tokens(s@.skip(from as int));
            assert(toks == seq![s@.subrange(from as int, j as int)] + spec_tokens(
                s@.skip(j as int),
            ));
            assert(forall|i: int| 0 <= i < r@.len() ==> #[trigger] r@[i]@ == toks[i]);
        }
        r
    }
}

/// Split a string at white space, as `str::split_whitespace` does.
pub fn split_whitespace_tokens(s: &str) -> (r: Vec<String>)
    ensures
        views_match(r@, spec_tokens(s@)),
{
    let r = split_from(s, 0);
    proof {
        assert(s@.skip(0) =~= s@);
    }
    r
}

/// The integers among a token list, each parsed as `i64`; unparseable tokens
/// are dropped.
pub open spec fn spec_bit_values(toks: Seq<Seq<char>>) -> Seq<i64>
    decreases toks.len(),
{
    if toks.len() == 0 {
        Seq::empty()
    } else {
        match spec_parse_i64(toks[0]) {
            Some(v) => seq![v] + spec_bit_values(toks.drop_first()),
            None => spec_bit_values(toks.drop_first()),
        }
    }
}

fn bit_values_from(toks: &Vec<String>, from: usize, Ghost(t): Ghost<Seq<Seq<char>>>) -> (r: Vec<
    i64,
>)
    requires
        from <= toks.len(),
        views_match(toks@, t),
    ensures
        r@ == spec_bit_values(t.skip(from as int)),
    decreases toks.len() - from,
{
    if from == toks.len() {
        proof {
            assert(t.skip(from as int) =~= Seq::<Seq<char>>::empty());
        }
        Vec::new()
    } else {
        let v = parse_i64(toks[from].as_str());
        let mut rest = bit_values_from(toks, from + 1, Ghost(t));
        proof {
            assert(t.skip(from as int).drop_first() =~= t.skip(from + 1));
            assert(t.skip(from as int)[0] == t[from as int]);
        }
        match v {
            Some(x) => {
                let mut r: Vec<i64> = Vec::new();
                r.push(x);
                r.append(&mut rest);
                proof {
                    assert(r@ =~= seq![x] + spec_bit_values(t.skip(from + 1)));
                }
                r
            },
            None => rest,
        }
    }
}

/// The white-space-separated integers of a string, unparseable parts dropped.
pub fn parse_bit_list(s: &str) -> (r: Vec<i64>)
    ensures
        r@ == spec_bit_values(spec_tokens(s@)),
{
    let toks = split_whitespace_tokens(s);
    let r = bit_values_from(&toks, 0, Ghost(spec_tokens(s@)));
    proof {
        assert(spec_tokens(s@).skip(0) =~= spec_tokens(s@));
    }
    r
}

/// The character for a hexadecimal digit, lower or upper case.
pub open spec fn char_of_hex_digit(d: int, upper: bool) -> char {
    if d < 10 {
        char_of_digit(d)
    } else if d == 10 {
        if upper {
            'A'
        } else {
            'a'
        }
    } else if d == 11 {
        if upper {
            'B'
        } else {
            'b'
        }
    } else if d == 12 {
        if upper {
            'C'
        } else {
            'c'
        }
    } else if d == 13 {
        if upper {
            'D'
        } else {
            'd'
        }
    } else if d == 14 {
        if upper {
            'E'
        } else {
            'e'
        }
    } else {
        if upper {
            'F'
        } else {
            'f'
        }
    }
}

/// The ASCII code of a hexadecimal digit character.
pub open spec fn byte_of_hex_digit(d: int, upper: bool) -> u8 {
    if d < 10 {
        (48 + d) as u8
    } else if upper {
        (55 + d) as u8
    } else {
        (87 + d) as u8
    }
}

/// Hexadecimal rendering of `n`, zero-padded on the left to at least `w`
/// digits, most significant digit first.
pub open spec fn spec_hex_pad(n: nat, w: nat, upper: bool) -> Seq<char>
    decreases n, w,
{
    if n < 16 && w <= 1 {
        seq![char_of_hex_digit(n as int, upper)]
    } else {
        spec_hex_pad(n / 16, if w == 0 { 0 } else { (w - 1) as nat }, upper) + seq![
            char_of_hex_digit((n % 16) as int, upper),
        ]
    }
}

/// The same rendering as ASCII byte values.
pub open spec fn spec_hex_pad_bytes(n: nat, w: nat, upper: bool) -> Seq<u8>
    decreases n, w,
{
    if n < 16 && w <= 1 {
        seq![byte_of_hex_digit(n as int, upper)]
    } else {
        spec_hex_pad_bytes(n / 16, if w == 0 { 0 } else { (w - 1) as nat }, upper) + seq![
            byte_of_hex_digit((n % 16) as int, upper),
        ]
    }
}

fn hex_digit_str(d: u8, upper: bool) -> (r: &'static str)
    requires
        d < 16,
    ensures
        r@ == seq![char_of_hex_digit(d as int, upper)],
{
    if d < 10 {
        digit_str(d)
    } else if d == 10 {
        if upper {
            proof { reveal_strlit("A"); }
            let r = "A";
            assert(r@ =~= seq![char_of_hex_digit(10, true)]);
            r
        } else {
            proof { reveal_strlit("a"); }
            let r = "a";
            assert(r@ =~= seq![char_of_hex_digit(10, false)]);
            r
        }
    } else if d == 11 {
        if upper {
            proof { reveal_strlit("B"); }
            let r = "B";
            assert(r@ =~= seq![char_of_hex_digit(11, true)]);
            r
        } else {
            proof { reveal_strlit("b"); }
            let r = "b";
            assert(r@ =~= seq![char_of_hex_digit(11, false)]);
            r
        }
    } else if d == 12 {
        if upper {
            proof { reveal_strlit("C"); }
            let r = "C";
            assert(r@ =~= seq![char_of_hex_digit(12, true)]);
            r
        } else {
            proof { reveal_strlit("c"); }
            let r = "c";
            assert(r@ =~= seq![char_of_hex_digit(12, false)]);
            r
        }
    } else if d == 13 {
        if upper {
            proof { reveal_strlit("D"); }
            let r = "D";
            assert(r@ =~= seq![char_of_hex_digit(13, true)]);
            r
        } else {
            proof { reveal_strlit("d"); }
            let r = "d";
            assert(r@ =~= seq![char_of_hex_digit(13, false)]);
            r
        }
    } else if d == 14 {
        if upper {
            proof { reveal_strlit("E"); }
            let r = "E";
            assert(r@ =~= seq![char_of_hex_digit(14, true)]);
            r
        } else {
            proof { reveal_strlit("e"); }
            let r = "e";
            assert(r@ =~= seq![char_of_hex_digit(14, false)]);
            r
        }
    } else {
        if upper {
            proof { reveal_strlit("F"); }
            let r = "F";
            assert(r@ =~= seq![char_of_hex_digit(15, true)]);
            r
        } else {
            proof { reveal_strlit("f"); }
            let r = "f";
            assert(r@ =~= seq![char_of_hex_digit(15, false)]);
            r
        }
    }
}

/// Hexadecimal rendering of a `u32` as a string, zero-padded to `w` digits.
pub fn hex_pad_string(n: u32, w: usize, upper: bool) -> (s: String)
    ensures
        s@ == spec_hex_pad(n as nat, w as nat, upper),
    decreases n, w,
{
    if n < 16 && w <= 1 {
        hex_digit_str(n as u8, upper).to_owned()
    } else {
        let rest: usize = if w == 0 {
            0
        } else {
            w - 1
        };
        let mut s = hex_pad_string(n / 16, rest, upper);
        s.append(hex_digit_str((n % 16) as u8, upper));
        s
    }
}

/// Hexadecimal rendering of a `u32` as ASCII bytes, zero-padded to `w` digits.
pub fn hex_pad_bytes(n: u32, w: usize, upper: bool) -> (r: Vec<u8>)
    ensures
        r@ == spec_hex_pad_bytes(n as nat, w as nat, upper),
    decreases n, w,
{
    let digit: u8 = {
        let d = (n % 16) as u8;
        if d < 10 {
            48 + d
        } else if upper {
            55 + d
        } else {
            87 + d
        }
    };
    if n < 16 && w <= 1 {
        let mut r: Vec<u8> = Vec::new();
        r.push(digit);
        proof {
            assert(r@ =~= seq![byte_of_hex_digit(n as int, upper)]);
        }
        r
    } else {
        let rest: usize = if w == 0 {
            0
        } else {
            w - 1
        };
        let mut r = hex_pad_bytes(n / 16, rest, upper);
        r.push(digit);
        proof {
            assert(r@ =~= spec_hex_pad_bytes((n / 16) as nat, rest as nat, upper) + seq![
                byte_of_hex_digit((n % 16) as int, upper),
            ]);
        }
        r
    }
}

/// `s` padded on the right with '*' to at least `w` characters.
pub open spec fn spec_pad_star(s: Seq<char>, w: nat) -> Seq<char> {
    if s.len() >= w {
        s
    } else {
        s + Seq::new((w - s.len()) as nat, |i: int| '*')
    }
}

/// Pad a name on the right with '*' to at least `w` characters.
pub fn pad_star(name: &str, w: usize) -> (r: String)
    ensures
        r@ == spec_pad_star(name@, w as nat),
{
    let mut r = name.to_owned();
    let len = name.unicode_len();
    if len >= w {
        return r;
    }
    let mut k: usize = 0;
    proof { reveal_strlit("*"); }
    while k < w - len
        invariant
            len == name@.len(),
            len < w,
            k <= w - len,
            r@ =~= name@ + Seq::new(k as nat, |i: int| '*'),
            "*"@ =~= seq!['*'],
        decreases w - len - k,
    {
        r.append("*");
        k = k + 1;
        proof {
            assert(r@ =~= name@ + Seq::new(k as nat, |i: int| '*'));
        }
    }
    r
}

/// A digit character lies in the ASCII range.
pub proof fn lemma_digit_char_ascii(c: char)
    requires
        48 <= c as u32 <= 57,
    ensures
        '\0' <= c <= '\u{7f}',
{
}

/// Digit characters are ASCII.
pub proof fn lemma_digit_chars_ascii(s: Seq<char>)
    requires
        all_digits(s),
    ensures
        all_ascii(s),
{
    assert forall|i: int| 0 <= i < s.len() implies '\0' <= #[trigger] s[i] <= '\u{7f}' by {
        assert(is_digit_char(s[i]));
        lemma_digit_char_ascii(s[i]);
    }
}

/// A signed decimal rendering is ASCII.
pub proof fn lemma_dec_signed_ascii(v: int)
    ensures
        all_ascii(spec_dec_signed(v)),
{
    if v < 0 {
        lemma_dec_digits_all_digits((-v) as nat);
        lemma_digit_chars_ascii(spec_dec_digits((-v) as nat));
        let s = spec_dec_signed(v);
        assert forall|i: int| 0 <= i < s.len() implies '\0' <= #[trigger] s[i] <= '\u{7f}' by {
            if i == 0 {
                assert(s[0] == '-');
            } else {
                assert(s[i] == spec_dec_digits((-v) as nat)[i - 1]);
            }
        }
    } else {
        lemma_dec_digits_all_digits(v as nat);
        lemma_digit_chars_ascii(spec_dec_digits(v as nat));
    }
}

/// Star-padding keeps a sequence ASCII.
pub proof fn lemma_pad_star_ascii(s: Seq<char>, w: nat)
    requires
        all_ascii(s),
    ensures
        all_ascii(spec_pad_star(s, w)),
{
    let p = spec_pad_star(s, w);
    assert forall|i: int| 0 <= i < p.len() implies '\0' <= #[trigger] p[i] <= '\u{7f}' by {
        if i < s.len() {
            assert(p[i] == s[i]);
        } else {
            assert(p[i] == '*');
        }
    }
}

/// Every character is ASCII.
pub open spec fn all_ascii(s: Seq<char>) -> bool {
    vstd::utf8::is_ascii_chars(s)
}

/// The byte values of an ASCII character sequence.
pub open spec fn spec_ascii_bytes(s: Seq<char>) -> Seq<u8> {
    Seq::new(s.len(), |i: int| s[i] as u8)
}

/// The UTF-8 bytes of an all-ASCII string, which are its characters' codes.
pub fn ascii_bytes_of(s: &str) -> (r: Vec<u8>)
    requires
        all_ascii(s@),
    ensures
        r@ == spec_ascii_bytes(s@),
{
    proof {
        vstd::string::is_ascii_spec_bytes(s);
    }
    let r = s.as_bytes_vec();
    proof {
        assert(r@ =~= spec_ascii_bytes(s@));
    }
    r
}

/// Relies on `String::from_utf8`: it succeeds exactly on valid UTF-8 input and
/// returns its decoding.
#[verifier::external_body]
pub fn utf8_string(bytes: Vec<u8>) -> (r: Option<String>)
    ensures
        r is Some <==> vstd::utf8::valid_utf8(bytes@),
        r matches Some(s) ==> s@ == vstd::utf8::decode_utf8(bytes@),
{
    String::from_utf8(bytes).ok()
}

} // verus!
