//! Text primitives used across the analyzer: lexicographic ordering of
//! strings, suffix tests, decimal rendering and parsing, case folding and
//! wildcard matching.

use vstd::prelude::*;

verus! {

/// Lexicographic "less than" on character sequences, by code point.
pub open spec fn lex_lt(a: Seq<char>, b: Seq<char>) -> bool
    decreases a.len(),
{
    if b.len() == 0 {
        false
    } else if a.len() == 0 {
        true
    } else if a[0] != b[0] {
        (a[0] as u32) < (b[0] as u32)
    } else {
        lex_lt(a.skip(1), b.skip(1))
    }
}

/// Lexicographic "less or equal" on character sequences.
pub open spec fn lex_le(a: Seq<char>, b: Seq<char>) -> bool {
    lex_lt(a, b) || a == b
}

/// The lexicographic order never holds of a sequence and itself.
pub proof fn lemma_lex_irrefl(a: Seq<char>)
    ensures
        !lex_lt(a, a),
    decreases a.len(),
{
    if a.len() > 0 {
        lemma_lex_irrefl(a.skip(1));
    }
}

/// The lexicographic order is transitive.
pub proof fn lemma_lex_trans(a: Seq<char>, b: Seq<char>, c: Seq<char>)
    requires
        lex_lt(a, b),
        lex_lt(b, c),
    ensures
        lex_lt(a, c),
    decreases a.len() + b.len() + c.len(),
{
    if c.len() == 0 {
    } else if b.len() == 0 {
    } else if a.len() == 0 {
    } else {
        if a[0] != b[0] {
            if b[0] != c[0] {
            } else {
            }
        } else if b[0] != c[0] {
        } else {
            lemma_lex_trans(a.skip(1), b.skip(1), c.skip(1));
        }
    }
}

/// Two sequences neither of which precedes the other are equal.
pub proof fn lemma_lex_total(a: Seq<char>, b: Seq<char>)
    requires
        !lex_lt(a, b),
        !lex_lt(b, a),
    ensures
        a == b,
    decreases a.len() + b.len(),
{
    if a.len() == 0 && b.len() == 0 {
        assert(a =~= b);
    } else if a.len() == 0 || b.len() == 0 {
    } else {
        if a[0] != b[0] {
            assert(!((a[0] as u32) < (b[0] as u32)));
            assert(!((b[0] as u32) < (a[0] as u32)));
            assert(a[0] as u32 == b[0] as u32);
            vstd::utf8::char_u32_cast(a[0], a[0] as u32);
            vstd::utf8::char_u32_cast(b[0], b[0] as u32);
            assert(false);
        }
        assert(a[0] == b[0]);
        lemma_lex_total(a.skip(1), b.skip(1));
        assert(a =~= seq![a[0]] + a.skip(1));
        assert(b =~= seq![b[0]] + b.skip(1));
    }
}

/// Compares two strings in lexicographic code-point order.
pub fn str_lt(a: &String, b: &String) -> (r: bool)
    ensures
        r == lex_lt(a@, b@),
    decreases a@.len(),
{
    let a_len: usize = a.as_str().unicode_len();
    let b_len: usize = b.as_str().unicode_len();
    if b_len == 0 {
        false
    } else if a_len == 0 {
        true
    } else {
        let ca: char = a.as_str().get_char(0);
        let cb: char = b.as_str().get_char(0);
        if ca != cb {
            (ca as u32) < (cb as u32)
        } else {
            let a_rest: String = String::from_str(a.as_str().substring_char(1, a_len));
            let b_rest: String = String::from_str(b.as_str().substring_char(1, b_len));
            assert(a_rest@ == a@.skip(1));
            assert(b_rest@ == b@.skip(1));
            str_lt(&a_rest, &b_rest)
        }
    }
}

/// Whether `s` ends with the character sequence `suffix`.
pub open spec fn ends_with(s: Seq<char>, suffix: Seq<char>) -> bool {
    s.len() >= suffix.len() && s.skip(s.len() - suffix.len()) == suffix
}

/// Suffix test on strings.
pub fn str_ends_with(s: &String, suffix: &String) -> (r: bool)
    ensures
        r == ends_with(s@, suffix@),
{
    let s_len: usize = s.as_str().unicode_len();
    let suf_len: usize = suffix.as_str().unicode_len();
    if s_len < suf_len {
        false
    } else {
        let tail: String = String::from_str(s.as_str().substring_char(s_len - suf_len, s_len));
        assert(tail@ == s@.skip(s@.len() - suffix@.len()));
        tail == *suffix
    }
}

/// ASCII case folding on a single code point: upper-case letters map to their
/// lower-case counterpart, everything else is unchanged.
pub open spec fn lower_code(c: char) -> int {
    if 65 <= c as u32 && c as u32 <= 90 {
        c as u32 + 32
    } else {
        c as u32 as int
    }
}

/// Equality of character sequences up to ASCII case.
pub open spec fn ci_equal(a: Seq<char>, b: Seq<char>) -> bool {
    a.len() == b.len() && forall|i: int| 0 <= i < a.len() ==> lower_code(a[i]) == lower_code(b[i])
}

/// Case-insensitive (ASCII) string equality.
pub fn str_ci_eq(a: &String, b: &String) -> (r: bool)
    ensures
        r == ci_equal(a@, b@),
{
    let a_len: usize = a.as_str().unicode_len();
    let b_len: usize = b.as_str().unicode_len();
    if a_len != b_len {
        return false;
    }
    let mut i: usize = 0;
    while i < a_len
        invariant
            a_len == a@.len(),
            b_len == b@.len(),
            a_len == b_len,
            i <= a_len,
            forall|j: int| 0 <= j < i ==> lower_code(a@[j]) == lower_code(b@[j]),
        decreases a_len - i,
    {
        let ca: char = a.as_str().get_char(i);
        let cb: char = b.as_str().get_char(i);
        let code_a: u32 = ca as u32;
        let code_b: u32 = cb as u32;
        let la: u32 = if 65 <= code_a && code_a <= 90 { code_a + 32 } else { code_a };
        let lb: u32 = if 65 <= code_b && code_b <= 90 { code_b + 32 } else { code_b };
        if la != lb {
            return false;
        }
        i = i + 1;
    }
    true
}

/// Whether `sub` occurs in `s` starting at position `i`.
pub open spec fn is_sub_at(s: Seq<char>, sub: Seq<char>, i: int) -> bool {
    0 <= i && i + sub.len() <= s.len() && s.subrange(i, i + sub.len()) == sub
}

/// Whether `sub` occurs anywhere in `s`.
pub open spec fn contains_sub(s: Seq<char>, sub: Seq<char>) -> bool {
    exists|i: int| is_sub_at(s, sub, i)
}

/// Substring search.
pub fn str_contains_sub(s: &String, sub: &String) -> (r: bool)
    ensures
        r == contains_sub(s@, sub@),
{
    let s_len: usize = s.as_str().unicode_len();
    let sub_len: usize = sub.as_str().unicode_len();
    if sub_len > s_len {
        assert(forall|i: int| !is_sub_at(s@, sub@, i));
        return false;
    }
    if sub_len == 0 {
        assert(s@.subrange(0, 0) =~= sub@);
        assert(is_sub_at(s@, sub@, 0));
        return true;
    }
    let mut i: usize = 0;
    while i <= s_len - sub_len
        invariant
            s_len == s@.len(),
            sub_len == sub@.len(),
            0 < sub_len <= s_len,
            i <= s_len - sub_len + 1,
            forall|j: int| 0 <= j < i ==> !is_sub_at(s@, sub@, j),
        decreases s_len - sub_len - i + 1,
    {
        let piece: String = String::from_str(s.as_str().substring_char(i, i + sub_len));
        assert(piece@ == s@.subrange(i as int, i + sub@.len()));
        if piece == *sub {
            assert(is_sub_at(s@, sub@, i as int));
            return true;
        }
        i = i + 1;
    }
    assert forall|j: int| !is_sub_at(s@, sub@, j) by {
        if 0 <= j && j + sub@.len() <= s@.len() {
            assert(j < i);
        }
    }
    false
}

/// The character for a decimal digit value.
pub open spec fn digit_char(d: int) -> char {
    if d == 0 { '0' }
    else if d == 1 { '1' }
    else if d == 2 { '2' }
    else if d == 3 { '3' }
    else if d == 4 { '4' }
    else if d == 5 { '5' }
    else if d == 6 { '6' }
    else if d == 7 { '7' }
    else if d == 8 { '8' }
    else { '9' }
}

/// Decimal rendering of a natural number, most significant digit first.
pub open spec fn dec_of(n: nat) -> Seq<char>
    decreases n,
{
    if n < 10 {
        seq![digit_char(n as int)]
    } else {
        dec_of(n / 10) + seq![digit_char((n % 10) as int)]
    }
}

fn digit_str(d: u64) -> (s: &'static str)
    requires
        d < 10,
    ensures
        s@ =~= seq![digit_char(d as int)],
{
    proof {
        reveal_strlit("0");
        reveal_strlit("1");
        reveal_strlit("2");
        reveal_strlit("3");
        reveal_strlit("4");
        reveal_strlit("5");
        reveal_strlit("6");
        reveal_strlit("7");
        reveal_strlit("8");
        reveal_strlit("9");
    }
    if d == 0 { "0" }
    else if d == 1 { "1" }
    else if d == 2 { "2" }
    else if d == 3 { "3" }
    else if d == 4 { "4" }
    else if d == 5 { "5" }
    else if d == 6 { "6" }
    else if d == 7 { "7" }
    else if d == 8 { "8" }
    else { "9" }
}

/// Renders a number in decimal.
pub fn u64_to_string(n: u64) -> (r: String)
    ensures
        r@ == dec_of(n as nat),
    decreases n,
{
    if n < 10 {
        let s: String = String::from_str(digit_str(n));
        assert(s@ =~= dec_of(n as nat));
        s
    } else {
        let mut head: String = u64_to_string(n / 10);
        head.append(digit_str(n % 10));
        assert(head@ =~= dec_of(n as nat));
        head
    }
}

/// Whether `c` is a decimal digit.
pub open spec fn is_digit(c: char) -> bool {
    48 <= c as u32 && c as u32 <= 57
}

/// The value of a decimal digit character.
pub open spec fn digit_val(c: char) -> int {
    c as u32 - 48
}

/// Whether every character of `s` is a decimal digit.
pub open spec fn all_digits(s: Seq<char>) -> bool {
    forall|i: int| 0 <= i < s.len() ==> is_digit(s[i])
}

/// The numeric value of a digit sequence, most significant digit first.
pub open spec fn digits_val(s: Seq<char>) -> int
    decreases s.len(),
{
    if s.len() == 0 {
        0
    } else {
        digits_val(s.drop_last()) * 10 + digit_val(s.last())
    }
}

/// The meaning of a string as a signed number: an optional leading minus sign
/// followed by one to eighteen decimal digits; anything else has none.
pub open spec fn int_of_text(s: Seq<char>) -> Option<i64> {
    if s.len() > 0 && s[0] == '-' {
        let ds = s.skip(1);
        if 1 <= ds.len() <= 18 && all_digits(ds) {
            Some((-digits_val(ds)) as i64)
        } else {
            None
        }
    } else {
        if 1 <= s.len() <= 18 && all_digits(s) {
            Some(digits_val(s) as i64)
        } else {
            None
        }
    }
}

proof fn lemma_digits_val_bound(s: Seq<char>, bound: int)
    requires
        all_digits(s),
        s.len() <= bound,
        0 <= bound,
    ensures
        0 <= digits_val(s) < pow10(bound),
    decreases s.len(),
{
    if s.len() == 0 {
        lemma_pow10_pos(bound);
    } else {
        assert(all_digits(s.drop_last())) by {
            assert(forall|i: int| 0 <= i < s.len() - 1 ==> is_digit(s.drop_last()[i]) == is_digit(s[i]));
        }
        lemma_digits_val_bound(s.drop_last(), bound - 1);
        assert(is_digit(s.last()));
        assert(pow10(bound) == 10 * pow10(bound - 1));
    }
}

/// Powers of ten.
pub open spec fn pow10(k: int) -> int
    decreases k,
{
    if k <= 0 {
        1
    } else {
        10 * pow10(k - 1)
    }
}

proof fn lemma_pow10_pos(k: int)
    ensures
        pow10(k) >= 1,
    decreases k,
{
    if k > 0 {
        lemma_pow10_pos(k - 1);
    }
}

fn parse_digits(s: &String, from: usize, len: usize) -> (r: u64)
    requires
        from <= len <= s@.len(),
        len - from <= 18,
        forall|i: int| from <= i < len ==> is_digit(s@[i]),
    ensures
        r == digits_val(s@.subrange(from as int, len as int)),
        r < 1000000000000000000u64,
{
    let mut i: usize = from;
    let mut acc: u64 = 0;
    proof {
        assert(s@.subrange(from as int, from as int) =~= Seq::<char>::empty());
    }
    while i < len
        invariant
            from <= i <= len <= s@.len(),
            len - from <= 18,
            forall|k: int| from <= k < len ==> is_digit(s@[k]),
            acc == digits_val(s@.subrange(from as int, i as int)),
            acc < pow10(i - from),
        decreases len - i,
    {
        let c: char = s.as_str().get_char(i);
        let d: u64 = (c as u32) as u64 - 48;
        proof {
            let pre = s@.subrange(from as int, i as int);
            let cur = s@.subrange(from as int, i + 1);
            assert(cur.drop_last() =~= pre);
            assert(cur.last() == s@[i as int]);
            lemma_digits_val_bound(pre, 18);
            assert(pow10(i - from) <= pow10(18)) by {
                lemma_pow10_mono(i - from, 18);
            }
            assert(pow10(18) == 1000000000000000000) by {
                reveal_with_fuel(pow10, 19);
            }
        }
        acc = acc * 10 + d;
        i = i + 1;
        proof {
            assert(pow10(i - from) == 10 * pow10(i - 1 - from));
        }
    }
    proof {
        lemma_pow10_mono(len - from, 18);
        assert(pow10(18) == 1000000000000000000) by {
            reveal_with_fuel(pow10, 19);
        }
    }
    acc
}

proof fn lemma_pow10_mono(a: int, b: int)
    requires
        a <= b,
    ensures
        pow10(a) <= pow10(b),
    decreases b - a,
{
    if a < b {
        lemma_pow10_mono(a, b - 1);
        lemma_pow10_pos(b - 1);
    }
}

/// Parses a string as a signed number, exactly when `int_of_text` gives one.
#[verifier::loop_isolation(false)]
pub fn parse_int(s: &String) -> (r: Option<i64>)
    ensures
        r == int_of_text(s@),
{
    let s_len: usize = s.as_str().unicode_len();
    if s_len == 0 {
        return None;
    }
    let neg: bool = s.as_str().get_char(0) == '-';
    let from: usize = if neg { 1 } else { 0 };
    if s_len - from < 1 || s_len - from > 18 {
        return None;
    }
    let mut i: usize = from;
    while i < s_len
        invariant
            from <= i <= s_len,
            s_len == s@.len(),
            forall|k: int| from <= k < i ==> is_digit(s@[k]),
        decreases s_len - i,
    {
        let c: char = s.as_str().get_char(i);
        let code: u32 = c as u32;
        if code < 48 || code > 57 {
            proof {
                assert(!is_digit(s@[i as int]));
                if neg {
                    let ds = s@.skip(1);
                    assert(ds[i - 1] == s@[i as int]);
                    assert(!all_digits(ds)) by {
                        if all_digits(ds) {
                            assert(is_digit(ds[i - 1]));
                        }
                    }
                } else {
                    assert(!all_digits(s@)) by {
                        if all_digits(s@) {
                            assert(is_digit(s@[i as int]));
                        }
                    }
                }
            }
            return None;
        }
        i = i + 1;
    }
    let mag: u64 = parse_digits(s, from, s_len);
    proof {
        if neg {
            let ds = s@.skip(1);
            assert(ds =~= s@.subrange(1, s@.len() as int));
            assert(all_digits(ds)) by {
                assert(forall|j: int| 0 <= j < ds.len() ==> ds[j] == s@[j + 1]);
            }
        } else {
            assert(s@ =~= s@.subrange(0, s@.len() as int));
        }
    }
    if neg {
        Some(-(mag as i64))
    } else {
        Some(mag as i64)
    }
}

/// Glob-style matching: `*` matches any run of characters, `?` any single
/// character, all else matches itself.
pub open spec fn wild_match(p: Seq<char>, t: Seq<char>) -> bool
    decreases p.len() + t.len(),
{
    if p.len() == 0 {
        t.len() == 0
    } else if p[0] == '*' {
        wild_match(p.skip(1), t) || (t.len() > 0 && wild_match(p, t.skip(1)))
    } else {
        t.len() > 0 && (p[0] == '?' || p[0] == t[0]) && wild_match(p.skip(1), t.skip(1))
    }
}

/// Wildcard matching of `text` against `pattern`.
pub fn str_wild_match(pattern: &String, text: &String) -> (r: bool)
    ensures
        r == wild_match(pattern@, text@),
    decreases pattern@.len() + text@.len(),
{
    let p_len: usize = pattern.as_str().unicode_len();
    let t_len: usize = text.as_str().unicode_len();
    if p_len == 0 {
        return t_len == 0;
    }
    let pc: char = pattern.as_str().get_char(0);
    let p_rest: String = String::from_str(pattern.as_str().substring_char(1, p_len));
    assert(p_rest@ == pattern@.skip(1));
    if pc == '*' {
        if str_wild_match(&p_rest, text) {
            return true;
        }
        if t_len == 0 {
            return false;
        }
        let t_rest: String = String::from_str(text.as_str().substring_char(1, t_len));
        assert(t_rest@ == text@.skip(1));
        str_wild_match(pattern, &t_rest)
    } else {
        if t_len == 0 {
            return false;
        }
        let tc: char = text.as_str().get_char(0);
        if pc != '?' && pc != tc {
            return false;
        }
        let t_rest: String = String::from_str(text.as_str().substring_char(1, t_len));
        assert(t_rest@ == text@.skip(1));
        str_wild_match(&p_rest, &t_rest)
    }
}

} // verus!
