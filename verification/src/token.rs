//! Opaque access tokens.
//!
//! A token is a pair of 60-bit numbers. Its text is twenty characters of the
//! URL-safe base-64 alphabet (`A`-`Z`, `a`-`z`, `0`-`9`, `-`, `_`): ten
//! digits for each number, most significant digit first. Reading text also
//! accepts `+` for `-` and `/` for `_`, as the standard base-64 alphabet
//! writes them.
use vstd::arithmetic::div_mod::*;
use vstd::prelude::*;
use vstd::string::*;
use vstd::utf8::*;

verus! {

/// One past the largest value a token part can hold: 2^60.
pub open spec fn part_limit() -> nat {
    0x1000_0000_0000_0000
}

/// 64 to the power `n`.
pub open spec fn pow64(n: nat) -> nat
    decreases n,
{
    if n == 0 {
        1
    } else {
        64 * pow64((n - 1) as nat)
    }
}

/// The character (as a byte) that writes the base-64 digit `d`.
pub open spec fn digit_symbol(d: nat) -> u8 {
    if d < 26 {
        (65 + d) as u8
    } else if d < 52 {
        (97 + d - 26) as u8
    } else if d < 62 {
        (48 + d - 52) as u8
    } else if d == 62 {
        45u8
    } else {
        95u8
    }
}

/// The base-64 digit that the byte `b` stands for, if it stands for one.
pub open spec fn symbol_value(b: u8) -> Option<nat> {
    if 65 <= b <= 90 {
        Some((b - 65) as nat)
    } else if 97 <= b <= 122 {
        Some((b - 97 + 26) as nat)
    } else if 48 <= b <= 57 {
        Some((b - 48 + 52) as nat)
    } else if b == 43 || b == 45 {
        Some(62)
    } else if b == 47 || b == 95 {
        Some(63)
    } else {
        None
    }
}

/// The byte belongs to the URL-safe alphabet that token texts are written in.
pub open spec fn url_safe_symbol(b: u8) -> bool {
    ||| 65 <= b <= 90
    ||| 97 <= b <= 122
    ||| 48 <= b <= 57
    ||| b == 45
    ||| b == 95
}

/// Every byte of `s` stands for a base-64 digit.
pub open spec fn all_symbols(s: Seq<u8>) -> bool {
    forall|i: int| 0 <= i < s.len() ==> (#[trigger] symbol_value(s[i])) is Some
}

/// Every byte of `s` belongs to the URL-safe alphabet.
pub open spec fn all_url_safe(s: Seq<u8>) -> bool {
    forall|i: int| 0 <= i < s.len() ==> #[trigger] url_safe_symbol(s[i])
}

/// The `n` lowest base-64 digits of `v`, most significant first.
pub open spec fn digits_of(v: nat, n: nat) -> Seq<u8>
    decreases n,
{
    if n == 0 {
        seq![]
    } else {
        digits_of(v / 64, (n - 1) as nat).push(digit_symbol(v % 64))
    }
}

/// The number that the base-64 digits `s` write, most significant first.
pub open spec fn digits_value(s: Seq<u8>) -> nat
    decreases s.len(),
{
    if s.len() == 0 {
        0
    } else {
        digits_value(s.drop_last()) * 64 + match symbol_value(s.last()) {
            Some(d) => d,
            None => 0,
        }
    }
}

/// The bytes of the text of the token whose parts are `p`.
pub open spec fn token_text_bytes(p: (nat, nat)) -> Seq<u8> {
    digits_of(p.0, 10) + digits_of(p.1, 10)
}

/// The text of the token whose parts are `p`.
pub open spec fn token_text(p: (nat, nat)) -> Seq<char> {
    token_text_bytes(p).map_values(|b: u8| b as char)
}

/// The parts of the token that the bytes `b` write, if they write one:
/// twenty digits, ten for each part.
pub open spec fn parse_token_text(b: Seq<u8>) -> Option<(nat, nat)> {
    if b.len() == 20 && all_symbols(b) {
        Some((digits_value(b.subrange(0, 10)), digits_value(b.subrange(10, 20))))
    } else {
        None
    }
}

/// The error for a text that does not write a token.
#[derive(Clone, Debug, PartialEq, Eq, Structural)]
pub struct InvalidTokenError;

/// An access token: two numbers of 60 bits each.
#[derive(Debug, PartialEq, Eq, Structural)]
pub struct Token(u64, u64);

impl Clone for Token {
    fn clone(&self) -> (t: Token)
        ensures
            t == *self,
    {
        proof {
            use_type_invariant(self);
        }
        Token(self.0, self.1)
    }
}

impl Token {
    #[verifier::type_invariant]
    spec fn parts_fit(self) -> bool {
        self.0 < part_limit() && self.1 < part_limit()
    }
}

impl View for Token {
    type V = (nat, nat);

    closed spec fn view(&self) -> (nat, nat) {
        (self.0 as nat, self.1 as nat)
    }
}

proof fn lemma_low_bits(x: u64)
    ensures
        x & 0x0FFF_FFFF_FFFF_FFFFu64 == x % 0x1000_0000_0000_0000u64,
{
    assert(x & 0x0FFF_FFFF_FFFF_FFFFu64 == x % 0x1000_0000_0000_0000u64) by (bit_vector);
}

proof fn lemma_pow64_positive(n: nat)
    ensures
        pow64(n) > 0,
    decreases n,
{
    if n > 0 {
        lemma_pow64_positive((n - 1) as nat);
    }
}

proof fn lemma_pow64_monotone(m: nat, n: nat)
    requires
        m <= n,
    ensures
        pow64(m) <= pow64(n),
    decreases n,
{
    if m < n {
        lemma_pow64_monotone(m, (n - 1) as nat);
        lemma_pow64_positive((n - 1) as nat);
    }
}

proof fn lemma_pow64_ten()
    ensures
        pow64(10) == part_limit(),
{
    reveal_with_fuel(pow64, 11);
}

proof fn lemma_symbol_roundtrip(d: nat)
    requires
        d < 64,
    ensures
        symbol_value(digit_symbol(d)) == Some(d),
        url_safe_symbol(digit_symbol(d)),
{
}

proof fn lemma_url_safe_symbol(b: u8)
    requires
        url_safe_symbol(b),
    ensures
        symbol_value(b) is Some,
        symbol_value(b).unwrap() < 64,
        digit_symbol(symbol_value(b).unwrap()) == b,
{
}

proof fn lemma_symbol_value_below_64(b: u8)
    ensures
        symbol_value(b) matches Some(d) ==> d < 64,
{
}

proof fn lemma_digits_shape(v: nat, n: nat)
    ensures
        digits_of(v, n).len() == n,
        all_url_safe(digits_of(v, n)),
    decreases n,
{
    if n > 0 {
        lemma_digits_shape(v / 64, (n - 1) as nat);
        lemma_symbol_roundtrip(v % 64);
    }
}

/// Writing one more digit adds, in front, the digit of weight `64^m`.
proof fn lemma_digits_prepend(v: nat, m: nat)
    ensures
        digits_of(v, m + 1) == seq![digit_symbol((v / pow64(m)) % 64)] + digits_of(v, m),
    decreases m,
{
    if m == 0 {
        assert(pow64(0) == 1);
        assert(v / 1 == v);
        assert(digits_of(v / 64, 0) =~= Seq::<u8>::empty());
        assert(digits_of(v, 1) =~= seq![digit_symbol((v / pow64(0)) % 64)] + digits_of(v, 0));
    } else {
        lemma_digits_prepend(v / 64, (m - 1) as nat);
        lemma_pow64_positive((m - 1) as nat);
        lemma_div_denominator(v as int, 64, pow64((m - 1) as nat) as int);
        assert(v / 64 / pow64((m - 1) as nat) == v / pow64(m));
        assert(digits_of(v, m + 1) =~= seq![digit_symbol((v / pow64(m)) % 64)] + digits_of(v, m));
    }
}

/// Reading back the `n` digits of `v` gives `v` modulo `64^n`.
proof fn lemma_digits_value(v: nat, n: nat)
    ensures
        all_symbols(digits_of(v, n)),
        digits_value(digits_of(v, n)) == v % pow64(n),
    decreases n,
{
    if n == 0 {
    } else {
        let s = digits_of(v, n);
        lemma_digits_value(v / 64, (n - 1) as nat);
        lemma_symbol_roundtrip(v % 64);
        assert(s.drop_last() =~= digits_of(v / 64, (n - 1) as nat));
        lemma_pow64_positive((n - 1) as nat);
        lemma_mod_breakdown(v as int, 64, pow64((n - 1) as nat) as int);
        assert forall|i: int| 0 <= i < s.len() implies (#[trigger] symbol_value(s[i])) is Some by {
            if i < s.len() - 1 {
                assert(s[i] == s.drop_last()[i]);
            }
        }
    }
}

/// Digits in the URL-safe alphabet are the digits of the number they write.
proof fn lemma_value_digits(s: Seq<u8>)
    requires
        all_url_safe(s),
    ensures
        all_symbols(s),
        digits_value(s) < pow64(s.len()),
        digits_of(digits_value(s), s.len()) == s,
    decreases s.len(),
{
    if s.len() > 0 {
        let init = s.drop_last();
        assert(all_url_safe(init)) by {
            assert forall|i: int| 0 <= i < init.len() implies #[trigger] url_safe_symbol(
                init[i],
            ) by {
                assert(init[i] == s[i]);
            }
        }
        lemma_value_digits(init);
        lemma_url_safe_symbol(s.last());
        let d = symbol_value(s.last()).unwrap();
        let v = digits_value(s);
        assert(v == digits_value(init) * 64 + d);
        lemma_fundamental_div_mod_converse(v as int, 64, digits_value(init) as int, d as int);
        assert(digits_of(v, s.len()) =~= s);
        assert forall|i: int| 0 <= i < s.len() implies (#[trigger] symbol_value(s[i])) is Some by {
            lemma_url_safe_symbol(s[i]);
        }
    }
}

/// Reading the text of a token gives back its parts.
pub proof fn lemma_parse_token_text(p: (nat, nat))
    requires
        p.0 < part_limit(),
        p.1 < part_limit(),
    ensures
        parse_token_text(token_text_bytes(p)) == Some(p),
{
    let b = token_text_bytes(p);
    lemma_digits_shape(p.0, 10);
    lemma_digits_shape(p.1, 10);
    lemma_digits_value(p.0, 10);
    lemma_digits_value(p.1, 10);
    lemma_pow64_ten();
    assert(b.subrange(0, 10) =~= digits_of(p.0, 10));
    assert(b.subrange(10, 20) =~= digits_of(p.1, 10));
    assert forall|i: int| 0 <= i < b.len() implies (#[trigger] symbol_value(b[i])) is Some by {
        if i < 10 {
            assert(b[i] == digits_of(p.0, 10)[i]);
        } else {
            assert(b[i] == digits_of(p.1, 10)[i - 10]);
        }
    }
}

/// A text in the URL-safe alphabet that writes a token is the text of
/// that token.
pub proof fn lemma_token_text_of_parse(b: Seq<u8>)
    requires
        parse_token_text(b) is Some,
        all_url_safe(b),
    ensures
        token_text_bytes(parse_token_text(b).unwrap()) == b,
{
    let lo = b.subrange(0, 10);
    let hi = b.subrange(10, 20);
    assert(all_url_safe(lo)) by {
        assert forall|i: int| 0 <= i < lo.len() implies #[trigger] url_safe_symbol(lo[i]) by {
            assert(lo[i] == b[i]);
        }
    }
    assert(all_url_safe(hi)) by {
        assert forall|i: int| 0 <= i < hi.len() implies #[trigger] url_safe_symbol(hi[i]) by {
            assert(hi[i] == b[i + 10]);
        }
    }
    lemma_value_digits(lo);
    lemma_value_digits(hi);
    assert(token_text_bytes(parse_token_text(b).unwrap()) =~= b);
}

/// The text of every token is twenty bytes of the URL-safe alphabet; as a
/// string it is ASCII, so its UTF-8 bytes are its characters, and its
/// middle falls between two characters.
pub proof fn lemma_token_text_shape(p: (nat, nat))
    ensures
        token_text_bytes(p).len() == 20,
        all_url_safe(token_text_bytes(p)),
        is_ascii_chars(token_text(p)),
        encode_utf8(token_text(p)) == token_text_bytes(p),
        is_char_boundary(token_text_bytes(p), 10),
{
    let b = token_text_bytes(p);
    let c = token_text(p);
    lemma_digits_shape(p.0, 10);
    lemma_digits_shape(p.1, 10);
    assert forall|i: int| 0 <= i < b.len() implies #[trigger] url_safe_symbol(b[i]) by {
        if i < 10 {
            assert(b[i] == digits_of(p.0, 10)[i]);
        } else {
            assert(b[i] == digits_of(p.1, 10)[i - 10]);
        }
    }
    assert(is_ascii_chars(c)) by {
        assert forall|i: int| 0 <= i < c.len() implies '\0' <= #[trigger] c[i] <= '\u{7f}' by {
            assert(url_safe_symbol(b[i]));
        }
    }
    is_ascii_chars_encode_utf8(c);
    assert forall|i: int| 0 <= i < c.len() implies #[trigger] encode_utf8(c)[i] == b[i] by {
        assert(c[i] as u8 == encode_utf8(c)[i]);
        assert(url_safe_symbol(b[i]));
    }
    assert(encode_utf8(c) =~= b);
    encode_utf8_valid_utf8(c);
    is_char_boundary_iff_not_is_continuation_byte(b, 10);
}

/// Reading the text of a token gives back its parts: the text's UTF-8
/// bytes are twenty, split between two characters in the middle, and
/// parse to the token's parts.
pub proof fn lemma_text_reads_back(p: (nat, nat))
    requires
        p.0 < part_limit(),
        p.1 < part_limit(),
    ensures
        encode_utf8(token_text(p)).len() == 20,
        is_char_boundary(encode_utf8(token_text(p)), 10),
        parse_token_text(encode_utf8(token_text(p))) == Some(p),
{
    lemma_token_text_shape(p);
    lemma_parse_token_text(p);
}

/// Tokens with the same parts are the same token.
pub proof fn lemma_token_view_injective(a: Token, b: Token)
    ensures
        a@ == b@ ==> a == b,
{
}

/// The digits are written in the URL-safe base-64 alphabet, in its order:
/// digit `d` is the `d`-th character of
/// `ABCDEFGHIJKLMNOPQRSTUVWXYZabcdefghijklmnopqrstuvwxyz0123456789-_`.
pub proof fn law_digit_alphabet(d: nat)
    requires
        d < 64,
    ensures
        d < 26 ==> digit_symbol(d) == 'A' as u8 + d,
        26 <= d < 52 ==> digit_symbol(d) == 'a' as u8 + (d - 26),
        52 <= d < 62 ==> digit_symbol(d) == '0' as u8 + (d - 52),
        d == 62 ==> digit_symbol(d) == '-' as u8,
        d == 63 ==> digit_symbol(d) == '_' as u8,
        digit_symbol(d) as char
            == "ABCDEFGHIJKLMNOPQRSTUVWXYZabcdefghijklmnopqrstuvwxyz0123456789-_"@[d as int],
{
    reveal_strlit("ABCDEFGHIJKLMNOPQRSTUVWXYZabcdefghijklmnopqrstuvwxyz0123456789-_");
}

/// The bytes that stand for a digit are exactly those of the URL-safe
/// alphabet together with `+` and `/`; each stands for the digit that the
/// alphabet writes with it, `+` for 62 and `/` for 63.
pub proof fn law_symbol_values(b: u8)
    ensures
        symbol_value(b) is Some <==> ('A' as u8 <= b <= 'Z' as u8 || 'a' as u8 <= b <= 'z' as u8
            || '0' as u8 <= b <= '9' as u8 || b == '-' as u8 || b == '_' as u8 || b == '+' as u8
            || b == '/' as u8),
        symbol_value(b) matches Some(d) ==> d < 64 && (digit_symbol(d) == b || (b == '+' as u8
            && d == 62) || (b == '/' as u8 && d == 63)),
        b == '+' as u8 ==> symbol_value(b) == Some(62nat),
        b == '/' as u8 ==> symbol_value(b) == Some(63nat),
{
}

/// A text reads as a token only where it is twenty bytes, each of the
/// URL-safe alphabet or `+` or `/`.
pub proof fn law_parse_needs_alphabet(b: Seq<u8>)
    ensures
        parse_token_text(b) is Some <==> (b.len() == 20 && forall|i: int|
            0 <= i < b.len() ==> ('A' as u8 <= #[trigger] b[i] <= 'Z' as u8 || 'a' as u8 <= b[i]
                <= 'z' as u8 || '0' as u8 <= b[i] <= '9' as u8 || b[i] == '-' as u8 || b[i]
                == '_' as u8 || b[i] == '+' as u8 || b[i] == '/' as u8)),
{
    let cond = forall|i: int|
        0 <= i < b.len() ==> ('A' as u8 <= #[trigger] b[i] <= 'Z' as u8 || 'a' as u8 <= b[i]
            <= 'z' as u8 || '0' as u8 <= b[i] <= '9' as u8 || b[i] == '-' as u8 || b[i]
            == '_' as u8 || b[i] == '+' as u8 || b[i] == '/' as u8);
    if all_symbols(b) {
        assert forall|i: int| 0 <= i < b.len() implies ('A' as u8 <= #[trigger] b[i] <= 'Z' as u8
            || 'a' as u8 <= b[i] <= 'z' as u8 || '0' as u8 <= b[i] <= '9' as u8 || b[i] == '-' as u8
            || b[i] == '_' as u8 || b[i] == '+' as u8 || b[i] == '/' as u8) by {
            assert(symbol_value(b[i]) is Some);
            law_symbol_values(b[i]);
        }
    }
    if cond {
        assert forall|i: int| 0 <= i < b.len() implies (#[trigger] symbol_value(b[i])) is Some by {
            law_symbol_values(b[i]);
        }
    }
}

/// Digit `k` of the `n` digits of `v` is the digit of weight `64^(n-1-k)`.
proof fn lemma_digit_at(v: nat, n: nat, k: int)
    requires
        0 <= k < n,
    ensures
        digits_of(v, n).len() == n,
        digits_of(v, n)[k] == digit_symbol((v / pow64((n - 1 - k) as nat)) % 64),
    decreases n,
{
    lemma_digits_shape(v, n);
    if k < n - 1 {
        lemma_digit_at(v / 64, (n - 1) as nat, k);
        lemma_pow64_positive((n - 2 - k) as nat);
        lemma_div_denominator(v as int, 64, pow64((n - 2 - k) as nat) as int);
        assert(digits_of(v, n)[k] == digits_of(v / 64, (n - 1) as nat)[k]);
    } else {
        assert(pow64(0) == 1);
        assert(v / 1 == v);
    }
}

/// The value that digits write: digit `k` of `s` stands for the digit of
/// weight `64^(len-1-k)` of the value, and the value is below `64^len`.
proof fn lemma_value_digit_at(s: Seq<u8>, k: int)
    requires
        all_symbols(s),
        0 <= k < s.len(),
    ensures
        digits_value(s) < pow64(s.len()),
        symbol_value(s[k]) == Some((digits_value(s) / pow64((s.len() - 1 - k) as nat)) % 64),
    decreases s.len(),
{
    let init = s.drop_last();
    assert(all_symbols(init)) by {
        assert forall|i: int| 0 <= i < init.len() implies (#[trigger] symbol_value(init[i])) is Some by {
            assert(init[i] == s[i]);
        }
    }
    assert(symbol_value(s.last()) is Some);
    lemma_symbol_value_below_64(s.last());
    let d = symbol_value(s.last()).unwrap();
    let v = digits_value(s);
    if init.len() > 0 {
        lemma_value_digit_at(init, 0);
    } else {
        assert(digits_value(init) == 0);
    }
    lemma_fundamental_div_mod_converse(v as int, 64, digits_value(init) as int, d as int);
    if k < s.len() - 1 {
        lemma_value_digit_at(init, k);
        assert(init[k] == s[k]);
        lemma_pow64_positive((s.len() - 2 - k) as nat);
        lemma_div_denominator(v as int, 64, pow64((s.len() - 2 - k) as nat) as int);
    } else {
        assert(pow64(0) == 1);
        assert(v / 1 == v);
    }
}

/// The text of a token writes its first part in its first ten characters
/// and its second part in the last ten, each most significant digit first:
/// character `k` of a part's ten is the digit of weight `64^(9-k)`.
pub proof fn law_token_text_digits(p: (nat, nat), k: int)
    requires
        0 <= k < 10,
    ensures
        token_text_bytes(p).len() == 20,
        token_text_bytes(p)[k] == digit_symbol((p.0 / pow64((9 - k) as nat)) % 64),
        token_text_bytes(p)[10 + k] == digit_symbol((p.1 / pow64((9 - k) as nat)) % 64),
{
    lemma_digit_at(p.0, 10, k);
    lemma_digit_at(p.1, 10, k);
}

/// A text that reads as a token gives parts below 2^60 whose digits are
/// the ones it writes: byte `k` of the first ten stands for the digit of
/// weight `64^(9-k)` of the first part, and so for the last ten and the
/// second part.
pub proof fn law_parse_token_digits(b: Seq<u8>, k: int)
    requires
        parse_token_text(b) is Some,
        0 <= k < 10,
    ensures
        parse_token_text(b).unwrap().0 < part_limit(),
        parse_token_text(b).unwrap().1 < part_limit(),
        symbol_value(b[k]) == Some((parse_token_text(b).unwrap().0 / pow64((9 - k) as nat)) % 64),
        symbol_value(b[10 + k]) == Some(
            (parse_token_text(b).unwrap().1 / pow64((9 - k) as nat)) % 64,
        ),
{
    let lo = b.subrange(0, 10);
    let hi = b.subrange(10, 20);
    assert(all_symbols(lo)) by {
        assert forall|i: int| 0 <= i < lo.len() implies (#[trigger] symbol_value(lo[i])) is Some by {
            assert(lo[i] == b[i]);
        }
    }
    assert(all_symbols(hi)) by {
        assert forall|i: int| 0 <= i < hi.len() implies (#[trigger] symbol_value(hi[i])) is Some by {
            assert(hi[i] == b[i + 10]);
        }
    }
    lemma_value_digit_at(lo, k);
    lemma_value_digit_at(hi, k);
    assert(lo[k] == b[k]);
    assert(hi[k] == b[10 + k]);
    lemma_pow64_ten();
}

/// A token part holds the 60 low bits of a number: it is below 2^60.
pub proof fn law_part_limit()
    ensures
        part_limit() == 0x1000_0000_0000_0000,
        pow64(10) == part_limit(),
{
    lemma_pow64_ten();
}

/// The character of the digit `d`, which is below 64.
fn symbol_of(d: u8) -> (b: u8)
    requires
        d < 64,
    ensures
        b == digit_symbol(d as nat),
{
    if d < 26 {
        65 + d
    } else if d < 52 {
        97 + (d - 26)
    } else if d < 62 {
        48 + (d - 52)
    } else if d == 62 {
        45
    } else {
        95
    }
}

/// The digit that the byte `c` stands for, or 0xFF where it stands for none.
fn value_of_symbol(c: u8) -> (d: u8)
    ensures
        symbol_value(c) is None <==> d == 0xFF,
        symbol_value(c) matches Some(v) ==> d == v,
{
    if 65 <= c && c <= 90 {
        c - 65
    } else if 97 <= c && c <= 122 {
        c - 97 + 26
    } else if 48 <= c && c <= 57 {
        c - 48 + 52
    } else if c == 43 || c == 45 {
        62
    } else if c == 47 || c == 95 {
        63
    } else {
        0xFF
    }
}

/// Writes the ten lowest base-64 digits of `v` into `bytes[start..start + 10]`.
fn write_digits(bytes: &mut Vec<u8>, start: usize, v: u64)
    requires
        start + 10 <= old(bytes).len(),
    ensures
        final(bytes).len() == old(bytes).len(),
        final(bytes)@.subrange(start as int, start + 10) == digits_of(v as nat, 10),
        forall|j: int|
            0 <= j < old(bytes).len() && !(start <= j < start + 10) ==> #[trigger] final(bytes)@[j]
                == old(bytes)@[j],
{
    let mut rest: u64 = v;
    let mut i: usize = 10;
    assert(pow64(0) == 1);
    assert((v as nat) / 1 == v as nat);
    assert(bytes@.subrange(start + 10, start + 10) =~= digits_of(v as nat, 0));
    while i > 0
        invariant
            i <= 10,
            start + 10 <= bytes.len(),
            bytes.len() == old(bytes).len(),
            rest as nat == (v as nat) / pow64((10 - i) as nat),
            bytes@.subrange(start + i, start + 10) == digits_of(v as nat, (10 - i) as nat),
            forall|j: int|
                0 <= j < old(bytes).len() && !(start <= j < start + 10) ==> #[trigger] bytes@[j]
                    == old(bytes)@[j],
        decreases i,
    {
        i = i - 1;
        let ghost m: nat = (9 - i) as nat;
        let ghost before = bytes@;
        let symbol = symbol_of((rest % 64) as u8);
        bytes.set(start + i, symbol);
        proof {
            lemma_digits_prepend(v as nat, m);
            assert(bytes@.subrange(start + i, start + 10) =~= seq![symbol] + before.subrange(
                start + i + 1,
                start + 10,
            ));
            lemma_pow64_positive(m);
            lemma_div_denominator(v as int, pow64(m) as int, 64);
        }
        rest = rest / 64;
    }
    assert(bytes@.subrange(start as int, start + 10) == digits_of(v as nat, 10));
}

/// Reads ten base-64 digits at `bytes[start..start + 10]`.
fn read_digits(bytes: &[u8], start: usize) -> (r: Option<u64>)
    requires
        start + 10 <= bytes@.len(),
    ensures
        r is Some <==> all_symbols(bytes@.subrange(start as int, start + 10)),
        r matches Some(v) ==> v as nat == digits_value(bytes@.subrange(start as int, start + 10))
            && v < part_limit(),
{
    let mut value: u64 = 0;
    let mut i: usize = 0;
    proof {
        lemma_pow64_ten();
    }
    assert(bytes@.subrange(start as int, start as int) =~= Seq::<u8>::empty());
    while i < 10
        invariant
            i <= 10,
            start + 10 <= bytes.len(),
            pow64(10) == part_limit(),
            all_symbols(bytes@.subrange(start as int, start + i)),
            value as nat == digits_value(bytes@.subrange(start as int, start + i)),
            value < pow64(i as nat),
        decreases 10 - i,
    {
        let c = bytes[start + i];
        let decoded = value_of_symbol(c);
        if decoded == 0xFF {
            assert(bytes@.subrange(start as int, start + 10)[i as int] == c);
            return None;
        }
        proof {
            let next = bytes@.subrange(start as int, start + i + 1);
            assert(next.drop_last() =~= bytes@.subrange(start as int, start + i));
            assert(next.last() == c);
            lemma_symbol_value_below_64(c);
            lemma_pow64_monotone((i + 1) as nat, 10);
            assert forall|k: int| 0 <= k < next.len() implies (#[trigger] symbol_value(
                next[k],
            )) is Some by {
                if k < i {
                    assert(next[k] == bytes@.subrange(start as int, start + i)[k]);
                }
            }
        }
        value = value * 64 + decoded as u64;
        i = i + 1;
    }
    Some(value)
}

/// Turns ASCII bytes into the string they encode.
fn ascii_string(bytes: Vec<u8>) -> (s: String)
    requires
        forall|i: int| 0 <= i < bytes@.len() ==> #[trigger] bytes@[i] < 128,
    ensures
        s@ == bytes@.map_values(|b: u8| b as char),
{
    let ghost chars = bytes@.map_values(|b: u8| b as char);
    proof {
        assert(is_ascii_chars(chars)) by {
            assert forall|i: int| 0 <= i < chars.len() implies '\0' <= #[trigger] chars[i]
                <= '\u{7f}' by {
                assert(bytes@[i] < 128);
            }
        }
        is_ascii_chars_encode_utf8(chars);
        assert forall|i: int| 0 <= i < chars.len() implies #[trigger] encode_utf8(chars)[i]
            == bytes@[i] by {
            assert(chars[i] as u8 == encode_utf8(chars)[i]);
            assert(bytes@[i] < 128);
        }
        assert(encode_utf8(chars) =~= bytes@);
        encode_utf8_valid_utf8(chars);
        encode_utf8_decode_utf8(chars);
    }
    match string_from_utf8(bytes) {
        Some(s) => s,
        None => {
            assert(false);
            String::new()
        },
    }
}

/// `String::from_utf8`: the string that the bytes encode in UTF-8, where
/// they are valid UTF-8. Claimed: the result is `Some` exactly for valid
/// UTF-8, and its characters are the ones the bytes encode.
#[verifier::external_body]
fn string_from_utf8(bytes: Vec<u8>) -> (r: Option<String>)
    ensures
        r is Some <==> valid_utf8(bytes@),
        r matches Some(s) ==> s@ == decode_utf8(bytes@),
{
    String::from_utf8(bytes).ok()
}

impl Token {
    /// Makes a token from two numbers, keeping the 60 low bits of each.
    pub fn new(p1: u64, p2: u64) -> (t: Token)
        ensures
            t@ == (p1 as nat % part_limit(), p2 as nat % part_limit()),
    {
        let mut p1 = p1;
        let mut p2 = p2;
        proof {
            lemma_low_bits(p1);
            lemma_low_bits(p2);
        }
        p1 &= 0x0FFF_FFFF_FFFF_FFFF;
        p2 &= 0x0FFF_FFFF_FFFF_FFFF;
        Token(p1, p2)
    }

    /// The text of the token: twenty characters of the URL-safe base-64
    /// alphabet, the ten digits of the first part, then those of the second.
    pub fn to_string(&self) -> (s: String)
        ensures
            s@ == token_text(self@),
            self@.0 < part_limit(),
            self@.1 < part_limit(),
    {
        proof {
            use_type_invariant(self);
        }
        let mut bytes: Vec<u8> = vec![65u8; 20];
        write_digits(&mut bytes, 0, self.0);
        write_digits(&mut bytes, 10, self.1);
        proof {
            let p = self@;
            assert(bytes@ =~= bytes@.subrange(0, 10) + bytes@.subrange(10, 20));
            assert(bytes@ =~= token_text_bytes(p));
            lemma_token_text_shape(p);
            assert forall|i: int| 0 <= i < bytes@.len() implies #[trigger] bytes@[i] < 128 by {
                assert(url_safe_symbol(token_text_bytes(p)[i]));
            }
        }
        ascii_string(bytes)
    }

    /// Reads a token from its text. Each of the twenty bytes must stand for
    /// a base-64 digit; any other text is an `InvalidTokenError`.
    pub fn from_str(s: &str) -> (r: Result<Token, InvalidTokenError>)
        requires
            s.spec_bytes().len() == 20 ==> is_char_boundary(s.spec_bytes(), 10),
        ensures
            r is Ok <==> parse_token_text(s.spec_bytes()) is Some,
            r matches Ok(t) ==> parse_token_text(s.spec_bytes()) == Some(t@),
            r matches Err(e) ==> e == InvalidTokenError,
    {
        let bytes = s.as_bytes();
        if bytes.len() != 20 {
            return Err(InvalidTokenError);
        }
        let first = match read_digits(bytes, 0) {
            Some(v) => v,
            None => {
                assert(!all_symbols(bytes@)) by {
                    let k = choose|k: int|
                        0 <= k < 10 && !(#[trigger] symbol_value(bytes@.subrange(0, 10)[k])
                            is Some);
                    assert(bytes@.subrange(0, 10)[k] == bytes@[k]);
                }
                return Err(InvalidTokenError);
            },
        };
        let second = match read_digits(bytes, 10) {
            Some(v) => v,
            None => {
                assert(!all_symbols(bytes@)) by {
                    let k = choose|k: int|
                        0 <= k < 10 && !(#[trigger] symbol_value(bytes@.subrange(10, 20)[k])
                            is Some);
                    assert(bytes@.subrange(10, 20)[k] == bytes@[k + 10]);
                }
                return Err(InvalidTokenError);
            },
        };
        assert(all_symbols(bytes@)) by {
            assert forall|i: int| 0 <= i < bytes@.len() implies (#[trigger] symbol_value(
                bytes@[i],
            )) is Some by {
                if i < 10 {
                    assert(bytes@[i] == bytes@.subrange(0, 10)[i]);
                } else {
                    assert(bytes@[i] == bytes@.subrange(10, 20)[i - 10]);
                }
            }
        }
        Ok(Token(first, second))
    }
}

} // verus!
