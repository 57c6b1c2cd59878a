//! Byte strings: the hexadecimal and decimal renderings the decompiler
//! prints, byte comparison, and the conversion of raw bytes to text.
use vstd::prelude::*;
use vstd::utf8::{valid_utf8, decode_utf8, encode_utf8};

verus! {

/// The upper-case ASCII hexadecimal digit of `d` (`0 <= d < 16`).
pub open spec fn hex_digit(d: nat) -> u8 {
    if d < 10 {
        (48 + d) as u8
    } else {
        (55 + d) as u8
    }
}

/// The ASCII decimal digit of `d` (`0 <= d < 10`).
pub open spec fn dec_digit(d: nat) -> u8 {
    (48 + d) as u8
}

/// The lowest `n` hexadecimal digits of `v`, most significant first
/// (`{:0nX}` for values below `16^n`).
pub open spec fn hex_fixed(v: nat, n: nat) -> Seq<u8>
    decreases n,
{
    if n == 0 {
        seq![]
    } else {
        hex_fixed(v / 16, (n - 1) as nat).push(hex_digit(v % 16))
    }
}

/// `{:08X}`: eight upper-case hexadecimal digits.
pub open spec fn hex8(v: u32) -> Seq<u8> {
    hex_fixed(v as nat, 8)
}

/// `{:X}`: upper-case hexadecimal without leading zeros.
pub open spec fn hex_digits(v: nat) -> Seq<u8>
    decreases v,
{
    if v < 16 {
        seq![hex_digit(v)]
    } else {
        hex_digits(v / 16).push(hex_digit(v % 16))
    }
}

/// `{}` of an unsigned integer: decimal without leading zeros.
pub open spec fn dec_digits(v: nat) -> Seq<u8>
    decreases v,
{
    if v < 10 {
        seq![dec_digit(v)]
    } else {
        dec_digits(v / 10).push(dec_digit(v % 10))
    }
}

/// `{}` of a signed integer.
pub open spec fn dec_signed(v: int) -> Seq<u8> {
    if v < 0 {
        seq![45u8] + dec_digits((-v) as nat)
    } else {
        dec_digits(v as nat)
    }
}

/// The UTF-8 bytes of a string literal.
pub open spec fn lit(s: &str) -> Seq<u8> {
    encode_utf8(s@)
}

/// Names the text that `String::from_utf8_lossy` makes of a byte string.
pub uninterp spec fn utf8_lossy(bytes: Seq<u8>) -> Seq<char>;

/// Converts bytes to text with `String::from_utf8_lossy`. Its documentation
/// says that valid UTF-8 comes back as it stands, and that every invalid
/// sequence is replaced by U+FFFD; the contract states the first fact and
/// names the result otherwise.
#[verifier::external_body]
pub(crate) fn lossy_string(bytes: &[u8]) -> (s: String)
    ensures
        s@ == utf8_lossy(bytes@),
        valid_utf8(bytes@) ==> s@ == decode_utf8(bytes@),
{
    String::from_utf8_lossy(bytes).into_owned()
}

/// Appends `{:0nX}` of `v`.
pub fn push_hex_fixed(out: &mut Vec<u8>, v: u32, n: u32)
    ensures
        final(out)@ == old(out)@ + hex_fixed(v as nat, n as nat),
    decreases n,
{
    if n > 0 {
        push_hex_fixed(out, v / 16, n - 1);
        let d = v % 16;
        let c: u8 = if d < 10 {
            48 + d as u8
        } else {
            55 + d as u8
        };
        out.push(c);
        assert(old(out)@ + hex_fixed(v as nat, n as nat) =~= old(out)@ + hex_fixed(
            (v / 16) as nat,
            (n - 1) as nat,
        ) + seq![c]);
    } else {
        assert(old(out)@ + hex_fixed(v as nat, n as nat) =~= old(out)@);
    }
}

/// Appends `{:08X}` of `v`.
pub fn push_hex8(out: &mut Vec<u8>, v: u32)
    ensures
        final(out)@ == old(out)@ + hex8(v),
{
    push_hex_fixed(out, v, 8);
}

/// Appends `{:X}` of `v`.
pub fn push_hex(out: &mut Vec<u8>, v: u32)
    ensures
        final(out)@ == old(out)@ + hex_digits(v as nat),
    decreases v,
{
    if v >= 16 {
        push_hex(out, v / 16);
    }
    let d = v % 16;
    let c: u8 = if d < 10 {
        48 + d as u8
    } else {
        55 + d as u8
    };
    out.push(c);
    if v >= 16 {
        assert(old(out)@ + hex_digits(v as nat) =~= old(out)@ + hex_digits((v / 16) as nat)
            + seq![c]);
    } else {
        assert(old(out)@ + hex_digits(v as nat) =~= old(out)@ + seq![c]);
    }
}

/// Appends `{}` of `v`.
pub fn push_dec(out: &mut Vec<u8>, v: u64)
    ensures
        final(out)@ == old(out)@ + dec_digits(v as nat),
    decreases v,
{
    if v >= 10 {
        push_dec(out, v / 10);
    }
    let c: u8 = 48 + (v % 10) as u8;
    out.push(c);
    if v >= 10 {
        assert(old(out)@ + dec_digits(v as nat) =~= old(out)@ + dec_digits((v / 10) as nat)
            + seq![c]);
    } else {
        assert(old(out)@ + dec_digits(v as nat) =~= old(out)@ + seq![c]);
    }
}

/// Appends `{}` of the signed `v`.
pub fn push_dec_signed(out: &mut Vec<u8>, v: i32)
    ensures
        final(out)@ == old(out)@ + dec_signed(v as int),
{
    if v < 0 {
        out.push(45u8);
        let m: u64 = (0i64 - v as i64) as u64;
        push_dec(out, m);
        assert(final(out)@ =~= old(out)@ + dec_signed(v as int));
    } else {
        push_dec(out, v as u64);
    }
}

/// Appends the bytes of `s`.
pub fn push_bytes(out: &mut Vec<u8>, s: &[u8])
    ensures
        final(out)@ == old(out)@ + s@,
{
    let mut i: usize = 0;
    while i < s.len()
        invariant
            i <= s@.len(),
            out@ == old(out)@ + s@.take(i as int),
        decreases s@.len() - i,
    {
        out.push(s[i]);
        i = i + 1;
        assert(out@ =~= old(out)@ + s@.take(i as int));
    }
    assert(s@.take(i as int) =~= s@);
}

/// Appends the UTF-8 bytes of `s`.
pub fn push_str(out: &mut Vec<u8>, s: &str)
    ensures
        final(out)@ == old(out)@ + encode_utf8(s@),
{
    push_bytes(out, s.as_bytes());
}

/// Whether two byte strings are equal.
pub fn bytes_eq(a: &[u8], b: &[u8]) -> (r: bool)
    ensures
        r == (a@ == b@),
{
    if a.len() != b.len() {
        return false;
    }
    let mut i: usize = 0;
    while i < a.len()
        invariant
            a@.len() == b@.len(),
            i <= a@.len(),
            forall|j: int| 0 <= j < i ==> a@[j] == b@[j],
        decreases a@.len() - i,
    {
        if a[i] != b[i] {
            return false;
        }
        i = i + 1;
    }
    assert(a@ =~= b@);
    true
}

/// Two texts are equal exactly when their UTF-8 encodings are.
pub proof fn lemma_encode_utf8_injective(a: Seq<char>, b: Seq<char>)
    ensures
        (encode_utf8(a) == encode_utf8(b)) <==> (a == b),
{
    vstd::utf8::encode_utf8_decode_utf8(a);
    vstd::utf8::encode_utf8_decode_utf8(b);
}

/// A non-empty text has a non-empty UTF-8 encoding.
pub proof fn lemma_encode_utf8_nonempty(s: Seq<char>)
    requires
        s.len() > 0,
    ensures
        encode_utf8(s).len() > 0,
{
}

/// `s` with every occurrence of the non-empty text `from` replaced by `to`.
pub fn replace_str(s: &[u8], from: &str, to: &str) -> (r: Vec<u8>)
    requires
        from@.len() > 0,
    ensures
        r@ == spec_replace(s@, lit(from), lit(to)),
{
    proof {
        lemma_encode_utf8_nonempty(from@);
    }
    replace_bytes(s, from.as_bytes(), to.as_bytes())
}

/// Whether two texts are equal, compared through their UTF-8 bytes.
pub fn str_eq(a: &str, b: &str) -> (r: bool)
    ensures
        r == (a@ == b@),
{
    proof {
        lemma_encode_utf8_injective(a@, b@);
    }
    bytes_eq(a.as_bytes(), b.as_bytes())
}


/// The upper-case hexadecimal digit of `d` (`0 <= d < 16`) as a character.
pub open spec fn hex_char(d: nat) -> char {
    hex_digit(d) as char
}

/// `{:08X}` as text.
pub open spec fn hex8_text(v: u32) -> Seq<char> {
    hex8(v).map_values(|b: u8| b as char)
}

/// `{}` of an unsigned integer as text.
pub open spec fn dec_text(v: nat) -> Seq<char> {
    dec_digits(v).map_values(|b: u8| b as char)
}

/// The one-character text of hexadecimal digit `d`.
fn digit_str(d: u32) -> (s: &'static str)
    requires
        d < 16,
    ensures
        s@ == seq![hex_char(d as nat)],
{
    proof {
        reveal_strlit("0");
        reveal_strlit("1");
        reveal_strlit("2");
        reveal_strlit("3");
        reveal_strlit("4");
        reveal_strlit("5");
        reveal_strlit("6");
        reveal_strlit("7");
        reveal_strlit("8");
        reveal_strlit("9");
        reveal_strlit("A");
        reveal_strlit("B");
        reveal_strlit("C");
        reveal_strlit("D");
        reveal_strlit("E");
        reveal_strlit("F");
    }
    let s = match d {
        0 => "0",
        1 => "1",
        2 => "2",
        3 => "3",
        4 => "4",
        5 => "5",
        6 => "6",
        7 => "7",
        8 => "8",
        9 => "9",
        10 => "A",
        11 => "B",
        12 => "C",
        13 => "D",
        14 => "E",
        _ => "F",
    };
    assert(s@ =~= seq![hex_char(d as nat)]);
    s
}

proof fn lemma_hex_fixed_len(v: nat, n: nat)
    ensures
        hex_fixed(v, n).len() == n,
    decreases n,
{
    if n > 0 {
        lemma_hex_fixed_len(v / 16, (n - 1) as nat);
    }
}

/// Appends the lowest `n` hexadecimal digits of `v` to a text.
pub fn append_hex_fixed(out: &mut String, v: u32, n: u32)
    ensures
        final(out)@ == old(out)@ + hex_fixed(v as nat, n as nat).map_values(|b: u8| b as char),
    decreases n,
{
    if n > 0 {
        append_hex_fixed(out, v / 16, n - 1);
        out.append(digit_str(v % 16));
        assert(hex_fixed(v as nat, n as nat).map_values(|b: u8| b as char) =~= hex_fixed(
            (v / 16) as nat,
            (n - 1) as nat,
        ).map_values(|b: u8| b as char) + seq![hex_char((v % 16) as nat)]);
    } else {
        assert(hex_fixed(v as nat, n as nat).map_values(|b: u8| b as char) =~= Seq::<char>::empty());
        assert(old(out)@ + Seq::<char>::empty() =~= old(out)@);
    }
}

/// Appends `{:08X}` of `v` to a text.
pub fn append_hex8(out: &mut String, v: u32)
    ensures
        final(out)@ == old(out)@ + hex8_text(v),
{
    append_hex_fixed(out, v, 8);
}

/// Appends `{}` of `v` to a text.
pub fn append_dec(out: &mut String, v: u32)
    ensures
        final(out)@ == old(out)@ + dec_text(v as nat),
    decreases v,
{
    if v >= 10 {
        append_dec(out, v / 10);
    }
    out.append(digit_str(v % 10));
    if v >= 10 {
        assert(dec_text(v as nat) =~= dec_text((v / 10) as nat) + seq![hex_char((v % 10) as nat)]);
    } else {
        assert(dec_text(v as nat) =~= seq![hex_char((v % 10) as nat)]);
    }
}


/// Whether `pat` occurs in `s` at position `i`.
pub open spec fn occurs_at(s: Seq<u8>, pat: Seq<u8>, i: int) -> bool {
    0 <= i && i + pat.len() <= s.len() && s.subrange(i, i + pat.len()) == pat
}

/// The first position at or after `i` where `pat` occurs in `s`.
pub open spec fn find_from(s: Seq<u8>, pat: Seq<u8>, i: int) -> Option<int>
    decreases s.len() + 1 - i,
{
    if i < 0 || i + pat.len() > s.len() {
        None
    } else if occurs_at(s, pat, i) {
        Some(i)
    } else {
        find_from(s, pat, i + 1)
    }
}

/// The first position where `pat` occurs in `s` (`str::find`).
pub open spec fn spec_find(s: Seq<u8>, pat: Seq<u8>) -> Option<int> {
    find_from(s, pat, 0)
}

/// Whether `pat` occurs in `s` (`str::contains`).
pub open spec fn spec_contains(s: Seq<u8>, pat: Seq<u8>) -> bool {
    spec_find(s, pat) is Some
}

/// Whether `s` starts with `pat`.
pub open spec fn spec_starts_with(s: Seq<u8>, pat: Seq<u8>) -> bool {
    pat.len() <= s.len() && s.take(pat.len() as int) == pat
}

/// Whether `s` ends with `pat`.
pub open spec fn spec_ends_with(s: Seq<u8>, pat: Seq<u8>) -> bool {
    pat.len() <= s.len() && s.skip(s.len() - pat.len()) == pat
}

/// `s` with every occurrence of the non-empty `from` replaced by `to`,
/// scanning left to right without overlaps (`str::replace`).
pub open spec fn spec_replace(s: Seq<u8>, from: Seq<u8>, to: Seq<u8>) -> Seq<u8>
    decreases s.len(),
{
    if from.len() == 0 || s.len() < from.len() {
        s
    } else if s.take(from.len() as int) == from {
        to + spec_replace(s.skip(from.len() as int), from, to)
    } else {
        seq![s[0]] + spec_replace(s.skip(1), from, to)
    }
}

/// Whether `pat` occurs in `s` at position `i`.
pub fn matches_at(s: &[u8], pat: &[u8], i: usize) -> (r: bool)
    ensures
        r == occurs_at(s@, pat@, i as int),
{
    if i > s.len() || pat.len() > s.len() - i {
        return false;
    }
    let mut k: usize = 0;
    while k < pat.len()
        invariant
            i + pat@.len() <= s.len(),
            k <= pat@.len(),
            forall|m: int| 0 <= m < k ==> s@[i + m] == pat@[m],
        decreases pat@.len() - k,
    {
        if s[i + k] != pat[k] {
            assert(s@.subrange(i as int, i + pat@.len())[k as int] != pat@[k as int]);
            return false;
        }
        k = k + 1;
    }
    assert(s@.subrange(i as int, i + pat@.len()) =~= pat@);
    true
}

/// The first position where `pat` occurs in `s`.
pub fn find_bytes(s: &[u8], pat: &[u8]) -> (r: Option<usize>)
    ensures
        match r {
            Some(i) => spec_find(s@, pat@) == Some(i as int) && occurs_at(s@, pat@, i as int),
            None => spec_find(s@, pat@) is None,
        },
{
    let mut i: usize = 0;
    while pat.len() <= s.len() - i
        invariant
            i <= s.len(),
            find_from(s@, pat@, 0) == find_from(s@, pat@, i as int),
        decreases s.len() + 1 - i,
    {
        if matches_at(s, pat, i) {
            return Some(i);
        }
        if i == s.len() {
            assert(find_from(s@, pat@, i + 1) is None);
            return None;
        }
        i = i + 1;
    }
    None
}

/// Whether `pat` occurs in `s`.
pub fn contains_bytes(s: &[u8], pat: &[u8]) -> (r: bool)
    ensures
        r == spec_contains(s@, pat@),
{
    find_bytes(s, pat).is_some()
}

/// Whether `s` starts with `pat`.
pub fn starts_with_bytes(s: &[u8], pat: &[u8]) -> (r: bool)
    ensures
        r == spec_starts_with(s@, pat@),
{
    let r = matches_at(s, pat, 0);
    proof {
        if pat@.len() <= s@.len() {
            assert(s@.subrange(0, pat@.len() as int) =~= s@.take(pat@.len() as int));
        }
    }
    r
}

/// Whether `s` ends with `pat`.
pub fn ends_with_bytes(s: &[u8], pat: &[u8]) -> (r: bool)
    ensures
        r == spec_ends_with(s@, pat@),
{
    if pat.len() > s.len() {
        return false;
    }
    let r = matches_at(s, pat, s.len() - pat.len());
    assert(s@.subrange(s@.len() - pat@.len(), s@.len() as int) =~= s@.skip(s@.len() - pat@.len()));
    r
}

/// `s` with every occurrence of the non-empty `from` replaced by `to`.
pub fn replace_bytes(s: &[u8], from: &[u8], to: &[u8]) -> (r: Vec<u8>)
    requires
        from@.len() > 0,
    ensures
        r@ == spec_replace(s@, from@, to@),
{
    let mut out: Vec<u8> = Vec::new();
    let mut i: usize = 0;
    assert(s@.skip(0) =~= s@);
    while i < s.len()
        invariant
            i <= s@.len(),
            from@.len() > 0,
            out@ + spec_replace(s@.skip(i as int), from@, to@) == spec_replace(s@, from@, to@),
        decreases s@.len() - i,
    {
        let ghost rest = s@.skip(i as int);
        if matches_at(s, from, i) {
            assert(rest.take(from@.len() as int) =~= s@.subrange(i as int, i + from@.len()));
            assert(rest.skip(from@.len() as int) =~= s@.skip(i + from@.len()));
            push_bytes(&mut out, to);
            i = i + from.len();
        } else {
            proof {
                if rest.len() >= from@.len() {
                    assert(rest.take(from@.len() as int) =~= s@.subrange(i as int, i + from@.len()));
                }
            }
            assert(rest.skip(1) =~= s@.skip(i + 1));
            out.push(s[i]);
            i = i + 1;
        }
        assert(out@ + spec_replace(s@.skip(i as int), from@, to@) =~= spec_replace(s@, from@, to@));
    }
    assert(s@.skip(i as int) =~= Seq::<u8>::empty());
    assert(out@ + Seq::<u8>::empty() =~= out@);
    out
}


/// The value of a hexadecimal digit byte.
pub open spec fn hex_byte_value(b: u8) -> Option<nat> {
    if 48 <= b <= 57 {
        Some((b - 48) as nat)
    } else if 97 <= b <= 102 {
        Some((b - 87) as nat)
    } else if 65 <= b <= 70 {
        Some((b - 55) as nat)
    } else {
        None
    }
}

/// The value of a byte string of hexadecimal digits.
pub open spec fn hex_bytes_value(s: Seq<u8>) -> Option<nat>
    decreases s.len(),
{
    if s.len() == 0 {
        Some(0)
    } else {
        match (hex_bytes_value(s.drop_last()), hex_byte_value(s.last())) {
            (Some(h), Some(d)) => Some(h * 16 + d),
            _ => None,
        }
    }
}

/// The value of a byte string of decimal digits.
pub open spec fn dec_bytes_value(s: Seq<u8>) -> Option<nat>
    decreases s.len(),
{
    if s.len() == 0 {
        Some(0)
    } else if 48 <= s.last() <= 57 {
        match dec_bytes_value(s.drop_last()) {
            Some(h) => Some(h * 10 + (s.last() - 48) as nat),
            None => None,
        }
    } else {
        None
    }
}

/// `u32::from_str_radix(s, 16)`: an optional `+`, then at least one
/// hexadecimal digit, with a value that fits in 32 bits.
pub open spec fn parse_u32_hex(s: Seq<u8>) -> Option<u32> {
    let digits = if s.len() > 0 && s[0] == 43 {
        s.drop_first()
    } else {
        s
    };
    if digits.len() == 0 {
        None
    } else {
        match hex_bytes_value(digits) {
            Some(v) => if v <= u32::MAX {
                Some(v as u32)
            } else {
                None
            },
            None => None,
        }
    }
}

/// `s.parse::<i32>()`: an optional sign, then at least one decimal digit,
/// with a value that fits in 32 bits.
pub open spec fn parse_i32_dec(s: Seq<u8>) -> Option<i32> {
    let neg = s.len() > 0 && s[0] == 45;
    let digits = if s.len() > 0 && (s[0] == 43 || s[0] == 45) {
        s.drop_first()
    } else {
        s
    };
    if digits.len() == 0 {
        None
    } else {
        match dec_bytes_value(digits) {
            Some(v) => if neg && v <= 0x8000_0000 {
                Some((-v) as i32)
            } else if !neg && v <= 0x7FFF_FFFF {
                Some(v as i32)
            } else {
                None
            },
            None => None,
        }
    }
}

/// `s` without its leading `0x` prefixes (`trim_start_matches("0x")`).
pub open spec fn strip_0x(s: Seq<u8>) -> Seq<u8>
    decreases s.len(),
{
    if s.len() >= 2 && s[0] == 48 && s[1] == 120 {
        strip_0x(s.skip(2))
    } else {
        s
    }
}

/// Whether a byte is ASCII white space.
pub open spec fn is_ascii_ws(b: u8) -> bool {
    (9 <= b <= 13) || b == 32
}

/// The index of the first byte at or after `i` that is (`ws`) or is not
/// (`!ws`) white space, or the length.
pub open spec fn scan_ws(s: Seq<u8>, i: int, ws: bool) -> int
    decreases s.len() - i,
{
    if i >= s.len() || is_ascii_ws(s[i]) == ws {
        i
    } else {
        scan_ws(s, i + 1, ws)
    }
}

/// The first white-space separated word of an ASCII text
/// (`split_whitespace().next()`).
pub open spec fn first_token(s: Seq<u8>) -> Option<Seq<u8>> {
    let start = scan_ws(s, 0, false);
    if start >= s.len() {
        None
    } else {
        Some(s.subrange(start, scan_ws(s, start, true)))
    }
}

/// Whether every byte of `s` from `i` on satisfies being a hexadecimal
/// digit (`hex`) or a digit or `-` (`!hex`).
pub open spec fn all_digits_from(s: Seq<u8>, i: int, hex: bool) -> bool {
    forall|k: int|
        i <= k < s.len() ==> (if hex {
            hex_byte_value(#[trigger] s[k]) is Some
        } else {
            s[k] == 45 || (48 <= s[k] <= 57)
        })
}

/// Whether a text is a hexadecimal literal (`0x` and hexadecimal digits)
/// or made of digits and minus signs.
pub open spec fn spec_is_hex_or_dec(s: Seq<u8>) -> bool {
    (s.len() > 2 && s[0] == 48 && s[1] == 120 && all_digits_from(s, 2, true)) || (s.len() > 0
        && all_digits_from(s, 0, false))
}

fn hex_byte(b: u8) -> (r: Option<u32>)
    ensures
        match hex_byte_value(b) {
            Some(d) => r == Some(d as u32),
            None => r is None,
        },
{
    if 48 <= b && b <= 57 {
        Some((b - 48) as u32)
    } else if 97 <= b && b <= 102 {
        Some((b - 87) as u32)
    } else if 65 <= b && b <= 70 {
        Some((b - 55) as u32)
    } else {
        None
    }
}

proof fn lemma_hex_bytes_prefix(s: Seq<u8>, n: int)
    requires
        0 <= n <= s.len(),
        hex_bytes_value(s) is Some,
    ensures
        hex_bytes_value(s.take(n)) is Some,
        hex_bytes_value(s.take(n)).unwrap() <= hex_bytes_value(s).unwrap(),
    decreases s.len() - n,
{
    if n < s.len() {
        assert(s.drop_last().take(n) =~= s.take(n));
        lemma_hex_bytes_prefix(s.drop_last(), n);
    } else {
        assert(s.take(n) =~= s);
    }
}

proof fn lemma_dec_bytes_prefix(s: Seq<u8>, n: int)
    requires
        0 <= n <= s.len(),
        dec_bytes_value(s) is Some,
    ensures
        dec_bytes_value(s.take(n)) is Some,
        dec_bytes_value(s.take(n)).unwrap() <= dec_bytes_value(s).unwrap(),
    decreases s.len() - n,
{
    if n < s.len() {
        assert(s.drop_last().take(n) =~= s.take(n));
        lemma_dec_bytes_prefix(s.drop_last(), n);
    } else {
        assert(s.take(n) =~= s);
    }
}

/// Reads `u32::from_str_radix(s, 16)`.
pub fn parse_hex_u32(s: &[u8]) -> (r: Option<u32>)
    ensures
        r == parse_u32_hex(s@),
{
    let mut start: usize = 0;
    if s.len() > 0 && s[0] == 43 {
        start = 1;
    }
    let ghost digits = s@.skip(start as int);
    assert(digits =~= (if s@.len() > 0 && s@[0] == 43 { s@.drop_first() } else { s@ }));
    if start == s.len() {
        return None;
    }
    let mut acc: u32 = 0;
    let mut i = start;
    while i < s.len()
        invariant
            start <= i <= s@.len(),
            start < s@.len(),
            digits == s@.skip(start as int),
            digits == (if s@.len() > 0 && s@[0] == 43 { s@.drop_first() } else { s@ }),
            hex_bytes_value(digits.take(i - start)) == Some(acc as nat),
        decreases s@.len() - i,
    {
        assert(digits.take(i - start + 1).drop_last() =~= digits.take(i - start));
        assert(digits.take(i - start + 1).last() == s@[i as int]);
        match hex_byte(s[i]) {
            None => {
                proof {
                    if hex_bytes_value(digits) is Some {
                        lemma_hex_bytes_prefix(digits, i - start + 1);
                    }
                }
                return None;
            },
            Some(d) => {
                if acc > (u32::MAX - d) / 16 {
                    proof {
                        if hex_bytes_value(digits) is Some {
                            lemma_hex_bytes_prefix(digits, i - start + 1);
                        }
                    }
                    return None;
                }
                acc = acc * 16 + d;
            },
        }
        i = i + 1;
    }
    assert(digits.take(i - start) =~= digits);
    Some(acc)
}

/// Reads `s.parse::<i32>()`.
pub fn parse_dec_i32(s: &[u8]) -> (r: Option<i32>)
    ensures
        r == parse_i32_dec(s@),
{
    let neg = s.len() > 0 && s[0] == 45;
    let mut start: usize = 0;
    if s.len() > 0 && (s[0] == 43 || s[0] == 45) {
        start = 1;
    }
    let ghost digits = s@.skip(start as int);
    assert(digits =~= (if s@.len() > 0 && (s@[0] == 43 || s@[0] == 45) { s@.drop_first() } else { s@ }));
    if start == s.len() {
        return None;
    }
    let limit: u64 = if neg { 0x8000_0000 } else { 0x7FFF_FFFF };
    let mut acc: u64 = 0;
    let mut i = start;
    while i < s.len()
        invariant
            start <= i <= s@.len(),
            start < s@.len(),
            digits == s@.skip(start as int),
            digits == (if s@.len() > 0 && (s@[0] == 43 || s@[0] == 45) { s@.drop_first() } else { s@ }),
            neg == (s@.len() > 0 && s@[0] == 45),
            limit == (if neg { 0x8000_0000u64 } else { 0x7FFF_FFFFu64 }),
            limit <= 0x8000_0000,
            acc <= limit,
            dec_bytes_value(digits.take(i - start)) == Some(acc as nat),
        decreases s@.len() - i,
    {
        assert(digits.take(i - start + 1).drop_last() =~= digits.take(i - start));
        assert(digits.take(i - start + 1).last() == s@[i as int]);
        let b = s[i];
        if !(48 <= b && b <= 57) {
            proof {
                if dec_bytes_value(digits) is Some {
                    lemma_dec_bytes_prefix(digits, i - start + 1);
                }
            }
            return None;
        }
        let d = (b - 48) as u64;
        if acc * 10 + d > limit {
            proof {
                if dec_bytes_value(digits) is Some {
                    lemma_dec_bytes_prefix(digits, i - start + 1);
                }
            }
            return None;
        }
        acc = acc * 10 + d;
        i = i + 1;
    }
    assert(digits.take(i - start) =~= digits);
    if neg {
        Some((0i64 - acc as i64) as i32)
    } else {
        Some(acc as i32)
    }
}

/// The length of the leading `0x` prefixes of `s`.
pub fn strip_0x_start(s: &[u8]) -> (n: usize)
    ensures
        n <= s@.len(),
        s@.skip(n as int) == strip_0x(s@),
{
    let mut n: usize = 0;
    assert(s@.skip(0) =~= s@);
    while s.len() - n >= 2 && s[n] == 48 && s[n + 1] == 120
        invariant
            n <= s@.len(),
            strip_0x(s@.skip(n as int)) == strip_0x(s@),
        decreases s@.len() - n,
    {
        assert(s@.skip(n as int).skip(2) =~= s@.skip(n + 2));
        n = n + 2;
    }
    n
}

fn is_ws_byte(b: u8) -> (r: bool)
    ensures
        r == is_ascii_ws(b),
{
    (9 <= b && b <= 13) || b == 32
}

/// The first white-space separated word of an ASCII text.
pub fn first_word(s: &[u8]) -> (r: Option<&[u8]>)
    ensures
        match r {
            Some(w) => first_token(s@) == Some(w@),
            None => first_token(s@) is None,
        },
{
    let mut start: usize = 0;
    while start < s.len() && is_ws_byte(s[start])
        invariant
            start <= s@.len(),
            scan_ws(s@, 0, false) == scan_ws(s@, start as int, false),
        decreases s@.len() - start,
    {
        start = start + 1;
    }
    if start >= s.len() {
        return None;
    }
    let mut end = start;
    while end < s.len() && !is_ws_byte(s[end])
        invariant
            start <= end <= s@.len(),
            scan_ws(s@, start as int, true) == scan_ws(s@, end as int, true),
        decreases s@.len() - end,
    {
        end = end + 1;
    }
    Some(vstd::slice::slice_subrange(s, start, end))
}

/// Whether a text is a hexadecimal literal (`0x` and hexadecimal digits)
/// or made of digits and minus signs.
pub fn is_hex_or_dec(s: &[u8]) -> (r: bool)
    ensures
        r == spec_is_hex_or_dec(s@),
{
    if s.len() > 2 && s[0] == 48 && s[1] == 120 {
        let mut k: usize = 2;
        let mut ok = true;
        while k < s.len()
            invariant
                2 <= k <= s@.len(),
                ok == (forall|m: int| 2 <= m < k ==> hex_byte_value(#[trigger] s@[m]) is Some),
            decreases s@.len() - k,
        {
            if hex_byte(s[k]).is_none() {
                ok = false;
            }
            k = k + 1;
        }
        if ok {
            return true;
        }
        assert(!all_digits_from(s@, 2, true));
    }
    if s.len() == 0 {
        return false;
    }
    assert(!(s@.len() > 2 && s@[0] == 48 && s@[1] == 120 && all_digits_from(s@, 2, true)));
    let mut k: usize = 0;
    while k < s.len()
        invariant
            k <= s@.len(),
            !(s@.len() > 2 && s@[0] == 48 && s@[1] == 120 && all_digits_from(s@, 2, true)),
            forall|m: int| 0 <= m < k ==> (#[trigger] s@[m] == 45 || (48 <= s@[m] <= 57)),
        decreases s@.len() - k,
    {
        let b = s[k];
        if !(b == 45 || (48 <= b && b <= 57)) {
            return false;
        }
        k = k + 1;
    }
    true
}

} // verus!
