//! Icons and colors of clipboard groups: normalization of what peers and old
//! versions send (`#rgb`, `#rrggbb`, `#aarrggbb`, decimal and `0x` ARGB
//! numbers) into canonical `#rrggbb`.
use vstd::prelude::*;
use crate::strs::{self, char_vec, push_char, range_eq_str, string_from_chars, string_from_str, trimmed_chars};

verus! {

broadcast use vstd::seq::group_seq_axioms;

/// Color used when none is usable.
pub open spec fn default_group_color() -> Seq<char> {
    "#dc2626"@
}

/// Icon used when none is given.
pub open spec fn default_group_icon() -> Seq<char> {
    "ti ti-folder"@
}

// ---------------------------------------------------------------------------
// Icons
// ---------------------------------------------------------------------------

pub open spec fn icon_spec(raw: Seq<char>) -> Seq<char> {
    if strs::trim(raw).len() == 0 {
        default_group_icon()
    } else {
        strs::trim(raw)
    }
}

/// The trimmed icon, or the default icon when blank.
pub fn normalize_group_icon(raw: &str) -> (r: String)
    ensures
        r@ == icon_spec(raw@),
{
    let t = trimmed_chars(raw);
    if t.len() == 0 {
        string_from_str("ti ti-folder")
    } else {
        string_from_chars(&t)
    }
}

/// A blank incoming icon keeps the existing (non-blank) one.
pub fn merge_group_icon(existing: &str, incoming: &str) -> (r: String)
    ensures
        r@ == (if strs::trim(incoming@).len() == 0 && strs::trim(existing@).len() > 0 {
            icon_spec(existing@)
        } else {
            icon_spec(incoming@)
        }),
{
    let i = trimmed_chars(incoming);
    let e = trimmed_chars(existing);
    if i.len() == 0 && e.len() > 0 {
        normalize_group_icon(existing)
    } else {
        normalize_group_icon(incoming)
    }
}

// ---------------------------------------------------------------------------
// Hexadecimal digits and integer parsing
// ---------------------------------------------------------------------------

pub open spec fn is_hex_digit(c: char) -> bool {
    ('0' <= c && c <= '9') || ('a' <= c && c <= 'f') || ('A' <= c && c <= 'F')
}

/// Value of a digit in `radix` 10 or 16, or `None`.
pub open spec fn digit_value(c: char, radix: nat) -> Option<nat> {
    if '0' <= c && c <= '9' {
        Some(((c as u32) - 48) as nat)
    } else if radix == 16 && 'a' <= c && c <= 'f' {
        Some(((c as u32) - 87) as nat)
    } else if radix == 16 && 'A' <= c && c <= 'F' {
        Some(((c as u32) - 55) as nat)
    } else {
        None
    }
}

pub open spec fn all_digits(s: Seq<char>, radix: nat) -> bool {
    forall|i: int| 0 <= i < s.len() ==> (#[trigger] digit_value(s[i], radix)) is Some
}

/// The value of the digit string `s` in `radix`.
pub open spec fn radix_value(s: Seq<char>, radix: nat) -> nat
    decreases s.len(),
{
    if s.len() == 0 {
        0
    } else {
        radix_value(s.drop_last(), radix) * radix + match digit_value(s.last(), radix) {
            Some(d) => d,
            None => 0,
        }
    }
}

/// `i64::from_str_radix(s, radix)` (radix 10 or 16): an optional sign, then at
/// least one digit, the value within the `i64` range.
pub open spec fn parse_i64(s: Seq<char>, radix: nat) -> Option<int> {
    let neg = s.len() > 0 && s[0] == '-';
    let signed = s.len() > 0 && (s[0] == '-' || s[0] == '+');
    let digits = if signed { s.drop_first() } else { s };
    if digits.len() == 0 || !all_digits(digits, radix) {
        None
    } else {
        let v = if neg { -(radix_value(digits, radix) as int) } else { radix_value(digits, radix) as int };
        if i64::MIN <= v && v <= i64::MAX {
            Some(v)
        } else {
            None
        }
    }
}

proof fn lemma_radix_step(s: Seq<char>, radix: nat, i: int)
    requires
        0 <= i < s.len(),
    ensures
        radix_value(s.take(i + 1), radix) == radix_value(s.take(i), radix) * radix + match digit_value(s[i], radix) {
            Some(d) => d,
            None => 0,
        },
{
    assert(s.take(i + 1).drop_last() =~= s.take(i));
}

proof fn lemma_radix_mono(s: Seq<char>, radix: nat, i: int, j: int)
    requires
        0 <= i <= j <= s.len(),
        radix >= 1,
    ensures
        radix_value(s.take(i), radix) <= radix_value(s.take(j), radix),
    decreases j - i,
{
    if i < j {
        lemma_radix_mono(s, radix, i, j - 1);
        lemma_radix_step(s, radix, j - 1);
        let v = radix_value(s.take(j - 1), radix);
        assert(v * radix >= v) by (nonlinear_arith)
            requires
                radix >= 1,
        ;
    }
}

fn digit_value_exec(c: char, radix: u32) -> (r: Option<u32>)
    requires
        radix == 10 || radix == 16,
    ensures
        match r {
            Some(d) => digit_value(c, radix as nat) == Some(d as nat) && d < radix,
            None => digit_value(c, radix as nat) is None,
        },
{
    if '0' <= c && c <= '9' {
        Some(c as u32 - 48)
    } else if radix == 16 && 'a' <= c && c <= 'f' {
        Some(c as u32 - 87)
    } else if radix == 16 && 'A' <= c && c <= 'F' {
        Some(c as u32 - 55)
    } else {
        None
    }
}

/// `i64::from_str_radix` on `s[from..]`, radix 10 or 16.
#[verifier::loop_isolation(false)]
pub(crate) fn parse_i64_exec(s: &Vec<char>, from: usize, radix: u32) -> (r: Option<i64>)
    requires
        from <= s@.len(),
        radix == 10 || radix == 16,
    ensures
        match r {
            Some(v) => parse_i64(s@.skip(from as int), radix as nat) == Some(v as int),
            None => parse_i64(s@.skip(from as int), radix as nat) is None,
        },
{
    let ghost t = s@.skip(from as int);
    let n = s.len();
    let mut i = from;
    let mut neg = false;
    if i < n && (s[i] == '-' || s[i] == '+') {
        neg = s[i] == '-';
        i += 1;
    }
    let start = i;
    let ghost digits = s@.skip(start as int);
    proof {
        if start > from {
            assert(t.drop_first() =~= digits);
        } else {
            assert(t =~= digits);
        }
    }
    if start == n {
        return None;
    }
    let limit: u128 = 9223372036854775808u128;
    let mut mag: u128 = 0;
    let mut over = false;
    proof {
        assert(digits.take(0) =~= Seq::<char>::empty());
    }
    while i < n
        invariant
            start <= i <= n == s@.len(),
            digits == s@.skip(start as int),
            all_digits(digits.take(i - start), radix as nat),
            !over ==> mag as nat == radix_value(digits.take(i - start), radix as nat) && mag <= limit,
            over ==> radix_value(digits.take(i - start), radix as nat) > limit,
            radix == 10 || radix == 16,
            limit == 9223372036854775808u128,
        decreases n - i,
    {
        let k = i - start;
        proof {
            assert(digits[k as int] == s@[i as int]);
        }
        match digit_value_exec(s[i], radix) {
            None => {
                proof {
                    assert(digit_value(digits[k as int], radix as nat) is None);
                    assert(!all_digits(digits, radix as nat));
                }
                return None;
            },
            Some(d) => {
                proof {
                    lemma_radix_step(digits, radix as nat, k as int);
                    assert(digits.take(k + 1) =~= digits.take(k as int).push(digits[k as int]));
                    assert(all_digits(digits.take(k + 1), radix as nat)) by {
                        assert forall|q: int| 0 <= q < k + 1 implies (#[trigger] digit_value(digits.take(k + 1)[q], radix as nat)) is Some by {
                            if q < k {
                                assert(digits.take(k + 1)[q] == digits.take(k as int)[q]);
                            }
                        }
                    }
                }
                if !over {
                    proof {
                        assert(mag * (radix as u128) + (d as u128) <= limit * 16 + 16) by (nonlinear_arith)
                            requires
                                mag <= limit,
                                radix <= 16,
                                d < 16,
                        ;
                    }
                    let next = mag * (radix as u128) + (d as u128);
                    if next > limit {
                        over = true;
                    } else {
                        mag = next;
                    }
                } else {
                    proof {
                        let v = radix_value(digits.take(k as int), radix as nat);
                        assert(v * (radix as nat) >= v) by (nonlinear_arith)
                            requires
                                radix >= 1,
                        ;
                    }
                }
            },
        }
        i += 1;
    }
    proof {
        assert(digits.take(n - start) =~= digits);
    }
    if over {
        return None;
    }
    if neg {
        Some((0i128 - (mag as i128)) as i64)
    } else if mag > 9223372036854775807u128 {
        None
    } else {
        Some(mag as i64)
    }
}

// ---------------------------------------------------------------------------
// Colors
// ---------------------------------------------------------------------------

/// Lowercase hexadecimal digit for `d < 16`.
pub open spec fn hex_digit(d: nat) -> char {
    if d < 10 {
        ((d + 48) as u32) as char
    } else {
        ((d + 87) as u32) as char
    }
}

/// Lowercase hexadecimal numeral of `n`, at least six digits.
pub open spec fn hex6(n: nat) -> Seq<char> {
    seq![
        hex_digit((n / 1048576) % 16),
        hex_digit((n / 65536) % 16),
        hex_digit((n / 4096) % 16),
        hex_digit((n / 256) % 16),
        hex_digit((n / 16) % 16),
        hex_digit(n % 16),
    ]
}

/// A color number becomes `#rrggbb` from its low 24 bits.
pub open spec fn rgb_hex(rgb: u32) -> Seq<char> {
    seq!['#'] + hex6((rgb & 0x00ff_ffff) as nat)
}

/// The RGB value of an ARGB number: 0 is no color; values up to `0xffffff`
/// are RGB; larger ones need a non-zero alpha byte.
pub open spec fn numeric_color(value: i64) -> Option<u32> {
    let u = value as u32;
    if u == 0 {
        None
    } else if u <= 0x00ff_ffff {
        Some(u)
    } else if (u >> 24u32) & 0xffu32 == 0 {
        None
    } else {
        Some(u & 0x00ff_ffffu32)
    }
}

/// `text` as a color number: `0x`/`0X` hexadecimal or decimal.
pub open spec fn numeric_text_color(text: Seq<char>) -> Option<u32> {
    let prefixed = text.len() >= 2 && text[0] == '0' && (text[1] == 'x' || text[1] == 'X');
    let parsed = if prefixed { parse_i64(text.skip(2), 16) } else { parse_i64(text, 10) };
    match parsed {
        Some(v) => numeric_color(v as i64),
        None => None,
    }
}

/// ASCII lowercase of a hexadecimal digit string.
pub open spec fn lower_hex(s: Seq<char>) -> Seq<char> {
    s.map_values(|c: char| if 'A' <= c && c <= 'F' { ((c as u32) + 32) as char } else { c })
}

/// `#rgb`, `#rrggbb` and `#aarrggbb` (non-zero alpha) as `#rrggbb`.
pub open spec fn hex_color(hex: Seq<char>) -> Option<Seq<char>> {
    if !(forall|i: int| 0 <= i < hex.len() ==> is_hex_digit(#[trigger] hex[i])) {
        None
    } else if hex.len() == 3 {
        Some(seq!['#'] + lower_hex(seq![hex[0], hex[0], hex[1], hex[1], hex[2], hex[2]]))
    } else if hex.len() == 6 {
        Some(seq!['#'] + lower_hex(hex))
    } else if hex.len() == 8 {
        if radix_value(hex.take(2), 16) == 0 {
            None
        } else {
            Some(seq!['#'] + lower_hex(hex.subrange(2, 8)))
        }
    } else {
        None
    }
}

/// The canonical color for an incoming value, or `None` when it carries none.
pub open spec fn incoming_color(raw: Seq<char>) -> Option<Seq<char>> {
    let text = strs::trim(raw);
    if text.len() == 0 || text == "0"@ {
        None
    } else if text[0] == '#' {
        hex_color(text.drop_first())
    } else {
        match numeric_text_color(text) {
            Some(rgb) => Some(rgb_hex(rgb)),
            None => None,
        }
    }
}

fn hex_digit_exec(d: u32) -> (c: char)
    requires
        d < 16,
    ensures
        c == hex_digit(d as nat),
{
    if d < 10 {
        ((d as u8) + 48) as char
    } else {
        ((d as u8) + 87) as char
    }
}

/// `format!("#{:06x}", rgb & 0xffffff)`.
pub fn rgb_to_hex(rgb: u32) -> (r: String)
    ensures
        r@ == rgb_hex(rgb),
{
    let v = rgb & 0x00ff_ffff;
    assert(v <= 0x00ff_ffff) by (bit_vector)
        requires
            v == rgb & 0x00ff_ffff,
    ;
    let mut r = String::new();
    push_char(&mut r, '#');
    push_char(&mut r, hex_digit_exec((v / 1048576) % 16));
    push_char(&mut r, hex_digit_exec((v / 65536) % 16));
    push_char(&mut r, hex_digit_exec((v / 4096) % 16));
    push_char(&mut r, hex_digit_exec((v / 256) % 16));
    push_char(&mut r, hex_digit_exec((v / 16) % 16));
    push_char(&mut r, hex_digit_exec(v % 16));
    assert(r@ =~= rgb_hex(rgb));
    r
}

/// Number of `text[from..]` as a color, radix by the `0x`/`0X` prefix.
pub fn parse_numeric_group_color(text: &str) -> (r: Option<u32>)
    ensures
        r == numeric_text_color(text@),
{
    let t = char_vec(text);
    let prefixed = t.len() >= 2 && t[0] == '0' && (t[1] == 'x' || t[1] == 'X');
    let parsed = if prefixed {
        parse_i64_exec(&t, 2, 16)
    } else {
        proof {
            assert(t@.skip(0) =~= t@);
        }
        parse_i64_exec(&t, 0, 10)
    };
    let value = match parsed {
        Some(v) => v,
        None => {
            return None;
        },
    };
    let unsigned = value as u32;
    if unsigned == 0 {
        return None;
    }
    if unsigned <= 0x00ff_ffff {
        Some(unsigned)
    } else {
        let alpha = (unsigned >> 24u32) & 0xffu32;
        if alpha == 0 {
            None
        } else {
            Some(unsigned & 0x00ff_ffffu32)
        }
    }
}

fn lower_hex_char(c: char) -> (r: char)
    ensures
        r == (if 'A' <= c && c <= 'F' { ((c as u32) + 32) as char } else { c }),
{
    if 'A' <= c && c <= 'F' {
        ((c as u8) + 32) as char
    } else {
        c
    }
}

/// `#` followed by the lowercase of `src[from..to]`.
fn hash_lower(src: &Vec<char>, from: usize, to: usize) -> (r: String)
    requires
        from <= to <= src@.len(),
    ensures
        r@ == seq!['#'] + lower_hex(src@.subrange(from as int, to as int)),
{
    let mut r = String::new();
    push_char(&mut r, '#');
    let mut i = from;
    while i < to
        invariant
            from <= i <= to <= src@.len(),
            r@ == seq!['#'] + lower_hex(src@.subrange(from as int, i as int)),
        decreases to - i,
    {
        push_char(&mut r, lower_hex_char(src[i]));
        assert(src@.subrange(from as int, i + 1) =~= src@.subrange(from as int, i as int).push(src@[i as int]));
        assert(lower_hex(src@.subrange(from as int, i + 1)) =~= lower_hex(src@.subrange(from as int, i as int)).push(
            lower_hex_char_spec(src@[i as int]),
        ));
        i += 1;
    }
    r
}

pub open spec fn lower_hex_char_spec(c: char) -> char {
    if 'A' <= c && c <= 'F' {
        ((c as u32) + 32) as char
    } else {
        c
    }
}

/// `#rgb`, `#rrggbb` or `#aarrggbb` (given without `#`, starting at `from`) as
/// canonical `#rrggbb`.
#[verifier::loop_isolation(false)]
fn normalize_hex_group_color(t: &Vec<char>, from: usize) -> (r: Option<String>)
    requires
        from <= t@.len(),
    ensures
        match r {
            Some(c) => hex_color(t@.skip(from as int)) == Some(c@),
            None => hex_color(t@.skip(from as int)) is None,
        },
{
    let ghost hex = t@.skip(from as int);
    let n = t.len();
    let mut i = from;
    while i < n
        invariant
            from <= i <= n == t@.len(),
            hex == t@.skip(from as int),
            forall|q: int| 0 <= q < i - from ==> is_hex_digit(#[trigger] hex[q]),
        decreases n - i,
    {
        let c = t[i];
        proof {
            assert(hex[i - from] == t@[i as int]);
        }
        if !(('0' <= c && c <= '9') || ('a' <= c && c <= 'f') || ('A' <= c && c <= 'F')) {
            return None;
        }
        i += 1;
    }
    let len = n - from;
    if len == 3 {
        let mut doubled: Vec<char> = Vec::new();
        doubled.push(t[from]);
        doubled.push(t[from]);
        doubled.push(t[from + 1]);
        doubled.push(t[from + 1]);
        doubled.push(t[from + 2]);
        doubled.push(t[from + 2]);
        let r = hash_lower(&doubled, 0, 6);
        assert(doubled@.subrange(0, 6) =~= seq![hex[0], hex[0], hex[1], hex[1], hex[2], hex[2]]);
        Some(r)
    } else if len == 6 {
        let r = hash_lower(t, from, n);
        assert(t@.subrange(from as int, n as int) =~= hex);
        Some(r)
    } else if len == 8 {
        proof {
            assert forall|q: int| from <= q < from + 2 implies is_hex_digit(#[trigger] t@[q]) by {
                assert(hex[q - from] == t@[q]);
            }
        }
        let a = two_hex_value(t, from);
        proof {
            assert(hex.take(2) =~= t@.subrange(from as int, from + 2));
        }
        if a == 0 {
            return None;
        }
        let r = hash_lower(t, from + 2, n);
        assert(t@.subrange(from + 2, n as int) =~= hex.subrange(2, 8));
        Some(r)
    } else {
        None
    }
}

/// Value of the two hexadecimal digits `t[from..from + 2]`.
fn two_hex_value(t: &Vec<char>, from: usize) -> (r: u32)
    requires
        from + 2 <= t@.len(),
        forall|q: int| from <= q < from + 2 ==> is_hex_digit(#[trigger] t@[q]),
    ensures
        r as nat == radix_value(t@.subrange(from as int, from + 2), 16),
{
    let ghost two = t@.subrange(from as int, from + 2);
    assert(t@.len() == t.len());
    assert(is_hex_digit(t@[from as int]) && is_hex_digit(t@[from + 1]));
    let hi = match digit_value_exec(t[from], 16) {
        Some(d) => d,
        None => 0,
    };
    let lo = match digit_value_exec(t[from + 1], 16) {
        Some(d) => d,
        None => 0,
    };
    proof {
        assert(two.drop_last() =~= seq![t@[from as int]]);
        assert(two.drop_last().drop_last() =~= Seq::<char>::empty());
        assert(two.last() == t@[from + 1]);
        assert(two.drop_last().last() == t@[from as int]);
        assert(radix_value(two.drop_last().drop_last(), 16) == 0);
        assert(radix_value(two.drop_last(), 16) == 0 * 16 + hi);
        assert(radix_value(two, 16) == radix_value(two.drop_last(), 16) * 16 + lo);
    }
    hi * 16 + lo
}

/// The canonical `#rrggbb` of an incoming color, or `None`.
pub fn normalize_incoming_group_color(raw: &str) -> (r: Option<String>)
    ensures
        match r {
            Some(c) => incoming_color(raw@) == Some(c@),
            None => incoming_color(raw@) is None,
        },
{
    let t = trimmed_chars(raw);
    let n = t.len();
    if n == 0 || range_eq_str(&t, 0, n, "0") {
        proof {
            assert(t@.subrange(0, n as int) =~= t@);
        }
        return None;
    }
    proof {
        assert(t@.subrange(0, n as int) =~= t@);
    }
    if t[0] == '#' {
        let r = normalize_hex_group_color(&t, 1);
        proof {
            assert(t@.skip(1) =~= t@.drop_first());
        }
        return r;
    }
    let s = string_from_chars(&t);
    match parse_numeric_group_color(s.as_str()) {
        Some(rgb) => Some(rgb_to_hex(rgb)),
        None => None,
    }
}

/// The canonical color, or the default color.
pub fn normalize_group_color(raw: &str) -> (r: String)
    ensures
        r@ == (match incoming_color(raw@) {
            Some(c) => c,
            None => default_group_color(),
        }),
{
    match normalize_incoming_group_color(raw) {
        Some(c) => c,
        None => string_from_str("#dc2626"),
    }
}

/// Already `#` and six hexadecimal digits (either case).
pub open spec fn canonical_color(raw: Seq<char>) -> bool {
    let t = strs::trim(raw);
    strs::byte_len(t) == 7 && t.len() > 0 && t[0] == '#' && forall|i: int| 1 <= i < t.len() ==> is_hex_digit(#[trigger] t[i])
}

fn all_hex_from(t: &Vec<char>, from: usize) -> (r: bool)
    requires
        from <= t@.len(),
    ensures
        r == forall|i: int| from <= i < t@.len() ==> is_hex_digit(#[trigger] t@[i]),
{
    let mut i = from;
    while i < t.len()
        invariant
            from <= i <= t@.len(),
            forall|q: int| from <= q < i ==> is_hex_digit(#[trigger] t@[q]),
        decreases t@.len() - i,
    {
        let c = t[i];
        if !(('0' <= c && c <= '9') || ('a' <= c && c <= 'f') || ('A' <= c && c <= 'F')) {
            return false;
        }
        i += 1;
    }
    true
}

pub fn is_canonical_group_color(raw: &str) -> (r: bool)
    ensures
        r == canonical_color(raw@),
{
    let t = trimmed_chars(raw);
    let s = string_from_chars(&t);
    let bytes = strs::str_byte_len(s.as_str());
    bytes == 7 && t.len() > 0 && t[0] == '#' && all_hex_from(&t, 1)
}

/// Blank, `0`, malformed, transparent (`#00rrggbb`) or an unusable number.
pub open spec fn empty_or_transparent(raw: Seq<char>) -> bool {
    let t = strs::trim(raw);
    if t.len() == 0 || t == "0"@ {
        true
    } else if t[0] == '#' {
        let hex = t.drop_first();
        if !(forall|i: int| 0 <= i < hex.len() ==> is_hex_digit(#[trigger] hex[i])) {
            true
        } else {
            hex.len() == 8 && radix_value(hex.take(2), 16) == 0
        }
    } else {
        numeric_text_color(t) is None
    }
}

pub fn is_empty_or_transparent_group_color(raw: &str) -> (r: bool)
    ensures
        r == empty_or_transparent(raw@),
{
    let t = trimmed_chars(raw);
    let n = t.len();
    proof {
        assert(t@.subrange(0, n as int) =~= t@);
    }
    if n == 0 || range_eq_str(&t, 0, n, "0") {
        return true;
    }
    if t[0] == '#' {
        proof {
            assert(t@.skip(1) =~= t@.drop_first());
        }
        if !all_hex_from(&t, 1) {
            proof {
                let hex = t@.drop_first();
                let q = choose|q: int| 1 <= q < t@.len() && !is_hex_digit(#[trigger] t@[q]);
                assert(hex[q - 1] == t@[q]);
            }
            return true;
        }
        proof {
            let hex = t@.drop_first();
            assert forall|i: int| 0 <= i < hex.len() implies is_hex_digit(#[trigger] hex[i]) by {
                assert(hex[i] == t@[i + 1]);
            }
        }
        if n - 1 != 8 {
            return false;
        }
        let a = two_hex_value(&t, 1);
        proof {
            assert(t@.drop_first().take(2) =~= t@.subrange(1, 3));
        }
        return a == 0;
    }
    let s = string_from_chars(&t);
    parse_numeric_group_color(s.as_str()).is_none()
}

// ---------------------------------------------------------------------------
// What normalization produces
// ---------------------------------------------------------------------------

/// A normalized icon normalizes to itself.
pub proof fn lemma_icon_spec_idempotent(raw: Seq<char>)
    ensures
        icon_spec(icon_spec(raw)) == icon_spec(raw),
{
    if strs::trim(raw).len() == 0 {
        reveal_strlit("ti ti-folder");
        let d = default_group_icon();
        assert(d[0] == 't');
        assert(d[d.len() - 1] == 'r');
        strs::lemma_trim_plain(d);
    } else {
        strs::lemma_trim_idempotent(raw);
    }
}

/// `#` followed by six hexadecimal digits.
spec fn hash_hex6(c: Seq<char>) -> bool {
    &&& c.len() == 7
    &&& c[0] == '#'
    &&& forall|i: int| 1 <= i < 7 ==> is_hex_digit(#[trigger] c[i])
}

proof fn lemma_hash_hex6_canonical(c: Seq<char>)
    requires
        hash_hex6(c),
    ensures
        canonical_color(c),
{
    assert(is_hex_digit(c[6]));
    strs::lemma_trim_plain(c);
    assert forall|i: int| 0 <= i < c.len() implies (#[trigger] c[i] as u32) < 0x80 by {
        if i > 0 {
            assert(is_hex_digit(c[i]));
        }
    }
    strs::lemma_byte_len_ascii(c);
}

proof fn lemma_lower_hex_digits(s: Seq<char>)
    requires
        forall|i: int| 0 <= i < s.len() ==> is_hex_digit(#[trigger] s[i]),
    ensures
        lower_hex(s).len() == s.len(),
        forall|i: int| 0 <= i < s.len() ==> is_hex_digit(#[trigger] lower_hex(s)[i]),
{
    assert forall|i: int| 0 <= i < s.len() implies is_hex_digit(#[trigger] lower_hex(s)[i]) by {
        let c = s[i];
        assert(is_hex_digit(c));
        if 'A' <= c && c <= 'F' {
            let u = ((c as u32) + 32) as char;
            assert(lower_hex(s)[i] == u);
            assert('a' <= u && u <= 'f');
        }
    }
}

proof fn lemma_hex_digit_is_hex(d: nat)
    requires
        d < 16,
    ensures
        is_hex_digit(hex_digit(d)),
{
}

/// Every color that normalization produces is canonical.
pub proof fn lemma_incoming_color_canonical(raw: Seq<char>)
    ensures
        incoming_color(raw) matches Some(c) ==> canonical_color(c),
{
    let text = strs::trim(raw);
    if text.len() == 0 || text == "0"@ {
    } else if text[0] == '#' {
        let hex = text.drop_first();
        if forall|i: int| 0 <= i < hex.len() ==> is_hex_digit(#[trigger] hex[i]) {
            if hex.len() == 3 {
                let six = seq![hex[0], hex[0], hex[1], hex[1], hex[2], hex[2]];
                assert forall|i: int| 0 <= i < six.len() implies is_hex_digit(#[trigger] six[i]) by {
                    assert(is_hex_digit(hex[i / 2]));
                }
                lemma_lower_hex_digits(six);
                let c = seq!['#'] + lower_hex(six);
                assert forall|i: int| 1 <= i < 7 implies is_hex_digit(#[trigger] c[i]) by {
                    assert(c[i] == lower_hex(six)[i - 1]);
                }
                lemma_hash_hex6_canonical(c);
            } else if hex.len() == 6 {
                lemma_lower_hex_digits(hex);
                let c = seq!['#'] + lower_hex(hex);
                assert forall|i: int| 1 <= i < 7 implies is_hex_digit(#[trigger] c[i]) by {
                    assert(c[i] == lower_hex(hex)[i - 1]);
                }
                lemma_hash_hex6_canonical(c);
            } else if hex.len() == 8 {
                let six = hex.subrange(2, 8);
                assert forall|i: int| 0 <= i < six.len() implies is_hex_digit(#[trigger] six[i]) by {
                    assert(six[i] == hex[i + 2]);
                }
                lemma_lower_hex_digits(six);
                let c = seq!['#'] + lower_hex(six);
                assert forall|i: int| 1 <= i < 7 implies is_hex_digit(#[trigger] c[i]) by {
                    assert(c[i] == lower_hex(six)[i - 1]);
                }
                lemma_hash_hex6_canonical(c);
            }
        }
    } else {
        match numeric_text_color(text) {
            Some(rgb) => {
                let n = (rgb & 0x00ff_ffff) as nat;
                let c = rgb_hex(rgb);
                assert forall|i: int| 1 <= i < 7 implies is_hex_digit(#[trigger] c[i]) by {
                    lemma_hex_digit_is_hex((n / 1048576) % 16);
                    lemma_hex_digit_is_hex((n / 65536) % 16);
                    lemma_hex_digit_is_hex((n / 4096) % 16);
                    lemma_hex_digit_is_hex((n / 256) % 16);
                    lemma_hex_digit_is_hex((n / 16) % 16);
                    lemma_hex_digit_is_hex(n % 16);
                }
                lemma_hash_hex6_canonical(c);
            },
            None => {},
        }
    }
}

/// The default color is canonical.
pub proof fn lemma_default_color_canonical()
    ensures
        canonical_color(default_group_color()),
{
    reveal_strlit("#dc2626");
    let c = default_group_color();
    assert(c.len() == 7);
    assert forall|i: int| 1 <= i < 7 implies is_hex_digit(#[trigger] c[i]) by {
        assert(c[1] == 'd' && c[2] == 'c' && c[3] == '2' && c[4] == '6' && c[5] == '2' && c[6] == '6');
    }
    lemma_hash_hex6_canonical(c);
}

} // verus!
