//! Character-level string toolkit: UTF-8 byte lengths, whitespace trimming,
//! substring search, and the small std bridges the rest of the crate builds on.
use vstd::prelude::*;
use vstd::utf8::*;

verus! {

broadcast use vstd::seq::group_seq_axioms;

// ---------------------------------------------------------------------------
// UTF-8 byte lengths
// ---------------------------------------------------------------------------

/// Number of bytes of the UTF-8 encoding of `c`.
pub open spec fn char_width(c: char) -> nat {
    let u = c as u32;
    if u < 0x80 {
        1
    } else if u < 0x800 {
        2
    } else if u < 0x10000 {
        3
    } else {
        4
    }
}

/// Number of bytes of the UTF-8 encoding of `s` (what `str::len` reports).
pub open spec fn byte_len(s: Seq<char>) -> nat {
    encode_utf8(s).len()
}

pub proof fn lemma_encode_scalar_len(c: char)
    ensures
        encode_scalar(c as u32).len() == char_width(c),
{
    char_is_scalar(c);
}

pub proof fn lemma_encode_concat(a: Seq<char>, b: Seq<char>)
    ensures
        encode_utf8(a + b) == encode_utf8(a) + encode_utf8(b),
    decreases a.len(),
{
    if a.len() == 0 {
        assert(a + b =~= b);
        assert(encode_utf8(a) + encode_utf8(b) =~= encode_utf8(b));
    } else {
        assert((a + b).drop_first() =~= a.drop_first() + b);
        lemma_encode_concat(a.drop_first(), b);
        assert((a + b)[0] == a[0]);
        assert(encode_utf8(a + b) =~= encode_scalar(a[0] as u32) + encode_utf8(a.drop_first() + b));
    }
}

pub proof fn lemma_byte_len_concat(a: Seq<char>, b: Seq<char>)
    ensures
        byte_len(a + b) == byte_len(a) + byte_len(b),
{
    lemma_encode_concat(a, b);
}

pub proof fn lemma_byte_len_single(c: char)
    ensures
        byte_len(seq![c]) == char_width(c),
{
    lemma_encode_scalar_len(c);
    assert(seq![c].drop_first() =~= Seq::<char>::empty());
    assert(encode_utf8(seq![c]) =~= encode_scalar(c as u32) + encode_utf8(Seq::<char>::empty()));
}

pub proof fn lemma_byte_len_push(s: Seq<char>, c: char)
    ensures
        byte_len(s.push(c)) == byte_len(s) + char_width(c),
{
    assert(s.push(c) =~= s + seq![c]);
    lemma_byte_len_concat(s, seq![c]);
    lemma_byte_len_single(c);
}


/// Byte length of a prefix grows by the width of the next character.
pub proof fn lemma_byte_len_take_step(s: Seq<char>, i: int)
    requires
        0 <= i < s.len(),
    ensures
        byte_len(s.take(i + 1)) == byte_len(s.take(i)) + char_width(s[i]),
{
    assert(s.take(i + 1) =~= s.take(i).push(s[i]));
    lemma_byte_len_push(s.take(i), s[i]);
}

/// Byte lengths of prefixes never shrink, and strictly grow with each character.
pub proof fn lemma_byte_len_take_mono(s: Seq<char>, i: int, j: int)
    requires
        0 <= i <= j <= s.len(),
    ensures
        byte_len(s.take(i)) + (j - i) <= byte_len(s.take(j)),
    decreases j - i,
{
    if i < j {
        lemma_byte_len_take_mono(s, i, j - 1);
        lemma_byte_len_take_step(s, j - 1);
    }
}

pub proof fn lemma_byte_len_full(s: Seq<char>)
    ensures
        byte_len(s.take(s.len() as int)) == byte_len(s),
{
    assert(s.take(s.len() as int) =~= s);
}

/// Byte length of `s.subrange(a, b)` is the difference of the prefix byte lengths.
pub proof fn lemma_byte_len_subrange(s: Seq<char>, a: int, b: int)
    requires
        0 <= a <= b <= s.len(),
    ensures
        byte_len(s.subrange(a, b)) == byte_len(s.take(b)) - byte_len(s.take(a)),
{
    assert(s.take(b) =~= s.take(a) + s.subrange(a, b));
    lemma_byte_len_concat(s.take(a), s.subrange(a, b));
}

/// An ASCII text takes one byte per character.
pub proof fn lemma_byte_len_ascii(s: Seq<char>)
    requires
        forall|i: int| 0 <= i < s.len() ==> (#[trigger] s[i] as u32) < 0x80,
    ensures
        byte_len(s) == s.len(),
    decreases s.len(),
{
    if s.len() == 0 {
        assert(encode_utf8(s) =~= Seq::<u8>::empty());
    } else {
        let d = s.drop_last();
        assert forall|i: int| 0 <= i < d.len() implies (#[trigger] d[i] as u32) < 0x80 by {
            assert(d[i] == s[i]);
        }
        lemma_byte_len_ascii(d);
        assert(s =~= d.push(s.last()));
        lemma_byte_len_push(d, s.last());
    }
}

pub fn char_width_exec(c: char) -> (w: usize)
    ensures
        w == char_width(c),
        1 <= w <= 4,
{
    let u = c as u32;
    if u < 0x80 {
        1
    } else if u < 0x800 {
        2
    } else if u < 0x10000 {
        3
    } else {
        4
    }
}


/// `str::len`: the UTF-8 byte length of `s`.
pub fn str_byte_len(s: &str) -> (n: usize)
    ensures
        n == byte_len(s@),
{
    s.as_bytes().len()
}

/// Byte offsets of every character boundary: `r[k]` is the byte length of the
/// first `k` characters.
pub fn prefix_bytes(chars: &Vec<char>) -> (r: Vec<usize>)
    requires
        byte_len(chars@) <= usize::MAX,
    ensures
        r@.len() == chars@.len() + 1,
        forall|k: int| 0 <= k <= chars@.len() ==> #[trigger] r@[k] == byte_len(chars@.take(k)),
        r@[chars@.len() as int] == byte_len(chars@),
{
    let mut r: Vec<usize> = Vec::new();
    r.push(0);
    proof {
        assert(chars@.take(0) =~= Seq::<char>::empty());
    }
    let mut acc: usize = 0;
    let mut i: usize = 0;
    while i < chars.len()
        invariant
            0 <= i <= chars@.len(),
            byte_len(chars@) <= usize::MAX,
            r@.len() == i + 1,
            acc == byte_len(chars@.take(i as int)),
            forall|k: int| 0 <= k <= i ==> #[trigger] r@[k] == byte_len(chars@.take(k)),
        decreases chars@.len() - i,
    {
        proof {
            lemma_byte_len_take_step(chars@, i as int);
            lemma_byte_len_take_mono(chars@, i + 1, chars@.len() as int);
            lemma_byte_len_full(chars@);
        }
        let w = char_width_exec(chars[i]);
        acc = acc + w;
        r.push(acc);
        i += 1;
    }
    proof {
        lemma_byte_len_full(chars@);
    }
    r
}

/// `k` is the longest prefix of `s` whose UTF-8 encoding fits in `limit` bytes.
pub open spec fn is_fit(s: Seq<char>, limit: int, k: int) -> bool {
    &&& 0 <= k <= s.len()
    &&& byte_len(s.take(k)) <= limit
    &&& (k == s.len() || byte_len(s.take(k + 1)) > limit)
}

/// Number of leading characters of `s` that fit in `limit` bytes; the largest
/// character boundary at or below byte `limit`.
pub open spec fn fit_prefix(s: Seq<char>, limit: int) -> int {
    choose|k: int| is_fit(s, limit, k)
}

pub proof fn lemma_fit_unique(s: Seq<char>, limit: int, k1: int, k2: int)
    requires
        is_fit(s, limit, k1),
        is_fit(s, limit, k2),
    ensures
        k1 == k2,
{
    if k1 < k2 {
        lemma_byte_len_take_mono(s, k1 + 1, k2);
    } else if k2 < k1 {
        lemma_byte_len_take_mono(s, k2 + 1, k1);
    }
}

pub proof fn lemma_fit_is(s: Seq<char>, limit: int, k: int)
    requires
        is_fit(s, limit, k),
    ensures
        fit_prefix(s, limit) == k,
{
    let c = fit_prefix(s, limit);
    assert(is_fit(s, limit, c));
    lemma_fit_unique(s, limit, c, k);
}

/// Largest `k` with `pre[k] <= limit`, given prefix byte offsets `pre`.
pub fn fit_index(chars: &Vec<char>, pre: &Vec<usize>, limit: usize) -> (k: usize)
    requires
        pre@.len() == chars@.len() + 1,
        forall|j: int| 0 <= j <= chars@.len() ==> #[trigger] pre@[j] == byte_len(chars@.take(j)),
    ensures
        k as int == fit_prefix(chars@, limit as int),
        is_fit(chars@, limit as int, k as int),
{
    let mut k: usize = 0;
    proof {
        assert(chars@.take(0) =~= Seq::<char>::empty());
        assert(pre@[0] == byte_len(chars@.take(0)));
    }
    while k < chars.len() && pre[k + 1] <= limit
        invariant
            0 <= k <= chars@.len(),
            pre@.len() == chars@.len() + 1,
            forall|j: int| 0 <= j <= chars@.len() ==> #[trigger] pre@[j] == byte_len(chars@.take(j)),
            pre@[k as int] <= limit,
        decreases chars@.len() - k,
    {
        k += 1;
    }
    proof {
        lemma_fit_is(chars@, limit as int, k as int);
    }
    k
}

// ---------------------------------------------------------------------------
// Conversions between `str` and character vectors
// ---------------------------------------------------------------------------

/// The characters of `s`, in order.
pub fn char_vec(s: &str) -> (v: Vec<char>)
    ensures
        v@ == s@,
{
    let mut v: Vec<char> = Vec::new();
    for c in it: s.chars()
        invariant
            v@ == it.seq().take(it.index() as int),
    {
        v.push(c);
    }
    v
}

/// `String::push`: appends one character.
#[verifier::external_body]
pub(crate) fn push_char(s: &mut String, c: char)
    ensures
        final(s)@ == old(s)@.push(c),
{
    s.push(c);
}

/// Appends every character of `chars[from..to]` to `out`.
pub fn push_chars(out: &mut String, chars: &Vec<char>, from: usize, to: usize)
    requires
        from <= to <= chars@.len(),
    ensures
        final(out)@ == old(out)@ + chars@.subrange(from as int, to as int),
{
    let ghost start = out@;
    let mut i = from;
    while i < to
        invariant
            from <= i <= to <= chars@.len(),
            out@ == start + chars@.subrange(from as int, i as int),
        decreases to - i,
    {
        push_char(out, chars[i]);
        assert(chars@.subrange(from as int, i + 1) =~= chars@.subrange(from as int, i as int).push(chars@[i as int]));
        i += 1;
    }
}

/// Appends the characters of `s` to `out`.
pub fn push_str(out: &mut String, s: &str)
    ensures
        final(out)@ == old(out)@ + s@,
{
    let v = char_vec(s);
    push_chars(out, &v, 0, v.len());
    assert(v@.subrange(0, v@.len() as int) =~= s@);
}

/// A `String` holding exactly `chars`.
pub fn string_from_chars(chars: &Vec<char>) -> (s: String)
    ensures
        s@ == chars@,
{
    let mut s = String::new();
    push_chars(&mut s, chars, 0, chars.len());
    assert(Seq::<char>::empty() + chars@.subrange(0, chars@.len() as int) =~= chars@);
    s
}

/// A `String` holding the characters of `s`.
pub fn string_from_str(s: &str) -> (r: String)
    ensures
        r@ == s@,
{
    let mut r = String::new();
    push_str(&mut r, s);
    assert(Seq::<char>::empty() + s@ =~= s@);
    r
}

/// Whether two character vectors are equal.
pub fn chars_eq(a: &Vec<char>, b: &Vec<char>) -> (r: bool)
    ensures
        r == (a@ == b@),
{
    if a.len() != b.len() {
        return false;
    }
    let mut i: usize = 0;
    while i < a.len()
        invariant
            a@.len() == b@.len(),
            0 <= i <= a@.len(),
            forall|j: int| 0 <= j < i ==> a@[j] == b@[j],
        decreases a@.len() - i,
    {
        if a[i] != b[i] {
            return false;
        }
        i += 1;
    }
    assert(a@ =~= b@);
    true
}

/// Whether two string slices hold the same characters.
pub fn str_eq(a: &str, b: &str) -> (r: bool)
    ensures
        r == (a@ == b@),
{
    let va = char_vec(a);
    let vb = char_vec(b);
    chars_eq(&va, &vb)
}

/// `a` comes no later than `b` in code-point order, which is the byte order
/// of their UTF-8 encodings.
pub open spec fn text_le(a: Seq<char>, b: Seq<char>) -> bool
    decreases a.len(),
{
    if a.len() == 0 {
        true
    } else if b.len() == 0 {
        false
    } else if a[0] != b[0] {
        (a[0] as int) < (b[0] as int)
    } else {
        text_le(a.drop_first(), b.drop_first())
    }
}

/// Any two texts are ordered one way or the other.
pub proof fn lemma_text_le_total(a: Seq<char>, b: Seq<char>)
    ensures
        text_le(a, b) || text_le(b, a),
    decreases a.len(),
{
    if a.len() > 0 && b.len() > 0 && a[0] == b[0] {
        lemma_text_le_total(a.drop_first(), b.drop_first());
    }
}

/// The order is transitive.
pub proof fn lemma_text_le_trans(a: Seq<char>, b: Seq<char>, c: Seq<char>)
    requires
        text_le(a, b),
        text_le(b, c),
    ensures
        text_le(a, c),
    decreases a.len(),
{
    if a.len() > 0 && b.len() > 0 && c.len() > 0 && a[0] == b[0] && b[0] == c[0] {
        lemma_text_le_trans(a.drop_first(), b.drop_first(), c.drop_first());
    }
}

/// Whether `a` comes no later than `b`; see `text_le`.
pub fn text_le_exec(a: &str, b: &str) -> (r: bool)
    ensures
        r == text_le(a@, b@),
{
    let av = char_vec(a);
    let bv = char_vec(b);
    let mut i: usize = 0;
    proof {
        assert(av@.skip(0) =~= av@);
        assert(bv@.skip(0) =~= bv@);
    }
    while i < av.len() && i < bv.len() && av[i] == bv[i]
        invariant
            i <= av@.len(),
            i <= bv@.len(),
            text_le(av@, bv@) == text_le(av@.skip(i as int), bv@.skip(i as int)),
        decreases av@.len() - i,
    {
        proof {
            assert(av@.skip(i as int).drop_first() =~= av@.skip(i + 1));
            assert(bv@.skip(i as int).drop_first() =~= bv@.skip(i + 1));
        }
        i += 1;
    }
    if i == av.len() {
        true
    } else if i == bv.len() {
        false
    } else {
        proof {
            assert(av@.skip(i as int)[0] == av@[i as int]);
            assert(bv@.skip(i as int)[0] == bv@[i as int]);
        }
        av[i] < bv[i]
    }
}

/// Whether `chars[from..to]` equals `lit`.
pub fn range_eq_str(chars: &Vec<char>, from: usize, to: usize, lit: &str) -> (r: bool)
    requires
        from <= to <= chars@.len(),
    ensures
        r == (chars@.subrange(from as int, to as int) == lit@),
{
    let l = char_vec(lit);
    if to - from != l.len() {
        return false;
    }
    let mut i: usize = 0;
    while i < l.len()
        invariant
            from <= to <= chars@.len(),
            to - from == l@.len(),
            l@ == lit@,
            0 <= i <= l@.len(),
            forall|j: int| 0 <= j < i ==> chars@[from + j] == l@[j],
        decreases l@.len() - i,
    {
        if chars[from + i] != l[i] {
            assert(chars@.subrange(from as int, to as int)[i as int] != lit@[i as int]);
            return false;
        }
        i += 1;
    }
    assert(chars@.subrange(from as int, to as int) =~= lit@);
    true
}

// ---------------------------------------------------------------------------
// Whitespace and trimming (`char::is_whitespace`, `str::trim`)
// ---------------------------------------------------------------------------

/// The Unicode `White_Space` property, as `char::is_whitespace` tests it.
pub open spec fn is_ws(c: char) -> bool {
    let u = c as u32;
    (0x09 <= u && u <= 0x0D) || u == 0x20 || u == 0x85 || u == 0xA0 || u == 0x1680 || (0x2000 <= u
        && u <= 0x200A) || u == 0x2028 || u == 0x2029 || u == 0x202F || u == 0x205F || u == 0x3000
}

pub fn is_ws_exec(c: char) -> (r: bool)
    ensures
        r == is_ws(c),
{
    let u = c as u32;
    (0x09 <= u && u <= 0x0D) || u == 0x20 || u == 0x85 || u == 0xA0 || u == 0x1680 || (0x2000 <= u
        && u <= 0x200A) || u == 0x2028 || u == 0x2029 || u == 0x202F || u == 0x205F || u == 0x3000
}

/// Number of leading whitespace characters.
pub open spec fn lead_ws(s: Seq<char>) -> nat
    decreases s.len(),
{
    if s.len() == 0 {
        0
    } else if is_ws(s[0]) {
        1 + lead_ws(s.drop_first())
    } else {
        0
    }
}

/// Number of trailing whitespace characters.
pub open spec fn trail_ws(s: Seq<char>) -> nat
    decreases s.len(),
{
    if s.len() == 0 {
        0
    } else if is_ws(s.last()) {
        1 + trail_ws(s.drop_last())
    } else {
        0
    }
}

/// `s` without leading whitespace.
pub open spec fn trim_start(s: Seq<char>) -> Seq<char> {
    s.skip(lead_ws(s) as int)
}

/// `s` without trailing whitespace.
pub open spec fn trim_end(s: Seq<char>) -> Seq<char> {
    s.take(s.len() - trail_ws(s))
}

/// `s` without leading or trailing whitespace (`str::trim`).
pub open spec fn trim(s: Seq<char>) -> Seq<char> {
    trim_end(trim_start(s))
}

pub proof fn lemma_lead_ws_bound(s: Seq<char>)
    ensures
        lead_ws(s) <= s.len(),
        forall|i: int| 0 <= i < lead_ws(s) ==> is_ws(#[trigger] s[i]),
        lead_ws(s) < s.len() ==> !is_ws(s[lead_ws(s) as int]),
    decreases s.len(),
{
    if s.len() > 0 && is_ws(s[0]) {
        lemma_lead_ws_bound(s.drop_first());
        assert forall|i: int| 0 <= i < lead_ws(s) implies is_ws(#[trigger] s[i]) by {
            if i > 0 {
                assert(s[i] == s.drop_first()[i - 1]);
            }
        }
    }
}

pub proof fn lemma_trail_ws_bound(s: Seq<char>)
    ensures
        trail_ws(s) <= s.len(),
        forall|i: int| s.len() - trail_ws(s) <= i < s.len() ==> is_ws(#[trigger] s[i]),
        trail_ws(s) < s.len() ==> !is_ws(s[s.len() - trail_ws(s) - 1]),
    decreases s.len(),
{
    if s.len() > 0 && is_ws(s.last()) {
        lemma_trail_ws_bound(s.drop_last());
        assert forall|i: int| s.len() - trail_ws(s) <= i < s.len() implies is_ws(#[trigger] s[i]) by {
            if i < s.len() - 1 {
                assert(s[i] == s.drop_last()[i]);
            }
        }
    }
}

/// Characterises `lead_ws` by the first non-whitespace position.
pub proof fn lemma_lead_ws_char(s: Seq<char>, k: int)
    requires
        0 <= k <= s.len(),
        forall|i: int| 0 <= i < k ==> is_ws(#[trigger] s[i]),
        k < s.len() ==> !is_ws(s[k]),
    ensures
        lead_ws(s) == k,
    decreases s.len(),
{
    if s.len() > 0 && k > 0 {
        assert forall|i: int| 0 <= i < k - 1 implies is_ws(#[trigger] s.drop_first()[i]) by {
            assert(s.drop_first()[i] == s[i + 1]);
        }
        lemma_lead_ws_char(s.drop_first(), k - 1);
    }
}

/// Characterises `trail_ws` by the last non-whitespace position.
pub proof fn lemma_trail_ws_char(s: Seq<char>, k: int)
    requires
        0 <= k <= s.len(),
        forall|i: int| s.len() - k <= i < s.len() ==> is_ws(#[trigger] s[i]),
        k < s.len() ==> !is_ws(s[s.len() - k - 1]),
    ensures
        trail_ws(s) == k,
    decreases s.len(),
{
    if s.len() > 0 && k > 0 {
        assert forall|i: int| s.drop_last().len() - (k - 1) <= i < s.drop_last().len() implies is_ws(
            #[trigger] s.drop_last()[i],
        ) by {
            assert(s.drop_last()[i] == s[i]);
        }
        lemma_trail_ws_char(s.drop_last(), k - 1);
    }
}

/// A text that neither starts nor ends with whitespace is its own trim.
pub proof fn lemma_trim_plain(s: Seq<char>)
    requires
        s.len() > 0,
        !is_ws(s[0]),
        !is_ws(s[s.len() - 1]),
    ensures
        trim(s) == s,
{
    lemma_lead_ws_char(s, 0);
    let t = trim_start(s);
    assert(t =~= s);
    lemma_trail_ws_char(t, 0);
    assert(trim(s) =~= s);
}

/// Trimming twice is trimming once.
pub proof fn lemma_trim_idempotent(s: Seq<char>)
    ensures
        trim(trim(s)) == trim(s),
{
    let t = trim(s);
    if t.len() == 0 {
        lemma_lead_ws_char(t, 0);
        lemma_trail_ws_char(trim_start(t), 0);
        assert(trim(t) =~= t);
    } else {
        let st = trim_start(s);
        lemma_lead_ws_bound(s);
        lemma_trail_ws_bound(st);
        assert(t[0] == st[0]);
        assert(st[0] == s[lead_ws(s) as int]);
        assert(t[t.len() - 1] == st[st.len() - trail_ws(st) - 1]);
        lemma_trim_plain(t);
    }
}

/// The bounds `(a, b)` of `trim(chars@)` inside `chars`.
pub fn trim_bounds(chars: &Vec<char>) -> (r: (usize, usize))
    ensures
        r.0 <= r.1 <= chars@.len(),
        chars@.subrange(r.0 as int, r.1 as int) == trim(chars@),
        r.0 == lead_ws(chars@),
{
    let n = chars.len();
    let mut a: usize = 0;
    while a < n && is_ws_exec(chars[a])
        invariant
            0 <= a <= n == chars@.len(),
            forall|i: int| 0 <= i < a ==> is_ws(#[trigger] chars@[i]),
        decreases n - a,
    {
        a += 1;
    }
    proof {
        lemma_lead_ws_char(chars@, a as int);
    }
    let mut b = n;
    while b > a && is_ws_exec(chars[b - 1])
        invariant
            0 <= a <= b <= n == chars@.len(),
            forall|i: int| b <= i < n ==> is_ws(#[trigger] chars@[i]),
        decreases b,
    {
        b -= 1;
    }
    proof {
        let t = trim_start(chars@);
        assert(t =~= chars@.skip(a as int));
        assert forall|i: int| t.len() - (n - b) <= i < t.len() implies is_ws(#[trigger] t[i]) by {
            assert(t[i] == chars@[a + i]);
        }
        if b > a {
            assert(t[t.len() - (n - b) - 1] == chars@[b - 1]);
        }
        lemma_trail_ws_char(t, (n - b) as int);
        assert(chars@.subrange(a as int, b as int) =~= trim_end(t));
    }
    (a, b)
}

/// The characters of `trim(s@)`.
pub fn trimmed_chars(s: &str) -> (v: Vec<char>)
    ensures
        v@ == trim(s@),
{
    let chars = char_vec(s);
    let (a, b) = trim_bounds(&chars);
    let mut v: Vec<char> = Vec::new();
    let mut i = a;
    while i < b
        invariant
            a <= i <= b <= chars@.len(),
            v@ == chars@.subrange(a as int, i as int),
        decreases b - i,
    {
        v.push(chars[i]);
        assert(chars@.subrange(a as int, i + 1) =~= chars@.subrange(a as int, i as int).push(chars@[i as int]));
        i += 1;
    }
    v
}

/// `str::trim` as an owned `String`.
pub fn trimmed_string(s: &str) -> (r: String)
    ensures
        r@ == trim(s@),
{
    let v = trimmed_chars(s);
    string_from_chars(&v)
}

// ---------------------------------------------------------------------------
// Substring search (`str::find`, `str::contains`, `starts_with`, `ends_with`)
// ---------------------------------------------------------------------------

/// `needle` occurs in `hay` at character index `i`.
pub open spec fn matches_at(hay: Seq<char>, needle: Seq<char>, i: int) -> bool {
    0 <= i && i + needle.len() <= hay.len() && hay.subrange(i, i + needle.len()) == needle
}

/// `needle` occurs somewhere in `hay`.
pub open spec fn contains_seq(hay: Seq<char>, needle: Seq<char>) -> bool {
    exists|i: int| matches_at(hay, needle, i)
}

/// `r` is the first occurrence of `needle` in `hay`, or `None` when there is none.
pub open spec fn is_first_match(hay: Seq<char>, needle: Seq<char>, r: Option<int>) -> bool {
    match r {
        Some(i) => matches_at(hay, needle, i) && forall|j: int| 0 <= j < i ==> !matches_at(hay, needle, j),
        None => forall|j: int| !matches_at(hay, needle, j),
    }
}

/// Whether `needle` occurs in `hay` at index `i` (checked in place).
pub fn matches_at_exec(hay: &Vec<char>, needle: &Vec<char>, i: usize) -> (r: bool)
    ensures
        r == matches_at(hay@, needle@, i as int),
{
    if i > hay.len() || hay.len() - i < needle.len() {
        return false;
    }
    let mut k: usize = 0;
    while k < needle.len()
        invariant
            i + needle@.len() <= hay.len(),
            hay.len() == hay@.len(),
            0 <= k <= needle@.len(),
            forall|j: int| 0 <= j < k ==> hay@[i + j] == needle@[j],
        decreases needle@.len() - k,
    {
        if hay[i + k] != needle[k] {
            assert(hay@.subrange(i as int, i + needle@.len())[k as int] != needle@[k as int]);
            return false;
        }
        k += 1;
    }
    assert(hay@.subrange(i as int, i + needle@.len()) =~= needle@);
    true
}

/// First character index at which `needle` occurs in `hay`.
pub fn find_chars(hay: &Vec<char>, needle: &Vec<char>) -> (r: Option<usize>)
    ensures
        is_first_match(
            hay@,
            needle@,
            match r {
                Some(i) => Some(i as int),
                None => None,
            },
        ),
{
    if needle.len() > hay.len() {
        return None;
    }
    let last = hay.len() - needle.len();
    let mut i: usize = 0;
    loop
        invariant
            last + needle@.len() == hay@.len(),
            0 <= i <= last,
            forall|j: int| 0 <= j < i ==> !matches_at(hay@, needle@, j),
        decreases last - i,
    {
        if matches_at_exec(hay, needle, i) {
            return Some(i);
        }
        if i == last {
            assert forall|j: int| !matches_at(hay@, needle@, j) by {
                if 0 <= j <= last {
                    assert(j < i || j == i);
                }
            }
            return None;
        }
        i += 1;
    }
}

/// Whether `needle` occurs in `hay`.
pub fn contains_chars(hay: &Vec<char>, needle: &Vec<char>) -> (r: bool)
    ensures
        r == contains_seq(hay@, needle@),
{
    match find_chars(hay, needle) {
        Some(i) => true,
        None => false,
    }
}

/// Whether `hay` starts with `prefix`.
pub fn starts_with_chars(hay: &Vec<char>, prefix: &Vec<char>) -> (r: bool)
    ensures
        r == matches_at(hay@, prefix@, 0),
{
    matches_at_exec(hay, prefix, 0)
}

/// Whether `hay` ends with `suffix`.
pub fn ends_with_chars(hay: &Vec<char>, suffix: &Vec<char>) -> (r: bool)
    ensures
        r == (suffix@.len() <= hay@.len() && matches_at(hay@, suffix@, hay@.len() - suffix@.len())),
{
    if suffix.len() > hay.len() {
        return false;
    }
    matches_at_exec(hay, suffix, hay.len() - suffix.len())
}

// ---------------------------------------------------------------------------
// Decimal numerals
// ---------------------------------------------------------------------------

/// The ASCII digit for `d` (`0 <= d < 10`).
pub open spec fn digit_char(d: nat) -> char {
    ((d + 48) as u32) as char
}

/// Decimal numeral of `n` without leading zeros (`"0"` for zero).
pub open spec fn dec(n: nat) -> Seq<char>
    decreases n,
{
    if n < 10 {
        seq![digit_char(n)]
    } else {
        dec(n / 10).push(digit_char(n % 10))
    }
}

/// `s` left-padded with `'0'` to at least `width` characters.
pub open spec fn zero_pad(s: Seq<char>, width: nat) -> Seq<char> {
    if s.len() >= width {
        s
    } else {
        Seq::new((width - s.len()) as nat, |i: int| '0') + s
    }
}

/// Decimal numeral of a signed value (leading `-` for negatives).
pub open spec fn dec_i64(v: int) -> Seq<char> {
    if v < 0 {
        seq!['-'] + dec((-v) as nat)
    } else {
        dec(v as nat)
    }
}

pub proof fn lemma_dec_len(n: nat)
    ensures
        dec(n).len() >= 1,
    decreases n,
{
    if n >= 10 {
        lemma_dec_len(n / 10);
    }
}

/// Decimal numerals hold no whitespace.
pub proof fn lemma_dec_no_ws(n: nat)
    ensures
        forall|i: int| 0 <= i < dec(n).len() ==> !is_ws(#[trigger] dec(n)[i]),
    decreases n,
{
    if n >= 10 {
        lemma_dec_no_ws(n / 10);
        let d = n % 10;
        assert(!is_ws(digit_char(d)));
        assert forall|i: int| 0 <= i < dec(n).len() implies !is_ws(#[trigger] dec(n)[i]) by {
            if i < dec(n / 10).len() {
                assert(dec(n)[i] == dec(n / 10)[i]);
            }
        }
    } else {
        assert(!is_ws(digit_char(n)));
    }
}

/// A signed decimal numeral is never blank.
pub proof fn lemma_dec_i64_not_blank(v: int)
    ensures
        trim(dec_i64(v)) == dec_i64(v),
        dec_i64(v).len() >= 1,
{
    let m = if v < 0 { (-v) as nat } else { v as nat };
    lemma_dec_len(m);
    lemma_dec_no_ws(m);
    let s = dec_i64(v);
    if v < 0 {
        assert(s[0] == '-');
        assert(s[s.len() - 1] == dec(m)[dec(m).len() - 1]);
    }
    lemma_trim_plain(s);
}

/// Decimal digits of `n`, appended to `out`.
pub fn push_dec(out: &mut String, n: u64)
    ensures
        final(out)@ == old(out)@ + dec(n as nat),
    decreases n,
{
    if n < 10 {
        let c = ((n as u8) + 48) as char;
        push_char(out, c);
        assert(old(out)@.push(c) =~= old(out)@ + dec(n as nat));
    } else {
        push_dec(out, n / 10);
        let d = (n % 10) as u8;
        let c = (d + 48) as char;
        push_char(out, c);
        assert(dec(n as nat) == dec((n / 10) as nat).push(digit_char((n % 10) as nat)));
        assert(old(out)@ + dec((n / 10) as nat) + seq![c] =~= old(out)@ + dec(n as nat));
    }
}

/// Decimal digits of `n` left-padded with zeros to `width`, appended to `out`.
pub fn push_dec_padded(out: &mut String, n: u64, width: usize)
    ensures
        final(out)@ == old(out)@ + zero_pad(dec(n as nat), width as nat),
{
    let mut digits = String::new();
    push_dec(&mut digits, n);
    let dv = char_vec(digits.as_str());
    assert(dv@ =~= dec(n as nat));
    let ghost start = out@;
    if dv.len() < width {
        let pad = width - dv.len();
        let mut i: usize = 0;
        while i < pad
            invariant
                0 <= i <= pad,
                out@ == start + Seq::new(i as nat, |k: int| '0'),
            decreases pad - i,
        {
            push_char(out, '0');
            assert(Seq::new((i + 1) as nat, |k: int| '0') =~= Seq::new(i as nat, |k: int| '0').push('0'));
            i += 1;
        }
    }
    let ghost mid = out@;
    push_chars(out, &dv, 0, dv.len());
    proof {
        assert(dv@.subrange(0, dv@.len() as int) =~= dv@);
        if dv@.len() < width {
            assert(start + (Seq::new((width - dv@.len()) as nat, |k: int| '0') + dv@) =~= mid + dv@);
        } else {
            assert(mid == start);
        }
    }
}

/// Decimal numeral of a signed value, appended to `out`.
pub fn push_dec_i64(out: &mut String, v: i64)
    ensures
        final(out)@ == old(out)@ + dec_i64(v as int),
{
    if v < 0 {
        push_char(out, '-');
        let m: u64 = if v == i64::MIN {
            9223372036854775808u64
        } else {
            (-v) as u64
        };
        let ghost mid = out@;
        push_dec(out, m);
        assert(old(out)@ + (seq!['-'] + dec((-v) as nat)) =~= mid + dec(m as nat));
    } else {
        push_dec(out, v as u64);
    }
}

} // verus!
