//! The Windows "HTML Format" clipboard framing (CF_HTML): building it with
//! byte offsets, and extracting the fragment back out of it.
use vstd::prelude::*;
use vstd::utf8::{decode_utf8, valid_utf8, encode_utf8};
use crate::strs::{
    self, char_vec, find_chars, contains_chars, prefix_bytes, push_chars, push_dec_padded, push_str,
    str_byte_len, string_from_chars, string_from_str,
};

verus! {

broadcast use vstd::seq::group_seq_axioms;

pub open spec fn cf_prefix() -> Seq<char> {
    "<!DOCTYPE html>\n<html>\n<head>\n<meta charset=\"utf-8\">\n</head>\n<body>\n<!--StartFragment-->"@
}

pub open spec fn cf_suffix() -> Seq<char> {
    "\n<!--EndFragment-->\n</body>\n</html>"@
}

pub open spec fn cf_header() -> Seq<char> {
    "Version:0.9\r\nStartHTML:0000000000\r\nEndHTML:0000000000\r\nStartFragment:0000000000\r\nEndFragment:0000000000\r\n"@
}

/// `str::replace(from, to)`: every non-overlapping occurrence of `from`,
/// scanning left to right, replaced by `to` (`from` non-empty).
pub open spec fn replace_all(s: Seq<char>, from: Seq<char>, to: Seq<char>) -> Seq<char>
    decreases s.len(),
{
    if s.len() == 0 || from.len() == 0 {
        s
    } else if strs::matches_at(s, from, 0) {
        to + replace_all(s.skip(from.len() as int), from, to)
    } else {
        seq![s[0]] + replace_all(s.drop_first(), from, to)
    }
}

/// The HTML document placed after the CF_HTML header.
pub open spec fn cf_content(html: Seq<char>) -> Seq<char> {
    if !strs::contains_seq(html, "<html"@) {
        cf_prefix() + html + cf_suffix()
    } else if !strs::contains_seq(html, "<!--StartFragment-->"@) {
        replace_all(
            replace_all(html, "<body>"@, "<body>\n<!--StartFragment-->"@),
            "</body>"@,
            "<!--EndFragment-->\n</body>"@,
        )
    } else {
        html
    }
}

/// Byte offset of the first occurrence of `needle` in `hay`, if any.
pub open spec fn byte_find(hay: Seq<char>, needle: Seq<char>) -> Option<int> {
    if strs::contains_seq(hay, needle) {
        Some(
            strs::byte_len(
                hay.take(
                    choose|i: int|
                        strs::matches_at(hay, needle, i) && forall|j: int|
                            0 <= j < i ==> !strs::matches_at(hay, needle, j),
                ),
            ) as int,
        )
    } else {
        None
    }
}

/// A ten-digit zero-padded decimal field.
pub open spec fn field10(n: int) -> Seq<char> {
    strs::zero_pad(strs::dec(n as nat), 10)
}

/// What `generate_cf_html(html)` returns.
pub open spec fn cf_html_spec(html: Seq<char>) -> Seq<char> {
    let content = cf_content(html);
    let start_html = strs::byte_len(cf_header()) as int;
    let end_html = start_html + strs::byte_len(content);
    let start_fragment = start_html + match byte_find(content, "<!--StartFragment-->"@) {
        Some(i) => i,
        None => 0,
    };
    let end_fragment = start_html + match byte_find(content, "<!--EndFragment-->"@) {
        Some(i) => i,
        None => strs::byte_len(content) as int,
    };
    "Version:0.9\r\nStartHTML:"@ + field10(start_html) + "\r\nEndHTML:"@ + field10(end_html)
        + "\r\nStartFragment:"@ + field10(start_fragment) + "\r\nEndFragment:"@ + field10(end_fragment)
        + "\r\n"@ + content
}

proof fn lemma_first_is(hay: Seq<char>, needle: Seq<char>, i: int)
    requires
        strs::is_first_match(hay, needle, Some(i)),
    ensures
        (choose|k: int| strs::matches_at(hay, needle, k) && forall|j: int| 0 <= j < k ==> !strs::matches_at(hay, needle, j)) == i,
{
    let c = choose|k: int| strs::matches_at(hay, needle, k) && forall|j: int| 0 <= j < k ==> !strs::matches_at(hay, needle, j);
    assert(strs::matches_at(hay, needle, i));
    assert(strs::matches_at(hay, needle, c) && forall|j: int| 0 <= j < c ==> !strs::matches_at(hay, needle, j));
    if c < i {
        assert(!strs::matches_at(hay, needle, c));
    }
    if i < c {
        assert(!strs::matches_at(hay, needle, i));
    }
}

/// Replaces every occurrence of `from` in `s` by `to`.
fn replace_chars(s: &Vec<char>, from: &str, to: &str) -> (r: Vec<char>)
    requires
        from@.len() > 0,
    ensures
        r@ == replace_all(s@, from@, to@),
{
    let f = char_vec(from);
    let t = char_vec(to);
    let mut out: Vec<char> = Vec::new();
    let mut i: usize = 0;
    let n = s.len();
    proof {
        assert(s@.skip(0) =~= s@);
    }
    while i < n
        invariant
            0 <= i <= n == s@.len(),
            f@ == from@,
            t@ == to@,
            f@.len() > 0,
            replace_all(s@, f@, t@) == out@ + replace_all(s@.skip(i as int), f@, t@),
        decreases n - i,
    {
        let ghost rest = s@.skip(i as int);
        if strs::matches_at_exec(s, &f, i) {
            proof {
                assert(rest.subrange(0, f@.len() as int) =~= s@.subrange(i as int, i + f@.len()));
                assert(rest.skip(f@.len() as int) =~= s@.skip(i + f@.len()));
            }
            let mut k: usize = 0;
            let ghost before = out@;
            while k < t.len()
                invariant
                    0 <= k <= t@.len(),
                    out@ == before + t@.take(k as int),
                decreases t@.len() - k,
            {
                out.push(t[k]);
                assert(t@.take(k + 1) =~= t@.take(k as int).push(t@[k as int]));
                k += 1;
            }
            proof {
                assert(t@.take(t@.len() as int) =~= t@);
                assert(before + (t@ + replace_all(s@.skip(i + f@.len()), f@, t@)) =~= out@ + replace_all(
                    s@.skip(i + f@.len()),
                    f@,
                    t@,
                ));
            }
            i = i + f.len();
        } else {
            proof {
                if i + f@.len() <= n {
                    assert(rest.subrange(0, f@.len() as int) =~= s@.subrange(i as int, i + f@.len()));
                }
                assert(rest.drop_first() =~= s@.skip(i + 1));
                assert(out@ + (seq![s@[i as int]] + replace_all(s@.skip(i + 1), f@, t@)) =~= out@.push(s@[i as int])
                    + replace_all(s@.skip(i + 1), f@, t@));
            }
            out.push(s[i]);
            i += 1;
        }
    }
    proof {
        assert(s@.skip(n as int) =~= Seq::<char>::empty());
        assert(out@ + Seq::<char>::empty() =~= out@);
    }
    out
}

/// Whether `hay` contains the literal `lit`.
fn contains_lit(hay: &Vec<char>, lit: &str) -> (r: bool)
    ensures
        r == strs::contains_seq(hay@, lit@),
{
    let l = char_vec(lit);
    contains_chars(hay, &l)
}

/// The CF_HTML document for `html`.
fn cf_content_chars(html: &str) -> (r: Vec<char>)
    ensures
        r@ == cf_content(html@),
{
    let h = char_vec(html);
    if !contains_lit(&h, "<html") {
        let mut v = char_vec("<!DOCTYPE html>\n<html>\n<head>\n<meta charset=\"utf-8\">\n</head>\n<body>\n<!--StartFragment-->");
        let mut i: usize = 0;
        let ghost p = v@;
        while i < h.len()
            invariant
                0 <= i <= h@.len(),
                v@ == p + h@.take(i as int),
            decreases h@.len() - i,
        {
            v.push(h[i]);
            assert(h@.take(i + 1) =~= h@.take(i as int).push(h@[i as int]));
            i += 1;
        }
        let suffix = char_vec("\n<!--EndFragment-->\n</body>\n</html>");
        let mut j: usize = 0;
        let ghost q = v@;
        while j < suffix.len()
            invariant
                0 <= j <= suffix@.len(),
                v@ == q + suffix@.take(j as int),
            decreases suffix@.len() - j,
        {
            v.push(suffix[j]);
            assert(suffix@.take(j + 1) =~= suffix@.take(j as int).push(suffix@[j as int]));
            j += 1;
        }
        proof {
            assert(h@.take(h@.len() as int) =~= h@);
            assert(suffix@.take(suffix@.len() as int) =~= suffix@);
            assert(v@ =~= cf_prefix() + html@ + cf_suffix());
        }
        v
    } else if !contains_lit(&h, "<!--StartFragment-->") {
        assert("<body>"@.len() > 0) by {
            reveal_strlit("<body>");
        }
        assert("</body>"@.len() > 0) by {
            reveal_strlit("</body>");
        }
        let first = replace_chars(&h, "<body>", "<body>\n<!--StartFragment-->");
        replace_chars(&first, "</body>", "<!--EndFragment-->\n</body>")
    } else {
        h
    }
}

/// Byte offset of the first occurrence of `lit` in `hay`, given its prefix
/// byte offsets.
fn byte_find_lit(hay: &Vec<char>, pre: &Vec<usize>, lit: &str) -> (r: Option<usize>)
    requires
        pre@.len() == hay@.len() + 1,
        forall|j: int| 0 <= j <= hay@.len() ==> #[trigger] pre@[j] == strs::byte_len(hay@.take(j)),
    ensures
        match r {
            Some(b) => byte_find(hay@, lit@) == Some(b as int) && b <= strs::byte_len(hay@),
            None => byte_find(hay@, lit@) is None,
        },
{
    let l = char_vec(lit);
    match find_chars(hay, &l) {
        Some(i) => {
            proof {
                lemma_first_is(hay@, l@, i as int);
                strs::lemma_byte_len_take_mono(hay@, i as int, hay@.len() as int);
                strs::lemma_byte_len_full(hay@);
            }
            Some(pre[i])
        },
        None => None,
    }
}

/// Wraps `html` in the CF_HTML clipboard framing: a fixed-width header of
/// byte offsets (`StartHTML`, `EndHTML`, `StartFragment`, `EndFragment`) and
/// a document that marks the fragment with `<!--StartFragment-->` and
/// `<!--EndFragment-->`.
pub fn generate_cf_html(html: &str) -> (r: String)
    requires
        strs::byte_len(cf_header()) + strs::byte_len(cf_content(html@)) <= usize::MAX,
    ensures
        r@ == cf_html_spec(html@),
{
    let content = cf_content_chars(html);
    let content_s = string_from_chars(&content);
    let content_len = str_byte_len(content_s.as_str());
    let pre = prefix_bytes(&content);
    let start_html = str_byte_len(
        "Version:0.9\r\nStartHTML:0000000000\r\nEndHTML:0000000000\r\nStartFragment:0000000000\r\nEndFragment:0000000000\r\n",
    );
    let end_html = start_html + content_len;
    let sf = match byte_find_lit(&content, &pre, "<!--StartFragment-->") {
        Some(i) => i,
        None => 0,
    };
    let ef = match byte_find_lit(&content, &pre, "<!--EndFragment-->") {
        Some(i) => i,
        None => content_len,
    };
    let start_fragment = start_html + sf;
    let end_fragment = start_html + ef;
    let mut out = String::new();
    push_str(&mut out, "Version:0.9\r\nStartHTML:");
    push_dec_padded(&mut out, start_html as u64, 10);
    let ghost p1 = out@;
    push_str(&mut out, "\r\nEndHTML:");
    push_dec_padded(&mut out, end_html as u64, 10);
    let ghost p2 = out@;
    push_str(&mut out, "\r\nStartFragment:");
    push_dec_padded(&mut out, start_fragment as u64, 10);
    let ghost p3 = out@;
    push_str(&mut out, "\r\nEndFragment:");
    push_dec_padded(&mut out, end_fragment as u64, 10);
    let ghost p4 = out@;
    push_str(&mut out, "\r\n");
    push_chars(&mut out, &content, 0, content.len());
    proof {
        assert(content@.subrange(0, content@.len() as int) =~= content@);
        assert(p1 =~= Seq::<char>::empty() + "Version:0.9\r\nStartHTML:"@ + field10(start_html as int));
        assert(p2 =~= p1 + "\r\nEndHTML:"@ + field10(end_html as int));
        assert(p3 =~= p2 + "\r\nStartFragment:"@ + field10(start_fragment as int));
        assert(p4 =~= p3 + "\r\nEndFragment:"@ + field10(end_fragment as int));
        assert(out@ =~= p4 + "\r\n"@ + content@);
    }
    out
}

// ---------------------------------------------------------------------------
// Extraction
// ---------------------------------------------------------------------------

/// The fragment between the first `<!--StartFragment-->` and the first
/// `<!--EndFragment-->`, when the end lies strictly after the start.
pub open spec fn fragment_by_markers(s: Seq<char>) -> Option<Seq<char>> {
    let sm = "<!--StartFragment-->"@;
    let em = "<!--EndFragment-->"@;
    match (crate::text::first_match(s, sm), crate::text::first_match(s, em)) {
        (Some(i), Some(j)) => {
            if strs::byte_len(s.take(j)) <= strs::byte_len(s.take(i)) + strs::byte_len(sm) {
                None
            } else {
                Some(s.subrange(i + sm.len(), j))
            }
        },
        _ => None,
    }
}

/// Number of leading ASCII digits of `s`.
pub open spec fn lead_digits(s: Seq<char>) -> nat
    decreases s.len(),
{
    if s.len() > 0 && '0' <= s[0] && s[0] <= '9' {
        1 + lead_digits(s.drop_first())
    } else {
        0
    }
}

/// The value of a string of ASCII digits.
pub open spec fn digits_value(s: Seq<char>) -> nat
    decreases s.len(),
{
    if s.len() == 0 {
        0
    } else {
        digits_value(s.drop_last()) * 10 + ((s.last() as u32) - 48) as nat
    }
}

/// The decimal number right after the first occurrence of `key`, when it has
/// at least one digit and fits in `usize`.
pub open spec fn offset_after(s: Seq<char>, key: Seq<char>) -> Option<int> {
    match crate::text::first_match(s, key) {
        None => None,
        Some(i) => {
            let rest = s.skip(i + key.len());
            let d = rest.take(lead_digits(rest) as int);
            if d.len() == 0 || digits_value(d) > usize::MAX {
                None
            } else {
                Some(digits_value(d) as int)
            }
        },
    }
}

/// `a`, or `b` when `a` is absent.
pub open spec fn or_else(a: Option<int>, b: Option<int>) -> Option<int> {
    match a {
        Some(x) => Some(x),
        None => b,
    }
}

/// The text of the bytes `[start, end)` of `s`, taken from the CF_HTML header
/// offsets (`StartFragment`/`EndFragment`, else `StartHTML`/`EndHTML`), when
/// the range is ordered, in bounds and valid UTF-8.
pub open spec fn fragment_by_offsets(s: Seq<char>) -> Option<Seq<char>> {
    let a = or_else(offset_after(s, "StartFragment:"@), offset_after(s, "StartHTML:"@));
    let b = or_else(offset_after(s, "EndFragment:"@), offset_after(s, "EndHTML:"@));
    match (a, b) {
        (Some(x), Some(y)) => {
            let bytes = encode_utf8(s);
            if x < y && y <= bytes.len() && valid_utf8(bytes.subrange(x, y)) {
                Some(decode_utf8(bytes.subrange(x, y)))
            } else {
                None
            }
        },
        _ => None,
    }
}

/// What `normalize_clipboard_html(input)` returns.
pub open spec fn normalize_spec(s: Seq<char>) -> Seq<char> {
    if strs::contains_seq(s, "StartFragment"@) || strs::contains_seq(s, "StartHTML"@) {
        match fragment_by_markers(s) {
            Some(f) => f,
            None => match fragment_by_offsets(s) {
                Some(f) => f,
                None => s,
            },
        }
    } else {
        s
    }
}

fn extract_cf_html_by_markers(s: &Vec<char>, pre: &Vec<usize>) -> (r: Option<String>)
    requires
        pre@.len() == s@.len() + 1,
        forall|j: int| 0 <= j <= s@.len() ==> #[trigger] pre@[j] == strs::byte_len(s@.take(j)),
    ensures
        match r {
            Some(f) => fragment_by_markers(s@) == Some(f@),
            None => fragment_by_markers(s@) is None,
        },
{
    let sm = char_vec("<!--StartFragment-->");
    let em = char_vec("<!--EndFragment-->");
    let i = match find_chars(s, &sm) {
        Some(i) => i,
        None => {
            proof {
                assert(crate::text::first_match(s@, sm@) is None);
            }
            return None;
        },
    };
    let j = match find_chars(s, &em) {
        Some(j) => j,
        None => {
            proof {
                assert(crate::text::first_match(s@, em@) is None);
            }
            return None;
        },
    };
    proof {
        lemma_first_is(s@, sm@, i as int);
        lemma_first_is(s@, em@, j as int);
        assert(strs::matches_at(s@, sm@, i as int));
        assert(s@.len() == s.len());
        strs::lemma_byte_len_subrange(s@, i as int, i + sm@.len());
        assert(s@.subrange(i as int, i + sm@.len()) == sm@);
        strs::lemma_byte_len_take_mono(s@, i + sm@.len(), s@.len() as int);
        strs::lemma_byte_len_full(s@);
    }
    let start = pre[i + sm.len()];
    let end = pre[j];
    if end <= start {
        return None;
    }
    proof {
        if j < i + sm@.len() {
            strs::lemma_byte_len_take_mono(s@, j as int, i + sm@.len());
        }
    }
    let mut out = String::new();
    push_chars(&mut out, s, i + sm.len(), j);
    assert(Seq::<char>::empty() + s@.subrange(i + sm@.len(), j as int) =~= s@.subrange(i + sm@.len(), j as int));
    Some(out)
}

/// The number right after the first `key` in `s`.
fn parse_offset(s: &Vec<char>, key: &str) -> (r: Option<usize>)
    ensures
        match r {
            Some(v) => offset_after(s@, key@) == Some(v as int),
            None => offset_after(s@, key@) is None,
        },
{
    let k = char_vec(key);
    let i = match find_chars(s, &k) {
        Some(i) => i,
        None => {
            proof {
                assert(crate::text::first_match(s@, k@) is None);
            }
            return None;
        },
    };
    proof {
        lemma_first_is(s@, k@, i as int);
        assert(strs::matches_at(s@, k@, i as int));
        assert(s@.len() == s.len());
    }
    let start = i + k.len();
    let ghost rest = s@.skip(start as int);
    let mut j = start;
    let mut value: usize = 0;
    let mut overflow = false;
    proof {
        assert(rest.take(0) =~= Seq::<char>::empty());
    }
    while j < s.len() && '0' <= s[j] && s[j] <= '9'
        invariant
            start <= j <= s@.len(),
            rest == s@.skip(start as int),
            forall|q: int| start <= q < j ==> '0' <= #[trigger] s@[q] <= '9',
            !overflow ==> value as nat == digits_value(rest.take(j - start)),
            overflow ==> digits_value(rest.take(j - start)) > usize::MAX,
        decreases s@.len() - j,
    {
        let d = (s[j] as u32 - 48) as usize;
        proof {
            assert(rest.take(j - start + 1).drop_last() =~= rest.take(j - start));
            assert(rest.take(j - start + 1).last() == s@[j as int]);
        }
        if !overflow {
            if value > (usize::MAX - d) / 10 {
                overflow = true;
                proof {
                    assert(value * 10 + d > usize::MAX) by (nonlinear_arith)
                        requires
                            value > (usize::MAX - d) / 10,
                            d <= 9,
                    ;
                }
            } else {
                proof {
                    assert(value * 10 + d <= usize::MAX) by (nonlinear_arith)
                        requires
                            value <= (usize::MAX - d) / 10,
                            d <= 9,
                    ;
                }
                value = value * 10 + d;
            }
        } else {
            proof {
                let t = rest.take(j - start);
                assert(digits_value(t) * 10 >= digits_value(t)) by (nonlinear_arith);
            }
        }
        j += 1;
    }
    proof {
        let count = j - start;
        assert forall|q: int| 0 <= q < count implies '0' <= #[trigger] rest[q] <= '9' by {
            assert(rest[q] == s@[start + q]);
        }
        lemma_lead_digits(rest, count as int);
    }
    if j == start || overflow {
        None
    } else {
        Some(value)
    }
}

proof fn lemma_lead_digits(s: Seq<char>, k: int)
    requires
        0 <= k <= s.len(),
        forall|q: int| 0 <= q < k ==> '0' <= #[trigger] s[q] <= '9',
        k < s.len() ==> !('0' <= s[k] && s[k] <= '9'),
    ensures
        lead_digits(s) == k,
    decreases s.len(),
{
    if k > 0 {
        assert forall|q: int| 0 <= q < k - 1 implies '0' <= #[trigger] s.drop_first()[q] <= '9' by {
            assert(s.drop_first()[q] == s[q + 1]);
        }
        lemma_lead_digits(s.drop_first(), k - 1);
    }
}

/// `std::str::from_utf8`, keeping the text on success. The std documentation
/// promises exactly a check for valid UTF-8 and, on success, the same bytes
/// read as text; vstd's UTF-8 definitions state those.
#[verifier::external_body]
fn utf8_to_string(bytes: &[u8]) -> (r: Option<String>)
    ensures
        r is Some <==> valid_utf8(bytes@),
        r matches Some(t) ==> t@ == decode_utf8(bytes@),
{
    std::str::from_utf8(bytes).ok().map(|t| t.to_string())
}

/// The first offset found after `k1`, else after `k2`.
fn offset_either(s: &Vec<char>, k1: &str, k2: &str) -> (r: Option<usize>)
    ensures
        match r {
            Some(v) => or_else(offset_after(s@, k1@), offset_after(s@, k2@)) == Some(v as int),
            None => or_else(offset_after(s@, k1@), offset_after(s@, k2@)) is None,
        },
{
    match parse_offset(s, k1) {
        Some(v) => Some(v),
        None => parse_offset(s, k2),
    }
}

/// Copies `bytes[x..y]`.
fn byte_range(bytes: &[u8], x: usize, y: usize) -> (piece: Vec<u8>)
    requires
        x <= y <= bytes@.len(),
    ensures
        piece@ == bytes@.subrange(x as int, y as int),
{
    let mut piece: Vec<u8> = Vec::new();
    let mut k = x;
    while k < y
        invariant
            x <= k <= y <= bytes@.len(),
            piece@ == bytes@.subrange(x as int, k as int),
        decreases y - k,
    {
        piece.push(bytes[k]);
        assert(bytes@.subrange(x as int, k + 1) =~= bytes@.subrange(x as int, k as int).push(bytes@[k as int]));
        k += 1;
    }
    piece
}

fn extract_cf_html_by_offsets(input: &str, s: &Vec<char>) -> (r: Option<String>)
    requires
        s@ == input@,
    ensures
        match r {
            Some(f) => fragment_by_offsets(s@) == Some(f@),
            None => fragment_by_offsets(s@) is None,
        },
{
    let bytes = input.as_bytes();
    let len = bytes.len();
    assert(bytes@ == encode_utf8(s@));
    let a = offset_either(s, "StartFragment:", "StartHTML:");
    let b = offset_either(s, "EndFragment:", "EndHTML:");
    let (x, y) = match (a, b) {
        (Some(x), Some(y)) => (x, y),
        _ => {
            return None;
        },
    };
    if !(x < y && y <= len) {
        return None;
    }
    let piece = byte_range(bytes, x, y);
    utf8_to_string(piece.as_slice())
}

/// Extracts the HTML fragment from CF_HTML clipboard data: between the
/// fragment markers when present, else by the header's byte offsets; any
/// other input is returned unchanged.
pub fn normalize_clipboard_html(input: &str) -> (r: String)
    ensures
        r@ == normalize_spec(input@),
{
    let s = char_vec(input);
    if contains_lit(&s, "StartFragment") || contains_lit(&s, "StartHTML") {
        let total = str_byte_len(input);
        let pre = prefix_bytes(&s);
        if let Some(fragment) = extract_cf_html_by_markers(&s, &pre) {
            return fragment;
        }
        if let Some(fragment) = extract_cf_html_by_offsets(input, &s) {
            return fragment;
        }
    }
    string_from_str(input)
}


/// Within the document prefix, no `<` starts an end marker, and each `<`
/// is followed by at least 17 more characters.
proof fn lemma_prefix_has_no_end_marker()
    ensures
        forall|k: int|
            0 <= k < cf_prefix().len() ==> #[trigger] cf_prefix()[k] != '<' || (k + 18 <= cf_prefix().len() && cf_prefix()[k + 4] != 'E'),
{
    reveal_strlit("<!DOCTYPE html>\n<html>\n<head>\n<meta charset=\"utf-8\">\n</head>\n<body>\n<!--StartFragment-->");
    assert forall|k: int| 0 <= k < cf_prefix().len() implies #[trigger] cf_prefix()[k] != '<' || (k + 18 <= cf_prefix().len() && cf_prefix()[k + 4] != 'E') by {
        assert(k == 0 || k == 1 || k == 2 || k == 3 || k == 4 || k == 5 || k == 6 || k == 7 || k == 8 || k == 9 || k == 10 || k == 11 || k == 12 || k == 13 || k == 14 || k == 15 || k == 16 || k == 17 || k == 18 || k == 19 || k == 20 || k == 21 || k == 22 || k == 23 || k == 24 || k == 25 || k == 26 || k == 27 || k == 28 || k == 29 || k == 30 || k == 31 || k == 32 || k == 33 || k == 34 || k == 35 || k == 36 || k == 37 || k == 38 || k == 39 || k == 40 || k == 41 || k == 42 || k == 43 || k == 44 || k == 45 || k == 46 || k == 47 || k == 48 || k == 49 || k == 50 || k == 51 || k == 52 || k == 53 || k == 54 || k == 55 || k == 56 || k == 57 || k == 58 || k == 59 || k == 60 || k == 61 || k == 62 || k == 63 || k == 64 || k == 65 || k == 66 || k == 67 || k == 68 || k == 69 || k == 70 || k == 71 || k == 72 || k == 73 || k == 74 || k == 75 || k == 76 || k == 77 || k == 78 || k == 79 || k == 80 || k == 81 || k == 82 || k == 83 || k == 84 || k == 85 || k == 86 || k == 87);
    }
}


/// No character of `s` is `<`.
pub open spec fn no_lt(s: Seq<char>) -> bool {
    forall|i: int| 0 <= i < s.len() ==> #[trigger] s[i] != '<'
}

proof fn lemma_no_lt_concat(a: Seq<char>, b: Seq<char>)
    requires
        no_lt(a),
        no_lt(b),
    ensures
        no_lt(a + b),
{
    assert forall|i: int| 0 <= i < (a + b).len() implies #[trigger] (a + b)[i] != '<' by {
        if i < a.len() {
            assert((a + b)[i] == a[i]);
        } else {
            assert((a + b)[i] == b[i - a.len()]);
        }
    }
}

proof fn lemma_dec_no_lt(n: nat)
    ensures
        no_lt(strs::dec(n)),
    decreases n,
{
    if n >= 10 {
        lemma_dec_no_lt(n / 10);
        let d = n % 10;
        assert(strs::digit_char(d) != '<');
        assert forall|i: int| 0 <= i < strs::dec(n).len() implies #[trigger] strs::dec(n)[i] != '<' by {
            if i < strs::dec(n / 10).len() {
                assert(strs::dec(n)[i] == strs::dec(n / 10)[i]);
            }
        }
    } else {
        assert(strs::digit_char(n) != '<');
    }
}

proof fn lemma_field10_no_lt(n: int)
    ensures
        no_lt(field10(n)),
{
    lemma_dec_no_lt(n as nat);
    let d = strs::dec(n as nat);
    if d.len() < 10 {
        let z = Seq::new((10 - d.len()) as nat, |i: int| '0');
        assert(no_lt(z));
        lemma_no_lt_concat(z, d);
    }
}

proof fn lemma_header_piece_0_no_lt()
    ensures
        no_lt("Version:0.9\r\nStartHTML:"@),
{
    reveal_strlit("Version:0.9\r\nStartHTML:");
    assert forall|k: int| 0 <= k < "Version:0.9\r\nStartHTML:"@.len() implies #[trigger] "Version:0.9\r\nStartHTML:"@[k] != '<' by {
        assert(k == 0 || k == 1 || k == 2 || k == 3 || k == 4 || k == 5 || k == 6 || k == 7 || k == 8 || k == 9 || k == 10 || k == 11 || k == 12 || k == 13 || k == 14 || k == 15 || k == 16 || k == 17 || k == 18 || k == 19 || k == 20 || k == 21 || k == 22);
    }
}

proof fn lemma_header_piece_1_no_lt()
    ensures
        no_lt("\r\nEndHTML:"@),
{
    reveal_strlit("\r\nEndHTML:");
    assert forall|k: int| 0 <= k < "\r\nEndHTML:"@.len() implies #[trigger] "\r\nEndHTML:"@[k] != '<' by {
        assert(k == 0 || k == 1 || k == 2 || k == 3 || k == 4 || k == 5 || k == 6 || k == 7 || k == 8 || k == 9);
    }
}

proof fn lemma_header_piece_2_no_lt()
    ensures
        no_lt("\r\nStartFragment:"@),
{
    reveal_strlit("\r\nStartFragment:");
    assert forall|k: int| 0 <= k < "\r\nStartFragment:"@.len() implies #[trigger] "\r\nStartFragment:"@[k] != '<' by {
        assert(k == 0 || k == 1 || k == 2 || k == 3 || k == 4 || k == 5 || k == 6 || k == 7 || k == 8 || k == 9 || k == 10 || k == 11 || k == 12 || k == 13 || k == 14 || k == 15);
    }
}

proof fn lemma_header_piece_3_no_lt()
    ensures
        no_lt("\r\nEndFragment:"@),
{
    reveal_strlit("\r\nEndFragment:");
    assert forall|k: int| 0 <= k < "\r\nEndFragment:"@.len() implies #[trigger] "\r\nEndFragment:"@[k] != '<' by {
        assert(k == 0 || k == 1 || k == 2 || k == 3 || k == 4 || k == 5 || k == 6 || k == 7 || k == 8 || k == 9 || k == 10 || k == 11 || k == 12 || k == 13);
    }
}

proof fn lemma_header_piece_4_no_lt()
    ensures
        no_lt("\r\n"@),
{
    reveal_strlit("\r\n");
    assert forall|k: int| 0 <= k < "\r\n"@.len() implies #[trigger] "\r\n"@[k] != '<' by {
        assert(k == 0 || k == 1);
    }
}

/// Within the document prefix, the start marker occurs only at its end.
proof fn lemma_prefix_start_marker()
    ensures
        cf_prefix().len() == 88,
        cf_prefix().subrange(68, 88) == "<!--StartFragment-->"@,
        forall|k: int| 0 <= k < 68 ==> #[trigger] cf_prefix()[k] != '<' || cf_prefix()[k + 4] != 'S',
{
    reveal_strlit("<!DOCTYPE html>\n<html>\n<head>\n<meta charset=\"utf-8\">\n</head>\n<body>\n<!--StartFragment-->");
    reveal_strlit("<!--StartFragment-->");
    assert(cf_prefix().subrange(68, 88) =~= "<!--StartFragment-->"@);
    assert forall|k: int| 0 <= k < 68 implies #[trigger] cf_prefix()[k] != '<' || cf_prefix()[k + 4] != 'S' by {
        assert(k == 0 || k == 1 || k == 2 || k == 3 || k == 4 || k == 5 || k == 6 || k == 7 || k == 8 || k == 9 || k == 10 || k == 11 || k == 12 || k == 13 || k == 14 || k == 15 || k == 16 || k == 17 || k == 18 || k == 19 || k == 20 || k == 21 || k == 22 || k == 23 || k == 24 || k == 25 || k == 26 || k == 27 || k == 28 || k == 29 || k == 30 || k == 31 || k == 32 || k == 33 || k == 34 || k == 35 || k == 36 || k == 37 || k == 38 || k == 39 || k == 40 || k == 41 || k == 42 || k == 43 || k == 44 || k == 45 || k == 46 || k == 47 || k == 48 || k == 49 || k == 50 || k == 51 || k == 52 || k == 53 || k == 54 || k == 55 || k == 56 || k == 57 || k == 58 || k == 59 || k == 60 || k == 61 || k == 62 || k == 63 || k == 64 || k == 65 || k == 66 || k == 67);
    }
}

/// The suffix starts with a line break and then the end marker.
proof fn lemma_suffix_end_marker()
    ensures
        cf_suffix().len() >= 19,
        cf_suffix()[0] == '\n',
        cf_suffix().subrange(1, 19) == "<!--EndFragment-->"@,
        "<!--EndFragment-->"@.len() == 18,
        "<!--EndFragment-->"@[0] == '<',
        "<!--EndFragment-->"@[4] == 'E',
        forall|k: int| 0 <= k < 18 ==> #[trigger] "<!--EndFragment-->"@[k] != '\n',
        "<!--StartFragment-->"@.len() == 20,
        "<!--StartFragment-->"@[0] == '<',
        "<!--StartFragment-->"@[4] == 'S',
        "<!--StartFragment-->"@.subrange(4, 17) == "StartFragment"@,
{
    reveal_strlit("\n<!--EndFragment-->\n</body>\n</html>");
    reveal_strlit("<!--EndFragment-->");
    reveal_strlit("<!--StartFragment-->");
    reveal_strlit("StartFragment");
    assert(cf_suffix().subrange(1, 19) =~= "<!--EndFragment-->"@);
    assert("<!--StartFragment-->"@.subrange(4, 17) =~= "StartFragment"@);
    assert forall|k: int| 0 <= k < 18 implies #[trigger] "<!--EndFragment-->"@[k] != '\n' by {
        assert(k == 0 || k == 1 || k == 2 || k == 3 || k == 4 || k == 5 || k == 6 || k == 7 || k == 8 || k == 9 || k == 10 || k == 11 || k == 12 || k == 13 || k == 14 || k == 15 || k == 16 || k == 17);
    }
}

/// The CF_HTML header of `html` (everything before the document).
pub open spec fn cf_head(html: Seq<char>) -> Seq<char> {
    let content = cf_content(html);
    let start_html = strs::byte_len(cf_header()) as int;
    let end_html = start_html + strs::byte_len(content);
    let start_fragment = start_html + match byte_find(content, "<!--StartFragment-->"@) {
        Some(i) => i,
        None => 0,
    };
    let end_fragment = start_html + match byte_find(content, "<!--EndFragment-->"@) {
        Some(i) => i,
        None => strs::byte_len(content) as int,
    };
    "Version:0.9\r\nStartHTML:"@ + field10(start_html) + "\r\nEndHTML:"@ + field10(end_html)
        + "\r\nStartFragment:"@ + field10(start_fragment) + "\r\nEndFragment:"@ + field10(end_fragment)
        + "\r\n"@
}

proof fn lemma_head_no_lt(html: Seq<char>)
    ensures
        no_lt(cf_head(html)),
        cf_html_spec(html) == cf_head(html) + cf_content(html),
{
    let content = cf_content(html);
    let start_html = strs::byte_len(cf_header()) as int;
    let end_html = start_html + strs::byte_len(content);
    let start_fragment = start_html + match byte_find(content, "<!--StartFragment-->"@) {
        Some(i) => i,
        None => 0,
    };
    let end_fragment = start_html + match byte_find(content, "<!--EndFragment-->"@) {
        Some(i) => i,
        None => strs::byte_len(content) as int,
    };
    lemma_header_piece_0_no_lt();
    lemma_header_piece_1_no_lt();
    lemma_header_piece_2_no_lt();
    lemma_header_piece_3_no_lt();
    lemma_header_piece_4_no_lt();
    lemma_field10_no_lt(start_html);
    lemma_field10_no_lt(end_html);
    lemma_field10_no_lt(start_fragment);
    lemma_field10_no_lt(end_fragment);
    let p0 = "Version:0.9\r\nStartHTML:"@ + field10(start_html);
    lemma_no_lt_concat("Version:0.9\r\nStartHTML:"@, field10(start_html));
    let p1 = p0 + "\r\nEndHTML:"@;
    lemma_no_lt_concat(p0, "\r\nEndHTML:"@);
    let p2 = p1 + field10(end_html);
    lemma_no_lt_concat(p1, field10(end_html));
    let p3 = p2 + "\r\nStartFragment:"@;
    lemma_no_lt_concat(p2, "\r\nStartFragment:"@);
    let p4 = p3 + field10(start_fragment);
    lemma_no_lt_concat(p3, field10(start_fragment));
    let p5 = p4 + "\r\nEndFragment:"@;
    lemma_no_lt_concat(p4, "\r\nEndFragment:"@);
    let p6 = p5 + field10(end_fragment);
    lemma_no_lt_concat(p5, field10(end_fragment));
    lemma_no_lt_concat(p6, "\r\n"@);
    assert(cf_html_spec(html) =~= cf_head(html) + cf_content(html));
}

/// The facts of the marker texts and of the document's prefix and suffix
/// that locating the fragment needs.
pub open spec fn frame_facts(pre: Seq<char>, suf: Seq<char>, sm: Seq<char>, em: Seq<char>) -> bool {
    &&& pre.len() == 88
    &&& pre.subrange(68, 88) == sm
    &&& forall|k: int| 0 <= k < 68 ==> #[trigger] pre[k] != '<' || pre[k + 4] != 'S'
    &&& forall|k: int| 0 <= k < 88 ==> #[trigger] pre[k] != '<' || (k + 18 <= 88 && pre[k + 4] != 'E')
    &&& suf.len() >= 19
    &&& suf[0] == '\n'
    &&& suf.subrange(1, 19) == em
    &&& em.len() == 18
    &&& em[0] == '<'
    &&& em[4] == 'E'
    &&& forall|k: int| 0 <= k < 18 ==> #[trigger] em[k] != '\n'
    &&& sm.len() == 20
    &&& sm[0] == '<'
    &&& sm[4] == 'S'
}

proof fn lemma_start_first(hd: Seq<char>, pre: Seq<char>, h: Seq<char>, suf: Seq<char>, sm: Seq<char>, em: Seq<char>)
    requires
        no_lt(hd),
        frame_facts(pre, suf, sm, em),
    ensures
        strs::is_first_match(hd + pre + h + suf, sm, Some(hd.len() + 68int)),
{
    let s = hd + pre + h + suf;
    let a = hd.len() as int;
    assert(s.subrange(a + 68, a + 88) =~= pre.subrange(68, 88));
    assert forall|k: int| 0 <= k < a + 68 implies !strs::matches_at(s, sm, k) by {
        if strs::matches_at(s, sm, k) {
            assert(s.subrange(k, k + 20)[0] == sm[0]);
            assert(s.subrange(k, k + 20)[4] == sm[4]);
            if k < a {
                assert(s[k] == hd[k]);
            } else {
                assert(s[k] == pre[k - a]);
                assert(s[k + 4] == pre[k - a + 4]);
            }
        }
    }
}

proof fn lemma_end_first(hd: Seq<char>, pre: Seq<char>, h: Seq<char>, suf: Seq<char>, sm: Seq<char>, em: Seq<char>)
    requires
        no_lt(hd),
        frame_facts(pre, suf, sm, em),
        !strs::contains_seq(h, em),
    ensures
        strs::is_first_match(hd + pre + h + suf, em, Some(hd.len() + 88 + h.len() + 1int)),
{
    let s = hd + pre + h + suf;
    let a = hd.len() as int;
    let b = a + 88;
    let e = b + h.len();
    assert(s.subrange(e + 1, e + 19) =~= suf.subrange(1, 19));
    assert forall|k: int| 0 <= k < e + 1 implies !strs::matches_at(s, em, k) by {
        if strs::matches_at(s, em, k) {
            let w = s.subrange(k, k + 18);
            assert(w[0] == em[0]);
            assert(w[4] == em[4]);
            if k < a {
                assert(s[k] == hd[k]);
            } else if k < b {
                assert(s[k] == pre[k - a]);
                assert(pre[k - a] != '<' || (k - a + 18 <= 88 && pre[k - a + 4] != 'E'));
                assert(s[k + 4] == pre[k - a + 4]);
            } else if k + 18 <= e {
                assert(h.subrange(k - b, k - b + 18) =~= w);
                assert(strs::matches_at(h, em, k - b));
            } else {
                let t = e - k;
                assert(w[t] == s[e]);
                assert(s[e] == suf[0]);
                assert(em[t] != '\n');
            }
        }
    }
}

proof fn lemma_markers_fragment(hd: Seq<char>, pre: Seq<char>, h: Seq<char>, suf: Seq<char>, sm: Seq<char>, em: Seq<char>)
    requires
        no_lt(hd),
        frame_facts(pre, suf, sm, em),
        !strs::contains_seq(h, em),
        sm == "<!--StartFragment-->"@,
        em == "<!--EndFragment-->"@,
    ensures
        fragment_by_markers(hd + pre + h + suf) == Some(h + "\n"@),
{
    let s = hd + pre + h + suf;
    let a = hd.len() as int;
    let i = a + 68;
    let j = a + 88 + h.len() + 1;
    lemma_start_first(hd, pre, h, suf, sm, em);
    lemma_end_first(hd, pre, h, suf, sm, em);
    lemma_first_is(s, sm, i);
    lemma_first_is(s, em, j);
    assert(strs::contains_seq(s, sm));
    assert(strs::contains_seq(s, em));
    assert(crate::text::first_match(s, sm) == Some(i));
    assert(crate::text::first_match(s, em) == Some(j));
    assert(s.take(j) =~= s.take(i) + sm + h + seq!['\n']);
    strs::lemma_byte_len_concat(s.take(i) + sm + h, seq!['\n']);
    strs::lemma_byte_len_concat(s.take(i) + sm, h);
    strs::lemma_byte_len_concat(s.take(i), sm);
    strs::lemma_byte_len_single('\n');
    reveal_strlit("\n");
    assert(s.subrange(i + 20, j) =~= h + "\n"@);
}

proof fn lemma_normalize_by_markers(s: Seq<char>, f: Seq<char>)
    requires
        strs::contains_seq(s, "StartFragment"@),
        fragment_by_markers(s) == Some(f),
    ensures
        normalize_spec(s) == f,
{
}

proof fn lemma_document_parts(h: Seq<char>)
    requires
        !strs::contains_seq(h, "<html"@),
    ensures
        cf_html_spec(h) == cf_head(h) + cf_prefix() + h + cf_suffix(),
        no_lt(cf_head(h)),
{
    lemma_head_no_lt(h);
    assert(cf_content(h) == cf_prefix() + h + cf_suffix());
    assert(cf_head(h) + cf_content(h) =~= cf_head(h) + cf_prefix() + h + cf_suffix());
}

/// Generating CF_HTML and normalizing it back gives the fragment again:
/// for HTML that is not a whole document (no `<html`) and holds no end
/// marker, the text between the two markers is the HTML followed by the
/// line break placed before the end marker.
#[verifier::rlimit(100)]
#[verifier::spinoff_prover]
pub proof fn law_cf_html_round_trip(h: Seq<char>)
    requires
        !strs::contains_seq(h, "<html"@),
        !strs::contains_seq(h, "<!--EndFragment-->"@),
    ensures
        normalize_spec(cf_html_spec(h)) == h + "\n"@,
{
    let sm = "<!--StartFragment-->"@;
    let em = "<!--EndFragment-->"@;
    let hd = cf_head(h);
    let pre = cf_prefix();
    let suf = cf_suffix();
    lemma_document_parts(h);
    lemma_prefix_start_marker();
    lemma_prefix_has_no_end_marker();
    lemma_suffix_end_marker();
    let s = hd + pre + h + suf;
    assert(frame_facts(pre, suf, sm, em));
    lemma_markers_fragment(hd, pre, h, suf, sm, em);
    let b = hd.len() + 88;
    assert(strs::contains_seq(s, "StartFragment"@)) by {
        assert(s.subrange(b - 16, b - 3) =~= sm.subrange(4, 17));
        assert(strs::matches_at(s, "StartFragment"@, b - 16));
    }
    lemma_normalize_by_markers(s, h + "\n"@);
    assert(normalize_spec(s) == h + "\n"@);
    assert(cf_html_spec(h) == s);
}

proof fn lemma_hdr_p0_bytes()
    ensures
        strs::byte_len("Version:0.9\r\nStartHTML:"@) == 23,
{
    reveal_strlit("Version:0.9\r\nStartHTML:");
    assert forall|k: int| 0 <= k < "Version:0.9\r\nStartHTML:"@.len() implies (#[trigger] "Version:0.9\r\nStartHTML:"@[k] as u32) < 0x80 by {
        assert(k == 0 || k == 1 || k == 2 || k == 3 || k == 4 || k == 5 || k == 6 || k == 7 || k == 8 || k == 9 || k == 10 || k == 11 || k == 12 || k == 13 || k == 14 || k == 15 || k == 16 || k == 17 || k == 18 || k == 19 || k == 20 || k == 21 || k == 22);
    }
    strs::lemma_byte_len_ascii("Version:0.9\r\nStartHTML:"@);
}

proof fn lemma_hdr_p1_bytes()
    ensures
        strs::byte_len("\r\nEndHTML:"@) == 10,
{
    reveal_strlit("\r\nEndHTML:");
    assert forall|k: int| 0 <= k < "\r\nEndHTML:"@.len() implies (#[trigger] "\r\nEndHTML:"@[k] as u32) < 0x80 by {
        assert(k == 0 || k == 1 || k == 2 || k == 3 || k == 4 || k == 5 || k == 6 || k == 7 || k == 8 || k == 9);
    }
    strs::lemma_byte_len_ascii("\r\nEndHTML:"@);
}

proof fn lemma_hdr_p2_bytes()
    ensures
        strs::byte_len("\r\nStartFragment:"@) == 16,
{
    reveal_strlit("\r\nStartFragment:");
    assert forall|k: int| 0 <= k < "\r\nStartFragment:"@.len() implies (#[trigger] "\r\nStartFragment:"@[k] as u32) < 0x80 by {
        assert(k == 0 || k == 1 || k == 2 || k == 3 || k == 4 || k == 5 || k == 6 || k == 7 || k == 8 || k == 9 || k == 10 || k == 11 || k == 12 || k == 13 || k == 14 || k == 15);
    }
    strs::lemma_byte_len_ascii("\r\nStartFragment:"@);
}

proof fn lemma_hdr_p3_bytes()
    ensures
        strs::byte_len("\r\nEndFragment:"@) == 14,
{
    reveal_strlit("\r\nEndFragment:");
    assert forall|k: int| 0 <= k < "\r\nEndFragment:"@.len() implies (#[trigger] "\r\nEndFragment:"@[k] as u32) < 0x80 by {
        assert(k == 0 || k == 1 || k == 2 || k == 3 || k == 4 || k == 5 || k == 6 || k == 7 || k == 8 || k == 9 || k == 10 || k == 11 || k == 12 || k == 13);
    }
    strs::lemma_byte_len_ascii("\r\nEndFragment:"@);
}

proof fn lemma_hdr_p4_bytes()
    ensures
        strs::byte_len("\r\n"@) == 2,
{
    reveal_strlit("\r\n");
    assert forall|k: int| 0 <= k < "\r\n"@.len() implies (#[trigger] "\r\n"@[k] as u32) < 0x80 by {
        assert(k == 0 || k == 1);
    }
    strs::lemma_byte_len_ascii("\r\n"@);
}

proof fn lemma_hdr_zero_bytes()
    ensures
        strs::byte_len("Version:0.9\r\nStartHTML:0000000000\r\nEndHTML:0000000000\r\nStartFragment:0000000000\r\nEndFragment:0000000000\r\n"@) == 105,
{
    reveal_strlit("Version:0.9\r\nStartHTML:0000000000\r\nEndHTML:0000000000\r\nStartFragment:0000000000\r\nEndFragment:0000000000\r\n");
    assert forall|k: int| 0 <= k < "Version:0.9\r\nStartHTML:0000000000\r\nEndHTML:0000000000\r\nStartFragment:0000000000\r\nEndFragment:0000000000\r\n"@.len() implies (#[trigger] "Version:0.9\r\nStartHTML:0000000000\r\nEndHTML:0000000000\r\nStartFragment:0000000000\r\nEndFragment:0000000000\r\n"@[k] as u32) < 0x80 by {
        assert(k == 0 || k == 1 || k == 2 || k == 3 || k == 4 || k == 5 || k == 6 || k == 7 || k == 8 || k == 9 || k == 10 || k == 11 || k == 12 || k == 13 || k == 14 || k == 15 || k == 16 || k == 17 || k == 18 || k == 19 || k == 20 || k == 21 || k == 22 || k == 23 || k == 24 || k == 25 || k == 26 || k == 27 || k == 28 || k == 29 || k == 30 || k == 31 || k == 32 || k == 33 || k == 34 || k == 35 || k == 36 || k == 37 || k == 38 || k == 39 || k == 40 || k == 41 || k == 42 || k == 43 || k == 44 || k == 45 || k == 46 || k == 47 || k == 48 || k == 49 || k == 50 || k == 51 || k == 52 || k == 53 || k == 54 || k == 55 || k == 56 || k == 57 || k == 58 || k == 59 || k == 60 || k == 61 || k == 62 || k == 63 || k == 64 || k == 65 || k == 66 || k == 67 || k == 68 || k == 69 || k == 70 || k == 71 || k == 72 || k == 73 || k == 74 || k == 75 || k == 76 || k == 77 || k == 78 || k == 79 || k == 80 || k == 81 || k == 82 || k == 83 || k == 84 || k == 85 || k == 86 || k == 87 || k == 88 || k == 89 || k == 90 || k == 91 || k == 92 || k == 93 || k == 94 || k == 95 || k == 96 || k == 97 || k == 98 || k == 99 || k == 100 || k == 101 || k == 102 || k == 103 || k == 104);
    }
    strs::lemma_byte_len_ascii("Version:0.9\r\nStartHTML:0000000000\r\nEndHTML:0000000000\r\nStartFragment:0000000000\r\nEndFragment:0000000000\r\n"@);
}

/// The CF_HTML header with the four offsets `a`, `b`, `c`, `d`.
pub open spec fn header_fields(a: int, b: int, c: int, d: int) -> Seq<char> {
    "Version:0.9\r\nStartHTML:"@ + field10(a) + "\r\nEndHTML:"@ + field10(b) + "\r\nStartFragment:"@ + field10(c)
        + "\r\nEndFragment:"@ + field10(d) + "\r\n"@
}

proof fn lemma_dec_ascii(n: nat)
    ensures
        forall|i: int| 0 <= i < strs::dec(n).len() ==> (#[trigger] strs::dec(n)[i] as u32) < 0x80,
    decreases n,
{
    if n >= 10 {
        lemma_dec_ascii(n / 10);
        assert forall|i: int| 0 <= i < strs::dec(n).len() implies (#[trigger] strs::dec(n)[i] as u32) < 0x80 by {
            if i < strs::dec(n / 10).len() {
                assert(strs::dec(n)[i] == strs::dec(n / 10)[i]);
            } else {
                assert(strs::dec(n)[i] == strs::digit_char(n % 10));
            }
        }
    } else {
        assert(strs::dec(n)[0] == strs::digit_char(n));
    }
}

/// `10^w`.
pub open spec fn ten_pow(w: nat) -> nat
    decreases w,
{
    if w == 0 {
        1
    } else {
        10 * ten_pow((w - 1) as nat)
    }
}

proof fn lemma_dec_at_most(n: nat, w: nat)
    requires
        w >= 1,
        n < ten_pow(w),
    ensures
        strs::dec(n).len() <= w,
    decreases w,
{
    if n >= 10 {
        if w == 1 {
            reveal_with_fuel(ten_pow, 2);
            assert(ten_pow(1) == 10);
        } else {
            let p1 = ten_pow((w - 1) as nat);
            assert(n / 10 < p1) by (nonlinear_arith)
                requires
                    n < ten_pow(w),
                    ten_pow(w) == 10 * p1,
            ;
            lemma_dec_at_most(n / 10, (w - 1) as nat);
        }
    }
}

/// A ten-digit field is ASCII: one byte per character, at least ten of
/// them, and exactly ten below 10^10.
proof fn lemma_field10_bytes(n: int)
    requires
        n >= 0,
    ensures
        strs::byte_len(field10(n)) == field10(n).len(),
        field10(n).len() >= 10,
        n < 10000000000 ==> field10(n).len() == 10,
{
    let d = strs::dec(n as nat);
    lemma_dec_ascii(n as nat);
    let f = field10(n);
    if d.len() < 10 {
        let z = Seq::new((10 - d.len()) as nat, |i: int| '0');
        assert(f == z + d);
        assert forall|i: int| 0 <= i < f.len() implies (#[trigger] f[i] as u32) < 0x80 by {
            if i < z.len() {
                assert(f[i] == '0');
            } else {
                assert(f[i] == d[i - z.len()]);
            }
        }
    } else {
        assert(f == d);
    }
    strs::lemma_byte_len_ascii(f);
    if n < 10000000000 {
        reveal_with_fuel(ten_pow, 11);
        assert(ten_pow(10) == 10000000000);
        lemma_dec_at_most(n as nat, 10);
    }
}

/// The byte length of the header: ten bytes per field, 65 for the rest.
proof fn lemma_header_fields_bytes(a: int, b: int, c: int, d: int)
    requires
        a >= 0,
        b >= 0,
        c >= 0,
        d >= 0,
    ensures
        strs::byte_len(header_fields(a, b, c, d)) == 65 + field10(a).len() + field10(b).len() + field10(c).len()
            + field10(d).len(),
        strs::byte_len(header_fields(a, b, c, d)) >= 105,
{
    lemma_hdr_p0_bytes();
    lemma_hdr_p1_bytes();
    lemma_hdr_p2_bytes();
    lemma_hdr_p3_bytes();
    lemma_hdr_p4_bytes();
    lemma_field10_bytes(a);
    lemma_field10_bytes(b);
    lemma_field10_bytes(c);
    lemma_field10_bytes(d);
    let q0 = "Version:0.9\r\nStartHTML:"@;
    let q1 = q0 + field10(a);
    let q2 = q1 + "\r\nEndHTML:"@;
    let q3 = q2 + field10(b);
    let q4 = q3 + "\r\nStartFragment:"@;
    let q5 = q4 + field10(c);
    let q6 = q5 + "\r\nEndFragment:"@;
    let q7 = q6 + field10(d);
    strs::lemma_byte_len_concat(q0, field10(a));
    strs::lemma_byte_len_concat(q1, "\r\nEndHTML:"@);
    strs::lemma_byte_len_concat(q2, field10(b));
    strs::lemma_byte_len_concat(q3, "\r\nStartFragment:"@);
    strs::lemma_byte_len_concat(q4, field10(c));
    strs::lemma_byte_len_concat(q5, "\r\nEndFragment:"@);
    strs::lemma_byte_len_concat(q6, field10(d));
    strs::lemma_byte_len_concat(q7, "\r\n"@);
}

/// A text that starts with `<` is found in `hd + content`, where `hd` has no
/// `<`, exactly where it is found in `content`, shifted by `hd`.
proof fn lemma_match_after_head(hd: Seq<char>, content: Seq<char>, m: Seq<char>)
    requires
        no_lt(hd),
        m.len() > 0,
        m[0] == '<',
    ensures
        forall|k: int| #[trigger] strs::matches_at(hd + content, m, k) ==> k >= hd.len() && strs::matches_at(
            content,
            m,
            k - hd.len(),
        ),
        forall|k: int| #[trigger] strs::matches_at(content, m, k) ==> strs::matches_at(hd + content, m, k + hd.len()),
{
    let s = hd + content;
    assert forall|k: int| #[trigger] strs::matches_at(s, m, k) implies k >= hd.len() && strs::matches_at(
        content,
        m,
        k - hd.len(),
    ) by {
        assert(s.subrange(k, k + m.len())[0] == m[0]);
        if k < hd.len() {
            assert(s[k] == hd[k]);
        }
        assert(s.subrange(k, k + m.len()) =~= content.subrange(k - hd.len(), k - hd.len() + m.len()));
    }
    assert forall|k: int| #[trigger] strs::matches_at(content, m, k) implies strs::matches_at(s, m, k + hd.len()) by {
        assert(s.subrange(k + hd.len(), k + hd.len() + m.len()) =~= content.subrange(k, k + m.len()));
    }
}

proof fn lemma_marker_offset_at(hd: Seq<char>, content: Seq<char>, m: Seq<char>, k: int)
    requires
        no_lt(hd),
        m.len() > 0,
        m[0] == '<',
        strs::is_first_match(hd + content, m, Some(k)),
    ensures
        byte_find(content, m) == Some(strs::byte_len(content.take(k - hd.len())) as int),
        strs::byte_len((hd + content).take(k)) == strs::byte_len(hd) + strs::byte_len(content.take(k - hd.len())),
{
    let s = hd + content;
    lemma_match_after_head(hd, content, m);
    let i = k - hd.len();
    assert(strs::matches_at(s, m, k));
    assert(strs::matches_at(content, m, i));
    assert forall|j: int| 0 <= j < i implies !strs::matches_at(content, m, j) by {
        if strs::matches_at(content, m, j) {
            assert(strs::matches_at(s, m, j + hd.len()));
        }
    }
    assert(strs::is_first_match(content, m, Some(i)));
    lemma_first_is(content, m, i);
    assert(strs::contains_seq(content, m));
    assert(s.take(k) =~= hd + content.take(i));
    strs::lemma_byte_len_concat(hd, content.take(i));
}

proof fn lemma_marker_absent(hd: Seq<char>, content: Seq<char>, m: Seq<char>)
    requires
        no_lt(hd),
        m.len() > 0,
        m[0] == '<',
        !strs::contains_seq(hd + content, m),
    ensures
        byte_find(content, m) is None,
{
    lemma_match_after_head(hd, content, m);
    if strs::contains_seq(content, m) {
        let i = choose|i: int| strs::matches_at(content, m, i);
        assert(strs::matches_at(hd + content, m, i + hd.len()));
    }
}

proof fn lemma_first_exists(hay: Seq<char>, needle: Seq<char>, i: int) -> (f: int)
    requires
        strs::matches_at(hay, needle, i),
    ensures
        strs::is_first_match(hay, needle, Some(f)),
    decreases i,
{
    if exists|j: int| 0 <= j < i && strs::matches_at(hay, needle, j) {
        let j = choose|j: int| 0 <= j < i && strs::matches_at(hay, needle, j);
        lemma_first_exists(hay, needle, j)
    } else {
        i
    }
}

proof fn lemma_byte_find_bound(content: Seq<char>, m: Seq<char>)
    ensures
        byte_find(content, m) matches Some(x) ==> x <= strs::byte_len(content),
{
    if strs::contains_seq(content, m) {
        let i0 = choose|i: int| strs::matches_at(content, m, i);
        let f = lemma_first_exists(content, m, i0);
        lemma_first_is(content, m, f);
        strs::lemma_byte_len_take_mono(content, f, content.len() as int);
        strs::lemma_byte_len_full(content);
    }
}

/// `out` is framed as CF_HTML with header offsets `a`, `b`, `c`, `d`
/// before the document `doc`, each offset counted in UTF-8 bytes of `out`:
/// `a` where the document starts, `b` where `out` ends, `c` at the first
/// `<!--StartFragment-->` (or `a` without one), `d` at the first
/// `<!--EndFragment-->` (or `b` without one); and the bytes from `c` to `d`
/// are those of the text from the start marker to the end marker.
pub open spec fn cf_framed(out: Seq<char>, a: int, b: int, c: int, d: int, doc: Seq<char>) -> bool {
    let sm = "<!--StartFragment-->"@;
    let em = "<!--EndFragment-->"@;
    &&& out == header_fields(a, b, c, d) + doc
    &&& a == strs::byte_len(header_fields(a, b, c, d))
    &&& b == strs::byte_len(out)
    &&& forall|k: int| #[trigger] strs::is_first_match(out, sm, Some(k)) ==> c == strs::byte_len(out.take(k))
    &&& !strs::contains_seq(out, sm) ==> c == a
    &&& forall|k: int| #[trigger] strs::is_first_match(out, em, Some(k)) ==> d == strs::byte_len(out.take(k))
    &&& !strs::contains_seq(out, em) ==> d == b
    &&& forall|i: int, j: int|
        #[trigger] strs::is_first_match(out, sm, Some(i)) && #[trigger] strs::is_first_match(out, em, Some(j)) && i <= j
            ==> encode_utf8(out).subrange(c, d) == encode_utf8(out.subrange(i, j))
}

proof fn lemma_marker_facts()
    ensures
        "<!--StartFragment-->"@.len() == 20,
        "<!--StartFragment-->"@[0] == '<',
        "<!--EndFragment-->"@.len() == 18,
        "<!--EndFragment-->"@[0] == '<',
{
    reveal_strlit("<!--StartFragment-->");
    reveal_strlit("<!--EndFragment-->");
}

proof fn lemma_bytes_between(s: Seq<char>, i: int, j: int)
    requires
        0 <= i <= j <= s.len(),
    ensures
        encode_utf8(s).subrange(strs::byte_len(s.take(i)) as int, strs::byte_len(s.take(j)) as int) == encode_utf8(
            s.subrange(i, j),
        ),
{
    assert(s =~= s.take(i) + s.subrange(i, j) + s.skip(j));
    strs::lemma_encode_concat(s.take(i) + s.subrange(i, j), s.skip(j));
    strs::lemma_encode_concat(s.take(i), s.subrange(i, j));
    assert(s.take(j) =~= s.take(i) + s.subrange(i, j));
    strs::lemma_encode_concat(s.take(i), s.subrange(i, j));
    let e = encode_utf8(s);
    let e1 = encode_utf8(s.take(i));
    let e2 = encode_utf8(s.subrange(i, j));
    assert(e == e1 + e2 + encode_utf8(s.skip(j)));
    assert(e.subrange(e1.len() as int, (e1.len() + e2.len()) as int) =~= e2);
}

/// The CF_HTML header states byte offsets: in what `generate_cf_html`
/// returns, `StartHTML` is the UTF-8 length of the header, `EndHTML` that of
/// the whole text, `StartFragment` and `EndFragment` the UTF-8 length of the
/// text before the first start and end markers, so that a reader taking
/// the bytes from `StartFragment` to `EndFragment` gets exactly the text
/// from the start marker to the end marker. This holds while the offsets fit
/// the ten digits of the header.
#[verifier::rlimit(100)]
#[verifier::spinoff_prover]
pub proof fn law_cf_html_offsets_count_bytes(h: Seq<char>)
    requires
        strs::byte_len(cf_html_spec(h)) < 10000000000,
    ensures
        exists|a: int, b: int, c: int, d: int, doc: Seq<char>| #[trigger] cf_framed(cf_html_spec(h), a, b, c, d, doc),
{
    let sm = "<!--StartFragment-->"@;
    let em = "<!--EndFragment-->"@;
    let content = cf_content(h);
    let hd = cf_head(h);
    let out = cf_html_spec(h);
    lemma_head_no_lt(h);
    lemma_marker_facts();
    let sh = strs::byte_len(cf_header()) as int;
    lemma_hdr_zero_bytes();
    assert(sh == 105);
    let b = sh + strs::byte_len(content);
    let c = sh + match byte_find(content, sm) {
        Some(i) => i,
        None => 0,
    };
    let d = sh + match byte_find(content, em) {
        Some(i) => i,
        None => strs::byte_len(content) as int,
    };
    assert(hd == header_fields(sh, b, c, d));
    lemma_byte_find_bound(content, sm);
    lemma_byte_find_bound(content, em);
    if !strs::contains_seq(out, sm) {
        lemma_marker_absent(hd, content, sm);
    }
    if !strs::contains_seq(out, em) {
        lemma_marker_absent(hd, content, em);
    }
    strs::lemma_byte_len_concat(hd, content);
    lemma_header_fields_bytes(sh, b, c, d);
    assert(strs::byte_len(out) == strs::byte_len(hd) + strs::byte_len(content));
    assert(c <= b && d <= b);
    lemma_field10_bytes(sh);
    lemma_field10_bytes(b);
    lemma_field10_bytes(c);
    lemma_field10_bytes(d);
    assert(strs::byte_len(hd) == 105);
    assert forall|k: int| #[trigger] strs::is_first_match(out, sm, Some(k)) implies c == strs::byte_len(out.take(k)) by {
        lemma_marker_offset_at(hd, content, sm, k);
    }
    assert forall|k: int| #[trigger] strs::is_first_match(out, em, Some(k)) implies d == strs::byte_len(out.take(k)) by {
        lemma_marker_offset_at(hd, content, em, k);
    }
    assert forall|i: int, j: int|
        #[trigger] strs::is_first_match(out, sm, Some(i)) && #[trigger] strs::is_first_match(out, em, Some(j)) && i <= j implies encode_utf8(
        out,
    ).subrange(c, d) == encode_utf8(out.subrange(i, j)) by {
        assert(c == strs::byte_len(out.take(i)));
        assert(d == strs::byte_len(out.take(j)));
        lemma_bytes_between(out, i, j);
    }
    assert(cf_framed(out, sh, b, c, d, content));
}
} // verus!
