//! Text excerpts: content-type classification, byte-bounded truncation and
//! keyword-centred search excerpts.
use vstd::prelude::*;
use crate::strs::{
    self, char_vec, fit_index, find_chars, prefix_bytes, push_chars, push_str, range_eq_str,
    str_byte_len, string_from_chars, trim_bounds,
};
use crate::unicode::{self, char_to_lowercase, to_lowercase};

verus! {

broadcast use vstd::seq::group_seq_axioms;

/// Characters of search context kept before a keyword.
pub const SEARCH_CONTEXT_BEFORE_CHARS: usize = 16;

// ---------------------------------------------------------------------------
// Content-type classification
// ---------------------------------------------------------------------------

/// `str::split(sep)`: the pieces of `s` between occurrences of `sep`.
pub open spec fn split_on(s: Seq<char>, sep: char) -> Seq<Seq<char>>
    decreases s.len(),
{
    if s.len() == 0 {
        seq![Seq::<char>::empty()]
    } else {
        let parts = split_on(s.drop_last(), sep);
        if s.last() == sep {
            parts.push(Seq::<char>::empty())
        } else {
            parts.update(parts.len() - 1, parts.last().push(s.last()))
        }
    }
}

pub proof fn lemma_split_nonempty(s: Seq<char>, sep: char)
    ensures
        split_on(s, sep).len() >= 1,
    decreases s.len(),
{
    if s.len() > 0 {
        lemma_split_nonempty(s.drop_last(), sep);
    }
}

/// One of the textual content kinds.
pub open spec fn is_text_kind(t: Seq<char>) -> bool {
    t == "text"@ || t == "rich_text"@ || t == "link"@
}

/// Some comma-separated, trimmed kind of `content_type` is textual.
pub open spec fn textual_content_type(content_type: Seq<char>) -> bool {
    let parts = split_on(content_type, ',');
    exists|i: int| 0 <= i < parts.len() && is_text_kind(strs::trim(#[trigger] parts[i]))
}

/// The characters `chars[a..b]` as a new vector.
pub fn sub_vec(chars: &Vec<char>, a: usize, b: usize) -> (v: Vec<char>)
    requires
        a <= b <= chars@.len(),
    ensures
        v@ == chars@.subrange(a as int, b as int),
{
    let mut v: Vec<char> = Vec::new();
    let mut i = a;
    while i < b
        invariant
            a <= i <= b <= chars@.len(),
            v@ == chars@.subrange(a as int, i as int),
        decreases b - i,
    {
        v.push(chars[i]);
        assert(chars@.subrange(a as int, i + 1) =~= chars@.subrange(a as int, i as int).push(chars@[i as int]));
        i += 1;
    }
    v
}

fn text_kind_exec(seg: &Vec<char>) -> (r: bool)
    ensures
        r == is_text_kind(strs::trim(seg@)),
{
    let (a, b) = trim_bounds(seg);
    range_eq_str(seg, a, b, "text") || range_eq_str(seg, a, b, "rich_text") || range_eq_str(
        seg,
        a,
        b,
        "link",
    )
}

/// Whether any comma-separated kind in `content_type` is `text`, `rich_text`
/// or `link` (after trimming; case-sensitive).
pub fn is_textual_content_type(content_type: &str) -> (r: bool)
    ensures
        r == textual_content_type(content_type@),
{
    let chars = char_vec(content_type);
    let n = chars.len();
    let ghost s = chars@;
    let mut start: usize = 0;
    let mut found = false;
    let ghost mut done: Seq<Seq<char>> = Seq::empty();
    let mut i: usize = 0;
    proof {
        assert(s.take(0) =~= Seq::<char>::empty());
    }
    while i < n
        invariant
            n == s.len(),
            s == chars@,
            0 <= start <= i <= n,
            split_on(s.take(i as int), ',') == done.push(s.subrange(start as int, i as int)),
            found == (exists|j: int| 0 <= j < done.len() && is_text_kind(strs::trim(#[trigger] done[j]))),
        decreases n - i,
    {
        proof {
            let t = s.take(i + 1);
            assert(t.drop_last() =~= s.take(i as int));
            assert(t.last() == s[i as int]);
        }
        if chars[i] == ',' {
            let seg = sub_vec(&chars, start, i);
            let k = text_kind_exec(&seg);
            proof {
                let old_done = done;
                done = done.push(s.subrange(start as int, i as int));
                assert(s.subrange((i + 1) as int, (i + 1) as int) =~= Seq::<char>::empty());
                assert(split_on(s.take(i + 1), ',') =~= done.push(s.subrange((i + 1) as int, (i + 1) as int)));
                if k {
                    assert(is_text_kind(strs::trim(done[old_done.len() as int])));
                }
                if found {
                    let j = choose|j: int| 0 <= j < old_done.len() && is_text_kind(strs::trim(#[trigger] old_done[j]));
                    assert(done[j] == old_done[j]);
                }
                assert forall|j: int| 0 <= j < done.len() && is_text_kind(strs::trim(#[trigger] done[j])) implies (found || k) by {
                    if j < old_done.len() {
                        assert(done[j] == old_done[j]);
                    }
                }
            }
            found = found || k;
            start = i + 1;
        } else {
            proof {
                assert(s.subrange(start as int, i + 1) =~= s.subrange(start as int, i as int).push(s[i as int]));
                assert(split_on(s.take(i + 1), ',') =~= done.push(s.subrange(start as int, i + 1)));
            }
        }
        i += 1;
    }
    let seg = sub_vec(&chars, start, n);
    let k = text_kind_exec(&seg);
    proof {
        assert(s.take(n as int) =~= s);
        let parts = split_on(s, ',');
        assert(parts == done.push(s.subrange(start as int, n as int)));
        if found {
            let j = choose|j: int| 0 <= j < done.len() && is_text_kind(strs::trim(#[trigger] done[j]));
            assert(parts[j] == done[j]);
        }
        if k {
            assert(is_text_kind(strs::trim(parts[done.len() as int])));
        }
        assert forall|j: int| 0 <= j < parts.len() && is_text_kind(strs::trim(#[trigger] parts[j])) implies (found || k) by {
            if j < done.len() {
                assert(parts[j] == done[j]);
            }
        }
    }
    found || k
}

// ---------------------------------------------------------------------------
// Byte-bounded truncation
// ---------------------------------------------------------------------------

/// The notice appended to (or standing for) truncated content.
pub open spec fn truncation_notice() -> Seq<char> {
    "...(内容过长已截断)"@
}

/// `a - b`, or `0` when `b > a` (`usize::saturating_sub`).
pub open spec fn sat_sub(a: int, b: int) -> int {
    if a >= b {
        a - b
    } else {
        0
    }
}

/// What `truncate_string(s, max_len)` returns: `s` when it is empty or fits in
/// `max_len` bytes; otherwise the longest character prefix of at most
/// `max_len - 50` bytes followed by the notice, or only the notice when that
/// prefix is empty.
pub open spec fn truncate_string_spec(s: Seq<char>, max_len: int) -> Seq<char> {
    if s.len() == 0 || strs::byte_len(s) <= max_len {
        s
    } else {
        let k = strs::fit_prefix(s, sat_sub(max_len, 50));
        if k == 0 {
            truncation_notice()
        } else {
            s.take(k) + truncation_notice()
        }
    }
}

/// Truncation on a character vector with its prefix byte offsets.
fn truncate_chars(chars: &Vec<char>, pre: &Vec<usize>, max_len: usize) -> (r: String)
    requires
        pre@.len() == chars@.len() + 1,
        forall|j: int| 0 <= j <= chars@.len() ==> #[trigger] pre@[j] == strs::byte_len(chars@.take(j)),
    ensures
        r@ == truncate_string_spec(chars@, max_len as int),
{
    let n = chars.len();
    proof {
        strs::lemma_byte_len_full(chars@);
    }
    if n == 0 || pre[n] <= max_len {
        return string_from_chars(chars);
    }
    let limit = max_len.saturating_sub(50);
    let k = fit_index(chars, pre, limit);
    let mut r = String::new();
    if k > 0 {
        push_chars(&mut r, chars, 0, k);
    }
    push_str(&mut r, "...(内容过长已截断)");
    proof {
        if k > 0 {
            assert(Seq::<char>::empty() + chars@.subrange(0, k as int) =~= chars@.take(k as int));
        } else {
            assert(Seq::<char>::empty() + truncation_notice() =~= truncation_notice());
        }
    }
    r
}

/// Truncates `s` to about `max_len` bytes, never splitting a character: the
/// kept prefix has at most `max_len - 50` bytes and is followed by
/// `...(内容过长已截断)`.
pub fn truncate_string(s: String, max_len: usize) -> (r: String)
    ensures
        r@ == truncate_string_spec(s@, max_len as int),
{
    let chars = char_vec(s.as_str());
    let total = str_byte_len(s.as_str());
    let pre = prefix_bytes(&chars);
    truncate_chars(&chars, &pre, max_len)
}

// ---------------------------------------------------------------------------
// Keyword-centred excerpts
// ---------------------------------------------------------------------------

/// Byte length of the lowercase mapping of every character of `s`, summed.
pub open spec fn lower_len(s: Seq<char>) -> nat
    decreases s.len(),
{
    if s.len() == 0 {
        0
    } else {
        lower_len(s.drop_last()) + strs::byte_len(unicode::char_lowercase(s.last()))
    }
}

/// The character index of `text` at which the running byte length of the
/// per-character lowercase mapping reaches exactly `target`, if it ever does.
pub open spec fn lower_offset_index(text: Seq<char>, target: int) -> Option<int> {
    if exists|j: int| 0 <= j <= text.len() && lower_len(#[trigger] text.take(j)) == target {
        Some(choose|j: int| 0 <= j <= text.len() && lower_len(#[trigger] text.take(j)) == target)
    } else {
        None
    }
}

/// First occurrence of `needle` in `hay`, as a character index.
pub open spec fn first_match(hay: Seq<char>, needle: Seq<char>) -> Option<int> {
    if strs::contains_seq(hay, needle) {
        Some(choose|i: int| strs::matches_at(hay, needle, i) && forall|j: int| 0 <= j < i ==> !strs::matches_at(hay, needle, j))
    } else {
        None
    }
}

/// Character range of the keyword in `text`: the first exact occurrence, or
/// else the first occurrence of the lowercased keyword in the lowercased text,
/// mapped back through the per-character lowercase byte lengths.
pub open spec fn keyword_range(text: Seq<char>, keyword: Seq<char>) -> Option<(int, int)> {
    match first_match(text, keyword) {
        Some(i) => Some((i, i + keyword.len())),
        None => {
            let lt = unicode::str_lowercase(text);
            let lk = unicode::str_lowercase(keyword);
            match first_match(lt, lk) {
                None => None,
                Some(li) => {
                    let ls = strs::byte_len(lt.take(li));
                    let le = ls + strs::byte_len(lk);
                    match (lower_offset_index(text, ls as int), lower_offset_index(text, le as int)) {
                        (Some(a), Some(b)) => Some((a, b)),
                        _ => None,
                    }
                },
            }
        },
    }
}

/// What `truncate_around_keyword(s, keyword, max_len)` returns.
pub open spec fn around_keyword_spec(s: Seq<char>, keyword: Seq<char>, max_len: int) -> Seq<char> {
    let total = strs::byte_len(s);
    if s.len() == 0 || keyword.len() == 0 || total <= max_len {
        if total <= max_len {
            s
        } else {
            truncate_string_spec(s, max_len)
        }
    } else {
        match keyword_range(s, keyword) {
            None => truncate_string_spec(s, max_len),
            Some((cs, ce)) => {
                let st0 = if cs >= 16 { cs - 16 } else { 0 };
                let st0_b = strs::byte_len(s.take(st0));
                let prefix_len = if st0_b > 0 { 3int } else { 0int };
                let sl0 = sat_sub(max_len, prefix_len + 3);
                let ke_b = strs::byte_len(s.take(ce));
                let widen = sat_sub(ke_b as int, st0_b as int) > sl0;
                let st = if widen { cs } else { st0 };
                let sl = if widen { sat_sub(max_len, 6) } else { sl0 };
                let st_b = strs::byte_len(s.take(st));
                let lim = if st_b + sl < total { st_b + sl } else { total as int };
                let en = strs::fit_prefix(s, lim);
                let en_b = strs::byte_len(s.take(en));
                if en_b <= st_b || en_b < ke_b {
                    truncate_string_spec(s, max_len)
                } else {
                    (if st_b > 0 { "..."@ } else { Seq::<char>::empty() }) + s.subrange(st, en) + (
                    if en_b < total { "..."@ } else { Seq::<char>::empty() })
                }
            },
        }
    }
}

/// `find_chars` as an `Option<int>` over the specification.
proof fn lemma_first_match(hay: Seq<char>, needle: Seq<char>, r: Option<int>)
    requires
        strs::is_first_match(hay, needle, r),
    ensures
        first_match(hay, needle) == r,
{
    match r {
        Some(i) => {
            assert(strs::contains_seq(hay, needle));
            let c = choose|k: int| strs::matches_at(hay, needle, k) && forall|j: int| 0 <= j < k ==> !strs::matches_at(hay, needle, j);
            assert(strs::matches_at(hay, needle, c) && forall|j: int| 0 <= j < c ==> !strs::matches_at(hay, needle, j));
            if c < i {
                assert(!strs::matches_at(hay, needle, c));
            }
            if i < c {
                assert(!strs::matches_at(hay, needle, i));
            }
        },
        None => {},
    }
}

proof fn lemma_lower_len_step(s: Seq<char>, i: int)
    requires
        0 <= i < s.len(),
    ensures
        lower_len(s.take(i + 1)) == lower_len(s.take(i)) + strs::byte_len(unicode::char_lowercase(s[i])),
{
    assert(s.take(i + 1).drop_last() =~= s.take(i));
}

proof fn lemma_lower_len_mono(s: Seq<char>, i: int, j: int)
    requires
        0 <= i <= j <= s.len(),
        forall|k: int| 0 <= k < s.len() ==> strs::byte_len(unicode::char_lowercase(#[trigger] s[k])) >= 1,
    ensures
        lower_len(s.take(i)) + (j - i) <= lower_len(s.take(j)),
    decreases j - i,
{
    if i < j {
        lemma_lower_len_mono(s, i, j - 1);
        lemma_lower_len_step(s, j - 1);
    }
}

/// Byte lengths of the lowercase mapping of each character of `chars`.
fn lowercase_widths(chars: &Vec<char>) -> (w: Vec<usize>)
    ensures
        w@.len() == chars@.len(),
        forall|k: int| 0 <= k < chars@.len() ==> #[trigger] w@[k] == strs::byte_len(unicode::char_lowercase(chars@[k])),
        forall|k: int| 0 <= k < chars@.len() ==> strs::byte_len(unicode::char_lowercase(#[trigger] chars@[k])) >= 1,
{
    let mut w: Vec<usize> = Vec::new();
    let mut i: usize = 0;
    while i < chars.len()
        invariant
            0 <= i <= chars@.len(),
            w@.len() == i,
            forall|k: int| 0 <= k < i ==> #[trigger] w@[k] == strs::byte_len(unicode::char_lowercase(chars@[k])),
            forall|k: int| 0 <= k < i ==> strs::byte_len(unicode::char_lowercase(#[trigger] chars@[k])) >= 1,
        decreases chars@.len() - i,
    {
        let low = char_to_lowercase(chars[i]);
        let b = str_byte_len(low.as_str());
        proof {
            let l = unicode::char_lowercase(chars@[i as int]);
            assert(l.take(0) =~= Seq::<char>::empty());
            strs::lemma_byte_len_take_mono(l, 0, l.len() as int);
            strs::lemma_byte_len_full(l);
        }
        w.push(b);
        i += 1;
    }
    w
}

/// The byte offset in `text` of the character at which the running lowercase
/// byte length reaches `target`.
fn original_index_at_lowercase_offset(chars: &Vec<char>, lw: &Vec<usize>, target: usize) -> (r: Option<usize>)
    requires
        lw@.len() == chars@.len(),
        forall|k: int| 0 <= k < chars@.len() ==> #[trigger] lw@[k] == strs::byte_len(unicode::char_lowercase(chars@[k])),
        forall|k: int| 0 <= k < chars@.len() ==> strs::byte_len(unicode::char_lowercase(#[trigger] chars@[k])) >= 1,
    ensures
        match r {
            Some(j) => lower_offset_index(chars@, target as int) == Some(j as int),
            None => lower_offset_index(chars@, target as int) is None,
        },
{
    let ghost s = chars@;
    let mut off: usize = 0;
    let mut i: usize = 0;
    proof {
        assert(s.take(0) =~= Seq::<char>::empty());
    }
    while i < chars.len()
        invariant
            s == chars@,
            lw@.len() == s.len(),
            forall|k: int| 0 <= k < s.len() ==> #[trigger] lw@[k] == strs::byte_len(unicode::char_lowercase(s[k])),
            forall|k: int| 0 <= k < s.len() ==> strs::byte_len(unicode::char_lowercase(#[trigger] s[k])) >= 1,
            0 <= i <= s.len(),
            off == lower_len(s.take(i as int)),
            off <= target,
            forall|j: int| 0 <= j < i ==> lower_len(#[trigger] s.take(j)) != target,
        decreases s.len() - i,
    {
        if off == target {
            proof {
                assert(0 <= i <= s.len() && lower_len(s.take(i as int)) == target);
                let c = choose|j: int| 0 <= j <= s.len() && lower_len(#[trigger] s.take(j)) == target;
                if c < i {
                    assert(lower_len(s.take(c)) != target);
                }
                if c > i {
                    lemma_lower_len_mono(s, i as int, c);
                }
            }
            return Some(i);
        }
        proof {
            lemma_lower_len_step(s, i as int);
        }
        if lw[i] > target - off {
            proof {
                assert forall|j: int| 0 <= j <= s.len() implies lower_len(#[trigger] s.take(j)) != target by {
                    if j > i {
                        lemma_lower_len_mono(s, i + 1, j);
                    }
                }
            }
            return None;
        }
        off = off + lw[i];
        i += 1;
    }
    proof {
        assert(s.take(s.len() as int) =~= s);
    }
    if off == target {
        proof {
            let c = choose|j: int| 0 <= j <= s.len() && lower_len(#[trigger] s.take(j)) == target;
            if c < i {
                assert(lower_len(s.take(c)) != target);
            }
        }
        Some(i)
    } else {
        proof {
            assert forall|j: int| 0 <= j <= s.len() implies lower_len(#[trigger] s.take(j)) != target by {
                if j == s.len() {
                } else {
                }
            }
        }
        None
    }
}

/// Character range of `keyword` in `text` (see `keyword_range`).
fn find_keyword_range(text: &str, chars: &Vec<char>, keyword: &str, kchars: &Vec<char>) -> (r: Option<(usize, usize)>)
    requires
        chars@ == text@,
        kchars@ == keyword@,
    ensures
        match r {
            Some((a, b)) => keyword_range(text@, keyword@) == Some((a as int, b as int)) && a <= b <= chars@.len(),
            None => keyword_range(text@, keyword@) is None,
        },
{
    let f = find_chars(chars, kchars);
    match f {
        Some(i) => {
            proof {
                lemma_first_match(chars@, kchars@, Some(i as int));
                assert(strs::matches_at(chars@, kchars@, i as int));
                assert(chars@.len() == chars.len());
            }
            return Some((i, i + kchars.len()));
        },
        None => {
            proof {
                lemma_first_match(chars@, kchars@, None);
            }
        },
    }
    let lt = to_lowercase(text);
    let lk = to_lowercase(keyword);
    let ltc = char_vec(lt.as_str());
    let lkc = char_vec(lk.as_str());
    let lf = find_chars(&ltc, &lkc);
    let li = match lf {
        Some(li) => {
            proof {
                lemma_first_match(ltc@, lkc@, Some(li as int));
            }
            li
        },
        None => {
            proof {
                lemma_first_match(ltc@, lkc@, None);
            }
            return None;
        },
    };
    let lt_len = str_byte_len(lt.as_str());
    let lk_len = str_byte_len(lk.as_str());
    let lpre = prefix_bytes(&ltc);
    let ls = lpre[li];
    proof {
        strs::lemma_byte_len_subrange(ltc@, li as int, li + lkc@.len());
        strs::lemma_byte_len_take_mono(ltc@, li + lkc@.len(), ltc@.len() as int);
        strs::lemma_byte_len_full(ltc@);
        assert(ltc@.subrange(li as int, li + lkc@.len()) == lkc@);
    }
    let le = ls + lk_len;
    let lw = lowercase_widths(chars);
    let a = original_index_at_lowercase_offset(chars, &lw, ls);
    let b = original_index_at_lowercase_offset(chars, &lw, le);
    match (a, b) {
        (Some(a), Some(b)) => {
            proof {
                let c = choose|j: int| 0 <= j <= chars@.len() && lower_len(#[trigger] chars@.take(j)) == ls;
                assert(c == a);
                let d = choose|j: int| 0 <= j <= chars@.len() && lower_len(#[trigger] chars@.take(j)) == le;
                assert(d == b);
                if a > b {
                    lemma_lower_len_mono(chars@, b as int, a as int);
                }
            }
            Some((a, b))
        },
        _ => None,
    }
}

/// Cuts an excerpt of at most about `max_len` bytes out of `s` that keeps
/// `keyword` close to its start, with up to 16 characters of context before
/// it and `...` marking cut ends. Falls back to `truncate_string` when the
/// keyword is absent or does not fit.
pub fn truncate_around_keyword(s: String, keyword: &str, max_len: usize) -> (r: String)
    ensures
        r@ == around_keyword_spec(s@, keyword@, max_len as int),
{
    let chars = char_vec(s.as_str());
    let kchars = char_vec(keyword);
    let total = str_byte_len(s.as_str());
    let pre = prefix_bytes(&chars);
    let n = chars.len();
    proof {
        strs::lemma_byte_len_full(chars@);
    }
    if n == 0 || kchars.len() == 0 || total <= max_len {
        if total <= max_len {
            return s;
        } else {
            return truncate_chars(&chars, &pre, max_len);
        }
    }
    let (cs, ce) = match find_keyword_range(s.as_str(), &chars, keyword, &kchars) {
        Some(range) => range,
        None => {
            return truncate_chars(&chars, &pre, max_len);
        },
    };
    let st0: usize = if cs >= SEARCH_CONTEXT_BEFORE_CHARS {
        cs - SEARCH_CONTEXT_BEFORE_CHARS
    } else {
        0
    };
    let st0_b = pre[st0];
    let prefix_len: usize = if st0_b > 0 {
        3
    } else {
        0
    };
    let sl0 = max_len.saturating_sub(prefix_len + 3);
    let ke_b = pre[ce];
    let widen = ke_b.saturating_sub(st0_b) > sl0;
    let st = if widen {
        cs
    } else {
        st0
    };
    let sl = if widen {
        max_len.saturating_sub(6)
    } else {
        sl0
    };
    let st_b = pre[st];
    let lim = if st_b < total && sl < total - st_b {
        st_b + sl
    } else {
        total
    };
    let en = fit_index(&chars, &pre, lim);
    let en_b = pre[en];
    if en_b <= st_b || en_b < ke_b {
        return truncate_chars(&chars, &pre, max_len);
    }
    proof {
        if en < st {
            strs::lemma_byte_len_take_mono(chars@, en as int, st as int);
        }
    }
    let mut r = String::new();
    if st_b > 0 {
        push_str(&mut r, "...");
    }
    let ghost mid = r@;
    push_chars(&mut r, &chars, st, en);
    let ghost mid2 = r@;
    if en_b < total {
        push_str(&mut r, "...");
    }
    proof {
        let lead = if st_b > 0 { "..."@ } else { Seq::<char>::empty() };
        let tail = if en_b < total { "..."@ } else { Seq::<char>::empty() };
        assert(mid =~= lead);
        assert(r@ =~= lead + chars@.subrange(st as int, en as int) + tail);
    }
    r
}

} // verus!
