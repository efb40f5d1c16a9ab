//! SQLite's `LIKE` as the history search uses it: `%` stands for any run of
//! characters, `_` for any one character, and ASCII letters match either
//! case; there is no escape character.
use vstd::prelude::*;

verus! {

/// Whether `c` is an ASCII capital letter.
pub open spec fn is_ascii_upper(c: char) -> bool {
    'A' <= c <= 'Z'
}

/// Two characters match under `LIKE`: equal, or the same ASCII letter in
/// either case.
pub open spec fn like_eq(a: char, b: char) -> bool {
    ||| a == b
    ||| is_ascii_upper(a) && a as u32 + 32 == b as u32
    ||| is_ascii_upper(b) && b as u32 + 32 == a as u32
}

/// Whether `text` matches the `LIKE` pattern `pat`.
pub open spec fn like_match(text: Seq<char>, pat: Seq<char>) -> bool
    decreases text.len() + pat.len(),
{
    if pat.len() == 0 {
        text.len() == 0
    } else if pat[0] == '%' {
        like_match(text, pat.skip(1)) || (text.len() > 0 && like_match(text.skip(1), pat))
    } else if text.len() == 0 {
        false
    } else if pat[0] == '_' {
        like_match(text.skip(1), pat.skip(1))
    } else {
        like_eq(text[0], pat[0]) && like_match(text.skip(1), pat.skip(1))
    }
}

/// `text LIKE '%' || needle || '%'`.
pub open spec fn like_contains(text: Seq<char>, needle: Seq<char>) -> bool {
    like_match(text, seq!['%'] + needle + seq!['%'])
}

fn chars_like(a: char, b: char) -> (r: bool)
    ensures
        r == like_eq(a, b),
{
    let x = a as u32;
    let y = b as u32;
    x == y || (a >= 'A' && a <= 'Z' && x + 32 == y) || (b >= 'A' && b <= 'Z' && y + 32 == x)
}

/// One cell of the match table at text position `i`, pattern position `j`,
/// from the cell to its right (`right`, same text position) and the row
/// below (`below`, text position `i + 1`).
proof fn lemma_cell(text: Seq<char>, pat: Seq<char>, i: int, j: int)
    requires
        0 <= i <= text.len(),
        0 <= j < pat.len(),
    ensures
        like_match(text.skip(i), pat.skip(j)) == if pat[j] == '%' {
            like_match(text.skip(i), pat.skip(j + 1)) || (i < text.len() && like_match(text.skip(i + 1), pat.skip(j)))
        } else if i == text.len() {
            false
        } else if pat[j] == '_' {
            like_match(text.skip(i + 1), pat.skip(j + 1))
        } else {
            like_eq(text[i], pat[j]) && like_match(text.skip(i + 1), pat.skip(j + 1))
        },
{
    assert(pat.skip(j).skip(1) =~= pat.skip(j + 1));
    assert(pat.skip(j)[0] == pat[j]);
    if i < text.len() {
        assert(text.skip(i).skip(1) =~= text.skip(i + 1));
        assert(text.skip(i)[0] == text[i]);
    }
}

/// Whether `text` matches the `LIKE` pattern `pattern`; see `like_match`.
pub fn like_matches(text: &[char], pattern: &[char]) -> (r: bool)
    requires
        pattern@.len() < usize::MAX,
    ensures
        r == like_match(text@, pattern@),
{
    let n = text.len();
    let m = pattern.len();
    let ghost t = text@;
    let ghost p = pattern@;
    // Row `n`: the empty rest of the text.
    let mut below: Vec<bool> = Vec::new();
    let mut k: usize = 0;
    while k <= m
        invariant
            k <= m + 1,
            m == p.len(),
            m < usize::MAX,
            below@.len() == k,
        decreases m + 1 - k,
    {
        below.push(false);
        k += 1;
    }
    below.set(m, true);
    proof {
        assert(t.skip(n as int).len() == 0);
        assert(p.skip(m as int) =~= Seq::<char>::empty());
    }
    let mut j: usize = m;
    while j > 0
        invariant
            j <= m,
            m == p.len(),
            n == t.len(),
            t == text@,
            p == pattern@,
            below@.len() == m + 1,
            forall|q: int| j <= q <= m ==> below@[q] == like_match(t.skip(n as int), #[trigger] p.skip(q)),
        decreases j,
    {
        j -= 1;
        let v = pattern[j] == '%' && below[j + 1];
        proof {
            lemma_cell(t, p, n as int, j as int);
        }
        below.set(j, v);
    }
    let mut i: usize = n;
    while i > 0
        invariant
            i <= n,
            m == p.len(),
            n == t.len(),
            t == text@,
            p == pattern@,
            below@.len() == m + 1,
            m < usize::MAX,
            forall|q: int| 0 <= q <= m ==> below@[q] == like_match(t.skip(i as int), #[trigger] p.skip(q)),
        decreases i,
    {
        i -= 1;
        let mut cur: Vec<bool> = Vec::new();
        let mut k: usize = 0;
        while k <= m
            invariant
                k <= m + 1,
                m == p.len(),
                m < usize::MAX,
                cur@.len() == k,
                forall|q: int| 0 <= q < k ==> cur@[q] == false,
            decreases m + 1 - k,
        {
            cur.push(false);
            k += 1;
        }
        proof {
            assert(p.skip(m as int) =~= Seq::<char>::empty());
            assert(t.skip(i as int).len() > 0);
            assert(!like_match(t.skip(i as int), p.skip(m as int)));
        }
        let mut j: usize = m;
        while j > 0
            invariant
                j <= m,
                i < n,
                m == p.len(),
                n == t.len(),
                t == text@,
                p == pattern@,
                m < usize::MAX,
                below@.len() == m + 1,
                cur@.len() == m + 1,
                forall|q: int| 0 <= q <= m ==> below@[q] == like_match(t.skip(i + 1), #[trigger] p.skip(q)),
                cur@[m as int] == false,
                forall|q: int| j <= q <= m ==> cur@[q] == like_match(t.skip(i as int), #[trigger] p.skip(q)),
            decreases j,
        {
            j -= 1;
            let c = pattern[j];
            let v = if c == '%' {
                cur[j + 1] || below[j]
            } else if c == '_' {
                below[j + 1]
            } else {
                chars_like(text[i], c) && below[j + 1]
            };
            proof {
                lemma_cell(t, p, i as int, j as int);
            }
            cur.set(j, v);
        }
        below = cur;
    }
    proof {
        assert(t.skip(0) =~= t);
        assert(p.skip(0) =~= p);
    }
    below[0]
}

} // verus!
