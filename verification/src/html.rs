//! Truncation of HTML by visible characters, re-closing the tags left open.
use vstd::prelude::*;
use crate::strs::{self, char_vec, chars_eq, push_char, push_chars, push_str, range_eq_str, string_from_chars};
use crate::text;
use crate::unicode::{self, is_alphanumeric, to_lowercase};

verus! {

broadcast use vstd::seq::group_seq_axioms;

/// Tag names that are never balanced with a closing tag.
pub open spec fn self_closing(name: Seq<char>) -> bool {
    name == "br"@ || name == "hr"@ || name == "img"@ || name == "input"@ || name == "meta"@ || name
        == "link"@ || name == "area"@ || name == "base"@ || name == "col"@ || name == "embed"@ || name
        == "source"@ || name == "track"@ || name == "wbr"@
}

/// Number of characters outside tags (a `<` opens a tag, a `>` closes it).
pub open spec fn visible_scan(s: Seq<char>) -> (bool, nat)
    decreases s.len(),
{
    if s.len() == 0 {
        (false, 0)
    } else {
        let (in_tag, count) = visible_scan(s.drop_last());
        let c = s.last();
        if c == '<' {
            (true, count)
        } else if c == '>' {
            (false, count)
        } else if !in_tag {
            (false, count + 1)
        } else {
            (true, count)
        }
    }
}

/// State of the copying pass over the HTML.
pub struct HtmlScan {
    pub in_tag: bool,
    pub started: bool,
    pub closing: bool,
    pub cur: Seq<char>,
    pub open: Seq<Seq<char>>,
    pub out: Seq<char>,
    pub visible: nat,
    pub stopped: bool,
}

pub open spec fn scan_start() -> HtmlScan {
    HtmlScan {
        in_tag: false,
        started: false,
        closing: false,
        cur: Seq::empty(),
        open: Seq::empty(),
        out: Seq::empty(),
        visible: 0,
        stopped: false,
    }
}

/// `v` without its last element equal to `x` (unchanged when there is none).
pub open spec fn remove_last_eq(v: Seq<Seq<char>>, x: Seq<char>) -> Seq<Seq<char>>
    decreases v.len(),
{
    if v.len() == 0 {
        v
    } else if v.last() == x {
        v.drop_last()
    } else {
        remove_last_eq(v.drop_last(), x).push(v.last())
    }
}

/// Tag-name accumulation keeps at most 50 bytes.
pub open spec fn tag_push(cur: Seq<char>, c: char) -> Seq<char> {
    if strs::byte_len(cur) < 50 {
        cur.push(c)
    } else {
        cur
    }
}

/// The stack of open tags after a `>` that ends the tag named `cur`.
pub open spec fn open_after_tag(open: Seq<Seq<char>>, cur: Seq<char>, closing: bool) -> Seq<Seq<char>> {
    if cur.len() == 0 {
        open
    } else {
        let name = unicode::str_lowercase(cur);
        if self_closing(name) {
            open
        } else if closing {
            remove_last_eq(open, name)
        } else if open.len() < 100 {
            open.push(name)
        } else {
            open
        }
    }
}

/// One character of the copying pass; once stopped, nothing changes.
pub open spec fn html_step(st: HtmlScan, c: char, max: nat) -> HtmlScan {
    if st.stopped {
        st
    } else if c == '<' {
        HtmlScan { in_tag: true, started: false, closing: false, cur: Seq::empty(), out: st.out.push(c), ..st }
    } else if c == '>' {
        HtmlScan { in_tag: false, out: st.out.push(c), open: open_after_tag(st.open, st.cur, st.closing), ..st }
    } else if st.in_tag {
        let out = st.out.push(c);
        if c == '/' && !st.started {
            HtmlScan { closing: true, out, ..st }
        } else if unicode::char_alphanumeric(c) && !st.started {
            HtmlScan { started: true, cur: tag_push(st.cur, c), out, ..st }
        } else if st.started && (unicode::char_alphanumeric(c) || c == '-') {
            HtmlScan { cur: tag_push(st.cur, c), out, ..st }
        } else if st.started {
            HtmlScan { started: false, out, ..st }
        } else {
            HtmlScan { out, ..st }
        }
    } else if st.visible + 1 > max {
        HtmlScan { visible: st.visible + 1, stopped: true, ..st }
    } else {
        HtmlScan { visible: st.visible + 1, out: st.out.push(c), ..st }
    }
}

pub open spec fn html_run(s: Seq<char>, max: nat) -> HtmlScan
    decreases s.len(),
{
    if s.len() == 0 {
        scan_start()
    } else {
        html_step(html_run(s.drop_last(), max), s.last(), max)
    }
}

/// Closing tags for the last `k` entries of `open`, innermost first.
pub open spec fn closers(open: Seq<Seq<char>>, k: nat) -> Seq<char>
    decreases k,
{
    if k == 0 || k > open.len() {
        Seq::empty()
    } else {
        closers(open, (k - 1) as nat) + "</"@ + open[open.len() - k] + ">"@
    }
}

/// What `truncate_html(html, max_visible_len)` returns.
pub open spec fn truncate_html_spec(h: Seq<char>, max: nat) -> Seq<char> {
    if h.len() == 0 {
        h
    } else if max == 0 {
        text::truncation_notice()
    } else if visible_scan(h).1 <= max {
        h
    } else {
        let st = html_run(h, max);
        let k: nat = if st.open.len() < 50 { st.open.len() } else { 50 };
        st.out + closers(st.open, k) + text::truncation_notice()
    }
}

proof fn lemma_run_stopped(s: Seq<char>, max: nat, i: int, j: int)
    requires
        0 <= i <= j <= s.len(),
        html_run(s.take(i), max).stopped,
    ensures
        html_run(s.take(j), max) == html_run(s.take(i), max),
    decreases j - i,
{
    if i < j {
        lemma_run_stopped(s, max, i, j - 1);
        assert(s.take(j).drop_last() =~= s.take(j - 1));
    }
}

proof fn lemma_visible_mono(s: Seq<char>, i: int, j: int)
    requires
        0 <= i <= j <= s.len(),
    ensures
        visible_scan(s.take(i)).1 <= visible_scan(s.take(j)).1,
    decreases j - i,
{
    if i < j {
        lemma_visible_mono(s, i, j - 1);
        assert(s.take(j).drop_last() =~= s.take(j - 1));
    }
}

proof fn lemma_remove_last(v: Seq<Seq<char>>, x: Seq<char>, j: int)
    requires
        0 <= j < v.len(),
        v[j] == x,
        forall|k: int| j < k < v.len() ==> v[k] != x,
    ensures
        remove_last_eq(v, x) == v.remove(j),
    decreases v.len(),
{
    if j == v.len() - 1 {
        assert(v.drop_last() =~= v.remove(j));
    } else {
        lemma_remove_last(v.drop_last(), x, j);
        assert(v.drop_last().remove(j).push(v.last()) =~= v.remove(j));
    }
}

proof fn lemma_remove_none(v: Seq<Seq<char>>, x: Seq<char>)
    requires
        forall|k: int| 0 <= k < v.len() ==> v[k] != x,
    ensures
        remove_last_eq(v, x) == v,
    decreases v.len(),
{
    if v.len() > 0 {
        lemma_remove_none(v.drop_last(), x);
        assert(v.drop_last().push(v.last()) =~= v);
    }
}

/// Whether `name` is one of the self-closing tag names.
fn is_self_closing(name: &Vec<char>) -> (r: bool)
    ensures
        r == self_closing(name@),
{
    let n = name.len();
    proof {
        assert(name@.subrange(0, n as int) =~= name@);
    }
    range_eq_str(name, 0, n, "br") || range_eq_str(name, 0, n, "hr") || range_eq_str(name, 0, n, "img")
        || range_eq_str(name, 0, n, "input") || range_eq_str(name, 0, n, "meta") || range_eq_str(
        name,
        0,
        n,
        "link",
    ) || range_eq_str(name, 0, n, "area") || range_eq_str(name, 0, n, "base") || range_eq_str(
        name,
        0,
        n,
        "col",
    ) || range_eq_str(name, 0, n, "embed") || range_eq_str(name, 0, n, "source") || range_eq_str(
        name,
        0,
        n,
        "track",
    ) || range_eq_str(name, 0, n, "wbr")
}

/// The open-tag stack `open` holds exactly `g`.
pub open spec fn stack_is(open: Seq<Vec<char>>, g: Seq<Seq<char>>) -> bool {
    open.len() == g.len() && forall|k: int| 0 <= k < g.len() ==> (#[trigger] open[k])@ == g[k]
}

/// Applies a finished tag `cur` to the open-tag stack.
fn close_tag(open_tags: &mut Vec<Vec<char>>, cur: &Vec<char>, closing: bool, Ghost(g): Ghost<Seq<Seq<char>>>)
    requires
        stack_is(old(open_tags)@, g),
    ensures
        stack_is(final(open_tags)@, open_after_tag(g, cur@, closing)),
{
    if cur.len() == 0 {
        return;
    }
    let cur_s = string_from_chars(cur);
    let lowered = to_lowercase(cur_s.as_str());
    let name = char_vec(lowered.as_str());
    if is_self_closing(&name) {
        return;
    }
    assert(name@ == unicode::str_lowercase(cur@));
    assert(cur@.len() > 0);
    if closing {
        let mut j = open_tags.len();
        while j > 0
            invariant
                0 <= j <= open_tags@.len(),
                stack_is(open_tags@, g),
                forall|k: int| j <= k < g.len() ==> g[k] != name@,
                name@ == unicode::str_lowercase(cur@),
                cur@.len() > 0,
                !self_closing(name@),
                closing,
            decreases j,
        {
            if chars_eq(&open_tags[j - 1], &name) {
                proof {
                    assert(open_tags@[j - 1]@ == g[j - 1]);
                    assert(g[j - 1] == name@);
                    lemma_remove_last(g, name@, j - 1);
                    assert(open_after_tag(g, cur@, closing) == g.remove(j - 1));
                }
                let ghost before = open_tags@;
                open_tags.remove(j - 1);
                proof {
                    assert forall|k: int| 0 <= k < g.remove(j - 1).len() implies (#[trigger] open_tags@[k])@
                        == g.remove(j - 1)[k] by {
                        if k < j - 1 {
                            assert(open_tags@[k] == before[k]);
                        } else {
                            assert(open_tags@[k] == before[k + 1]);
                        }
                    }
                }
                return;
            }
            j -= 1;
        }
        proof {
            lemma_remove_none(g, name@);
        }
    } else if open_tags.len() < 100 {
        open_tags.push(name);
        proof {
            assert forall|k: int| 0 <= k < g.push(name@).len() implies (#[trigger] open_tags@[k])@
                == g.push(name@)[k] by {
                if k < g.len() {
                } else {
                }
            }
        }
    }
}

/// Keeps at most `max_visible_len` characters of text outside tags, closes
/// the tags still open (innermost first, at most 50) and appends
/// `...(内容过长已截断)`. HTML that already fits is returned unchanged.
pub fn truncate_html(html: String, max_visible_len: usize) -> (r: String)
    ensures
        r@ == truncate_html_spec(html@, max_visible_len as nat),
{
    let chars = char_vec(html.as_str());
    let n = chars.len();
    if n == 0 {
        return html;
    }
    if max_visible_len == 0 {
        let mut m = String::new();
        push_str(&mut m, "...(内容过长已截断)");
        assert(Seq::<char>::empty() + text::truncation_notice() =~= text::truncation_notice());
        return m;
    }
    let ghost h = chars@;
    let ghost max = max_visible_len as nat;
    // First pass: count visible characters, stopping once over the limit.
    let mut visible: usize = 0;
    let mut in_tag = false;
    let mut i: usize = 0;
    proof {
        assert(h.take(0) =~= Seq::<char>::empty());
    }
    while i < n && visible <= max_visible_len
        invariant
            h == chars@,
            n == h.len(),
            0 <= i <= n,
            (in_tag, visible as nat) == visible_scan(h.take(i as int)),
            visible <= max_visible_len + 1,
            visible <= i,
        decreases n - i,
    {
        let c = chars[i];
        proof {
            assert(h.take(i + 1).drop_last() =~= h.take(i as int));
        }
        if c == '<' {
            in_tag = true;
        } else if c == '>' {
            in_tag = false;
        } else if !in_tag {
            visible = visible + 1;
        }
        i += 1;
    }
    proof {
        lemma_visible_mono(h, i as int, n as int);
        assert(h.take(n as int) =~= h);
    }
    if visible <= max_visible_len {
        proof {
            assert(h.take(n as int) =~= h);
        }
        return html;
    }
    // Second pass: copy until the limit, tracking open tags.
    let mut out = String::new();
    let mut open_tags: Vec<Vec<char>> = Vec::new();
    let mut cur: Vec<char> = Vec::new();
    let mut cur_bytes: usize = 0;
    let mut tag_started = false;
    let mut closing = false;
    in_tag = false;
    visible = 0;
    let ghost mut st = scan_start();
    let mut stopped = false;
    i = 0;
    while i < n && !stopped
        invariant
            h == chars@,
            n == h.len(),
            max == max_visible_len,
            0 <= i <= n,
            st == html_run(h.take(i as int), max),
            stopped == st.stopped,
            in_tag == st.in_tag,
            tag_started == st.started,
            closing == st.closing,
            cur@ == st.cur,
            cur_bytes == strs::byte_len(cur@),
            cur_bytes <= 53,
            stack_is(open_tags@, st.open),
            out@ == st.out,
            visible as nat == st.visible,
            visible <= max_visible_len + 1,
            !stopped ==> visible <= max_visible_len,
            visible <= i,
        decreases n - i,
    {
        let c = chars[i];
        proof {
            assert(h.take(i + 1).drop_last() =~= h.take(i as int));
        }
        if c == '<' {
            in_tag = true;
            tag_started = false;
            closing = false;
            cur = Vec::new();
            cur_bytes = 0;
            push_char(&mut out, c);
            proof {
                st = html_step(st, c, max);
            }
        } else if c == '>' {
            in_tag = false;
            push_char(&mut out, c);
            close_tag(&mut open_tags, &cur, closing, Ghost(st.open));
            proof {
                st = html_step(st, c, max);
            }
        } else if in_tag {
            push_char(&mut out, c);
            let alnum = is_alphanumeric(c);
            if c == '/' && !tag_started {
                closing = true;
            } else if alnum && !tag_started {
                tag_started = true;
                if cur_bytes < 50 {
                    proof {
                        strs::lemma_byte_len_push(cur@, c);
                    }
                    cur_bytes = cur_bytes + strs::char_width_exec(c);
                    cur.push(c);
                }
            } else if tag_started && (alnum || c == '-') {
                if cur_bytes < 50 {
                    proof {
                        strs::lemma_byte_len_push(cur@, c);
                    }
                    cur_bytes = cur_bytes + strs::char_width_exec(c);
                    cur.push(c);
                }
            } else if tag_started {
                tag_started = false;
            }
            proof {
                st = html_step(st, c, max);
            }
        } else {
            if visible + 1 > max_visible_len {
                visible = visible + 1;
                stopped = true;
            } else {
                visible = visible + 1;
                push_char(&mut out, c);
            }
            proof {
                st = html_step(st, c, max);
            }
        }
        i += 1;
    }
    proof {
        if stopped {
            lemma_run_stopped(h, max, i as int, n as int);
        }
        assert(h.take(n as int) =~= h);
        assert(html_run(h, max).open == st.open);
        assert(html_run(h, max).out == st.out);
    }
    // Close what is still open, innermost first.
    let len = open_tags.len();
    let k: usize = if len < 50 {
        len
    } else {
        50
    };
    let ghost base = out@;
    let mut j: usize = 0;
    while j < k
        invariant
            0 <= j <= k <= len,
            len == open_tags@.len(),
            stack_is(open_tags@, st.open),
            out@ == base + closers(st.open, j as nat),
        decreases k - j,
    {
        let tag = &open_tags[len - 1 - j];
        push_str(&mut out, "</");
        push_chars(&mut out, tag, 0, tag.len());
        push_str(&mut out, ">");
        proof {
            assert(tag@.subrange(0, tag@.len() as int) =~= tag@);
            assert(st.open[st.open.len() - (j + 1)] == tag@);
            assert(closers(st.open, (j + 1) as nat) == closers(st.open, j as nat) + "</"@ + st.open[st.open.len()
                - (j + 1)] + ">"@);
            assert(out@ =~= base + closers(st.open, (j + 1) as nat));
        }
        j += 1;
    }
    push_str(&mut out, "...(内容过长已截断)");
    out
}


/// The HTML void elements: they have no content and never take a closing
/// tag.
pub open spec fn html_void_element(name: Seq<char>) -> bool {
    ||| name == "br"@
    ||| name == "hr"@
    ||| name == "img"@
    ||| name == "input"@
    ||| name == "meta"@
    ||| name == "link"@
    ||| name == "area"@
    ||| name == "base"@
    ||| name == "col"@
    ||| name == "embed"@
    ||| name == "source"@
    ||| name == "track"@
    ||| name == "wbr"@
}

/// Closing tags for `names`, in order.
pub open spec fn closing_tags(names: Seq<Seq<char>>) -> Seq<char>
    decreases names.len(),
{
    if names.len() == 0 {
        Seq::empty()
    } else {
        closing_tags(names.drop_last()) + "</"@ + names.last() + ">"@
    }
}

/// The tag that ends with the `>` at `j` of `h` is an opening tag whose
/// lowercased name is `name`.
pub open spec fn opened_at(h: Seq<char>, max: nat, j: int, name: Seq<char>) -> bool {
    let st = html_run(h.take(j), max);
    &&& h[j] == '>'
    &&& !st.closing
    &&& st.cur.len() > 0
    &&& unicode::str_lowercase(st.cur) == name
}

/// Every tag on `open` is no void element and was opened by a tag ending
/// before `q`.
pub open spec fn stack_opened(s: Seq<char>, max: nat, open: Seq<Seq<char>>, q: int) -> bool {
    forall|k: int| 0 <= k < open.len() ==> !html_void_element(#[trigger] open[k]) && exists|j: int|
        0 <= j < q && opened_at(s, max, j, open[k])
}

proof fn lemma_remove_last_from(v: Seq<Seq<char>>, x: Seq<char>)
    ensures
        forall|k: int| 0 <= k < remove_last_eq(v, x).len() ==> exists|m: int| 0 <= m < v.len() && #[trigger] remove_last_eq(v, x)[k] == v[m],
    decreases v.len(),
{
    if v.len() > 0 && v.last() != x {
        lemma_remove_last_from(v.drop_last(), x);
        let r = remove_last_eq(v, x);
        let d = remove_last_eq(v.drop_last(), x);
        assert forall|k: int| 0 <= k < r.len() implies exists|m: int| 0 <= m < v.len() && #[trigger] r[k] == v[m] by {
            if k < d.len() {
                let m = choose|m: int| 0 <= m < v.drop_last().len() && d[k] == v.drop_last()[m];
                assert(r[k] == v[m]);
            } else {
                assert(r[k] == v[v.len() - 1]);
            }
        }
    } else if v.len() > 0 {
        assert forall|k: int| 0 <= k < remove_last_eq(v, x).len() implies exists|m: int| 0 <= m < v.len()
            && #[trigger] remove_last_eq(v, x)[k] == v[m] by {
            assert(remove_last_eq(v, x)[k] == v[k]);
        }
    }
}

/// The copying pass over the first `n` characters has copied a prefix
/// `s.take(q)` (all of them while it has not stopped), and every tag on its
/// open-tag stack is no void element and was opened by a tag ending before
/// `q`.
proof fn lemma_run_facts(s: Seq<char>, max: nat, n: int) -> (q: int)
    requires
        0 <= n <= s.len(),
    ensures
        0 <= q <= n,
        html_run(s.take(n), max).out == s.take(q),
        !html_run(s.take(n), max).stopped ==> q == n,
        stack_opened(s, max, html_run(s.take(n), max).open, q),
    decreases n,
{
    if n == 0 {
        assert(s.take(0) =~= Seq::<char>::empty());
        0
    } else {
        let q0 = lemma_run_facts(s, max, n - 1);
        assert(s.take(n).drop_last() =~= s.take(n - 1));
        assert(s.take(n).last() == s[n - 1]);
        let st = html_run(s.take(n - 1), max);
        let c = s[n - 1];
        let nt = html_run(s.take(n), max);
        assert(nt == html_step(st, c, max));
        if st.stopped {
            assert(nt == st);
            q0
        } else {
            assert(q0 == n - 1);
            assert(stack_opened(s, max, st.open, n)) by {
                assert forall|k: int| 0 <= k < st.open.len() implies !html_void_element(#[trigger] st.open[k])
                    && exists|j: int| 0 <= j < n && opened_at(s, max, j, st.open[k]) by {
                    let j = choose|j: int| 0 <= j < q0 && opened_at(s, max, j, st.open[k]);
                }
            }
            if c == '>' {
                assert(s.take(n) =~= s.take(n - 1).push(c));
                let cur = st.cur;
                if cur.len() > 0 {
                    let name = unicode::str_lowercase(cur);
                    if self_closing(name) {
                    } else if st.closing {
                        lemma_remove_last_from(st.open, name);
                        assert forall|k: int| 0 <= k < nt.open.len() implies !html_void_element(#[trigger] nt.open[k])
                            && exists|j: int| 0 <= j < n && opened_at(s, max, j, nt.open[k]) by {
                            let m = choose|m: int| 0 <= m < st.open.len() && #[trigger] nt.open[k] == st.open[m];
                            assert(nt.open[k] == st.open[m]);
                            let e = st.open[m];
                            assert(!html_void_element(e));
                            let j = choose|j: int| 0 <= j < q0 && opened_at(s, max, j, e);
                        }
                    } else if st.open.len() < 100 {
                        assert(opened_at(s, max, n - 1, name));
                        assert forall|k: int| 0 <= k < nt.open.len() implies !html_void_element(#[trigger] nt.open[k])
                            && exists|j: int| 0 <= j < n && opened_at(s, max, j, nt.open[k]) by {
                            if k < st.open.len() {
                                assert(nt.open[k] == st.open[k]);
                                let e = st.open[k];
                                let j = choose|j: int| 0 <= j < q0 && opened_at(s, max, j, e);
                            } else {
                                assert(nt.open[k] == name);
                                assert(opened_at(s, max, n - 1, name));
                            }
                        }
                    }
                }
                n
            } else if c == '<' || st.in_tag {
                assert(s.take(n) =~= s.take(n - 1).push(c));
                n
            } else if st.visible + 1 > max {
                n - 1
            } else {
                assert(s.take(n) =~= s.take(n - 1).push(c));
                n
            }
        }
    }
}

proof fn lemma_closers_are_closing_tags(open: Seq<Seq<char>>, k: nat)
    requires
        k <= open.len(),
    ensures
        closers(open, k) == closing_tags(Seq::new(k, |t: int| open[open.len() - 1 - t])),
    decreases k,
{
    let names = Seq::new(k, |t: int| open[open.len() - 1 - t]);
    if k > 0 {
        lemma_closers_are_closing_tags(open, (k - 1) as nat);
        assert(names.drop_last() =~= Seq::new((k - 1) as nat, |t: int| open[open.len() - 1 - t]));
        assert(names.last() == open[open.len() - k]);
    } else {
        assert(names =~= Seq::<Seq<char>>::empty());
    }
}

/// The cut HTML is the first `i` characters of `h`, then closing tags for
/// `names` (at most 50), then the truncation notice; each name is no void
/// element and was opened by an opening tag within those `i` characters.
pub open spec fn cut_closing(h: Seq<char>, max: nat, i: int, names: Seq<Seq<char>>) -> bool {
    &&& 0 <= i <= h.len()
    &&& names.len() <= 50
    &&& truncate_html_spec(h, max) == h.take(i) + closing_tags(names) + text::truncation_notice()
    &&& forall|k: int| 0 <= k < names.len() ==> !html_void_element(#[trigger] names[k]) && exists|j: int|
        0 <= j < i && opened_at(h, max, j, names[k])
}

/// When HTML is cut, the result is a prefix of the HTML, then closing tags,
/// then the truncation notice: at most 50 closing tags, each for a tag that
/// an opening tag in that prefix opened (its name lowercased) and none for a
/// void element such as `<hr>` or `<br>`.
pub proof fn law_truncated_html_closes_only_opened_tags(h: Seq<char>, max: nat)
    requires
        h.len() > 0,
        max > 0,
        visible_scan(h).1 > max,
    ensures
        exists|i: int, names: Seq<Seq<char>>| #[trigger] cut_closing(h, max, i, names),
{
    let q = lemma_run_facts(h, max, h.len() as int);
    assert(h.take(h.len() as int) =~= h);
    let st = html_run(h, max);
    let k: nat = if st.open.len() < 50 { st.open.len() } else { 50 };
    lemma_closers_are_closing_tags(st.open, k);
    let names = Seq::new(k, |t: int| st.open[st.open.len() - 1 - t]);
    assert forall|t: int| 0 <= t < names.len() implies !html_void_element(#[trigger] names[t]) && exists|j: int|
        0 <= j < q && opened_at(h, max, j, names[t]) by {
        let e = st.open[st.open.len() - 1 - t];
        assert(names[t] == e);
        assert(!html_void_element(st.open[st.open.len() - 1 - t]));
    }
    assert(truncate_html_spec(h, max) == h.take(q) + closing_tags(names) + text::truncation_notice());
    assert(0 <= q <= h.len() && names.len() <= 50 && truncate_html_spec(h, max) == h.take(q) + closing_tags(names)
        + text::truncation_notice());
    assert(forall|t: int|
        0 <= t < names.len() ==> !html_void_element(#[trigger] names[t]) && exists|j: int|
            0 <= j < q && opened_at(h, max, j, names[t]));
    assert(cut_closing(h, max, q, names));
}
} // verus!
