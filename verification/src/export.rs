//! Text of the PDF and Word exports: title lines, step headings, word
//! wrapping and the Latin-1 sanitizing that the PDF's built-in fonts need.
//!
//! Page layout and document assembly belong to the caller.

use vstd::prelude::*;
use vstd::string::StringExecFns;
use crate::i18n::Strings;
use crate::text::{
    char_is_space, chars_of, decimal, is_space, push_chars, replace, replace_str, string_of,
    usize_to_decimal, usize_to_string,
};

verus! {

// ---------------------------------------------------------------------------
// Title and headings
// ---------------------------------------------------------------------------

/// "Started: {x}" with the start time filled in.
pub fn started_line(t: &Strings, started: &str) -> (res: String)
    ensures
        res@ == replace(t.report_started@, "{x}"@, started@),
{
    replace_str(t.report_started, "{x}", started)
}

/// "Total steps: {n}" with the step count filled in.
pub fn total_line(t: &Strings, count: usize) -> (res: String)
    ensures
        res@ == replace(t.report_total@, "{n}"@, decimal(count as nat)),
{
    let n = usize_to_string(count);
    replace_str(t.report_total, "{n}", n.as_str())
}

/// The heading of a step page: "Step {n}" with the index filled in, a
/// spaced dash, then the capture time.
pub open spec fn step_heading_text(t: Strings, index: nat, time: Seq<char>) -> Seq<char> {
    replace(t.report_step@, "{n}"@, decimal(index)) + "  —  "@ + time
}

/// The heading of a step page.
pub fn step_heading(t: &Strings, index: usize, time: &str) -> (res: String)
    ensures
        res@ == step_heading_text(*t, index as nat, time@),
{
    let n = usize_to_string(index);
    let mut h = replace_str(t.report_step, "{n}", n.as_str());
    h.append("  —  ");
    h.append(time);
    h
}

// ---------------------------------------------------------------------------
// Latin-1 sanitizing
// ---------------------------------------------------------------------------

/// One character mapped for the PDF built-in fonts: typographic quotes and
/// dashes to ASCII, the ellipsis to `~`, the no-break space to a space,
/// other Latin-1 characters unchanged, anything else to `?`.
pub open spec fn latin1_char(c: char) -> char {
    if c == '\u{201c}' || c == '\u{201d}' || c == '\u{201e}' || c == '\u{201f}' {
        '"'
    } else if c == '\u{2018}' || c == '\u{2019}' || c == '\u{201a}' {
        '\''
    } else if c == '\u{2013}' || c == '\u{2014}' || c == '\u{2212}' {
        '-'
    } else if c == '\u{2026}' {
        '~'
    } else if c == '\u{a0}' {
        ' '
    } else if (c as u32) <= 0xff {
        c
    } else {
        '?'
    }
}

/// The text mapped character by character.
pub open spec fn sanitized(s: Seq<char>) -> Seq<char> {
    s.map_values(|c: char| latin1_char(c))
}

/// Maps text to characters the built-in PDF fonts can show (Latin-1).
pub fn sanitize(s: &str) -> (res: String)
    ensures
        res@ == sanitized(s@),
{
    let cs = chars_of(s);
    let mut out: Vec<char> = Vec::new();
    let n: usize = cs.len();
    for i in 0..n
        invariant
            n == cs@.len(),
            cs@ == s@,
            out@ =~= sanitized(cs@.take(i as int)),
    {
        let c = cs[i];
        let m: char = if c == '\u{201c}' || c == '\u{201d}' || c == '\u{201e}' || c == '\u{201f}' {
            '"'
        } else if c == '\u{2018}' || c == '\u{2019}' || c == '\u{201a}' {
            '\''
        } else if c == '\u{2013}' || c == '\u{2014}' || c == '\u{2212}' {
            '-'
        } else if c == '\u{2026}' {
            '~'
        } else if c == '\u{a0}' {
            ' '
        } else if (c as u32) <= 0xff {
            c
        } else {
            '?'
        };
        out.push(m);
    }
    assert(cs@.take(n as int) =~= cs@);
    string_of(&out)
}

/// Law: sanitized text keeps its length and holds only Latin-1 characters.
pub proof fn law_sanitize_latin1(s: Seq<char>)
    ensures
        sanitized(s).len() == s.len(),
        forall|i: int| 0 <= i < s.len() ==> (#[trigger] sanitized(s)[i] as u32) <= 0xff,
{
}

// ---------------------------------------------------------------------------
// Word wrapping
// ---------------------------------------------------------------------------

/// Words found so far and the word being read, scanning left to right.
pub open spec fn words_scan(s: Seq<char>) -> (Seq<Seq<char>>, Seq<char>)
    decreases s.len(),
{
    if s.len() == 0 {
        (Seq::empty(), Seq::empty())
    } else {
        let prev = words_scan(s.drop_last());
        let c = s.last();
        if is_space(c) {
            if prev.1.len() > 0 {
                (prev.0.push(prev.1), Seq::empty())
            } else {
                (prev.0, Seq::empty())
            }
        } else {
            (prev.0, prev.1.push(c))
        }
    }
}

/// `str::split_whitespace`: the maximal runs of non-whitespace characters.
pub open spec fn words(s: Seq<char>) -> Seq<Seq<char>> {
    let st = words_scan(s);
    if st.1.len() > 0 {
        st.0.push(st.1)
    } else {
        st.0
    }
}

/// Lines finished so far and the line being filled, word by word: a word
/// starts a new line when the current line is not empty and the word plus a
/// space would make it longer than `max`.
pub open spec fn wrap_scan(ws: Seq<Seq<char>>, max: int) -> (Seq<Seq<char>>, Seq<char>)
    decreases ws.len(),
{
    if ws.len() == 0 {
        (Seq::empty(), Seq::empty())
    } else {
        let prev = wrap_scan(ws.drop_last(), max);
        let w = ws.last();
        if prev.1.len() > 0 && prev.1.len() + 1 + w.len() > max {
            (prev.0.push(prev.1), w)
        } else if prev.1.len() > 0 {
            (prev.0, prev.1 + seq![' '] + w)
        } else {
            (prev.0, w)
        }
    }
}

/// Greedy word wrap to roughly `max` characters per line; at least one
/// (possibly empty) line.
pub open spec fn wrapped(s: Seq<char>, max: int) -> Seq<Seq<char>> {
    let st = wrap_scan(words(s), max);
    let lines = if st.1.len() > 0 {
        st.0.push(st.1)
    } else {
        st.0
    };
    if lines.len() == 0 {
        seq![Seq::empty()]
    } else {
        lines
    }
}

/// The words of a text, in order.
fn split_words(s: &Vec<char>) -> (res: Vec<Vec<char>>)
    ensures
        res.deep_view() == words(s@),
{
    let n: usize = s.len();
    let mut done: Vec<Vec<char>> = Vec::new();
    let mut cur: Vec<char> = Vec::new();
    assert(s@.take(0) =~= Seq::<char>::empty());
    for i in 0..n
        invariant
            n == s@.len(),
            words_scan(s@.take(i as int)) == (done.deep_view(), cur@),
    {
        let c = s[i];
        assert(s@.take(i + 1).drop_last() =~= s@.take(i as int));
        assert(s@.take(i + 1).last() == c);
        if char_is_space(c) {
            if cur.len() > 0 {
                let ghost before = done.deep_view();
                let w = cur;
                assert(w.deep_view() =~= w@);
                done.push(w);
                cur = Vec::new();
                assert(done.deep_view() =~~= before.push(w@));
            }
        } else {
            cur.push(c);
        }
    }
    assert(s@.take(n as int) =~= s@);
    if cur.len() > 0 {
        let ghost before = done.deep_view();
        let ghost cw = cur@;
        assert(cur.deep_view() =~= cur@);
        done.push(cur);
        assert(done.deep_view() =~~= before.push(cw));
    }
    done
}

/// Greedy word-wrap to roughly `max` characters per line.
pub fn wrap(s: &str, max: usize) -> (res: Vec<String>)
    ensures
        res.deep_view() == wrapped(s@, max as int),
{
    let ws = split_words(&chars_of(s));
    let n: usize = ws.len();
    let mut lines: Vec<String> = Vec::new();
    let mut cur: Vec<char> = Vec::new();
    assert(ws.deep_view().take(0) =~= Seq::<Seq<char>>::empty());
    for i in 0..n
        invariant
            n == ws@.len(),
            ws.deep_view().len() == n,
            wrap_scan(ws.deep_view().take(i as int), max as int) == (lines.deep_view(), cur@),
    {
        let w = &ws[i];
        let ghost wv = ws.deep_view();
        assert(wv.take(i + 1).drop_last() =~= wv.take(i as int));
        assert(wv.take(i + 1).last() == w@);
        if cur.len() > 0 && cur.len() as u128 + 1 + w.len() as u128 > max as u128 {
            let ghost before = lines.deep_view();
            let ghost cv = cur@;
            lines.push(string_of(&cur));
            assert(lines.deep_view() =~= before.push(cv));
            cur = Vec::new();
            let mut k: usize = 0;
            while k < w.len()
                invariant
                    k <= w@.len(),
                    cur@ =~= w@.take(k as int),
                decreases w@.len() - k,
            {
                cur.push(w[k]);
                k = k + 1;
            }
            assert(w@.take(w@.len() as int) =~= w@);
        } else {
            let ghost cv = cur@;
            if cur.len() > 0 {
                cur.push(' ');
            }
            let mut k: usize = 0;
            let ghost head = cur@;
            while k < w.len()
                invariant
                    k <= w@.len(),
                    cur@ =~= head + w@.take(k as int),
                decreases w@.len() - k,
            {
                cur.push(w[k]);
                k = k + 1;
            }
            assert(w@.take(w@.len() as int) =~= w@);
            proof {
                if cv.len() > 0 {
                    assert(cur@ =~= cv + seq![' '] + w@);
                } else {
                    assert(cur@ =~= w@);
                }
            }
        }
    }
    assert(ws.deep_view().take(n as int) =~= ws.deep_view());
    if cur.len() > 0 {
        let ghost before = lines.deep_view();
        let ghost cv = cur@;
        lines.push(string_of(&cur));
        assert(lines.deep_view() =~= before.push(cv));
    }
    if lines.len() == 0 {
        lines.push(String::new());
        assert(lines.deep_view() =~= seq![Seq::<char>::empty()]);
    }
    lines
}

// ---------------------------------------------------------------------------
// Laws of the word wrap
// ---------------------------------------------------------------------------

/// Texts joined with single spaces.
pub open spec fn join_spaces(parts: Seq<Seq<char>>) -> Seq<char>
    decreases parts.len(),
{
    if parts.len() == 0 {
        Seq::empty()
    } else if parts.len() == 1 {
        parts[0]
    } else {
        join_spaces(parts.drop_last()) + seq![' '] + parts.last()
    }
}

/// Whether a text holds no space character.
pub open spec fn no_space(w: Seq<char>) -> bool {
    forall|i: int| 0 <= i < w.len() ==> w[i] != ' '
}

/// The words are non-empty and hold no whitespace.
proof fn lemma_words_plain(s: Seq<char>)
    ensures
        forall|i: int| 0 <= i < words(s).len() ==> #[trigger] words(s)[i].len() > 0 && no_space(
            words(s)[i],
        ),
{
    lemma_words_scan_plain(s);
}

proof fn lemma_words_scan_plain(s: Seq<char>)
    ensures
        forall|i: int|
            0 <= i < words_scan(s).0.len() ==> #[trigger] words_scan(s).0[i].len() > 0 && no_space(
                words_scan(s).0[i],
            ),
        no_space(words_scan(s).1),
    decreases s.len(),
{
    if s.len() > 0 {
        lemma_words_scan_plain(s.drop_last());
        let prev = words_scan(s.drop_last());
        let c = s.last();
        if !is_space(c) {
            assert(c != ' ');
            let cur = prev.1.push(c);
            assert forall|i: int| 0 <= i < cur.len() implies cur[i] != ' ' by {
                if i < prev.1.len() {
                    assert(cur[i] == prev.1[i]);
                }
            }
        }
    }
}

/// While wrapping, the finished lines and the current line together hold
/// the words read so far, in order, with single spaces; a finished line or
/// the current line is longer than `max` only when it is a single word.
proof fn lemma_wrap_scan(ws: Seq<Seq<char>>, max: int)
    requires
        forall|i: int| 0 <= i < ws.len() ==> #[trigger] ws[i].len() > 0 && no_space(ws[i]),
    ensures
        ({
            let st = wrap_scan(ws, max);
            &&& (ws.len() == 0 <==> st.1.len() == 0)
            &&& ws.len() > 0 ==> join_spaces(st.0.push(st.1)) == join_spaces(ws)
            &&& forall|i: int|
                0 <= i < st.0.len() ==> (#[trigger] st.0[i]).len() <= max || no_space(st.0[i])
            &&& forall|i: int| 0 <= i < st.0.len() ==> (#[trigger] st.0[i]).len() > 0
            &&& (st.1.len() <= max || no_space(st.1))
        }),
    decreases ws.len(),
{
    if ws.len() > 0 {
        let init = ws.drop_last();
        assert forall|i: int| 0 <= i < init.len() implies #[trigger] init[i].len() > 0 && no_space(
            init[i],
        ) by {
            assert(init[i] == ws[i]);
        }
        lemma_wrap_scan(init, max);
        let prev = wrap_scan(init, max);
        let w = ws.last();
        assert(w == ws[ws.len() - 1]);
        let st = wrap_scan(ws, max);
        if prev.1.len() > 0 && prev.1.len() + 1 + w.len() > max {
            assert(st == (prev.0.push(prev.1), w));
            let a = prev.0.push(prev.1);
            assert(a.push(w).drop_last() =~= a);
            assert(ws.drop_last() =~= init);
        } else if prev.1.len() > 0 {
            let cur = prev.1 + seq![' '] + w;
            assert(st == (prev.0, cur));
            assert(cur.len() <= max);
            let a = prev.0.push(prev.1);
            let b = prev.0.push(cur);
            lemma_join_last(prev.0, prev.1, w);
        } else {
            assert(init.len() == 0);
            assert(st == (prev.0, w));
            assert(prev.0.len() == 0) by {
                lemma_wrap_scan_empty_lines(init, max);
            }
            assert(prev.0.push(w) =~= seq![w]);
            assert(ws =~= seq![w]);
        }
    }
}

proof fn lemma_wrap_scan_empty_lines(ws: Seq<Seq<char>>, max: int)
    requires
        ws.len() == 0,
    ensures
        wrap_scan(ws, max).0.len() == 0,
{
}

/// Joining with the last part extended by a space and a word.
proof fn lemma_join_last(lines: Seq<Seq<char>>, cur: Seq<char>, w: Seq<char>)
    ensures
        join_spaces(lines.push(cur + seq![' '] + w)) == join_spaces(lines.push(cur)) + seq![' ']
            + w,
{
    let a = lines.push(cur + seq![' '] + w);
    let b = lines.push(cur);
    assert(a.drop_last() =~= lines);
    assert(b.drop_last() =~= lines);
    if lines.len() == 0 {
        assert(a.len() == 1);
        assert(b.len() == 1);
    } else {
        assert(join_spaces(a) == join_spaces(lines) + seq![' '] + (cur + seq![' '] + w));
        assert(join_spaces(b) == join_spaces(lines) + seq![' '] + cur);
        assert(join_spaces(lines) + seq![' '] + (cur + seq![' '] + w) =~= join_spaces(lines)
            + seq![' '] + cur + seq![' '] + w);
    }
}

/// Law: wrapping gives at least one line; every line longer than `max` is a
/// single word; and the lines joined with single spaces give the text's
/// words joined with single spaces, so no word is lost, split or reordered.
pub proof fn law_wrap(s: Seq<char>, max: int)
    ensures
        wrapped(s, max).len() >= 1,
        forall|i: int|
            0 <= i < wrapped(s, max).len() ==> (#[trigger] wrapped(s, max)[i]).len() <= max
                || no_space(wrapped(s, max)[i]),
        join_spaces(wrapped(s, max)) == join_spaces(words(s)),
{
    let ws = words(s);
    lemma_words_plain(s);
    lemma_wrap_scan(ws, max);
    let st = wrap_scan(ws, max);
    if ws.len() == 0 {
        assert(st.1.len() == 0);
        assert(st.0.len() == 0) by {
            lemma_wrap_scan_empty_lines(ws, max);
        }
        assert(wrapped(s, max) =~= seq![Seq::<char>::empty()]);
        assert(join_spaces(wrapped(s, max)) =~= Seq::<char>::empty());
    } else {
        assert(wrapped(s, max) == st.0.push(st.1));
        let l = st.0.push(st.1);
        assert forall|i: int| 0 <= i < l.len() implies (#[trigger] l[i]).len() <= max || no_space(
            l[i],
        ) by {
            if i < st.0.len() {
                assert(l[i] == st.0[i]);
            }
        }
    }
}

/// The first word of a line: everything before its first space.
pub open spec fn first_word(l: Seq<char>) -> Seq<char>
    decreases l.len(),
{
    if l.len() == 0 || l[0] == ' ' {
        Seq::empty()
    } else {
        seq![l[0]] + first_word(l.drop_first())
    }
}

/// A word without spaces is its own first word.
proof fn lemma_first_word_plain(w: Seq<char>)
    requires
        no_space(w),
    ensures
        first_word(w) == w,
    decreases w.len(),
{
    if w.len() > 0 {
        assert(no_space(w.drop_first())) by {
            assert forall|i: int| 0 <= i < w.drop_first().len() implies w.drop_first()[i] != ' ' by {
                assert(w.drop_first()[i] == w[i + 1]);
            }
        }
        lemma_first_word_plain(w.drop_first());
        assert(seq![w[0]] + w.drop_first() =~= w);
    }
}

/// Appending a space and more text keeps a line's first word.
proof fn lemma_first_word_extend(a: Seq<char>, w: Seq<char>)
    ensures
        first_word(a + seq![' '] + w) == first_word(a),
    decreases a.len(),
{
    let x = a + seq![' '] + w;
    if a.len() == 0 {
        assert(x[0] == ' ');
    } else {
        assert(x[0] == a[0]);
        if a[0] != ' ' {
            assert(x.drop_first() =~= a.drop_first() + seq![' '] + w);
            lemma_first_word_extend(a.drop_first(), w);
        }
    }
}

/// The line after finished line `i` while wrapping: the next finished line,
/// or the line being filled.
pub open spec fn next_line(st: (Seq<Seq<char>>, Seq<char>), i: int) -> Seq<char> {
    if i + 1 < st.0.len() {
        st.0[i + 1]
    } else {
        st.1
    }
}

/// Every finished line was closed because the next line's first word did
/// not fit behind it.
proof fn lemma_wrap_scan_greedy(ws: Seq<Seq<char>>, max: int)
    requires
        forall|i: int| 0 <= i < ws.len() ==> #[trigger] ws[i].len() > 0 && no_space(ws[i]),
    ensures
        forall|i: int|
            0 <= i < wrap_scan(ws, max).0.len() ==> (#[trigger] wrap_scan(ws, max).0[i]).len() + 1
                + first_word(next_line(wrap_scan(ws, max), i)).len() > max,
    decreases ws.len(),
{
    if ws.len() > 0 {
        let init = ws.drop_last();
        assert forall|i: int| 0 <= i < init.len() implies #[trigger] init[i].len() > 0 && no_space(
            init[i],
        ) by {
            assert(init[i] == ws[i]);
        }
        lemma_wrap_scan_greedy(init, max);
        let prev = wrap_scan(init, max);
        let w = ws.last();
        assert(w == ws[ws.len() - 1]);
        lemma_first_word_plain(w);
        let st = wrap_scan(ws, max);
        if prev.1.len() > 0 && prev.1.len() + 1 + w.len() > max {
            assert(st == (prev.0.push(prev.1), w));
            assert forall|i: int| 0 <= i < st.0.len() implies (#[trigger] st.0[i]).len() + 1
                + first_word(next_line(st, i)).len() > max by {
                if i < prev.0.len() {
                    assert(st.0[i] == prev.0[i]);
                    assert(next_line(st, i) == next_line(prev, i));
                }
            }
        } else if prev.1.len() > 0 {
            let cur = prev.1 + seq![' '] + w;
            assert(st == (prev.0, cur));
            lemma_first_word_extend(prev.1, w);
            assert forall|i: int| 0 <= i < st.0.len() implies (#[trigger] st.0[i]).len() + 1
                + first_word(next_line(st, i)).len() > max by {
                if i + 1 < st.0.len() {
                    assert(next_line(st, i) == next_line(prev, i));
                } else {
                    assert(first_word(next_line(st, i)) == first_word(next_line(prev, i)));
                }
            }
        } else {
            lemma_wrap_scan_empty_lines(init, max);
        }
    }
}

/// Law: the wrap is greedy. When the text has words, no line is empty, and
/// every line but the last is followed by a line whose first word would
/// not have fit behind it (with a space) within `max` characters.
pub proof fn law_wrap_greedy(s: Seq<char>, max: int)
    ensures
        words(s).len() > 0 ==> forall|i: int|
            0 <= i < wrapped(s, max).len() ==> (#[trigger] wrapped(s, max)[i]).len() > 0,
        forall|i: int|
            0 <= i < wrapped(s, max).len() - 1 ==> (#[trigger] wrapped(s, max)[i]).len() + 1
                + first_word(wrapped(s, max)[i + 1]).len() > max,
{
    let ws = words(s);
    lemma_words_plain(s);
    lemma_wrap_scan(ws, max);
    lemma_wrap_scan_greedy(ws, max);
    let st = wrap_scan(ws, max);
    if ws.len() == 0 {
        assert(st.0.len() == 0) by {
            lemma_wrap_scan_empty_lines(ws, max);
        }
        assert(wrapped(s, max) =~= seq![Seq::<char>::empty()]);
    } else {
        let l = st.0.push(st.1);
        assert(wrapped(s, max) == l);
        assert forall|i: int| 0 <= i < l.len() implies (#[trigger] l[i]).len() > 0 by {
            if i < st.0.len() {
                assert(l[i] == st.0[i]);
            }
        }
        assert forall|i: int| 0 <= i < l.len() - 1 implies (#[trigger] l[i]).len() + 1 + first_word(
            l[i + 1],
        ).len() > max by {
            assert(l[i] == st.0[i]);
            assert(l[i + 1] == next_line(st, i));
        }
    }
}

/// Law: sanitizing keeps the length and maps each character by the table of
/// the built-in PDF fonts: the typographic double quotes U+201C, U+201D,
/// U+201E, U+201F become `"`; the single quotes U+2018, U+2019, U+201A
/// become `'`; the dashes U+2013, U+2014 and the minus U+2212 become `-`;
/// the ellipsis U+2026 becomes `~`; the no-break space becomes a space;
/// every other Latin-1 character stays; and only the remaining characters
/// above U+00FF become `?`.
pub proof fn law_sanitize_table(s: Seq<char>)
    ensures
        sanitized(s).len() == s.len(),
        forall|i: int|
            0 <= i < s.len() ==> {
                let c = #[trigger] s[i];
                let d = sanitized(s)[i];
                &&& (c == '\u{201c}' || c == '\u{201d}' || c == '\u{201e}' || c == '\u{201f}') ==> d
                    == '"'
                &&& (c == '\u{2018}' || c == '\u{2019}' || c == '\u{201a}') ==> d == '\''
                &&& (c == '\u{2013}' || c == '\u{2014}' || c == '\u{2212}') ==> d == '-'
                &&& c == '\u{2026}' ==> d == '~'
                &&& c == '\u{a0}' ==> d == ' '
                &&& ((c as u32) <= 0xff && c != '\u{a0}') ==> d == c
                &&& ((c as u32) > 0xff && c != '\u{201c}' && c != '\u{201d}' && c != '\u{201e}'
                    && c != '\u{201f}' && c != '\u{2018}' && c != '\u{2019}' && c != '\u{201a}'
                    && c != '\u{2013}' && c != '\u{2014}' && c != '\u{2212}' && c != '\u{2026}')
                    ==> d == '?'
            },
{
}

} // verus!
