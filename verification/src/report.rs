//! The report document (HTML + Markdown) built from the captured steps.
//!
//! Two HTML variants:
//! - **live** (during recording, after each step): images as file references;
//! - **final** (on stop): images embedded as base64 data URIs, so the report
//!   is a single, self-contained file.
//!
//! Reading the screenshots and writing the files is the caller's part: the
//! final variant takes the bytes of each step's screenshot (`None` where it
//! could not be read, which falls back to the file reference).

use vstd::prelude::*;
use vstd::string::StringExecFns;
use crate::i18n::Strings;
use crate::model::{Step, step_description};
use crate::text::{
    decimal, push_chars, replace, replace_str, usize_to_decimal, usize_to_string,
};

verus! {

// ---------------------------------------------------------------------------
// HTML escaping
// ---------------------------------------------------------------------------

/// `&`, `<`, `>` and `"` replaced by their entities, `&` first.
pub open spec fn html_escaped(s: Seq<char>) -> Seq<char> {
    replace(
        replace(replace(replace(s, "&"@, "&amp;"@), "<"@, "&lt;"@), ">"@, "&gt;"@),
        "\""@,
        "&quot;"@,
    )
}

/// Escapes text for use in HTML element content and attribute values.
pub fn html_escape(s: &str) -> (res: String)
    ensures
        res@ == html_escaped(s@),
{
    let a = replace_str(s, "&", "&amp;");
    let b = replace_str(a.as_str(), "<", "&lt;");
    let c = replace_str(b.as_str(), ">", "&gt;");
    replace_str(c.as_str(), "\"", "&quot;")
}

/// Replacing every `c` by text without `c` leaves no `c`.
proof fn lemma_replace_removes(s: Seq<char>, c: char, rep: Seq<char>)
    requires
        !rep.contains(c),
    ensures
        !replace(s, seq![c], rep).contains(c),
    decreases s.len(),
{
    if s.len() == 0 {
    } else {
        lemma_replace_removes(s.drop_first(), c, rep);
        let rest = replace(s.drop_first(), seq![c], rep);
        if s.subrange(0, 1) == seq![c] {
            assert(s.subrange(1, s.len() as int) =~= s.drop_first());
            assert forall|i: int| 0 <= i < (rep + rest).len() implies (rep + rest)[i] != c by {
                if i < rep.len() {
                    assert((rep + rest)[i] == rep[i]);
                } else {
                    assert((rep + rest)[i] == rest[i - rep.len()]);
                }
            }
        } else {
            assert(s[0] != c) by {
                if s[0] == c {
                    assert(s.subrange(0, 1) =~= seq![c]);
                }
            }
            assert forall|i: int| 0 <= i < (seq![s[0]] + rest).len() implies (seq![s[0]]
                + rest)[i] != c by {
                if i >= 1 {
                    assert((seq![s[0]] + rest)[i] == rest[i - 1]);
                }
            }
        }
    }
}

/// Replacing one character by text without `x` keeps a text without `x` free of `x`.
proof fn lemma_replace_keeps_absent(s: Seq<char>, c: char, rep: Seq<char>, x: char)
    requires
        !s.contains(x),
        !rep.contains(x),
    ensures
        !replace(s, seq![c], rep).contains(x),
    decreases s.len(),
{
    if s.len() == 0 {
    } else {
        assert(!s.drop_first().contains(x)) by {
            if s.drop_first().contains(x) {
                let k = choose|k: int| 0 <= k < s.drop_first().len() && s.drop_first()[k] == x;
                assert(s[k + 1] == x);
            }
        }
        lemma_replace_keeps_absent(s.drop_first(), c, rep, x);
        let rest = replace(s.drop_first(), seq![c], rep);
        assert(s[0] != x) by {
            if s[0] == x {
                assert(s.contains(s[0]));
            }
        }
        if s.subrange(0, 1) == seq![c] {
            assert(s.subrange(1, s.len() as int) =~= s.drop_first());
            assert forall|i: int| 0 <= i < (rep + rest).len() implies (rep + rest)[i] != x by {
                if i < rep.len() {
                    assert((rep + rest)[i] == rep[i]);
                } else {
                    assert((rep + rest)[i] == rest[i - rep.len()]);
                }
            }
        } else {
            assert forall|i: int| 0 <= i < (seq![s[0]] + rest).len() implies (seq![s[0]]
                + rest)[i] != x by {
                if i >= 1 {
                    assert((seq![s[0]] + rest)[i] == rest[i - 1]);
                }
            }
        }
    }
}

/// Law: escaped text holds no `<`, `>` or `"`, so it can neither open a
/// tag nor end an attribute value.
pub proof fn law_html_escape_removes_markup(s: Seq<char>)
    ensures
        !html_escaped(s).contains('<'),
        !html_escaped(s).contains('>'),
        !html_escaped(s).contains('"'),
{
    reveal_strlit("&");
    reveal_strlit("&amp;");
    reveal_strlit("<");
    reveal_strlit("&lt;");
    reveal_strlit(">");
    reveal_strlit("&gt;");
    reveal_strlit("\"");
    reveal_strlit("&quot;");
    assert("&"@ =~= seq!['&']);
    assert("<"@ =~= seq!['<']);
    assert(">"@ =~= seq!['>']);
    assert("\""@ =~= seq!['"']);
    let amp = "&amp;"@;
    let lt = "&lt;"@;
    let gt = "&gt;"@;
    let quot = "&quot;"@;
    assert(!lt.contains('<')) by {
        assert forall|i: int| 0 <= i < lt.len() implies lt[i] != '<' by {}
    }
    assert(!gt.contains('<') && !gt.contains('>')) by {
        assert forall|i: int| 0 <= i < gt.len() implies gt[i] != '<' && gt[i] != '>' by {}
    }
    assert(!quot.contains('<') && !quot.contains('>') && !quot.contains('"')) by {
        assert forall|i: int| 0 <= i < quot.len() implies quot[i] != '<' && quot[i] != '>'
            && quot[i] != '"' by {}
    }
    let a = replace(s, seq!['&'], amp);
    let b = replace(a, seq!['<'], lt);
    let c = replace(b, seq!['>'], gt);
    lemma_replace_removes(a, '<', lt);
    lemma_replace_keeps_absent(b, '>', gt, '<');
    lemma_replace_removes(b, '>', gt);
    lemma_replace_keeps_absent(c, '"', quot, '<');
    lemma_replace_keeps_absent(c, '"', quot, '>');
    lemma_replace_removes(c, '"', quot);
}

// ---------------------------------------------------------------------------
// Base64
// ---------------------------------------------------------------------------

/// The base64 character of a 6-bit value (standard alphabet).
pub open spec fn b64_char(v: int) -> char {
    if v < 26 {
        ((v + 65) as u32) as char
    } else if v < 52 {
        ((v - 26 + 97) as u32) as char
    } else if v < 62 {
        ((v - 52 + 48) as u32) as char
    } else if v == 62 {
        '+'
    } else {
        '/'
    }
}

/// One group of the encoding: up to three bytes (`k` of them, the missing
/// ones zero) as four characters, `=` standing for each missing byte.
pub open spec fn b64_group(b0: int, b1: int, b2: int, k: int) -> Seq<char> {
    let n = b0 * 65536 + b1 * 256 + b2;
    seq![
        b64_char(n / 262144 % 64),
        b64_char(n / 4096 % 64),
        if k > 1 { b64_char(n / 64 % 64) } else { '=' },
        if k > 2 { b64_char(n % 64) } else { '=' },
    ]
}

/// Standard base64 (RFC 4648) with `=` padding.
pub open spec fn base64_encoding(data: Seq<u8>) -> Seq<char>
    decreases data.len(),
{
    if data.len() == 0 {
        Seq::empty()
    } else if data.len() == 1 {
        b64_group(data[0] as int, 0, 0, 1)
    } else if data.len() == 2 {
        b64_group(data[0] as int, data[1] as int, 0, 2)
    } else {
        b64_group(data[0] as int, data[1] as int, data[2] as int, 3) + base64_encoding(
            data.subrange(3, data.len() as int),
        )
    }
}

/// The 6-bit value of a base64 character (zero for `=`).
pub open spec fn b64_value(c: char) -> int {
    if 'A' <= c && c <= 'Z' {
        (c as u32) as int - 65
    } else if 'a' <= c && c <= 'z' {
        (c as u32) as int - 97 + 26
    } else if '0' <= c && c <= '9' {
        (c as u32) as int - 48 + 52
    } else if c == '+' {
        62
    } else if c == '/' {
        63
    } else {
        0
    }
}

/// The bytes of one four-character group.
pub open spec fn b64_decode_group(c0: char, c1: char, c2: char, c3: char) -> Seq<u8> {
    let n = b64_value(c0) * 262144 + b64_value(c1) * 4096 + b64_value(c2) * 64 + b64_value(c3);
    let bytes = seq![(n / 65536 % 256) as u8, (n / 256 % 256) as u8, (n % 256) as u8];
    if c2 == '=' {
        bytes.take(1)
    } else if c3 == '=' {
        bytes.take(2)
    } else {
        bytes
    }
}

/// Base64 decoding, group by group.
pub open spec fn base64_decoding(s: Seq<char>) -> Seq<u8>
    decreases s.len(),
{
    if s.len() < 4 {
        Seq::empty()
    } else {
        b64_decode_group(s[0], s[1], s[2], s[3]) + base64_decoding(s.subrange(4, s.len() as int))
    }
}

/// The base64 character of a 6-bit value.
fn b64_char_of(v: u32) -> (c: char)
    requires
        v < 64,
    ensures
        c == b64_char(v as int),
{
    if v < 26 {
        ((v + 65) as u8) as char
    } else if v < 52 {
        ((v - 26 + 97) as u8) as char
    } else if v < 62 {
        ((v - 52 + 48) as u8) as char
    } else if v == 62 {
        '+'
    } else {
        '/'
    }
}

/// Minimal base64 encoder (standard alphabet, `=` padding).
pub fn base64(data: &[u8]) -> (res: String)
    ensures
        res@ == base64_encoding(data@),
{
    let n: usize = data.len();
    let mut out = String::new();
    let mut i: usize = 0;
    assert(data@.subrange(0, n as int) =~= data@);
    while i < n
        invariant
            n == data@.len(),
            i <= n,
            base64_encoding(data@) == out@ + base64_encoding(data@.subrange(i as int, n as int)),
        decreases n - i,
    {
        let ghost sub = data@.subrange(i as int, n as int);
        let rem: usize = n - i;
        let b0: u32 = data[i] as u32;
        let b1: u32 = if rem > 1 {
            data[i + 1] as u32
        } else {
            0
        };
        let b2: u32 = if rem > 2 {
            data[i + 2] as u32
        } else {
            0
        };
        let k: usize = if rem > 2 {
            3
        } else {
            rem
        };
        let v: u32 = b0 * 65536 + b1 * 256 + b2;
        let ghost before = out@;
        out.push(b64_char_of(v / 262144 % 64));
        out.push(b64_char_of(v / 4096 % 64));
        if k > 1 {
            out.push(b64_char_of(v / 64 % 64));
        } else {
            out.push('=');
        }
        if k > 2 {
            out.push(b64_char_of(v % 64));
        } else {
            out.push('=');
        }
        let ghost group = b64_group(b0 as int, b1 as int, b2 as int, k as int);
        assert(out@ =~= before + group);
        if rem > 2 {
            assert(sub.subrange(3, sub.len() as int) =~= data@.subrange(i + 3, n as int));
            assert(base64_encoding(sub) == group + base64_encoding(data@.subrange(i + 3, n as int)));
            assert(before + (group + base64_encoding(data@.subrange(i + 3, n as int))) =~= out@
                + base64_encoding(data@.subrange(i + 3, n as int)));
        } else {
            assert(base64_encoding(sub) == group);
            assert(data@.subrange(i + k, n as int) =~= Seq::<u8>::empty());
            assert(out@ + base64_encoding(data@.subrange(i + k, n as int)) =~= out@);
        }
        i = i + k;
    }
    assert(data@.subrange(n as int, n as int) =~= Seq::<u8>::empty());
    assert(out@ + base64_encoding(Seq::<u8>::empty()) =~= out@);
    out
}

/// Decoding a base64 character gives back its value.
proof fn lemma_b64_char_value(v: int)
    requires
        0 <= v < 64,
    ensures
        b64_value(b64_char(v)) == v,
        b64_char(v) != '=',
{
}

/// The arithmetic of one group: the four 6-bit values recombine to the
/// 24-bit number, whose bytes are the group's bytes; missing bytes give
/// zero values.
proof fn lemma_b64_group_arith(b0: u32, b1: u32, b2: u32)
    requires
        b0 < 256,
        b1 < 256,
        b2 < 256,
    ensures
        ({
            let n = b0 * 65536 + b1 * 256 + b2;
            &&& n / 262144 % 64 * 262144 + n / 4096 % 64 * 4096 + n / 64 % 64 * 64 + n % 64 == n
            &&& n / 65536 % 256 == b0
            &&& n / 256 % 256 == b1
            &&& n % 256 == b2
            &&& (b1 == 0 && b2 == 0) ==> (n / 64 % 64 == 0 && n % 64 == 0)
            &&& b2 == 0 ==> n % 64 == 0
        }),
{
    assert({
        let n = b0 * 65536 + b1 * 256 + b2;
        &&& n / 262144 % 64 * 262144 + n / 4096 % 64 * 4096 + n / 64 % 64 * 64 + n % 64 == n
        &&& n / 65536 % 256 == b0
        &&& n / 256 % 256 == b1
        &&& n % 256 == b2
        &&& (b1 == 0 && b2 == 0) ==> (n / 64 % 64 == 0 && n % 64 == 0)
        &&& b2 == 0 ==> n % 64 == 0
    }) by (bit_vector)
        requires
            b0 < 256,
            b1 < 256,
            b2 < 256,
    ;
}

/// Decoding one group gives back its bytes.
proof fn lemma_b64_group_roundtrip(b0: u8, b1: u8, b2: u8, k: int)
    requires
        1 <= k <= 3,
        k < 2 ==> b1 == 0,
        k < 3 ==> b2 == 0,
    ensures
        ({
            let g = b64_group(b0 as int, b1 as int, b2 as int, k);
            b64_decode_group(g[0], g[1], g[2], g[3]) == seq![b0, b1, b2].take(k)
        }),
{
    lemma_b64_group_arith(b0 as u32, b1 as u32, b2 as u32);
    let n: int = b0 * 65536 + b1 * 256 + b2;
    let v0: int = n / 262144 % 64;
    let v1: int = n / 4096 % 64;
    let v2: int = n / 64 % 64;
    let v3: int = n % 64;
    lemma_b64_char_value(v0);
    lemma_b64_char_value(v1);
    lemma_b64_char_value(v2);
    lemma_b64_char_value(v3);
    let g = b64_group(b0 as int, b1 as int, b2 as int, k);
    let m: int = b64_value(g[0]) * 262144 + b64_value(g[1]) * 4096 + b64_value(g[2]) * 64
        + b64_value(g[3]);
    assert(m == n);
    assert(b64_decode_group(g[0], g[1], g[2], g[3]) =~= seq![b0, b1, b2].take(k));
}

/// Law: decoding the base64 encoding gives back exactly the encoded bytes,
/// so an embedded screenshot is the screenshot itself.
pub proof fn law_base64_roundtrip(data: Seq<u8>)
    ensures
        base64_decoding(base64_encoding(data)) == data,
    decreases data.len(),
{
    if data.len() == 0 {
        assert(base64_encoding(data).len() == 0);
    } else if data.len() <= 2 {
        let b1: u8 = if data.len() == 2 {
            data[1]
        } else {
            0
        };
        lemma_b64_group_roundtrip(data[0], b1, 0, data.len() as int);
        let g = base64_encoding(data);
        assert(g == b64_group(data[0] as int, b1 as int, 0, data.len() as int));
        assert(g.len() == 4);
        assert(g.subrange(4, 4) =~= Seq::<char>::empty());
        assert(base64_decoding(g.subrange(4, 4)) == Seq::<u8>::empty());
        assert(base64_decoding(g) == b64_decode_group(g[0], g[1], g[2], g[3]) + base64_decoding(
            g.subrange(4, 4),
        ));
        assert(seq![data[0], b1, 0u8].take(data.len() as int) =~= data);
        assert(base64_decoding(g) =~= data);
    } else {
        let rest = data.subrange(3, data.len() as int);
        law_base64_roundtrip(rest);
        lemma_b64_group_roundtrip(data[0], data[1], data[2], 3);
        let g = b64_group(data[0] as int, data[1] as int, data[2] as int, 3);
        let e = base64_encoding(data);
        assert(e == g + base64_encoding(rest));
        assert(e.len() >= 4);
        assert(e.subrange(4, e.len() as int) =~= base64_encoding(rest));
        assert(e[0] == g[0] && e[1] == g[1] && e[2] == g[2] && e[3] == g[3]);
        assert(base64_decoding(e) == b64_decode_group(e[0], e[1], e[2], e[3]) + base64_decoding(
            e.subrange(4, e.len() as int),
        ));
        assert(seq![data[0], data[1], data[2]].take(3) + rest =~= data);
    }
}

/// The 64 characters of the standard base64 alphabet.
pub open spec fn is_b64_alphabet(c: char) -> bool {
    ('A' <= c && c <= 'Z') || ('a' <= c && c <= 'z') || ('0' <= c && c <= '9') || c == '+' || c
        == '/'
}

/// Whether every character is from the alphabet, except `=` padding in the
/// last one or two places (two only together).
pub open spec fn b64_well_formed(e: Seq<char>) -> bool {
    forall|i: int|
        0 <= i < e.len() ==> is_b64_alphabet(#[trigger] e[i]) || (e[i] == '=' && i >= e.len() - 2
            && (i == e.len() - 2 ==> e[e.len() - 1] == '='))
}

proof fn lemma_b64_char_alphabet(v: int)
    requires
        0 <= v < 64,
    ensures
        is_b64_alphabet(b64_char(v)),
{
}

/// Law: the encoding uses only the standard alphabet, with `=` only as
/// padding at the very end.
pub proof fn law_base64_alphabet(data: Seq<u8>)
    ensures
        b64_well_formed(base64_encoding(data)),
    decreases data.len(),
{
    let e = base64_encoding(data);
    if data.len() == 0 {
    } else if data.len() <= 2 {
        let b1: int = if data.len() == 2 {
            data[1] as int
        } else {
            0
        };
        let n = data[0] as int * 65536 + b1 * 256;
        lemma_b64_char_alphabet(n / 262144 % 64);
        lemma_b64_char_alphabet(n / 4096 % 64);
        lemma_b64_char_alphabet(n / 64 % 64);
        assert(e == b64_group(data[0] as int, b1, 0, data.len() as int));
    } else {
        let rest = data.subrange(3, data.len() as int);
        law_base64_alphabet(rest);
        let n = data[0] as int * 65536 + data[1] as int * 256 + data[2] as int;
        lemma_b64_char_alphabet(n / 262144 % 64);
        lemma_b64_char_alphabet(n / 4096 % 64);
        lemma_b64_char_alphabet(n / 64 % 64);
        lemma_b64_char_alphabet(n % 64);
        let g = b64_group(data[0] as int, data[1] as int, data[2] as int, 3);
        let r = base64_encoding(rest);
        assert(e == g + r);
        assert forall|i: int| 0 <= i < e.len() implies is_b64_alphabet(#[trigger] e[i]) || (e[i]
            == '=' && i >= e.len() - 2 && (i == e.len() - 2 ==> e[e.len() - 1] == '=')) by {
            if i >= 4 {
                assert(e[i] == r[i - 4]);
                assert(is_b64_alphabet(r[i - 4]) || (r[i - 4] == '=' && i - 4 >= r.len() - 2 && (i
                    - 4 == r.len() - 2 ==> r[r.len() - 1] == '=')));
                assert(e[e.len() - 1] == r[r.len() - 1]);
            } else {
                assert(e[i] == g[i]);
            }
        }
    }
}

/// Law: the encoding takes four characters for every started group of three bytes.
pub proof fn law_base64_length(data: Seq<u8>)
    ensures
        base64_encoding(data).len() == 4 * ((data.len() + 2) / 3),
    decreases data.len(),
{
    if data.len() >= 3 {
        law_base64_length(data.subrange(3, data.len() as int));
    }
}

// ---------------------------------------------------------------------------
// Markdown
// ---------------------------------------------------------------------------

/// The description of a step in a string table.
pub open spec fn describe_spec(t: Strings, s: Step) -> Seq<char> {
    step_description(t, s.button, s.element.deep_view(), s.window_title.deep_view())
}

/// A step's label in a string table: `report_step` with the index filled in.
pub open spec fn step_label(t: Strings, index: nat) -> Seq<char> {
    replace(t.report_step@, "{n}"@, decimal(index))
}

/// The Markdown section of one step.
pub open spec fn markdown_step(t: Strings, s: Step) -> Seq<char> {
    "## "@ + step_label(t, s.index as nat) + " — "@ + s.time@ + "\n\n*"@ + describe_spec(t, s)
        + "*\n\n!["@ + step_label(t, s.index as nat) + "]("@ + s.image_file@ + ")\n\n"@
}

/// The Markdown sections of the steps, in order.
pub open spec fn markdown_steps(t: Strings, steps: Seq<Step>) -> Seq<char>
    decreases steps.len(),
{
    if steps.len() == 0 {
        Seq::empty()
    } else {
        markdown_steps(t, steps.drop_last()) + markdown_step(t, steps.last())
    }
}

/// The Markdown report: heading, start time, step count, then every step.
pub open spec fn markdown_report(t: Strings, steps: Seq<Step>, started: Seq<char>) -> Seq<char> {
    "# "@ + t.report_heading@ + "\n\n"@ + replace(t.report_started@, "{x}"@, started) + "\n\n"@
        + replace(t.report_total@, "{n}"@, decimal(steps.len())) + "\n\n"@ + markdown_steps(t, steps)
}

/// Renders the Markdown report.
pub fn render_markdown(steps: &[Step], started: &str, t: &Strings) -> (res: String)
    ensures
        res@ == markdown_report(*t, steps@, started@),
{
    let mut out = String::from_str("# ");
    out.append(t.report_heading);
    out.append("\n\n");
    let st = replace_str(t.report_started, "{x}", started);
    out.append(st.as_str());
    out.append("\n\n");
    let count = usize_to_string(steps.len());
    let total = replace_str(t.report_total, "{n}", count.as_str());
    out.append(total.as_str());
    out.append("\n\n");
    let ghost head = out@;
    let n: usize = steps.len();
    for i in 0..n
        invariant
            n == steps@.len(),
            out@ == head + markdown_steps(*t, steps@.take(i as int)),
    {
        let s = &steps[i];
        let idx = usize_to_string(s.index);
        let label = replace_str(t.report_step, "{n}", idx.as_str());
        let ghost before = out@;
        out.append("## ");
        out.append(label.as_str());
        out.append(" — ");
        out.append(s.time.as_str());
        out.append("\n\n*");
        let d = s.describe(t);
        out.append(d.as_str());
        out.append("*\n\n![");
        out.append(label.as_str());
        out.append("](");
        out.append(s.image_file.as_str());
        out.append(")\n\n");
        proof {
            assert(steps@.take(i + 1).drop_last() =~= steps@.take(i as int));
            assert(steps@.take(i + 1).last() == steps@[i as int]);
            assert(out@ =~= before + markdown_step(*t, steps@[i as int]));
        }
    }
    proof {
        assert(steps@.take(n as int) =~= steps@);
        assert(out@ =~= markdown_report(*t, steps@, started@));
    }
    out
}

// ---------------------------------------------------------------------------
// HTML
// ---------------------------------------------------------------------------

/// The start of the document, up to the value of its `lang` attribute.
pub const HTML_DOCTYPE: &'static str = r#"<!DOCTYPE html>
<html lang=""#;

/// From the end of the `lang` attribute to the report heading: document
/// head, style sheet and title.
pub const HTML_STYLE: &'static str = r#"">
<head>
<meta charset="utf-8">
<meta name="viewport" content="width=device-width, initial-scale=1">
<title>stepshot — recording</title>
<style>
  :root { color-scheme: light dark; }
  body { font-family: system-ui, sans-serif; max-width: 980px; margin: 2rem auto; padding: 0 1rem; line-height: 1.5; }
  header { border-bottom: 2px solid #8884; padding-bottom: .75rem; margin-bottom: 1.5rem; }
  h1 { margin: 0; font-size: 1.6rem; }
  .meta { color: #8888; font-size: .9rem; }
  .step { margin: 0 0 2.5rem; }
  .head { display: flex; align-items: center; gap: .9rem; margin-bottom: .6rem; }
  .num { flex: 0 0 auto; width: 2rem; height: 2rem; border-radius: 50%; background: #3b82f6;
          color: #fff; display: grid; place-items: center; font-weight: 700; }
  .desc { margin: 0; font-weight: 600; }
  .time { margin: 0; color: #8888; font-size: .85rem; }
  img { max-width: 100%; height: auto; border: 1px solid #8884; border-radius: 8px;
         box-shadow: 0 2px 12px #0003; }
</style>
</head>
<body>
<header>
  <h1>"#;

/// The image source of a step: a base64 data URI of its screenshot in the
/// embedding variant when the screenshot bytes are available, otherwise the
/// escaped file name.
pub open spec fn image_source(s: Step, embed: bool, image: Option<Seq<u8>>) -> Seq<char> {
    if embed && image is Some {
        "data:image/png;base64,"@ + base64_encoding(image->0)
    } else {
        html_escaped(s.image_file@)
    }
}

/// The screenshot bytes handed in for step `i`, if any.
pub open spec fn image_at(images: Seq<Option<Seq<u8>>>, i: int) -> Option<Seq<u8>> {
    if 0 <= i < images.len() {
        images[i]
    } else {
        None
    }
}

/// The HTML card of one step.
pub open spec fn html_card(t: Strings, s: Step, src: Seq<char>) -> Seq<char> {
    "  <section class=\"step\">\n    <div class=\"head\"><span class=\"num\">"@ + decimal(
        s.index as nat,
    ) + "</span>\n      <div><p class=\"desc\">"@ + html_escaped(describe_spec(t, s))
        + "</p><p class=\"time\">"@ + html_escaped(s.time@) + "</p></div>\n    </div>\n    <img src=\""@
        + src + "\" alt=\""@ + step_label(t, s.index as nat)
        + "\" loading=\"lazy\">\n  </section>\n"@
}

/// The cards of the first `k` steps, in order.
pub open spec fn html_cards(
    t: Strings,
    steps: Seq<Step>,
    embed: bool,
    images: Seq<Option<Seq<u8>>>,
    k: int,
) -> Seq<char>
    decreases k,
{
    if k <= 0 {
        Seq::empty()
    } else {
        html_cards(t, steps, embed, images, k - 1) + html_card(
            t,
            steps[k - 1],
            image_source(steps[k - 1], embed, image_at(images, k - 1)),
        )
    }
}

/// The HTML report: head, start time, step count (with a note in the
/// embedding variant), then one card per step.
pub open spec fn html_report(
    t: Strings,
    steps: Seq<Step>,
    started: Seq<char>,
    embed: bool,
    images: Seq<Option<Seq<u8>>>,
) -> Seq<char> {
    HTML_DOCTYPE@ + t.html_lang@ + HTML_STYLE@ + t.report_heading@ + "</h1>\n  <p class=\"meta\">"@
        + replace(t.report_started@, "{x}"@, html_escaped(started)) + " · "@ + decimal(steps.len())
        + " "@ + t.report_steps_word@ + (if embed {
        " · "@ + t.report_self_contained@
    } else {
        Seq::empty()
    }) + "</p>\n</header>\n"@ + html_cards(t, steps, embed, images, steps.len() as int)
        + "</body>\n</html>\n"@
}

/// The cards of the first `k` steps depend on those steps alone.
proof fn lemma_cards_prefix(
    t: Strings,
    steps: Seq<Step>,
    step: Step,
    embed: bool,
    images: Seq<Option<Seq<u8>>>,
    k: int,
)
    requires
        0 <= k <= steps.len(),
    ensures
        html_cards(t, steps.push(step), embed, images, k) == html_cards(t, steps, embed, images, k),
    decreases k,
{
    if k > 0 {
        lemma_cards_prefix(t, steps, step, embed, images, k - 1);
        assert(steps.push(step)[k - 1] == steps[k - 1]);
    }
}

/// Law: the reports rewritten after a step is recorded hold every earlier
/// step's section unchanged, followed by the new step's, so a report on disk
/// always lists every step recorded so far.
pub proof fn law_reports_keep_earlier_steps(
    t: Strings,
    steps: Seq<Step>,
    step: Step,
    embed: bool,
    images: Seq<Option<Seq<u8>>>,
)
    ensures
        markdown_steps(t, steps.push(step)) == markdown_steps(t, steps) + markdown_step(t, step),
        html_cards(t, steps.push(step), embed, images, steps.len() + 1 as int) == html_cards(
            t,
            steps,
            embed,
            images,
            steps.len() as int,
        ) + html_card(t, step, image_source(step, embed, image_at(images, steps.len() as int))),
{
    assert(steps.push(step).drop_last() =~= steps);
    lemma_cards_prefix(t, steps, step, embed, images, steps.len() as int);
    assert(steps.push(step)[steps.len() as int] == step);
}

/// Law: in the final report the image of a step whose screenshot was read is
/// a PNG data URI whose payload decodes to exactly the screenshot's bytes, so
/// the file needs nothing beside it; in the live report, and where the
/// screenshot could not be read, it is the escaped file name.
pub proof fn law_embedded_images(s: Step, bytes: Seq<u8>)
    ensures
        image_source(s, true, Some(bytes)) == "data:image/png;base64,"@ + base64_encoding(bytes),
        base64_decoding(base64_encoding(bytes)) == bytes,
        image_source(s, true, None) == html_escaped(s.image_file@),
        image_source(s, false, Some(bytes)) == html_escaped(s.image_file@),
{
    law_base64_roundtrip(bytes);
}

/// The image source of a step, from the bytes handed in for it.
fn image_src(s: &Step, embed: bool, image: Option<&Vec<u8>>) -> (res: String)
    ensures
        res@ == image_source(*s, embed, image.deep_view()),
{
    if embed {
        match image {
            Some(bytes) => {
                assert(bytes.deep_view() =~= bytes@);
                let mut u = String::from_str("data:image/png;base64,");
                let b = base64(bytes.as_slice());
                u.append(b.as_str());
                return u;
            },
            None => {},
        }
    }
    html_escape(s.image_file.as_str())
}

/// The HTML card of one step.
fn step_card(s: &Step, t: &Strings, src: &String) -> (res: String)
    ensures
        res@ == html_card(*t, *s, src@),
{
    let idx = usize_to_decimal(s.index);
    let mut card = String::new();
    card.append("  <section class=\"step\">\n    <div class=\"head\"><span class=\"num\">");
    push_chars(&mut card, &idx);
    card.append("</span>\n      <div><p class=\"desc\">");
    let d = s.describe(t);
    let de = html_escape(d.as_str());
    card.append(de.as_str());
    card.append("</p><p class=\"time\">");
    let te = html_escape(s.time.as_str());
    card.append(te.as_str());
    card.append("</p></div>\n    </div>\n    <img src=\"");
    card.append(src.as_str());
    card.append("\" alt=\"");
    let n = usize_to_string(s.index);
    let label = replace_str(t.report_step, "{n}", n.as_str());
    card.append(label.as_str());
    card.append("\" loading=\"lazy\">\n  </section>\n");
    assert(card@ =~= html_card(*t, *s, src@));
    card
}

/// Renders the HTML report. With `embed`, `images[i]` holds the bytes of
/// step `i`'s screenshot (or `None` where it could not be read); without
/// `embed` the images are referenced by file name.
pub fn render_html(
    steps: &[Step],
    started: &str,
    t: &Strings,
    embed: bool,
    images: &Vec<Option<Vec<u8>>>,
) -> (res: String)
    ensures
        res@ == html_report(*t, steps@, started@, embed, images.deep_view()),
{
    let n: usize = steps.len();
    let mut cards = String::new();
    for i in 0..n
        invariant
            n == steps@.len(),
            cards@ == html_cards(*t, steps@, embed, images.deep_view(), i as int),
    {
        let s = &steps[i];
        let image: Option<&Vec<u8>> = if i < images.len() {
            images[i].as_ref()
        } else {
            None
        };
        proof {
            if i < images@.len() {
                assert(images.deep_view()[i as int] == images@[i as int].deep_view());
            }
            assert(image.deep_view() == image_at(images.deep_view(), i as int));
        }
        let src = image_src(s, embed, image);
        let card = step_card(s, t, &src);
        let ghost before = cards@;
        cards.append(card.as_str());
        assert(cards@ =~= before + card@);
    }
    let mut out = String::from_str(HTML_DOCTYPE);
    out.append(t.html_lang);
    out.append(HTML_STYLE);
    out.append(t.report_heading);
    out.append("</h1>\n  <p class=\"meta\">");
    let se = html_escape(started);
    let meta = replace_str(t.report_started, "{x}", se.as_str());
    out.append(meta.as_str());
    out.append(" · ");
    push_chars(&mut out, &usize_to_decimal(n));
    out.append(" ");
    out.append(t.report_steps_word);
    if embed {
        out.append(" · ");
        out.append(t.report_self_contained);
    }
    out.append("</p>\n</header>\n");
    out.append(cards.as_str());
    out.append("</body>\n</html>\n");
    assert(out@ =~= html_report(*t, steps@, started@, embed, images.deep_view()));
    out
}

/// Law: the final report embeds every screenshot that was handed in: the
/// bytes for step `i` are `images[i]` (none past the end of `images`); the
/// card of a step with bytes shows the PNG data URI of exactly those bytes,
/// and the card of a step without them its escaped file name.
pub proof fn law_final_report_embeds_read_images(
    t: Strings,
    steps: Seq<Step>,
    images: Seq<Option<Seq<u8>>>,
    i: int,
)
    requires
        0 <= i < steps.len(),
    ensures
        image_at(images, i) == (if i < images.len() {
            images[i]
        } else {
            None::<Seq<u8>>
        }),
        i < images.len() && images[i] is Some ==> html_cards(t, steps, true, images, i + 1)
            == html_cards(t, steps, true, images, i) + html_card(
            t,
            steps[i],
            "data:image/png;base64,"@ + base64_encoding(images[i]->0),
        ),
        (i >= images.len() || images[i] is None) ==> html_cards(t, steps, true, images, i + 1)
            == html_cards(t, steps, true, images, i) + html_card(
            t,
            steps[i],
            html_escaped(steps[i].image_file@),
        ),
{
}

} // verus!
