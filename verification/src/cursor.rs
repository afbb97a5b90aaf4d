//! Cursor position reports from the compositor.
//!
//! A small compositor script reports the global cursor position and the
//! frame of the active window as one line of comma-separated integers,
//! `x,y,fx,fy,fw,fh`. This module turns such a line into a [`CursorInfo`].

use vstd::prelude::*;
use crate::platform::CursorInfo;
use vstd::string::StringExecFns;
use crate::text::{
    i32_to_string,
    all_digits, char_to_digit, chars_of, decimal, decimal_signed, digits_value, is_digit, is_space,
    lemma_decimal_digits, lemma_digits_value_append, pow10, trim, trim_chars, trim_end, trim_start,
};

verus! {

/// `str::split(',')`: the pieces between commas, empty ones included.
pub open spec fn split_commas(s: Seq<char>) -> Seq<Seq<char>>
    decreases s.len(),
{
    if s.len() == 0 {
        seq![Seq::empty()]
    } else {
        let p = split_commas(s.drop_last());
        if s.last() == ',' {
            p.push(Seq::empty())
        } else {
            p.update(p.len() - 1, p.last().push(s.last()))
        }
    }
}

/// `i32::from_str`: an optional `+` or `-`, then one or more decimal
/// digits, and a value in the range of `i32`.
pub open spec fn parse_i32(s: Seq<char>) -> Option<i32> {
    let neg = s.len() > 0 && s[0] == '-';
    let body = if s.len() > 0 && (s[0] == '-' || s[0] == '+') {
        s.drop_first()
    } else {
        s
    };
    if body.len() == 0 || !all_digits(body) {
        None
    } else {
        let v: int = if neg {
            -(digits_value(body) as int)
        } else {
            digits_value(body) as int
        };
        if i32::MIN <= v <= i32::MAX {
            Some(v as i32)
        } else {
            None
        }
    }
}

/// The numbers of the pieces that parse (after trimming), in order; pieces
/// that do not parse are skipped.
pub open spec fn parsed_values(pieces: Seq<Seq<char>>) -> Seq<i32>
    decreases pieces.len(),
{
    if pieces.len() == 0 {
        Seq::empty()
    } else {
        let prev = parsed_values(pieces.drop_last());
        match parse_i32(trim(pieces.last())) {
            Some(v) => prev.push(v),
            None => prev,
        }
    }
}

/// The cursor information of a report line: exactly six numbers parse, in
/// the order x, y, frame x, frame y, frame width, frame height.
pub open spec fn report_info(s: Seq<char>) -> Option<CursorInfo> {
    let v = parsed_values(split_commas(s));
    if v.len() == 6 {
        Some(
            CursorInfo {
                x: v[0],
                y: v[1],
                frame_x: v[2],
                frame_y: v[3],
                frame_w: v[4],
                frame_h: v[5],
            },
        )
    } else {
        None
    }
}

/// Appending more digits never makes the value smaller.
proof fn lemma_digits_value_prefix(s: Seq<char>, k: int)
    requires
        0 <= k <= s.len(),
        all_digits(s),
    ensures
        digits_value(s) >= digits_value(s.take(k)),
{
    let a = s.take(k);
    let b = s.subrange(k, s.len() as int);
    assert(a + b =~= s);
    assert(all_digits(b)) by {
        assert forall|i: int| 0 <= i < b.len() implies is_digit(#[trigger] b[i]) by {
            assert(b[i] == s[k + i]);
        }
    }
    lemma_digits_value_append(a, b);
    lemma_pow10_positive(b.len());
    assert(digits_value(a) * pow10(b.len()) >= digits_value(a)) by (nonlinear_arith)
        requires
            pow10(b.len()) >= 1,
    ;
}

proof fn lemma_pow10_positive(k: nat)
    ensures
        pow10(k) >= 1,
    decreases k,
{
    if k > 0 {
        lemma_pow10_positive((k - 1) as nat);
    }
}

/// `i32::from_str` on characters.
pub fn parse_i32_chars(s: &Vec<char>) -> (res: Option<i32>)
    ensures
        res == parse_i32(s@),
{
    let n: usize = s.len();
    let neg: bool = n > 0 && s[0] == '-';
    let start: usize = if n > 0 && (s[0] == '-' || s[0] == '+') {
        1
    } else {
        0
    };
    let ghost body = if s@.len() > 0 && (s@[0] == '-' || s@[0] == '+') {
        s@.drop_first()
    } else {
        s@
    };
    assert(body =~= s@.subrange(start as int, n as int));
    if start >= n {
        return None;
    }
    let mut acc: i64 = 0;
    let mut i: usize = start;
    while i < n
        invariant
            n == s@.len(),
            start <= i <= n,
            body == s@.subrange(start as int, n as int),
            body == (if s@.len() > 0 && (s@[0] == '-' || s@[0] == '+') {
                s@.drop_first()
            } else {
                s@
            }),
            body.len() > 0,
            neg == (s@.len() > 0 && s@[0] == '-'),
            all_digits(body.take(i - start)),
            acc == digits_value(body.take(i - start)),
            acc <= 2147483648,
        decreases n - i,
    {
        let c = s[i];
        if !('0' <= c && c <= '9') {
            assert(body[i - start] == c);
            assert(!is_digit(body[i - start]));
            assert(!all_digits(body));
            return None;
        }
        let d = char_to_digit(c);
        let ghost pre = body.take(i - start);
        let ghost next = body.take(i + 1 - start);
        assert(next.drop_last() =~= pre);
        assert(next.last() == c);
        assert(all_digits(next)) by {
            assert forall|k: int| 0 <= k < next.len() implies is_digit(#[trigger] next[k]) by {
                if k < pre.len() {
                    assert(next[k] == pre[k]);
                }
            }
        }
        assert(digits_value(next) == digits_value(pre) * 10 + crate::text::digit_value(c));
        acc = acc * 10 + d as i64;
        assert(acc == digits_value(next));
        if acc > 2147483648 {
            proof {
                if all_digits(body) {
                    lemma_digits_value_prefix(body, i + 1 - start);
                    assert(digits_value(body) > 2147483648);
                    assert(body.len() > 0);
                }
            }
            return None;
        }
        i = i + 1;
    }
    assert(body.take(n - start) =~= body);
    if neg {
        Some((-acc) as i32)
    } else if acc > 2147483647 {
        None
    } else {
        Some(acc as i32)
    }
}

/// Parses a report line `x,y,fx,fy,fw,fh` (all integers, commas between,
/// blanks around the numbers allowed). Pieces that are not integers are
/// skipped; the line yields cursor information only when exactly six
/// numbers remain.
pub fn report(nums: &str) -> (res: Option<CursorInfo>)
    ensures
        res == report_info(nums@),
{
    let s = chars_of(nums);
    let n: usize = s.len();
    let mut values: Vec<i32> = Vec::new();
    let mut cur: Vec<char> = Vec::new();
    let ghost mut done: Seq<Seq<char>> = Seq::empty();
    assert(s@.take(0) =~= Seq::<char>::empty());
    for i in 0..n
        invariant
            n == s@.len(),
            split_commas(s@.take(i as int)) == done.push(cur@),
            values@ == parsed_values(done),
    {
        let c = s[i];
        assert(s@.take(i + 1).drop_last() =~= s@.take(i as int));
        assert(s@.take(i + 1).last() == c);
        if c == ',' {
            let piece = trim_chars(&cur);
            let parsed = parse_i32_chars(&piece);
            match parsed {
                Some(v) => values.push(v),
                None => {},
            }
            proof {
                let nd = done.push(cur@);
                assert(nd.drop_last() =~= done);
                assert(nd.last() == cur@);
                done = nd;
            }
            cur = Vec::new();
            assert(split_commas(s@.take(i + 1)) =~= done.push(cur@));
        } else {
            let ghost old_cur = cur@;
            cur.push(c);
            assert(split_commas(s@.take(i + 1)) =~= done.push(cur@)) by {
                let p = done.push(old_cur);
                assert(p.update(p.len() - 1, p.last().push(c)) =~= done.push(cur@));
            }
        }
    }
    let piece = trim_chars(&cur);
    let parsed = parse_i32_chars(&piece);
    match parsed {
        Some(v) => values.push(v),
        None => {},
    }
    let ghost pieces = done.push(cur@);
    assert(pieces.drop_last() =~= done);
    assert(s@.take(n as int) =~= s@);
    assert(values@ == parsed_values(pieces));
    if values.len() == 6 {
        Some(
            CursorInfo {
                x: values[0],
                y: values[1],
                frame_x: values[2],
                frame_y: values[3],
                frame_w: values[4],
                frame_h: values[5],
            },
        )
    } else {
        None
    }
}

// ---------------------------------------------------------------------------
// Running the compositor script
// ---------------------------------------------------------------------------

/// The plugin name under which the script is loaded for the `n`-th query.
pub fn script_plugin_name(n: i32) -> (res: String)
    ensures
        res@ == "stepshot"@ + decimal_signed(n as int),
{
    let mut s = String::from_str("stepshot");
    let d = i32_to_string(n);
    s.append(d.as_str());
    s
}

/// The object path of the loaded script with this id.
pub fn script_object_path(id: i32) -> (res: String)
    ensures
        res@ == "/Scripting/Script"@ + decimal_signed(id as int),
{
    let mut s = String::from_str("/Scripting/Script");
    let d = i32_to_string(id);
    s.append(d.as_str());
    s
}

// ---------------------------------------------------------------------------
// The line format and its round trip
// ---------------------------------------------------------------------------

/// Pieces joined with commas in between.
pub open spec fn join_commas(pieces: Seq<Seq<char>>) -> Seq<char>
    decreases pieces.len(),
{
    if pieces.len() == 0 {
        Seq::empty()
    } else if pieces.len() == 1 {
        pieces[0]
    } else {
        join_commas(pieces.drop_last()) + seq![','] + pieces.last()
    }
}

/// The line that the compositor script sends for a cursor position: the six
/// numbers in decimal, joined with commas.
pub open spec fn report_line(c: CursorInfo) -> Seq<char> {
    join_commas(
        seq![
            decimal_signed(c.x as int),
            decimal_signed(c.y as int),
            decimal_signed(c.frame_x as int),
            decimal_signed(c.frame_y as int),
            decimal_signed(c.frame_w as int),
            decimal_signed(c.frame_h as int),
        ],
    )
}

/// Whether a text holds no comma.
pub open spec fn comma_free(s: Seq<char>) -> bool {
    forall|i: int| 0 <= i < s.len() ==> s[i] != ','
}

/// Appending comma-free text extends the last piece.
proof fn lemma_split_extend(x: Seq<char>, b: Seq<char>)
    requires
        comma_free(b),
    ensures
        split_commas(x + b) == split_commas(x).update(
            split_commas(x).len() - 1,
            split_commas(x).last() + b,
        ),
        split_commas(x).len() >= 1,
    decreases b.len(),
{
    lemma_split_nonempty(x);
    if b.len() == 0 {
        assert(x + b =~= x);
        assert(split_commas(x).last() + b =~= split_commas(x).last());
        assert(split_commas(x).update(split_commas(x).len() - 1, split_commas(x).last())
            =~= split_commas(x));
    } else {
        let b0 = b.drop_last();
        assert(comma_free(b0)) by {
            assert forall|i: int| 0 <= i < b0.len() implies b0[i] != ',' by {
                assert(b0[i] == b[i]);
            }
        }
        lemma_split_extend(x, b0);
        assert((x + b).drop_last() =~= x + b0);
        assert((x + b).last() == b.last());
        assert(b[b.len() - 1] != ',');
        let p = split_commas(x);
        let q = p.update(p.len() - 1, p.last() + b0);
        assert(q.last() == p.last() + b0);
        assert(split_commas(x + b) == q.update(q.len() - 1, q.last().push(b.last())));
        assert((p.last() + b0).push(b.last()) =~= p.last() + b);
        assert(q.update(q.len() - 1, q.last().push(b.last())) =~= p.update(
            p.len() - 1,
            p.last() + b,
        ));
    }
}

proof fn lemma_split_nonempty(x: Seq<char>)
    ensures
        split_commas(x).len() >= 1,
    decreases x.len(),
{
    if x.len() > 0 {
        lemma_split_nonempty(x.drop_last());
    }
}

/// Splitting comma-joined comma-free pieces gives the pieces back.
proof fn lemma_split_join(pieces: Seq<Seq<char>>)
    requires
        pieces.len() >= 1,
        forall|i: int| 0 <= i < pieces.len() ==> comma_free(#[trigger] pieces[i]),
    ensures
        split_commas(join_commas(pieces)) == pieces,
    decreases pieces.len(),
{
    if pieces.len() == 1 {
        lemma_split_extend(Seq::empty(), pieces[0]);
        assert(Seq::<char>::empty() + pieces[0] =~= pieces[0]);
        assert(seq![Seq::<char>::empty()].update(0, Seq::<char>::empty() + pieces[0]) =~= pieces);
    } else {
        let init = pieces.drop_last();
        assert forall|i: int| 0 <= i < init.len() implies comma_free(#[trigger] init[i]) by {
            assert(init[i] == pieces[i]);
        }
        lemma_split_join(init);
        let x = join_commas(init) + seq![','];
        assert(x.drop_last() =~= join_commas(init));
        assert(split_commas(x) == init.push(Seq::empty()));
        assert(comma_free(pieces.last()));
        lemma_split_extend(x, pieces.last());
        assert(Seq::<char>::empty() + pieces.last() =~= pieces.last());
        assert(init.push(Seq::empty()).update(init.len() as int, Seq::<char>::empty() + pieces.last())
            =~= pieces);
    }
}

/// A decimal number holds no whitespace and no comma.
proof fn lemma_decimal_signed_plain(v: int)
    ensures
        comma_free(decimal_signed(v)),
        trim(decimal_signed(v)) == decimal_signed(v),
        decimal_signed(v).len() >= 1,
{
    let n: nat = if v < 0 {
        (-v) as nat
    } else {
        v as nat
    };
    lemma_decimal_digits(n);
    let s = decimal_signed(v);
    assert forall|i: int| 0 <= i < s.len() implies s[i] != ',' && !is_space(s[i]) by {
        if v < 0 {
            if i > 0 {
                assert(s[i] == decimal(n)[i - 1]);
                assert(is_digit(decimal(n)[i - 1]));
            }
        } else {
            assert(is_digit(decimal(n)[i]));
        }
    }
    assert(!is_space(s[0]));
    assert(trim_start(s) == s);
    assert(!is_space(s.last())) by {
        assert(s.last() == s[s.len() - 1]);
    }
    assert(trim_end(s) == s);
}

/// A number in decimal parses back to itself.
proof fn lemma_parse_decimal(v: i32)
    ensures
        parse_i32(decimal_signed(v as int)) == Some(v),
{
    let s = decimal_signed(v as int);
    if v < 0 {
        let n: nat = (-(v as int)) as nat;
        lemma_decimal_digits(n);
        assert(s.drop_first() =~= decimal(n));
        assert(s[0] == '-');
    } else {
        let n: nat = v as nat;
        lemma_decimal_digits(n);
        assert(s[0] != '-' && s[0] != '+');
    }
}

/// Law: a line in the format that the compositor script writes parses back
/// to exactly the cursor information it was written from.
pub proof fn law_report_roundtrip(c: CursorInfo)
    ensures
        report_info(report_line(c)) == Some(c),
{
    let pieces = seq![
        decimal_signed(c.x as int),
        decimal_signed(c.y as int),
        decimal_signed(c.frame_x as int),
        decimal_signed(c.frame_y as int),
        decimal_signed(c.frame_w as int),
        decimal_signed(c.frame_h as int),
    ];
    lemma_decimal_signed_plain(c.x as int);
    lemma_decimal_signed_plain(c.y as int);
    lemma_decimal_signed_plain(c.frame_x as int);
    lemma_decimal_signed_plain(c.frame_y as int);
    lemma_decimal_signed_plain(c.frame_w as int);
    lemma_decimal_signed_plain(c.frame_h as int);
    lemma_parse_decimal(c.x);
    lemma_parse_decimal(c.y);
    lemma_parse_decimal(c.frame_x);
    lemma_parse_decimal(c.frame_y);
    lemma_parse_decimal(c.frame_w);
    lemma_parse_decimal(c.frame_h);
    assert forall|i: int| 0 <= i < pieces.len() implies comma_free(#[trigger] pieces[i]) by {}
    lemma_split_join(pieces);
    assert(pieces.take(1).drop_last() =~= pieces.take(0));
    assert(pieces.take(2).drop_last() =~= pieces.take(1));
    assert(pieces.take(3).drop_last() =~= pieces.take(2));
    assert(pieces.take(4).drop_last() =~= pieces.take(3));
    assert(pieces.take(5).drop_last() =~= pieces.take(4));
    assert(pieces.drop_last() =~= pieces.take(5));
    assert(pieces.take(0).len() == 0);
    let v = parsed_values(pieces);
    assert(pieces.take(1).last() == pieces[0]);
    assert(pieces.take(2).last() == pieces[1]);
    assert(pieces.take(3).last() == pieces[2]);
    assert(pieces.take(4).last() == pieces[3]);
    assert(pieces.take(5).last() == pieces[4]);
    assert(pieces.last() == pieces[5]);
    assert(parsed_values(pieces.take(0)) =~= Seq::<i32>::empty());
    assert(parsed_values(pieces.take(1)) =~= seq![c.x]);
    assert(parsed_values(pieces.take(2)) =~= seq![c.x, c.y]);
    assert(parsed_values(pieces.take(3)) =~= seq![c.x, c.y, c.frame_x]);
    assert(parsed_values(pieces.take(4)) =~= seq![c.x, c.y, c.frame_x, c.frame_y]);
    assert(parsed_values(pieces.take(5)) =~= seq![c.x, c.y, c.frame_x, c.frame_y, c.frame_w]);
    assert(v =~= seq![c.x, c.y, c.frame_x, c.frame_y, c.frame_w, c.frame_h]);
}

} // verus!
