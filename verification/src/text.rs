//! Character-level text operations shared by the descriptions, reports and
//! exports: substring replacement, whitespace trimming and decimal numbers.
//!
//! Every operation is specified over `Seq<char>` (the view of `str` and
//! `String`) and follows the behaviour of the corresponding `str` method.

use vstd::prelude::*;

verus! {

/// std's `String::push`, for which vstd has no specification: it appends
/// `ch` to the end of the string (std: "Appends the given char to the end
/// of this String"); the characters before stay as they were.
pub assume_specification[ String::push ](s: &mut String, ch: char)
    ensures
        final(s)@ == old(s)@.push(ch),
;

// ---------------------------------------------------------------------------
// Whitespace and trimming
// ---------------------------------------------------------------------------

/// The Unicode `White_Space` property, as tested by `char::is_whitespace`.
pub open spec fn is_space(c: char) -> bool {
    ||| ('\u{9}' <= c && c <= '\u{d}')
    ||| c == ' '
    ||| c == '\u{85}'
    ||| c == '\u{a0}'
    ||| c == '\u{1680}'
    ||| ('\u{2000}' <= c && c <= '\u{200a}')
    ||| c == '\u{2028}'
    ||| c == '\u{2029}'
    ||| c == '\u{202f}'
    ||| c == '\u{205f}'
    ||| c == '\u{3000}'
}

/// Executable `char::is_whitespace`.
pub fn char_is_space(c: char) -> (res: bool)
    ensures
        res == is_space(c),
{
    ('\u{9}' <= c && c <= '\u{d}') || c == ' ' || c == '\u{85}' || c == '\u{a0}' || c
        == '\u{1680}' || ('\u{2000}' <= c && c <= '\u{200a}') || c == '\u{2028}' || c
        == '\u{2029}' || c == '\u{202f}' || c == '\u{205f}' || c == '\u{3000}'
}

/// Drops leading whitespace.
pub open spec fn trim_start(s: Seq<char>) -> Seq<char>
    decreases s.len(),
{
    if s.len() > 0 && is_space(s[0]) {
        trim_start(s.drop_first())
    } else {
        s
    }
}

/// Drops trailing whitespace.
pub open spec fn trim_end(s: Seq<char>) -> Seq<char>
    decreases s.len(),
{
    if s.len() > 0 && is_space(s.last()) {
        trim_end(s.drop_last())
    } else {
        s
    }
}

/// `str::trim`: leading and trailing whitespace removed.
pub open spec fn trim(s: Seq<char>) -> Seq<char> {
    trim_end(trim_start(s))
}

/// The characters of a string slice, in order.
pub fn chars_of(s: &str) -> (res: Vec<char>)
    ensures
        res@ == s@,
{
    let mut out: Vec<char> = Vec::new();
    for c in it: s.chars()
        invariant
            out@ == s@.take(it.index() as int),
            it.seq() == s@,
    {
        out.push(c);
    }
    out
}

/// Appends characters to a string.
pub fn push_chars(out: &mut String, cs: &Vec<char>)
    ensures
        final(out)@ == old(out)@ + cs@,
{
    let n: usize = cs.len();
    for i in 0..n
        invariant
            n == cs@.len(),
            out@ == old(out)@ + cs@.take(i as int),
    {
        out.push(cs[i]);
        assert(cs@.take(i + 1) =~= cs@.take(i as int).push(cs@[i as int]));
    }
    assert(cs@.take(n as int) =~= cs@);
}

/// A string holding exactly the given characters.
pub fn string_of(cs: &Vec<char>) -> (res: String)
    ensures
        res@ == cs@,
{
    let mut out = String::new();
    push_chars(&mut out, cs);
    out
}

proof fn lemma_trim_start_skip(s: Seq<char>, i: int)
    requires
        0 <= i < s.len(),
        is_space(s[i]),
    ensures
        trim_start(s.subrange(i, s.len() as int)) == trim_start(s.subrange(i + 1, s.len() as int)),
{
    let sub = s.subrange(i, s.len() as int);
    assert(sub.drop_first() =~= s.subrange(i + 1, s.len() as int));
}

proof fn lemma_trim_end_skip(s: Seq<char>, j: int)
    requires
        0 < j <= s.len(),
        is_space(s[j - 1]),
    ensures
        trim_end(s.subrange(0, j)) == trim_end(s.subrange(0, j - 1)),
{
    let sub = s.subrange(0, j);
    assert(sub.drop_last() =~= s.subrange(0, j - 1));
}

/// The characters of `s` with leading and trailing whitespace removed.
pub fn trim_chars(s: &Vec<char>) -> (res: Vec<char>)
    ensures
        res@ == trim(s@),
{
    let n: usize = s.len();
    let mut i: usize = 0;
    assert(s@.subrange(0, n as int) =~= s@);
    while i < n && char_is_space(s[i])
        invariant
            n == s@.len(),
            i <= n,
            trim_start(s@) == trim_start(s@.subrange(i as int, n as int)),
        decreases n - i,
    {
        proof {
            lemma_trim_start_skip(s@, i as int);
        }
        i = i + 1;
    }
    let ghost rest = s@.subrange(i as int, n as int);
    assert(trim_start(s@) == rest) by {
        if i < n {
            assert(!is_space(rest[0]));
        } else {
            assert(rest.len() == 0);
        }
    }
    let mut j: usize = n;
    assert(rest.subrange(0, (j - i) as int) =~= rest);
    while j > i && char_is_space(s[j - 1])
        invariant
            n == s@.len(),
            i <= j <= n,
            rest == s@.subrange(i as int, n as int),
            trim_end(rest) == trim_end(rest.subrange(0, (j - i) as int)),
        decreases j - i,
    {
        proof {
            lemma_trim_end_skip(rest, (j - i) as int);
            assert(rest.subrange(0, (j - i - 1) as int) =~= rest.subrange(0, (j - 1 - i) as int));
        }
        j = j - 1;
    }
    let ghost kept = rest.subrange(0, (j - i) as int);
    assert(trim_end(rest) == kept) by {
        if j > i {
            assert(kept.last() == s@[j - 1]);
        } else {
            assert(kept.len() == 0);
        }
    }
    let mut out: Vec<char> = Vec::new();
    let mut k: usize = i;
    while k < j
        invariant
            n == s@.len(),
            i <= k <= j <= n,
            out@ =~= s@.subrange(i as int, k as int),
        decreases j - k,
    {
        out.push(s[k]);
        k = k + 1;
    }
    assert(kept =~= s@.subrange(i as int, j as int));
    out
}

// ---------------------------------------------------------------------------
// Substring replacement
// ---------------------------------------------------------------------------

/// `str::replace`: every non-overlapping occurrence of `pat`, found from the
/// left, is replaced by `rep`. An empty pattern matches before every
/// character and at the end.
pub open spec fn replace(s: Seq<char>, pat: Seq<char>, rep: Seq<char>) -> Seq<char>
    decreases s.len(),
{
    if pat.len() == 0 {
        if s.len() == 0 {
            rep
        } else {
            rep + seq![s[0]] + replace(s.drop_first(), pat, rep)
        }
    } else if s.len() < pat.len() {
        s
    } else if s.subrange(0, pat.len() as int) == pat {
        rep + replace(s.subrange(pat.len() as int, s.len() as int), pat, rep)
    } else {
        seq![s[0]] + replace(s.drop_first(), pat, rep)
    }
}

/// Whether `pat` occurs in `s` starting at position `i`.
fn matches_at(s: &Vec<char>, i: usize, pat: &Vec<char>) -> (res: bool)
    requires
        i + pat@.len() <= s@.len(),
    ensures
        res == (s@.subrange(i as int, i + pat@.len()) == pat@),
{
    let p: usize = pat.len();
    let mut k: usize = 0;
    while k < p
        invariant
            p == pat@.len(),
            i + p <= s@.len(),
            s@.len() == s.len(),
            k <= p,
            forall|m: int| 0 <= m < k ==> s@[i + m] == pat@[m],
        decreases p - k,
    {
        if s[i + k] != pat[k] {
            assert(s@.subrange(i as int, i + p)[k as int] != pat@[k as int]);
            return false;
        }
        k = k + 1;
    }
    assert(s@.subrange(i as int, i + p) =~= pat@);
    true
}

/// `str::contains`: whether `pat` occurs somewhere in `s`.
pub open spec fn occurs_in(s: Seq<char>, pat: Seq<char>) -> bool {
    exists|i: int| 0 <= i && i + pat.len() <= s.len() && #[trigger] s.subrange(i, i + pat.len()) == pat
}

/// Whether `pat` occurs in `s`.
pub fn contains_str(s: &str, pat: &str) -> (res: bool)
    ensures
        res == occurs_in(s@, pat@),
{
    let sc = chars_of(s);
    let pc = chars_of(pat);
    let n: usize = sc.len();
    let p: usize = pc.len();
    if p > n {
        return false;
    }
    if p == 0 {
        assert(s@.subrange(0, 0 + pat@.len() as int) =~= pat@);
        return true;
    }
    let mut i: usize = 0;
    while i <= n - p
        invariant
            n == sc@.len(),
            p == pc@.len(),
            0 < p <= n,
            sc@ == s@,
            pc@ == pat@,
            i <= n - p + 1,
            forall|j: int| 0 <= j < i ==> #[trigger] sc@.subrange(j, j + p) != pc@,
        decreases n - p + 1 - i,
    {
        if matches_at(&sc, i, &pc) {
            return true;
        }
        i = i + 1;
    }
    false
}

/// Appends `s[from..to]` to `out`.
fn extend_range(out: &mut Vec<char>, s: &Vec<char>, from: usize, to: usize)
    requires
        from <= to <= s@.len(),
    ensures
        final(out)@ == old(out)@ + s@.subrange(from as int, to as int),
{
    let mut k: usize = from;
    while k < to
        invariant
            from <= k <= to <= s@.len(),
            out@ =~= old(out)@ + s@.subrange(from as int, k as int),
        decreases to - k,
    {
        out.push(s[k]);
        k = k + 1;
    }
}

/// `str::replace` with an empty pattern: `rep` before every character and at the end.
fn replace_empty_pattern(s: &Vec<char>, pat: &Vec<char>, rep: &Vec<char>) -> (res: Vec<char>)
    requires
        pat@.len() == 0,
    ensures
        res@ == replace(s@, pat@, rep@),
{
    let n: usize = s.len();
    let mut out: Vec<char> = Vec::new();
    let mut i: usize = 0;
    assert(s@.subrange(0, n as int) =~= s@);
    while i < n
        invariant
            n == s@.len(),
            pat@.len() == 0,
            i <= n,
            replace(s@, pat@, rep@) == out@ + replace(s@.subrange(i as int, n as int), pat@, rep@),
        decreases n - i,
    {
        let ghost sub = s@.subrange(i as int, n as int);
        let ghost before = out@;
        assert(sub.drop_first() =~= s@.subrange(i + 1, n as int));
        extend_range(&mut out, rep, 0, rep.len());
        out.push(s[i]);
        assert(rep@.subrange(0, rep@.len() as int) =~= rep@);
        assert((before + rep@ + seq![sub[0]]) + replace(sub.drop_first(), pat@, rep@)
            =~= before + (rep@ + seq![sub[0]] + replace(sub.drop_first(), pat@, rep@)));
        i = i + 1;
    }
    assert(s@.subrange(n as int, n as int) =~= Seq::<char>::empty());
    extend_range(&mut out, rep, 0, rep.len());
    assert(rep@.subrange(0, rep@.len() as int) =~= rep@);
    out
}

/// `str::replace` on character vectors.
pub fn replace_chars(s: &Vec<char>, pat: &Vec<char>, rep: &Vec<char>) -> (res: Vec<char>)
    ensures
        res@ == replace(s@, pat@, rep@),
{
    let n: usize = s.len();
    let p: usize = pat.len();
    if p == 0 {
        return replace_empty_pattern(s, pat, rep);
    }
    let mut out: Vec<char> = Vec::new();
    let mut i: usize = 0;
    assert(s@.subrange(0, n as int) =~= s@);
    while i < n
        invariant
            n == s@.len(),
            p == pat@.len() > 0,
            i <= n,
            replace(s@, pat@, rep@) == out@ + replace(s@.subrange(i as int, n as int), pat@, rep@),
        decreases n - i,
    {
        let ghost sub = s@.subrange(i as int, n as int);
        let ghost before = out@;
        if n - i < p {
            extend_range(&mut out, s, i, n);
            assert(out@ == before + sub);
            return out;
        }
        if matches_at(s, i, pat) {
            assert(sub.subrange(0, p as int) =~= s@.subrange(i as int, i + p));
            assert(sub.subrange(p as int, sub.len() as int) =~= s@.subrange(i + p, n as int));
            extend_range(&mut out, rep, 0, rep.len());
            assert(rep@.subrange(0, rep@.len() as int) =~= rep@);
            assert(before + (rep@ + replace(s@.subrange(i + p, n as int), pat@, rep@)) =~= (before
                + rep@) + replace(s@.subrange(i + p, n as int), pat@, rep@));
            i = i + p;
        } else {
            assert(sub.subrange(0, p as int) =~= s@.subrange(i as int, i + p));
            assert(sub.drop_first() =~= s@.subrange(i + 1, n as int));
            out.push(s[i]);
            assert(before + (seq![sub[0]] + replace(sub.drop_first(), pat@, rep@)) =~= out@
                + replace(sub.drop_first(), pat@, rep@));
            i = i + 1;
        }
    }
    assert(s@.subrange(n as int, n as int) =~= Seq::<char>::empty());
    assert(out@ + replace(Seq::<char>::empty(), pat@, rep@) =~= out@);
    out
}

/// `str::replace` on string slices.
pub fn replace_str(s: &str, pat: &str, rep: &str) -> (res: String)
    ensures
        res@ == replace(s@, pat@, rep@),
{
    let sc = chars_of(s);
    let pc = chars_of(pat);
    let rc = chars_of(rep);
    let out = replace_chars(&sc, &pc, &rc);
    string_of(&out)
}

// ---------------------------------------------------------------------------
// Decimal numbers
// ---------------------------------------------------------------------------

/// The character of a decimal digit.
pub open spec fn digit_char(d: int) -> char {
    ((d + 48) as u32) as char
}

/// Whether `c` is an ASCII decimal digit.
pub open spec fn is_digit(c: char) -> bool {
    '0' <= c && c <= '9'
}

/// The value of an ASCII decimal digit.
pub open spec fn digit_value(c: char) -> int {
    (c as u32) as int - 48
}

/// Decimal representation of a natural number, without leading zeros.
pub open spec fn decimal(n: nat) -> Seq<char>
    decreases n,
{
    if n < 10 {
        seq![digit_char(n as int)]
    } else {
        decimal(n / 10).push(digit_char((n % 10) as int))
    }
}

/// Decimal representation of a signed number (`-` sign when negative).
pub open spec fn decimal_signed(v: int) -> Seq<char> {
    if v < 0 {
        seq!['-'] + decimal((-v) as nat)
    } else {
        decimal(v as nat)
    }
}

/// Whether every character is an ASCII digit.
pub open spec fn all_digits(s: Seq<char>) -> bool {
    forall|i: int| 0 <= i < s.len() ==> is_digit(#[trigger] s[i])
}

/// The number that a sequence of decimal digits denotes.
pub open spec fn digits_value(s: Seq<char>) -> nat
    decreases s.len(),
{
    if s.len() == 0 {
        0
    } else {
        (digits_value(s.drop_last()) * 10 + digit_value(s.last())) as nat
    }
}

/// The character of a digit value below ten.
pub fn digit_to_char(d: u32) -> (c: char)
    requires
        d < 10,
    ensures
        c == digit_char(d as int),
        is_digit(c),
        digit_value(c) == d,
{
    let c = if d == 0 {
        '0'
    } else if d == 1 {
        '1'
    } else if d == 2 {
        '2'
    } else if d == 3 {
        '3'
    } else if d == 4 {
        '4'
    } else if d == 5 {
        '5'
    } else if d == 6 {
        '6'
    } else if d == 7 {
        '7'
    } else if d == 8 {
        '8'
    } else {
        '9'
    };
    c
}

/// The value of a digit character.
pub fn char_to_digit(c: char) -> (d: u32)
    requires
        is_digit(c),
    ensures
        d == digit_value(c),
        d < 10,
{
    (c as u32) - 48
}

/// The digit character of `d` denotes `d`.
pub proof fn lemma_digit_char(d: int)
    requires
        0 <= d < 10,
    ensures
        is_digit(digit_char(d)),
        digit_value(digit_char(d)) == d,
{
}

/// Every digit of a decimal representation is a digit, and it is never empty.
pub proof fn lemma_decimal_digits(n: nat)
    ensures
        all_digits(decimal(n)),
        decimal(n).len() >= 1,
        digits_value(decimal(n)) == n,
        is_digit(decimal(n)[0]),
    decreases n,
{
    if n < 10 {
        lemma_digit_char(n as int);
        let d = decimal(n);
        assert(d.drop_last() =~= Seq::<char>::empty());
        assert(digits_value(d) == digits_value(d.drop_last()) * 10 + digit_value(d.last()));
    } else {
        lemma_decimal_digits(n / 10);
        lemma_digit_char((n % 10) as int);
        let d = decimal(n);
        assert(d.drop_last() =~= decimal(n / 10));
        assert(digits_value(d) == digits_value(d.drop_last()) * 10 + digit_value(d.last()));
        assert forall|i: int| 0 <= i < d.len() implies is_digit(#[trigger] d[i]) by {
            if i < d.len() - 1 {
                assert(d[i] == decimal(n / 10)[i]);
            }
        }
    }
}

/// Leading zeros do not change the value of a digit sequence, and the value
/// grows by one place per digit.
pub proof fn lemma_digits_value_append(a: Seq<char>, b: Seq<char>)
    requires
        all_digits(b),
    ensures
        digits_value(a + b) == digits_value(a) * pow10(b.len()) + digits_value(b),
    decreases b.len(),
{
    if b.len() == 0 {
        assert(a + b =~= a);
        assert(pow10(0) == 1);
        assert(digits_value(b) == 0);
    } else {
        lemma_digits_value_append(a, b.drop_last());
        assert((a + b).drop_last() =~= a + b.drop_last());
        assert((a + b).last() == b.last());
        assert(all_digits(b.drop_last())) by {
            assert forall|i: int| 0 <= i < b.drop_last().len() implies is_digit(
                #[trigger] b.drop_last()[i],
            ) by {
                assert(b.drop_last()[i] == b[i]);
            }
        }
        assert(is_digit(b[b.len() - 1]));
        let x: int = digits_value(a) as int;
        let y: int = digits_value(b.drop_last()) as int;
        let p: int = pow10(b.drop_last().len()) as int;
        let z: int = digit_value(b.last());
        assert(b.last() == b[b.len() - 1]);
        assert(0 <= z < 10);
        assert(digits_value(a + b.drop_last()) == x * p + y);
        assert(pow10(b.len()) == p * 10);
        assert(digits_value(a + b) == digits_value((a + b).drop_last()) * 10 + z);
        assert(digits_value(b) == y * 10 + z);
        assert((x * p + y) * 10 + z == x * (p * 10) + (y * 10 + z)) by (nonlinear_arith);
        assert(digits_value(a + b) == (x * p + y) * 10 + z);
        assert(digits_value(a + b) == x * (p * 10) + digits_value(b));
        assert(digits_value(a + b) == x * pow10(b.len()) + digits_value(b));
    }
}

/// Ten to the power `k`.
pub open spec fn pow10(k: nat) -> nat
    decreases k,
{
    if k == 0 {
        1
    } else {
        10 * pow10((k - 1) as nat)
    }
}

/// Decimal representation of a `usize`.
pub fn usize_to_decimal(n: usize) -> (res: Vec<char>)
    ensures
        res@ == decimal(n as nat),
{
    let mut q: usize = n;
    let mut acc: Vec<char> = Vec::new();
    while q >= 10
        invariant
            decimal(n as nat) == decimal(q as nat) + acc@,
        decreases q,
    {
        let d = digit_to_char((q % 10) as u32);
        let ghost before = acc@;
        acc.insert(0, d);
        proof {
            assert(decimal(q as nat) == decimal((q / 10) as nat).push(digit_char((q % 10) as int)));
            assert(acc@ =~= seq![d] + before);
            assert(decimal((q / 10) as nat).push(digit_char((q % 10) as int)) + before
                =~= decimal((q / 10) as nat) + acc@);
        }
        q = q / 10;
    }
    let d = digit_to_char(q as u32);
    let ghost before = acc@;
    acc.insert(0, d);
    assert(acc@ =~= seq![d] + before);
    acc
}

/// Decimal representation of an `i32`, with a `-` sign when negative.
pub fn i32_to_string(v: i32) -> (res: String)
    ensures
        res@ == decimal_signed(v as int),
{
    if v < 0 {
        let m: u32 = (-(v as i64)) as u32;
        let mut out = String::new();
        out.push('-');
        let ghost sign = out@;
        push_chars(&mut out, &usize_to_decimal(m as usize));
        assert(sign =~= seq!['-']);
        out
    } else {
        let m: u32 = v as u32;
        string_of(&usize_to_decimal(m as usize))
    }
}

/// Decimal representation of a `usize` as a string.
pub fn usize_to_string(n: usize) -> (res: String)
    ensures
        res@ == decimal(n as nat),
{
    let v = usize_to_decimal(n);
    string_of(&v)
}

} // verus!
