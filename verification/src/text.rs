//! Character-level string helpers shared by the parsers of this crate.
use vstd::prelude::*;

verus! {

/// The characters of `s`, in order.
pub fn chars_of(s: &str) -> (v: Vec<char>)
    ensures
        v@ == s@,
{
    let mut v: Vec<char> = Vec::new();
    for c in it: s.chars()
        invariant
            v@ == it.seq().take(it.index() as int),
    {
        v.push(c);
        proof {
            assert(v@ =~= it.seq().take(it.index() as int + 1));
        }
    }
    v
}

} // verus!

verus! {

/// Appends one character (`String::push`).
#[verifier::external_body]
pub(crate) fn push_char(s: &mut String, c: char)
    ensures
        final(s)@ == old(s)@.push(c),
{
    s.push(c);
}

/// The string holding exactly the characters `v`.
pub fn string_of(v: &[char]) -> (s: String)
    ensures
        s@ == v@,
{
    let mut s = String::new();
    let mut i: usize = 0;
    while i < v.len()
        invariant
            i <= v@.len(),
            s@ == v@.take(i as int),
        decreases v@.len() - i,
    {
        push_char(&mut s, v[i]);
        proof {
            assert(s@ =~= v@.take(i as int + 1));
        }
        i = i + 1;
    }
    proof {
        assert(v@.take(v@.len() as int) =~= v@);
    }
    s
}

/// Character-wise equality of two character sequences.
pub fn chars_eq(a: &[char], b: &[char]) -> (r: bool)
    ensures
        r == (a@ == b@),
{
    if a.len() != b.len() {
        return false;
    }
    let mut i: usize = 0;
    while i < a.len()
        invariant
            i <= a@.len(),
            a@.len() == b@.len(),
            forall|j: int| 0 <= j < i ==> a@[j] == b@[j],
        decreases a@.len() - i,
    {
        if a[i] != b[i] {
            return false;
        }
        i = i + 1;
    }
    proof {
        assert(a@ =~= b@);
    }
    true
}

/// String equality.
pub fn str_eq(a: &str, b: &str) -> (r: bool)
    ensures
        r == (a@ == b@),
{
    let va = chars_of(a);
    let vb = chars_of(b);
    chars_eq(va.as_slice(), vb.as_slice())
}

/// Whether `s` starts with `prefix`.
pub fn chars_starts_with(s: &[char], prefix: &[char]) -> (r: bool)
    ensures
        r == (prefix@.len() <= s@.len() && s@.take(prefix@.len() as int) == prefix@),
{
    if prefix.len() > s.len() {
        return false;
    }
    let mut i: usize = 0;
    while i < prefix.len()
        invariant
            i <= prefix@.len() <= s@.len(),
            forall|j: int| 0 <= j < i ==> s@[j] == prefix@[j],
        decreases prefix@.len() - i,
    {
        if s[i] != prefix[i] {
            assert(s@.take(prefix@.len() as int)[i as int] != prefix@[i as int]);
            return false;
        }
        i = i + 1;
    }
    proof {
        assert(s@.take(prefix@.len() as int) =~= prefix@);
    }
    true
}

/// Unicode `White_Space` (what `char::is_whitespace` tests).
pub open spec fn is_ws(c: char) -> bool {
    ||| ('\u{9}' <= c && c <= '\u{d}')
    ||| c == ' '
    ||| c == '\u{85}'
    ||| c == '\u{a0}'
    ||| c == '\u{1680}'
    ||| ('\u{2000}' <= c && c <= '\u{200a}')
    ||| c == '\u{2028}'
    ||| c == '\u{2029}'
    ||| c == '\u{202f}'
    ||| c == '\u{205f}'
    ||| c == '\u{3000}'
}

pub fn is_whitespace(c: char) -> (r: bool)
    ensures
        r == is_ws(c),
{
    ('\u{9}' <= c && c <= '\u{d}') || c == ' ' || c == '\u{85}' || c == '\u{a0}' || c == '\u{1680}'
        || ('\u{2000}' <= c && c <= '\u{200a}') || c == '\u{2028}' || c == '\u{2029}' || c
        == '\u{202f}' || c == '\u{205f}' || c == '\u{3000}'
}

/// The value of a string of ASCII decimal digits (empty string: 0).
pub open spec fn digits_value(s: Seq<char>) -> nat
    decreases s.len(),
{
    if s.len() == 0 {
        0
    } else {
        digits_value(s.drop_last()) * 10 + ((s.last() as u32) - ('0' as u32)) as nat
    }
}

pub open spec fn is_digit(c: char) -> bool {
    '0' <= c && c <= '9'
}

pub open spec fn all_digits(s: Seq<char>) -> bool {
    forall|i: int| 0 <= i < s.len() ==> #[trigger] is_digit(s[i])
}

/// What `str::parse` of an unsigned integer type with maximum `max`
/// accepts: an optional `+` followed by at least one decimal digit, the
/// value not above `max`.
pub open spec fn parse_unsigned_spec(s: Seq<char>, max: nat) -> Option<nat> {
    let body = if s.len() > 0 && s[0] == '+' {
        s.drop_first()
    } else {
        s
    };
    if body.len() > 0 && all_digits(body) && digits_value(body) <= max {
        Some(digits_value(body))
    } else {
        None
    }
}

proof fn lemma_digits_value_push(s: Seq<char>, c: char)
    ensures
        digits_value(s.push(c)) == digits_value(s) * 10 + ((c as u32) - ('0' as u32)) as nat,
{
    assert(s.push(c).drop_last() =~= s);
}

proof fn lemma_digits_value_monotone(s: Seq<char>, i: int)
    requires
        0 <= i <= s.len(),
        all_digits(s),
    ensures
        digits_value(s.take(i)) <= digits_value(s),
    decreases s.len() - i,
{
    if i < s.len() {
        lemma_digits_value_monotone(s, i + 1);
        assert(s.take(i + 1) =~= s.take(i).push(s[i]));
        lemma_digits_value_push(s.take(i), s[i]);
        assert(is_digit(s[i]));
    } else {
        assert(s.take(i) =~= s);
    }
}

/// `str::parse::<u64>` restricted to values `<= max` (the integer type's
/// maximum): digits with an optional leading `+`.
pub fn parse_unsigned(s: &[char], max: u64) -> (r: Option<u64>)
    ensures
        r matches Some(v) ==> parse_unsigned_spec(s@, max as nat) == Some(v as nat),
        r is None ==> parse_unsigned_spec(s@, max as nat) is None,
{
    let start: usize = if s.len() > 0 && s[0] == '+' { 1 } else { 0 };
    let ghost body = if s@.len() > 0 && s@[0] == '+' { s@.drop_first() } else { s@ };
    proof {
        assert(body =~= s@.skip(start as int));
    }
    if start >= s.len() {
        return None;
    }
    let mut value: u64 = 0;
    let mut i: usize = start;
    while i < s.len()
        invariant
            start <= i <= s@.len(),
            body =~= s@.skip(start as int),
            body == (if s@.len() > 0 && s@[0] == '+' { s@.drop_first() } else { s@ }),
            forall|j: int| 0 <= j < i - start ==> #[trigger] is_digit(body[j]),
            value as nat == digits_value(body.take(i - start)),
            value <= max,
        decreases s@.len() - i,
    {
        let c = s[i];
        assert(body[i - start] == s@[i as int]);
        if !('0' <= c && c <= '9') {
            proof {
                assert(!is_digit(body[i - start]));
                assert(!all_digits(body));
            }
            return None;
        }
        let d = (c as u32 - '0' as u32) as u64;
        proof {
            assert(body.take(i - start + 1) =~= body.take(i - start).push(c));
            lemma_digits_value_push(body.take(i - start), c);
        }
        if d > max || value > (max - d) / 10 {
            proof {
                if d <= max {
                    assert(value * 10 + d > max) by (nonlinear_arith)
                        requires value > (max - d) / 10, d <= 9, d <= max;
                }
                let k = i - start + 1;
                assert(digits_value(body.take(k)) > max);
                if all_digits(body) {
                    lemma_digits_value_monotone(body, k);
                    assert(digits_value(body) > max);
                }
                assert(parse_unsigned_spec(s@, max as nat) is None);
            }
            return None;
        }
        assert(value * 10 + d <= max) by (nonlinear_arith)
            requires value <= (max - d) / 10, d <= 9, d <= max;
        value = value * 10 + d;
        i = i + 1;
    }
    proof {
        assert(body.take(body.len() as int) =~= body);
    }
    Some(value)
}

} // verus!

verus! {

/// The characters of `s` from position `n` on.
pub fn chars_skip(s: &[char], n: usize) -> (v: Vec<char>)
    requires
        n <= s@.len(),
    ensures
        v@ == s@.skip(n as int),
{
    let mut v: Vec<char> = Vec::new();
    let mut i: usize = n;
    while i < s.len()
        invariant
            n <= i <= s@.len(),
            v@ == s@.subrange(n as int, i as int),
        decreases s@.len() - i,
    {
        v.push(s[i]);
        proof {
            assert(v@ =~= s@.subrange(n as int, i + 1));
        }
        i = i + 1;
    }
    proof {
        assert(s@.subrange(n as int, s@.len() as int) =~= s@.skip(n as int));
    }
    v
}

} // verus!

verus! {

/// The views of a vector of character vectors.
pub open spec fn deep(v: Seq<Vec<char>>) -> Seq<Seq<char>> {
    v.map_values(|x: Vec<char>| x@)
}

/// The views of a vector of strings.
pub open spec fn strings_view(v: Seq<String>) -> Seq<Seq<char>> {
    v.map_values(|x: String| x@)
}

/// The pieces of `s` between the characters matching `sep` (what
/// `str::split` yields, empty pieces included).
pub open spec fn pieces_by(s: Seq<char>, sep: spec_fn(char) -> bool) -> Seq<Seq<char>>
    decreases s.len(),
{
    if s.len() == 0 {
        seq![Seq::<char>::empty()]
    } else {
        let p = pieces_by(s.drop_last(), sep);
        if sep(s.last()) {
            p.push(Seq::<char>::empty())
        } else {
            p.update(p.len() - 1, p.last().push(s.last()))
        }
    }
}

/// The non-empty pieces, in order.
pub open spec fn nonempty_pieces(ps: Seq<Seq<char>>) -> Seq<Seq<char>>
    decreases ps.len(),
{
    if ps.len() == 0 {
        Seq::<Seq<char>>::empty()
    } else {
        let r = nonempty_pieces(ps.drop_last());
        if ps.last().len() > 0 {
            r.push(ps.last())
        } else {
            r
        }
    }
}

pub open spec fn is_sep(sep: char) -> spec_fn(char) -> bool {
    |c: char| c == sep
}

pub open spec fn ws_pred() -> spec_fn(char) -> bool {
    |c: char| is_ws(c)
}

/// What `str::split_whitespace` yields.
pub open spec fn words_spec(s: Seq<char>) -> Seq<Seq<char>> {
    nonempty_pieces(pieces_by(s, ws_pred()))
}

pub proof fn lemma_pieces_nonempty(s: Seq<char>, sep: spec_fn(char) -> bool)
    ensures
        pieces_by(s, sep).len() >= 1,
    decreases s.len(),
{
    if s.len() > 0 {
        lemma_pieces_nonempty(s.drop_last(), sep);
    }
}

/// Split `s` at every character for which `ws` (whitespace) or `== sep`
/// holds, keeping empty pieces.
fn split_pieces(s: &[char], use_ws: bool, sep: char) -> (v: Vec<Vec<char>>)
    ensures
        deep(v@) == pieces_by(s@, if use_ws { ws_pred() } else { is_sep(sep) }),
{
    let ghost pred = if use_ws { ws_pred() } else { is_sep(sep) };
    let mut done: Vec<Vec<char>> = Vec::new();
    let mut cur: Vec<char> = Vec::new();
    let mut i: usize = 0;
    while i < s.len()
        invariant
            i <= s@.len(),
            pred == (if use_ws { ws_pred() } else { is_sep(sep) }),
            deep(done@).push(cur@) == pieces_by(s@.take(i as int), pred),
        decreases s@.len() - i,
    {
        let c = s[i];
        let is_break = if use_ws { is_whitespace(c) } else { c == sep };
        proof {
            assert(s@.take(i + 1).drop_last() =~= s@.take(i as int));
            assert(s@.take(i + 1).last() == c);
            lemma_pieces_nonempty(s@.take(i as int), pred);
        }
        if is_break {
            let finished = cur;
            done.push(finished);
            cur = Vec::new();
            proof {
                assert(deep(done@).push(cur@) =~= pieces_by(s@.take(i + 1), pred));
            }
        } else {
            let ghost before = cur@;
            cur.push(c);
            proof {
                assert(deep(done@).push(cur@) =~= pieces_by(s@.take(i + 1), pred));
            }
        }
        i = i + 1;
    }
    done.push(cur);
    proof {
        assert(s@.take(s@.len() as int) =~= s@);
        assert(deep(done@) =~= pieces_by(s@, pred));
    }
    done
}

/// Keep the non-empty pieces.
pub fn keep_nonempty(ps: Vec<Vec<char>>) -> (v: Vec<Vec<char>>)
    ensures
        deep(v@) == nonempty_pieces(deep(ps@)),
{
    let mut out: Vec<Vec<char>> = Vec::new();
    let mut i: usize = 0;
    while i < ps.len()
        invariant
            i <= ps@.len(),
            deep(out@) == nonempty_pieces(deep(ps@.take(i as int))),
        decreases ps@.len() - i,
    {
        proof {
            assert(deep(ps@.take(i + 1)).drop_last() =~= deep(ps@.take(i as int)));
            assert(deep(ps@.take(i + 1)).last() == ps@[i as int]@);
        }
        if ps[i].len() > 0 {
            let piece = ps[i].clone();
            out.push(piece);
            proof {
                assert(deep(out@) =~= nonempty_pieces(deep(ps@.take(i + 1))));
            }
        } else {
            proof {
                assert(deep(out@) =~= nonempty_pieces(deep(ps@.take(i + 1))));
            }
        }
        i = i + 1;
    }
    proof {
        assert(ps@.take(ps@.len() as int) =~= ps@);
    }
    out
}

/// `str::split(sep)` on characters.
pub fn split_on(s: &[char], sep: char) -> (v: Vec<Vec<char>>)
    ensures
        deep(v@) == pieces_by(s@, is_sep(sep)),
{
    split_pieces(s, false, sep)
}

/// `str::split_whitespace` on characters.
pub fn split_whitespace(s: &[char]) -> (v: Vec<Vec<char>>)
    ensures
        deep(v@) == words_spec(s@),
{
    let ps = split_pieces(s, true, ' ');
    keep_nonempty(ps)
}

/// The strings made of `v[from..to]`.
pub fn strings_of(v: &[Vec<char>], from: usize, to: usize) -> (r: Vec<String>)
    requires
        from <= to <= v@.len(),
    ensures
        strings_view(r@) == deep(v@).subrange(from as int, to as int),
{
    let mut r: Vec<String> = Vec::new();
    let mut i: usize = from;
    while i < to
        invariant
            from <= i <= to <= v@.len(),
            r@.len() == i - from,
            strings_view(r@) == deep(v@).subrange(from as int, i as int),
        decreases to - i,
    {
        let s = string_of(v[i].as_slice());
        r.push(s);
        proof {
            assert(deep(v@)[i as int] == v@[i as int]@);
            assert(r@[i - from] == s);
            assert(strings_view(r@) =~= deep(v@).subrange(from as int, i + 1));
        }
        i = i + 1;
    }
    r
}

/// `s` without leading whitespace.
pub open spec fn trim_start_spec(s: Seq<char>) -> Seq<char>
    decreases s.len(),
{
    if s.len() > 0 && is_ws(s[0]) {
        trim_start_spec(s.drop_first())
    } else {
        s
    }
}

/// `s` without trailing whitespace.
pub open spec fn trim_end_spec(s: Seq<char>) -> Seq<char>
    decreases s.len(),
{
    if s.len() > 0 && is_ws(s.last()) {
        trim_end_spec(s.drop_last())
    } else {
        s
    }
}

/// What `str::trim` gives: `s` without leading and trailing whitespace.
pub open spec fn trim_spec(s: Seq<char>) -> Seq<char> {
    trim_end_spec(trim_start_spec(s))
}

proof fn lemma_trim_start_at(s: Seq<char>, a: int)
    requires
        0 <= a <= s.len(),
        forall|k: int| 0 <= k < a ==> is_ws(#[trigger] s[k]),
        a == s.len() || !is_ws(s[a]),
    ensures
        trim_start_spec(s) == s.skip(a),
    decreases a,
{
    if a > 0 {
        assert(is_ws(s[0]));
        lemma_trim_start_at(s.drop_first(), a - 1);
        assert(s.drop_first().skip(a - 1) =~= s.skip(a));
    } else {
        assert(s.skip(0) =~= s);
    }
}

proof fn lemma_trim_end_at(s: Seq<char>, b: int)
    requires
        0 <= b <= s.len(),
        forall|k: int| b <= k < s.len() ==> is_ws(#[trigger] s[k]),
        b == 0 || !is_ws(s[b - 1]),
    ensures
        trim_end_spec(s) == s.take(b),
    decreases s.len() - b,
{
    if b < s.len() {
        assert(is_ws(s.last()));
        lemma_trim_end_at(s.drop_last(), b);
        assert(s.drop_last().take(b) =~= s.take(b));
    } else {
        assert(s.take(b) =~= s);
    }
}

/// `str::trim` on characters.
pub fn trim_chars(s: &[char]) -> (r: Vec<char>)
    ensures
        r@ == trim_spec(s@),
{
    let mut a: usize = 0;
    while a < s.len() && is_whitespace(s[a])
        invariant
            a <= s@.len(),
            forall|k: int| 0 <= k < a ==> is_ws(#[trigger] s@[k]),
        decreases s@.len() - a,
    {
        a = a + 1;
    }
    proof {
        lemma_trim_start_at(s@, a as int);
    }
    let mut b: usize = s.len();
    while b > a && is_whitespace(s[b - 1])
        invariant
            a <= b <= s@.len(),
            forall|k: int| b <= k < s@.len() ==> is_ws(#[trigger] s@[k]),
        decreases b,
    {
        b = b - 1;
    }
    let ghost t = s@.skip(a as int);
    proof {
        assert forall|k: int| (b - a) <= k < t.len() implies is_ws(#[trigger] t[k]) by {
            assert(t[k] == s@[a + k]);
        }
        if b > a {
            assert(t[b - a - 1] == s@[b - 1]);
        }
        lemma_trim_end_at(t, (b - a) as int);
        assert(t.take((b - a) as int) =~= s@.subrange(a as int, b as int));
    }
    let mut r: Vec<char> = Vec::new();
    let mut i: usize = a;
    while i < b
        invariant
            a <= i <= b <= s@.len(),
            r@ == s@.subrange(a as int, i as int),
        decreases b - i,
    {
        r.push(s[i]);
        proof {
            assert(r@ =~= s@.subrange(a as int, i + 1));
        }
        i = i + 1;
    }
    r
}

/// The decimal digit character of `d` (0..=9).
pub open spec fn digit_char(d: nat) -> char {
    if d == 0 { '0' } else if d == 1 { '1' } else if d == 2 { '2' } else if d == 3 { '3' }
    else if d == 4 { '4' } else if d == 5 { '5' } else if d == 6 { '6' } else if d == 7 { '7' }
    else if d == 8 { '8' } else { '9' }
}

/// The decimal numeral of `n`, without leading zeros.
pub open spec fn decimal_spec(n: nat) -> Seq<char>
    decreases n,
{
    if n < 10 {
        seq![digit_char(n)]
    } else {
        decimal_spec(n / 10).push(digit_char(n % 10))
    }
}

fn digit_char_of(d: u64) -> (c: char)
    requires
        d < 10,
    ensures
        c == digit_char(d as nat),
{
    if d == 0 { '0' } else if d == 1 { '1' } else if d == 2 { '2' } else if d == 3 { '3' }
    else if d == 4 { '4' } else if d == 5 { '5' } else if d == 6 { '6' } else if d == 7 { '7' }
    else if d == 8 { '8' } else { '9' }
}

/// Append the decimal numeral of `n` (what `format!("{n}")` writes).
pub fn push_decimal(out: &mut Vec<char>, n: u64)
    ensures
        final(out)@ == old(out)@ + decimal_spec(n as nat),
    decreases n,
{
    if n < 10 {
        out.push(digit_char_of(n));
        proof {
            assert(final(out)@ =~= old(out)@ + decimal_spec(n as nat));
        }
    } else {
        push_decimal(out, n / 10);
        out.push(digit_char_of(n % 10));
        proof {
            assert(final(out)@ =~= old(out)@ + decimal_spec(n as nat));
        }
    }
}

/// Append the characters of `s`.
pub fn push_str(out: &mut Vec<char>, s: &str)
    ensures
        final(out)@ == old(out)@ + s@,
{
    let cs = chars_of(s);
    let mut i: usize = 0;
    while i < cs.len()
        invariant
            i <= cs@.len(),
            cs@ == s@,
            out@ == old(out)@ + cs@.take(i as int),
        decreases cs@.len() - i,
    {
        out.push(cs[i]);
        proof {
            assert(out@ =~= old(out)@ + cs@.take(i + 1));
        }
        i = i + 1;
    }
    proof {
        assert(cs@.take(cs@.len() as int) =~= cs@);
    }
}

/// Append characters.
pub fn push_chars(out: &mut Vec<char>, s: &[char])
    ensures
        final(out)@ == old(out)@ + s@,
{
    let mut i: usize = 0;
    while i < s.len()
        invariant
            i <= s@.len(),
            out@ == old(out)@ + s@.take(i as int),
        decreases s@.len() - i,
    {
        out.push(s[i]);
        proof {
            assert(out@ =~= old(out)@ + s@.take(i + 1));
        }
        i = i + 1;
    }
    proof {
        assert(s@.take(s@.len() as int) =~= s@);
    }
}

/// `t == lit`, character-wise.
pub fn eq_chars_lit(t: &[char], lit: &str) -> (r: bool)
    ensures
        r == (t@ == lit@),
{
    let l = chars_of(lit);
    chars_eq(t, l.as_slice())
}

} // verus!

verus! {

/// `args` joined with single spaces (what `[String]::join(" ")` gives).
pub open spec fn join_spaces(args: Seq<Seq<char>>) -> Seq<char>
    decreases args.len(),
{
    if args.len() == 0 {
        Seq::<char>::empty()
    } else if args.len() == 1 {
        args[0]
    } else {
        join_spaces(args.drop_last()).push(' ') + args.last()
    }
}

/// A word: non-empty, without whitespace.
pub open spec fn clean_word(w: Seq<char>) -> bool {
    w.len() > 0 && forall|i: int| 0 <= i < w.len() ==> !is_ws(#[trigger] w[i])
}

proof fn lemma_pieces_append_word(s: Seq<char>, w: Seq<char>)
    requires
        forall|i: int| 0 <= i < w.len() ==> !is_ws(#[trigger] w[i]),
    ensures
        pieces_by(s + w, ws_pred()) == pieces_by(s, ws_pred()).update(
            pieces_by(s, ws_pred()).len() - 1,
            pieces_by(s, ws_pred()).last() + w,
        ),
    decreases w.len(),
{
    lemma_pieces_nonempty(s, ws_pred());
    if w.len() == 0 {
        assert(s + w =~= s);
        let p = pieces_by(s, ws_pred());
        assert(p.last() + w =~= p.last());
        assert(p.update(p.len() - 1, p.last()) =~= p);
    } else {
        let w0 = w.drop_last();
        let c = w.last();
        assert(!is_ws(c));
        lemma_pieces_append_word(s, w0);
        assert((s + w).drop_last() =~= s + w0);
        assert((s + w).last() == c);
        let p = pieces_by(s, ws_pred());
        let q = pieces_by(s + w0, ws_pred());
        lemma_pieces_nonempty(s + w0, ws_pred());
        assert(pieces_by(s + w, ws_pred()) == q.update(q.len() - 1, q.last().push(c)));
        let n = p.len();
        assert(q.len() == n);
        assert(q.last() == p.last() + w0);
        assert(q.last().push(c) =~= p.last() + w);
        assert(q.update(n - 1, q.last().push(c)) =~= p.update(n - 1, p.last() + w));
    }
}

/// A line ending in a word, one space after other text: its words are the
/// text's words and then that word.
pub proof fn lemma_words_push(s: Seq<char>, w: Seq<char>)
    requires
        clean_word(w),
    ensures
        words_spec(s + seq![' '] + w) == words_spec(s).push(w),
{
    let t = s + seq![' '];
    assert(t.drop_last() =~= s);
    assert(t.last() == ' ');
    assert(is_ws(' '));
    let p = pieces_by(s, ws_pred());
    assert(pieces_by(t, ws_pred()) == p.push(Seq::<char>::empty()));
    lemma_pieces_append_word(t, w);
    assert(Seq::<char>::empty() + w =~= w);
    assert(p.push(Seq::<char>::empty()).update(p.len() as int, w) =~= p.push(w));
    assert(pieces_by(t + w, ws_pred()) == p.push(w));
    assert(p.push(w).drop_last() =~= p);
}

/// A single word's words are itself.
pub proof fn lemma_words_single(w: Seq<char>)
    requires
        clean_word(w),
    ensures
        words_spec(w) == seq![w],
{
    let e = Seq::<char>::empty();
    lemma_pieces_append_word(e, w);
    assert(e + w =~= w);
    assert(pieces_by(e, ws_pred()) == seq![e]);
    assert(seq![e].update(0, e + w) =~= seq![w]);
    assert(pieces_by(w, ws_pred()) == seq![w]);
    let one = seq![w];
    assert(one.drop_last() =~= Seq::<Seq<char>>::empty());
    assert(one.last() == w);
    assert(nonempty_pieces(Seq::<Seq<char>>::empty()) == Seq::<Seq<char>>::empty());
    assert(nonempty_pieces(one) == nonempty_pieces(one.drop_last()).push(w));
    assert(Seq::<Seq<char>>::empty().push(w) =~= one);
}

} // verus!

verus! {

/// Words joined with single spaces split back into those words.
pub proof fn lemma_words_of_joined(ws: Seq<Seq<char>>)
    requires
        ws.len() >= 1,
        forall|i: int| 0 <= i < ws.len() ==> clean_word(#[trigger] ws[i]),
    ensures
        words_spec(join_spaces(ws)) == ws,
    decreases ws.len(),
{
    if ws.len() == 1 {
        assert(clean_word(ws[0]));
        lemma_words_single(ws[0]);
        assert(seq![ws[0]] =~= ws);
    } else {
        let init = ws.drop_last();
        assert forall|i: int| 0 <= i < init.len() implies clean_word(#[trigger] init[i]) by {
            assert(init[i] == ws[i]);
        }
        lemma_words_of_joined(init);
        assert(clean_word(ws[ws.len() - 1]));
        let s = join_spaces(init);
        assert(s.push(' ') =~= s + seq![' ']);
        lemma_words_push(s, ws.last());
        assert(init.push(ws.last()) =~= ws);
    }
}

} // verus!

verus! {

/// Words joined with single spaces.
pub fn join_words(ws: &Vec<Vec<char>>) -> (r: Vec<char>)
    ensures
        r@ == join_spaces(deep(ws@)),
{
    let ghost a = deep(ws@);
    let mut r: Vec<char> = Vec::new();
    let mut i: usize = 0;
    while i < ws.len()
        invariant
            i <= ws@.len(),
            a == deep(ws@),
            r@ == join_spaces(a.take(i as int)),
        decreases ws@.len() - i,
    {
        proof {
            assert(a.take(i + 1).drop_last() =~= a.take(i as int));
            assert(a.take(i + 1).last() == ws@[i as int]@);
        }
        let ghost before = r@;
        if i > 0 {
            r.push(' ');
        }
        push_chars(&mut r, ws[i].as_slice());
        proof {
            if i == 0 {
                assert(a.take(1).len() == 1);
                assert(a.take(1)[0] == ws@[0]@);
                assert(r@ =~= join_spaces(a.take(1)));
            } else {
                assert(r@ =~= before.push(' ') + ws@[i as int]@);
            }
        }
        i = i + 1;
    }
    proof {
        assert(a.take(ws@.len() as int) =~= a);
    }
    r
}

} // verus!

verus! {

/// Why `str::parse::<i32>` refused a string.
#[derive(Clone, Copy, Debug, PartialEq, Eq, Structural)]
pub enum IntError {
    /// The string is empty.
    Empty,
    /// A character is not a digit (a lone sign counts as one).
    InvalidDigit,
    /// The value is above `i32::MAX`.
    PosOverflow,
    /// The value is below `i32::MIN`.
    NegOverflow,
}

/// The value of the first `k` characters of `ds` read as decimal digits
/// towards a positive (or, with `negative`, a negative) `i32`: the first
/// non-digit or the first step out of range, scanning from the left, is
/// the error.
pub open spec fn accumulate(ds: Seq<char>, negative: bool, k: nat) -> Result<int, IntError>
    decreases k,
{
    if k == 0 {
        Ok(0)
    } else {
        match accumulate(ds, negative, (k - 1) as nat) {
            Err(e) => Err(e),
            Ok(v) => {
                let c = ds[k - 1];
                if !is_digit(c) {
                    Err(IntError::InvalidDigit)
                } else {
                    let d = (c as u32) - ('0' as u32);
                    let nv = if negative {
                        v * 10 - d
                    } else {
                        v * 10 + d
                    };
                    if nv < i32::MIN {
                        Err(IntError::NegOverflow)
                    } else if nv > i32::MAX {
                        Err(IntError::PosOverflow)
                    } else {
                        Ok(nv)
                    }
                }
            },
        }
    }
}

/// What `str::parse::<i32>` gives: an optional sign and at least one
/// decimal digit, in range.
pub open spec fn parse_i32_spec(s: Seq<char>) -> Result<int, IntError> {
    if s.len() == 0 {
        Err(IntError::Empty)
    } else if (s[0] == '+' || s[0] == '-') && s.len() == 1 {
        Err(IntError::InvalidDigit)
    } else if s[0] == '+' {
        accumulate(s.drop_first(), false, (s.len() - 1) as nat)
    } else if s[0] == '-' {
        accumulate(s.drop_first(), true, (s.len() - 1) as nat)
    } else {
        accumulate(s, false, s.len())
    }
}

proof fn lemma_accumulate_err_sticks(ds: Seq<char>, negative: bool, k: nat, m: nat)
    requires
        k <= m,
        accumulate(ds, negative, k) is Err,
    ensures
        accumulate(ds, negative, m) == accumulate(ds, negative, k),
    decreases m - k,
{
    if k < m {
        lemma_accumulate_err_sticks(ds, negative, k, (m - 1) as nat);
    }
}

fn accumulate_exec(ds: &[char], from: usize, negative: bool) -> (r: Result<i32, IntError>)
    requires
        from <= ds@.len(),
    ensures
        match r {
            Ok(v) => accumulate(ds@.skip(from as int), negative, (ds@.len() - from) as nat) == Ok::<int, IntError>(v as int),
            Err(e) => accumulate(ds@.skip(from as int), negative, (ds@.len() - from) as nat) == Err::<int, IntError>(e),
        },
{
    let ghost t = ds@.skip(from as int);
    let mut v: i64 = 0;
    let mut i: usize = from;
    while i < ds.len()
        invariant
            from <= i <= ds@.len(),
            t == ds@.skip(from as int),
            i32::MIN <= v <= i32::MAX,
            accumulate(t, negative, (i - from) as nat) == Ok::<int, IntError>(v as int),
        decreases ds@.len() - i,
    {
        let c = ds[i];
        assert(t[(i - from) as int] == c);
        if !('0' <= c && c <= '9') {
            proof {
                lemma_accumulate_err_sticks(t, negative, (i - from + 1) as nat, (ds@.len() - from) as nat);
            }
            return Err(IntError::InvalidDigit);
        }
        let d = (c as u32 - '0' as u32) as i64;
        let nv = if negative {
            v * 10 - d
        } else {
            v * 10 + d
        };
        if nv < i32::MIN as i64 {
            proof {
                lemma_accumulate_err_sticks(t, negative, (i - from + 1) as nat, (ds@.len() - from) as nat);
            }
            return Err(IntError::NegOverflow);
        } else if nv > i32::MAX as i64 {
            proof {
                lemma_accumulate_err_sticks(t, negative, (i - from + 1) as nat, (ds@.len() - from) as nat);
            }
            return Err(IntError::PosOverflow);
        }
        v = nv;
        i = i + 1;
    }
    Ok(v as i32)
}

/// `str::parse::<i32>`.
pub fn parse_i32(s: &[char]) -> (r: Result<i32, IntError>)
    ensures
        match r {
            Ok(v) => parse_i32_spec(s@) == Ok::<int, IntError>(v as int),
            Err(e) => parse_i32_spec(s@) == Err::<int, IntError>(e),
        },
{
    if s.len() == 0 {
        return Err(IntError::Empty);
    }
    if (s[0] == '+' || s[0] == '-') && s.len() == 1 {
        return Err(IntError::InvalidDigit);
    }
    if s[0] == '+' {
        proof {
            assert(s@.skip(1) =~= s@.drop_first());
        }
        accumulate_exec(s, 1, false)
    } else if s[0] == '-' {
        proof {
            assert(s@.skip(1) =~= s@.drop_first());
        }
        accumulate_exec(s, 1, true)
    } else {
        proof {
            assert(s@.skip(0) =~= s@);
        }
        accumulate_exec(s, 0, false)
    }
}

} // verus!
