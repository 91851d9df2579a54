//! Text primitives shared by the other modules: character sequences,
//! decimal rendering of counters, joining and trimming.

use vstd::prelude::*;
use vstd::std_specs::iter::IteratorSpec;

verus! {

/// The characters that `char::is_whitespace` accepts: the Unicode
/// `White_Space` property.
pub open spec fn is_white(c: char) -> bool {
    ||| ('\u{9}' <= c && c <= '\u{d}')
    ||| c == ' '
    ||| c == '\u{85}'
    ||| c == '\u{a0}'
    ||| c == '\u{1680}'
    ||| ('\u{2000}' <= c && c <= '\u{200a}')
    ||| c == '\u{2028}'
    ||| c == '\u{2029}'
    ||| c == '\u{202f}'
    ||| c == '\u{205f}'
    ||| c == '\u{3000}'
}

/// Decimal digits of a natural number, most significant first.
pub open spec fn decimal(n: nat) -> Seq<char>
    decreases n,
{
    if n < 10 {
        seq![digit_char(n)]
    } else {
        decimal(n / 10).push(digit_char(n % 10))
    }
}

pub open spec fn digit_char(d: nat) -> char {
    if d == 0 { '0' }
    else if d == 1 { '1' }
    else if d == 2 { '2' }
    else if d == 3 { '3' }
    else if d == 4 { '4' }
    else if d == 5 { '5' }
    else if d == 6 { '6' }
    else if d == 7 { '7' }
    else if d == 8 { '8' }
    else { '9' }
}

/// `std::string::String::push`: appends one character.
#[verifier::external_body]
pub(crate) fn push_char(s: &mut String, c: char)
    ensures
        final(s)@ == old(s)@.push(c),
{
    s.push(c);
}

/// The characters of the string, in order.
pub fn chars_of(s: &str) -> (v: Vec<char>)
    ensures
        v@ == s@,
{
    broadcast use vstd::string::axiom_spec_iter, vstd::string::next_postcondition;
    let mut v: Vec<char> = Vec::new();
    let mut it = s.chars();
    loop
        invariant
            v@ + it.remaining() == s@,
            it.decrease() is Some,
        ensures
            v@ == s@,
        decreases it.decrease()->0,
    {
        match it.next() {
            Some(c) => {
                v.push(c);
            },
            None => {
                assert(v@ =~= s@);
                break;
            },
        }
    }
    v
}

/// `char::is_whitespace`: true exactly for the characters of the Unicode
/// `White_Space` property.
#[verifier::external_body]
pub(crate) fn char_is_whitespace(c: char) -> (b: bool)
    ensures
        b == is_white(c),
{
    c.is_whitespace()
}

fn digit_of(d: usize) -> (c: char)
    requires
        d < 10,
    ensures
        c == digit_char(d as nat),
{
    if d == 0 { '0' }
    else if d == 1 { '1' }
    else if d == 2 { '2' }
    else if d == 3 { '3' }
    else if d == 4 { '4' }
    else if d == 5 { '5' }
    else if d == 6 { '6' }
    else if d == 7 { '7' }
    else if d == 8 { '8' }
    else { '9' }
}

/// Appends the decimal rendering of `n` to `out`.
pub fn push_decimal_u64(out: &mut String, n: u64)
    ensures
        final(out)@ == old(out)@ + decimal(n as nat),
    decreases n,
{
    if n < 10 {
        push_char(out, digit_of(n as usize));
        assert(decimal(n as nat) == seq![digit_char(n as nat)]);
        assert(old(out)@.push(digit_char(n as nat)) =~= old(out)@ + decimal(n as nat));
    } else {
        push_decimal_u64(out, n / 10);
        push_char(out, digit_of((n % 10) as usize));
        assert(old(out)@ + decimal((n / 10) as nat) + seq![digit_char((n % 10) as nat)]
            =~= old(out)@ + decimal(n as nat));
    }
}

/// Appends the decimal rendering of `n` to `out`.
pub fn push_decimal(out: &mut String, n: usize)
    ensures
        final(out)@ == old(out)@ + decimal(n as nat),
{
    push_decimal_u64(out, n as u64);
}

/// A copy of an optional string.
pub fn copy_opt_string(o: &Option<String>) -> (r: Option<String>)
    ensures
        r == *o,
{
    match o {
        Some(s) => Some(s.clone()),
        None => None,
    }
}

/// The decimal rendering of `n`.
pub fn decimal_string(n: usize) -> (s: String)
    ensures
        s@ == decimal(n as nat),
{
    let mut s = String::new();
    push_decimal(&mut s, n);
    assert(s@ =~= decimal(n as nat));
    s
}


/// `parts` joined by `sep`, as `[T]::join` does.
pub open spec fn join(parts: Seq<Seq<char>>, sep: Seq<char>) -> Seq<char>
    decreases parts.len(),
{
    if parts.len() == 0 {
        seq![]
    } else if parts.len() == 1 {
        parts[0]
    } else {
        join(parts.drop_last(), sep) + sep + parts.last()
    }
}

/// The character sequences of a list of strings.
pub open spec fn views(v: Seq<String>) -> Seq<Seq<char>> {
    v.map_values(|s: String| s@)
}

/// Joins the first `count` strings of `parts` with `sep`.
pub fn join_prefix(parts: &[String], count: usize, sep: &str) -> (r: String)
    requires
        count <= parts@.len(),
    ensures
        r@ == join(views(parts@.take(count as int)), sep@),
{
    let mut r = String::new();
    let mut i: usize = 0;
    while i < count
        invariant
            i <= count <= parts@.len(),
            r@ == join(views(parts@.take(i as int)), sep@),
        decreases count - i,
    {
        let ghost before = views(parts@.take(i as int));
        if i > 0 {
            r.append(sep);
        }
        r.append(parts[i].as_str());
        let ghost after = views(parts@.take(i + 1));
        assert(after.drop_last() =~= before);
        assert(after.last() == parts@[i as int]@);
        if i == 0 {
            assert(after.len() == 1);
            assert(r@ =~= after[0]);
        }
        i = i + 1;
    }
    r
}

/// Joins all the strings of `parts` with `sep`.
pub fn join_all(parts: &[String], sep: &str) -> (r: String)
    ensures
        r@ == join(views(parts@), sep@),
{
    let r = join_prefix(parts, parts.len(), sep);
    assert(parts@.take(parts@.len() as int) =~= parts@);
    r
}

/// The string made of the first `count` characters of `chars`.
pub fn string_of_prefix(chars: &[char], count: usize) -> (r: String)
    requires
        count <= chars@.len(),
    ensures
        r@ == chars@.take(count as int),
{
    let mut r = String::new();
    let mut i: usize = 0;
    while i < count
        invariant
            i <= count <= chars@.len(),
            r@ == chars@.take(i as int),
        decreases count - i,
    {
        push_char(&mut r, chars[i]);
        assert(chars@.take(i + 1) =~= chars@.take(i as int).push(chars@[i as int]));
        i = i + 1;
    }
    r
}

/// The string made of the characters of `chars` from `start` up to `end`.
pub fn string_of_range(chars: &[char], start: usize, end: usize) -> (r: String)
    requires
        start <= end <= chars@.len(),
    ensures
        r@ == chars@.subrange(start as int, end as int),
{
    let mut r = String::new();
    let mut i: usize = start;
    while i < end
        invariant
            start <= i <= end <= chars@.len(),
            r@ == chars@.subrange(start as int, i as int),
        decreases end - i,
    {
        push_char(&mut r, chars[i]);
        assert(chars@.subrange(start as int, i + 1) =~= chars@.subrange(start as int, i as int).push(chars@[i as int]));
        i = i + 1;
    }
    r
}

/// `s` without its leading whitespace.
pub open spec fn trim_start(s: Seq<char>) -> Seq<char>
    decreases s.len(),
{
    if s.len() > 0 && is_white(s[0]) { trim_start(s.skip(1)) } else { s }
}

/// `s` without its trailing whitespace.
pub open spec fn trim_end(s: Seq<char>) -> Seq<char>
    decreases s.len(),
{
    if s.len() > 0 && is_white(s.last()) { trim_end(s.drop_last()) } else { s }
}

/// `s` without its leading and trailing whitespace, as `str::trim` gives it.
pub open spec fn trimmed(s: Seq<char>) -> Seq<char> {
    trim_end(trim_start(s))
}

/// The characters of `s` without their leading and trailing whitespace.
pub fn trim_chars(s: &str) -> (r: Vec<char>)
    ensures
        r@ == trimmed(s@),
{
    let chars = chars_of(s);
    let len = chars.len();
    let mut a: usize = 0;
    assert(chars@.skip(0) =~= chars@);
    while a < len && char_is_whitespace(chars[a])
        invariant
            a <= len == chars@.len(),
            chars@ == s@,
            trim_start(s@) == trim_start(chars@.skip(a as int)),
        decreases len - a,
    {
        assert(chars@.skip(a as int)[0] == chars@[a as int]);
        assert(chars@.skip(a as int).skip(1) =~= chars@.skip(a + 1));
        a = a + 1;
    }
    let ghost t = chars@.skip(a as int);
    assert(trim_start(s@) == t);
    let mut b: usize = len;
    assert(t.take((b - a) as int) =~= t);
    while b > a && char_is_whitespace(chars[b - 1])
        invariant
            a <= b <= len == chars@.len(),
            t == chars@.skip(a as int),
            trim_end(t) == trim_end(t.take((b - a) as int)),
        decreases b,
    {
        assert(t.take((b - a) as int).last() == chars@[b - 1]);
        assert(t.take((b - a) as int).drop_last() =~= t.take((b - 1 - a) as int));
        b = b - 1;
    }
    if b > a {
        assert(t.take((b - a) as int).last() == chars@[b - 1]);
    }
    let mut r: Vec<char> = Vec::new();
    let mut k: usize = a;
    while k < b
        invariant
            a <= k <= b <= len == chars@.len(),
            t == chars@.skip(a as int),
            r@ == t.take((k - a) as int),
        decreases b - k,
    {
        r.push(chars[k]);
        assert(t.take((k + 1 - a) as int) =~= t.take((k - a) as int).push(chars@[k as int]));
        k = k + 1;
    }
    r
}

/// `str::trim`: `s` without its leading and trailing whitespace.
pub fn trim_str(s: &str) -> (r: String)
    ensures
        r@ == trimmed(s@),
{
    let c = trim_chars(s);
    string_of_prefix(c.as_slice(), c.len())
}

/// Code-point order of two strings, which is the byte order of their UTF-8 form.
pub open spec fn lex_lt(a: Seq<char>, b: Seq<char>) -> bool
    decreases a.len(),
{
    if a.len() == 0 {
        b.len() > 0
    } else if b.len() == 0 {
        false
    } else if a[0] < b[0] {
        true
    } else if a[0] > b[0] {
        false
    } else {
        lex_lt(a.skip(1), b.skip(1))
    }
}

/// Code-point order is irreflexive.
pub proof fn lemma_lex_irreflexive(a: Seq<char>)
    ensures
        !lex_lt(a, a),
    decreases a.len(),
{
    if a.len() > 0 {
        lemma_lex_irreflexive(a.skip(1));
    }
}

/// Code-point order is total on distinct strings and never holds both ways.
pub proof fn lemma_lex_total(a: Seq<char>, b: Seq<char>)
    ensures
        a != b ==> lex_lt(a, b) || lex_lt(b, a),
        !(lex_lt(a, b) && lex_lt(b, a)),
    decreases a.len(),
{
    if a.len() > 0 && b.len() > 0 {
        lemma_lex_total(a.skip(1), b.skip(1));
        if a[0] == b[0] && a.skip(1) == b.skip(1) {
            assert(a =~= b) by {
                assert forall|i: int| 0 <= i < a.len() implies a[i] == b[i] by {
                    if i > 0 {
                        assert(a.skip(1)[i - 1] == b.skip(1)[i - 1]);
                    }
                }
            }
        }
    } else if a.len() == 0 && b.len() == 0 {
        assert(a =~= b);
    }
}

/// Code-point order is transitive.
pub proof fn lemma_lex_transitive(a: Seq<char>, b: Seq<char>, c: Seq<char>)
    requires
        lex_lt(a, b),
        lex_lt(b, c),
    ensures
        lex_lt(a, c),
    decreases a.len(),
{
    if a.len() > 0 && b.len() > 0 && c.len() > 0 {
        if a[0] == b[0] && b[0] == c[0] {
            lemma_lex_transitive(a.skip(1), b.skip(1), c.skip(1));
        }
    }
}

/// Whether `a` comes before `b` in code-point order.
pub fn str_lt(a: &String, b: &String) -> (r: bool)
    ensures
        r == lex_lt(a@, b@),
{
    let x = chars_of(a.as_str());
    let y = chars_of(b.as_str());
    let mut i: usize = 0;
    assert(x@.skip(0) =~= x@);
    assert(y@.skip(0) =~= y@);
    while i < x.len() && i < y.len()
        invariant
            i <= x@.len() && i <= y@.len(),
            x@ == a@ && y@ == b@,
            lex_lt(a@, b@) == lex_lt(x@.skip(i as int), y@.skip(i as int)),
        decreases x@.len() - i,
    {
        let ghost xs = x@.skip(i as int);
        let ghost ys = y@.skip(i as int);
        assert(xs[0] == x@[i as int] && ys[0] == y@[i as int]);
        if x[i] < y[i] {
            return true;
        }
        if x[i] > y[i] {
            return false;
        }
        assert(xs.skip(1) =~= x@.skip(i + 1));
        assert(ys.skip(1) =~= y@.skip(i + 1));
        i = i + 1;
    }
    i < y.len()
}

/// `s` cut to its first `max` characters, with `…` appended when it was longer.
pub open spec fn truncated(s: Seq<char>, max: nat) -> Seq<char> {
    if s.len() <= max { s } else { s.take(max as int) + "…"@ }
}

/// A truncated string keeps the first characters of the original, is never
/// longer than the limit plus the ellipsis, and ends in `…` exactly when the
/// original was longer than the limit.
pub proof fn lemma_truncated_bounds(s: Seq<char>, max: nat)
    ensures
        truncated(s, max).len() <= max + 1,
        s.len() <= max ==> truncated(s, max) == s,
        s.len() > max ==> truncated(s, max).len() == max + 1 && truncated(s, max).last() == '\u{2026}'
            && truncated(s, max).take(max as int) == s.take(max as int),
{
    reveal_strlit("…");
    if s.len() > max {
        assert((s.take(max as int) + "…"@).take(max as int) =~= s.take(max as int));
    }
}

/// Trim a string for display: at most `max` characters, then `…` when cut.
pub fn truncate_for_display(s: &str, max: usize) -> (r: String)
    ensures
        r@ == truncated(s@, max as nat),
{
    let chars = chars_of(s);
    if chars.len() <= max {
        return String::from_str(s);
    }
    let mut r = string_of_prefix(chars.as_slice(), max);
    r.append("…");
    r
}

/// `v` without the strings equal to `id`; whether it held one.
pub fn remove_all_equal(v: &mut Vec<String>, id: &str) -> (r: bool)
    ensures
        r == views(old(v)@).contains(id@),
        views(final(v)@) == views(old(v)@).filter(|x: Seq<char>| x != id@),
{
    let ghost orig = views(v@);
    let target = String::from_str(id);
    let mut out: Vec<String> = Vec::new();
    let mut found = false;
    let mut i: usize = 0;
    proof { reveal(Seq::filter); }
    assert(orig.take(0).filter(|x: Seq<char>| x != id@) =~= Seq::<Seq<char>>::empty());
    while i < v.len()
        invariant
            i <= v@.len(),
            orig == views(v@),
            target@ == id@,
            views(out@) == orig.take(i as int).filter(|x: Seq<char>| x != id@),
            found == orig.take(i as int).contains(id@),
        decreases v@.len() - i,
    {
        let ghost before = views(out@);
        let ghost t0 = orig.take(i as int);
        let ghost t1 = orig.take(i + 1);
        proof {
            reveal(Seq::filter);
            assert(t1.drop_last() =~= t0);
            assert(t1.last() == v@[i as int]@);
            assert(t1 =~= t0.push(v@[i as int]@));
        }
        if v[i] == target {
            found = true;
            assert(t1[i as int] == id@);
        } else {
            out.push(v[i].clone());
            assert(views(out@) =~= before.push(v@[i as int]@));
            assert(t1.contains(id@) ==> t0.contains(id@)) by {
                if t1.contains(id@) {
                    let w = choose|w: int| 0 <= w < t1.len() && #[trigger] t1[w] == id@;
                    assert(w < i);
                    assert(t0[w] == id@);
                }
            }
        }
        assert(t0.contains(id@) ==> t1.contains(id@)) by {
            if t0.contains(id@) {
                let w = choose|w: int| 0 <= w < t0.len() && #[trigger] t0[w] == id@;
                assert(t1[w] == id@);
            }
        }
        i = i + 1;
    }
    assert(orig.take(i as int) =~= orig);
    *v = out;
    found
}


} // verus!
