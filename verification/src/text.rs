//! Character-level text handling: the string operations that the rest of the
//! library is specified with, over `Seq<char>`.
use vstd::prelude::*;

verus! {

// ---------------------------------------------------------------------------
// Calls into std whose behaviour vstd does not specify.
// ---------------------------------------------------------------------------

/// Whether two string slices hold the same characters.
pub(crate) fn str_eq(a: &str, b: &str) -> (res: bool)
    ensures
        res == (a@ == b@),
{
    let x = chars_of(a);
    let y = chars_of(b);
    if x.len() != y.len() {
        return false;
    }
    let mut i: usize = 0;
    while i < x.len()
        invariant
            i <= x@.len(),
            x@.len() == y@.len(),
            x@ == a@,
            y@ == b@,
            forall|k: int| 0 <= k < i ==> x@[k] == y@[k],
        decreases x.len() - i,
    {
        if x[i] != y[i] {
            return false;
        }
        i = i + 1;
    }
    assert(x@ =~= y@);
    true
}

/// `String::push`: appends one character.
#[verifier::external_body]
pub(crate) fn push_char(s: &mut String, c: char)
    ensures
        final(s)@ == old(s)@.push(c),
{
    s.push(c)
}

/// The result of `str::to_lowercase` (Unicode lower-case mapping) on a text.
pub uninterp spec fn lowercase(s: Seq<char>) -> Seq<char>;

/// `str::to_lowercase`: its result is named, not restated.
#[verifier::external_body]
pub(crate) fn to_lowercase(s: &str) -> (res: String)
    ensures
        res@ == lowercase(s@),
{
    s.to_lowercase()
}

/// The result of `char::is_alphanumeric` (Unicode Alphabetic or Numeric).
pub uninterp spec fn alphanumeric(c: char) -> bool;

/// `char::is_alphanumeric`: its result is named, not restated.
#[verifier::external_body]
pub(crate) fn is_alphanumeric(c: char) -> (res: bool)
    ensures
        res == alphanumeric(c),
{
    c.is_alphanumeric()
}

// ---------------------------------------------------------------------------
// Conversions between strings and character vectors.
// ---------------------------------------------------------------------------

/// The characters of a string slice, in order.
pub fn chars_of(s: &str) -> (v: Vec<char>)
    ensures
        v@ == s@,
{
    let mut v: Vec<char> = Vec::new();
    for c in it: s.chars()
        invariant
            v@ == it.seq().take(it.index() as int),
            it.seq() == s@,
    {
        v.push(c);
    }
    v
}

/// Appends characters `v[from..to]` to `s`.
pub fn push_chars(s: &mut String, v: &Vec<char>, from: usize, to: usize)
    requires
        from <= to <= v.len(),
    ensures
        final(s)@ == old(s)@ + v@.subrange(from as int, to as int),
{
    let mut i = from;
    while i < to
        invariant
            from <= i <= to <= v.len(),
            s@ == old(s)@ + v@.subrange(from as int, i as int),
        decreases to - i,
    {
        push_char(s, v[i]);
        i = i + 1;
        assert(v@.subrange(from as int, i as int) =~= v@.subrange(from as int, i - 1 as int).push(
            v@[i - 1],
        ));
    }
}

/// A string holding characters `v[from..to]`.
pub fn string_of(v: &Vec<char>, from: usize, to: usize) -> (s: String)
    requires
        from <= to <= v.len(),
    ensures
        s@ == v@.subrange(from as int, to as int),
{
    let mut s = String::new();
    push_chars(&mut s, v, from, to);
    assert(s@ =~= v@.subrange(from as int, to as int));
    s
}

/// Appends a string slice to a string.
pub fn append(s: &mut String, t: &str)
    ensures
        final(s)@ == old(s)@ + t@,
{
    s.append(t);
}

/// The string of a string slice.
pub fn owned(t: &str) -> (s: String)
    ensures
        s@ == t@,
{
    t.to_string()
}

// ---------------------------------------------------------------------------
// White space.
// ---------------------------------------------------------------------------

/// The characters with the Unicode property White_Space, which is what
/// `char::is_whitespace` tests.
pub open spec fn is_white(c: char) -> bool {
    ||| ('\u{9}' <= c && c <= '\u{d}')
    ||| c == ' '
    ||| c == '\u{85}'
    ||| c == '\u{a0}'
    ||| c == '\u{1680}'
    ||| ('\u{2000}' <= c && c <= '\u{200a}')
    ||| c == '\u{2028}'
    ||| c == '\u{2029}'
    ||| c == '\u{202f}'
    ||| c == '\u{205f}'
    ||| c == '\u{3000}'
}

/// Whether a character is white space.
pub fn is_whitespace(c: char) -> (res: bool)
    ensures
        res == is_white(c),
{
    ('\u{9}' <= c && c <= '\u{d}') || c == ' ' || c == '\u{85}' || c == '\u{a0}' || c
        == '\u{1680}' || ('\u{2000}' <= c && c <= '\u{200a}') || c == '\u{2028}' || c
        == '\u{2029}' || c == '\u{202f}' || c == '\u{205f}' || c == '\u{3000}'
}

/// All characters of `s` are white space.
pub open spec fn all_white(s: Seq<char>) -> bool {
    forall|i: int| 0 <= i < s.len() ==> is_white(#[trigger] s[i])
}

/// `s` with the white space at both ends removed, as `str::trim` gives it:
/// the part between the first and the last character that is not white space.
#[verifier::opaque]
pub open spec fn trimmed(s: Seq<char>) -> Seq<char> {
    if all_white(s) {
        Seq::empty()
    } else {
        let a = choose|a: int|
            0 <= a < s.len() && !is_white(s[a]) && forall|k: int| 0 <= k < a ==> is_white(s[k]);
        let b = choose|b: int|
            0 <= b < s.len() && !is_white(s[b]) && forall|k: int|
                b < k < s.len() ==> is_white(s[k]);
        s.subrange(a, b + 1)
    }
}

/// Index of the first character of `v[from..]` that is not white space, or `v.len()`.
fn skip_white(v: &Vec<char>, from: usize) -> (i: usize)
    requires
        from <= v.len(),
    ensures
        from <= i <= v.len(),
        forall|k: int| from <= k < i ==> is_white(v@[k]),
        i < v.len() ==> !is_white(v@[i as int]),
{
    let mut i = from;
    while i < v.len() && is_whitespace(v[i])
        invariant
            from <= i <= v.len(),
            forall|k: int| from <= k < i ==> is_white(v@[k]),
        decreases v.len() - i,
    {
        i = i + 1;
    }
    i
}

/// The characters of `v` with the white space at both ends removed.
pub fn trim_chars(v: &Vec<char>) -> (r: Vec<char>)
    ensures
        r@ == trimmed(v@),
{
    reveal(trimmed);
    let a = skip_white(v, 0);
    if a == v.len() {
        assert(all_white(v@));
        return Vec::new();
    }
    let mut b = v.len() - 1;
    while is_whitespace(v[b])
        invariant
            a <= b < v.len(),
            !is_white(v@[a as int]),
            forall|k: int| b < k < v.len() ==> is_white(v@[k]),
        decreases b,
    {
        b = b - 1;
    }
    let ghost s = v@;
    assert(!all_white(s));
    let ghost ca = choose|x: int|
        0 <= x < s.len() && !is_white(s[x]) && forall|k: int| 0 <= k < x ==> is_white(s[k]);
    let ghost cb = choose|x: int|
        0 <= x < s.len() && !is_white(s[x]) && forall|k: int| x < k < s.len() ==> is_white(s[k]);
    assert(ca == a) by {
        if ca < a {
        } else if ca > a {
            assert(is_white(s[a as int]));
        }
    }
    assert(cb == b) by {
        if cb < b {
            assert(is_white(s[b as int]));
        } else if cb > b {
        }
    }
    let mut r: Vec<char> = Vec::new();
    let mut i = a;
    while i <= b
        invariant
            a <= i <= b + 1,
            b < v.len(),
            r@ == v@.subrange(a as int, i as int),
        decreases b + 1 - i,
    {
        r.push(v[i]);
        i = i + 1;
    }
    r
}

/// `str::trim` on a string slice.
pub fn trim(s: &str) -> (r: String)
    ensures
        r@ == trimmed(s@),
{
    let v = chars_of(s);
    let t = trim_chars(&v);
    string_of(&t, 0, t.len())
}

// ---------------------------------------------------------------------------
// Decimal numbers.
// ---------------------------------------------------------------------------

/// The character of a decimal digit.
pub open spec fn digit_char(d: nat) -> char {
    ((d + 48) as u8) as char
}

/// The decimal digits of a natural number, as `Display` writes them.
pub open spec fn decimal(n: nat) -> Seq<char>
    decreases n,
{
    if n < 10 {
        seq![digit_char(n)]
    } else {
        decimal(n / 10).push(digit_char(n % 10))
    }
}

/// An integer as `Display` writes it: a minus sign before negative numbers.
pub open spec fn signed_decimal(n: int) -> Seq<char> {
    if n < 0 {
        seq!['-'] + decimal((-n) as nat)
    } else {
        decimal(n as nat)
    }
}

/// Appends the decimal digits of `n`.
pub fn push_decimal(s: &mut String, n: u64)
    ensures
        final(s)@ == old(s)@ + decimal(n as nat),
    decreases n,
{
    if n >= 10 {
        push_decimal(s, n / 10);
    }
    let d: u8 = (n % 10) as u8;
    push_char(s, (d + 48) as char);
    assert(s@ =~= old(s)@ + decimal(n as nat));
}

/// `usize::to_string`.
pub fn usize_to_string(n: usize) -> (s: String)
    ensures
        s@ == decimal(n as nat),
{
    let mut s = String::new();
    push_decimal(&mut s, n as u64);
    assert(s@ =~= decimal(n as nat));
    s
}

/// `i32::to_string`.
pub fn i32_to_string(n: i32) -> (s: String)
    ensures
        s@ == signed_decimal(n as int),
{
    let mut s = String::new();
    if n < 0 {
        push_char(&mut s, '-');
        let m: i64 = -(n as i64);
        push_decimal(&mut s, m as u64);
    } else {
        push_decimal(&mut s, n as u64);
    }
    assert(s@ =~= signed_decimal(n as int));
    s
}

/// A decimal digit character.
pub open spec fn is_digit(c: char) -> bool {
    '0' <= c && c <= '9'
}

/// The value of a sequence of decimal digits.
pub open spec fn digits_value(s: Seq<char>) -> nat
    decreases s.len(),
{
    if s.len() == 0 {
        0
    } else {
        digits_value(s.drop_last()) * 10 + ((s.last() as int - 48) as nat)
    }
}

/// The digits of a number text after an optional leading sign, when at
/// least one character follows the sign.
pub open spec fn unsigned_body(s: Seq<char>) -> Seq<char> {
    if s.len() > 1 && s[0] == '+' {
        s.drop_first()
    } else {
        s
    }
}

/// The number a text denotes as `usize::from_str` reads it: an optional `+`
/// and at least one decimal digit; `None` where the text is not of that form.
pub open spec fn unsigned_text(s: Seq<char>) -> Option<nat> {
    let d = unsigned_body(s);
    if d.len() > 0 && forall|i: int| 0 <= i < d.len() ==> is_digit(#[trigger] d[i]) {
        Some(digits_value(d))
    } else {
        None
    }
}

/// The number a text denotes as `i32::from_str` reads it: an optional `+` or
/// `-` and at least one decimal digit.
pub open spec fn signed_text(s: Seq<char>) -> Option<int> {
    if s.len() > 1 && s[0] == '-' {
        let d = s.drop_first();
        if forall|i: int| 0 <= i < d.len() ==> is_digit(#[trigger] d[i]) {
            Some(-(digits_value(d) as int))
        } else {
            None
        }
    } else {
        match unsigned_text(s) {
            Some(v) => Some(v as int),
            None => None,
        }
    }
}

proof fn lemma_digits_value_monotone(s: Seq<char>, i: int)
    requires
        0 <= i <= s.len(),
    ensures
        digits_value(s.take(i)) <= digits_value(s),
    decreases s.len() - i,
{
    if i < s.len() {
        lemma_digits_value_monotone(s, i + 1);
        assert(s.take(i + 1).drop_last() =~= s.take(i));
    } else {
        assert(s.take(i) =~= s);
    }
}

/// The value of the digits `v[from..]`, when every one is a digit and the
/// value is at most `limit`.
fn digits_up_to(v: &Vec<char>, from: usize, limit: u64) -> (r: Option<u64>)
    requires
        from <= v.len(),
    ensures
        match r {
            Some(x) => (forall|i: int| 0 <= i < v@.skip(from as int).len() ==> is_digit(
                #[trigger] v@.skip(from as int)[i],
            )) && x == digits_value(v@.skip(from as int)) && x <= limit,
            None => !(forall|i: int| 0 <= i < v@.skip(from as int).len() ==> is_digit(
                #[trigger] v@.skip(from as int)[i],
            )) || digits_value(v@.skip(from as int)) > limit,
        },
{
    let ghost d = v@.skip(from as int);
    let mut acc: u64 = 0;
    let mut i = from;
    assert(d.take(0) =~= Seq::<char>::empty());
    while i < v.len()
        invariant
            from <= i <= v.len(),
            d == v@.skip(from as int),
            forall|k: int| 0 <= k < i - from ==> is_digit(#[trigger] d[k]),
            acc == digits_value(d.take(i - from)),
            acc <= limit,
        decreases v.len() - i,
    {
        let c = v[i];
        if !('0' <= c && c <= '9') {
            assert(!is_digit(d[i - from]));
            return None;
        }
        let dv: u64 = (c as u32 - 48) as u64;
        assert(d.take(i + 1 - from).drop_last() =~= d.take(i - from));
        if dv > limit || acc > (limit - dv) / 10 {
            proof {
                assert(acc * 10 + dv > limit) by (nonlinear_arith)
                    requires dv > limit || acc > (limit - dv) / 10, acc >= 0;
                lemma_digits_value_monotone(d, i + 1 - from);
            }
            return None;
        }
        proof {
            assert(acc * 10 + dv <= limit) by (nonlinear_arith)
                requires acc <= (limit - dv) / 10, dv <= limit;
        }
        acc = acc * 10 + dv;
        i = i + 1;
    }
    assert(d.take(i - from) =~= d);
    Some(acc)
}


/// `usize::from_str` on the characters of a text.
pub fn parse_usize(s: &Vec<char>) -> (r: Option<usize>)
    ensures
        match unsigned_text(s@) {
            Some(v) => if v <= usize::MAX {
                r == Some(v as usize)
            } else {
                r is None
            },
            None => r is None,
        },
{
    if s.len() == 0 {
        return None;
    }
    let from: usize = if s.len() > 1 && s[0] == '+' { 1 } else { 0 };
    assert(s@.skip(from as int) =~= unsigned_body(s@));
    match digits_up_to(s, from, usize::MAX as u64) {
        Some(x) => Some(x as usize),
        None => None,
    }
}

/// `i32::from_str` on the characters of a text.
pub fn parse_i32(s: &Vec<char>) -> (r: Option<i32>)
    ensures
        match signed_text(s@) {
            Some(v) => if i32::MIN <= v <= i32::MAX {
                r == Some(v as i32)
            } else {
                r is None
            },
            None => r is None,
        },
{
    if s.len() == 0 {
        return None;
    }
    if s.len() > 1 && s[0] == '-' {
        assert(s@.skip(1) =~= s@.drop_first());
        match digits_up_to(s, 1, 0x8000_0000u64) {
            Some(x) => {
                let m: i64 = -(x as i64);
                Some(m as i32)
            },
            None => None,
        }
    } else {
        let from: usize = if s.len() > 1 && s[0] == '+' { 1 } else { 0 };
        assert(s@.skip(from as int) =~= unsigned_body(s@));
        match digits_up_to(s, from, 0x7fff_ffffu64) {
            Some(x) => Some(x as i32),
            None => None,
        }
    }
}


// ---------------------------------------------------------------------------
// Lines.
// ---------------------------------------------------------------------------

/// A line without the `\r` that ends it, if any.
pub open spec fn strip_cr(l: Seq<char>) -> Seq<char> {
    if l.len() > 0 && l.last() == '\r' {
        l.drop_last()
    } else {
        l
    }
}

/// The characters after the last line break.
pub open spec fn line_tail(s: Seq<char>) -> Seq<char>
    decreases s.len(),
{
    if s.len() == 0 {
        Seq::empty()
    } else if s.last() == '\n' {
        Seq::empty()
    } else {
        line_tail(s.drop_last()).push(s.last())
    }
}

/// The lines that a line break ends, each without its `\n` or `\r\n`.
pub open spec fn ended_lines(s: Seq<char>) -> Seq<Seq<char>>
    decreases s.len(),
{
    if s.len() == 0 {
        Seq::empty()
    } else if s.last() == '\n' {
        ended_lines(s.drop_last()).push(strip_cr(line_tail(s.drop_last())))
    } else {
        ended_lines(s.drop_last())
    }
}

/// The lines of a text as `str::lines` gives them: split at `\n` or
/// `\r\n`, with no line after a final line break.
pub open spec fn text_lines(s: Seq<char>) -> Seq<Seq<char>> {
    if line_tail(s).len() > 0 {
        ended_lines(s).push(line_tail(s))
    } else {
        ended_lines(s)
    }
}

/// The characters of `v` without a final `\r`.
fn strip_cr_chars(v: Vec<char>) -> (r: Vec<char>)
    ensures
        r@ == strip_cr(v@),
{
    let ghost v0 = v@;
    let mut v = v;
    if v.len() > 0 && v[v.len() - 1] == '\r' {
        v.pop();
        assert(v@ =~= strip_cr(v0));
    }
    v
}

/// `str::lines` on the characters of a text.
pub fn split_lines(s: &Vec<char>) -> (r: Vec<Vec<char>>)
    ensures
        r.deep_view() == text_lines(s@),
{
    let mut done: Vec<Vec<char>> = Vec::new();
    let mut cur: Vec<char> = Vec::new();
    let mut i: usize = 0;
    while i < s.len()
        invariant
            i <= s@.len(),
            done.deep_view() == ended_lines(s@.take(i as int)),
            cur@ == line_tail(s@.take(i as int)),
        decreases s.len() - i,
    {
        let c = s[i];
        assert(s@.take(i + 1).drop_last() =~= s@.take(i as int));
        assert(s@.take(i + 1).last() == c);
        if c == '\n' {
            let line = strip_cr_chars(cur);
            assert(line.deep_view() =~= line@);
            crate::strmap::push_deep(&mut done, line);
            cur = Vec::new();
            assert(cur@ =~= line_tail(s@.take(i + 1)));
        } else {
            cur.push(c);
        }
        i = i + 1;
    }
    assert(s@.take(i as int) =~= s@);
    if cur.len() > 0 {
        assert(cur.deep_view() =~= cur@);
        crate::strmap::push_deep(&mut done, cur);
    }
    assert(done.deep_view() =~= text_lines(s@));
    done
}

} // verus!
