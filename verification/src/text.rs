//! Decimal rendering of integers for exception messages.

use vstd::prelude::*;

verus! {

/// The ASCII digit for `d < 10`.
pub open spec fn digit_char(d: nat) -> char {
    if d == 0 {
        '0'
    } else if d == 1 {
        '1'
    } else if d == 2 {
        '2'
    } else if d == 3 {
        '3'
    } else if d == 4 {
        '4'
    } else if d == 5 {
        '5'
    } else if d == 6 {
        '6'
    } else if d == 7 {
        '7'
    } else if d == 8 {
        '8'
    } else {
        '9'
    }
}

/// The decimal digits of `n`, most significant first, without leading zeros.
pub open spec fn digits_of(n: nat) -> Seq<char>
    decreases n,
{
    if n < 10 {
        seq![digit_char(n)]
    } else {
        digits_of(n / 10).push(digit_char(n % 10))
    }
}

/// Java's `Integer.toString` / `Long.toString` text of `v`.
pub open spec fn decimal_spec(v: int) -> Seq<char> {
    if v < 0 {
        seq!['-'] + digits_of((-v) as nat)
    } else {
        digits_of(v as nat)
    }
}

fn digit_str(d: u64) -> (r: &'static str)
    requires
        d < 10,
    ensures
        r@ == seq![digit_char(d as nat)],
{
    proof {
        reveal_strlit("0");
        reveal_strlit("1");
        reveal_strlit("2");
        reveal_strlit("3");
        reveal_strlit("4");
        reveal_strlit("5");
        reveal_strlit("6");
        reveal_strlit("7");
        reveal_strlit("8");
        reveal_strlit("9");
    }
    if d == 0 {
        "0"
    } else if d == 1 {
        "1"
    } else if d == 2 {
        "2"
    } else if d == 3 {
        "3"
    } else if d == 4 {
        "4"
    } else if d == 5 {
        "5"
    } else if d == 6 {
        "6"
    } else if d == 7 {
        "7"
    } else if d == 8 {
        "8"
    } else {
        "9"
    }
}

fn append_digits(text: &mut String, n: u64)
    ensures
        final(text)@ == old(text)@ + digits_of(n as nat),
    decreases n,
{
    if n >= 10 {
        append_digits(text, n / 10);
    }
    text.append(digit_str(n % 10));
    proof {
        if n >= 10 {
            assert(old(text)@ + digits_of((n / 10) as nat) + seq![digit_char((n % 10) as nat)] =~= old(text)@
                + digits_of(n as nat));
        } else {
            assert(digits_of(n as nat) =~= seq![digit_char(n as nat)]);
        }
    }
}

/// `text` followed by the decimal form of `v`.
pub fn with_decimal(text: &str, v: i64) -> (r: String)
    ensures
        r@ == text@ + decimal_spec(v as int),
{
    let mut out = String::from_str(text);
    if v < 0 {
        out.append("-");
        let magnitude: u64 = if v == i64::MIN { 0x8000_0000_0000_0000u64 } else { (-v) as u64 };
        append_digits(&mut out, magnitude);
        proof {
            reveal_strlit("-");
            assert(text@ + seq!['-'] + digits_of(magnitude as nat) =~= text@ + decimal_spec(v as int));
        }
    } else {
        append_digits(&mut out, v as u64);
    }
    out
}

/// `text` followed by the decimal form of `v`.
pub fn with_count(text: &str, v: u64) -> (r: String)
    ensures
        r@ == text@ + decimal_spec(v as int),
{
    let mut out = String::from_str(text);
    append_digits(&mut out, v);
    out
}

} // verus!

verus! {

/// The text of a character sequence.
pub fn text_of(chars: &Vec<char>) -> (r: String)
    ensures
        r@ == chars@,
{
    let mut s = String::new();
    let mut i: usize = 0;
    while i < chars.len()
        invariant
            i <= chars@.len(),
            s@ == chars@.subrange(0, i as int),
        decreases chars@.len() - i,
    {
        let one = char_text(chars[i]);
        s.append(one.as_str());
        i += 1;
        assert(s@ =~= chars@.subrange(0, i as int));
    }
    assert(chars@.subrange(0, i as int) =~= chars@);
    s
}

/// `char::to_string`: the one-character text.
#[verifier::external_body]
pub fn char_text(c: char) -> (r: String)
    ensures
        r@ == seq![c],
{
    c.to_string()
}

/// The characters of `s`, in order.
pub fn str_chars(s: &str) -> (r: Vec<char>)
    ensures
        r@ == s@,
{
    let n = s.unicode_len();
    let mut out: Vec<char> = Vec::new();
    let mut i: usize = 0;
    while i < n
        invariant
            n == s@.len(),
            i <= n,
            out@ == s@.subrange(0, i as int),
        decreases n - i,
    {
        out.push(s.get_char(i));
        i += 1;
        assert(out@ =~= s@.subrange(0, i as int));
    }
    assert(out@ =~= s@);
    out
}

/// Whether `chars[from..to]` spells exactly `literal`.
pub fn chars_eq(chars: &[char], from: usize, to: usize, literal: &str) -> (r: bool)
    requires
        from <= to <= chars@.len(),
    ensures
        r == (chars@.subrange(from as int, to as int) == literal@),
{
    let n = literal.unicode_len();
    if to - from != n {
        assert(chars@.subrange(from as int, to as int).len() != literal@.len());
        return false;
    }
    let mut i: usize = 0;
    while i < n
        invariant
            n == literal@.len(),
            to - from == n,
            from <= to <= chars@.len(),
            i <= n,
            forall|j: int| 0 <= j < i ==> chars@[from + j] == literal@[j],
        decreases n - i,
    {
        if chars[from + i] != literal.get_char(i) {
            assert(chars@.subrange(from as int, to as int)[i as int] != literal@[i as int]);
            return false;
        }
        i += 1;
    }
    assert(chars@.subrange(from as int, to as int) =~= literal@);
    true
}

/// Unicode's lowercase mapping of one character, which may be several
/// characters long.
pub uninterp spec fn lowercase_of(c: char) -> Seq<char>;

/// `char::to_lowercase`: the full Unicode lowercase mapping. Its ASCII part,
/// which the standard library documents, is stated: `A`–`Z` map to `a`–`z`
/// and every other ASCII character maps to itself.
#[verifier::external_body]
pub fn lowercase(c: char) -> (r: Vec<char>)
    ensures
        r@ == lowercase_of(c),
        'A' <= c <= 'Z' ==> r@ == seq![((c as u32) + 32) as char],
        (c as u32) < 128 && !('A' <= c <= 'Z') ==> r@ == seq![c],
{
    c.to_lowercase().collect()
}

/// Unicode's `White_Space` property.
pub uninterp spec fn white_space(c: char) -> bool;

/// `char::is_whitespace`. Its ASCII part is stated: tab, line feed, vertical
/// tab, form feed, carriage return and space, and no other ASCII character.
#[verifier::external_body]
pub fn is_whitespace(c: char) -> (r: bool)
    ensures
        r == white_space(c),
        (c as u32) < 128 ==> (r <==> (9 <= (c as u32) <= 13 || c == ' ')),
{
    c.is_whitespace()
}

/// Whether `c` is an ASCII lowercase letter.
pub open spec fn is_ascii_lower(c: char) -> bool {
    'a' <= c <= 'z'
}

/// Whether `c` is an ASCII decimal digit.
pub open spec fn is_ascii_digit(c: char) -> bool {
    '0' <= c <= '9'
}

/// The index of the first non-whitespace character at or after `from`.
pub open spec fn skip_space(s: Seq<char>, from: int) -> int
    decreases s.len() - from,
{
    if from >= s.len() || !white_space(s[from]) {
        from
    } else {
        skip_space(s, from + 1)
    }
}

/// The index just past the last non-whitespace character before `to`, no
/// lower than `from`.
pub open spec fn back_space(s: Seq<char>, from: int, to: int) -> int
    decreases to - from,
{
    if to <= from || !white_space(s[to - 1]) {
        to
    } else {
        back_space(s, from, to - 1)
    }
}

/// `str::trim` on `s[from..to]`: the bounds of what remains once leading and
/// trailing whitespace is removed.
pub open spec fn trim_bounds(s: Seq<char>, from: int, to: int) -> (int, int) {
    let start = skip_space(s.subrange(0, to), from);
    (start, back_space(s, start, to))
}

/// The trimmed bounds of `chars[from..to]`.
pub fn trim(chars: &[char], from: usize, to: usize) -> (r: (usize, usize))
    requires
        from <= to <= chars@.len(),
    ensures
        (r.0 as int, r.1 as int) == trim_bounds(chars@, from as int, to as int),
        from <= r.0 <= r.1 <= to,
{
    let ghost upto = chars@.subrange(0, to as int);
    let mut start = from;
    while start < to && is_whitespace(chars[start])
        invariant
            from <= start <= to <= chars@.len(),
            upto == chars@.subrange(0, to as int),
            skip_space(upto, from as int) == skip_space(upto, start as int),
        decreases to - start,
    {
        start += 1;
    }
    let mut end = to;
    while end > start && is_whitespace(chars[end - 1])
        invariant
            start <= end <= to <= chars@.len(),
            back_space(chars@, start as int, to as int) == back_space(chars@, start as int, end as int),
        decreases end - start,
    {
        end -= 1;
    }
    (start, end)
}

/// `s` with `_`, `-` and spaces removed and every character lowercased, as
/// key and action names are compared.
pub open spec fn canonical_name(s: Seq<char>) -> Seq<char>
    decreases s.len(),
{
    if s.len() == 0 {
        s
    } else {
        let c = s.last();
        canonical_name(s.drop_last()) + if c == '_' || c == '-' || c == ' ' {
            Seq::<char>::empty()
        } else {
            lowercase_of(c)
        }
    }
}

/// The canonical form of `chars[from..to]`.
pub fn canonicalize(chars: &[char], from: usize, to: usize) -> (r: Vec<char>)
    requires
        from <= to <= chars@.len(),
    ensures
        r@ == canonical_name(chars@.subrange(from as int, to as int)),
{
    let mut out: Vec<char> = Vec::new();
    let mut i = from;
    while i < to
        invariant
            from <= i <= to <= chars@.len(),
            out@ == canonical_name(chars@.subrange(from as int, i as int)),
        decreases to - i,
    {
        let c = chars[i];
        proof {
            assert(chars@.subrange(from as int, i + 1).drop_last() =~= chars@.subrange(from as int, i as int));
        }
        if !(c == '_' || c == '-' || c == ' ') {
            let mut lower = lowercase(c);
            out.append(&mut lower);
        }
        proof {
            assert(out@ =~= canonical_name(chars@.subrange(from as int, i + 1)));
        }
        i += 1;
    }
    out
}

/// Trimming a window of a text is trimming the window on its own.
pub proof fn lemma_trim_shift(s: Seq<char>, from: int, to: int)
    requires
        0 <= from <= to <= s.len(),
    ensures
        ({
            let w = s.subrange(from, to);
            let (a, b) = trim_bounds(s, from, to);
            let (c, d) = trim_bounds(w, 0, w.len() as int);
            a == c + from && b == d + from
        }),
{
    let w = s.subrange(from, to);
    let prefix = s.subrange(0, to);
    assert(prefix.subrange(from, prefix.len() as int) =~= w);
    assert(w.subrange(0, w.len() as int) =~= w);
    lemma_skip_shift(prefix, w, from, from);
    let start = skip_space(prefix, from);
    lemma_skip_bounds(prefix, from);
    lemma_back_shift(s, w, from, start, to);
}

proof fn lemma_skip_bounds(s: Seq<char>, i: int)
    requires
        0 <= i <= s.len(),
    ensures
        i <= skip_space(s, i) <= s.len(),
    decreases s.len() - i,
{
    if i < s.len() && white_space(s[i]) {
        lemma_skip_bounds(s, i + 1);
    }
}

proof fn lemma_skip_shift(s: Seq<char>, w: Seq<char>, base: int, i: int)
    requires
        0 <= base <= i <= s.len(),
        w == s.subrange(base, s.len() as int),
    ensures
        skip_space(s, i) == skip_space(w, i - base) + base,
    decreases s.len() - i,
{
    if i < s.len() {
        assert(w[i - base] == s[i]);
        if white_space(s[i]) {
            lemma_skip_shift(s, w, base, i + 1);
        }
    }
}

proof fn lemma_back_shift(s: Seq<char>, w: Seq<char>, base: int, from: int, to: int)
    requires
        0 <= base <= from <= to <= s.len(),
        to - base <= w.len(),
        forall|k: int| 0 <= k < w.len() ==> #[trigger] w[k] == s[k + base],
    ensures
        back_space(s, from, to) == back_space(w, from - base, to - base) + base,
    decreases to - from,
{
    if to > from {
        assert(w[to - base - 1] == s[to - 1]);
        if white_space(s[to - 1]) {
            lemma_back_shift(s, w, base, from, to - 1);
        }
    }
}

} // verus!

verus! {

/// Lexicographic order of texts by code point, which is the order of their
/// UTF-8 bytes.
pub open spec fn text_less(a: Seq<char>, b: Seq<char>) -> bool
    decreases a.len(),
{
    if a.len() == 0 {
        b.len() > 0
    } else if b.len() == 0 {
        false
    } else if a[0] != b[0] {
        a[0] < b[0]
    } else {
        text_less(a.drop_first(), b.drop_first())
    }
}

/// Whether `a` sorts strictly before `b`.
pub fn text_before(a: &str, b: &str) -> (r: bool)
    ensures
        r == text_less(a@, b@),
{
    let x = str_chars(a);
    let y = str_chars(b);
    let mut i: usize = 0;
    proof {
        assert(x@.subrange(0, x@.len() as int) =~= x@);
        assert(y@.subrange(0, y@.len() as int) =~= y@);
    }
    while i < x.len() && i < y.len() && x[i] == y[i]
        invariant
            i <= x@.len(),
            i <= y@.len(),
            x@ == a@,
            y@ == b@,
            text_less(a@, b@) == text_less(x@.subrange(i as int, x@.len() as int), y@.subrange(i as int, y@.len() as int)),
        decreases x@.len() - i,
    {
        proof {
            assert(x@.subrange(i as int, x@.len() as int).drop_first() =~= x@.subrange(i + 1, x@.len() as int));
            assert(y@.subrange(i as int, y@.len() as int).drop_first() =~= y@.subrange(i + 1, y@.len() as int));
        }
        i += 1;
    }
    proof {
        let rx = x@.subrange(i as int, x@.len() as int);
        let ry = y@.subrange(i as int, y@.len() as int);
        if i < x@.len() && i < y@.len() {
            assert(rx[0] == x@[i as int] && ry[0] == y@[i as int]);
        }
    }
    if i == x.len() {
        i < y.len()
    } else if i == y.len() {
        false
    } else {
        x[i] < y[i]
    }
}

/// The text `{:?}` renders for a string: quoted, with escapes.
pub uninterp spec fn debug_text(s: Seq<char>) -> Seq<char>;

/// Whether `c` is printable ASCII that `{:?}` leaves as it is.
pub open spec fn plain_ascii(c: char) -> bool {
    ' ' <= c <= '~' && c != '"' && c != '\\'
}

/// `<str as Debug>::fmt`, through `format!("{:?}")`. The result is named by
/// `debug_text`; for text of printable ASCII without quotes or backslashes,
/// which `char::escape_debug` documents as passing through unchanged, it is
/// the text between double quotes.
#[verifier::external_body]
pub fn debug_quoted(s: &str) -> (r: String)
    ensures
        r@ == debug_text(s@),
        (forall|i: int| 0 <= i < s@.len() ==> plain_ascii(#[trigger] s@[i])) ==> r@ == seq!['"'] + s@ + seq!['"'],
{
    format!("{:?}", s)
}

/// Two different texts are ordered one way or the other, and never both.
pub proof fn lemma_text_order(a: Seq<char>, b: Seq<char>)
    ensures
        a != b ==> (text_less(a, b) || text_less(b, a)),
        !(text_less(a, b) && text_less(b, a)),
        !text_less(a, a),
    decreases a.len(),
{
    if a.len() > 0 && b.len() > 0 && a[0] == b[0] {
        lemma_text_order(a.drop_first(), b.drop_first());
        if a.drop_first() =~= b.drop_first() {
            assert(a =~= b) by {
                assert forall|i: int| 0 <= i < a.len() implies a[i] == b[i] by {
                    if i > 0 {
                        assert(a[i] == a.drop_first()[i - 1]);
                        assert(b[i] == b.drop_first()[i - 1]);
                    }
                }
            }
        }
    }

    if a.len() > 0 {
        lemma_text_order(a.drop_first(), a.drop_first());
    }
    if a.len() == 0 && b.len() == 0 {
        assert(a =~= b);
    }
}

} // verus!
