//! A tiny reader for the optional `[keymap]` override table.
//!
//! The format is a flat subset of TOML — exactly what a `[keymap]` table in
//! `game.toml`, or a standalone `keymap.toml`, needs:
//!
//! ```toml
//! [keymap]
//! preset = "mobile"       # "mobile" (default) or "standard"
//!
//! # key-name = binding, where a binding is an action name, a raw code,
//! # or "none"/"unbind" to clear a preset binding. Values containing `#` or `*`
//! # must be quoted (an unquoted `#` starts a comment).
//! KeyH   = "SoftLeft"     # bind H to the left soft key by action name
//! KeyJ   = -5             # ...or by raw code (Fire)
//! KeyQ   = "none"         # unbind Q
//! Comma  = "*"            # a symbol action, quoted
//! ```
//!
//! When the text contains no `[section]` header at all, the whole document is
//! treated as the keymap table (the standalone `keymap.toml` case). Otherwise
//! only lines inside `[keymap]` are read and every other section is ignored, so
//! the entire `game.toml` can be handed in as-is.

use vstd::prelude::*;
use crate::device::HandsetKey;
use crate::input::nokia::{action_from_name_spec, Action};
use crate::input::preset::{ascii_lowercase, ascii_lowercase_spec, key_from_chars, key_from_name_spec, preset_from_name_spec, Preset};
use crate::input::KeyCode;
use crate::text::{chars_eq, decimal_spec, is_ascii_digit, str_chars, trim, trim_bounds, with_decimal};

verus! {

/// What a key is bound to: a handset key by name, or a raw device code.
#[derive(Clone, Copy, Debug, PartialEq, Eq, Structural)]
pub enum KeyBinding {
    Handset(HandsetKey),
    Raw(i32),
}

/// A parsed `[keymap]` table: an optional preset selection plus the explicit
/// per-key overrides, in file order. A binding of `None` is an explicit unbind.
#[derive(Clone, Debug, PartialEq, Eq)]
pub struct KeymapConfig {
    /// The `preset = "..."` selection, if the table set one.
    pub preset: Option<Preset>,
    /// `(physical key, binding)` overrides; `None` clears the preset binding.
    pub bindings: Vec<(KeyCode, Option<KeyBinding>)>,
    /// The 1-based line each override was read from, in the same order.
    pub lines: Vec<usize>,
}

/// A problem found while parsing a keymap config, with the 1-based line number.
#[derive(Clone, Debug, PartialEq, Eq)]
pub struct ConfigError {
    /// 1-based line number the problem was found on.
    pub line: usize,
    /// Human-readable description of the problem.
    pub message: String,
}

impl Action {
    /// The handset key this action presses.
    pub fn handset_key(self) -> (r: HandsetKey)
        ensures
            r == action_key(self),
    {
        match self {
            Action::Up => HandsetKey::Up,
            Action::Down => HandsetKey::Down,
            Action::Left => HandsetKey::Left,
            Action::Right => HandsetKey::Right,
            Action::Fire => HandsetKey::Fire,
            Action::SoftLeft => HandsetKey::SoftLeft,
            Action::SoftRight => HandsetKey::SoftRight,
            Action::Digit(n) => HandsetKey::Digit(n),
            Action::Star => HandsetKey::Star,
            Action::Pound => HandsetKey::Pound,
        }
    }
}

pub open spec fn action_key(a: Action) -> HandsetKey {
    match a {
        Action::Up => HandsetKey::Up,
        Action::Down => HandsetKey::Down,
        Action::Left => HandsetKey::Left,
        Action::Right => HandsetKey::Right,
        Action::Fire => HandsetKey::Fire,
        Action::SoftLeft => HandsetKey::SoftLeft,
        Action::SoftRight => HandsetKey::SoftRight,
        Action::Digit(n) => HandsetKey::Digit(n),
        Action::Star => HandsetKey::Star,
        Action::Pound => HandsetKey::Pound,
    }
}

// ---------------------------------------------------------------- lines

/// The first `'\n'` at or after `from`, or the end.
pub open spec fn newline_at(s: Seq<char>, from: int) -> int
    decreases s.len() - from,
{
    if from >= s.len() || s[from] == '\n' {
        from
    } else {
        newline_at(s, from + 1)
    }
}

/// Where the line that starts at `from` ends: before its `'\n'`, and
/// before a `'\r'` that precedes that `'\n'` (as `str::lines` splits).
pub open spec fn line_end_spec(s: Seq<char>, from: int) -> int {
    let nl = newline_at(s, from);
    if from < nl < s.len() && s[nl - 1] == '\r' {
        nl - 1
    } else {
        nl
    }
}

pub proof fn lemma_newline_bounds(s: Seq<char>, from: int)
    requires
        0 <= from <= s.len(),
    ensures
        from <= newline_at(s, from) <= s.len(),
        newline_at(s, from) < s.len() ==> s[newline_at(s, from)] == '\n',
        forall|k: int| from <= k < newline_at(s, from) ==> s[k] != '\n',
    decreases s.len() - from,
{
    if from < s.len() && s[from] != '\n' {
        lemma_newline_bounds(s, from + 1);
    }
}

// ---------------------------------------------------------------- comments

/// Where a TOML comment starts in `s[i..to]`: the first `#` outside a
/// quoted run, scanning with `quote` as the open quote character.
pub open spec fn comment_cut(s: Seq<char>, i: int, to: int, quote: Option<char>) -> int
    decreases to - i,
{
    if i >= to {
        to
    } else {
        let c = s[i];
        match quote {
            Some(q) => comment_cut(s, i + 1, to, if c == q { None } else { Some(q) }),
            None => if c == '"' || c == '\'' {
                comment_cut(s, i + 1, to, Some(c))
            } else if c == '#' {
                i
            } else {
                comment_cut(s, i + 1, to, None)
            },
        }
    }
}

/// The end of `s[from..to]` before its first unquoted `#`.
fn strip_comment(s: &[char], from: usize, to: usize) -> (r: usize)
    requires
        from <= to <= s@.len(),
    ensures
        r == comment_cut(s@, from as int, to as int, None),
        from <= r <= to,
{
    let mut quote: Option<char> = None;
    let mut i = from;
    while i < to
        invariant
            from <= i <= to <= s@.len(),
            comment_cut(s@, from as int, to as int, None) == comment_cut(s@, i as int, to as int, quote),
        decreases to - i,
    {
        let c = s[i];
        match quote {
            Some(q) => {
                if c == q {
                    quote = None;
                }
            },
            None => {
                if c == '"' || c == '\'' {
                    quote = Some(c);
                } else if c == '#' {
                    return i;
                }
            },
        }
        i += 1;
    }
    to
}

// ---------------------------------------------------------------- headers

/// Whether `c` is a bracket.
pub open spec fn is_bracket(c: char) -> bool {
    c == '[' || c == ']'
}

/// The first index at or after `from` (before `to`) that is not a bracket.
pub open spec fn skip_brackets(s: Seq<char>, from: int, to: int) -> int
    decreases to - from,
{
    if from >= to || !is_bracket(s[from]) { from } else { skip_brackets(s, from + 1, to) }
}

/// The index after the last non-bracket before `to`, no lower than `from`.
pub open spec fn back_brackets(s: Seq<char>, from: int, to: int) -> int
    decreases to - from,
{
    if to <= from || !is_bracket(s[to - 1]) { to } else { back_brackets(s, from, to - 1) }
}

/// `[name]` -> the bounds of `name`, with whitespace and stray brackets
/// trimmed (so `[[array]]` headers give `array`); anything else -> `None`.
pub open spec fn section_spec(s: Seq<char>, from: int, to: int) -> Option<(int, int)> {
    if to - from >= 2 && s[from] == '[' && s[to - 1] == ']' {
        let (a, b) = trim_bounds(s, from + 1, to - 1);
        let c = skip_brackets(s, a, b);
        let d = back_brackets(s, c, b);
        Some(trim_bounds(s, c, d))
    } else {
        None
    }
}

fn section_header(s: &[char], from: usize, to: usize) -> (r: Option<(usize, usize)>)
    requires
        from <= to <= s@.len(),
    ensures
        match section_spec(s@, from as int, to as int) {
            Some((a, b)) => r matches Some((x, y)) && x == a && y == b && from <= x <= y <= to,
            None => r is None,
        },
{
    if to - from < 2 || s[from] != '[' || s[to - 1] != ']' {
        return None;
    }
    let (a, b) = trim(s, from + 1, to - 1);
    let mut c = a;
    while c < b && (s[c] == '[' || s[c] == ']')
        invariant
            a <= c <= b <= s@.len(),
            skip_brackets(s@, a as int, b as int) == skip_brackets(s@, c as int, b as int),
        decreases b - c,
    {
        c += 1;
    }
    let mut d = b;
    while d > c && (s[d - 1] == '[' || s[d - 1] == ']')
        invariant
            c <= d <= b <= s@.len(),
            back_brackets(s@, c as int, b as int) == back_brackets(s@, c as int, d as int),
        decreases d - c,
    {
        d -= 1;
    }
    Some(trim(s, c, d))
}

// ---------------------------------------------------------------- key = value

/// The first `'='` in `s[from..to]`, if any.
pub open spec fn equals_at(s: Seq<char>, from: int, to: int) -> Option<int>
    decreases to - from,
{
    if from >= to {
        None
    } else if s[from] == '=' {
        Some(from)
    } else {
        equals_at(s, from + 1, to)
    }
}

/// `key = value` on the first `=`: the trimmed bounds of both sides, or
/// `None` without an `=` or with an empty key.
pub open spec fn split_kv_spec(s: Seq<char>, from: int, to: int) -> Option<((int, int), (int, int))> {
    match equals_at(s, from, to) {
        None => None,
        Some(eq) => {
            let lhs = trim_bounds(s, from, eq);
            if lhs.0 == lhs.1 {
                None
            } else {
                Some((lhs, trim_bounds(s, eq + 1, to)))
            }
        },
    }
}

fn split_kv(s: &[char], from: usize, to: usize) -> (r: Option<((usize, usize), (usize, usize))>)
    requires
        from <= to <= s@.len(),
    ensures
        match split_kv_spec(s@, from as int, to as int) {
            Some((l, v)) => r matches Some((x, y)) && x.0 == l.0 && x.1 == l.1 && y.0 == v.0 && y.1 == v.1 && from
                <= x.0 <= x.1 <= to && from <= y.0 <= y.1 <= to,
            None => r is None,
        },
{
    let mut eq = from;
    while eq < to && s[eq] != '='
        invariant
            from <= eq <= to <= s@.len(),
            equals_at(s@, from as int, to as int) == equals_at(s@, eq as int, to as int),
        decreases to - eq,
    {
        eq += 1;
    }
    if eq == to {
        return None;
    }
    let lhs = trim(s, from, eq);
    if lhs.0 == lhs.1 {
        return None;
    }
    Some((lhs, trim(s, eq + 1, to)))
}

/// Strip one layer of matching `"` or `'` quotes from the trimmed text.
pub open spec fn unquote_spec(s: Seq<char>, from: int, to: int) -> (int, int) {
    let (a, b) = trim_bounds(s, from, to);
    if b - a >= 2 && (s[a] == '"' || s[a] == '\'') && s[a] == s[b - 1] {
        (a + 1, b - 1)
    } else {
        (a, b)
    }
}

fn unquote(s: &[char], from: usize, to: usize) -> (r: (usize, usize))
    requires
        from <= to <= s@.len(),
    ensures
        (r.0 as int, r.1 as int) == unquote_spec(s@, from as int, to as int),
        from <= r.0 <= r.1 <= to,
{
    let (a, b) = trim(s, from, to);
    if b - a >= 2 && (s[a] == '"' || s[a] == '\'') && s[a] == s[b - 1] {
        (a + 1, b - 1)
    } else {
        (a, b)
    }
}

// ---------------------------------------------------------------- integers

/// The value of a run of ASCII digits.
pub open spec fn decimal_value(s: Seq<char>) -> nat
    decreases s.len(),
{
    if s.len() == 0 { 0 } else { decimal_value(s.drop_last()) * 10 + ((s.last() as u32) - 48) as nat }
}

/// `s` without one leading `+` or `-`.
pub open spec fn unsigned_part(s: Seq<char>) -> Seq<char> {
    if s.len() > 0 && (s[0] == '+' || s[0] == '-') { s.drop_first() } else { s }
}

/// Whether every character of `s` is an ASCII digit.
pub open spec fn all_digits(s: Seq<char>) -> bool {
    forall|i: int| 0 <= i < s.len() ==> is_ascii_digit(#[trigger] s[i])
}

/// `str::parse::<i32>`: an optional sign, then one or more ASCII digits
/// whose value fits in a Java `int`.
pub open spec fn parse_i32_spec(s: Seq<char>) -> Option<int> {
    let negative = s.len() > 0 && s[0] == '-';
    let digits = unsigned_part(s);
    let value: int = if negative { -(decimal_value(digits) as int) } else { decimal_value(digits) as int };
    if digits.len() == 0 || !all_digits(digits) {
        None
    } else if value < i32::MIN || value > i32::MAX {
        None
    } else {
        Some(value)
    }
}

proof fn lemma_decimal_step(s: Seq<char>, i: int)
    requires
        0 <= i < s.len(),
    ensures
        decimal_value(s.subrange(0, i + 1)) == decimal_value(s.subrange(0, i)) * 10 + ((s[i] as u32) - 48) as nat,
{
    assert(s.subrange(0, i + 1).drop_last() =~= s.subrange(0, i));
}

fn parse_i32(s: &[char], from: usize, to: usize) -> (r: Option<i32>)
    requires
        from <= to <= s@.len(),
    ensures
        match parse_i32_spec(s@.subrange(from as int, to as int)) {
            Some(v) => r == Some(v as i32),
            None => r is None,
        },
{
    let ghost text = s@.subrange(from as int, to as int);
    let negative = from < to && s[from] == '-';
    let start = if from < to && (s[from] == '+' || s[from] == '-') { from + 1 } else { from };
    let ghost digits = s@.subrange(start as int, to as int);
    proof {
        if from < to && (s@[from as int] == '+' || s@[from as int] == '-') {
            assert(text.drop_first() =~= digits);
        } else {
            assert(text =~= digits);
        }
    }
    if start == to {
        return None;
    }
    let limit: i64 = if negative { 0x8000_0000 } else { 0x7fff_ffff };
    let mut value: i64 = 0;
    let mut i = start;
    while i < to
        invariant
            start <= i <= to <= s@.len(),
            from <= start,
            text == s@.subrange(from as int, to as int),
            digits == s@.subrange(start as int, to as int),
            digits == unsigned_part(text),
            negative == (text.len() > 0 && text[0] == '-'),
            forall|j: int| start <= j < i ==> is_ascii_digit(#[trigger] s@[j]),
            limit == (if negative { 0x8000_0000int } else { 0x7fff_ffffint }),
            value == (if decimal_value(s@.subrange(start as int, i as int)) > limit {
                limit + 1
            } else {
                decimal_value(s@.subrange(start as int, i as int)) as int
            }),
        decreases to - i,
    {
        let c = s[i];
        if !('0' <= c && c <= '9') {
            proof {
                assert(digits[i - start] == c);
                assert(!is_ascii_digit(digits[i - start]));
                assert(!all_digits(digits));
            }
            return None;
        }
        proof {
            assert(s@.subrange(start as int, i + 1).drop_last() =~= s@.subrange(start as int, i as int));
        }
        let d = c as i64 - 48;
        value = if value * 10 + d > limit { limit + 1 } else { value * 10 + d };
        i += 1;
    }
    proof {
        assert(s@.subrange(start as int, i as int) =~= digits);
        assert forall|j: int| 0 <= j < digits.len() implies is_ascii_digit(#[trigger] digits[j]) by {
            assert(digits[j] == s@[start + j]);
        }
    }
    if value > limit {
        return None;
    }
    if negative {
        Some((-value) as i32)
    } else {
        Some(value as i32)
    }
}

// ---------------------------------------------------------------- bindings

/// Whether the folded text names an explicit unbind.
pub open spec fn is_unbind(folded: Seq<char>) -> bool {
    folded == "none"@ || folded == "unbind"@ || folded == "off"@ || folded == "unmapped"@
}

/// The binding a right-hand side means: an unbind word, a raw code, or an
/// action name; `None` when it is none of these.
pub open spec fn binding_spec(s: Seq<char>, from: int, to: int) -> Option<Option<KeyBinding>> {
    let (a, b) = unquote_spec(s, from, to);
    let (c, d) = trim_bounds(s, a, b);
    if is_unbind(ascii_lowercase_spec(s.subrange(c, d))) {
        Some(None)
    } else if parse_i32_spec(s.subrange(c, d)) is Some {
        Some(Some(KeyBinding::Raw(parse_i32_spec(s.subrange(c, d))->0 as i32)))
    } else {
        match action_from_name_spec(s.subrange(a, b)) {
            Some(action) => Some(Some(KeyBinding::Handset(action_key(action)))),
            None => None,
        }
    }
}

fn parse_binding(s: &[char], from: usize, to: usize) -> (r: Option<Option<KeyBinding>>)
    requires
        from <= to <= s@.len(),
    ensures
        r == binding_spec(s@, from as int, to as int),
{
    let (a, b) = unquote(s, from, to);
    let (c, d) = trim(s, a, b);
    let folded = ascii_lowercase(s, c, d);
    let n = folded.len();
    proof {
        assert(folded@.subrange(0, n as int) =~= folded@);
    }
    if chars_eq(&folded, 0, n, "none") || chars_eq(&folded, 0, n, "unbind") || chars_eq(&folded, 0, n, "off")
        || chars_eq(&folded, 0, n, "unmapped") {
        return Some(None);
    }
    // Raw device codes are an explicit escape hatch for a reviewed phone
    // profile; named bindings remain portable across profiles.
    if let Some(code) = parse_i32(s, c, d) {
        return Some(Some(KeyBinding::Raw(code)));
    }
    match Action::from_chars(s, a, b) {
        Some(action) => Some(Some(KeyBinding::Handset(action.handset_key()))),
        None => None,
    }
}

// ---------------------------------------------------------------- lines of a document

/// The meaningful part of a line: the text before any comment, trimmed.
pub open spec fn content_spec(s: Seq<char>, from: int, to: int) -> (int, int) {
    trim_bounds(s, from, comment_cut(s, from, to, None))
}

/// The message for a line that is not `key = value`.
pub open spec fn malformed_message(line: Seq<char>) -> Seq<char> {
    "expected `key = value`, found `"@ + line + "`"@
}

/// The message for a preset name that names no preset.
pub open spec fn unknown_preset_message(name: Seq<char>) -> Seq<char> {
    "unknown preset `"@ + name + "` (expected `mobile` or `standard`)"@
}

/// The message for a key name that names no key.
pub open spec fn unknown_key_message(name: Seq<char>) -> Seq<char> {
    "unknown key name `"@ + name + "`"@
}

/// The message for a binding that is neither an action, a code nor an unbind.
pub open spec fn bad_binding_message(value: Seq<char>) -> Seq<char> {
    "`"@ + value + "` is not an action name, a Nokia code, or `none`"@
}

/// The overrides a table has gathered so far, in file order.
pub type BindingList = Seq<(KeyCode, Option<KeyBinding>)>;

/// The reader's state between lines: whether it is inside `[keymap]`, the
/// preset, the overrides, and the line of each override.
pub struct ReadState {
    pub in_keymap: bool,
    pub preset: Option<Preset>,
    pub bindings: BindingList,
    pub lines: Seq<int>,
}

/// What one line (`s[from..to]`, numbered `line_no`) does to the reader's
/// state, or the error it raises, with its line number and message.
pub open spec fn line_step(s: Seq<char>, from: int, to: int, line_no: int, st: ReadState) -> Result<
    ReadState,
    (int, Seq<char>),
> {
    let (a, b) = content_spec(s, from, to);
    if a == b {
        Ok(st)
    } else if section_spec(s, a, b) is Some {
        let (x, y) = section_spec(s, a, b)->0;
        Ok(ReadState { in_keymap: ascii_lowercase_spec(s.subrange(x, y)) == "keymap"@, ..st })
    } else if !st.in_keymap {
        Ok(st)
    } else if split_kv_spec(s, a, b) is None {
        Err((line_no, malformed_message(s.subrange(a, b))))
    } else {
        let (l, v) = split_kv_spec(s, a, b)->0;
        let lhs = s.subrange(l.0, l.1);
        let (na, nb) = unquote_spec(s, v.0, v.1);
        let value = s.subrange(na, nb);
        if ascii_lowercase_spec(lhs) == "preset"@ {
            match preset_from_name_spec(value) {
                Some(p) => Ok(ReadState { preset: Some(p), ..st }),
                None => Err((line_no, unknown_preset_message(value))),
            }
        } else {
            match key_from_name_spec(lhs) {
                None => Err((line_no, unknown_key_message(lhs))),
                Some(key) => match binding_spec(s, v.0, v.1) {
                    Some(binding) => Ok(
                        ReadState { bindings: st.bindings.push((key, binding)), lines: st.lines.push(line_no), ..st },
                    ),
                    None => Err((line_no, bad_binding_message(value))),
                },
            }
        }
    }
}

/// Whether some line from `pos` on is a `[section]` header.
pub open spec fn headers_from(s: Seq<char>, pos: int) -> bool
    decreases s.len() - pos,
{
    if pos < 0 || pos >= s.len() {
        false
    } else {
        let nl = newline_at(s, pos);
        let (a, b) = content_spec(s, pos, line_end_spec(s, pos));
        section_spec(s, a, b) is Some || (pos <= nl < s.len() && headers_from(s, nl + 1))
    }
}

/// Reading the lines from `pos` on, the first numbered `line_no`, from the
/// given state: the preset and overrides at the end, or the first error.
pub open spec fn scan(s: Seq<char>, pos: int, line_no: int, st: ReadState) -> Result<ReadState, (int, Seq<char>)>
    decreases s.len() - pos,
{
    if pos < 0 || pos >= s.len() {
        Ok(st)
    } else {
        let nl = newline_at(s, pos);
        match line_step(s, pos, line_end_spec(s, pos), line_no, st) {
            Err(e) => Err(e),
            Ok(next) => if pos <= nl < s.len() {
                scan(s, nl + 1, line_no + 1, next)
            } else {
                Ok(next)
            },
        }
    }
}

/// The whole document: a header-less text is all keymap; otherwise only the
/// lines inside `[keymap]` count.
pub open spec fn parse_spec(s: Seq<char>) -> Result<ReadState, (int, Seq<char>)> {
    scan(s, 0, 1, ReadState { in_keymap: !headers_from(s, 0), preset: None, bindings: Seq::empty(), lines: Seq::empty() })
}

/// The reader state that `out` and `in_keymap` hold.
pub open spec fn state_of(in_keymap: bool, out: KeymapConfig) -> ReadState {
    ReadState { in_keymap, preset: out.preset, bindings: out.bindings@, lines: out.lines@.map_values(|l: usize| l as int) }
}

/// The line starting at `from`: the index of its `'\n'` (or the end) and
/// where its text ends.
fn line_end(s: &[char], from: usize) -> (r: (usize, usize))
    requires
        from < s@.len(),
    ensures
        r.0 == newline_at(s@, from as int),
        r.1 == line_end_spec(s@, from as int),
        from <= r.1 <= r.0 <= s@.len(),
{
    let mut nl = from;
    while nl < s.len() && s[nl] != '\n'
        invariant
            from <= nl <= s@.len(),
            newline_at(s@, from as int) == newline_at(s@, nl as int),
        decreases s@.len() - nl,
    {
        nl += 1;
    }
    let end = if from < nl && nl < s.len() && s[nl - 1] == '\r' { nl - 1 } else { nl };
    (nl, end)
}

fn content(s: &[char], from: usize, to: usize) -> (r: (usize, usize))
    requires
        from <= to <= s@.len(),
    ensures
        (r.0 as int, r.1 as int) == content_spec(s@, from as int, to as int),
        from <= r.0 <= r.1 <= to,
{
    let cut = strip_comment(s, from, to);
    trim(s, from, cut)
}

fn has_headers(s: &[char]) -> (r: bool)
    ensures
        r == headers_from(s@, 0),
{
    let mut pos: usize = 0;
    while pos < s.len()
        invariant
            pos <= s@.len(),
            headers_from(s@, 0) == headers_from(s@, pos as int),
        decreases s@.len() - pos,
    {
        let (nl, end) = line_end(s, pos);
        let (a, b) = content(s, pos, end);
        if section_header(s, a, b).is_some() {
            return true;
        }
        pos = if nl < s.len() { nl + 1 } else { s.len() };
    }
    false
}

/// `text` followed by the characters `s[from..to]` of `doc` and then `tail`.
fn framed(text: &str, doc: &str, from: usize, to: usize, tail: &str) -> (r: String)
    requires
        from <= to <= doc@.len(),
    ensures
        r@ == text@ + doc@.subrange(from as int, to as int) + tail@,
{
    let mut out = String::from_str(text);
    out.append(doc.substring_char(from, to));
    out.append(tail);
    out
}

/// Apply one line of `config` (whose characters are `s`) to the reader state.
fn apply_line(
    config: &str,
    s: &[char],
    from: usize,
    to: usize,
    line_no: usize,
    in_keymap: &mut bool,
    out: &mut KeymapConfig,
) -> (r: Result<(), ConfigError>)
    requires
        config@ == s@,
        from <= to <= s@.len(),
        old(out).lines@.len() == old(out).bindings@.len(),
    ensures
        final(out).lines@.len() == final(out).bindings@.len(),
        match line_step(s@, from as int, to as int, line_no as int, state_of(*old(in_keymap), *old(out))) {
            Ok(st) => r is Ok && state_of(*final(in_keymap), *final(out)) == st,
            Err((l, m)) => r matches Err(e) && e.line == l && e.message@ == m,
        },
{
    let (a, b) = content(s, from, to);
    if a == b {
        return Ok(());
    }
    if let Some((x, y)) = section_header(s, a, b) {
        let folded = ascii_lowercase(s, x, y);
        let n = folded.len();
        proof {
            assert(folded@.subrange(0, n as int) =~= folded@);
        }
        *in_keymap = chars_eq(&folded, 0, n, "keymap");
        return Ok(());
    }
    if !*in_keymap {
        return Ok(());
    }
    let ((l0, l1), (v0, v1)) = match split_kv(s, a, b) {
        Some(kv) => kv,
        None => {
            return Err(ConfigError { line: line_no, message: framed("expected `key = value`, found `", config, a, b, "`") });
        },
    };
    let (na, nb) = unquote(s, v0, v1);
    let lhs_folded = ascii_lowercase(s, l0, l1);
    let n = lhs_folded.len();
    proof {
        assert(lhs_folded@.subrange(0, n as int) =~= lhs_folded@);
    }
    if chars_eq(&lhs_folded, 0, n, "preset") {
        return match Preset::from_chars(s, na, nb) {
            Some(p) => {
                out.preset = Some(p);
                Ok(())
            },
            None => Err(ConfigError {
                line: line_no,
                message: framed("unknown preset `", config, na, nb, "` (expected `mobile` or `standard`)"),
            }),
        };
    }
    let key = match key_from_chars(s, l0, l1) {
        Some(key) => key,
        None => {
            return Err(ConfigError { line: line_no, message: framed("unknown key name `", config, l0, l1, "`") });
        },
    };
    match parse_binding(s, v0, v1) {
        Some(binding) => {
            out.bindings.push((key, binding));
            out.lines.push(line_no);
            proof {
                assert(final(out).lines@.map_values(|l: usize| l as int) =~= old(out).lines@.map_values(
                    |l: usize| l as int,
                ).push(line_no as int));
            }
            Ok(())
        },
        None => Err(ConfigError {
            line: line_no,
            message: framed("`", config, na, nb, "` is not an action name, a Nokia code, or `none`"),
        }),
    }
}

impl Default for KeymapConfig {
    fn default() -> (r: KeymapConfig)
        ensures
            r.preset is None,
            r.bindings@.len() == 0,
            r.lines@.len() == 0,
    {
        KeymapConfig { preset: None, bindings: Vec::new(), lines: Vec::new() }
    }
}

/// Parse a `[keymap]` table (or a header-less keymap document) into a
/// [`KeymapConfig`]. See the module docs for the accepted format.
pub fn parse(config: &str) -> (r: Result<KeymapConfig, ConfigError>)
    ensures
        match parse_spec(config@) {
            Ok(st) => r matches Ok(c) && c.preset == st.preset && c.bindings@ == st.bindings && c.lines@.map_values(
                |l: usize| l as int,
            ) == st.lines && c.lines@.len() == c.bindings@.len(),
            Err((l, m)) => r matches Err(e) && e.line == l && e.message@ == m,
        },
{
    let s = str_chars(config);
    let in_keymap_start = !has_headers(&s);
    let mut in_keymap = in_keymap_start;
    let mut out = KeymapConfig { preset: None, bindings: Vec::new(), lines: Vec::new() };
    let mut pos: usize = 0;
    let mut done: usize = 0;
    proof {
        assert(out.bindings@ =~= Seq::<(KeyCode, Option<KeyBinding>)>::empty());
        assert(out.lines@.map_values(|l: usize| l as int) =~= Seq::<int>::empty());
    }
    while pos < s.len()
        invariant
            config@ == s@,
            pos <= s@.len(),
            done <= pos,
            out.lines@.len() == out.bindings@.len(),
            parse_spec(s@) == scan(s@, pos as int, done + 1, state_of(in_keymap, out)),
        decreases s@.len() - pos,
    {
        let (nl, end) = line_end(&s, pos);
        let step = apply_line(config, &s, pos, end, done + 1, &mut in_keymap, &mut out);
        if let Err(e) = step {
            return Err(e);
        }
        pos = if nl < s.len() { nl + 1 } else { s.len() };
        done += 1;
    }
    Ok(out)
}

} // verus!
