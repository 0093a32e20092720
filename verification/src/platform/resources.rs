//! JAR classpath resources and MIDlet application properties.
//!
//! Entries and properties are kept in tables sorted by name, so listing is
//! deterministic and lookups go by the exact name.

use vstd::prelude::*;
use vstd::utf8::{decode_utf8, valid_utf8};
use crate::input::config::{lemma_newline_bounds, newline_at};
use crate::me::image::ImageResources;
use crate::platform::PlatformError;
use crate::table::{copy_texts, lemma_same_views, lemma_ascending_distinct, names_distinct, names_ascending, put_entry, lemma_put_map, table_map, find_key, key_index, lemma_key_index};
use crate::text::{debug_quoted, debug_text, decimal_spec, str_chars, text_less, text_of, trim, trim_bounds, with_count};

verus! {

pub const MAX_JAR_BYTES: usize = 134217728;

pub const MAX_JAR_ENTRIES: usize = 16384;

pub const MAX_ENTRY_BYTES: u64 = 33554432;

pub const MAX_EXPANDED_BYTES: u64 = 268435456;

// ---------------------------------------------------------------- entry names

/// Whether a `.` or `..` segment starts at `i`.
pub open spec fn dot_segment_at(s: Seq<char>, i: int) -> bool {
    &&& i == 0 || s[i - 1] == '/'
    &&& s[i] == '.'
    &&& i + 1 == s.len() || s[i + 1] == '/' || (s[i + 1] == '.' && (i + 2 == s.len() || s[i + 2] == '/'))
}

/// Whether an empty segment ends at `i`: two slashes in a row.
pub open spec fn double_slash_at(s: Seq<char>, i: int) -> bool {
    s[i] == '/' && s[i + 1] == '/'
}

/// A safe, canonical archive entry name: not empty, relative, with no
/// backslash or NUL, and with no segment between slashes that is empty,
/// `.` or `..`.
pub open spec fn entry_name_ok(s: Seq<char>) -> bool {
    &&& s.len() > 0
    &&& s[0] != '/'
    &&& s.last() != '/'
    &&& forall|i: int| 0 <= i < s.len() ==> #[trigger] s[i] != '\\' && s[i] != '\0'
    &&& forall|i: int| 0 <= i < s.len() - 1 ==> !#[trigger] double_slash_at(s, i)
    &&& forall|i: int| 0 <= i < s.len() ==> !#[trigger] dot_segment_at(s, i)
}

/// The message for a refused entry name.
pub open spec fn unsafe_name_message(name: Seq<char>) -> Seq<char> {
    "unsafe or non-canonical entry name "@ + debug_text(name)
}

/// Refuse an unsafe or non-canonical archive entry name.
pub fn validate_entry_name(name: &str) -> (r: Result<(), PlatformError>)
    ensures
        entry_name_ok(name@) ==> r is Ok,
        !entry_name_ok(name@) ==> (r matches Err(PlatformError::Resource(m)) && m@ == unsafe_name_message(name@)),
{
    let s = str_chars(name);
    let n = s.len();
    let mut ok = n > 0 && s[0] != '/' && s[n - 1] != '/';
    let mut i: usize = 0;
    while ok && i < n
        invariant
            s@ == name@,
            n == s@.len(),
            i <= n,
            ok ==> n > 0 && s@[0] != '/' && s@.last() != '/',
            ok ==> forall|j: int| 0 <= j < i ==> #[trigger] s@[j] != '\\' && s@[j] != '\0',
            ok ==> forall|j: int| 0 <= j < i && j < n - 1 ==> !#[trigger] double_slash_at(s@, j),
            ok ==> forall|j: int| 0 <= j < i ==> !#[trigger] dot_segment_at(s@, j),
            !ok ==> !entry_name_ok(s@),
        decreases n - i,
    {
        let c = s[i];
        if c == '\\' || c == '\0' {
            ok = false;
        } else if c == '/' && i + 1 < n && s[i + 1] == '/' {
            assert(double_slash_at(s@, i as int));
            ok = false;
        } else if c == '.' && (i == 0 || s[i - 1] == '/') && (i + 1 == n || s[i + 1] == '/' || (s[i + 1] == '.' && (i
            + 2 == n || s[i + 2] == '/'))) {
            assert(dot_segment_at(s@, i as int));
            ok = false;
        } else {
            assert(!dot_segment_at(s@, i as int));
        }
        i += 1;
    }
    if ok {
        Ok(())
    } else {
        let mut m = String::from_str("unsafe or non-canonical entry name ");
        let q = debug_quoted(name);
        m.append(q.as_str());
        Err(PlatformError::Resource(m))
    }
}

// ---------------------------------------------------------------- class resources

/// The index of the last `.` before `i`, if there is one.
pub open spec fn last_dot(s: Seq<char>, i: int) -> Option<int>
    decreases i,
{
    if i <= 0 {
        None
    } else if s[i - 1] == '.' {
        Some(i - 1)
    } else {
        last_dot(s, i - 1)
    }
}

/// A binary package name as a path: each `.` becomes `/`.
pub open spec fn package_path(s: Seq<char>) -> Seq<char> {
    s.map_values(|c: char| if c == '.' { '/' } else { c })
}

/// `Class.getResourceAsStream`'s name resolution: exactly one leading slash
/// is removed from an absolute name; a relative name is resolved in the
/// package of the class (none for a class of the default package).
pub open spec fn resolved_name(class_binary_name: Seq<char>, name: Seq<char>) -> Seq<char> {
    if name.len() > 0 && name[0] == '/' {
        name.drop_first()
    } else {
        match last_dot(class_binary_name, class_binary_name.len() as int) {
            None => name,
            Some(d) => package_path(class_binary_name.subrange(0, d)) + seq!['/'] + name,
        }
    }
}

proof fn lemma_last_dot(s: Seq<char>, i: int)
    requires
        0 <= i <= s.len(),
    ensures
        last_dot(s, i) matches Some(d) ==> 0 <= d < i && s[d] == '.' && forall|k: int| d < k < i ==> s[k] != '.',
        last_dot(s, i) is None ==> forall|k: int| 0 <= k < i ==> s[k] != '.',
    decreases i,
{
    if i > 0 {
        lemma_last_dot(s, i - 1);
    }
}

/// Resolve the name passed to `Class.getResourceAsStream` to a root-relative
/// classpath entry. `class_binary_name` uses the binary spelling
/// (`"java.lang.String"`). Exactly one leading slash is removed, so
/// `"//asset.bin"` resolves to `"/asset.bin"`, which cannot alias the root
/// entry `"asset.bin"`.
pub fn resolve_class_resource_name(class_binary_name: &str, name: &str) -> (r: String)
    ensures
        r@ == resolved_name(class_binary_name@, name@),
{
    let n = str_chars(name);
    if n.len() > 0 && n[0] == '/' {
        let mut rest: Vec<char> = Vec::new();
        let mut i: usize = 1;
        while i < n.len()
            invariant
                1 <= i <= n@.len(),
                rest@ == n@.subrange(1, i as int),
            decreases n@.len() - i,
        {
            rest.push(n[i]);
            i += 1;
            assert(rest@ =~= n@.subrange(1, i as int));
        }
        assert(rest@ =~= name@.drop_first());
        return text_of(&rest);
    }
    let c = str_chars(class_binary_name);
    let mut d = c.len();
    while d > 0 && c[d - 1] != '.'
        invariant
            d <= c@.len(),
            last_dot(c@, c@.len() as int) == last_dot(c@, d as int),
        decreases d,
    {
        d -= 1;
    }
    if d == 0 {
        proof {
            assert(last_dot(c@, 0) is None);
        }
        return String::from_str(name);
    }
    let ghost dot = (d - 1) as int;
    let mut out: Vec<char> = Vec::new();
    let mut i: usize = 0;
    while i < d - 1
        invariant
            d >= 1,
            d <= c@.len(),
            i <= d - 1,
            out@ == package_path(c@.subrange(0, i as int)),
        decreases d - 1 - i,
    {
        out.push(if c[i] == '.' { '/' } else { c[i] });
        i += 1;
        assert(out@ =~= package_path(c@.subrange(0, i as int)));
    }
    out.push('/');
    let mut j: usize = 0;
    while j < n.len()
        invariant
            j <= n@.len(),
            out@ == package_path(c@.subrange(0, dot)) + seq!['/'] + n@.subrange(0, j as int),
        decreases n@.len() - j,
    {
        out.push(n[j]);
        j += 1;
        assert(out@ =~= package_path(c@.subrange(0, dot)) + seq!['/'] + n@.subrange(0, j as int));
    }
    assert(n@.subrange(0, j as int) =~= n@);
    text_of(&out)
}

/// A name with two leading slashes resolves to a name that still starts with
/// one, whatever the class: it can never alias a root entry.
pub proof fn lemma_double_slash_stays_absolute(class_binary_name: Seq<char>, rest: Seq<char>)
    ensures
        ({
            let resolved = resolved_name(class_binary_name, seq!['/', '/'] + rest);
            resolved.len() > 0 && resolved[0] == '/'
        }),
{
    let name = seq!['/', '/'] + rest;
    assert(name[0] == '/');
    assert(name.drop_first()[0] == '/');
}

/// Whether `u` is a leading (high) surrogate.
pub open spec fn high_surrogate(u: u16) -> bool {
    0xd800 <= u <= 0xdbff
}

/// Whether `u` is a trailing (low) surrogate.
pub open spec fn low_surrogate(u: u16) -> bool {
    0xdc00 <= u <= 0xdfff
}

/// UTF-16 decoding: a unit outside the surrogate range is that character, a
/// high surrogate followed by a low one is the supplementary character they
/// encode, and any other surrogate makes the text ill-formed.
pub open spec fn utf16_chars(u: Seq<u16>) -> Option<Seq<char>>
    decreases u.len(),
{
    if u.len() == 0 {
        Some(Seq::empty())
    } else if low_surrogate(u[0]) {
        None
    } else if high_surrogate(u[0]) {
        if u.len() < 2 || !low_surrogate(u[1]) {
            None
        } else {
            match utf16_chars(u.subrange(2, u.len() as int)) {
                Some(rest) => Some(
                    seq![(0x10000 + (u[0] - 0xd800) * 0x400 + (u[1] - 0xdc00)) as char] + rest,
                ),
                None => None,
            }
        }
    } else {
        match utf16_chars(u.drop_first()) {
            Some(rest) => Some(seq![u[0] as char] + rest),
            None => None,
        }
    }
}

/// `String::from_utf16`: the decoded text for well-formed UTF-16, and
/// nothing for UTF-16 with an unpaired surrogate.
#[verifier::external_body]
fn decode_utf16(units: &[u16]) -> (r: Option<String>)
    ensures
        match utf16_chars(units@) {
            Some(t) => r matches Some(s) && s@ == t,
            None => r is None,
        },
{
    String::from_utf16(units).ok()
}

/// The UTF-16-facing form of [`resolve_class_resource_name`]: ill-formed
/// UTF-16 (an unpaired surrogate) cannot name a UTF-8 archive entry and
/// resolves to nothing; no replacement character is introduced.
pub fn resolve_class_resource_name_utf16(class_binary_name: &str, name: &[u16]) -> (r: Option<String>)
    ensures
        match utf16_chars(name@) {
            Some(t) => r matches Some(s) && s@ == resolved_name(class_binary_name@, t),
            None => r is None,
        },
{
    match decode_utf16(name) {
        Some(text) => Some(resolve_class_resource_name(class_binary_name, text.as_str())),
        None => None,
    }
}

// ---------------------------------------------------------------- properties

/// Named properties, kept in ascending name order, one value per name.
#[derive(Debug)]
pub struct PropertyMap {
    entries: Vec<(String, String)>,
}

impl PropertyMap {
    #[verifier::type_invariant]
    spec fn ascending(self) -> bool {
        names_ascending(self.entries@)
    }

    /// Each name with its value.
    pub closed spec fn map(&self) -> Map<Seq<char>, Seq<char>> {
        table_map(self.entries@)
    }

    pub fn new() -> (r: Self)
        ensures
            r.map() == Map::<Seq<char>, Seq<char>>::empty(),
    {
        let r = PropertyMap { entries: Vec::new() };
        assert(r.map() =~= Map::<Seq<char>, Seq<char>>::empty());
        r
    }

    /// Set `key` to `value`, replacing an earlier value.
    pub fn insert(&mut self, key: &str, value: String)
        ensures
            final(self).map() == old(self).map().insert(key@, value@),
    {
        proof {
            use_type_invariant(&*self);
        }
        let ghost before = self.entries@;
        let ghost v = value;
        let mut entries: Vec<(String, String)> = Vec::new();
        std::mem::swap(&mut entries, &mut self.entries);
        put_entry(&mut entries, key, value);
        proof {
            lemma_put_map(before, entries@, key@, v);
        }
        self.entries = entries;
    }

    /// The value of `key`.
    pub fn get(&self, key: &str) -> (r: Option<&String>)
        ensures
            self.map().dom().contains(key@) ==> (r matches Some(v) && v@ == self.map()[key@]),
            !self.map().dom().contains(key@) ==> r is None,
    {
        match find_key(&self.entries, key) {
            Some(k) => Some(&self.entries[k].1),
            None => None,
        }
    }

    pub fn contains_key(&self, key: &str) -> (r: bool)
        ensures
            r == self.map().dom().contains(key@),
    {
        find_key(&self.entries, key).is_some()
    }

    /// Every property of `other` is set here too, replacing a value of the
    /// same name.
    pub fn extend(&mut self, other: &PropertyMap)
        ensures
            final(self).map() == old(self).map().union_prefer_right(other.map()),
    {
        let ghost start = self.map();
        let mut i: usize = 0;
        while i < other.entries.len()
            invariant
                i <= other.entries@.len(),
                self.map() == start.union_prefer_right(table_map(other.entries@.subrange(0, i as int))),
            decreases other.entries@.len() - i,
        {
            let ghost mid = self.map();
            let key = other.entries[i].0.as_str();
            let value = other.entries[i].1.clone();
            self.insert(key, value);
            proof {
                use_type_invariant(other);
                lemma_ascending_distinct(other.entries@);
                lemma_extend_step(start, other.entries@, i as int);
            }
            i += 1;
        }
        proof {
            assert(other.entries@.subrange(0, i as int) =~= other.entries@);
        }
    }
}

impl Clone for PropertyMap {
    fn clone(&self) -> (r: Self)
        ensures
            r.map() == self.map(),
    {
        proof {
            use_type_invariant(self);
        }
        let entries = copy_texts(&self.entries);
        proof {
            lemma_same_views(entries@, self.entries@);
        }
        PropertyMap { entries }
    }
}

/// Taking one more entry of a table of distinct names into a union that
/// prefers it.
proof fn lemma_extend_step(start: Map<Seq<char>, Seq<char>>, e: Seq<(String, String)>, i: int)
    requires
        0 <= i < e.len(),
        names_distinct(e),
    ensures
        start.union_prefer_right(table_map(e.subrange(0, i))).insert(e[i].0@, e[i].1@) == start.union_prefer_right(
            table_map(e.subrange(0, i + 1)),
        ),
{
    let a = e.subrange(0, i);
    let b = e.subrange(0, i + 1);
    lemma_key_index(a, e[i].0@, 0);
    assert(key_index(a, e[i].0@, 0) is None) by {
        if key_index(a, e[i].0@, 0) is Some {
            let k = key_index(a, e[i].0@, 0)->0;
            assert(e[k].0@ != e[i].0@);
        }
    }
    assert forall|n: Seq<char>| #[trigger] key_index(b, n, 0) == if n == e[i].0@ {
        Some(i)
    } else {
        key_index(a, n, 0)
    } by {
        lemma_key_index(a, n, 0);
        lemma_key_index(b, n, 0);
        if key_index(b, n, 0) is Some {
            let k = key_index(b, n, 0)->0;
            if k < i {
                assert(a[k] == b[k]);
            }
        }
        if key_index(a, n, 0) is Some {
            let k = key_index(a, n, 0)->0;
            assert(b[k] == a[k]);
        }
        assert(b[i] == e[i]);
    }
    assert forall|n: Seq<char>| #[trigger] table_map(b).dom().contains(n) implies table_map(b)[n] == table_map(
        a,
    ).insert(e[i].0@, e[i].1@)[n] by {
        if n != e[i].0@ {
            lemma_key_index(a, n, 0);
            let k = key_index(a, n, 0)->0;
            assert(b[k] == a[k]);
        }
    }
    assert(table_map(b) =~= table_map(a).insert(e[i].0@, e[i].1@));
    assert(start.union_prefer_right(table_map(a)).insert(e[i].0@, e[i].1@) =~= start.union_prefer_right(
        table_map(b),
    ));
}

/// What a property line leaves pending: the name and value read so far.
pub type Pending = Option<(Seq<char>, Seq<char>)>;

/// The properties once a pending entry is recorded.
pub open spec fn flushed(props: Map<Seq<char>, Seq<char>>, pending: Pending) -> Map<Seq<char>, Seq<char>> {
    match pending {
        Some((n, v)) => props.insert(n, v),
        None => props,
    }
}

/// Where a line's content ends once trailing carriage returns are dropped.
pub open spec fn cr_end(t: Seq<char>, from: int, to: int) -> int
    decreases to - from,
{
    if to <= from || t[to - 1] != '\r' {
        to
    } else {
        cr_end(t, from, to - 1)
    }
}

/// The first `:` in `t[from..to]`, or `to`.
pub open spec fn colon_in(t: Seq<char>, from: int, to: int) -> int
    decreases to - from,
{
    if from >= to || t[from] == ':' {
        from
    } else {
        colon_in(t, from + 1, to)
    }
}

/// `t[from..to]` with surrounding whitespace removed.
pub open spec fn trimmed(t: Seq<char>, from: int, to: int) -> Seq<char> {
    t.subrange(trim_bounds(t, from, to).0, trim_bounds(t, from, to).1)
}

/// Reading `Name: value` lines from `from` on. A line that starts with a
/// space continues the pending value; a line without `:` is skipped; the
/// first empty line ends the main section, and with it the properties. A
/// later occurrence of a name replaces an earlier one.
pub open spec fn properties_from(
    t: Seq<char>,
    from: int,
    props: Map<Seq<char>, Seq<char>>,
    pending: Pending,
) -> Map<Seq<char>, Seq<char>>
    decreases t.len() + 1 - from,
{
    if from < 0 || from > t.len() {
        flushed(props, pending)
    } else {
        let nl = newline_at(t, from);
        let end = cr_end(t, from, nl);
        proof {
            lemma_newline_bounds(t, from);
        }
        if end <= from {
            flushed(props, pending)
        } else if t[from] == ' ' {
            let next = match pending {
                Some((n, v)) => Some((n, v + t.subrange(from + 1, end))),
                None => None,
            };
            properties_from(t, nl + 1, props, next)
        } else {
            let c = colon_in(t, from, end);
            let next = if c < end {
                Some((trimmed(t, from, c), trimmed(t, c + 1, end)))
            } else {
                None
            };
            properties_from(t, nl + 1, flushed(props, pending), next)
        }
    }
}

/// The MIDlet application properties of a manifest or descriptor text.
pub open spec fn application_properties(t: Seq<char>) -> Map<Seq<char>, Seq<char>> {
    properties_from(t, 0, Map::empty(), None)
}

/// What `String::from_utf8_lossy` makes of some bytes.
pub uninterp spec fn lossy_text(bytes: Seq<u8>) -> Seq<char>;

/// `String::from_utf8_lossy`: the text of the bytes with each ill-formed
/// sequence replaced by U+FFFD. Well-formed UTF-8 decodes unchanged.
#[verifier::external_body]
pub(crate) fn utf8_lossy(bytes: &[u8]) -> (r: String)
    ensures
        r@ == lossy_text(bytes@),
        valid_utf8(bytes@) ==> r@ == decode_utf8(bytes@),
{
    String::from_utf8_lossy(bytes).into_owned()
}

fn text_range(t: &Vec<char>, from: usize, to: usize) -> (r: String)
    requires
        from <= to <= t@.len(),
    ensures
        r@ == t@.subrange(from as int, to as int),
{
    let mut part: Vec<char> = Vec::new();
    let mut i = from;
    while i < to
        invariant
            from <= i <= to <= t@.len(),
            part@ == t@.subrange(from as int, i as int),
        decreases to - i,
    {
        part.push(t[i]);
        i += 1;
        assert(part@ =~= t@.subrange(from as int, i as int));
    }
    text_of(&part)
}

fn record(props: &mut PropertyMap, pending: Option<(String, String)>)
    ensures
        final(props).map() == flushed(old(props).map(), pending_view(pending)),
{
    match pending {
        Some((n, v)) => props.insert(n.as_str(), v),
        None => {},
    }
}

pub open spec fn pending_view(p: Option<(String, String)>) -> Pending {
    match p {
        Some((n, v)) => Some((n@, v@)),
        None => None,
    }
}

/// Parse manifest or JAD `Name: value` attributes, joining continuation
/// lines. Only the main section counts: reading stops at the first empty
/// line. A later occurrence of a name replaces an earlier one.
pub fn parse_application_properties(bytes: &[u8]) -> (r: PropertyMap)
    ensures
        r.map() == application_properties(lossy_text(bytes@)),
{
    let text = utf8_lossy(bytes);
    let t = str_chars(text.as_str());
    let ghost whole = t@;
    let mut props = PropertyMap::new();
    let mut pending: Option<(String, String)> = None;
    let mut from: usize = 0;
    loop
        invariant
            t@ == whole,
            whole == lossy_text(bytes@),
            from <= t@.len(),
            application_properties(whole) == properties_from(whole, from as int, props.map(), pending_view(pending)),
        decreases t@.len() - from,
    {
        let mut nl = from;
        while nl < t.len() && t[nl] != '\n'
            invariant
                from <= nl <= t@.len(),
                newline_at(t@, from as int) == newline_at(t@, nl as int),
            decreases t@.len() - nl,
        {
            nl += 1;
        }
        let mut end = nl;
        while end > from && t[end - 1] == '\r'
            invariant
                from <= end <= nl,
                nl <= t@.len(),
                cr_end(t@, from as int, nl as int) == cr_end(t@, from as int, end as int),
            decreases end - from,
        {
            end -= 1;
        }
        if end <= from {
            record(&mut props, pending);
            return props;
        }
        if t[from] == ' ' {
            pending = match pending {
                Some((n, v)) => {
                    let mut v = v;
                    let more = text_range(&t, from + 1, end);
                    v.append(more.as_str());
                    Some((n, v))
                },
                None => None,
            };
        } else {
            let mut c = from;
            while c < end && t[c] != ':'
                invariant
                    from <= c <= end,
                    end <= t@.len(),
                    colon_in(t@, from as int, end as int) == colon_in(t@, c as int, end as int),
                decreases end - c,
            {
                c += 1;
            }
            record(&mut props, pending);
            pending = if c < end {
                let (a, b) = trim(t.as_slice(), from, c);
                let (x, y) = trim(t.as_slice(), c + 1, end);
                Some((text_range(&t, a, b), text_range(&t, x, y)))
            } else {
                None
            };
        }
        if nl >= t.len() {
            proof {
                assert(properties_from(whole, nl + 1, props.map(), pending_view(pending)) == flushed(
                    props.map(),
                    pending_view(pending),
                ));
            }
            record(&mut props, pending);
            return props;
        }
        from = nl + 1;
    }
}

// ---------------------------------------------------------------- sources

/// A path with its leading slashes removed.
pub open spec fn normalized(path: Seq<char>) -> Seq<char>
    decreases path.len(),
{
    if path.len() > 0 && path[0] == '/' {
        normalized(path.drop_first())
    } else {
        path
    }
}

/// What a lookup of `name` in `entries` finds.
pub open spec fn found(entries: Map<Seq<char>, Seq<u8>>, name: Seq<char>, r: Option<&[u8]>) -> bool {
    if entries.dom().contains(name) {
        r matches Some(b) && b@ == entries[name]
    } else {
        r is None
    }
}

/// Whether `names` lists each name of `entries` once, in ascending order.
pub open spec fn lists_names(entries: Map<Seq<char>, Seq<u8>>, names: Seq<String>) -> bool {
    &&& forall|i: int| 0 <= i < names.len() - 1 ==> text_less(#[trigger] names[i]@, names[i + 1]@)
    &&& forall|i: int| 0 <= i < names.len() ==> entries.dom().contains(#[trigger] names[i]@)
    &&& forall|n: Seq<char>| #[trigger] entries.dom().contains(n) ==> exists|i: int| 0 <= i < names.len() && names[i]@ == n
}

/// The classpath surface behind `Class.getResourceAsStream`, named-image
/// loading and `MIDlet.getAppProperty`.
pub trait ResourceSource {
    /// The root-relative entries, each with its bytes.
    spec fn entry_map(&self) -> Map<Seq<char>, Seq<u8>>;

    /// The application properties.
    spec fn property_map(&self) -> Map<Seq<char>, Seq<char>>;

    /// A root-relative entry; leading slashes are optional.
    fn bytes(&self, path: &str) -> (r: Option<&[u8]>)
        ensures
            found(self.entry_map(), normalized(path@), r),
    ;

    /// The lookup of `Class.getResourceAsStream(name)`: the borrowed bytes of
    /// the resolved entry, or `None` (Java's null) when there is none. A name
    /// that still starts with a slash once exactly one was removed names no
    /// entry, so `"//asset.bin"` cannot alias `"asset.bin"`.
    fn class_resource_bytes(&self, class_binary_name: &str, name: &str) -> (r: Option<&[u8]>)
        ensures
            ({
                let resolved = resolved_name(class_binary_name@, name@);
                if resolved.len() > 0 && resolved[0] == '/' {
                    r is None
                } else {
                    found(self.entry_map(), resolved, r)
                }
            }),
    {
        let resolved = resolve_class_resource_name(class_binary_name, name);
        if starts_with_slash(resolved.as_str()) {
            return None;
        }
        proof {
            lemma_normalized_plain(resolved@);
        }
        self.bytes(resolved.as_str())
    }

    /// The UTF-16-facing lookup: ill-formed Java text names no entry.
    fn class_resource_bytes_utf16(&self, class_binary_name: &str, name: &[u16]) -> (r: Option<&[u8]>)
        ensures
            match utf16_chars(name@) {
                Some(t) => {
                    let resolved = resolved_name(class_binary_name@, t);
                    if resolved.len() > 0 && resolved[0] == '/' {
                        r is None
                    } else {
                        found(self.entry_map(), resolved, r)
                    }
                },
                None => r is None,
            },
    {
        let resolved = match resolve_class_resource_name_utf16(class_binary_name, name) {
            Some(text) => text,
            None => return None,
        };
        if starts_with_slash(resolved.as_str()) {
            return None;
        }
        proof {
            lemma_normalized_plain(resolved@);
        }
        self.bytes(resolved.as_str())
    }

    /// The entry names, without a leading slash, in ascending order.
    fn entries(&self) -> (r: Vec<String>)
        ensures
            lists_names(self.entry_map(), r@),
    ;

    /// `MIDlet.getAppProperty`.
    fn application_property(&self, key: &str) -> (r: Option<&str>)
        ensures
            self.property_map().dom().contains(key@) ==> (r matches Some(v) && v@ == self.property_map()[key@]),
            !self.property_map().dom().contains(key@) ==> r is None,
    ;
}

fn starts_with_slash(s: &str) -> (r: bool)
    ensures
        r == (s@.len() > 0 && s@[0] == '/'),
{
    s.unicode_len() > 0 && s.get_char(0) == '/'
}

proof fn lemma_normalized_plain(s: Seq<char>)
    requires
        !(s.len() > 0 && s[0] == '/'),
    ensures
        normalized(s) == s,
{
}

/// The path without its leading slashes.
fn normalize(path: &str) -> (r: String)
    ensures
        r@ == normalized(path@),
{
    let t = str_chars(path);
    let mut i: usize = 0;
    assert(t@.subrange(0, t@.len() as int) =~= t@);
    while i < t.len() && t[i] == '/'
        invariant
            i <= t@.len(),
            t@ == path@,
            normalized(path@) == normalized(t@.subrange(i as int, t@.len() as int)),
        decreases t@.len() - i,
    {
        assert(t@.subrange(i as int, t@.len() as int).drop_first() =~= t@.subrange(i + 1, t@.len() as int));
        i += 1;
    }
    text_range(&t, i, t.len())
}

/// Each name of a table, in order.
fn table_names<V>(entries: &Vec<(String, V)>) -> (r: Vec<String>)
    ensures
        r@.len() == entries@.len(),
        forall|i: int| 0 <= i < r@.len() ==> (#[trigger] r@[i])@ == entries@[i].0@,
{
    let mut out: Vec<String> = Vec::new();
    let mut i: usize = 0;
    while i < entries.len()
        invariant
            i <= entries@.len(),
            out@.len() == i,
            forall|j: int| 0 <= j < i ==> (#[trigger] out@[j])@ == entries@[j].0@,
        decreases entries@.len() - i,
    {
        out.push(entries[i].0.clone());
        i += 1;
    }
    out
}

proof fn lemma_table_names(entries: Seq<(String, Vec<u8>)>, names: Seq<String>)
    requires
        names_ascending(entries),
        names.len() == entries.len(),
        forall|i: int| 0 <= i < names.len() ==> (#[trigger] names[i])@ == entries[i].0@,
    ensures
        lists_names(table_map(entries), names),
{
    assert forall|i: int| 0 <= i < names.len() - 1 implies text_less(#[trigger] names[i]@, names[i + 1]@) by {
        assert(names[i + 1]@ == entries[i + 1].0@);
        assert(text_less(entries[i].0@, entries[i + 1].0@));
    }
    assert forall|i: int| 0 <= i < names.len() implies table_map(entries).dom().contains(#[trigger] names[i]@) by {
        lemma_key_index(entries, names[i]@, 0);
    }
    assert forall|n: Seq<char>| #[trigger] table_map(entries).dom().contains(n) implies exists|i: int|
        0 <= i < names.len() && names[i]@ == n by {
        lemma_key_index(entries, n, 0);
        let k = key_index(entries, n, 0)->0;
        assert(names[k]@ == n);
    }
}

/// The bytes stored under `path` in a table of entries.
fn entry_bytes<'a>(entries: &'a Vec<(String, Vec<u8>)>, path: &str) -> (r: Option<&'a [u8]>)
    ensures
        found(table_map(entries@), normalized(path@), r),
{
    let name = normalize(path);
    match find_key(entries, name.as_str()) {
        Some(k) => Some(entries[k].1.as_slice()),
        None => None,
    }
}

/// Java's signed view of some bytes.
fn signed_bytes(b: &[u8]) -> (r: Vec<i8>)
    ensures
        r@ == b@.map_values(|x: u8| x as i8),
{
    let mut out: Vec<i8> = Vec::new();
    let mut i: usize = 0;
    while i < b.len()
        invariant
            i <= b@.len(),
            out@ == b@.subrange(0, i as int).map_values(|x: u8| x as i8),
        decreases b@.len() - i,
    {
        out.push(b[i] as i8);
        i += 1;
        assert(out@ =~= b@.subrange(0, i as int).map_values(|x: u8| x as i8));
    }
    assert(b@.subrange(0, i as int) =~= b@);
    out
}

/// Explicit resource bytes and properties, for tests and fixtures.
#[derive(Debug)]
pub struct MemoryResources {
    entries: Vec<(String, Vec<u8>)>,
    properties: PropertyMap,
}

impl MemoryResources {
    #[verifier::type_invariant]
    spec fn ascending(self) -> bool {
        names_ascending(self.entries@)
    }

    pub fn new() -> (r: Self)
        ensures
            r.entry_map() == Map::<Seq<char>, Seq<u8>>::empty(),
            r.property_map() == Map::<Seq<char>, Seq<char>>::empty(),
    {
        let r = MemoryResources { entries: Vec::new(), properties: PropertyMap::new() };
        assert(r.entry_map() =~= Map::<Seq<char>, Seq<u8>>::empty());
        r
    }

    /// Store `bytes` under `path`, leading slashes removed. Chainable.
    pub fn insert(&mut self, path: &str, bytes: Vec<u8>) -> (r: &mut Self)
        ensures
            r.entry_map() == old(self).entry_map().insert(normalized(path@), bytes@),
            r.property_map() == old(self).property_map(),
            *final(self) == *final(r),
    {
        proof {
            use_type_invariant(&*self);
        }
        let name = normalize(path);
        let ghost before = self.entries@;
        let ghost v = bytes;
        let mut entries: Vec<(String, Vec<u8>)> = Vec::new();
        std::mem::swap(&mut entries, &mut self.entries);
        put_entry(&mut entries, name.as_str(), bytes);
        proof {
            lemma_put_map(before, entries@, name@, v);
        }
        self.entries = entries;
        self
    }

    /// Set an application property. Chainable.
    pub fn property(&mut self, key: &str, value: &str) -> (r: &mut Self)
        ensures
            r.property_map() == old(self).property_map().insert(key@, value@),
            r.entry_map() == old(self).entry_map(),
            *final(self) == *final(r),
    {
        proof {
            use_type_invariant(&*self);
        }
        let mut properties = PropertyMap::new();
        std::mem::swap(&mut properties, &mut self.properties);
        properties.insert(key, String::from_str(value));
        self.properties = properties;
        self
    }
}

impl Default for MemoryResources {
    fn default() -> (r: Self)
        ensures
            r.entry_map() == Map::<Seq<char>, Seq<u8>>::empty(),
            r.property_map() == Map::<Seq<char>, Seq<char>>::empty(),
    {
        MemoryResources::new()
    }
}

impl ResourceSource for MemoryResources {
    closed spec fn entry_map(&self) -> Map<Seq<char>, Seq<u8>> {
        table_map(self.entries@)
    }

    closed spec fn property_map(&self) -> Map<Seq<char>, Seq<char>> {
        self.properties.map()
    }

    fn bytes(&self, path: &str) -> (r: Option<&[u8]>) {
        entry_bytes(&self.entries, path)
    }

    fn entries(&self) -> (r: Vec<String>) {
        proof {
            use_type_invariant(self);
        }
        let names = table_names(&self.entries);
        proof {
            lemma_table_names(self.entries@, names@);
        }
        names
    }

    fn application_property(&self, key: &str) -> (r: Option<&str>) {
        match self.properties.get(key) {
            Some(v) => Some(v.as_str()),
            None => None,
        }
    }
}

impl ImageResources for MemoryResources {
    closed spec fn resource_of(&self, name: Seq<char>) -> Option<Seq<i8>> {
        if self.entry_map().dom().contains(normalized(name)) {
            Some(self.entry_map()[normalized(name)].map_values(|x: u8| x as i8))
        } else {
            None
        }
    }

    fn load(&self, name: &str) -> (r: Option<Vec<i8>>)
        ensures
            match r {
                Some(v) => self.entry_map().dom().contains(normalized(name@)) && v@ == self.entry_map()[normalized(
                    name@,
                )].map_values(|x: u8| x as i8),
                None => !self.entry_map().dom().contains(normalized(name@)),
            },
    {
        match self.bytes(name) {
            Some(b) => Some(signed_bytes(b)),
            None => None,
        }
    }
}

// ---------------------------------------------------------------- JAR archives

#[verifier::external_type_specification]
#[verifier::external_body]
#[verifier::reject_recursive_types(R)]
pub struct ExZipArchive<R>(zip::ZipArchive<R>);

#[verifier::external_type_specification]
#[verifier::external_body]
#[verifier::reject_recursive_types(T)]
pub struct ExCursor<T>(std::io::Cursor<T>);

#[verifier::external_type_specification]
#[verifier::external_body]
pub struct ExZipError(zip::result::ZipError);

#[verifier::external_type_specification]
#[verifier::external_body]
pub struct ExIoError(std::io::Error);

/// What `ZipArchive::new` reads from an archive's bytes: the number of
/// entries in its central directory, or nothing when it refuses them.
pub uninterp spec fn zip_directory(jar: Seq<u8>) -> Option<nat>;

/// What `ZipArchive::by_index` gives for entry `index` of an archive: its
/// directory flag, name and declared uncompressed size, or nothing when it
/// fails.
pub uninterp spec fn zip_entry(jar: Seq<u8>, index: int) -> Option<(bool, Seq<char>, u64)>;

/// The decompressed bytes of entry `index` read to the end through
/// `Read::take(limit)`, or nothing when the read fails.
pub uninterp spec fn zip_contents(jar: Seq<u8>, index: int, limit: u64) -> Option<Seq<u8>>;

/// An opened archive together with the bytes it was read from.
struct JarArchive {
    archive: zip::ZipArchive<std::io::Cursor<Vec<u8>>>,
    source: Ghost<Seq<u8>>,
}

impl JarArchive {
    spec fn source(&self) -> Seq<u8> {
        self.source@
    }
}

/// `ZipArchive::new` on an in-memory copy of the bytes: reads the central
/// directory.
#[verifier::external_body]
fn open_archive(jar: &[u8]) -> (r: Result<JarArchive, zip::result::ZipError>)
    ensures
        r is Ok <==> zip_directory(jar@) is Some,
        r matches Ok(a) ==> a.source() == jar@,
{
    let archive = zip::ZipArchive::new(std::io::Cursor::new(jar.to_vec()))?;
    Ok(JarArchive { archive, source: Ghost(jar@) })
}

/// `ZipArchive::len`: the number of entries in the central directory.
#[verifier::external_body]
fn archive_len(archive: &JarArchive) -> (r: usize)
    ensures
        zip_directory(archive.source()) == Some(r as nat),
{
    archive.archive.len()
}

/// Whether an entry name denotes a directory, as `ZipFile::is_dir` decides:
/// it ends with `/` or `\`.
pub open spec fn directory_name(name: Seq<char>) -> bool {
    name.len() > 0 && (name.last() == '/' || name.last() == '\\')
}

/// `ZipArchive::by_index`, read off as the entry's directory flag, name and
/// declared uncompressed size (`ZipFile::is_dir`, `name`, `size`).
#[verifier::external_body]
fn entry_header(archive: &mut JarArchive, index: usize) -> (r: Result<(bool, String, u64), zip::result::ZipError>)
    ensures
        final(archive).source() == old(archive).source(),
        match zip_entry(old(archive).source(), index as int) {
            Some((d, n, z)) => r matches Ok((dir, name, size)) && dir == d && name@ == n && size == z,
            None => r is Err,
        },
        r matches Ok((dir, name, _)) ==> dir == directory_name(name@),
{
    let entry = archive.archive.by_index(index)?;
    Ok((entry.is_dir(), entry.name().to_owned(), entry.size()))
}

/// `ZipArchive::by_index`, then the entry's decompressed bytes read to the
/// end through `Read::take(limit)`, which yields at most `limit` bytes.
#[verifier::external_body]
fn entry_data(archive: &mut JarArchive, index: usize, limit: u64) -> (r: Result<
    Result<Vec<u8>, std::io::Error>,
    zip::result::ZipError,
>)
    ensures
        final(archive).source() == old(archive).source(),
        r is Err <==> zip_entry(old(archive).source(), index as int) is None,
        r matches Ok(x) ==> match zip_contents(old(archive).source(), index as int, limit) {
            Some(b) => x matches Ok(v) && v@ == b,
            None => x is Err,
        },
        r matches Ok(Ok(v)) ==> v@.len() <= limit,
{
    let entry = archive.archive.by_index(index)?;
    let mut bytes = Vec::new();
    Ok(std::io::Read::read_to_end(&mut std::io::Read::take(entry, limit), &mut bytes).map(|_| bytes))
}

/// The text of an archive error (its `Display`).
#[verifier::external_body]
fn archive_error_text(e: &zip::result::ZipError) -> (r: String) {
    format!("{}", e)
}

/// The text of an I/O error (its `Display`).
#[verifier::external_body]
fn io_error_text(e: &std::io::Error) -> (r: String) {
    format!("{}", e)
}

/// Whether every entry of a JAR table is one the reader admits: a safe,
/// canonical name and at most the per-entry limit of bytes.
pub open spec fn admitted(entries: Map<Seq<char>, Seq<u8>>) -> bool {
    forall|n: Seq<char>| #[trigger] entries.dom().contains(n) ==> entry_name_ok(n) && entries[n].len()
        <= MAX_ENTRY_BYTES
}

/// The application properties of a JAR: those of its manifest's main
/// section, with those of the descriptor (JAD) replacing them name by name.
pub open spec fn jar_properties(entries: Map<Seq<char>, Seq<u8>>, jad: Option<Seq<u8>>) -> Map<Seq<char>, Seq<char>> {
    let manifest = if entries.dom().contains("META-INF/MANIFEST.MF"@) {
        application_properties(lossy_text(entries["META-INF/MANIFEST.MF"@]))
    } else {
        Map::empty()
    };
    match jad {
        Some(j) => manifest.union_prefer_right(application_properties(lossy_text(j))),
        None => manifest,
    }
}

/// How a JAR is refused: by the archive reader, by a failing read, or by
/// this library's own rules (with their message).
#[derive(Debug, Clone, Copy, PartialEq, Eq, Structural)]
pub enum JarRefusal {
    Archive,
    Io,
    Resource,
}

/// The table of admitted entries, each name with its bytes.
pub open spec fn entries_map(entries: Seq<(Seq<char>, Seq<u8>)>) -> Map<Seq<char>, Seq<u8>>
    decreases entries.len(),
{
    if entries.len() == 0 {
        Map::empty()
    } else {
        entries_map(entries.drop_last()).insert(entries.last().0, entries.last().1)
    }
}

/// Reading entries `i..count` of an archive, after the entries `done` and a
/// declared expanded size `expanded`: directories are skipped; each file
/// entry needs a safe name, a declared size within the per-entry limit, a
/// declared total within its limit, a decoded size within the per-entry
/// limit, and a name not seen before.
pub open spec fn jar_scan(
    jar: Seq<u8>,
    count: nat,
    i: int,
    expanded: int,
    done: Seq<(Seq<char>, Seq<u8>)>,
) -> Result<Seq<(Seq<char>, Seq<u8>)>, (JarRefusal, Seq<char>)>
    decreases count - i,
{
    if i < 0 || i >= count {
        Ok(done)
    } else {
        match zip_entry(jar, i) {
            None => Err((JarRefusal::Archive, Seq::empty())),
            Some((dir, name, size)) => if dir {
                jar_scan(jar, count, i + 1, expanded, done)
            } else if !entry_name_ok(name) {
                Err((JarRefusal::Resource, unsafe_name_message(name)))
            } else if size > MAX_ENTRY_BYTES {
                Err(
                    (
                        JarRefusal::Resource,
                        "entry "@ + debug_text(name) + " expands to "@ + decimal_spec(size as int)
                            + " bytes; per-entry limit is 33554432"@,
                    ),
                )
            } else if expanded + size > u64::MAX {
                Err((JarRefusal::Resource, "expanded JAR size overflow"@))
            } else if expanded + size > MAX_EXPANDED_BYTES {
                Err((JarRefusal::Resource, "expanded JAR exceeds 268435456 bytes"@))
            } else {
                match zip_contents(jar, i, (MAX_ENTRY_BYTES + 1) as u64) {
                    None => Err((JarRefusal::Io, Seq::empty())),
                    Some(bytes) => if bytes.len() > MAX_ENTRY_BYTES {
                        Err(
                            (
                                JarRefusal::Resource,
                                "entry "@ + debug_text(name) + " exceeded the per-entry limit while decoding"@,
                            ),
                        )
                    } else if entries_map(done).dom().contains(name) {
                        Err((JarRefusal::Resource, "duplicate JAR entry "@ + debug_text(name)))
                    } else {
                        jar_scan(jar, count, i + 1, expanded + size, done.push((name, bytes)))
                    },
                }
            },
        }
    }
}

/// What reading a JAR gives: its admitted entries in archive order, or how
/// it is refused.
pub open spec fn jar_outcome(jar: Seq<u8>) -> Result<Seq<(Seq<char>, Seq<u8>)>, (JarRefusal, Seq<char>)> {
    if jar.len() > MAX_JAR_BYTES {
        Err((JarRefusal::Resource, jar_too_large_message(jar.len())))
    } else {
        match zip_directory(jar) {
            None => Err((JarRefusal::Archive, Seq::empty())),
            Some(count) => if count > MAX_JAR_ENTRIES {
                Err((JarRefusal::Resource, too_many_entries_message(count)))
            } else {
                jar_scan(jar, count, 0, 0, Seq::empty())
            },
        }
    }
}

/// Whether `r` is the refusal `refusal` describes.
pub open spec fn refused_as<T>(r: Result<T, PlatformError>, refusal: (JarRefusal, Seq<char>)) -> bool {
    match refusal.0 {
        JarRefusal::Archive => r matches Err(PlatformError::Archive(_)),
        JarRefusal::Io => r matches Err(PlatformError::Io(_)),
        JarRefusal::Resource => r matches Err(PlatformError::Resource(m)) && m@ == refusal.1,
    }
}

pub open spec fn jar_too_large_message(len: nat) -> Seq<char> {
    "JAR is "@ + decimal_spec(len as int) + " bytes; limit is 134217728"@
}

pub open spec fn too_many_entries_message(count: nat) -> Seq<char> {
    "JAR has "@ + decimal_spec(count as int) + " entries; limit is 16384"@
}

/// An original JAR held in memory, with an optional sidecar JAD.
#[derive(Debug)]
pub struct JarResources {
    entries: Vec<(String, Vec<u8>)>,
    properties: PropertyMap,
}

fn resource_error(text: &str, name: &str, tail: &str) -> (r: PlatformError)
    ensures
        r matches PlatformError::Resource(m) && m@ == text@ + debug_text(name@) + tail@,
{
    let mut m = String::from_str(text);
    let q = debug_quoted(name);
    m.append(q.as_str());
    m.append(tail);
    PlatformError::Resource(m)
}

impl JarResources {
    #[verifier::type_invariant]
    spec fn ascending(self) -> bool {
        &&& names_ascending(self.entries@)
        &&& self.entries@.len() <= MAX_JAR_ENTRIES
    }

    /// Read a JAR from bytes, with the bytes of its JAD when there is one.
    /// Directories are skipped. The archive is refused when it is too large,
    /// has too many entries, or holds an entry with an unsafe name, one
    /// larger than the per-entry limit (declared or decoded), one that would
    /// take the declared total past its limit, or a name twice.
    pub fn from_bytes(jar: &[u8], jad: Option<&[u8]>) -> (r: Result<Self, PlatformError>)
        ensures
            match jar_outcome(jar@) {
                Ok(entries) => r matches Ok(res) && res.entry_map() == entries_map(entries) && admitted(
                    res.entry_map(),
                ) && res.property_map() == jar_properties(
                    res.entry_map(),
                    match jad {
                        Some(j) => Some(j@),
                        None => None,
                    },
                ),
                Err(refusal) => refused_as(r, refusal),
            },
    {
        if jar.len() > MAX_JAR_BYTES {
            return Err(PlatformError::Resource(
                {
                    let mut m = with_count("JAR is ", jar.len() as u64);
                    m.append(" bytes; limit is 134217728");
                    m
                },
            ));
        }
        let mut archive = match open_archive(jar) {
            Ok(a) => a,
            Err(e) => return Err(PlatformError::Archive(archive_error_text(&e))),
        };
        let count = archive_len(&archive);
        if count > MAX_JAR_ENTRIES {
            let mut m = with_count("JAR has ", count as u64);
            m.append(" entries; limit is 16384");
            return Err(PlatformError::Resource(m));
        }
        let mut entries: Vec<(String, Vec<u8>)> = Vec::new();
        let mut expanded: u64 = 0;
        let mut index: usize = 0;
        let ghost mut done: Seq<(Seq<char>, Seq<u8>)> = Seq::empty();
        proof {
            assert(table_map(entries@) =~= entries_map(done));
        }
        while index < count
            invariant
                jar@.len() <= MAX_JAR_BYTES,
                index <= count <= MAX_JAR_ENTRIES,
                archive.source() == jar@,
                zip_directory(jar@) == Some(count as nat),
                expanded <= MAX_EXPANDED_BYTES,
                entries@.len() <= index,
                names_ascending(entries@),
                admitted(table_map(entries@)),
                table_map(entries@) == entries_map(done),
                jar_outcome(jar@) == jar_scan(jar@, count as nat, index as int, expanded as int, done),
            decreases count - index,
        {
            let header = match entry_header(&mut archive, index) {
                Ok(h) => h,
                Err(e) => return Err(PlatformError::Archive(archive_error_text(&e))),
            };
            let (dir, name, size) = header;
            if dir {
                index += 1;
                continue;
            }
            match validate_entry_name(name.as_str()) {
                Ok(()) => {},
                Err(e) => return Err(e),
            }
            if size > MAX_ENTRY_BYTES {
                let mut tail = with_count(" expands to ", size);
                tail.append(" bytes; per-entry limit is 33554432");
                let e = resource_error("entry ", name.as_str(), tail.as_str());
                proof {
                    assert("entry "@ + debug_text(name@) + tail@ =~= "entry "@ + debug_text(name@) + " expands to "@
                        + decimal_spec(size as int) + " bytes; per-entry limit is 33554432"@);
                }
                return Err(e);
            }
            expanded = match expanded.checked_add(size) {
                Some(total) => total,
                None => return Err(PlatformError::Resource(String::from_str("expanded JAR size overflow"))),
            };
            if expanded > MAX_EXPANDED_BYTES {
                return Err(PlatformError::Resource(String::from_str("expanded JAR exceeds 268435456 bytes")));
            }
            let bytes = match entry_data(&mut archive, index, MAX_ENTRY_BYTES + 1) {
                Ok(Ok(b)) => b,
                Ok(Err(e)) => return Err(PlatformError::Io(io_error_text(&e))),
                Err(e) => return Err(PlatformError::Archive(archive_error_text(&e))),
            };
            if bytes.len() as u64 > MAX_ENTRY_BYTES {
                return Err(resource_error("entry ", name.as_str(), " exceeded the per-entry limit while decoding"));
            }
            if find_key(&entries, name.as_str()).is_some() {
                proof {
                    lemma_key_index(entries@, name@, 0);
                }
                let e = resource_error("duplicate JAR entry ", name.as_str(), "");
                proof {
                    reveal_strlit("");
                    assert("duplicate JAR entry "@ + debug_text(name@) + ""@ =~= "duplicate JAR entry "@ + debug_text(
                        name@,
                    ));
                }
                return Err(e);
            }
            let ghost before = entries@;
            let ghost v = bytes;
            proof {
                lemma_key_index(before, name@, 0);
            }
            put_entry(&mut entries, name.as_str(), bytes);
            proof {
                lemma_put_map(before, entries@, name@, v);
                let old_done = done;
                done = done.push((name@, v@));
                assert(done.drop_last() =~= old_done);
            }
            index += 1;
        }
        let mut properties = match entry_bytes(&entries, "META-INF/MANIFEST.MF") {
            Some(manifest) => parse_application_properties(manifest),
            None => PropertyMap::new(),
        };
        match jad {
            Some(j) => {
                let more = parse_application_properties(j);
                properties.extend(&more);
            },
            None => {},
        }
        proof {
            reveal_strlit("META-INF/MANIFEST.MF");
            lemma_normalized_plain("META-INF/MANIFEST.MF"@);
        }
        Ok(JarResources { entries, properties })
    }

    /// The number of entries.
    pub fn len(&self) -> (r: usize)
        ensures
            r == self.entry_map().dom().len(),
    {
        proof {
            use_type_invariant(self);
            lemma_table_size(self.entries@);
        }
        self.entries.len()
    }

    pub fn is_empty(&self) -> (r: bool)
        ensures
            r == (self.entry_map().dom().len() == 0),
    {
        self.len() == 0
    }
}

/// An ascending table has as many names as entries.
proof fn lemma_table_size(entries: Seq<(String, Vec<u8>)>)
    requires
        names_ascending(entries),
    ensures
        table_map(entries).dom().len() == entries.len(),
{
    let names = entries.map_values(|e: (String, Vec<u8>)| e.0@);
    lemma_ascending_distinct(entries);
    assert(names.no_duplicates()) by {
        assert forall|i: int, j: int| 0 <= i < names.len() && 0 <= j < names.len() && i != j implies names[i]
            != names[j] by {
            if i < j {
                assert(entries[i].0@ != entries[j].0@);
            } else {
                assert(entries[j].0@ != entries[i].0@);
            }
        }
    }
    assert forall|n: Seq<char>| #[trigger] table_map(entries).dom().contains(n) == names.to_set().contains(n) by {
        lemma_key_index(entries, n, 0);
        if table_map(entries).dom().contains(n) {
            let k = key_index(entries, n, 0)->0;
            assert(names[k] == n);
        }
        if names.to_set().contains(n) {
            let k = choose|k: int| 0 <= k < names.len() && names[k] == n;
            assert(entries[k].0@ == n);
        }
    }
    assert(table_map(entries).dom() =~= names.to_set());
    names.unique_seq_to_set();
}

impl ResourceSource for JarResources {
    closed spec fn entry_map(&self) -> Map<Seq<char>, Seq<u8>> {
        table_map(self.entries@)
    }

    closed spec fn property_map(&self) -> Map<Seq<char>, Seq<char>> {
        self.properties.map()
    }

    fn bytes(&self, path: &str) -> (r: Option<&[u8]>) {
        entry_bytes(&self.entries, path)
    }

    fn entries(&self) -> (r: Vec<String>) {
        proof {
            use_type_invariant(self);
        }
        let names = table_names(&self.entries);
        proof {
            lemma_table_names(self.entries@, names@);
        }
        names
    }

    fn application_property(&self, key: &str) -> (r: Option<&str>) {
        match self.properties.get(key) {
            Some(v) => Some(v.as_str()),
            None => None,
        }
    }
}

impl ImageResources for JarResources {
    closed spec fn resource_of(&self, name: Seq<char>) -> Option<Seq<i8>> {
        if self.entry_map().dom().contains(normalized(name)) {
            Some(self.entry_map()[normalized(name)].map_values(|x: u8| x as i8))
        } else {
            None
        }
    }

    fn load(&self, name: &str) -> (r: Option<Vec<i8>>)
        ensures
            match r {
                Some(v) => self.entry_map().dom().contains(normalized(name@)) && v@ == self.entry_map()[normalized(
                    name@,
                )].map_values(|x: u8| x as i8),
                None => !self.entry_map().dom().contains(normalized(name@)),
            },
    {
        match self.bytes(name) {
            Some(b) => Some(signed_bytes(b)),
            None => None,
        }
    }
}

} // verus!
