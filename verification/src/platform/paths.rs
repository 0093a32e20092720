//! Safe per-game host data paths.

use vstd::prelude::*;
use crate::platform::PlatformError;
use crate::text::{debug_quoted, debug_text, str_chars};

verus! {

#[verifier::external_type_specification]
#[verifier::external_body]
pub struct ExPath(std::path::Path);

#[verifier::external_type_specification]
#[verifier::external_body]
pub struct ExPathBuf(std::path::PathBuf);

/// Whether `c` may appear in a game slug.
pub open spec fn slug_char(c: char) -> bool {
    ('a' <= c <= 'z') || ('A' <= c <= 'Z') || ('0' <= c <= '9') || c == '-' || c == '_'
}

/// Whether a slug is safe as one path component: non-empty, not `.` or
/// `..`, and only ASCII letters, digits, `-` and `_`.
pub open spec fn safe_slug(slug: Seq<char>) -> bool {
    slug.len() > 0 && slug != "."@ && slug != ".."@ && forall|i: int| 0 <= i < slug.len() ==> slug_char(#[trigger] slug[i])
}

/// The message for an unsafe slug.
pub open spec fn unsafe_slug_message(slug: Seq<char>) -> Seq<char> {
    "unsafe slug "@ + debug_text(slug) + "; expected ASCII letters, digits, '-' or '_'"@
}

fn unsafe_slug(slug: &str) -> (r: PlatformError)
    ensures
        r matches PlatformError::Config(m) && m@ == unsafe_slug_message(slug@),
{
    let mut m = String::from_str("unsafe slug ");
    let q = debug_quoted(slug);
    m.append(q.as_str());
    m.append("; expected ASCII letters, digits, '-' or '_'");
    PlatformError::Config(m)
}

/// Refuse a slug that is not one safe path component.
pub fn validate_slug(slug: &str) -> (r: Result<(), PlatformError>)
    ensures
        safe_slug(slug@) ==> r is Ok,
        !safe_slug(slug@) ==> (r matches Err(PlatformError::Config(m)) && m@ == unsafe_slug_message(slug@)),
{
    let chars = str_chars(slug);
    if chars.len() == 0 {
        return Err(unsafe_slug(slug));
    }
    let mut i: usize = 0;
    while i < chars.len()
        invariant
            chars@ == slug@,
            i <= chars@.len(),
            forall|j: int| 0 <= j < i ==> slug_char(#[trigger] chars@[j]),
        decreases chars@.len() - i,
    {
        let c = chars[i];
        if !(('a' <= c && c <= 'z') || ('A' <= c && c <= 'Z') || ('0' <= c && c <= '9') || c == '-' || c == '_') {
            assert(!slug_char(slug@[i as int]));
            return Err(unsafe_slug(slug));
        }
        i += 1;
    }
    // Every character is a slug character, so the slug is neither `.` nor `..`.
    proof {
        reveal_strlit(".");
        reveal_strlit("..");
        if slug@ == "."@ || slug@ == ".."@ {
            assert(!slug_char(slug@[0]));
        }
    }
    Ok(())
}

/// What the `toml` crate reads for a top-level key of a document: its string
/// value, `None` when the key is absent or not a string, or the parse error's
/// message.
pub uninterp spec fn toml_top_string(document: Seq<char>, key: Seq<char>) -> Result<Option<Seq<char>>, Seq<char>>;

/// `str::parse::<toml::Value>` on the document, then `Value::get(key)` and
/// `Value::as_str`; a parse failure gives its `Display` text. The result is
/// named by `toml_top_string`.
#[verifier::external_body]
fn toml_string_at(document: &str, key: &str) -> (r: Result<Option<String>, String>)
    ensures
        match toml_top_string(document@, key@) {
            Ok(Some(v)) => r matches Ok(Some(x)) && x@ == v,
            Ok(None) => r matches Ok(None),
            Err(m) => r matches Err(e) && e@ == m,
        },
{
    match document.parse::<toml::Value>() {
        Ok(value) => Ok(value.get(key).and_then(toml::Value::as_str).map(str::to_owned)),
        Err(error) => Err(error.to_string()),
    }
}

/// Read the top-level `slug` from a `game.toml` document, and refuse an
/// unsafe one.
pub fn slug_from_game_toml(document: &str) -> (r: Result<String, PlatformError>)
    ensures
        match toml_top_string(document@, "slug"@) {
            Err(m) => r matches Err(PlatformError::Config(e)) && e@ == "invalid game.toml: "@ + m,
            Ok(None) => r matches Err(PlatformError::Config(e)) && e@ == "game.toml has no string slug"@,
            Ok(Some(slug)) => if safe_slug(slug) {
                r matches Ok(s) && s@ == slug
            } else {
                r matches Err(PlatformError::Config(e)) && e@ == unsafe_slug_message(slug)
            },
        },
{
    match toml_string_at(document, "slug") {
        Err(error) => {
            let mut m = String::from_str("invalid game.toml: ");
            m.append(error.as_str());
            Err(PlatformError::Config(m))
        },
        Ok(None) => Err(PlatformError::Config(String::from_str("game.toml has no string slug"))),
        Ok(Some(slug)) => match validate_slug(slug.as_str()) {
            Ok(()) => Ok(slug),
            Err(e) => Err(e),
        },
    }
}

/// The path `Path::join` forms from `base`, then `part`, then `slug`.
pub uninterp spec fn joined_dir(base: &std::path::Path, part: Seq<char>, slug: Seq<char>) -> std::path::PathBuf;

/// `Path::join` of `part` and then of `slug` onto `base`. The path it forms
/// is named by `joined_dir`; `Path` is opaque here.
#[verifier::external_body]
fn join_data_dir(base: &std::path::Path, part: &str, slug: &str) -> (r: std::path::PathBuf)
    ensures
        r == joined_dir(base, part@, slug@),
{
    base.join(part).join(slug)
}

/// The kit's namespace directory below a data root.
pub open spec fn kit_namespace() -> Seq<char> {
    "j2me"@
}

/// Join the kit namespace and a validated game slug below a known data root:
/// `base/j2me/slug`.
pub fn application_data_dir_in(base: &std::path::Path, slug: &str) -> (r: Result<std::path::PathBuf, PlatformError>)
    ensures
        safe_slug(slug@) ==> (r matches Ok(p) && p == joined_dir(base, kit_namespace(), slug@)),
        !safe_slug(slug@) ==> (r matches Err(PlatformError::Config(m)) && m@ == unsafe_slug_message(slug@)),
{
    match validate_slug(slug) {
        Ok(()) => Ok(join_data_dir(base, "j2me", slug)),
        Err(e) => Err(e),
    }
}

} // verus!
