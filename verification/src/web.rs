//! Small rules of the HTTP routes: client keys, text limits, image paths and query values.
use vstd::prelude::*;
use crate::text::{append_text, integer_text_value, chars_of, i64_to_text, is_ascii_alphanumeric, is_ascii_alphanumeric_spec, is_blank, push_char, string_of_range, trim, trim_spec};

verus! {

/// `value` cut to its first `max_chars` characters.
pub fn truncate_chars(value: &str, max_chars: usize) -> (r: String)
    ensures
        r@ == if value@.len() <= max_chars { value@ } else { value@.take(max_chars as int) },
{
    let cs = chars_of(value);
    let end = if cs.len() <= max_chars { cs.len() } else { max_chars };
    let r = string_of_range(&cs, 0, end);
    assert(value@.subrange(0, value@.len() as int) =~= value@);
    r
}

/// A refused write: the HTTP status and the message sent back.
#[derive(Debug)]
pub struct GuardRejection {
    pub status: u16,
    pub message: String,
}

/// A text field longer than allowed is refused as too large; the message names the field.
pub fn validate_chars(value: &str, field: &str, max_chars: usize) -> (r: Result<(), GuardRejection>)
    ensures
        r is Ok <==> value@.len() <= max_chars,
        r matches Err(e) ==> e.status == 413 && e.message@ == field@ + " is too long"@,
{
    let cs = chars_of(value);
    if cs.len() > max_chars {
        let mut m = String::new();
        append_text(&mut m, field);
        append_text(&mut m, " is too long");
        return Err(GuardRejection { status: 413, message: m });
    }
    Ok(())
}

/// Characters kept in a client key.
pub open spec fn key_char(c: char) -> bool {
    is_ascii_alphanumeric_spec(c) || c == '.' || c == ':' || c == '-' || c == '_'
}

/// The characters of `s` that satisfy `key_char`, in order.
pub open spec fn key_chars(s: Seq<char>) -> Seq<char>
    decreases s.len(),
{
    if s.len() == 0 {
        Seq::empty()
    } else {
        let prev = key_chars(s.drop_last());
        if key_char(s.last()) { prev.push(s.last()) } else { prev }
    }
}

/// The part of `s` before its first comma (all of it without one).
pub open spec fn before_comma(s: Seq<char>) -> Seq<char>
    decreases s.len(),
{
    if s.len() == 0 {
        Seq::empty()
    } else if s[0] == ',' {
        Seq::empty()
    } else {
        seq![s[0]] + before_comma(s.drop_first())
    }
}

/// The client key of a raw forwarded address: `prefix:` and the first address's allowed
/// characters (at most 80), or `prefix:unknown` when none is left.
pub open spec fn client_key(raw: Seq<char>, prefix: Seq<char>) -> Seq<char> {
    let kept = key_chars(trim_spec(before_comma(raw)));
    let k = if kept.len() <= 80 { kept } else { kept.take(80) };
    if k.len() == 0 { prefix + ":unknown"@ } else { prefix + seq![':'] + k }
}

fn first_field(cs: &Vec<char>) -> (n: usize)
    ensures
        n <= cs@.len(),
        cs@.take(n as int) == before_comma(cs@),
{
    let mut i: usize = 0;
    assert(cs@.take(0) =~= Seq::<char>::empty());
    assert(cs@.skip(0) =~= cs@);
    assert(Seq::<char>::empty() + before_comma(cs@) =~= before_comma(cs@));
    while i < cs.len() && cs[i] != ','
        invariant
            i <= cs@.len(),
            before_comma(cs@) == cs@.take(i as int) + before_comma(cs@.skip(i as int)),
        decreases cs@.len() - i,
    {
        assert(cs@.skip(i as int).drop_first() =~= cs@.skip(i + 1));
        assert(cs@.take(i + 1) =~= cs@.take(i as int) + seq![cs@[i as int]]);
        assert(cs@.skip(i as int)[0] == cs@[i as int]);
        i = i + 1;
    }
    if i < cs.len() {
        assert(cs@.skip(i as int)[0] == cs@[i as int]);
    } else {
        assert(cs@.skip(i as int) =~= Seq::<char>::empty());
    }
    assert(cs@.take(i as int) + Seq::<char>::empty() =~= cs@.take(i as int));
    i
}

pub fn normalize_client_key(raw: &str, prefix: &str) -> (r: String)
    ensures
        r@ == client_key(raw@, prefix@),
{
    let cs = chars_of(raw);
    let n = first_field(&cs);
    let head = string_of_range(&cs, 0, n);
    let t = trim(head.as_str());
    let tc = chars_of(t.as_str());
    let mut kept = String::new();
    let mut count: usize = 0;
    let mut i: usize = 0;
    while i < tc.len()
        invariant
            i <= tc@.len(),
            tc@ == t@,
            count == kept@.len(),
            kept@ == (if key_chars(tc@.take(i as int)).len() <= 80 { key_chars(tc@.take(i as int)) } else { key_chars(tc@.take(i as int)).take(80) }),
        decreases tc@.len() - i,
    {
        assert(tc@.take(i + 1).drop_last() =~= tc@.take(i as int));
        assert(tc@.take(i + 1).last() == tc@[i as int]);
        let c = tc[i];
        if is_ascii_alphanumeric(c) || c == '.' || c == ':' || c == '-' || c == '_' {
            if count < 80 {
                push_char(&mut kept, c);
                count = count + 1;
            }
            proof {
                let before = key_chars(tc@.take(i as int));
                assert(key_chars(tc@.take(i + 1)) == before.push(c));
                if before.len() < 80 {
                    assert(kept@ =~= before.push(c));
                } else {
                    assert(before.push(c).take(80) =~= before.take(80));
                }
            }
        }
        i = i + 1;
    }
    assert(tc@.take(tc@.len() as int) =~= tc@);
    let mut out = String::new();
    append_text(&mut out, prefix);
    if count == 0 {
        append_text(&mut out, ":unknown");
    } else {
        push_char(&mut out, ':');
        append_text(&mut out, kept.as_str());
    }
    assert(head@ == before_comma(raw@));
    out
}

#[derive(Clone, Copy, PartialEq, Eq, Structural)]
pub enum ImageKind {
    Character,
    Subject,
}

#[derive(Clone, Copy, PartialEq, Eq, Structural)]
pub enum ImageVariant {
    Grid,
    Medium,
}

impl ImageVariant {
    /// The variant a `variant` query value asks for: `medium`, else the grid image.
    pub fn from_query(variant: Option<&str>) -> (r: ImageVariant)
        ensures
            r == (if variant matches Some(v) && v@ == "medium"@ { ImageVariant::Medium } else { ImageVariant::Grid }),
    {
        match variant {
            Some(v) => if crate::text::text_eq(v, "medium") { ImageVariant::Medium } else { ImageVariant::Grid },
            None => ImageVariant::Grid,
        }
    }

    pub fn as_str(self) -> (r: &'static str)
        ensures
            r@ == (match self { ImageVariant::Grid => "grid"@, ImageVariant::Medium => "medium"@ }),
    {
        match self {
            ImageVariant::Grid => "grid",
            ImageVariant::Medium => "medium",
        }
    }
}

/// The key of a cached image: the id, prefixed by `m:`, `s:` or `sm:` for the medium,
/// subject and medium subject images.
pub open spec fn cache_key(kind: ImageKind, variant: ImageVariant, id: i64) -> Seq<char> {
    let d = crate::text::decimal_text(id as int);
    match (kind, variant) {
        (ImageKind::Character, ImageVariant::Grid) => d,
        (ImageKind::Character, ImageVariant::Medium) => "m:"@ + d,
        (ImageKind::Subject, ImageVariant::Grid) => "s:"@ + d,
        (ImageKind::Subject, ImageVariant::Medium) => "sm:"@ + d,
    }
}

pub fn image_cache_key(kind: ImageKind, variant: ImageVariant, id: i64) -> (r: String)
    ensures
        r@ == cache_key(kind, variant, id),
{
    let d = i64_to_text(id);
    let mut out = String::new();
    match (kind, variant) {
        (ImageKind::Character, ImageVariant::Grid) => {},
        (ImageKind::Character, ImageVariant::Medium) => append_text(&mut out, "m:"),
        (ImageKind::Subject, ImageVariant::Grid) => append_text(&mut out, "s:"),
        (ImageKind::Subject, ImageVariant::Medium) => append_text(&mut out, "sm:"),
    }
    append_text(&mut out, d.as_str());
    out
}

/// The path the proxy serves an image at.
pub open spec fn proxy_url(kind: ImageKind, variant: ImageVariant, id: i64) -> Seq<char> {
    let d = crate::text::decimal_text(id as int);
    let dir = match (kind, variant) {
        (ImageKind::Character, ImageVariant::Grid) => "/img/"@,
        (ImageKind::Character, ImageVariant::Medium) => "/img/medium/"@,
        (ImageKind::Subject, ImageVariant::Grid) => "/img/subject/"@,
        (ImageKind::Subject, ImageVariant::Medium) => "/img/subject/medium/"@,
    };
    dir + d + ".webp"@
}

pub fn image_proxy_url(kind: ImageKind, variant: ImageVariant, id: i64) -> (r: String)
    ensures
        r@ == proxy_url(kind, variant, id),
{
    let d = i64_to_text(id);
    let mut out = String::new();
    match (kind, variant) {
        (ImageKind::Character, ImageVariant::Grid) => append_text(&mut out, "/img/"),
        (ImageKind::Character, ImageVariant::Medium) => append_text(&mut out, "/img/medium/"),
        (ImageKind::Subject, ImageVariant::Grid) => append_text(&mut out, "/img/subject/"),
        (ImageKind::Subject, ImageVariant::Medium) => append_text(&mut out, "/img/subject/medium/"),
    }
    append_text(&mut out, d.as_str());
    append_text(&mut out, ".webp");
    out
}

/// The image source for a variant: its own address when not blank, else the other one.
pub open spec fn image_source(medium: Seq<char>, grid: Seq<char>, variant: ImageVariant) -> Option<Seq<char>> {
    let m = trim_spec(medium);
    let g = trim_spec(grid);
    let (first, second) = match variant { ImageVariant::Grid => (g, m), ImageVariant::Medium => (m, g) };
    if first.len() > 0 { Some(first) } else if second.len() > 0 { Some(second) } else { None }
}

pub fn choose_image_source(image_medium: String, image_grid: String, variant: ImageVariant) -> (r: Option<String>)
    ensures
        crate::settings::opt_text(r) == image_source(image_medium@, image_grid@, variant),
{
    let medium = trim(image_medium.as_str());
    let grid = trim(image_grid.as_str());
    let (first, second) = match variant {
        ImageVariant::Grid => (grid, medium),
        ImageVariant::Medium => (medium, grid),
    };
    let empty = "";
    proof { reveal_strlit(""); }
    if !crate::text::text_eq(first.as_str(), empty) {
        assert(first@.len() > 0) by { if first@.len() == 0 { assert(first@ =~= empty@); } }
        Some(first)
    } else if !crate::text::text_eq(second.as_str(), empty) {
        assert(second@.len() > 0) by { if second@.len() == 0 { assert(second@ =~= empty@); } }
        Some(second)
    } else {
        None
    }
}

/// The number of entries a listing returns: 30 by default, between 1 and 100.
pub fn normalize_limit(limit: Option<i64>) -> (r: i64)
    ensures
        r == (match limit { Some(l) => if l < 1 { 1 } else if l > 100 { 100 } else { l }, None => 30 }),
{
    match limit {
        Some(l) => if l < 1 { 1 } else if l > 100 { 100 } else { l },
        None => 30,
    }
}

/// What `str::parse::<i64>` gives for a text: the number it writes, where that fits.
pub open spec fn parsed_i64(s: Seq<char>) -> Option<i64> {
    match integer_text_value(s, true) {
        Some(v) => if i64::MIN <= v <= i64::MAX { Some(v as i64) } else { None },
        None => None,
    }
}

/// `str::parse::<i64>`: as its documentation has it, an optional `+` or `-` sign followed
/// by ASCII digits and nothing else, within the range of `i64`; `None` otherwise.
#[verifier::external_body]
pub fn parse_i64(s: &str) -> (r: Option<i64>)
    ensures
        r == parsed_i64(s@),
{
    s.parse::<i64>().ok()
}

/// A positive id from a query value; otherwise the message `key must be a positive number`.
pub fn positive_query_id(value: Option<&str>, key: &str) -> (r: Result<i64, String>)
    ensures
        match r {
            Ok(id) => value matches Some(v) && parsed_i64(v@) == Some(id) && id > 0,
            Err(m) => !(value matches Some(v) && parsed_i64(v@) matches Some(id) && id > 0)
                && m@ == key@ + " must be a positive number"@,
        },
{
    match value {
        Some(v) => match parse_i64(v) {
            Some(id) => if id > 0 { return Ok(id); },
            None => {},
        },
        None => {},
    }
    let mut m = String::new();
    append_text(&mut m, key);
    append_text(&mut m, " must be a positive number");
    Err(m)
}

} // verus!
