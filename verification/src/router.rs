//! Routing helpers: tag filters for list operations, percent-decoding, URI
//! templates for resource lookup, and the naming rules of mounting.
use vstd::prelude::*;
use vstd::string::StringSliceAdditionalSpecFns;
use crate::crypto::{base64_standard_decode, base64_standard_decoded, base64_standard_encode, base64_standard_of};
use crate::mcp::{McpError, McpErrorCode};
use crate::json::{json_object, json_object_doc, json_u64_field, json_u64_member, members_view, JsonScalar, ScalarView};
use crate::oauth::{clone_strings, is_unreserved, url_encode_byte, url_encode_bytes, url_encoded};
use crate::store::{key_texts, keys_unique, lemma_entry_in_map, text_values, StrMap, StrSet};
use crate::text::{
    decimal_text, u64_to_decimal, has_prefix, hex_upper_char, is_alphanumeric, str_chars, string_from_chars, string_from_utf8, string_push,
    opt_text, text_before, text_less, texts, to_lowercase, unicode_alphanumeric, lower_text,
};

verus! {

broadcast use vstd::string::group_string_axioms;

// ============================================================================
// Tag filters
// ============================================================================

/// Tag filtering parameters for list operations.
#[derive(Debug, Clone, Default)]
pub struct TagFilters<'a> {
    /// Components must carry ALL of these tags (AND logic).
    pub all_of: Option<&'a [String]>,
    /// Components with ANY of these tags are left out (OR logic).
    pub none_of: Option<&'a [String]>,
}

/// The texts of an optional list of tags.
pub open spec fn opt_tags(o: Option<&[String]>) -> Option<Seq<Seq<char>>> {
    match o {
        Some(v) => Some(texts(v@)),
        None => None,
    }
}

/// Whether some tag of `tags` has the lower-case form `lower`.
pub open spec fn has_lower_tag(tags: Seq<Seq<char>>, lower: Seq<char>) -> bool {
    exists|j: int| 0 <= j < tags.len() && #[trigger] lower_text(tags[j]) == lower
}

/// Whether a component with tags `tags` passes the filters: it carries every
/// wanted tag (an empty or absent list of them asks for none) and none of the
/// unwanted ones, comparing lower-case forms.
pub open spec fn tags_pass(
    wanted: Option<Seq<Seq<char>>>,
    unwanted: Option<Seq<Seq<char>>>,
    tags: Seq<Seq<char>>,
) -> bool {
    all_tags_present(wanted, tags) && no_tag_present(unwanted, tags)
}

/// Whether every tag of `wanted`, if given, is among `tags` up to case.
pub open spec fn all_tags_present(wanted: Option<Seq<Seq<char>>>, tags: Seq<Seq<char>>) -> bool {
    wanted is Some ==> forall|i: int|
        0 <= i < wanted->0.len() ==> #[trigger] has_lower_tag(tags, lower_text(wanted->0[i]))
}

/// Whether no tag of `unwanted`, if given, is among `tags` up to case.
pub open spec fn no_tag_present(unwanted: Option<Seq<Seq<char>>>, tags: Seq<Seq<char>>) -> bool {
    unwanted is Some ==> forall|i: int|
        0 <= i < unwanted->0.len() ==> !#[trigger] has_lower_tag(tags, lower_text(unwanted->0[i]))
}

/// The lower-case forms of `tags`, in order.
fn lowercase_all(tags: &[String]) -> (r: Vec<String>)
    ensures
        r@.len() == tags@.len(),
        forall|j: int| 0 <= j < tags@.len() ==> #[trigger] r@[j]@ == lower_text(tags@[j]@),
{
    let mut r: Vec<String> = Vec::new();
    let mut i: usize = 0;
    while i < tags.len()
        invariant
            i <= tags@.len(),
            r@.len() == i,
            forall|j: int| 0 <= j < i ==> #[trigger] r@[j]@ == lower_text(tags@[j]@),
        decreases tags@.len() - i,
    {
        let l = to_lowercase(tags[i].as_str());
        r.push(l);
        i += 1;
    }
    r
}

/// Whether some tag of `tags` has the lower-case form `lower`, given the
/// lower-case forms `lowered` of the tags.
fn contains_lowered(lowered: &Vec<String>, Ghost(tags): Ghost<Seq<Seq<char>>>, lower: &String) -> (r: bool)
    requires
        lowered@.len() == tags.len(),
        forall|j: int| 0 <= j < tags.len() ==> #[trigger] lowered@[j]@ == lower_text(tags[j]),
    ensures
        r == has_lower_tag(tags, lower@),
{
    let mut i: usize = 0;
    while i < lowered.len()
        invariant
            i <= lowered@.len(),
            lowered@.len() == tags.len(),
            forall|j: int| 0 <= j < tags.len() ==> #[trigger] lowered@[j]@ == lower_text(tags[j]),
            forall|j: int| 0 <= j < i ==> lower_text(tags[j]) != lower@,
        decreases lowered@.len() - i,
    {
        if lowered[i] == *lower {
            assert(lowered@[i as int]@ == lower_text(tags[i as int]));
            return true;
        }
        i += 1;
    }
    false
}

impl<'a> TagFilters<'a> {
    /// Creates tag filters from wanted and unwanted lists.
    pub fn new(wanted: Option<&'a Vec<String>>, unwanted: Option<&'a Vec<String>>) -> (f: Self)
        ensures
            opt_tags(f.all_of) == match wanted {
                Some(v) => Some(texts(v@)),
                None => None::<Seq<Seq<char>>>,
            },
            opt_tags(f.none_of) == match unwanted {
                Some(v) => Some(texts(v@)),
                None => None::<Seq<Seq<char>>>,
            },
    {
        let inc = match wanted {
            Some(v) => Some(v.as_slice()),
            None => None,
        };
        let exc = match unwanted {
            Some(v) => Some(v.as_slice()),
            None => None,
        };
        TagFilters { all_of: inc, none_of: exc }
    }

    /// Returns true if the given component tags pass the filter.
    ///
    /// - A component must have ALL wanted tags (AND logic)
    /// - A component is rejected if it has ANY unwanted tag (OR logic)
    /// - Tag matching is case-insensitive
    pub fn matches(&self, component_tags: &[String]) -> (r: bool)
        ensures
            r == tags_pass(opt_tags(self.all_of), opt_tags(self.none_of), texts(component_tags@)),
    {
        let lower = lowercase_all(component_tags);
        let ghost tags = texts(component_tags@);
        if let Some(wanted) = self.all_of {
            let mut i: usize = 0;
            while i < wanted.len()
                invariant
                    self.all_of == Some(wanted),
                    i <= wanted@.len(),
                    tags == texts(component_tags@),
                    lower@.len() == tags.len(),
                    forall|j: int| 0 <= j < tags.len() ==> #[trigger] lower@[j]@ == lower_text(tags[j]),
                    forall|j: int| 0 <= j < i ==> has_lower_tag(tags, #[trigger] lower_text(texts(wanted@)[j])),
                decreases wanted@.len() - i,
            {
                let t = to_lowercase(wanted[i].as_str());
                if !contains_lowered(&lower, Ghost(tags), &t) {
                    let ghost w = texts(wanted@);
                    assert(0 <= i < w.len());
                    assert(!has_lower_tag(tags, lower_text(w[i as int])));
                    assert(opt_tags(self.all_of) == Some(w));
                    assert(Some(w)->0 == w);
                    assert(!tags_pass(opt_tags(self.all_of), opt_tags(self.none_of), tags));
                    return false;
                }
                i += 1;
            }
        }
        if let Some(unwanted) = self.none_of {
            let mut i: usize = 0;
            while i < unwanted.len()
                invariant
                    self.none_of == Some(unwanted),
                    i <= unwanted@.len(),
                    tags == texts(component_tags@),
                    lower@.len() == tags.len(),
                    forall|j: int| 0 <= j < tags.len() ==> #[trigger] lower@[j]@ == lower_text(tags[j]),
                    forall|j: int| 0 <= j < i ==> !has_lower_tag(tags, #[trigger] lower_text(texts(unwanted@)[j])),
                decreases unwanted@.len() - i,
            {
                let t = to_lowercase(unwanted[i].as_str());
                if contains_lowered(&lower, Ghost(tags), &t) {
                    let ghost u = texts(unwanted@);
                    assert(0 <= i < u.len());
                    assert(has_lower_tag(tags, lower_text(u[i as int])));
                    assert(opt_tags(self.none_of) == Some(u));
                    assert(Some(u)->0 == u);
                    assert(!tags_pass(opt_tags(self.all_of), opt_tags(self.none_of), tags));
                    return false;
                }
                i += 1;
            }
        }
        true
    }
}

// ============================================================================
// Percent-decoding
// ============================================================================

/// The value of the hexadecimal digit byte `b`, if it is one.
pub open spec fn hex_value(b: u8) -> Option<u8> {
    if 48 <= b && b <= 57 {
        Some((b - 48) as u8)
    } else if 97 <= b && b <= 102 {
        Some((b - 97 + 10) as u8)
    } else if 65 <= b && b <= 70 {
        Some((b - 65 + 10) as u8)
    } else {
        None
    }
}

/// Decodes a hexadecimal digit byte.
pub fn from_hex(byte: u8) -> (r: Option<u8>)
    ensures
        r == hex_value(byte),
{
    if 48 <= byte && byte <= 57 {
        Some(byte - 48)
    } else if 97 <= byte && byte <= 102 {
        Some(byte - 97 + 10)
    } else if 65 <= byte && byte <= 70 {
        Some(byte - 65 + 10)
    } else {
        None
    }
}

/// The bytes of `b` with each `%` and two hexadecimal digits replaced by the
/// byte they denote; `None` where a `%` is not followed by two such digits.
pub open spec fn percent_decoded_bytes(b: Seq<u8>) -> Option<Seq<u8>>
    decreases b.len(),
{
    if b.len() == 0 {
        Some(Seq::empty())
    } else if b[0] == 37 {
        if b.len() < 3 {
            None
        } else {
            match (hex_value(b[1]), hex_value(b[2]), percent_decoded_bytes(b.skip(3))) {
                (Some(h), Some(l), Some(rest)) => Some(seq![(h * 16 + l) as u8] + rest),
                _ => None,
            }
        }
    } else {
        match percent_decoded_bytes(b.drop_first()) {
            Some(rest) => Some(seq![b[0]] + rest),
            None => None,
        }
    }
}

/// The text that `s` percent-decodes to: `None` where an escape is malformed
/// or the decoded bytes are not UTF-8.
pub open spec fn percent_decoded(s: Seq<char>) -> Option<Seq<char>> {
    match percent_decoded_bytes(vstd::utf8::encode_utf8(s)) {
        Some(b) => if vstd::utf8::valid_utf8(b) {
            Some(vstd::utf8::decode_utf8(b))
        } else {
            None
        },
        None => None,
    }
}

/// Percent-decodes `input`.
pub fn percent_decode(input: &str) -> (r: Option<String>)
    ensures
        r is Some <==> percent_decoded(input@) is Some,
        r is Some ==> r->0@ == percent_decoded(input@)->0,
{
    let bytes = input.as_bytes();
    let ghost all = bytes@;
    assert(all == vstd::utf8::encode_utf8(input@));
    let mut out: Vec<u8> = Vec::new();
    let mut i: usize = 0;
    assert(all.skip(0) =~= all);
    while i < bytes.len()
        invariant
            all == bytes@,
            all == vstd::utf8::encode_utf8(input@),
            i <= all.len(),
            percent_decoded_bytes(all) == match percent_decoded_bytes(all.skip(i as int)) {
                Some(rest) => Some(out@ + rest),
                None => None::<Seq<u8>>,
            },
        decreases all.len() - i,
    {
        let ghost tail = all.skip(i as int);
        assert(tail[0] == all[i as int]);
        if bytes[i] == 37 {
            if bytes.len() - i <= 2 {
                assert(percent_decoded_bytes(tail) is None);
                return None;
            }
            assert(tail[1] == all[i + 1] && tail[2] == all[i + 2]);
            let hi = match from_hex(bytes[i + 1]) {
                Some(h) => h,
                None => {
                    assert(percent_decoded_bytes(tail) is None);
                    return None;
                },
            };
            let lo = match from_hex(bytes[i + 2]) {
                Some(l) => l,
                None => {
                    assert(percent_decoded_bytes(tail) is None);
                    return None;
                },
            };
            let value = (hi << 4u8) | lo;
            assert(value == (hi * 16 + lo) as u8) by (bit_vector)
                requires
                    hi < 16,
                    lo < 16,
                    value == (hi << 4u8) | lo,
            ;
            assert(tail.skip(3) =~= all.skip(i + 3));
            let ghost before = out@;
            out.push(value);
            assert(before + (seq![value] + percent_decoded_bytes(all.skip(i + 3))->0) =~= out@
                + percent_decoded_bytes(all.skip(i + 3))->0);
            i += 3;
        } else {
            assert(tail.drop_first() =~= all.skip(i + 1));
            let ghost before = out@;
            out.push(bytes[i]);
            assert(before + (seq![bytes@[i as int]] + percent_decoded_bytes(all.skip(i + 1))->0)
                =~= out@ + percent_decoded_bytes(all.skip(i + 1))->0);
            i += 1;
        }
    }
    assert(out@ + Seq::<u8>::empty() =~= out@);
    string_from_utf8(out)
}

} // verus!

verus! {

// ============================================================================
// URI templates
// ============================================================================

/// A part of a URI template: literal text, or a named parameter.
#[derive(Debug, Clone)]
pub enum UriSegment {
    /// Text that must appear as it is.
    Literal(String),
    /// A parameter that matches a non-empty value.
    Param(String),
}

/// A segment as texts.
pub enum SegmentView {
    Literal(Seq<char>),
    Param(Seq<char>),
}

impl View for UriSegment {
    type V = SegmentView;

    open spec fn view(&self) -> SegmentView {
        match self {
            UriSegment::Literal(s) => SegmentView::Literal(s@),
            UriSegment::Param(s) => SegmentView::Param(s@),
        }
    }
}

/// Why a URI template pattern is invalid.
#[derive(Debug, Clone, PartialEq, Eq)]
pub enum UriTemplateError {
    /// A `{` without a closing `}`.
    UnclosedParam,
    /// A `}` that closes nothing and is not doubled.
    UnmatchedClose,
    /// A parameter with an empty name.
    EmptyParam,
    /// A parameter name used twice.
    DuplicateParam(String),
}

/// A template error as texts.
pub enum TemplateErrorView {
    UnclosedParam,
    UnmatchedClose,
    EmptyParam,
    DuplicateParam(Seq<char>),
}

impl View for UriTemplateError {
    type V = TemplateErrorView;

    open spec fn view(&self) -> TemplateErrorView {
        match self {
            UriTemplateError::UnclosedParam => TemplateErrorView::UnclosedParam,
            UriTemplateError::UnmatchedClose => TemplateErrorView::UnmatchedClose,
            UriTemplateError::EmptyParam => TemplateErrorView::EmptyParam,
            UriTemplateError::DuplicateParam(s) => TemplateErrorView::DuplicateParam(s@),
        }
    }
}

/// The views of a sequence of segments.
pub open spec fn segment_views(v: Seq<UriSegment>) -> Seq<SegmentView> {
    v.map_values(|s: UriSegment| s@)
}

/// Whether `segs` has a parameter named `name`.
pub open spec fn has_param(segs: Seq<SegmentView>, name: Seq<char>) -> bool {
    exists|k: int| 0 <= k < segs.len() && #[trigger] segs[k] == SegmentView::Param(name)
}

/// The first position at or after `i` where `p` holds `c`.
pub open spec fn first_from(p: Seq<char>, i: int, c: char) -> Option<int>
    decreases p.len() - i,
{
    if i < 0 || i >= p.len() {
        None
    } else if p[i] == c {
        Some(i)
    } else {
        first_from(p, i + 1, c)
    }
}

/// Where `first_from` finds a position, it lies in range, holds `c`, and no
/// earlier position from `i` on does.
pub proof fn lemma_first_from(p: Seq<char>, i: int, c: char)
    ensures
        first_from(p, i, c) matches Some(j) ==> i <= j < p.len() && p[j] == c && forall|k: int|
            i <= k < j ==> p[k] != c,
        first_from(p, i, c) is None && 0 <= i ==> forall|k: int| i <= k < p.len() ==> p[k] != c,
    decreases p.len() - i,
{
    if i >= 0 && i < p.len() && p[i] != c {
        lemma_first_from(p, i + 1, c);
    }
}

/// `segs` with the literal `lit` appended where it is not empty.
pub open spec fn flush_literal(segs: Seq<SegmentView>, lit: Seq<char>) -> Seq<SegmentView> {
    if lit.len() > 0 {
        segs.push(SegmentView::Literal(lit))
    } else {
        segs
    }
}

/// The segments of the pattern `p` read from position `i` on, given the
/// segments `segs` before and the literal text `lit` pending: `{{` and `}}`
/// stand for a brace, `{name}` for a parameter, anything else for itself.
pub open spec fn parse_from(p: Seq<char>, i: int, lit: Seq<char>, segs: Seq<SegmentView>) -> Result<
    Seq<SegmentView>,
    TemplateErrorView,
>
    decreases p.len() - i,
{
    if i < 0 || i >= p.len() {
        Ok(flush_literal(segs, lit))
    } else if p[i] == '{' {
        if i + 1 < p.len() && p[i + 1] == '{' {
            parse_from(p, i + 2, lit.push('{'), segs)
        } else {
            let before = flush_literal(segs, lit);
            proof {
                lemma_first_from(p, i + 1, '}');
            }
            match first_from(p, i + 1, '}') {
                None => Err(TemplateErrorView::UnclosedParam),
                Some(j) => {
                    let name = p.subrange(i + 1, j);
                    if name.len() == 0 {
                        Err(TemplateErrorView::EmptyParam)
                    } else if has_param(before, name) {
                        Err(TemplateErrorView::DuplicateParam(name))
                    } else {
                        parse_from(p, j + 1, Seq::empty(), before.push(SegmentView::Param(name)))
                    }
                },
            }
        }
    } else if p[i] == '}' {
        if i + 1 < p.len() && p[i + 1] == '}' {
            parse_from(p, i + 2, lit.push('}'), segs)
        } else {
            Err(TemplateErrorView::UnmatchedClose)
        }
    } else {
        parse_from(p, i + 1, lit.push(p[i]), segs)
    }
}

/// The segments of the pattern `p`, or why it is invalid.
pub open spec fn parse_template(p: Seq<char>) -> Result<Seq<SegmentView>, TemplateErrorView> {
    parse_from(p, 0, Seq::empty(), Seq::empty())
}

/// The text of the literal that never matches, used for invalid patterns.
pub open spec fn invalid_marker() -> Seq<char> {
    seq!['\0', 'I', 'N', 'V', 'A', 'L', 'I', 'D', '\0']
}

/// A parsed URI template for matching resource URIs.
#[derive(Debug, Clone)]
pub struct UriTemplate {
    pattern: String,
    segments: Vec<UriSegment>,
}

/// The first position in `s` where `lit` occurs, searching from `i`.
pub open spec fn occurrence_from(s: Seq<char>, lit: Seq<char>, i: int) -> Option<int>
    decreases s.len() + 1 - i,
{
    if i < 0 || i + lit.len() > s.len() {
        None
    } else if has_prefix(s.skip(i), lit) {
        Some(i)
    } else {
        occurrence_from(s, lit, i + 1)
    }
}

/// The number of parameter segments in `segs`.
pub open spec fn param_count(segs: Seq<SegmentView>) -> nat
    decreases segs.len(),
{
    if segs.len() == 0 {
        0
    } else {
        param_count(segs.drop_last()) + if segs.last() is Param { 1nat } else { 0nat }
    }
}

/// The end of the value of a last parameter in `rem`: everything where
/// slashes are allowed, else up to the first slash.
pub open spec fn last_value_end(rem: Seq<char>, slash_ok: bool) -> int {
    if slash_ok {
        rem.len() as int
    } else {
        match first_from(rem, 0, '/') {
            Some(k) => k,
            None => rem.len() as int,
        }
    }
}

/// Matches `rem` against the segments of `segs` from `k` on, with the
/// parameters found so far in `acc`.  A parameter before a literal takes the
/// text up to the literal's first occurrence; a parameter last takes the rest
/// (up to the first `/` unless it is the template's only parameter); two
/// parameters in a row never match; every value must be non-empty and
/// percent-decode.
pub open spec fn match_from(
    segs: Seq<SegmentView>,
    k: int,
    rem: Seq<char>,
    slash_ok: bool,
    acc: Map<Seq<char>, Seq<char>>,
) -> Option<Map<Seq<char>, Seq<char>>>
    decreases segs.len() - k,
{
    if k < 0 || k >= segs.len() {
        if rem.len() == 0 {
            Some(acc)
        } else {
            None
        }
    } else {
        match segs[k] {
            SegmentView::Literal(lit) => if has_prefix(rem, lit) {
                match_from(segs, k + 1, rem.skip(lit.len() as int), slash_ok, acc)
            } else {
                None
            },
            SegmentView::Param(name) => if k + 1 < segs.len() {
                match segs[k + 1] {
                    SegmentView::Param(_) => None,
                    SegmentView::Literal(lit) => match occurrence_from(rem, lit, 0) {
                        None => None,
                        Some(idx) => if idx == 0 {
                            None
                        } else {
                            match percent_decoded(rem.take(idx)) {
                                None => None,
                                Some(v) => match_from(segs, k + 1, rem.skip(idx), slash_ok, acc.insert(name, v)),
                            }
                        },
                    },
                }
            } else if rem.len() == 0 {
                None
            } else {
                let end = last_value_end(rem, slash_ok);
                if end == 0 {
                    None
                } else {
                    match percent_decoded(rem.take(end)) {
                        None => None,
                        Some(v) => match_from(segs, k + 1, rem.skip(end), slash_ok, acc.insert(name, v)),
                    }
                }
            },
        }
    }
}

/// The parameters that `uri` binds when it matches the segments `segs`.
pub open spec fn template_match(segs: Seq<SegmentView>, uri: Seq<char>) -> Option<Map<Seq<char>, Seq<char>>> {
    match_from(segs, 0, uri, param_count(segs) == 1, Map::empty())
}

/// The text of the segments of `segs` from `k` on, with each literal as it
/// is and the parameter at position `j` replaced by `raws[j]`.
pub open spec fn filled(segs: Seq<SegmentView>, k: int, raws: Seq<Seq<char>>) -> Seq<char>
    decreases segs.len() - k,
{
    if k < 0 || k >= segs.len() {
        Seq::empty()
    } else {
        match segs[k] {
            SegmentView::Literal(lit) => lit + filled(segs, k + 1, raws),
            SegmentView::Param(_) => raws[k] + filled(segs, k + 1, raws),
        }
    }
}

/// Whether no two parameters of `segs` share a name.
pub open spec fn param_names_distinct(segs: Seq<SegmentView>) -> bool {
    forall|i: int, j: int|
        0 <= i < j < segs.len() && #[trigger] segs[i] is Param && #[trigger] segs[j] is Param ==> segs[i]->Param_0
            != segs[j]->Param_0
}

/// `filled` from `k` on reads `raws` only from `k` on.
proof fn lemma_filled_agree(segs: Seq<SegmentView>, k: int, a: Seq<Seq<char>>, b: Seq<Seq<char>>)
    requires
        forall|j: int| k <= j < segs.len() ==> a[j] == b[j],
    ensures
        filled(segs, k, a) == filled(segs, k, b),
    decreases segs.len() - k,
{
    if k >= 0 && k < segs.len() {
        lemma_filled_agree(segs, k + 1, a, b);
    }
}

/// Whether `raws` witnesses what a match of `rem` from segment `k` on bound
/// in `m`: `rem` is the segments from `k` with each parameter replaced by its
/// non-empty raw text, which percent-decodes to the value `m` holds for the
/// parameter's name.
#[verifier::opaque]
pub open spec fn binds_from(
    segs: Seq<SegmentView>,
    k: int,
    rem: Seq<char>,
    raws: Seq<Seq<char>>,
    m: Map<Seq<char>, Seq<char>>,
) -> bool {
    &&& raws.len() == segs.len()
    &&& filled(segs, k, raws) == rem
    &&& forall|j: int|
        k <= j < segs.len() && #[trigger] segs[j] is Param ==> raws[j].len() > 0 && m.dom().contains(
            segs[j]->Param_0,
        ) && percent_decoded(raws[j]) == Some(m[segs[j]->Param_0])
}

/// Whether `m` keeps the values of `acc` under every name that no parameter
/// from segment `k` on has.
#[verifier::opaque]
pub open spec fn keeps_from(segs: Seq<SegmentView>, k: int, acc: Map<Seq<char>, Seq<char>>, m: Map<Seq<char>, Seq<char>>) -> bool {
    forall|n: Seq<char>|
        acc.dom().contains(n) && no_param_named(segs, k, n) ==> #[trigger] m.dom().contains(n) && m[n] == acc[n]
}

/// Whether no parameter from segment `k` on is named `n`.
pub open spec fn no_param_named(segs: Seq<SegmentView>, k: int, n: Seq<char>) -> bool {
    forall|j: int| k <= j < segs.len() && #[trigger] segs[j] is Param ==> segs[j]->Param_0 != n
}

/// A literal segment adds its text in front of what the rest bound.
proof fn lemma_literal_step(
    segs: Seq<SegmentView>,
    k: int,
    rem: Seq<char>,
    lit: Seq<char>,
    raws: Seq<Seq<char>>,
    acc: Map<Seq<char>, Seq<char>>,
    m: Map<Seq<char>, Seq<char>>,
)
    requires
        0 <= k < segs.len(),
        segs[k] == SegmentView::Literal(lit),
        has_prefix(rem, lit),
        binds_from(segs, k + 1, rem.skip(lit.len() as int), raws, m),
        keeps_from(segs, k + 1, acc, m),
    ensures
        binds_from(segs, k, rem, raws, m),
        keeps_from(segs, k, acc, m),
{
    reveal(binds_from);
    reveal(keeps_from);
    assert(rem =~= lit + rem.skip(lit.len() as int));
    assert forall|n: Seq<char>| acc.dom().contains(n) && no_param_named(segs, k, n) implies #[trigger] m.dom().contains(
        n,
    ) && m[n] == acc[n] by {
        assert(no_param_named(segs, k + 1, n));
    }
}

/// A parameter segment puts its raw text in front of what the rest bound.
proof fn lemma_param_step(
    segs: Seq<SegmentView>,
    k: int,
    rem: Seq<char>,
    end: int,
    name: Seq<char>,
    v: Seq<char>,
    raws0: Seq<Seq<char>>,
    acc: Map<Seq<char>, Seq<char>>,
    m: Map<Seq<char>, Seq<char>>,
)
    requires
        0 <= k < segs.len(),
        segs[k] == SegmentView::Param(name),
        param_names_distinct(segs),
        0 < end <= rem.len(),
        percent_decoded(rem.take(end)) == Some(v),
        binds_from(segs, k + 1, rem.skip(end), raws0, m),
        keeps_from(segs, k + 1, acc.insert(name, v), m),
    ensures
        binds_from(segs, k, rem, raws0.update(k, rem.take(end)), m),
        keeps_from(segs, k, acc, m),
{
    reveal(binds_from);
    reveal(keeps_from);
    let acc2 = acc.insert(name, v);
    let raws = raws0.update(k, rem.take(end));
    lemma_filled_agree(segs, k + 1, raws, raws0);
    assert(rem =~= rem.take(end) + rem.skip(end));
    assert forall|j: int| k + 1 <= j < segs.len() && #[trigger] segs[j] is Param implies segs[j]->Param_0
        != name by {
        assert(segs[k] is Param);
    }
    assert(no_param_named(segs, k + 1, name));
    assert(acc2.dom().contains(name) && acc2[name] == v);
    assert(keeps_from(segs, k + 1, acc2, m));
    assert(m.dom().contains(name) && m[name] == acc2[name]);
    assert forall|j: int| k <= j < segs.len() && #[trigger] segs[j] is Param implies raws[j].len() > 0
        && m.dom().contains(segs[j]->Param_0) && percent_decoded(raws[j]) == Some(m[segs[j]->Param_0]) by {
        if j > k {
            assert(raws[j] == raws0[j]);
        }
    }
    assert forall|n: Seq<char>| acc.dom().contains(n) && no_param_named(segs, k, n) implies #[trigger] m.dom().contains(
        n,
    ) && m[n] == acc[n] by {
        assert(segs[k] is Param);
        assert(name != n);
        assert(acc2.dom().contains(n) && acc2[n] == acc[n]);
        assert(no_param_named(segs, k + 1, n));
    }
}

/// What a successful match from `k` on binds is witnessed by raw texts, and
/// it keeps the names bound before that no later parameter has.
proof fn lemma_match_witness(
    segs: Seq<SegmentView>,
    k: int,
    rem: Seq<char>,
    slash_ok: bool,
    acc: Map<Seq<char>, Seq<char>>,
)
    requires
        0 <= k <= segs.len(),
        param_names_distinct(segs),
        match_from(segs, k, rem, slash_ok, acc) is Some,
    ensures
        exists|raws: Seq<Seq<char>>|
            binds_from(segs, k, rem, raws, match_from(segs, k, rem, slash_ok, acc)->0),
        keeps_from(segs, k, acc, match_from(segs, k, rem, slash_ok, acc)->0),
    decreases segs.len() - k,
{
    let m = match_from(segs, k, rem, slash_ok, acc)->0;
    if k == segs.len() {
        reveal(binds_from);
        reveal(keeps_from);
        let raws = Seq::new(segs.len(), |i: int| Seq::<char>::empty());
        assert(filled(segs, k, raws) == rem);
        assert(binds_from(segs, k, rem, raws, m));
        return;
    }
    match segs[k] {
        SegmentView::Literal(lit) => {
            let rest = rem.skip(lit.len() as int);
            lemma_match_witness(segs, k + 1, rest, slash_ok, acc);
            let k1 = k + 1;
            let raws = choose|raws: Seq<Seq<char>>| binds_from(segs, k1, rest, raws, m);
            lemma_literal_step(segs, k, rem, lit, raws, acc, m);
        },
        SegmentView::Param(name) => {
            let end: int = if k + 1 < segs.len() {
                let lit = segs[k + 1]->Literal_0;
                lemma_occurrence_in_range(rem, lit, 0);
                occurrence_from(rem, lit, 0)->0
            } else {
                if !slash_ok {
                    lemma_first_from(rem, 0, '/');
                }
                last_value_end(rem, slash_ok)
            };
            let v = percent_decoded(rem.take(end))->0;
            let rest = rem.skip(end);
            assert(0 < end <= rem.len());
            assert(match_from(segs, k, rem, slash_ok, acc) == match_from(segs, k + 1, rest, slash_ok, acc.insert(name, v)));
            lemma_match_witness(segs, k + 1, rest, slash_ok, acc.insert(name, v));
            let k1 = k + 1;
            let raws0 = choose|raws: Seq<Seq<char>>| binds_from(segs, k1, rest, raws, m);
            lemma_param_step(segs, k, rem, end, name, v, raws0, acc, m);
        },
    }
}

/// A URI template binds percent-decoded values: where a template whose
/// parameters have distinct names matches `uri`, the URI is the template with
/// each parameter replaced by a non-empty raw text, and the value bound to
/// each parameter is the percent-decoding of its raw text, for a parameter
/// before a literal as for the last one.
pub proof fn law_template_binds_decoded_values(segs: Seq<SegmentView>, uri: Seq<char>)
    requires
        param_names_distinct(segs),
        template_match(segs, uri) is Some,
    ensures
        exists|raws: Seq<Seq<char>>|
            #![trigger filled(segs, 0, raws)]
            raws.len() == segs.len() && filled(segs, 0, raws) == uri && forall|j: int|
                0 <= j < segs.len() && #[trigger] segs[j] is Param ==> raws[j].len() > 0 && template_match(
                    segs,
                    uri,
                )->0.dom().contains(segs[j]->Param_0) && percent_decoded(raws[j]) == Some(
                    template_match(segs, uri)->0[segs[j]->Param_0],
                ),
{
    lemma_match_witness(segs, 0, uri, param_count(segs) == 1, Map::empty());
    let m = match_from(segs, 0, uri, param_count(segs) == 1, Map::empty())->0;
    let raws = choose|raws: Seq<Seq<char>>| binds_from(segs, 0, uri, raws, m);
    reveal(binds_from);
    assert(filled(segs, 0, raws) == uri);
}

/// The total number of UTF-8 bytes in the literal segments of `segs`.
pub open spec fn literal_bytes(segs: Seq<SegmentView>) -> nat
    decreases segs.len(),
{
    if segs.len() == 0 {
        0
    } else {
        literal_bytes(segs.drop_last()) + match segs.last() {
            SegmentView::Literal(l) => vstd::utf8::encode_utf8(l).len(),
            SegmentView::Param(_) => 0nat,
        }
    }
}

/// The number of literal segments in `segs`.
pub open spec fn literal_count(segs: Seq<SegmentView>) -> nat
    decreases segs.len(),
{
    if segs.len() == 0 {
        0
    } else {
        literal_count(segs.drop_last()) + if segs.last() is Literal { 1nat } else { 0nat }
    }
}

} // verus!

verus! {

/// Whether the characters of `u` from `pos` on begin with `lit`.
fn starts_with_at(u: &Vec<char>, pos: usize, lit: &Vec<char>) -> (r: bool)
    requires
        pos <= u@.len(),
    ensures
        r == has_prefix(u@.skip(pos as int), lit@),
{
    let ghost rem = u@.skip(pos as int);
    if lit.len() > u.len() - pos {
        return false;
    }
    let mut i: usize = 0;
    while i < lit.len()
        invariant
            pos <= u@.len(),
            rem == u@.skip(pos as int),
            rem.len() == u@.len() - pos,
            u@.len() <= usize::MAX,
            lit@.len() <= rem.len(),
            i <= lit@.len(),
            forall|j: int| 0 <= j < i ==> rem[j] == lit@[j],
        decreases lit@.len() - i,
    {
        if u[pos + i] != lit[i] {
            assert(rem.take(lit@.len() as int)[i as int] != lit@[i as int]);
            return false;
        }
        i += 1;
    }
    assert(rem.take(lit@.len() as int) =~= lit@);
    true
}

/// The first position, counted from `pos`, where `lit` occurs in `u` from
/// `pos` on.
fn find_at(u: &Vec<char>, pos: usize, lit: &Vec<char>) -> (r: Option<usize>)
    requires
        pos <= u@.len(),
    ensures
        match occurrence_from(u@.skip(pos as int), lit@, 0) {
            Some(k) => r == Some(k as usize),
            None => r is None,
        },
{
    let ghost rem = u@.skip(pos as int);
    if lit.len() > u.len() - pos {
        return None;
    }
    let last = u.len() - pos - lit.len();
    let mut i: usize = 0;
    while i <= last
        invariant
            pos <= u@.len(),
            rem == u@.skip(pos as int),
            rem.len() == u@.len() - pos,
            u@.len() <= usize::MAX,
            last == rem.len() - lit@.len(),
            occurrence_from(rem, lit@, 0) == occurrence_from(rem, lit@, i as int),
        decreases last + 1 - i,
    {
        assert(u@.skip(pos + i) =~= rem.skip(i as int));
        if starts_with_at(u, pos + i, lit) {
            return Some(i);
        }
        if i == last {
            assert(occurrence_from(rem, lit@, i + 1) is None);
            return None;
        }
        i += 1;
    }
    None
}

/// The first position, counted from `pos`, where `c` occurs in `u` from `pos`
/// on.
fn find_char_at(u: &Vec<char>, pos: usize, c: char) -> (r: Option<usize>)
    requires
        pos <= u@.len(),
    ensures
        match first_from(u@.skip(pos as int), 0, c) {
            Some(k) => r == Some(k as usize),
            None => r is None,
        },
{
    let ghost rem = u@.skip(pos as int);
    let mut i: usize = 0;
    while i < u.len() - pos
        invariant
            pos <= u@.len(),
            rem == u@.skip(pos as int),
            rem.len() == u@.len() - pos,
            i <= rem.len(),
            first_from(rem, 0, c) == first_from(rem, i as int, c),
        decreases rem.len() - i,
    {
        if u[pos + i] == c {
            return Some(i);
        }
        i += 1;
    }
    None
}

/// The text of the characters of `u` from `a` up to `b`.
fn chars_range(u: &Vec<char>, a: usize, b: usize) -> (s: String)
    requires
        a <= b <= u@.len(),
    ensures
        s@ == u@.subrange(a as int, b as int),
{
    let mut s = String::new();
    let mut i: usize = a;
    while i < b
        invariant
            a <= i <= b <= u@.len(),
            s@ == u@.subrange(a as int, i as int),
        decreases b - i,
    {
        string_push(&mut s, u[i]);
        assert(u@.subrange(a as int, i as int).push(u@[i as int]) =~= u@.subrange(a as int, i + 1));
        i += 1;
    }
    s
}

/// Whether some segment of `segments` is a parameter named `name`.
fn names_param(segments: &Vec<UriSegment>, name: &String) -> (r: bool)
    ensures
        r == has_param(segment_views(segments@), name@),
{
    let ghost segs = segment_views(segments@);
    let mut k: usize = 0;
    while k < segments.len()
        invariant
            segs == segment_views(segments@),
            k <= segments@.len(),
            forall|j: int| 0 <= j < k ==> segs[j] != SegmentView::Param(name@),
        decreases segments@.len() - k,
    {
        match &segments[k] {
            UriSegment::Param(n) => {
                if *n == *name {
                    assert(segs[k as int] == SegmentView::Param(name@));
                    return true;
                }
            },
            UriSegment::Literal(_) => {},
        }
        k += 1;
    }
    false
}

impl UriTemplate {
    /// The template's segments.
    pub closed spec fn segs(&self) -> Seq<SegmentView> {
        segment_views(self.segments@)
    }

    /// The pattern the template was made from.
    pub closed spec fn pattern_text(&self) -> Seq<char> {
        self.pattern@
    }

    /// Parses `pattern` into a template.
    pub fn parse(pattern: &str) -> (r: Result<UriTemplate, UriTemplateError>)
        ensures
            match r {
                Ok(t) => parse_template(pattern@) == Ok::<Seq<SegmentView>, TemplateErrorView>(t.segs())
                    && t.pattern_text() == pattern@,
                Err(e) => parse_template(pattern@) == Err::<Seq<SegmentView>, TemplateErrorView>(e@),
            },
    {
        let cs = str_chars(pattern);
        let mut segments: Vec<UriSegment> = Vec::new();
        let mut literal = String::new();
        let mut i: usize = 0;
        assert(segment_views(segments@) =~= Seq::<SegmentView>::empty());
        while i < cs.len()
            invariant
                cs@ == pattern@,
                i <= cs@.len(),
                parse_template(cs@) == parse_from(cs@, i as int, literal@, segment_views(segments@)),
            decreases cs@.len() - i,
        {
            let ch = cs[i];
            if ch == '{' {
                if i + 1 < cs.len() && cs[i + 1] == '{' {
                    string_push(&mut literal, '{');
                    i = i + 2;
                } else {
                    let ghost segs0 = segment_views(segments@);
                    let ghost lit0 = literal@;
                    if !literal.as_str().is_empty() {
                        let lit = literal;
                        literal = String::new();
                        segments.push(UriSegment::Literal(lit));
                        assert(segment_views(segments@) =~= flush_literal(segs0, lit0));
                    } else {
                        assert(segment_views(segments@) =~= flush_literal(segs0, lit0));
                    }
                    assert(literal@ =~= Seq::<char>::empty());
                    proof {
                        lemma_first_from(cs@, i + 1, '}');
                    }
                    let mut name = String::new();
                    let mut j: usize = i + 1;
                    while j < cs.len() && cs[j] != '}'
                        invariant
                            i + 1 <= j <= cs@.len(),
                            name@ == cs@.subrange(i + 1, j as int),
                            forall|k: int| i + 1 <= k < j ==> cs@[k] != '}',
                        decreases cs@.len() - j,
                    {
                        string_push(&mut name, cs[j]);
                        assert(cs@.subrange(i + 1, j as int).push(cs@[j as int]) =~= cs@.subrange(
                            i + 1,
                            j + 1,
                        ));
                        j += 1;
                    }
                    if j >= cs.len() {
                        assert(first_from(cs@, i + 1, '}') is None);
                        return Err(UriTemplateError::UnclosedParam);
                    }
                    assert(first_from(cs@, i + 1, '}') == Some(j as int));
                    if name.as_str().is_empty() {
                        return Err(UriTemplateError::EmptyParam);
                    }
                    if names_param(&segments, &name) {
                        return Err(UriTemplateError::DuplicateParam(name));
                    }
                    let ghost segs1 = segment_views(segments@);
                    segments.push(UriSegment::Param(name));
                    assert(segment_views(segments@) =~= segs1.push(
                        SegmentView::Param(cs@.subrange(i + 1, j as int)),
                    ));
                    i = j + 1;
                }
            } else if ch == '}' {
                if i + 1 < cs.len() && cs[i + 1] == '}' {
                    string_push(&mut literal, '}');
                    i = i + 2;
                } else {
                    return Err(UriTemplateError::UnmatchedClose);
                }
            } else {
                string_push(&mut literal, ch);
                i = i + 1;
            }
        }
        let ghost segs0 = segment_views(segments@);
        let ghost lit0 = literal@;
        assert(parse_template(cs@) == Ok::<Seq<SegmentView>, TemplateErrorView>(flush_literal(segs0, lit0)));
        if !literal.as_str().is_empty() {
            segments.push(UriSegment::Literal(literal));
        }
        assert(segment_views(segments@) =~= flush_literal(segs0, lit0));
        Ok(UriTemplate { pattern: pattern.to_string(), segments })
    }
}

} // verus!

verus! {

/// The segments of a template made with [`UriTemplate::new`]: those of a
/// valid pattern, else a single literal that no URI contains.
pub open spec fn template_segments(p: Seq<char>) -> Seq<SegmentView> {
    match parse_template(p) {
        Ok(segs) => segs,
        Err(_) => seq![SegmentView::Literal(invalid_marker())],
    }
}

impl UriTemplate {
    /// Attempts to create a URI template, returning an error if invalid.
    pub fn try_new(pattern: &str) -> (r: Result<UriTemplate, UriTemplateError>)
        ensures
            match r {
                Ok(t) => parse_template(pattern@) == Ok::<Seq<SegmentView>, TemplateErrorView>(t.segs())
                    && t.pattern_text() == pattern@,
                Err(e) => parse_template(pattern@) == Err::<Seq<SegmentView>, TemplateErrorView>(e@),
            },
    {
        Self::parse(pattern)
    }

    /// Creates a URI template from a pattern; an invalid pattern gives a
    /// template that matches no URI.
    pub fn new(pattern: &str) -> (t: UriTemplate)
        ensures
            t.segs() == template_segments(pattern@),
            t.pattern_text() == pattern@,
    {
        match Self::try_new(pattern) {
            Ok(t) => t,
            Err(_) => {
                let mut marker = String::new();
                string_push(&mut marker, '\0');
                string_push(&mut marker, 'I');
                string_push(&mut marker, 'N');
                string_push(&mut marker, 'V');
                string_push(&mut marker, 'A');
                string_push(&mut marker, 'L');
                string_push(&mut marker, 'I');
                string_push(&mut marker, 'D');
                string_push(&mut marker, '\0');
                assert(marker@ =~= invalid_marker());
                let segments = vec![UriSegment::Literal(marker)];
                assert(segment_views(segments@) =~= seq![SegmentView::Literal(invalid_marker())]);
                UriTemplate { pattern: pattern.to_string(), segments }
            },
        }
    }

    /// The template's specificity: the UTF-8 length of its literal text
    /// (saturating), the number of literal segments, and the number of
    /// segments.  More specific templates are tried first.
    pub fn specificity(&self) -> (r: (usize, usize, usize))
        ensures
            r.0 == if literal_bytes(self.segs()) > usize::MAX {
                usize::MAX as nat
            } else {
                literal_bytes(self.segs())
            },
            r.1 == literal_count(self.segs()),
            r.2 == self.segs().len(),
    {
        let ghost segs = self.segs();
        let mut literal_len: usize = 0;
        let mut literal_segments: usize = 0;
        let mut k: usize = 0;
        while k < self.segments.len()
            invariant
                segs == segment_views(self.segments@),
                k <= segs.len(),
                literal_len == if literal_bytes(segs.take(k as int)) > usize::MAX {
                    usize::MAX as nat
                } else {
                    literal_bytes(segs.take(k as int))
                },
                literal_segments == literal_count(segs.take(k as int)),
                literal_segments <= k,
            decreases segs.len() - k,
        {
            assert(segs.take(k + 1).drop_last() =~= segs.take(k as int));
            match &self.segments[k] {
                UriSegment::Literal(lit) => {
                    let n = lit.as_str().as_bytes().len();
                    assert(n == vstd::utf8::encode_utf8(lit@).len());
                    assert(segs.take(k + 1).last() == segs[k as int]);
                    assert(literal_bytes(segs.take(k + 1)) == literal_bytes(segs.take(k as int)) + n);
                    literal_len = literal_len.saturating_add(n);
                    literal_segments = literal_segments + 1;
                },
                UriSegment::Param(_) => {},
            }
            k += 1;
        }
        assert(segs.take(segs.len() as int) =~= segs);
        (literal_len, literal_segments, self.segments.len())
    }

    /// Whether the template has exactly one parameter.
    fn single_param(&self) -> (b: bool)
        ensures
            b == (param_count(self.segs()) == 1),
    {
        let ghost segs = self.segs();
        let mut n: usize = 0;
        let mut k: usize = 0;
        while k < self.segments.len()
            invariant
                segs == segment_views(self.segments@),
                k <= segs.len(),
                n == param_count(segs.take(k as int)),
                n <= k,
            decreases segs.len() - k,
        {
            assert(segs.take(k + 1).drop_last() =~= segs.take(k as int));
            match &self.segments[k] {
                UriSegment::Param(_) => {
                    n = n + 1;
                },
                UriSegment::Literal(_) => {},
            }
            k += 1;
        }
        assert(segs.take(segs.len() as int) =~= segs);
        n == 1
    }
}

} // verus!

verus! {

impl UriTemplate {
    /// Matches `uri` against the template, returning the decoded values of
    /// its parameters by name.
    pub fn matches(&self, uri: &str) -> (r: Option<StrMap<String>>)
        ensures
            match r {
                Some(m) => template_match(self.segs(), uri@) == Some(text_values(m@)),
                None => template_match(self.segs(), uri@) is None,
            },
    {
        let ghost segs = self.segs();
        let u = str_chars(uri);
        let slash_ok = self.single_param();
        let mut params: StrMap<String> = StrMap::new();
        let mut pos: usize = 0;
        let mut k: usize = 0;
        assert(u@.skip(0) =~= u@);
        assert(text_values(params@) =~= Map::<Seq<char>, Seq<char>>::empty());
        while k < self.segments.len()
            invariant
                segs == segment_views(self.segments@),
                u@ == uri@,
                pos <= u@.len(),
                k <= segs.len(),
                slash_ok == (param_count(segs) == 1),
                template_match(segs, uri@) == match_from(
                    segs,
                    k as int,
                    u@.skip(pos as int),
                    slash_ok,
                    text_values(params@),
                ),
            decreases segs.len() - k,
        {
            let ghost rem = u@.skip(pos as int);
            assert(rem.len() == u@.len() - pos);
            assert(u@.len() == u.len());
            assert(segs[k as int] == self.segments@[k as int]@);
            match &self.segments[k] {
                UriSegment::Literal(lit) => {
                    let lc = str_chars(lit.as_str());
                    if !starts_with_at(&u, pos, &lc) {
                        return None;
                    }
                    assert(rem.skip(lc@.len() as int) =~= u@.skip(pos + lc@.len()));
                    pos = pos + lc.len();
                },
                UriSegment::Param(name) => {
                    if k + 1 < self.segments.len() {
                        assert(segs[k + 1] == self.segments@[k + 1]@);
                        match &self.segments[k + 1] {
                            UriSegment::Param(_) => {
                                return None;
                            },
                            UriSegment::Literal(lit) => {
                                let lc = str_chars(lit.as_str());
                                proof {
                                    lemma_occurrence_in_range(rem, lc@, 0);
                                }
                                let idx = match find_at(&u, pos, &lc) {
                                    Some(x) => x,
                                    None => {
                                        return None;
                                    },
                                };
                                if idx == 0 {
                                    return None;
                                }
                                let raw = chars_range(&u, pos, pos + idx);
                                assert(raw@ =~= rem.take(idx as int));
                                let v = match percent_decode(raw.as_str()) {
                                    Some(v) => v,
                                    None => {
                                        return None;
                                    },
                                };
                                let ghost before = params@;
                                params.insert(name.clone(), v);
                                assert(text_values(params@) =~= text_values(before).insert(name@, v@));
                                assert(rem.skip(idx as int) =~= u@.skip(pos + idx));
                                pos = pos + idx;
                            },
                        }
                    } else {
                        if pos == u.len() {
                            return None;
                        }
                        let end = if slash_ok {
                            u.len() - pos
                        } else {
                            match find_char_at(&u, pos, '/') {
                                Some(x) => x,
                                None => u.len() - pos,
                            }
                        };
                        proof {
                            lemma_first_from(rem, 0, '/');
                        }
                        assert(end == last_value_end(rem, slash_ok));
                        if end == 0 {
                            return None;
                        }
                        let raw = chars_range(&u, pos, pos + end);
                        assert(raw@ =~= rem.take(end as int));
                        let v = match percent_decode(raw.as_str()) {
                            Some(v) => v,
                            None => {
                                return None;
                            },
                        };
                        let ghost before = params@;
                        params.insert(name.clone(), v);
                        assert(text_values(params@) =~= text_values(before).insert(name@, v@));
                        assert(rem.skip(end as int) =~= u@.skip(pos + end));
                        pos = pos + end;
                    }
                },
            }
            k += 1;
        }
        if pos == u.len() {
            Some(params)
        } else {
            None
        }
    }
}

/// Where `occurrence_from` finds a position, the text fits after it.
pub proof fn lemma_occurrence_in_range(s: Seq<char>, lit: Seq<char>, i: int)
    ensures
        occurrence_from(s, lit, i) matches Some(k) ==> i <= k && k + lit.len() <= s.len() && has_prefix(
            s.skip(k),
            lit,
        ),
    decreases s.len() + 1 - i,
{
    if i >= 0 && i + lit.len() <= s.len() && !has_prefix(s.skip(i), lit) {
        lemma_occurrence_in_range(s, lit, i + 1);
    }
}

} // verus!

verus! {

/// A template made from an invalid pattern matches no URI, but for the marker
/// text that stands for it.
pub proof fn law_invalid_template_matches_nothing(pattern: Seq<char>, uri: Seq<char>)
    requires
        parse_template(pattern) is Err,
        uri != invalid_marker(),
    ensures
        template_match(template_segments(pattern), uri) is None,
{
    let segs = template_segments(pattern);
    let m = invalid_marker();
    assert(segs.len() == 1 && segs[0] == SegmentView::Literal(m));
    let empty = segs.drop_last();
    assert(empty.len() == 0);
    assert(param_count(empty) == 0);
    assert(param_count(segs) == 0);
    let acc = Map::<Seq<char>, Seq<char>>::empty();
    if has_prefix(uri, m) {
        let rest = uri.skip(m.len() as int);
        assert(match_from(segs, 0, uri, false, acc) == match_from(segs, 1, rest, false, acc));
        if rest.len() == 0 {
            assert(uri =~= uri.take(m.len() as int));
            assert(uri =~= m);
        }
    }
}

} // verus!

verus! {

// ============================================================================
// Mounting
// ============================================================================

/// Result of a mount operation.
#[derive(Debug, Default)]
pub struct MountResult {
    /// Number of tools mounted.
    pub tools: usize,
    /// Number of resources mounted.
    pub resources: usize,
    /// Number of resource templates mounted.
    pub resource_templates: usize,
    /// Number of prompts mounted.
    pub prompts: usize,
    /// Any warnings generated during mounting (e.g., name conflicts).
    pub warnings: Vec<String>,
}

impl MountResult {
    /// Returns true if any components were mounted.
    pub fn has_components(&self) -> (r: bool)
        ensures
            r == (self.tools > 0 || self.resources > 0 || self.resource_templates > 0 || self.prompts > 0),
    {
        self.tools > 0 || self.resources > 0 || self.resource_templates > 0 || self.prompts > 0
    }

    /// Returns true if mounting was successful (currently always true).
    pub fn is_success(&self) -> (r: bool)
        ensures
            r,
    {
        true
    }
}

/// The name under which `name` is mounted with `prefix`: `prefix/name` for a
/// non-empty prefix, else the name itself.
pub open spec fn prefixed(name: Seq<char>, prefix: Option<Seq<char>>) -> Seq<char> {
    match prefix {
        Some(p) => if p.len() > 0 {
            p + "/"@ + name
        } else {
            name
        },
        None => name,
    }
}

/// Applies a prefix to a name or URI.
pub fn apply_prefix(name: &str, prefix: Option<&str>) -> (r: String)
    ensures
        r@ == prefixed(name@, match prefix {
            Some(p) => Some(p@),
            None => None,
        }),
{
    match prefix {
        Some(p) => {
            if !p.is_empty() {
                let mut r = p.to_string();
                r.append("/");
                r.append(name);
                r
            } else {
                name.to_string()
            }
        },
        None => name.to_string(),
    }
}

/// Whether `c` may stand in a prefix: a letter or digit, `_` or `-`.
pub open spec fn prefix_char_ok(c: char) -> bool {
    unicode_alphanumeric(c) || c == '_' || c == '-'
}

/// The first position of `p`, from `i` on, whose character may not stand in a
/// prefix.
pub open spec fn first_bad_prefix_char(p: Seq<char>, i: int) -> Option<int>
    decreases p.len() - i,
{
    if i < 0 || i >= p.len() {
        None
    } else if !prefix_char_ok(p[i]) {
        Some(i)
    } else {
        first_bad_prefix_char(p, i + 1)
    }
}

/// Why `prefix` is refused, if it is: a slash anywhere, else the first
/// character that is neither alphanumeric nor `_` nor `-`.
pub open spec fn prefix_problem(prefix: Seq<char>) -> Option<Seq<char>> {
    if prefix.len() == 0 {
        None
    } else if prefix.contains('/') {
        Some("Prefix cannot contain slashes: '"@ + prefix + "'"@)
    } else {
        match first_bad_prefix_char(prefix, 0) {
            Some(i) => Some("Prefix contains invalid character '"@ + seq![prefix[i]] + "': '"@ + prefix + "'"@),
            None => None,
        }
    }
}

/// Validates a prefix string: alphanumeric characters plus underscores and
/// hyphens, and no slashes.
pub fn validate_prefix(prefix: &str) -> (r: Result<(), String>)
    ensures
        match prefix_problem(prefix@) {
            Some(msg) => r matches Err(e) && e@ == msg,
            None => r is Ok,
        },
{
    if prefix.is_empty() {
        return Ok(());
    }
    let cs = str_chars(prefix);
    if crate::text::chars_contain(cs.as_slice(), '/') {
        let mut e = "Prefix cannot contain slashes: '".to_string();
        e.append(prefix);
        e.append("'");
        return Err(e);
    }
    let mut i: usize = 0;
    assert(first_bad_prefix_char(cs@, 0) == first_bad_prefix_char(cs@, 0));
    while i < cs.len()
        invariant
            cs@ == prefix@,
            prefix@.len() > 0,
            !cs@.contains('/'),
            i <= cs@.len(),
            first_bad_prefix_char(cs@, 0) == first_bad_prefix_char(cs@, i as int),
        decreases cs@.len() - i,
    {
        let ch = cs[i];
        if !is_alphanumeric(ch) && ch != '_' && ch != '-' {
            let mut e = "Prefix contains invalid character '".to_string();
            string_push(&mut e, ch);
            e.append("': '");
            e.append(prefix);
            e.append("'");
            assert(first_bad_prefix_char(cs@, i as int) == Some(i as int));
            assert(e@ =~= "Prefix contains invalid character '"@ + seq![prefix@[i as int]] + "': '"@ + prefix@
                + "'"@);
            return Err(e);
        }
        i += 1;
    }
    Ok(())
}

} // verus!

verus! {

// ============================================================================
// List pagination
// ============================================================================

/// The JSON document of a list cursor: the object with the one member
/// `offset`.
pub open spec fn cursor_members(offset: u64) -> Seq<(Seq<char>, ScalarView)> {
    seq![("offset"@, ScalarView::Number(offset as nat))]
}

/// The bytes of the JSON document of a list cursor.
pub open spec fn json_offset_doc(offset: u64) -> Seq<u8> {
    json_object_doc(cursor_members(offset))
}

/// The opaque cursor text for the list position `offset`: the standard
/// base64 of the JSON document holding it.
pub open spec fn cursor_text(offset: u64) -> Seq<char> {
    base64_standard_of(json_offset_doc(offset))
}

/// The list position a cursor denotes, or the message of the invalid-params
/// error it is refused with.  No cursor denotes the start.
pub open spec fn cursor_offset(cursor: Option<Seq<char>>) -> Result<nat, Seq<char>> {
    match cursor {
        None => Ok(0),
        Some(c) => match base64_standard_decoded(c) {
            None => Err("Invalid cursor (base64 decode failed)"@),
            Some(bytes) => match json_u64_field(bytes, "offset"@) {
                None => Err("Invalid cursor (JSON parse failed)"@),
                Some(None) => Err("Invalid cursor (missing offset)"@),
                Some(Some(n)) => if n > usize::MAX {
                    Err("Invalid cursor (offset too large)"@)
                } else {
                    Ok(n as nat)
                },
            },
        },
    }
}

/// Decodes a list cursor into a position.
pub fn decode_cursor_offset(cursor: Option<&str>) -> (r: Result<usize, McpError>)
    ensures
        match cursor_offset(match cursor {
            Some(c) => Some(c@),
            None => None,
        }) {
            Ok(n) => r == Ok::<usize, McpError>(n as usize),
            Err(msg) => r matches Err(e) && e.code == McpErrorCode::InvalidParams && e.message@ == msg,
        },
{
    let c = match cursor {
        None => {
            return Ok(0);
        },
        Some(c) => c,
    };
    let decoded = match base64_standard_decode(c) {
        Some(b) => b,
        None => {
            return Err(McpError::invalid_params("Invalid cursor (base64 decode failed)".to_string()));
        },
    };
    let offset = match json_u64_member(decoded.as_slice(), "offset") {
        None => {
            return Err(McpError::invalid_params("Invalid cursor (JSON parse failed)".to_string()));
        },
        Some(None) => {
            return Err(McpError::invalid_params("Invalid cursor (missing offset)".to_string()));
        },
        Some(Some(n)) => n,
    };
    if offset as u128 > usize::MAX as u128 {
        return Err(McpError::invalid_params("Invalid cursor (offset too large)".to_string()));
    }
    Ok(offset as usize)
}

/// Encodes a list position as a cursor; decoding the cursor gives the
/// position back.
pub fn encode_cursor_offset(offset: usize) -> (s: String)
    ensures
        s@ == cursor_text(offset as u64),
        cursor_offset(Some(s@)) == Ok::<nat, Seq<char>>(offset as nat),
{
    let members = vec![("offset".to_string(), JsonScalar::Number(offset as u64))];
    proof {
        reveal_strlit("offset");
        assert(members_view(members@) =~= cursor_members(offset as u64));
        assert(members@[0].1 matches JsonScalar::Number(n) && n == offset as u64);
    }
    let bytes = json_object(&members);
    proof {
        assert(isize::MAX / 3 * 4 + 4 <= usize::MAX);
    }
    base64_standard_encode(bytes.as_slice())
}

} // verus!

verus! {

/// One page of a list: the items from `start` up to `end` (none where `start`
/// is not below `end`), and the cursor of the next page where there is one.
#[derive(Debug)]
pub struct ListPage {
    /// Position of the first item on the page.
    pub start: usize,
    /// Position after the last item on the page.
    pub end: usize,
    /// Cursor of the next page, if items remain.
    pub next_cursor: Option<String>,
}

/// The end of the page that starts at `offset`: `page_size` items on
/// (saturating), but no further than the list's length.
pub open spec fn page_end(offset: nat, page_size: nat, len: nat) -> nat {
    let e = if offset + page_size > usize::MAX { usize::MAX as nat } else { offset + page_size };
    if e < len { e } else { len }
}

/// The page of a list of `len` items that a list request with `cursor` gets:
/// the whole list where pages are off (`page_size` is `None`, and the cursor
/// is then not read), else `page_size` items from the cursor's position, with
/// a cursor for the rest where items remain.  An invalid cursor is refused
/// with an invalid-params error.
pub fn list_page(len: usize, page_size: Option<usize>, cursor: Option<&str>) -> (r: Result<ListPage, McpError>)
    ensures
        page_size is None ==> (r matches Ok(p) && p.start == 0 && p.end == len && p.next_cursor is None),
        page_size is Some ==> match cursor_offset(match cursor {
            Some(c) => Some(c@),
            None => None,
        }) {
            Err(msg) => r matches Err(e) && e.code == McpErrorCode::InvalidParams && e.message@ == msg,
            Ok(off) => r matches Ok(p) && p.start == off && p.end == page_end(off, page_size->0 as nat, len as nat)
                && (p.end < len ==> (p.next_cursor matches Some(c) && c@ == cursor_text(p.end as u64)))
                && (p.end >= len ==> p.next_cursor is None),
        },
{
    let size = match page_size {
        None => {
            return Ok(ListPage { start: 0, end: len, next_cursor: None });
        },
        Some(s) => s,
    };
    let offset = match decode_cursor_offset(cursor) {
        Ok(o) => o,
        Err(e) => {
            return Err(e);
        },
    };
    let stepped = offset.saturating_add(size);
    let end = if stepped < len {
        stepped
    } else {
        len
    };
    let next_cursor = if end < len {
        Some(encode_cursor_offset(end))
    } else {
        None
    };
    Ok(ListPage { start: offset, end, next_cursor })
}

} // verus!

verus! {

/// The warning for a component of kind `kind` mounted under a name that is
/// already taken.
pub open spec fn overwrite_warning(kind: Seq<char>, name: Seq<char>) -> Seq<char> {
    kind + " '"@ + name + "' already exists, will be overwritten"@
}

/// The contents of a registry holding `m` after the entries `es` are mounted
/// into it in turn, each under its name with the prefix `p`.
pub open spec fn mount_map<H>(m: Map<Seq<char>, H>, es: Seq<(String, H)>, p: Option<Seq<char>>) -> Map<
    Seq<char>,
    H,
>
    decreases es.len(),
{
    if es.len() == 0 {
        m
    } else {
        mount_map(m.insert(prefixed(es[0].0@, p), es[0].1), es.drop_first(), p)
    }
}

/// The order of the names of a registry with names `order` and contents `m`
/// after the entries `es` are mounted: a new name goes last, a name that is
/// already there keeps its place.
pub open spec fn mount_order<H>(
    order: Seq<Seq<char>>,
    m: Map<Seq<char>, H>,
    es: Seq<(String, H)>,
    p: Option<Seq<char>>,
) -> Seq<Seq<char>>
    decreases es.len(),
{
    if es.len() == 0 {
        order
    } else {
        let k = prefixed(es[0].0@, p);
        mount_order(
            if m.dom().contains(k) { order } else { order.push(k) },
            m.insert(k, es[0].1),
            es.drop_first(),
            p,
        )
    }
}

/// The warnings of mounting the entries `es` into a registry holding `m`: one
/// for each entry whose mounted name is taken when its turn comes.
pub open spec fn mount_warnings<H>(kind: Seq<char>, m: Map<Seq<char>, H>, es: Seq<(String, H)>, p: Option<Seq<char>>) -> Seq<
    Seq<char>,
>
    decreases es.len(),
{
    if es.len() == 0 {
        Seq::empty()
    } else {
        let k = prefixed(es[0].0@, p);
        (if m.dom().contains(k) { seq![overwrite_warning(kind, k)] } else { Seq::empty() }) + mount_warnings(
            kind,
            m.insert(k, es[0].1),
            es.drop_first(),
            p,
        )
    }
}

/// The text of an optional prefix.
pub open spec fn opt_prefix(prefix: Option<&str>) -> Option<Seq<char>> {
    match prefix {
        Some(p) => Some(p@),
        None => None,
    }
}

/// Mounts every entry of `source` into `dest`, in the source's order, under
/// its name with `prefix` applied.  An entry whose mounted name is taken
/// replaces the holder, which keeps its place in the order, and adds a
/// warning naming the `kind` of component; a new name goes last.  Returns the
/// number of entries mounted and the warnings.
pub fn mount_entries<H>(dest: &mut StrMap<H>, source: StrMap<H>, prefix: Option<&str>, kind: &str) -> (r: (
    usize,
    Vec<String>,
))
    ensures
        r.0 == source@.dom().len(),
        final(dest)@ == mount_map(old(dest)@, source.entries(), opt_prefix(prefix)),
        key_texts(final(dest).entries()) == mount_order(
            key_texts(old(dest).entries()),
            old(dest)@,
            source.entries(),
            opt_prefix(prefix),
        ),
        texts(r.1@) == mount_warnings(kind@, old(dest)@, source.entries(), opt_prefix(prefix)),
{
    let ghost es0 = source.entries();
    let ghost p = opt_prefix(prefix);
    let n = source.len();
    let mut es = source.into_entries();
    let mut warnings: Vec<String> = Vec::new();
    let mut count: usize = 0;
    assert(es0.skip(0) =~= es0);
    assert(texts(warnings@) + mount_warnings(kind@, dest@, es@, p) =~= mount_warnings(kind@, dest@, es@, p));
    while es.len() > 0
        invariant
            n == es0.len(),
            count <= n,
            es@ == es0.skip(count as int),
            p == opt_prefix(prefix),
            mount_map(old(dest)@, es0, p) == mount_map(dest@, es@, p),
            mount_order(key_texts(old(dest).entries()), old(dest)@, es0, p) == mount_order(
                key_texts(dest.entries()),
                dest@,
                es@,
                p,
            ),
            mount_warnings(kind@, old(dest)@, es0, p) == texts(warnings@) + mount_warnings(
                kind@,
                dest@,
                es@,
                p,
            ),
        decreases es@.len(),
    {
        let ghost before_es = es@;
        let ghost before_warnings = texts(warnings@);
        let (name, handler) = es.remove(0);
        assert(es@ =~= before_es.drop_first());
        assert(es0.skip(count + 1) =~= es0.skip(count as int).drop_first());
        let mounted = apply_prefix(name.as_str(), prefix);
        let existed = dest.contains_key(mounted.as_str());
        if existed {
            let mut w = kind.to_string();
            w.append(" '");
            w.append(mounted.as_str());
            w.append("' already exists, will be overwritten");
            warnings.push(w);
            assert(texts(warnings@) =~= before_warnings + seq![overwrite_warning(kind@, mounted@)]);
        } else {
            assert(texts(warnings@) =~= before_warnings + Seq::<Seq<char>>::empty());
        }
        let ghost rest = mount_warnings(kind@, dest@.insert(mounted@, handler), es@, p);
        assert(before_warnings + ((if existed { seq![overwrite_warning(kind@, mounted@)] } else {
            Seq::<Seq<char>>::empty()
        }) + rest) =~= texts(warnings@) + rest);
        dest.insert(mounted, handler);
        count += 1;
    }
    assert(es0.skip(count as int).len() == 0);
    assert(count == n);
    (count, warnings)
}

} // verus!

verus! {

/// The warnings for the entries of `es` whose mounted names are already in
/// `m`, in order.
pub open spec fn prior_name_warnings<H>(
    kind: Seq<char>,
    m: Map<Seq<char>, H>,
    es: Seq<(String, H)>,
    p: Option<Seq<char>>,
) -> Seq<Seq<char>>
    decreases es.len(),
{
    if es.len() == 0 {
        Seq::empty()
    } else {
        let k = prefixed(es[0].0@, p);
        (if m.dom().contains(k) { seq![overwrite_warning(kind, k)] } else { Seq::empty() })
            + prior_name_warnings(kind, m, es.drop_first(), p)
    }
}

/// Distinct names stay distinct under the same prefix.
pub proof fn lemma_prefixed_injective(a: Seq<char>, b: Seq<char>, p: Option<Seq<char>>)
    requires
        prefixed(a, p) == prefixed(b, p),
    ensures
        a == b,
{
    if p is Some && p->0.len() > 0 {
        let head = p->0 + "/"@;
        assert(prefixed(a, p) == head + a);
        assert(prefixed(b, p) == head + b);
        assert((head + a).skip(head.len() as int) =~= a);
        assert((head + b).skip(head.len() as int) =~= b);
    }
}

/// Where two registries agree on which of the mounted names of `es` they
/// hold, the warnings for prior names agree.
proof fn lemma_prior_warnings_agree<H>(
    kind: Seq<char>,
    m1: Map<Seq<char>, H>,
    m2: Map<Seq<char>, H>,
    es: Seq<(String, H)>,
    p: Option<Seq<char>>,
)
    requires
        forall|i: int| 0 <= i < es.len() ==> (m1.dom().contains(#[trigger] prefixed(es[i].0@, p))
            <==> m2.dom().contains(prefixed(es[i].0@, p))),
    ensures
        prior_name_warnings(kind, m1, es, p) == prior_name_warnings(kind, m2, es, p),
    decreases es.len(),
{
    if es.len() > 0 {
        assert(m1.dom().contains(prefixed(es[0].0@, p)) <==> m2.dom().contains(prefixed(es[0].0@, p)));
        let rest = es.drop_first();
        assert forall|i: int| 0 <= i < rest.len() implies (m1.dom().contains(#[trigger] prefixed(rest[i].0@, p))
            <==> m2.dom().contains(prefixed(rest[i].0@, p))) by {
            assert(rest[i] == es[i + 1]);
        }
        lemma_prior_warnings_agree(kind, m1, m2, rest, p);
    }
}

/// A mount warns once for each entry whose mounted name was taken before the
/// mount began, and for no other: the entries of a registry have distinct
/// names, so no entry of a mount takes the name of another.
pub proof fn law_mount_warns_on_prior_names<H>(
    kind: Seq<char>,
    m: Map<Seq<char>, H>,
    es: Seq<(String, H)>,
    p: Option<Seq<char>>,
)
    requires
        crate::store::keys_unique(es),
    ensures
        mount_warnings(kind, m, es, p) == prior_name_warnings(kind, m, es, p),
    decreases es.len(),
{
    if es.len() > 0 {
        let k = prefixed(es[0].0@, p);
        let rest = es.drop_first();
        let m2 = m.insert(k, es[0].1);
        assert(crate::store::keys_unique(rest)) by {
            assert forall|i: int, j: int| 0 <= i < rest.len() && 0 <= j < rest.len() && i != j implies #[trigger] rest[i].0@
                != #[trigger] rest[j].0@ by {
                assert(rest[i] == es[i + 1] && rest[j] == es[j + 1]);
            }
        }
        law_mount_warns_on_prior_names(kind, m2, rest, p);
        assert forall|i: int| 0 <= i < rest.len() implies (m2.dom().contains(#[trigger] prefixed(rest[i].0@, p))
            <==> m.dom().contains(prefixed(rest[i].0@, p))) by {
            assert(rest[i] == es[i + 1]);
            if prefixed(rest[i].0@, p) == k {
                lemma_prefixed_injective(rest[i].0@, es[0].0@, p);
                assert(es[i + 1].0@ != es[0].0@);
            }
        }
        lemma_prior_warnings_agree(kind, m2, m, rest, p);
    }
}

/// After a mount, each mounted entry is found under its prefixed name, and
/// every other name keeps what it held.
pub proof fn law_mount_places_every_entry<H>(m: Map<Seq<char>, H>, es: Seq<(String, H)>, p: Option<Seq<char>>)
    requires
        crate::store::keys_unique(es),
    ensures
        forall|i: int| #![trigger es[i]] 0 <= i < es.len() ==> mount_map(m, es, p).dom().contains(prefixed(es[i].0@, p))
            && mount_map(m, es, p)[prefixed(es[i].0@, p)] == es[i].1,
        forall|k: Seq<char>| (forall|i: int| 0 <= i < es.len() ==> #[trigger] prefixed(es[i].0@, p) != k) ==> (
        #[trigger] mount_map(m, es, p).dom().contains(k) == m.dom().contains(k) && (m.dom().contains(k)
            ==> mount_map(m, es, p)[k] == m[k])),
    decreases es.len(),
{
    if es.len() > 0 {
        let k0 = prefixed(es[0].0@, p);
        let rest = es.drop_first();
        let m2 = m.insert(k0, es[0].1);
        assert(crate::store::keys_unique(rest)) by {
            assert forall|i: int, j: int| 0 <= i < rest.len() && 0 <= j < rest.len() && i != j implies #[trigger] rest[i].0@
                != #[trigger] rest[j].0@ by {
                assert(rest[i] == es[i + 1] && rest[j] == es[j + 1]);
            }
        }
        law_mount_places_every_entry(m2, rest, p);
        assert(mount_map(m, es, p) == mount_map(m2, rest, p));
        assert forall|i: int| #![trigger es[i]] 0 <= i < es.len() implies mount_map(m, es, p).dom().contains(
            prefixed(es[i].0@, p),
        ) && mount_map(m, es, p)[prefixed(es[i].0@, p)] == es[i].1 by {
            if i == 0 {
                assert forall|j: int| 0 <= j < rest.len() implies #[trigger] prefixed(rest[j].0@, p) != k0 by {
                    assert(rest[j] == es[j + 1]);
                    if prefixed(rest[j].0@, p) == k0 {
                        lemma_prefixed_injective(rest[j].0@, es[0].0@, p);
                    }
                }
            } else {
                assert(rest[i - 1] == es[i]);
            }
        }
        assert forall|k: Seq<char>| (forall|i: int| 0 <= i < es.len() ==> #[trigger] prefixed(es[i].0@, p) != k) implies (
        #[trigger] mount_map(m, es, p).dom().contains(k) == m.dom().contains(k) && (m.dom().contains(k)
            ==> mount_map(m, es, p)[k] == m[k])) by {
            assert(prefixed(es[0].0@, p) != k);
            assert forall|j: int| 0 <= j < rest.len() implies #[trigger] prefixed(rest[j].0@, p) != k by {
                assert(rest[j] == es[j + 1]);
                assert(prefixed(es[j + 1].0@, p) != k);
            }
        }
    }
}

} // verus!

verus! {

// ============================================================================
// Component definitions and handlers
// ============================================================================

/// What the router reads of a tool's definition.
#[derive(Debug, Clone)]
pub struct Tool {
    /// The tool's name.
    pub name: String,
    /// The tool's tags.
    pub tags: Vec<String>,
    /// Whether the tool only reads (its `read_only` annotation, if given).
    pub read_only: Option<bool>,
}

/// What the router reads of a resource's definition.
#[derive(Debug, Clone)]
pub struct Resource {
    /// The resource's URI.
    pub uri: String,
    /// The resource's tags.
    pub tags: Vec<String>,
}

/// What the router reads of a resource template's definition.
#[derive(Debug, Clone)]
pub struct ResourceTemplate {
    /// The URI template.
    pub uri_template: String,
    /// The template's name.
    pub name: String,
    /// The template's tags.
    pub tags: Vec<String>,
}

/// What the router reads of a prompt's definition.
#[derive(Debug, Clone)]
pub struct Prompt {
    /// The prompt's name.
    pub name: String,
    /// The prompt's tags.
    pub tags: Vec<String>,
}

/// A definition as its name (or URI) and tags.
pub struct DefView {
    pub name: Seq<char>,
    pub tags: Seq<Seq<char>>,
}

/// A resource template definition as texts: its URI template (the name it
/// is registered under), its own name and its tags.
pub struct TemplateView {
    pub name: Seq<char>,
    pub title: Seq<char>,
    pub tags: Seq<Seq<char>>,
}

/// A tool definition as texts.
pub struct ToolView {
    pub name: Seq<char>,
    pub tags: Seq<Seq<char>>,
    pub read_only: Option<bool>,
}

impl View for Tool {
    type V = ToolView;

    open spec fn view(&self) -> ToolView {
        ToolView { name: self.name@, tags: texts(self.tags@), read_only: self.read_only }
    }
}

impl View for Resource {
    type V = DefView;

    open spec fn view(&self) -> DefView {
        DefView { name: self.uri@, tags: texts(self.tags@) }
    }
}

impl View for ResourceTemplate {
    type V = TemplateView;

    open spec fn view(&self) -> TemplateView {
        TemplateView { name: self.uri_template@, title: self.name@, tags: texts(self.tags@) }
    }
}

impl View for Prompt {
    type V = DefView;

    open spec fn view(&self) -> DefView {
        DefView { name: self.name@, tags: texts(self.tags@) }
    }
}

impl Tool {
    /// A copy of this definition.
    pub fn duplicate(&self) -> (t: Tool)
        ensures
            t@ == self@,
    {
        Tool { name: self.name.clone(), tags: clone_strings(&self.tags), read_only: self.read_only }
    }
}

impl Resource {
    /// A copy of this definition.
    pub fn duplicate(&self) -> (r: Resource)
        ensures
            r@ == self@,
    {
        Resource { uri: self.uri.clone(), tags: clone_strings(&self.tags) }
    }
}

impl ResourceTemplate {
    /// A copy of this definition.
    pub fn duplicate(&self) -> (r: ResourceTemplate)
        ensures
            r@ == self@,
    {
        ResourceTemplate {
            uri_template: self.uri_template.clone(),
            name: self.name.clone(),
            tags: clone_strings(&self.tags),
        }
    }
}

impl Prompt {
    /// A copy of this definition.
    pub fn duplicate(&self) -> (p: Prompt)
        ensures
            p@ == self@,
    {
        Prompt { name: self.name.clone(), tags: clone_strings(&self.tags) }
    }
}

/// A tool implementation, for applications to provide.
pub trait ToolHandler {
    /// The tool's definition.
    fn definition(&self) -> Tool;
}

/// A resource implementation, for applications to provide.
pub trait ResourceHandler {
    /// The resource's definition.
    fn definition(&self) -> Resource;

    /// The URI template the handler serves, if it serves one; by default
    /// none.
    fn template(&self) -> (t: Option<ResourceTemplate>)
        default_ensures
            t is None,
    {
        None
    }
}

/// A prompt implementation, for applications to provide.
pub trait PromptHandler {
    /// The prompt's definition.
    fn definition(&self) -> Prompt;
}

/// What to do when a component is added under a name that is taken.
#[derive(Debug, Clone, Copy, PartialEq, Eq, Structural)]
pub enum DuplicateBehavior {
    /// Refuse with an error.
    Error,
    /// Keep the original (and warn).
    Warn,
    /// Replace the original.
    Replace,
    /// Keep the original silently.
    Ignore,
}

/// The message with which a duplicate of kind `kind` named `name` is
/// refused.
pub open spec fn duplicate_message(kind: Seq<char>, name: Seq<char>) -> Seq<char> {
    kind + " '"@ + name + "' already exists"@
}

/// The error for a duplicate of kind `kind` named `name`.
fn duplicate_error(kind: &str, name: &str) -> (e: McpError)
    ensures
        e.code == McpErrorCode::InvalidRequest,
        e.message@ == duplicate_message(kind@, name@),
{
    let mut m = kind.to_string();
    m.append(" '");
    m.append(name);
    m.append("' already exists");
    McpError::invalid_request(m)
}

/// A resource template with its matcher and optional handler.
pub struct TemplateEntry<R> {
    /// The matcher parsed from the template's URI template.
    pub matcher: UriTemplate,
    /// The template's definition.
    pub template: ResourceTemplate,
    /// The handler that serves the template, if any.
    pub handler: Option<R>,
}

} // verus!

verus! {

// ============================================================================
// Router
// ============================================================================

/// Routes MCP requests to the appropriate handlers: the registry of tools,
/// resources, resource templates and prompts, each kept in the order of
/// first registration.
pub struct Router<T, R, P> {
    tools: StrMap<(Tool, T)>,
    resources: StrMap<(Resource, R)>,
    prompts: StrMap<(Prompt, P)>,
    resource_templates: StrMap<TemplateEntry<R>>,
    strict_input_validation: bool,
    list_page_size: Option<usize>,
}

/// The definitions, handlers and order of one kind of component.
pub type Part<D, H> = (Map<Seq<char>, D>, Map<Seq<char>, H>, Seq<Seq<char>>);

impl<T, R, P> Router<T, R, P> {
    /// Every component is registered under its own name (a resource under
    /// its URI, a template under its URI template), and a template's matcher
    /// is the one its URI template gives.
    #[verifier::type_invariant]
    spec fn well_named(&self) -> bool {
        &&& forall|k: Seq<char>| #[trigger] self.tools@.dom().contains(k) ==> self.tools@[k].0.name@ == k
        &&& forall|k: Seq<char>| #[trigger] self.resources@.dom().contains(k) ==> self.resources@[k].0.uri@ == k
        &&& forall|k: Seq<char>| #[trigger] self.prompts@.dom().contains(k) ==> self.prompts@[k].0.name@ == k
        &&& forall|k: Seq<char>| #[trigger] self.resource_templates@.dom().contains(k)
            ==> self.resource_templates@[k].template.uri_template@ == k
            && self.resource_templates@[k].matcher.segs() == template_segments(k)
    }

    /// The tools: definitions and handlers by name, and the names in order.
    pub closed spec fn tool_part(&self) -> Part<ToolView, T> {
        (
            self.tools@.map_values(|e: (Tool, T)| e.0@),
            self.tools@.map_values(|e: (Tool, T)| e.1),
            key_texts(self.tools.entries()),
        )
    }

    /// The resources: definitions and handlers by URI, and the URIs in order.
    pub closed spec fn resource_part(&self) -> Part<DefView, R> {
        (
            self.resources@.map_values(|e: (Resource, R)| e.0@),
            self.resources@.map_values(|e: (Resource, R)| e.1),
            key_texts(self.resources.entries()),
        )
    }

    /// The prompts: definitions and handlers by name, and the names in order.
    pub closed spec fn prompt_part(&self) -> Part<DefView, P> {
        (
            self.prompts@.map_values(|e: (Prompt, P)| e.0@),
            self.prompts@.map_values(|e: (Prompt, P)| e.1),
            key_texts(self.prompts.entries()),
        )
    }

    /// The resource templates: definitions and handlers (if any) by URI
    /// template, and the URI templates in order.
    pub closed spec fn template_part(&self) -> Part<TemplateView, Option<R>> {
        (
            self.resource_templates@.map_values(|e: TemplateEntry<R>| e.template@),
            self.resource_templates@.map_values(|e: TemplateEntry<R>| e.handler),
            key_texts(self.resource_templates.entries()),
        )
    }

    /// Whether strict input validation is on, and the list page size.
    pub closed spec fn settings(&self) -> (bool, Option<usize>) {
        (self.strict_input_validation, self.list_page_size)
    }

    /// Creates a new empty router.
    pub fn new() -> (r: Self)
        ensures
            r.tool_part().0.dom().len() == 0 && r.tool_part().2.len() == 0,
            r.resource_part().0.dom().len() == 0 && r.resource_part().2.len() == 0,
            r.prompt_part().0.dom().len() == 0 && r.prompt_part().2.len() == 0,
            r.template_part().0.dom().len() == 0 && r.template_part().2.len() == 0,
            r.settings() == (false, None::<usize>),
    {
        let r = Router {
            tools: StrMap::new(),
            resources: StrMap::new(),
            prompts: StrMap::new(),
            resource_templates: StrMap::new(),
            strict_input_validation: false,
            list_page_size: None,
        };
        assert(r.tool_part().0 =~= Map::empty());
        assert(r.resource_part().0 =~= Map::empty());
        assert(r.prompt_part().0 =~= Map::empty());
        assert(r.template_part().0 =~= Map::empty());
        r
    }

    /// Sets the list page size; a size of zero turns pages off.
    pub fn set_list_page_size(&mut self, page_size: Option<usize>)
        ensures
            final(self).settings() == (old(self).settings().0, match page_size {
                Some(n) => if n > 0 { Some(n) } else { None },
                None => None,
            }),
            final(self).tool_part() == old(self).tool_part(),
            final(self).resource_part() == old(self).resource_part(),
            final(self).prompt_part() == old(self).prompt_part(),
            final(self).template_part() == old(self).template_part(),
    {
        proof {
            use_type_invariant(&*self);
        }
        self.list_page_size = match page_size {
            Some(n) => if n > 0 {
                Some(n)
            } else {
                None
            },
            None => None,
        };
    }

    /// The list page size, if pages are on.
    pub fn list_page_size(&self) -> (n: Option<usize>)
        ensures
            n == self.settings().1,
    {
        self.list_page_size
    }

    /// Sets whether to use strict input validation.
    pub fn set_strict_input_validation(&mut self, strict: bool)
        ensures
            final(self).settings() == (strict, old(self).settings().1),
            final(self).tool_part() == old(self).tool_part(),
            final(self).resource_part() == old(self).resource_part(),
            final(self).prompt_part() == old(self).prompt_part(),
            final(self).template_part() == old(self).template_part(),
    {
        proof {
            use_type_invariant(&*self);
        }
        self.strict_input_validation = strict;
    }

    /// Returns whether strict input validation is enabled.
    pub fn strict_input_validation(&self) -> (b: bool)
        ensures
            b == self.settings().0,
    {
        self.strict_input_validation
    }

    /// Whether the tool `name` is registered and annotated as read-only.
    pub fn tool_is_read_only(&self, name: &str) -> (b: bool)
        ensures
            b == (self.tool_part().0.dom().contains(name@) && self.tool_part().0[name@].read_only == Some(true)),
    {
        match self.tools.get(name) {
            Some(e) => match e.0.read_only {
                Some(true) => true,
                _ => false,
            },
            None => false,
        }
    }

    /// Returns the number of registered tools.
    pub fn tools_count(&self) -> (n: usize)
        ensures
            n == self.tool_part().0.dom().len(),
    {
        let n = self.tools.len();
        assert(self.tool_part().0.dom() =~= self.tools@.dom());
        n
    }

    /// Returns the number of registered resources.
    pub fn resources_count(&self) -> (n: usize)
        ensures
            n == self.resource_part().0.dom().len(),
    {
        let n = self.resources.len();
        assert(self.resource_part().0.dom() =~= self.resources@.dom());
        n
    }

    /// Returns the number of registered resource templates.
    pub fn resource_templates_count(&self) -> (n: usize)
        ensures
            n == self.template_part().0.dom().len(),
    {
        let n = self.resource_templates.len();
        assert(self.template_part().0.dom() =~= self.resource_templates@.dom());
        n
    }

    /// Returns the number of registered prompts.
    pub fn prompts_count(&self) -> (n: usize)
        ensures
            n == self.prompt_part().0.dom().len(),
    {
        let n = self.prompts.len();
        assert(self.prompt_part().0.dom() =~= self.prompts@.dom());
        n
    }

    /// Gets a tool handler by name.
    pub fn get_tool(&self, name: &str) -> (h: Option<&T>)
        ensures
            match h {
                Some(t) => self.tool_part().1.dom().contains(name@) && *t == self.tool_part().1[name@],
                None => !self.tool_part().1.dom().contains(name@),
            },
    {
        match self.tools.get(name) {
            Some(e) => Some(&e.1),
            None => None,
        }
    }

    /// Gets a resource handler by URI.
    pub fn get_resource(&self, uri: &str) -> (h: Option<&R>)
        ensures
            match h {
                Some(r) => self.resource_part().1.dom().contains(uri@) && *r == self.resource_part().1[uri@],
                None => !self.resource_part().1.dom().contains(uri@),
            },
    {
        match self.resources.get(uri) {
            Some(e) => Some(&e.1),
            None => None,
        }
    }

    /// Gets a resource template by URI template.
    pub fn get_resource_template(&self, uri_template: &str) -> (t: Option<&ResourceTemplate>)
        ensures
            match t {
                Some(d) => self.template_part().0.dom().contains(uri_template@) && d@ == self.template_part().0[uri_template@],
                None => !self.template_part().0.dom().contains(uri_template@),
            },
    {
        match self.resource_templates.get(uri_template) {
            Some(e) => Some(&e.template),
            None => None,
        }
    }

    /// Gets a prompt handler by name.
    pub fn get_prompt(&self, name: &str) -> (h: Option<&P>)
        ensures
            match h {
                Some(p) => self.prompt_part().1.dom().contains(name@) && *p == self.prompt_part().1[name@],
                None => !self.prompt_part().1.dom().contains(name@),
            },
    {
        match self.prompts.get(name) {
            Some(e) => Some(&e.1),
            None => None,
        }
    }
}

} // verus!

verus! {

/// A part with the definition `d` and handler `h` put under `k`: a new name
/// goes last, a taken one keeps its place.
pub open spec fn put_part<D, H>(part: Part<D, H>, k: Seq<char>, d: D, h: H) -> Part<D, H> {
    (part.0.insert(k, d), part.1.insert(k, h), if part.0.dom().contains(k) { part.2 } else { part.2.push(k) })
}

/// Whether `r` and the part `new` are the outcome of putting the definition
/// `d` with handler `h` under `k` into the part `old` of components of kind
/// `kind`: under a taken name, `Error` refuses, `Warn` and `Ignore` keep the
/// original, `Replace` replaces it; a free name is taken.
pub open spec fn put_outcome<D, H>(
    kind: Seq<char>,
    old: Part<D, H>,
    k: Seq<char>,
    d: D,
    h: H,
    behavior: DuplicateBehavior,
    new: Part<D, H>,
    r: Result<(), McpError>,
) -> bool {
    let taken = old.0.dom().contains(k);
    &&& taken && behavior == DuplicateBehavior::Error ==> (r matches Err(e) && e.code == McpErrorCode::InvalidRequest
        && e.message@ == duplicate_message(kind, k) && new == old)
    &&& taken && keeps_original(behavior) ==> r is Ok && new == old
    &&& (!taken || behavior == DuplicateBehavior::Replace) ==> r is Ok && new == put_part(old, k, d, h)
}

/// Whether adding under a taken name with `behavior` leaves the registry as
/// it was.
pub open spec fn keeps_original(behavior: DuplicateBehavior) -> bool {
    behavior == DuplicateBehavior::Warn || behavior == DuplicateBehavior::Ignore
}

impl<T, R, P> Router<T, R, P> {
    /// Puts the tool `def` with its handler under the tool's name, unless the
    /// name is taken and `behavior` says otherwise: `Error` refuses, `Warn`
    /// and `Ignore` keep the original, `Replace` replaces it.
    pub fn put_tool(&mut self, def: Tool, handler: T, behavior: DuplicateBehavior) -> (r: Result<(), McpError>)
        ensures
            put_outcome("Tool"@, old(self).tool_part(), def.name@, def@, handler, behavior, final(self).tool_part(), r),
            final(self).resource_part() == old(self).resource_part(),
            final(self).prompt_part() == old(self).prompt_part(),
            final(self).template_part() == old(self).template_part(),
            final(self).settings() == old(self).settings(),
    {
        proof {
            use_type_invariant(&*self);
        }
        if self.tools.contains_key(def.name.as_str()) {
            match behavior {
                DuplicateBehavior::Error => {
                    return Err(duplicate_error("Tool", def.name.as_str()));
                },
                DuplicateBehavior::Warn => {
                    return Ok(());
                },
                DuplicateBehavior::Ignore => {
                    return Ok(());
                },
                DuplicateBehavior::Replace => {},
            }
        }
        let ghost d = def@;
        let ghost before = self.tools@;
        let mut tools: StrMap<(Tool, T)> = StrMap::new();
        std::mem::swap(&mut tools, &mut self.tools);
        let k = def.name.clone();
        tools.insert(k, (def, handler));
        self.tools = tools;
        assert(self.tool_part().0 =~= old(self).tool_part().0.insert(d.name, d));
        assert(self.tool_part().1 =~= old(self).tool_part().1.insert(d.name, handler));
        Ok(())
    }

    /// Puts the prompt `def` with its handler under the prompt's name, as
    /// [`Self::put_tool`] does for tools.
    pub fn put_prompt(&mut self, def: Prompt, handler: P, behavior: DuplicateBehavior) -> (r: Result<(), McpError>)
        ensures
            put_outcome("Prompt"@, old(self).prompt_part(), def.name@, def@, handler, behavior, final(self).prompt_part(), r),
            final(self).tool_part() == old(self).tool_part(),
            final(self).resource_part() == old(self).resource_part(),
            final(self).template_part() == old(self).template_part(),
            final(self).settings() == old(self).settings(),
    {
        proof {
            use_type_invariant(&*self);
        }
        if self.prompts.contains_key(def.name.as_str()) {
            match behavior {
                DuplicateBehavior::Error => {
                    return Err(duplicate_error("Prompt", def.name.as_str()));
                },
                DuplicateBehavior::Warn => {
                    return Ok(());
                },
                DuplicateBehavior::Ignore => {
                    return Ok(());
                },
                DuplicateBehavior::Replace => {},
            }
        }
        let ghost d = def@;
        let mut prompts: StrMap<(Prompt, P)> = StrMap::new();
        std::mem::swap(&mut prompts, &mut self.prompts);
        let k = def.name.clone();
        prompts.insert(k, (def, handler));
        self.prompts = prompts;
        assert(self.prompt_part().0 =~= old(self).prompt_part().0.insert(d.name, d));
        assert(self.prompt_part().1 =~= old(self).prompt_part().1.insert(d.name, handler));
        Ok(())
    }
}

} // verus!

verus! {

impl<T, R, P> Router<T, R, P> {
    /// Puts a resource with its handler: where the handler serves the
    /// template `template`, under the URI template (with a matcher parsed
    /// from it), else under the resource's URI.  A taken key is handled by
    /// `behavior` as [`Self::put_tool`] does.
    pub fn put_resource(
        &mut self,
        def: Resource,
        template: Option<ResourceTemplate>,
        handler: R,
        behavior: DuplicateBehavior,
    ) -> (r: Result<(), McpError>)
        ensures
            match template {
                Some(t) => put_outcome(
                    "Resource"@,
                    old(self).template_part(),
                    t.uri_template@,
                    t@,
                    Some(handler),
                    behavior,
                    final(self).template_part(),
                    r,
                ) && final(self).resource_part() == old(self).resource_part(),
                None => put_outcome(
                    "Resource"@,
                    old(self).resource_part(),
                    def.uri@,
                    def@,
                    handler,
                    behavior,
                    final(self).resource_part(),
                    r,
                ) && final(self).template_part() == old(self).template_part(),
            },
            final(self).tool_part() == old(self).tool_part(),
            final(self).prompt_part() == old(self).prompt_part(),
            final(self).settings() == old(self).settings(),
    {
        proof {
            use_type_invariant(&*self);
        }
        match template {
            Some(t) => {
                if self.resource_templates.contains_key(t.uri_template.as_str()) {
                    match behavior {
                        DuplicateBehavior::Error => {
                            return Err(duplicate_error("Resource", t.uri_template.as_str()));
                        },
                        DuplicateBehavior::Warn => {
                            return Ok(());
                        },
                        DuplicateBehavior::Ignore => {
                            return Ok(());
                        },
                        DuplicateBehavior::Replace => {},
                    }
                }
                let ghost tv = t@;
                let matcher = UriTemplate::new(t.uri_template.as_str());
                let k = t.uri_template.clone();
                let mut templates: StrMap<TemplateEntry<R>> = StrMap::new();
                std::mem::swap(&mut templates, &mut self.resource_templates);
                templates.insert(k, TemplateEntry { matcher, template: t, handler: Some(handler) });
                self.resource_templates = templates;
                assert(self.template_part().0 =~= old(self).template_part().0.insert(tv.name, tv));
                assert(self.template_part().1 =~= old(self).template_part().1.insert(tv.name, Some(handler)));
                Ok(())
            },
            None => {
                if self.resources.contains_key(def.uri.as_str()) {
                    match behavior {
                        DuplicateBehavior::Error => {
                            return Err(duplicate_error("Resource", def.uri.as_str()));
                        },
                        DuplicateBehavior::Warn => {
                            return Ok(());
                        },
                        DuplicateBehavior::Ignore => {
                            return Ok(());
                        },
                        DuplicateBehavior::Replace => {},
                    }
                }
                let ghost d = def@;
                let k = def.uri.clone();
                let mut resources: StrMap<(Resource, R)> = StrMap::new();
                std::mem::swap(&mut resources, &mut self.resources);
                resources.insert(k, (def, handler));
                self.resources = resources;
                assert(self.resource_part().0 =~= old(self).resource_part().0.insert(d.name, d));
                assert(self.resource_part().1 =~= old(self).resource_part().1.insert(d.name, handler));
                Ok(())
            },
        }
    }

    /// Adds a resource template definition: a new one without a handler; for
    /// a known URI template the definition and matcher are replaced and the
    /// handler and place kept.
    pub fn add_resource_template(&mut self, template: ResourceTemplate)
        ensures
            ({
                let k = template.uri_template@;
                let old_part = old(self).template_part();
                &&& old_part.0.dom().contains(k) ==> final(self).template_part() == (
                    old_part.0.insert(k, template@),
                    old_part.1,
                    old_part.2,
                )
                &&& !old_part.0.dom().contains(k) ==> final(self).template_part() == put_part(
                    old_part,
                    k,
                    template@,
                    None,
                )
            }),
            final(self).tool_part() == old(self).tool_part(),
            final(self).resource_part() == old(self).resource_part(),
            final(self).prompt_part() == old(self).prompt_part(),
            final(self).settings() == old(self).settings(),
    {
        proof {
            use_type_invariant(&*self);
        }
        let ghost tv = template@;
        let ghost k = tv.name;
        let mut templates: StrMap<TemplateEntry<R>> = StrMap::new();
        std::mem::swap(&mut templates, &mut self.resource_templates);
        let key = template.uri_template.clone();
        let copy = template.duplicate();
        let matcher = UriTemplate::new(key.as_str());
        let prev = templates.insert(key.clone(), TemplateEntry { matcher, template, handler: None });
        match prev {
            Some(p) => {
                let matcher2 = UriTemplate::new(key.as_str());
                templates.insert(key, TemplateEntry { matcher: matcher2, template: copy, handler: p.handler });
                self.resource_templates = templates;
                assert(self.template_part().0 =~= old(self).template_part().0.insert(k, tv));
                assert(self.template_part().1 =~= old(self).template_part().1);
            },
            None => {
                self.resource_templates = templates;
                assert(self.template_part().0 =~= old(self).template_part().0.insert(k, tv));
                assert(self.template_part().1 =~= old(self).template_part().1.insert(k, None));
            },
        }
    }
}

impl<T: ToolHandler, R: ResourceHandler, P: PromptHandler> Router<T, R, P> {
    /// Adds a tool handler under the name its definition gives, replacing
    /// any tool of that name.
    pub fn add_tool(&mut self, handler: T)
        ensures
            exists|d: ToolView| #[trigger] put_part(old(self).tool_part(), d.name, d, handler)
                == final(self).tool_part(),
            final(self).resource_part() == old(self).resource_part(),
            final(self).prompt_part() == old(self).prompt_part(),
            final(self).template_part() == old(self).template_part(),
            final(self).settings() == old(self).settings(),
    {
        let def = handler.definition();
        let ghost d = def@;
        let _ = self.put_tool(def, handler, DuplicateBehavior::Replace);
        assert(put_part(old(self).tool_part(), d.name, d, handler) == self.tool_part());
    }

    /// Adds a tool handler with the given duplicate behavior.
    pub fn add_tool_with_behavior(&mut self, handler: T, behavior: DuplicateBehavior) -> (r: Result<(), McpError>)
        ensures
            exists|d: ToolView| #[trigger] put_outcome(
                "Tool"@,
                old(self).tool_part(),
                d.name,
                d,
                handler,
                behavior,
                final(self).tool_part(),
                r,
            ),
            final(self).resource_part() == old(self).resource_part(),
            final(self).prompt_part() == old(self).prompt_part(),
            final(self).template_part() == old(self).template_part(),
            final(self).settings() == old(self).settings(),
    {
        let def = handler.definition();
        let ghost d = def@;
        let r = self.put_tool(def, handler, behavior);
        assert(put_outcome("Tool"@, old(self).tool_part(), d.name, d, handler, behavior, self.tool_part(), r));
        r
    }

    /// Adds a resource handler under its template or URI, replacing any
    /// resource there.
    pub fn add_resource(&mut self, handler: R)
        ensures
            (exists|d: DefView| #[trigger] put_part(old(self).resource_part(), d.name, d, handler)
                == final(self).resource_part() && final(self).template_part() == old(self).template_part())
                || (exists|t: TemplateView| #[trigger] put_part(old(self).template_part(), t.name, t, Some(handler))
                == final(self).template_part() && final(self).resource_part() == old(self).resource_part()),
            final(self).tool_part() == old(self).tool_part(),
            final(self).prompt_part() == old(self).prompt_part(),
            final(self).settings() == old(self).settings(),
    {
        let template = handler.template();
        let def = handler.definition();
        let ghost dv = def@;
        let is_template = template.is_some();
        let ghost tv = template->0@;
        let _ = self.put_resource(def, template, handler, DuplicateBehavior::Replace);
        if is_template {
            assert(put_part(old(self).template_part(), tv.name, tv, Some(handler)) == self.template_part());
        } else {
            assert(put_part(old(self).resource_part(), dv.name, dv, handler) == self.resource_part());
        }
    }

    /// Adds a resource handler with the given duplicate behavior.
    pub fn add_resource_with_behavior(&mut self, handler: R, behavior: DuplicateBehavior) -> (r: Result<
        (),
        McpError,
    >)
        ensures
            (exists|d: DefView| #[trigger] put_outcome(
                "Resource"@,
                old(self).resource_part(),
                d.name,
                d,
                handler,
                behavior,
                final(self).resource_part(),
                r,
            ) && final(self).template_part() == old(self).template_part()) || (exists|t: TemplateView| #[trigger] put_outcome(
                "Resource"@,
                old(self).template_part(),
                t.name,
                t,
                Some(handler),
                behavior,
                final(self).template_part(),
                r,
            ) && final(self).resource_part() == old(self).resource_part()),
            final(self).tool_part() == old(self).tool_part(),
            final(self).prompt_part() == old(self).prompt_part(),
            final(self).settings() == old(self).settings(),
    {
        let template = handler.template();
        let def = handler.definition();
        let ghost dv = def@;
        let is_template = template.is_some();
        let ghost tv = template->0@;
        let r = self.put_resource(def, template, handler, behavior);
        if is_template {
            assert(put_outcome("Resource"@, old(self).template_part(), tv.name, tv, Some(handler), behavior, self.template_part(), r));
        } else {
            assert(put_outcome("Resource"@, old(self).resource_part(), dv.name, dv, handler, behavior, self.resource_part(), r));
        }
        r
    }

    /// Adds a prompt handler under the name its definition gives, replacing
    /// any prompt of that name.
    pub fn add_prompt(&mut self, handler: P)
        ensures
            exists|d: DefView| #[trigger] put_part(old(self).prompt_part(), d.name, d, handler)
                == final(self).prompt_part(),
            final(self).tool_part() == old(self).tool_part(),
            final(self).resource_part() == old(self).resource_part(),
            final(self).template_part() == old(self).template_part(),
            final(self).settings() == old(self).settings(),
    {
        let def = handler.definition();
        let ghost d = def@;
        let _ = self.put_prompt(def, handler, DuplicateBehavior::Replace);
        assert(put_part(old(self).prompt_part(), d.name, d, handler) == self.prompt_part());
    }

    /// Adds a prompt handler with the given duplicate behavior.
    pub fn add_prompt_with_behavior(&mut self, handler: P, behavior: DuplicateBehavior) -> (r: Result<(), McpError>)
        ensures
            exists|d: DefView| #[trigger] put_outcome(
                "Prompt"@,
                old(self).prompt_part(),
                d.name,
                d,
                handler,
                behavior,
                final(self).prompt_part(),
                r,
            ),
            final(self).tool_part() == old(self).tool_part(),
            final(self).resource_part() == old(self).resource_part(),
            final(self).template_part() == old(self).template_part(),
            final(self).settings() == old(self).settings(),
    {
        let def = handler.definition();
        let ghost d = def@;
        let r = self.put_prompt(def, handler, behavior);
        assert(put_outcome("Prompt"@, old(self).prompt_part(), d.name, d, handler, behavior, self.prompt_part(), r));
        r
    }
}

} // verus!

verus! {

// ============================================================================
// Listing
// ============================================================================

/// The views of a sequence of values.
pub open spec fn views<A: View>(v: Seq<A>) -> Seq<A::V> {
    v.map_values(|a: A| a@)
}

/// The names in a set of disabled names, if one is given.
pub open spec fn disabled_names(disabled: Option<&StrSet>) -> Option<Set<Seq<char>>> {
    match disabled {
        Some(s) => Some(s@),
        None => None,
    }
}

/// The wanted and unwanted tags of optional tag filters.
pub open spec fn filter_tags(filters: Option<&TagFilters>) -> Option<(Option<Seq<Seq<char>>>, Option<Seq<Seq<char>>>)> {
    match filters {
        Some(f) => Some((opt_tags(f.all_of), opt_tags(f.none_of))),
        None => None,
    }
}

/// Whether a component named `name` with tags `tags` is listed: its name is
/// not among the `disabled` ones and its tags pass the tag filters, where
/// either is given.
pub open spec fn selected(
    disabled: Option<Set<Seq<char>>>,
    filters: Option<(Option<Seq<Seq<char>>>, Option<Seq<Seq<char>>>)>,
    name: Seq<char>,
    tags: Seq<Seq<char>>,
) -> bool {
    &&& disabled matches Some(d) ==> !d.contains(name)
    &&& filters matches Some(f) ==> tags_pass(f.0, f.1, tags)
}

/// The tool definitions under `names`, in that order, that are selected.
pub open spec fn listed_tools(
    defs: Map<Seq<char>, ToolView>,
    names: Seq<Seq<char>>,
    disabled: Option<Set<Seq<char>>>,
    filters: Option<(Option<Seq<Seq<char>>>, Option<Seq<Seq<char>>>)>,
) -> Seq<ToolView>
    decreases names.len(),
{
    if names.len() == 0 {
        Seq::empty()
    } else {
        let d = defs[names.last()];
        listed_tools(defs, names.drop_last(), disabled, filters) + if selected(disabled, filters, d.name, d.tags) {
            seq![d]
        } else {
            Seq::empty()
        }
    }
}

/// The definitions under `names`, in that order, that are selected.
pub open spec fn listed_defs(
    defs: Map<Seq<char>, DefView>,
    names: Seq<Seq<char>>,
    disabled: Option<Set<Seq<char>>>,
    filters: Option<(Option<Seq<Seq<char>>>, Option<Seq<Seq<char>>>)>,
) -> Seq<DefView>
    decreases names.len(),
{
    if names.len() == 0 {
        Seq::empty()
    } else {
        let d = defs[names.last()];
        listed_defs(defs, names.drop_last(), disabled, filters) + if selected(disabled, filters, d.name, d.tags) {
            seq![d]
        } else {
            Seq::empty()
        }
    }
}

/// The resource templates under `names`, in that order, that are selected.
pub open spec fn listed_templates(
    defs: Map<Seq<char>, TemplateView>,
    names: Seq<Seq<char>>,
    disabled: Option<Set<Seq<char>>>,
    filters: Option<(Option<Seq<Seq<char>>>, Option<Seq<Seq<char>>>)>,
) -> Seq<TemplateView>
    decreases names.len(),
{
    if names.len() == 0 {
        Seq::empty()
    } else {
        let d = defs[names.last()];
        listed_templates(defs, names.drop_last(), disabled, filters) + if selected(disabled, filters, d.name, d.tags) {
            seq![d]
        } else {
            Seq::empty()
        }
    }
}

/// Whether a component named `name` with tags `tags` is listed.
fn is_selected(disabled: Option<&StrSet>, filters: Option<&TagFilters>, name: &str, tags: &[String]) -> (b: bool)
    ensures
        b == selected(disabled_names(disabled), filter_tags(filters), name@, texts(tags@)),
{
    if let Some(d) = disabled {
        if d.contains(name) {
            return false;
        }
    }
    match filters {
        Some(f) => f.matches(tags),
        None => true,
    }
}

impl<T, R, P> Router<T, R, P> {
    /// Returns the tool definitions in registration order that are not
    /// disabled and pass the tag filters, where these are given.
    pub fn tools_filtered(&self, disabled: Option<&StrSet>, tag_filters: Option<&TagFilters>) -> (v: Vec<Tool>)
        ensures
            views(v@) == listed_tools(
                self.tool_part().0,
                self.tool_part().2,
                disabled_names(disabled),
                filter_tags(tag_filters),
            ),
    {
        let ghost defs = self.tool_part().0;
        let ghost names = self.tool_part().2;
        let ghost dis = disabled_names(disabled);
        let ghost fil = filter_tags(tag_filters);
        let n = self.tools.len();
        let mut out: Vec<Tool> = Vec::new();
        let mut i: usize = 0;
        while i < n
            invariant
                i <= n,
                n == self.tools.entries().len(),
                keys_unique(self.tools.entries()),
                self.tools@ == crate::store::entries_map(self.tools.entries()),
                names == key_texts(self.tools.entries()),
                defs == self.tools@.map_values(|e: (Tool, T)| e.0@),
                dis == disabled_names(disabled),
                fil == filter_tags(tag_filters),
                views(out@) == listed_tools(defs, names.take(i as int), dis, fil),
            decreases n - i,
        {
            let e = self.tools.value_at(i);
            let keep = is_selected(disabled, tag_filters, e.0.name.as_str(), e.0.tags.as_slice());
            let ghost before = views(out@);
            assert(names.take(i + 1).drop_last() =~= names.take(i as int));
            assert(names.take(i + 1).last() == self.tools.entries()[i as int].0@);
            proof {
                lemma_entry_in_map(self.tools.entries(), i as int);
            }
            assert(defs[names.take(i + 1).last()] == e.0@);
            if keep {
                out.push(e.0.duplicate());
                assert(views(out@) =~= before + seq![e.0@]);
            } else {
                assert(views(out@) =~= before + Seq::<ToolView>::empty());
            }
            i += 1;
        }
        assert(names.take(n as int) =~= names);
        out
    }

    /// Returns all tool definitions in registration order.
    pub fn tools(&self) -> (v: Vec<Tool>)
        ensures
            views(v@) == listed_tools(self.tool_part().0, self.tool_part().2, None, None),
    {
        self.tools_filtered(None, None)
    }
}

impl<T, R, P> Router<T, R, P> {
    /// Returns the resource definitions in registration order that are not
    /// disabled and pass the tag filters, where these are given.
    pub fn resources_filtered(&self, disabled: Option<&StrSet>, tag_filters: Option<&TagFilters>) -> (v: Vec<Resource>)
        ensures
            views(v@) == listed_defs(
                self.resource_part().0,
                self.resource_part().2,
                disabled_names(disabled),
                filter_tags(tag_filters),
            ),
    {
        let ghost defs = self.resource_part().0;
        let ghost names = self.resource_part().2;
        let ghost dis = disabled_names(disabled);
        let ghost fil = filter_tags(tag_filters);
        let n = self.resources.len();
        let mut out: Vec<Resource> = Vec::new();
        let mut i: usize = 0;
        while i < n
            invariant
                i <= n,
                n == self.resources.entries().len(),
                keys_unique(self.resources.entries()),
                self.resources@ == crate::store::entries_map(self.resources.entries()),
                names == key_texts(self.resources.entries()),
                defs == self.resources@.map_values(|e: (Resource, R)| e.0@),
                dis == disabled_names(disabled),
                fil == filter_tags(tag_filters),
                views(out@) == listed_defs(defs, names.take(i as int), dis, fil),
            decreases n - i,
        {
            let e = self.resources.value_at(i);
            let keep = is_selected(disabled, tag_filters, e.0.uri.as_str(), e.0.tags.as_slice());
            let ghost before = views(out@);
            assert(names.take(i + 1).drop_last() =~= names.take(i as int));
            assert(names.take(i + 1).last() == self.resources.entries()[i as int].0@);
            proof {
                lemma_entry_in_map(self.resources.entries(), i as int);
            }
            assert(defs[names.take(i + 1).last()] == e.0@);
            if keep {
                out.push(e.0.duplicate());
                assert(views(out@) =~= before + seq![e.0@]);
            } else {
                assert(views(out@) =~= before + Seq::<DefView>::empty());
            }
            i += 1;
        }
        assert(names.take(n as int) =~= names);
        out
    }

    /// Returns all resource definitions in registration order.
    pub fn resources(&self) -> (v: Vec<Resource>)
        ensures
            views(v@) == listed_defs(self.resource_part().0, self.resource_part().2, None, None),
    {
        self.resources_filtered(None, None)
    }
}

impl<T, R, P> Router<T, R, P> {
    /// Returns the resource templates in registration order that are not
    /// disabled and pass the tag filters, where these are given.
    pub fn resource_templates_filtered(&self, disabled: Option<&StrSet>, tag_filters: Option<&TagFilters>) -> (v: Vec<ResourceTemplate>)
        ensures
            views(v@) == listed_templates(
                self.template_part().0,
                self.template_part().2,
                disabled_names(disabled),
                filter_tags(tag_filters),
            ),
    {
        let ghost defs = self.template_part().0;
        let ghost names = self.template_part().2;
        let ghost dis = disabled_names(disabled);
        let ghost fil = filter_tags(tag_filters);
        let n = self.resource_templates.len();
        let mut out: Vec<ResourceTemplate> = Vec::new();
        let mut i: usize = 0;
        while i < n
            invariant
                i <= n,
                n == self.resource_templates.entries().len(),
                keys_unique(self.resource_templates.entries()),
                self.resource_templates@ == crate::store::entries_map(self.resource_templates.entries()),
                names == key_texts(self.resource_templates.entries()),
                defs == self.resource_templates@.map_values(|e: TemplateEntry<R>| e.template@),
                dis == disabled_names(disabled),
                fil == filter_tags(tag_filters),
                views(out@) == listed_templates(defs, names.take(i as int), dis, fil),
            decreases n - i,
        {
            let e = self.resource_templates.value_at(i);
            let keep = is_selected(disabled, tag_filters, e.template.uri_template.as_str(), e.template.tags.as_slice());
            let ghost before = views(out@);
            assert(names.take(i + 1).drop_last() =~= names.take(i as int));
            assert(names.take(i + 1).last() == self.resource_templates.entries()[i as int].0@);
            proof {
                lemma_entry_in_map(self.resource_templates.entries(), i as int);
            }
            assert(defs[names.take(i + 1).last()] == e.template@);
            if keep {
                out.push(e.template.duplicate());
                assert(views(out@) =~= before + seq![e.template@]);
            } else {
                assert(views(out@) =~= before + Seq::<TemplateView>::empty());
            }
            i += 1;
        }
        assert(names.take(n as int) =~= names);
        out
    }

    /// Returns all resource templates in registration order.
    pub fn resource_templates(&self) -> (v: Vec<ResourceTemplate>)
        ensures
            views(v@) == listed_templates(self.template_part().0, self.template_part().2, None, None),
    {
        self.resource_templates_filtered(None, None)
    }
}

impl<T, R, P> Router<T, R, P> {
    /// Returns the prompt definitions in registration order that are not
    /// disabled and pass the tag filters, where these are given.
    pub fn prompts_filtered(&self, disabled: Option<&StrSet>, tag_filters: Option<&TagFilters>) -> (v: Vec<Prompt>)
        ensures
            views(v@) == listed_defs(
                self.prompt_part().0,
                self.prompt_part().2,
                disabled_names(disabled),
                filter_tags(tag_filters),
            ),
    {
        let ghost defs = self.prompt_part().0;
        let ghost names = self.prompt_part().2;
        let ghost dis = disabled_names(disabled);
        let ghost fil = filter_tags(tag_filters);
        let n = self.prompts.len();
        let mut out: Vec<Prompt> = Vec::new();
        let mut i: usize = 0;
        while i < n
            invariant
                i <= n,
                n == self.prompts.entries().len(),
                keys_unique(self.prompts.entries()),
                self.prompts@ == crate::store::entries_map(self.prompts.entries()),
                names == key_texts(self.prompts.entries()),
                defs == self.prompts@.map_values(|e: (Prompt, P)| e.0@),
                dis == disabled_names(disabled),
                fil == filter_tags(tag_filters),
                views(out@) == listed_defs(defs, names.take(i as int), dis, fil),
            decreases n - i,
        {
            let e = self.prompts.value_at(i);
            let keep = is_selected(disabled, tag_filters, e.0.name.as_str(), e.0.tags.as_slice());
            let ghost before = views(out@);
            assert(names.take(i + 1).drop_last() =~= names.take(i as int));
            assert(names.take(i + 1).last() == self.prompts.entries()[i as int].0@);
            proof {
                lemma_entry_in_map(self.prompts.entries(), i as int);
            }
            assert(defs[names.take(i + 1).last()] == e.0@);
            if keep {
                out.push(e.0.duplicate());
                assert(views(out@) =~= before + seq![e.0@]);
            } else {
                assert(views(out@) =~= before + Seq::<DefView>::empty());
            }
            i += 1;
        }
        assert(names.take(n as int) =~= names);
        out
    }

    /// Returns all prompt definitions in registration order.
    pub fn prompts(&self) -> (v: Vec<Prompt>)
        ensures
            views(v@) == listed_defs(self.prompt_part().0, self.prompt_part().2, None, None),
    {
        self.prompts_filtered(None, None)
    }
}

} // verus!

verus! {

// ============================================================================
// Resource resolution
// ============================================================================

/// The specificity of a template with segments `segs`: the UTF-8 length of
/// its literal text (saturating at `usize::MAX`), the number of literal
/// segments and the number of segments.
pub open spec fn specificity_of(segs: Seq<SegmentView>) -> (nat, nat, nat) {
    (
        if literal_bytes(segs) > usize::MAX { usize::MAX as nat } else { literal_bytes(segs) },
        literal_count(segs),
        segs.len(),
    )
}

/// The specificity of the URI template `k`.
pub open spec fn template_rank(k: Seq<char>) -> (nat, nat, nat) {
    specificity_of(template_segments(k))
}

/// Whether specificity `x` is more specific than `y`: more literal bytes,
/// then more literal segments, then more segments.
pub open spec fn rank_before(x: (nat, nat, nat), y: (nat, nat, nat)) -> bool {
    x.0 > y.0 || (x.0 == y.0 && (x.1 > y.1 || (x.1 == y.1 && x.2 > y.2)))
}

/// Whether the URI template `a` is tried before `b`: it is more specific, or
/// as specific and earlier in the order of texts.
pub open spec fn tried_before(a: Seq<char>, b: Seq<char>) -> bool {
    rank_before(template_rank(a), template_rank(b)) || (template_rank(a) == template_rank(b) && text_less(a, b))
}

/// The order of trying templates is transitive.
pub proof fn lemma_tried_before_transitive(a: Seq<char>, b: Seq<char>, c: Seq<char>)
    requires
        tried_before(a, b),
        tried_before(b, c),
    ensures
        tried_before(a, c),
{
    if template_rank(a) == template_rank(b) && template_rank(b) == template_rank(c) {
        crate::text::lemma_text_less_transitive(a, b, c);
    }
}

/// Of two different templates, one is tried before the other, and never both.
pub proof fn lemma_tried_before_total(a: Seq<char>, b: Seq<char>)
    requires
        a != b,
    ensures
        tried_before(a, b) || tried_before(b, a),
        !(tried_before(a, b) && tried_before(b, a)),
{
    crate::text::lemma_text_less_total(a, b);
    if text_less(a, b) && text_less(b, a) {
        crate::text::lemma_text_less_transitive(a, b, a);
        crate::text::lemma_text_less_irreflexive(a);
    }
}

/// Whether the template registered under `k` in `part` has a handler and
/// matches `uri`.
pub open spec fn serves<R>(part: Part<TemplateView, Option<R>>, k: Seq<char>, uri: Seq<char>) -> bool {
    &&& part.1.dom().contains(k)
    &&& part.1[k] is Some
    &&& template_match(template_segments(k), uri) is Some
}

/// Whether `k` is the template of `part` that serves `uri` and is tried
/// before every other that does.
pub open spec fn best_template<R>(part: Part<TemplateView, Option<R>>, k: Seq<char>, uri: Seq<char>) -> bool {
    &&& serves(part, k, uri)
    &&& forall|k2: Seq<char>| #[trigger] serves(part, k2, uri) && k2 != k ==> tried_before(k, k2)
}

/// The specificity as integers.
pub open spec fn rank_nat(x: (usize, usize, usize)) -> (nat, nat, nat) {
    (x.0 as nat, x.1 as nat, x.2 as nat)
}

/// Whether the template `a` with specificity `x` is tried before the
/// template `b` with specificity `y`.
fn is_tried_before(x: (usize, usize, usize), a: &str, y: (usize, usize, usize), b: &str) -> (r: bool)
    ensures
        r == (rank_before(rank_nat(x), rank_nat(y)) || (rank_nat(x) == rank_nat(y) && text_less(a@, b@))),
{
    if x.0 != y.0 {
        return x.0 > y.0;
    }
    if x.1 != y.1 {
        return x.1 > y.1;
    }
    if x.2 != y.2 {
        return x.2 > y.2;
    }
    text_before(a, b)
}

impl<T, R, P> Router<T, R, P> {
    /// Finds the handler for `uri` and the values of the template's
    /// parameters: a static resource registered under `uri` first (with no
    /// parameters), else the template with a handler that matches `uri` and
    /// is tried before every other that does.
    pub fn resolve_resource(&self, uri: &str) -> (r: Option<(&R, StrMap<String>)>)
        ensures
            self.resource_part().1.dom().contains(uri@) ==> (r matches Some(found) && *found.0
                == self.resource_part().1[uri@] && found.1@.dom().len() == 0),
            !self.resource_part().1.dom().contains(uri@) ==> match r {
                Some(found) => exists|k: Seq<char>| #[trigger]
                    best_template(self.template_part(), k, uri@) && self.template_part().1[k] == Some(*found.0)
                        && template_match(template_segments(k), uri@) == Some(text_values(found.1@)),
                None => forall|k: Seq<char>| !#[trigger] serves(self.template_part(), k, uri@),
            },
    {
        proof {
            use_type_invariant(self);
        }
        if let Some(e) = self.resources.get(uri) {
            let none: StrMap<String> = StrMap::new();
            return Some((&e.1, none));
        }
        let ghost tp = self.template_part();
        let ghost names = tp.2;
        let n = self.resource_templates.len();
        let mut best: Option<(usize, StrMap<String>)> = None;
        let mut best_rank: (usize, usize, usize) = (0, 0, 0);
        let mut i: usize = 0;
        while i < n
            invariant
                i <= n,
                n == self.resource_templates.entries().len(),
                keys_unique(self.resource_templates.entries()),
                self.resource_templates@ == crate::store::entries_map(self.resource_templates.entries()),
                tp == self.template_part(),
                names == key_texts(self.resource_templates.entries()),
                match best {
                    Some(b) => b.0 < i && serves(tp, names[b.0 as int], uri@) && template_match(
                        template_segments(names[b.0 as int]),
                        uri@,
                    ) == Some(text_values(b.1@)) && rank_nat(best_rank) == template_rank(names[b.0 as int])
                        && forall|j: int| 0 <= j < i && #[trigger] serves(tp, names[j], uri@) ==> j == b.0
                        || tried_before(names[b.0 as int], names[j]),
                    None => forall|j: int| 0 <= j < i ==> !#[trigger] serves(tp, names[j], uri@),
                },
            decreases n - i,
        {
            proof {
                use_type_invariant(self);
                lemma_entry_in_map(self.resource_templates.entries(), i as int);
            }
            let e = self.resource_templates.value_at(i);
            let ghost k = names[i as int];
            assert(k == self.resource_templates.entries()[i as int].0@);
            assert(tp.1[k] == e.handler);
            assert(e.matcher.segs() == template_segments(k));
            if e.handler.is_some() {
                match e.matcher.matches(uri) {
                    Some(params) => {
                        let rk = e.matcher.specificity();
                        let key = self.resource_templates.key_at(i);
                        let replace = match &best {
                            None => true,
                            Some(b) => {
                                let other = self.resource_templates.key_at(b.0);
                                is_tried_before(rk, key.as_str(), best_rank, other.as_str())
                            },
                        };
                        if replace {
                            proof {
                                if best is Some {
                                    let b = (best->0).0 as int;
                                    assert forall|j: int| 0 <= j < i + 1 && #[trigger] serves(tp, names[j], uri@)
                                        implies j == i || tried_before(k, names[j]) by {
                                        if j != i && j != b {
                                            lemma_tried_before_transitive(k, names[b], names[j]);
                                        }
                                    }
                                }
                            }
                            best = Some((i, params));
                            best_rank = rk;
                        } else {
                            proof {
                                let b = (best->0).0 as int;
                                assert(names[b] != k) by {
                                    assert(names[b] == self.resource_templates.entries()[b].0@);
                                }
                                lemma_tried_before_total(k, names[b]);
                            }
                        }
                    },
                    None => {},
                }
            }
            i += 1;
        }
        match best {
            None => {
                proof {
                    assert forall|k: Seq<char>| !#[trigger] serves(tp, k, uri@) by {
                        if serves(tp, k, uri@) {
                            crate::store::lemma_map_len(self.resource_templates.entries());
                            let j = crate::store::index_of_key(self.resource_templates.entries(), k);
                            assert(names[j] == k);
                        }
                    }
                }
                None
            },
            Some(b) => {
                let e = self.resource_templates.value_at(b.0);
                match &e.handler {
                    Some(h) => {
                        proof {
                            let kb = names[b.0 as int];
                            assert(best_template(tp, kb, uri@)) by {
                                assert forall|k2: Seq<char>| #[trigger] serves(tp, k2, uri@) && k2 != kb
                                    implies tried_before(kb, k2) by {
                                    crate::store::lemma_map_len(self.resource_templates.entries());
                                    let j = crate::store::index_of_key(self.resource_templates.entries(), k2);
                                    assert(names[j] == k2);
                                }
                            }
                        }
                        Some((h, b.1))
                    },
                    None => None,
                }
            },
        }
    }

    /// Whether a resource exists for `uri`: a static resource, or a template
    /// with a handler that matches it.
    pub fn resource_exists(&self, uri: &str) -> (b: bool)
        ensures
            b == (self.resource_part().1.dom().contains(uri@) || exists|k: Seq<char>| #[trigger]
                serves(self.template_part(), k, uri@)),
    {
        match self.resolve_resource(uri) {
            Some(_) => true,
            None => false,
        }
    }
}

} // verus!

verus! {

// ============================================================================
// Mounting routers
// ============================================================================

/// A definition that can be given another name.
pub trait Renamable {
    /// The definition under the name `name`.
    spec fn renamed(self, name: Seq<char>) -> Self;
}

impl Renamable for ToolView {
    open spec fn renamed(self, name: Seq<char>) -> ToolView {
        ToolView { name, tags: self.tags, read_only: self.read_only }
    }
}

impl Renamable for TemplateView {
    open spec fn renamed(self, name: Seq<char>) -> TemplateView {
        TemplateView { name, title: self.title, tags: self.tags }
    }
}

impl Renamable for DefView {
    open spec fn renamed(self, name: Seq<char>) -> DefView {
        DefView { name, tags: self.tags }
    }
}

/// The part `dest` after the components of `src` named in `names` are
/// mounted into it in that order, each under its name with the prefix `p`
/// and its definition renamed to that name: a taken name is replaced in
/// place, a new one goes last.
pub open spec fn mount_part<D: Renamable, H>(
    dest: Part<D, H>,
    src: Part<D, H>,
    names: Seq<Seq<char>>,
    p: Option<Seq<char>>,
) -> Part<D, H>
    decreases names.len(),
{
    if names.len() == 0 {
        dest
    } else {
        let n = names[0];
        let k = prefixed(n, p);
        mount_part(put_part(dest, k, src.0[n].renamed(k), src.1[n]), src, names.drop_first(), p)
    }
}

/// The warnings of mounting the components named in `names` with prefix `p`
/// into a registry holding the names `taken`: one for each whose mounted name
/// is taken, in order.
pub open spec fn prior_warnings(kind: Seq<char>, taken: Set<Seq<char>>, names: Seq<Seq<char>>, p: Option<Seq<char>>) -> Seq<
    Seq<char>,
>
    decreases names.len(),
{
    if names.len() == 0 {
        Seq::empty()
    } else {
        let k = prefixed(names[0], p);
        (if taken.contains(k) { seq![overwrite_warning(kind, k)] } else { Seq::empty() }) + prior_warnings(
            kind,
            taken,
            names.drop_first(),
            p,
        )
    }
}

/// Mounting entries, read through `def_of` and `handler_of`, is mounting
/// the part they come from with renamed definitions.
proof fn lemma_mount_part<V, D: Renamable, H>(
    m: Map<Seq<char>, V>,
    o: Seq<Seq<char>>,
    es: Seq<(String, V)>,
    src: Part<D, H>,
    names: Seq<Seq<char>>,
    p: Option<Seq<char>>,
    def_of: spec_fn(V) -> D,
    handler_of: spec_fn(V) -> H,
)
    requires
        names.len() == es.len(),
        forall|i: int| 0 <= i < es.len() ==> names[i] == (#[trigger] es[i]).0@ && def_of(es[i].1) == src.0[names[i]].renamed(
            prefixed(names[i], p),
        ) && handler_of(es[i].1) == src.1[names[i]],
    ensures
        mount_part((m.map_values(def_of), m.map_values(handler_of), o), src, names, p) == (
            mount_map(m, es, p).map_values(def_of),
            mount_map(m, es, p).map_values(handler_of),
            mount_order(o, m, es, p),
        ),
    decreases es.len(),
{
    if es.len() > 0 {
        let k = prefixed(names[0], p);
        let v = es[0].1;
        let m2 = m.insert(k, v);
        let o2 = if m.dom().contains(k) { o } else { o.push(k) };
        assert(m2.map_values(def_of) =~= m.map_values(def_of).insert(k, src.0[names[0]].renamed(k)));
        assert(m2.map_values(handler_of) =~= m.map_values(handler_of).insert(k, src.1[names[0]]));
        assert(m.map_values(def_of).dom() =~= m.dom());
        let rest = es.drop_first();
        let rnames = names.drop_first();
        assert forall|i: int| 0 <= i < rest.len() implies rnames[i] == (#[trigger] rest[i]).0@ && def_of(rest[i].1)
            == src.0[rnames[i]].renamed(prefixed(rnames[i], p)) && handler_of(rest[i].1) == src.1[rnames[i]] by {
            assert(rest[i] == es[i + 1]);
        }
        lemma_mount_part(m2, o2, rest, src, rnames, p, def_of, handler_of);
    }
}

/// The warnings for prior names are those of the names alone.
proof fn lemma_prior_warnings<H>(
    kind: Seq<char>,
    m: Map<Seq<char>, H>,
    es: Seq<(String, H)>,
    names: Seq<Seq<char>>,
    p: Option<Seq<char>>,
)
    requires
        names.len() == es.len(),
        forall|i: int| 0 <= i < es.len() ==> names[i] == (#[trigger] es[i]).0@,
    ensures
        prior_name_warnings(kind, m, es, p) == prior_warnings(kind, m.dom(), names, p),
    decreases es.len(),
{
    if es.len() > 0 {
        let rest = es.drop_first();
        let rnames = names.drop_first();
        assert forall|i: int| 0 <= i < rest.len() implies rnames[i] == (#[trigger] rest[i]).0@ by {
            assert(rest[i] == es[i + 1]);
        }
        lemma_prior_warnings(kind, m, rest, rnames, p);
    }
}

/// A property of names and entries that holds of every entry of a registry
/// and of every mounted entry under its mounted name holds of every entry
/// after the mount.
proof fn lemma_mount_keeps<V>(
    m: Map<Seq<char>, V>,
    es: Seq<(String, V)>,
    p: Option<Seq<char>>,
    ok: spec_fn(Seq<char>, V) -> bool,
)
    requires
        crate::store::keys_unique(es),
        forall|k: Seq<char>| #[trigger] m.dom().contains(k) ==> ok(k, m[k]),
        forall|i: int| 0 <= i < es.len() ==> ok(prefixed((#[trigger] es[i]).0@, p), es[i].1),
    ensures
        forall|k: Seq<char>| #[trigger] mount_map(m, es, p).dom().contains(k) ==> ok(k, mount_map(m, es, p)[k]),
{
    law_mount_places_every_entry(m, es, p);
    assert forall|k: Seq<char>| #[trigger] mount_map(m, es, p).dom().contains(k) implies ok(
        k,
        mount_map(m, es, p)[k],
    ) by {
        if exists|i: int| 0 <= i < es.len() && #[trigger] prefixed(es[i].0@, p) == k {
            let i = choose|i: int| 0 <= i < es.len() && #[trigger] prefixed(es[i].0@, p) == k;
            assert(ok(prefixed(es[i].0@, p), es[i].1));
        } else {
            assert(forall|i: int| 0 <= i < es.len() ==> #[trigger] prefixed(es[i].0@, p) != k);
        }
    }
}

} // verus!

verus! {

/// The tools of `source` with each definition renamed to its key with the
/// prefix applied; keys, order and handlers stay.
fn rename_tools<T>(source: StrMap<(Tool, T)>, prefix: Option<&str>) -> (out: StrMap<(Tool, T)>)
    ensures
        key_texts(out.entries()) == key_texts(source.entries()),
        out@.dom() == source@.dom(),
        forall|k: Seq<char>| #[trigger] out@.dom().contains(k) ==> out@[k].0@ == source@[k].0@.renamed(
            prefixed(k, opt_prefix(prefix)),
        ) && out@[k].1 == source@[k].1,
{
    let ghost es0 = source.entries();
    let ghost m0 = source@;
    let ghost p = opt_prefix(prefix);
    let _ = source.len();
    let mut es = source.into_entries();
    let mut out: StrMap<(Tool, T)> = StrMap::new();
    let mut count: usize = 0;
    assert(es0.skip(0) =~= es0);
    assert(key_texts(es0.take(0)) =~= key_texts(out.entries()));
    assert(key_texts(es0.take(0)) =~= Seq::<Seq<char>>::empty());
    while es.len() > 0
        invariant
            keys_unique(es0),
            m0 == crate::store::entries_map(es0),
            p == opt_prefix(prefix),
            count <= es0.len(),
            es@ == es0.skip(count as int),
            key_texts(out.entries()) == key_texts(es0.take(count as int)),
            es0.len() <= usize::MAX,
            forall|k: Seq<char>| #[trigger] out@.dom().contains(k) <==> key_texts(es0.take(count as int)).contains(k),
            forall|k: Seq<char>| #[trigger] out@.dom().contains(k) ==> out@[k].0@ == m0[k].0@.renamed(prefixed(k, p))
                && out@[k].1 == m0[k].1,
        decreases es@.len(),
    {
        let ghost before = es@;
        let ghost kt = es0[count as int].0@;
        proof {
            lemma_entry_in_map(es0, count as int);
            if key_texts(es0.take(count as int)).contains(kt) {
                let j = choose|j: int| 0 <= j < count && key_texts(es0.take(count as int))[j] == kt;
                assert(es0[j].0@ == es0[count as int].0@);
            }
        }
        let (name, (mut def, handler)) = es.remove(0);
        assert(es@ =~= before.drop_first());
        assert(es0.skip(count + 1) =~= es0.skip(count as int).drop_first());
        let mounted = apply_prefix(name.as_str(), prefix);
        def.name = mounted;
        assert(name@ == kt);
        let ghost old_dom = out@.dom();
        assert(forall|k: Seq<char>| old_dom.contains(k) <==> key_texts(es0.take(count as int)).contains(k));
        out.insert(name, (def, handler));
        assert(out@.dom() =~= old_dom.insert(kt));
        proof {
            let s1 = key_texts(es0.take(count as int));
            let s2 = key_texts(es0.take(count + 1));
            assert(s2 =~= s1.push(kt));
            assert(s2[count as int] == kt);
            assert forall|k: Seq<char>| #[trigger] out@.dom().contains(k) <==> s2.contains(k) by {
                if s1.contains(k) {
                    let j = choose|j: int| 0 <= j < s1.len() && s1[j] == k;
                    assert(s2[j] == k);
                }
                if s2.contains(k) {
                    let j = choose|j: int| 0 <= j < s2.len() && s2[j] == k;
                    if j < count {
                        assert(s1[j] == k);
                    }
                }
            }
        }
        count += 1;
    }
    assert(es0.take(count as int) =~= es0);
    proof {
        crate::store::lemma_map_len(es0);
        assert(out@.dom() =~= source@.dom());
    }
    out
}

impl<T, R, P> Router<T, R, P> {
    /// Mounts the tools of `source` into this router, in the source's order,
    /// each under its name with `prefix` applied and its definition renamed
    /// to match; returns the number mounted and a warning for each name that
    /// was taken.
    fn mount_tools_from(&mut self, source: StrMap<(Tool, T)>, prefix: Option<&str>) -> (r: (usize, Vec<String>))
        ensures
            final(self).tool_part() == mount_part(
                old(self).tool_part(),
                (
                    source@.map_values(|e: (Tool, T)| e.0@),
                    source@.map_values(|e: (Tool, T)| e.1),
                    key_texts(source.entries()),
                ),
                key_texts(source.entries()),
                opt_prefix(prefix),
            ),
            texts(r.1@) == prior_warnings(
                "Tool"@,
                old(self).tool_part().0.dom(),
                key_texts(source.entries()),
                opt_prefix(prefix),
            ),
            r.0 == source.entries().len(),
            final(self).resource_part() == old(self).resource_part(),
            final(self).prompt_part() == old(self).prompt_part(),
            final(self).template_part() == old(self).template_part(),
            final(self).settings() == old(self).settings(),
    {
        proof {
            use_type_invariant(&*self);
        }
        let ghost p = opt_prefix(prefix);
        let ghost def_of = |e: (Tool, T)| e.0@;
        let ghost handler_of = |e: (Tool, T)| e.1;
        let ghost src = (source@.map_values(def_of), source@.map_values(handler_of), key_texts(source.entries()));
        let ghost names = key_texts(source.entries());
        let _ = source.len();
        let renamed = rename_tools(source, prefix);
        let _ = renamed.len();
        let ghost es = renamed.entries();
        let mut dest: StrMap<(Tool, T)> = StrMap::new();
        std::mem::swap(&mut dest, &mut self.tools);
        let ghost m0 = dest@;
        let ghost o0 = key_texts(dest.entries());
        let (count, warnings) = mount_entries(&mut dest, renamed, prefix, "Tool");
        proof {
            assert forall|i: int| 0 <= i < es.len() implies names[i] == (#[trigger] es[i]).0@ && def_of(es[i].1)
                == src.0[names[i]].renamed(prefixed(names[i], p)) && handler_of(es[i].1) == src.1[names[i]] by {
                lemma_entry_in_map(es, i);
                assert(key_texts(es)[i] == es[i].0@);
            }
            lemma_mount_part(m0, o0, es, src, names, p, def_of, handler_of);
            law_mount_warns_on_prior_names("Tool"@, m0, es, p);
            lemma_prior_warnings("Tool"@, m0, es, names, p);
            let ok = |k: Seq<char>, e: (Tool, T)| e.0.name@ == k;
            assert forall|i: int| 0 <= i < es.len() implies ok(prefixed((#[trigger] es[i]).0@, p), es[i].1) by {
                lemma_entry_in_map(es, i);
            }
            lemma_mount_keeps(m0, es, p, ok);
        }
        self.tools = dest;
        proof {
            assert(self.tool_part().0 =~= self.tools@.map_values(def_of));
            assert(self.tool_part().1 =~= self.tools@.map_values(handler_of));
            assert(old(self).tool_part().0 =~= m0.map_values(def_of));
            assert(old(self).tool_part().1 =~= m0.map_values(handler_of));
            assert(old(self).tool_part().0.dom() =~= m0.dom());
        }
        (count, warnings)
    }
}

/// The resources of `source` with each definition renamed to its key with the
/// prefix applied; keys, order and handlers stay.
fn rename_resources<R>(source: StrMap<(Resource, R)>, prefix: Option<&str>) -> (out: StrMap<(Resource, R)>)
    ensures
        key_texts(out.entries()) == key_texts(source.entries()),
        out@.dom() == source@.dom(),
        forall|k: Seq<char>| #[trigger] out@.dom().contains(k) ==> out@[k].0@ == source@[k].0@.renamed(
            prefixed(k, opt_prefix(prefix)),
        ) && out@[k].1 == source@[k].1,
{
    let ghost es0 = source.entries();
    let ghost m0 = source@;
    let ghost p = opt_prefix(prefix);
    let _ = source.len();
    let mut es = source.into_entries();
    let mut out: StrMap<(Resource, R)> = StrMap::new();
    let mut count: usize = 0;
    assert(es0.skip(0) =~= es0);
    assert(key_texts(es0.take(0)) =~= key_texts(out.entries()));
    assert(key_texts(es0.take(0)) =~= Seq::<Seq<char>>::empty());
    while es.len() > 0
        invariant
            keys_unique(es0),
            m0 == crate::store::entries_map(es0),
            p == opt_prefix(prefix),
            count <= es0.len(),
            es@ == es0.skip(count as int),
            key_texts(out.entries()) == key_texts(es0.take(count as int)),
            es0.len() <= usize::MAX,
            forall|k: Seq<char>| #[trigger] out@.dom().contains(k) <==> key_texts(es0.take(count as int)).contains(k),
            forall|k: Seq<char>| #[trigger] out@.dom().contains(k) ==> out@[k].0@ == m0[k].0@.renamed(prefixed(k, p))
                && out@[k].1 == m0[k].1,
        decreases es@.len(),
    {
        let ghost before = es@;
        let ghost kt = es0[count as int].0@;
        proof {
            lemma_entry_in_map(es0, count as int);
            if key_texts(es0.take(count as int)).contains(kt) {
                let j = choose|j: int| 0 <= j < count && key_texts(es0.take(count as int))[j] == kt;
                assert(es0[j].0@ == es0[count as int].0@);
            }
        }
        let (name, (mut def, handler)) = es.remove(0);
        assert(es@ =~= before.drop_first());
        assert(es0.skip(count + 1) =~= es0.skip(count as int).drop_first());
        let mounted = apply_prefix(name.as_str(), prefix);
        def.uri = mounted;
        assert(name@ == kt);
        let ghost old_dom = out@.dom();
        assert(forall|k: Seq<char>| old_dom.contains(k) <==> key_texts(es0.take(count as int)).contains(k));
        out.insert(name, (def, handler));
        assert(out@.dom() =~= old_dom.insert(kt));
        proof {
            let s1 = key_texts(es0.take(count as int));
            let s2 = key_texts(es0.take(count + 1));
            assert(s2 =~= s1.push(kt));
            assert(s2[count as int] == kt);
            assert forall|k: Seq<char>| #[trigger] out@.dom().contains(k) <==> s2.contains(k) by {
                if s1.contains(k) {
                    let j = choose|j: int| 0 <= j < s1.len() && s1[j] == k;
                    assert(s2[j] == k);
                }
                if s2.contains(k) {
                    let j = choose|j: int| 0 <= j < s2.len() && s2[j] == k;
                    if j < count {
                        assert(s1[j] == k);
                    }
                }
            }
        }
        count += 1;
    }
    assert(es0.take(count as int) =~= es0);
    proof {
        crate::store::lemma_map_len(es0);
        assert(out@.dom() =~= source@.dom());
    }
    out
}

impl<T, R, P> Router<T, R, P> {
    /// Mounts the resources of `source` into this router, in the source's order,
    /// each under its name with `prefix` applied and its definition renamed
    /// to match; returns the number mounted and a warning for each name that
    /// was taken.
    fn mount_resources_from(&mut self, source: StrMap<(Resource, R)>, prefix: Option<&str>) -> (r: (usize, Vec<String>))
        ensures
            final(self).resource_part() == mount_part(
                old(self).resource_part(),
                (
                    source@.map_values(|e: (Resource, R)| e.0@),
                    source@.map_values(|e: (Resource, R)| e.1),
                    key_texts(source.entries()),
                ),
                key_texts(source.entries()),
                opt_prefix(prefix),
            ),
            texts(r.1@) == prior_warnings(
                "Resource"@,
                old(self).resource_part().0.dom(),
                key_texts(source.entries()),
                opt_prefix(prefix),
            ),
            r.0 == source.entries().len(),
            final(self).tool_part() == old(self).tool_part(),
            final(self).prompt_part() == old(self).prompt_part(),
            final(self).template_part() == old(self).template_part(),
            final(self).settings() == old(self).settings(),
    {
        proof {
            use_type_invariant(&*self);
        }
        let ghost p = opt_prefix(prefix);
        let ghost def_of = |e: (Resource, R)| e.0@;
        let ghost handler_of = |e: (Resource, R)| e.1;
        let ghost src = (source@.map_values(def_of), source@.map_values(handler_of), key_texts(source.entries()));
        let ghost names = key_texts(source.entries());
        let _ = source.len();
        let renamed = rename_resources(source, prefix);
        let _ = renamed.len();
        let ghost es = renamed.entries();
        let mut dest: StrMap<(Resource, R)> = StrMap::new();
        std::mem::swap(&mut dest, &mut self.resources);
        let ghost m0 = dest@;
        let ghost o0 = key_texts(dest.entries());
        let (count, warnings) = mount_entries(&mut dest, renamed, prefix, "Resource");
        proof {
            assert forall|i: int| 0 <= i < es.len() implies names[i] == (#[trigger] es[i]).0@ && def_of(es[i].1)
                == src.0[names[i]].renamed(prefixed(names[i], p)) && handler_of(es[i].1) == src.1[names[i]] by {
                lemma_entry_in_map(es, i);
                assert(key_texts(es)[i] == es[i].0@);
            }
            lemma_mount_part(m0, o0, es, src, names, p, def_of, handler_of);
            law_mount_warns_on_prior_names("Resource"@, m0, es, p);
            lemma_prior_warnings("Resource"@, m0, es, names, p);
            let ok = |k: Seq<char>, e: (Resource, R)| e.0.uri@ == k;
            assert forall|i: int| 0 <= i < es.len() implies ok(prefixed((#[trigger] es[i]).0@, p), es[i].1) by {
                lemma_entry_in_map(es, i);
            }
            lemma_mount_keeps(m0, es, p, ok);
        }
        self.resources = dest;
        proof {
            assert(self.resource_part().0 =~= self.resources@.map_values(def_of));
            assert(self.resource_part().1 =~= self.resources@.map_values(handler_of));
            assert(old(self).resource_part().0 =~= m0.map_values(def_of));
            assert(old(self).resource_part().1 =~= m0.map_values(handler_of));
            assert(old(self).resource_part().0.dom() =~= m0.dom());
        }
        (count, warnings)
    }
}

/// The prompts of `source` with each definition renamed to its key with the
/// prefix applied; keys, order and handlers stay.
fn rename_prompts<P>(source: StrMap<(Prompt, P)>, prefix: Option<&str>) -> (out: StrMap<(Prompt, P)>)
    ensures
        key_texts(out.entries()) == key_texts(source.entries()),
        out@.dom() == source@.dom(),
        forall|k: Seq<char>| #[trigger] out@.dom().contains(k) ==> out@[k].0@ == source@[k].0@.renamed(
            prefixed(k, opt_prefix(prefix)),
        ) && out@[k].1 == source@[k].1,
{
    let ghost es0 = source.entries();
    let ghost m0 = source@;
    let ghost p = opt_prefix(prefix);
    let _ = source.len();
    let mut es = source.into_entries();
    let mut out: StrMap<(Prompt, P)> = StrMap::new();
    let mut count: usize = 0;
    assert(es0.skip(0) =~= es0);
    assert(key_texts(es0.take(0)) =~= key_texts(out.entries()));
    assert(key_texts(es0.take(0)) =~= Seq::<Seq<char>>::empty());
    while es.len() > 0
        invariant
            keys_unique(es0),
            m0 == crate::store::entries_map(es0),
            p == opt_prefix(prefix),
            count <= es0.len(),
            es@ == es0.skip(count as int),
            key_texts(out.entries()) == key_texts(es0.take(count as int)),
            es0.len() <= usize::MAX,
            forall|k: Seq<char>| #[trigger] out@.dom().contains(k) <==> key_texts(es0.take(count as int)).contains(k),
            forall|k: Seq<char>| #[trigger] out@.dom().contains(k) ==> out@[k].0@ == m0[k].0@.renamed(prefixed(k, p))
                && out@[k].1 == m0[k].1,
        decreases es@.len(),
    {
        let ghost before = es@;
        let ghost kt = es0[count as int].0@;
        proof {
            lemma_entry_in_map(es0, count as int);
            if key_texts(es0.take(count as int)).contains(kt) {
                let j = choose|j: int| 0 <= j < count && key_texts(es0.take(count as int))[j] == kt;
                assert(es0[j].0@ == es0[count as int].0@);
            }
        }
        let (name, (mut def, handler)) = es.remove(0);
        assert(es@ =~= before.drop_first());
        assert(es0.skip(count + 1) =~= es0.skip(count as int).drop_first());
        let mounted = apply_prefix(name.as_str(), prefix);
        def.name = mounted;
        assert(name@ == kt);
        let ghost old_dom = out@.dom();
        assert(forall|k: Seq<char>| old_dom.contains(k) <==> key_texts(es0.take(count as int)).contains(k));
        out.insert(name, (def, handler));
        assert(out@.dom() =~= old_dom.insert(kt));
        proof {
            let s1 = key_texts(es0.take(count as int));
            let s2 = key_texts(es0.take(count + 1));
            assert(s2 =~= s1.push(kt));
            assert(s2[count as int] == kt);
            assert forall|k: Seq<char>| #[trigger] out@.dom().contains(k) <==> s2.contains(k) by {
                if s1.contains(k) {
                    let j = choose|j: int| 0 <= j < s1.len() && s1[j] == k;
                    assert(s2[j] == k);
                }
                if s2.contains(k) {
                    let j = choose|j: int| 0 <= j < s2.len() && s2[j] == k;
                    if j < count {
                        assert(s1[j] == k);
                    }
                }
            }
        }
        count += 1;
    }
    assert(es0.take(count as int) =~= es0);
    proof {
        crate::store::lemma_map_len(es0);
        assert(out@.dom() =~= source@.dom());
    }
    out
}

impl<T, R, P> Router<T, R, P> {
    /// Mounts the prompts of `source` into this router, in the source's order,
    /// each under its name with `prefix` applied and its definition renamed
    /// to match; returns the number mounted and a warning for each name that
    /// was taken.
    fn mount_prompts_from(&mut self, source: StrMap<(Prompt, P)>, prefix: Option<&str>) -> (r: (usize, Vec<String>))
        ensures
            final(self).prompt_part() == mount_part(
                old(self).prompt_part(),
                (
                    source@.map_values(|e: (Prompt, P)| e.0@),
                    source@.map_values(|e: (Prompt, P)| e.1),
                    key_texts(source.entries()),
                ),
                key_texts(source.entries()),
                opt_prefix(prefix),
            ),
            texts(r.1@) == prior_warnings(
                "Prompt"@,
                old(self).prompt_part().0.dom(),
                key_texts(source.entries()),
                opt_prefix(prefix),
            ),
            r.0 == source.entries().len(),
            final(self).resource_part() == old(self).resource_part(),
            final(self).tool_part() == old(self).tool_part(),
            final(self).template_part() == old(self).template_part(),
            final(self).settings() == old(self).settings(),
    {
        proof {
            use_type_invariant(&*self);
        }
        let ghost p = opt_prefix(prefix);
        let ghost def_of = |e: (Prompt, P)| e.0@;
        let ghost handler_of = |e: (Prompt, P)| e.1;
        let ghost src = (source@.map_values(def_of), source@.map_values(handler_of), key_texts(source.entries()));
        let ghost names = key_texts(source.entries());
        let _ = source.len();
        let renamed = rename_prompts(source, prefix);
        let _ = renamed.len();
        let ghost es = renamed.entries();
        let mut dest: StrMap<(Prompt, P)> = StrMap::new();
        std::mem::swap(&mut dest, &mut self.prompts);
        let ghost m0 = dest@;
        let ghost o0 = key_texts(dest.entries());
        let (count, warnings) = mount_entries(&mut dest, renamed, prefix, "Prompt");
        proof {
            assert forall|i: int| 0 <= i < es.len() implies names[i] == (#[trigger] es[i]).0@ && def_of(es[i].1)
                == src.0[names[i]].renamed(prefixed(names[i], p)) && handler_of(es[i].1) == src.1[names[i]] by {
                lemma_entry_in_map(es, i);
                assert(key_texts(es)[i] == es[i].0@);
            }
            lemma_mount_part(m0, o0, es, src, names, p, def_of, handler_of);
            law_mount_warns_on_prior_names("Prompt"@, m0, es, p);
            lemma_prior_warnings("Prompt"@, m0, es, names, p);
            let ok = |k: Seq<char>, e: (Prompt, P)| e.0.name@ == k;
            assert forall|i: int| 0 <= i < es.len() implies ok(prefixed((#[trigger] es[i]).0@, p), es[i].1) by {
                lemma_entry_in_map(es, i);
            }
            lemma_mount_keeps(m0, es, p, ok);
        }
        self.prompts = dest;
        proof {
            assert(self.prompt_part().0 =~= self.prompts@.map_values(def_of));
            assert(self.prompt_part().1 =~= self.prompts@.map_values(handler_of));
            assert(old(self).prompt_part().0 =~= m0.map_values(def_of));
            assert(old(self).prompt_part().1 =~= m0.map_values(handler_of));
            assert(old(self).prompt_part().0.dom() =~= m0.dom());
        }
        (count, warnings)
    }
}

/// The resource templates of `source` with each definition renamed to its key with the
/// prefix applied and its matcher parsed from that; keys, order and
/// handlers stay.
fn rename_templates<R>(source: StrMap<TemplateEntry<R>>, prefix: Option<&str>) -> (out: StrMap<TemplateEntry<R>>)
    ensures
        key_texts(out.entries()) == key_texts(source.entries()),
        out@.dom() == source@.dom(),
        forall|k: Seq<char>| #[trigger] out@.dom().contains(k) ==> out@[k].template@ == source@[k].template@.renamed(
            prefixed(k, opt_prefix(prefix)),
        ) && out@[k].handler == source@[k].handler && out@[k].matcher.segs() == template_segments(
            prefixed(k, opt_prefix(prefix)),
        ),
{
    let ghost es0 = source.entries();
    let ghost m0 = source@;
    let ghost p = opt_prefix(prefix);
    let _ = source.len();
    let mut es = source.into_entries();
    let mut out: StrMap<TemplateEntry<R>> = StrMap::new();
    let mut count: usize = 0;
    assert(es0.skip(0) =~= es0);
    assert(key_texts(es0.take(0)) =~= key_texts(out.entries()));
    assert(key_texts(es0.take(0)) =~= Seq::<Seq<char>>::empty());
    while es.len() > 0
        invariant
            keys_unique(es0),
            m0 == crate::store::entries_map(es0),
            p == opt_prefix(prefix),
            count <= es0.len(),
            es@ == es0.skip(count as int),
            key_texts(out.entries()) == key_texts(es0.take(count as int)),
            es0.len() <= usize::MAX,
            forall|k: Seq<char>| #[trigger] out@.dom().contains(k) <==> key_texts(es0.take(count as int)).contains(k),
            forall|k: Seq<char>| #[trigger] out@.dom().contains(k) ==> out@[k].template@ == m0[k].template@.renamed(
                prefixed(k, p),
            ) && out@[k].handler == m0[k].handler && out@[k].matcher.segs() == template_segments(prefixed(k, p)),
        decreases es@.len(),
    {
        let ghost before = es@;
        let ghost kt = es0[count as int].0@;
        proof {
            lemma_entry_in_map(es0, count as int);
            if key_texts(es0.take(count as int)).contains(kt) {
                let j = choose|j: int| 0 <= j < count && key_texts(es0.take(count as int))[j] == kt;
                assert(es0[j].0@ == es0[count as int].0@);
            }
        }
        let (name, entry) = es.remove(0);
        assert(es@ =~= before.drop_first());
        assert(es0.skip(count + 1) =~= es0.skip(count as int).drop_first());
        let mounted = apply_prefix(name.as_str(), prefix);
        let TemplateEntry { matcher: _, template: mut def, handler } = entry;
        let matcher = UriTemplate::new(mounted.as_str());
        def.uri_template = mounted;
        assert(name@ == kt);
        let ghost old_dom = out@.dom();
        assert(forall|k: Seq<char>| old_dom.contains(k) <==> key_texts(es0.take(count as int)).contains(k));
        out.insert(name, TemplateEntry { matcher, template: def, handler });
        assert(out@.dom() =~= old_dom.insert(kt));
        proof {
            let s1 = key_texts(es0.take(count as int));
            let s2 = key_texts(es0.take(count + 1));
            assert(s2 =~= s1.push(kt));
            assert(s2[count as int] == kt);
            assert forall|k: Seq<char>| #[trigger] out@.dom().contains(k) <==> s2.contains(k) by {
                if s1.contains(k) {
                    let j = choose|j: int| 0 <= j < s1.len() && s1[j] == k;
                    assert(s2[j] == k);
                }
                if s2.contains(k) {
                    let j = choose|j: int| 0 <= j < s2.len() && s2[j] == k;
                    if j < count {
                        assert(s1[j] == k);
                    }
                }
            }
        }
        count += 1;
    }
    assert(es0.take(count as int) =~= es0);
    proof {
        crate::store::lemma_map_len(es0);
        assert(out@.dom() =~= source@.dom());
    }
    out
}

impl<T, R, P> Router<T, R, P> {
    /// Mounts the resource templates of `source` into this router, in the source's order,
    /// each under its name with `prefix` applied and its definition renamed
    /// to match; returns the number mounted and a warning for each name that
    /// was taken.
    fn mount_templates_from(&mut self, source: StrMap<TemplateEntry<R>>, prefix: Option<&str>) -> (r: (usize, Vec<String>))
        ensures
            final(self).template_part() == mount_part(
                old(self).template_part(),
                (
                    source@.map_values(|e: TemplateEntry<R>| e.template@),
                    source@.map_values(|e: TemplateEntry<R>| e.handler),
                    key_texts(source.entries()),
                ),
                key_texts(source.entries()),
                opt_prefix(prefix),
            ),
            texts(r.1@) == prior_warnings(
                "Resource template"@,
                old(self).template_part().0.dom(),
                key_texts(source.entries()),
                opt_prefix(prefix),
            ),
            r.0 == source.entries().len(),
            final(self).resource_part() == old(self).resource_part(),
            final(self).prompt_part() == old(self).prompt_part(),
            final(self).tool_part() == old(self).tool_part(),
            final(self).settings() == old(self).settings(),
    {
        proof {
            use_type_invariant(&*self);
        }
        let ghost p = opt_prefix(prefix);
        let ghost def_of = |e: TemplateEntry<R>| e.template@;
        let ghost handler_of = |e: TemplateEntry<R>| e.handler;
        let ghost src = (source@.map_values(def_of), source@.map_values(handler_of), key_texts(source.entries()));
        let ghost names = key_texts(source.entries());
        let _ = source.len();
        let renamed = rename_templates(source, prefix);
        let _ = renamed.len();
        let ghost es = renamed.entries();
        let mut dest: StrMap<TemplateEntry<R>> = StrMap::new();
        std::mem::swap(&mut dest, &mut self.resource_templates);
        let ghost m0 = dest@;
        let ghost o0 = key_texts(dest.entries());
        let (count, warnings) = mount_entries(&mut dest, renamed, prefix, "Resource template");
        proof {
            assert forall|i: int| 0 <= i < es.len() implies names[i] == (#[trigger] es[i]).0@ && def_of(es[i].1)
                == src.0[names[i]].renamed(prefixed(names[i], p)) && handler_of(es[i].1) == src.1[names[i]] by {
                lemma_entry_in_map(es, i);
                assert(key_texts(es)[i] == es[i].0@);
            }
            lemma_mount_part(m0, o0, es, src, names, p, def_of, handler_of);
            law_mount_warns_on_prior_names("Resource template"@, m0, es, p);
            lemma_prior_warnings("Resource template"@, m0, es, names, p);
            let ok = |k: Seq<char>, e: TemplateEntry<R>| e.template.uri_template@ == k && e.matcher.segs() == template_segments(k);
            assert forall|i: int| 0 <= i < es.len() implies ok(prefixed((#[trigger] es[i]).0@, p), es[i].1) by {
                lemma_entry_in_map(es, i);
            }
            lemma_mount_keeps(m0, es, p, ok);
        }
        self.resource_templates = dest;
        proof {
            assert(self.template_part().0 =~= self.resource_templates@.map_values(def_of));
            assert(self.template_part().1 =~= self.resource_templates@.map_values(handler_of));
            assert(old(self).template_part().0 =~= m0.map_values(def_of));
            assert(old(self).template_part().1 =~= m0.map_values(handler_of));
            assert(old(self).template_part().0.dom() =~= m0.dom());
        }
        (count, warnings)
    }
}

} // verus!

verus! {

/// The warning about an invalid prefix, if there is one.
pub open spec fn prefix_warnings(prefix: Option<Seq<char>>) -> Seq<Seq<char>> {
    match prefix {
        Some(p) => match prefix_problem(p) {
            Some(msg) => seq![msg],
            None => Seq::empty(),
        },
        None => Seq::empty(),
    }
}

impl<T, R, P> Router<T, R, P> {
    /// Mounts every component of `other` into this router, each kind in
    /// `other`'s order, under its name (or URI, or URI template) with
    /// `prefix/` in front where the prefix is not empty.  A taken name is
    /// replaced in place with a warning; a new one goes last.  An invalid
    /// prefix is warned about first, and used all the same.
    pub fn mount(&mut self, other: Router<T, R, P>, prefix: Option<&str>) -> (r: MountResult)
        ensures
            final(self).tool_part() == mount_part(
                old(self).tool_part(),
                other.tool_part(),
                other.tool_part().2,
                opt_prefix(prefix),
            ),
            final(self).resource_part() == mount_part(
                old(self).resource_part(),
                other.resource_part(),
                other.resource_part().2,
                opt_prefix(prefix),
            ),
            final(self).template_part() == mount_part(
                old(self).template_part(),
                other.template_part(),
                other.template_part().2,
                opt_prefix(prefix),
            ),
            final(self).prompt_part() == mount_part(
                old(self).prompt_part(),
                other.prompt_part(),
                other.prompt_part().2,
                opt_prefix(prefix),
            ),
            final(self).settings() == old(self).settings(),
            r.tools == other.tool_part().2.len(),
            r.resources == other.resource_part().2.len(),
            r.resource_templates == other.template_part().2.len(),
            r.prompts == other.prompt_part().2.len(),
            texts(r.warnings@) == prefix_warnings(opt_prefix(prefix)) + prior_warnings(
                "Tool"@,
                old(self).tool_part().0.dom(),
                other.tool_part().2,
                opt_prefix(prefix),
            ) + prior_warnings(
                "Resource"@,
                old(self).resource_part().0.dom(),
                other.resource_part().2,
                opt_prefix(prefix),
            ) + prior_warnings(
                "Resource template"@,
                old(self).template_part().0.dom(),
                other.template_part().2,
                opt_prefix(prefix),
            ) + prior_warnings("Prompt"@, old(self).prompt_part().0.dom(), other.prompt_part().2, opt_prefix(prefix)),
    {
        let ghost tp = other.tool_part();
        let ghost rp = other.resource_part();
        let ghost mp = other.template_part();
        let ghost pp = other.prompt_part();
        let Router { tools, resources, prompts, resource_templates, .. } = other;
        assert(tp.0 =~= tools@.map_values(|e: (Tool, T)| e.0@));
        assert(tp.1 =~= tools@.map_values(|e: (Tool, T)| e.1));
        assert(rp.0 =~= resources@.map_values(|e: (Resource, R)| e.0@));
        assert(rp.1 =~= resources@.map_values(|e: (Resource, R)| e.1));
        assert(mp.0 =~= resource_templates@.map_values(|e: TemplateEntry<R>| e.template@));
        assert(mp.1 =~= resource_templates@.map_values(|e: TemplateEntry<R>| e.handler));
        assert(pp.0 =~= prompts@.map_values(|e: (Prompt, P)| e.0@));
        assert(pp.1 =~= prompts@.map_values(|e: (Prompt, P)| e.1));
        let mut warnings: Vec<String> = Vec::new();
        if let Some(p) = prefix {
            if let Err(e) = validate_prefix(p) {
                warnings.push(e);
            }
        }
        assert(texts(warnings@) =~= prefix_warnings(opt_prefix(prefix)));
        let ghost w0 = texts(warnings@);
        let (nt, mut wt) = self.mount_tools_from(tools, prefix);
        let ghost w1 = texts(wt@);
        warnings.append(&mut wt);
        assert(texts(warnings@) =~= w0 + w1);
        let ghost w01 = texts(warnings@);
        let (nr, mut wr) = self.mount_resources_from(resources, prefix);
        let ghost w2 = texts(wr@);
        warnings.append(&mut wr);
        assert(texts(warnings@) =~= w01 + w2);
        let ghost w012 = texts(warnings@);
        let (nm, mut wm) = self.mount_templates_from(resource_templates, prefix);
        let ghost w3 = texts(wm@);
        warnings.append(&mut wm);
        assert(texts(warnings@) =~= w012 + w3);
        let ghost w0123 = texts(warnings@);
        let (np, mut wp) = self.mount_prompts_from(prompts, prefix);
        let ghost w4 = texts(wp@);
        warnings.append(&mut wp);
        assert(texts(warnings@) =~= w0123 + w4);
        MountResult { tools: nt, resources: nr, resource_templates: nm, prompts: np, warnings }
    }

    /// Mounts only the tools of `other`, as [`Self::mount`] does.
    pub fn mount_tools(&mut self, other: Router<T, R, P>, prefix: Option<&str>) -> (r: MountResult)
        ensures
            final(self).tool_part() == mount_part(
                old(self).tool_part(),
                other.tool_part(),
                other.tool_part().2,
                opt_prefix(prefix),
            ),
            final(self).resource_part() == old(self).resource_part(),
            final(self).template_part() == old(self).template_part(),
            final(self).prompt_part() == old(self).prompt_part(),
            final(self).settings() == old(self).settings(),
            r.tools == other.tool_part().2.len(),
            r.resources == 0 && r.resource_templates == 0 && r.prompts == 0,
            texts(r.warnings@) == prior_warnings(
                "Tool"@,
                old(self).tool_part().0.dom(),
                other.tool_part().2,
                opt_prefix(prefix),
            ),
    {
        let ghost tp = other.tool_part();
        let Router { tools, .. } = other;
        assert(tp.0 =~= tools@.map_values(|e: (Tool, T)| e.0@));
        assert(tp.1 =~= tools@.map_values(|e: (Tool, T)| e.1));
        let (nt, warnings) = self.mount_tools_from(tools, prefix);
        MountResult { tools: nt, resources: 0, resource_templates: 0, prompts: 0, warnings }
    }

    /// Mounts only the resources and resource templates of `other`, as
    /// [`Self::mount`] does.
    pub fn mount_resources(&mut self, other: Router<T, R, P>, prefix: Option<&str>) -> (r: MountResult)
        ensures
            final(self).resource_part() == mount_part(
                old(self).resource_part(),
                other.resource_part(),
                other.resource_part().2,
                opt_prefix(prefix),
            ),
            final(self).template_part() == mount_part(
                old(self).template_part(),
                other.template_part(),
                other.template_part().2,
                opt_prefix(prefix),
            ),
            final(self).tool_part() == old(self).tool_part(),
            final(self).prompt_part() == old(self).prompt_part(),
            final(self).settings() == old(self).settings(),
            r.resources == other.resource_part().2.len(),
            r.resource_templates == other.template_part().2.len(),
            r.tools == 0 && r.prompts == 0,
            texts(r.warnings@) == prior_warnings(
                "Resource"@,
                old(self).resource_part().0.dom(),
                other.resource_part().2,
                opt_prefix(prefix),
            ) + prior_warnings(
                "Resource template"@,
                old(self).template_part().0.dom(),
                other.template_part().2,
                opt_prefix(prefix),
            ),
    {
        let ghost rp = other.resource_part();
        let ghost mp = other.template_part();
        let Router { resources, resource_templates, .. } = other;
        assert(rp.0 =~= resources@.map_values(|e: (Resource, R)| e.0@));
        assert(rp.1 =~= resources@.map_values(|e: (Resource, R)| e.1));
        assert(mp.0 =~= resource_templates@.map_values(|e: TemplateEntry<R>| e.template@));
        assert(mp.1 =~= resource_templates@.map_values(|e: TemplateEntry<R>| e.handler));
        let (nr, mut warnings) = self.mount_resources_from(resources, prefix);
        let ghost w1 = texts(warnings@);
        let (nm, mut wm) = self.mount_templates_from(resource_templates, prefix);
        let ghost w2 = texts(wm@);
        warnings.append(&mut wm);
        assert(texts(warnings@) =~= w1 + w2);
        MountResult { tools: 0, resources: nr, resource_templates: nm, prompts: 0, warnings }
    }

    /// Mounts only the prompts of `other`, as [`Self::mount`] does.
    pub fn mount_prompts(&mut self, other: Router<T, R, P>, prefix: Option<&str>) -> (r: MountResult)
        ensures
            final(self).prompt_part() == mount_part(
                old(self).prompt_part(),
                other.prompt_part(),
                other.prompt_part().2,
                opt_prefix(prefix),
            ),
            final(self).tool_part() == old(self).tool_part(),
            final(self).resource_part() == old(self).resource_part(),
            final(self).template_part() == old(self).template_part(),
            final(self).settings() == old(self).settings(),
            r.prompts == other.prompt_part().2.len(),
            r.tools == 0 && r.resources == 0 && r.resource_templates == 0,
            texts(r.warnings@) == prior_warnings(
                "Prompt"@,
                old(self).prompt_part().0.dom(),
                other.prompt_part().2,
                opt_prefix(prefix),
            ),
    {
        let ghost pp = other.prompt_part();
        let Router { prompts, .. } = other;
        assert(pp.0 =~= prompts@.map_values(|e: (Prompt, P)| e.0@));
        assert(pp.1 =~= prompts@.map_values(|e: (Prompt, P)| e.1));
        let (np, warnings) = self.mount_prompts_from(prompts, prefix);
        MountResult { tools: 0, resources: 0, resource_templates: 0, prompts: np, warnings }
    }
}

} // verus!

verus! {

impl<T, R, P> Default for Router<T, R, P> {
    /// An empty router.
    fn default() -> (r: Self)
        ensures
            r.tool_part().0.dom().len() == 0 && r.tool_part().2.len() == 0,
            r.resource_part().0.dom().len() == 0 && r.resource_part().2.len() == 0,
            r.prompt_part().0.dom().len() == 0 && r.prompt_part().2.len() == 0,
            r.template_part().0.dom().len() == 0 && r.template_part().2.len() == 0,
            r.settings() == (false, None::<usize>),
    {
        Self::new()
    }
}

/// Without a disabled set or tag filters, the tool listing is every
/// definition, in registration order.
pub proof fn law_tool_listing_in_order(defs: Map<Seq<char>, ToolView>, names: Seq<Seq<char>>)
    ensures
        listed_tools(defs, names, None, None) == names.map_values(|n: Seq<char>| defs[n]),
    decreases names.len(),
{
    if names.len() > 0 {
        law_tool_listing_in_order(defs, names.drop_last());
        assert(names.map_values(|n: Seq<char>| defs[n]) =~= names.drop_last().map_values(|n: Seq<char>| defs[n])
            + seq![defs[names.last()]]);
    }
}

/// Without a disabled set or tag filters, the listing of resources,
/// resource templates or prompts is every definition, in registration order.
pub proof fn law_listing_in_order(defs: Map<Seq<char>, DefView>, names: Seq<Seq<char>>)
    ensures
        listed_defs(defs, names, None, None) == names.map_values(|n: Seq<char>| defs[n]),
    decreases names.len(),
{
    if names.len() > 0 {
        law_listing_in_order(defs, names.drop_last());
        assert(names.map_values(|n: Seq<char>| defs[n]) =~= names.drop_last().map_values(|n: Seq<char>| defs[n])
            + seq![defs[names.last()]]);
    }
}

/// Whether `after` holds the component `n` of `src` under its name with the
/// prefix `p`, its definition renamed to that name.
pub open spec fn holds_mounted<D: Renamable, H>(after: Part<D, H>, src: Part<D, H>, n: Seq<char>, p: Option<Seq<char>>) -> bool {
    let k = prefixed(n, p);
    &&& after.0.dom().contains(k) && after.1.dom().contains(k)
    &&& after.0[k] == src.0[n].renamed(k)
    &&& after.1[k] == src.1[n]
}

/// Whether `after` holds under `k` what `before` held, or nothing where it
/// held nothing.
pub open spec fn keeps_name<D, H>(before: Part<D, H>, after: Part<D, H>, k: Seq<char>) -> bool {
    &&& after.0.dom().contains(k) == before.0.dom().contains(k)
    &&& after.1.dom().contains(k) == before.1.dom().contains(k)
    &&& before.0.dom().contains(k) ==> after.0[k] == before.0[k]
    &&& before.1.dom().contains(k) ==> after.1[k] == before.1[k]
}

/// After a mount of components with distinct names, each is found under its
/// prefixed name with its handler and its definition renamed to that name,
/// and every other name keeps what it held.
pub proof fn law_mount_part_places<D: Renamable, H>(
    dest: Part<D, H>,
    src: Part<D, H>,
    names: Seq<Seq<char>>,
    p: Option<Seq<char>>,
)
    requires
        names.no_duplicates(),
    ensures
        forall|i: int| 0 <= i < names.len() ==> holds_mounted(mount_part(dest, src, names, p), src, #[trigger] names[i], p),
        forall|k: Seq<char>| (forall|i: int| 0 <= i < names.len() ==> #[trigger] prefixed(names[i], p) != k) ==> #[trigger] keeps_name(
            dest,
            mount_part(dest, src, names, p),
            k,
        ),
    decreases names.len(),
{
    if names.len() > 0 {
        let k0 = prefixed(names[0], p);
        let rest = names.drop_first();
        let d2 = put_part(dest, k0, src.0[names[0]].renamed(k0), src.1[names[0]]);
        assert(rest.no_duplicates()) by {
            assert forall|i: int, j: int| 0 <= i < rest.len() && 0 <= j < rest.len() && i != j implies rest[i]
                != rest[j] by {
                assert(rest[i] == names[i + 1] && rest[j] == names[j + 1]);
            }
        }
        law_mount_part_places(d2, src, rest, p);
        let after = mount_part(dest, src, names, p);
        assert(after == mount_part(d2, src, rest, p));
        assert forall|j: int| 0 <= j < rest.len() implies #[trigger] prefixed(rest[j], p) != k0 by {
            assert(rest[j] == names[j + 1]);
            if prefixed(rest[j], p) == k0 {
                lemma_prefixed_injective(rest[j], names[0], p);
            }
        }
        assert(keeps_name(d2, after, k0));
        assert forall|i: int| 0 <= i < names.len() implies holds_mounted(after, src, #[trigger] names[i], p) by {
            if i > 0 {
                assert(rest[i - 1] == names[i]);
            }
        }
        assert forall|k: Seq<char>| (forall|i: int| 0 <= i < names.len() ==> #[trigger] prefixed(names[i], p) != k) implies #[trigger] keeps_name(
            dest,
            after,
            k,
        ) by {
            assert(prefixed(names[0], p) != k);
            assert forall|j: int| 0 <= j < rest.len() implies #[trigger] prefixed(rest[j], p) != k by {
                assert(rest[j] == names[j + 1]);
                assert(prefixed(names[j + 1], p) != k);
            }
            assert(keeps_name(d2, after, k));
        }
    }
}

} // verus!

verus! {

// ============================================================================
// List requests
// ============================================================================

/// The parameters of a list request: the cursor of the wanted page, and the
/// tags to filter by.
#[derive(Debug, Clone, Default)]
pub struct ListParams {
    /// Cursor of the page, from the previous page's `next_cursor`.
    pub cursor: Option<String>,
    /// Only components with all of these tags.
    pub include_tags: Option<Vec<String>>,
    /// No components with any of these tags.
    pub exclude_tags: Option<Vec<String>>,
}

/// The parameters of a `tools/list` request.
pub type ListToolsParams = ListParams;

/// The parameters of a `resources/list` request.
pub type ListResourcesParams = ListParams;

/// The parameters of a `resources/templates/list` request.
pub type ListResourceTemplatesParams = ListParams;

/// The parameters of a `prompts/list` request.
pub type ListPromptsParams = ListParams;

/// The reply to a `tools/list` request.
#[derive(Debug)]
pub struct ListToolsResult {
    /// The tools on this page.
    pub tools: Vec<Tool>,
    /// Cursor of the next page, if items remain.
    pub next_cursor: Option<String>,
}

/// The reply to a `resources/list` request.
#[derive(Debug)]
pub struct ListResourcesResult {
    /// The resources on this page.
    pub resources: Vec<Resource>,
    /// Cursor of the next page, if items remain.
    pub next_cursor: Option<String>,
}

/// The reply to a `resources/templates/list` request.
#[derive(Debug)]
pub struct ListResourceTemplatesResult {
    /// The resource templates on this page.
    pub resource_templates: Vec<ResourceTemplate>,
    /// Cursor of the next page, if items remain.
    pub next_cursor: Option<String>,
}

/// The reply to a `prompts/list` request.
#[derive(Debug)]
pub struct ListPromptsResult {
    /// The prompts on this page.
    pub prompts: Vec<Prompt>,
    /// Cursor of the next page, if items remain.
    pub next_cursor: Option<String>,
}

/// The texts of an optional list of tags.
pub open spec fn opt_tag_list(o: Option<Vec<String>>) -> Option<Seq<Seq<char>>> {
    match o {
        Some(v) => Some(texts(v@)),
        None => None,
    }
}

/// The tag filters a list request asks for: none where it gives neither
/// list of tags.
pub open spec fn param_filters(params: ListParams) -> Option<(Option<Seq<Seq<char>>>, Option<Seq<Seq<char>>>)> {
    if params.include_tags is Some || params.exclude_tags is Some {
        Some((opt_tag_list(params.include_tags), opt_tag_list(params.exclude_tags)))
    } else {
        None
    }
}

/// The items of `all` from `start` up to `end`; none where `start` is not
/// below `end`.
pub open spec fn page_of<A>(all: Seq<A>, start: nat, end: nat) -> Seq<A> {
    if start < end {
        all.subrange(start as int, end as int)
    } else {
        Seq::empty()
    }
}

/// Whether `r` is the reply to a list request over the listing `all` with
/// the cursor `cursor` where the page size is `page_size`: everything with no
/// cursor where pages are off, else the page at the cursor's position and
/// the cursor of the rest where items remain; an invalid cursor is refused.
pub open spec fn list_reply<A>(
    all: Seq<A>,
    page_size: Option<usize>,
    cursor: Option<Seq<char>>,
    r: Result<(Seq<A>, Option<String>), McpError>,
) -> bool {
    match page_size {
        None => r matches Ok(res) && res.0 == all && res.1 is None,
        Some(size) => match cursor_offset(cursor) {
            Err(msg) => r matches Err(e) && e.code == McpErrorCode::InvalidParams && e.message@ == msg,
            Ok(off) => r matches Ok(res) && {
                let end = page_end(off, size as nat, all.len());
                &&& res.0 == page_of(all, off, end)
                &&& end < all.len() ==> (res.1 matches Some(c) && c@ == cursor_text(end as u64))
                &&& end >= all.len() ==> res.1 is None
            },
        },
    }
}

/// The items of `v` from `start` up to `end`; none where `start` is not
/// below `end`.
fn page_slice<A>(v: Vec<A>, start: usize, end: usize) -> (r: Vec<A>)
    requires
        end <= v@.len(),
    ensures
        r@ == page_of(v@, start as nat, end as nat),
{
    if start < end {
        let mut v = v;
        v.truncate(end);
        v.split_off(start)
    } else {
        Vec::new()
    }
}

/// The lists of tags of a list request, borrowed.
fn param_tags(params: &ListParams) -> (r: (Option<&Vec<String>>, Option<&Vec<String>>))
    ensures
        r.0 == match params.include_tags {
            Some(v) => Some(&v),
            None => None::<&Vec<String>>,
        },
        r.1 == match params.exclude_tags {
            Some(v) => Some(&v),
            None => None::<&Vec<String>>,
        },
{
    let inc = match &params.include_tags {
        Some(v) => Some(v),
        None => None,
    };
    let exc = match &params.exclude_tags {
        Some(v) => Some(v),
        None => None,
    };
    (inc, exc)
}

/// The cursor of a list request, borrowed.
fn param_cursor(params: &ListParams) -> (r: Option<&str>)
    ensures
        match r {
            Some(c) => opt_text(params.cursor) == Some(c@),
            None => opt_text(params.cursor) is None,
        },
{
    match &params.cursor {
        Some(c) => Some(c.as_str()),
        None => None,
    }
}

impl<T, R, P> Router<T, R, P> {
    /// Handles a `tools/list` request: the tools that are not disabled and
    /// pass the request's tag filters, paged where a page size is set.
    pub fn handle_tools_list(&self, params: ListToolsParams, disabled: Option<&StrSet>) -> (r: Result<
        ListToolsResult,
        McpError,
    >)
        ensures
            list_reply(
                listed_tools(
                    self.tool_part().0,
                    self.tool_part().2,
                    disabled_names(disabled),
                    param_filters(params),
                ),
                self.settings().1,
                opt_text(params.cursor),
                match r {
                    Ok(res) => Ok((views(res.tools@), res.next_cursor)),
                    Err(e) => Err(e),
                },
            ),
    {
        let (inc, exc) = param_tags(&params);
        let filters = TagFilters::new(inc, exc);
        let tools = if params.include_tags.is_some() || params.exclude_tags.is_some() {
            self.tools_filtered(disabled, Some(&filters))
        } else {
            self.tools_filtered(disabled, None)
        };
        let ghost all = views(tools@);
        match list_page(tools.len(), self.list_page_size, param_cursor(&params)) {
            Err(e) => Err(e),
            Ok(page) => {
                let items = page_slice(tools, page.start, page.end);
                assert(views(items@) =~= page_of(all, page.start as nat, page.end as nat));
                assert(page_of(all, 0, all.len()) =~= all);
                Ok(ListToolsResult { tools: items, next_cursor: page.next_cursor })
            },
        }
    }
}

impl<T, R, P> Router<T, R, P> {
    /// Handles a `resources/list` request: the resources that are not disabled and
    /// pass the request's tag filters, paged where a page size is set.
    pub fn handle_resources_list(&self, params: ListResourcesParams, disabled: Option<&StrSet>) -> (r: Result<
        ListResourcesResult,
        McpError,
    >)
        ensures
            list_reply(
                listed_defs(
                    self.resource_part().0,
                    self.resource_part().2,
                    disabled_names(disabled),
                    param_filters(params),
                ),
                self.settings().1,
                opt_text(params.cursor),
                match r {
                    Ok(res) => Ok((views(res.resources@), res.next_cursor)),
                    Err(e) => Err(e),
                },
            ),
    {
        let (inc, exc) = param_tags(&params);
        let filters = TagFilters::new(inc, exc);
        let tools = if params.include_tags.is_some() || params.exclude_tags.is_some() {
            self.resources_filtered(disabled, Some(&filters))
        } else {
            self.resources_filtered(disabled, None)
        };
        let ghost all = views(tools@);
        match list_page(tools.len(), self.list_page_size, param_cursor(&params)) {
            Err(e) => Err(e),
            Ok(page) => {
                let items = page_slice(tools, page.start, page.end);
                assert(views(items@) =~= page_of(all, page.start as nat, page.end as nat));
                assert(page_of(all, 0, all.len()) =~= all);
                Ok(ListResourcesResult { resources: items, next_cursor: page.next_cursor })
            },
        }
    }
}

impl<T, R, P> Router<T, R, P> {
    /// Handles a `resources/templates/list` request: the resource templates that are not disabled and
    /// pass the request's tag filters, paged where a page size is set.
    pub fn handle_resource_templates_list(&self, params: ListResourceTemplatesParams, disabled: Option<&StrSet>) -> (r: Result<
        ListResourceTemplatesResult,
        McpError,
    >)
        ensures
            list_reply(
                listed_templates(
                    self.template_part().0,
                    self.template_part().2,
                    disabled_names(disabled),
                    param_filters(params),
                ),
                self.settings().1,
                opt_text(params.cursor),
                match r {
                    Ok(res) => Ok((views(res.resource_templates@), res.next_cursor)),
                    Err(e) => Err(e),
                },
            ),
    {
        let (inc, exc) = param_tags(&params);
        let filters = TagFilters::new(inc, exc);
        let tools = if params.include_tags.is_some() || params.exclude_tags.is_some() {
            self.resource_templates_filtered(disabled, Some(&filters))
        } else {
            self.resource_templates_filtered(disabled, None)
        };
        let ghost all = views(tools@);
        match list_page(tools.len(), self.list_page_size, param_cursor(&params)) {
            Err(e) => Err(e),
            Ok(page) => {
                let items = page_slice(tools, page.start, page.end);
                assert(views(items@) =~= page_of(all, page.start as nat, page.end as nat));
                assert(page_of(all, 0, all.len()) =~= all);
                Ok(ListResourceTemplatesResult { resource_templates: items, next_cursor: page.next_cursor })
            },
        }
    }
}

impl<T, R, P> Router<T, R, P> {
    /// Handles a `prompts/list` request: the prompts that are not disabled and
    /// pass the request's tag filters, paged where a page size is set.
    pub fn handle_prompts_list(&self, params: ListPromptsParams, disabled: Option<&StrSet>) -> (r: Result<
        ListPromptsResult,
        McpError,
    >)
        ensures
            list_reply(
                listed_defs(
                    self.prompt_part().0,
                    self.prompt_part().2,
                    disabled_names(disabled),
                    param_filters(params),
                ),
                self.settings().1,
                opt_text(params.cursor),
                match r {
                    Ok(res) => Ok((views(res.prompts@), res.next_cursor)),
                    Err(e) => Err(e),
                },
            ),
    {
        let (inc, exc) = param_tags(&params);
        let filters = TagFilters::new(inc, exc);
        let tools = if params.include_tags.is_some() || params.exclude_tags.is_some() {
            self.prompts_filtered(disabled, Some(&filters))
        } else {
            self.prompts_filtered(disabled, None)
        };
        let ghost all = views(tools@);
        match list_page(tools.len(), self.list_page_size, param_cursor(&params)) {
            Err(e) => Err(e),
            Ok(page) => {
                let items = page_slice(tools, page.start, page.end);
                assert(views(items@) =~= page_of(all, page.start as nat, page.end as nat));
                assert(page_of(all, 0, all.len()) =~= all);
                Ok(ListPromptsResult { prompts: items, next_cursor: page.next_cursor })
            },
        }
    }
}

} // verus!

verus! {

/// At most one template is the best for a URI: resolution is determined by
/// the registry and the URI alone.
pub proof fn law_best_template_unique<R>(
    part: Part<TemplateView, Option<R>>,
    uri: Seq<char>,
    k1: Seq<char>,
    k2: Seq<char>,
)
    requires
        best_template(part, k1, uri),
        best_template(part, k2, uri),
    ensures
        k1 == k2,
{
    if k1 != k2 {
        assert(serves(part, k2, uri));
        assert(serves(part, k1, uri));
        lemma_tried_before_total(k1, k2);
    }
}

} // verus!

verus! {

// ============================================================================
// Dispatch checks
// ============================================================================

/// What the dispatcher knows of a request when it arrives at a tool,
/// resource or prompt: whether it was cancelled, whether its budget is used
/// up, and whether its deadline has passed.
#[derive(Debug, Clone, Copy)]
pub struct RequestState {
    /// Cancellation was requested.
    pub cancel_requested: bool,
    /// The request's budget is exhausted.
    pub budget_exhausted: bool,
    /// The request's deadline has passed.
    pub past_deadline: bool,
}

/// Why a request for a component is refused before its handler runs.
#[derive(Debug, Clone, Copy, PartialEq, Eq, Structural)]
pub enum Refusal {
    /// The request was cancelled.
    Cancelled,
    /// The request's budget is used up.
    BudgetExhausted,
    /// The request's deadline has passed.
    TimeoutExceeded,
    /// The component is disabled for this session.
    Disabled,
    /// No component answers to the name or URI.
    NotFound,
}

/// The kind of component a request is for.
#[derive(Debug, Clone, Copy, PartialEq, Eq, Structural)]
pub enum ComponentKind {
    /// A tool call.
    Tool,
    /// A resource read.
    Resource,
    /// A prompt request.
    Prompt,
}

/// The refusal a request in state `st` meets before the component is looked
/// up, in the order checked: cancellation, budget, deadline, then whether the
/// component is enabled.
pub open spec fn precheck(st: RequestState, enabled: bool) -> Option<Refusal> {
    if st.cancel_requested {
        Some(Refusal::Cancelled)
    } else if st.budget_exhausted {
        Some(Refusal::BudgetExhausted)
    } else if st.past_deadline {
        Some(Refusal::TimeoutExceeded)
    } else if !enabled {
        Some(Refusal::Disabled)
    } else {
        None
    }
}

/// Whether the component named `name` is enabled: it is not among the
/// disabled names, where these are given.
pub open spec fn enabled_in(disabled: Option<Set<Seq<char>>>, name: Seq<char>) -> bool {
    !(disabled matches Some(d) && d.contains(name))
}

/// The refusal a request in state `st` for the component `name` meets before
/// the component is looked up.
fn check_request(st: RequestState, disabled: Option<&StrSet>, name: &str) -> (r: Option<Refusal>)
    ensures
        r == precheck(st, enabled_in(disabled_names(disabled), name@)),
{
    if st.cancel_requested {
        return Some(Refusal::Cancelled);
    }
    if st.budget_exhausted {
        return Some(Refusal::BudgetExhausted);
    }
    if st.past_deadline {
        return Some(Refusal::TimeoutExceeded);
    }
    if let Some(d) = disabled {
        if d.contains(name) {
            return Some(Refusal::Disabled);
        }
    }
    None
}

/// The error code a refusal is answered with for a request of kind `kind`:
/// cancellation, budget and deadline are cancellations; a disabled or
/// unknown component is not found as a method, resource or prompt.
pub open spec fn refusal_code_of(kind: ComponentKind, r: Refusal) -> McpErrorCode {
    match r {
        Refusal::Cancelled | Refusal::BudgetExhausted | Refusal::TimeoutExceeded => McpErrorCode::RequestCancelled,
        _ => match kind {
            ComponentKind::Tool => McpErrorCode::MethodNotFound,
            ComponentKind::Resource => McpErrorCode::ResourceNotFound,
            ComponentKind::Prompt => McpErrorCode::PromptNotFound,
        },
    }
}

/// The error code a refusal is answered with.
pub fn refusal_code(kind: ComponentKind, r: Refusal) -> (c: McpErrorCode)
    ensures
        c == refusal_code_of(kind, r),
{
    match r {
        Refusal::Cancelled | Refusal::BudgetExhausted | Refusal::TimeoutExceeded => McpErrorCode::RequestCancelled,
        _ => match kind {
            ComponentKind::Tool => McpErrorCode::MethodNotFound,
            ComponentKind::Resource => McpErrorCode::ResourceNotFound,
            ComponentKind::Prompt => McpErrorCode::PromptNotFound,
        },
    }
}

/// The word for a kind of component in messages.
pub open spec fn kind_word(kind: ComponentKind) -> Seq<char> {
    match kind {
        ComponentKind::Tool => "Tool"@,
        ComponentKind::Resource => "Resource"@,
        ComponentKind::Prompt => "Prompt"@,
    }
}

/// The message the server words itself for a refusal of a request of kind
/// `kind` for `name`; none for a cancellation, or for an unknown tool or
/// resource, whose wording belongs to the protocol's own error constructors.
pub open spec fn refusal_message_of(kind: ComponentKind, name: Seq<char>, r: Refusal) -> Option<Seq<char>> {
    match r {
        Refusal::BudgetExhausted => Some("Request budget exhausted"@),
        Refusal::TimeoutExceeded => Some("Request timeout exceeded"@),
        Refusal::Disabled => Some(kind_word(kind) + " '"@ + name + "' is disabled for this session"@),
        Refusal::NotFound => match kind {
            ComponentKind::Prompt => Some("Prompt not found: "@ + name),
            _ => None,
        },
        Refusal::Cancelled => None,
    }
}

/// The message the server words itself for a refusal, if it words one.
pub fn refusal_message(kind: ComponentKind, name: &str, r: Refusal) -> (m: Option<String>)
    ensures
        match m {
            Some(s) => refusal_message_of(kind, name@, r) == Some(s@),
            None => refusal_message_of(kind, name@, r) is None,
        },
{
    match r {
        Refusal::BudgetExhausted => Some("Request budget exhausted".to_string()),
        Refusal::TimeoutExceeded => Some("Request timeout exceeded".to_string()),
        Refusal::Disabled => {
            let mut m = match kind {
                ComponentKind::Tool => "Tool".to_string(),
                ComponentKind::Resource => "Resource".to_string(),
                ComponentKind::Prompt => "Prompt".to_string(),
            };
            m.append(" '");
            m.append(name);
            m.append("' is disabled for this session");
            Some(m)
        },
        Refusal::NotFound => match kind {
            ComponentKind::Prompt => {
                let mut m = "Prompt not found: ".to_string();
                m.append(name);
                Some(m)
            },
            _ => None,
        },
        Refusal::Cancelled => None,
    }
}

/// One complaint of a schema check on a tool call's arguments: where in the
/// arguments, and what is wrong there.
#[derive(Debug, Clone)]
pub struct ValidationIssue {
    /// The path of the offending value within the arguments.
    pub path: String,
    /// What is wrong with it.
    pub message: String,
}

/// The text of one complaint: its path, a colon and its message.
pub open spec fn issue_text(i: ValidationIssue) -> Seq<char> {
    i.path@ + ": "@ + i.message@
}

/// The texts of the complaints, joined by `"; "`.
pub open spec fn issues_text(is: Seq<ValidationIssue>) -> Seq<char>
    decreases is.len(),
{
    if is.len() == 0 {
        Seq::empty()
    } else if is.len() == 1 {
        issue_text(is[0])
    } else {
        issues_text(is.drop_last()) + "; "@ + issue_text(is.last())
    }
}

/// The message of a tool call refused because its arguments fail the
/// tool's input schema.
pub open spec fn validation_failure_message(is: Seq<ValidationIssue>) -> Seq<char> {
    "Input validation failed: "@ + issues_text(is)
}

/// The refusal of a tool call whose schema check found `issues`: none where
/// it found none, else an invalid-params error that lists every complaint.
pub fn arguments_refusal(issues: &Vec<ValidationIssue>) -> (r: Option<McpError>)
    ensures
        r is None <==> issues@.len() == 0,
        r matches Some(e) ==> e.code == McpErrorCode::InvalidParams && e.message@ == validation_failure_message(
            issues@,
        ),
{
    if issues.len() == 0 {
        return None;
    }
    let mut text = "Input validation failed: ".to_string();
    let mut i: usize = 0;
    while i < issues.len()
        invariant
            i <= issues@.len(),
            text@ == "Input validation failed: "@ + issues_text(issues@.subrange(0, i as int)),
        decreases issues@.len() - i,
    {
        let ghost before = text@;
        if i > 0 {
            text.append("; ");
        }
        text.append(issues[i].path.as_str());
        text.append(": ");
        text.append(issues[i].message.as_str());
        proof {
            let done = issues@.subrange(0, i + 1);
            assert(done.drop_last() =~= issues@.subrange(0, i as int));
            assert(done.last() == issues@[i as int]);
            if i == 0 {
                assert(issues_text(issues@.subrange(0, 0)) =~= Seq::<char>::empty());
                assert(text@ =~= "Input validation failed: "@ + issues_text(done));
            } else {
                assert(text@ =~= "Input validation failed: "@ + issues_text(done));
            }
        }
        i += 1;
    }
    assert(issues@.subrange(0, issues@.len() as int) =~= issues@);
    Some(McpError::invalid_params(text))
}

/// Why a tool call is refused before its handler runs.
pub enum ToolCallRefusal {
    /// A refusal of the request itself (see [`Refusal`]).
    Refused(Refusal),
    /// The arguments fail the tool's input schema.
    InvalidArguments(McpError),
}

/// What a nested request from inside a handler does: call another tool or
/// read a resource.
#[derive(Debug, Clone, Copy, PartialEq, Eq, Structural)]
pub enum NestedRequest {
    /// A tool call.
    ToolCall,
    /// A resource read.
    ResourceRead,
}

/// The message of a nested request refused for its depth.
pub open spec fn depth_message(kind: NestedRequest, max_depth: u32) -> Seq<char> {
    match kind {
        NestedRequest::ToolCall => "Maximum tool call depth ("@ + decimal_text(max_depth as nat) + ") exceeded"@,
        NestedRequest::ResourceRead => "Maximum resource read depth ("@ + decimal_text(max_depth as nat)
            + ") exceeded"@,
    }
}

/// The refusal of a nested request at `depth` where at most `max_depth`
/// levels of nesting are allowed: an internal error exactly when the depth
/// exceeds the limit.
pub fn depth_refusal(kind: NestedRequest, depth: u32, max_depth: u32) -> (r: Option<McpError>)
    ensures
        r is Some <==> depth > max_depth,
        r matches Some(e) ==> e.code == McpErrorCode::InternalError && e.message@ == depth_message(kind, max_depth),
{
    if depth <= max_depth {
        return None;
    }
    let mut m = match kind {
        NestedRequest::ToolCall => "Maximum tool call depth (".to_string(),
        NestedRequest::ResourceRead => "Maximum resource read depth (".to_string(),
    };
    let n = u64_to_decimal(max_depth as u64);
    m.append(n.as_str());
    m.append(") exceeded");
    Some(McpError::internal_error(m))
}

/// The error of a nested resource read for a URI that no resource or
/// template answers.
pub fn resource_not_found(uri: &str) -> (e: McpError)
    ensures
        e.code == McpErrorCode::ResourceNotFound,
        e.message@ == "Resource not found: "@ + uri@,
{
    let mut m = "Resource not found: ".to_string();
    m.append(uri);
    McpError::new(McpErrorCode::ResourceNotFound, m)
}

/// How a tool handler finished.
pub enum ToolOutcome<C> {
    /// It returned content.
    Returned(C),
    /// It failed with an error.
    Failed(McpError),
    /// It was cancelled.
    Cancelled,
    /// It panicked, with the panic's message.
    Panicked(String),
}

/// The answer to a `tools/call` request once its handler has finished.
pub enum ToolReply<C> {
    /// A result carrying the handler's content, not flagged as an error.
    Content(C),
    /// A result carrying the text of a tool error, flagged as an error.
    ErrorText(String),
    /// A protocol error.
    Error(McpError),
    /// The protocol's error for a cancelled request.
    Cancelled,
}

/// The answer to a `tools/call` request whose handler finished with
/// `outcome`: content is returned as a result; a tool error is returned as a
/// result flagged as an error, except a cancellation error, which is passed
/// on; a cancelled handler is a cancelled request; a panic is an internal
/// error.
pub fn tool_reply<C>(outcome: ToolOutcome<C>) -> (r: ToolReply<C>)
    ensures
        match outcome {
            ToolOutcome::Returned(c) => r == ToolReply::Content(c),
            ToolOutcome::Failed(e) => if e.code == McpErrorCode::RequestCancelled {
                r matches ToolReply::Error(f) && f.code == e.code && f.message@ == e.message@
            } else {
                r matches ToolReply::ErrorText(t) && t@ == e.message@
            },
            ToolOutcome::Cancelled => r is Cancelled,
            ToolOutcome::Panicked(m) => r matches ToolReply::Error(f) && f.code == McpErrorCode::InternalError
                && f.message@ == "Handler panic: "@ + m@,
        },
{
    match outcome {
        ToolOutcome::Returned(c) => ToolReply::Content(c),
        ToolOutcome::Failed(e) => {
            if e.code == McpErrorCode::RequestCancelled {
                ToolReply::Error(e)
            } else {
                ToolReply::ErrorText(e.message)
            }
        },
        ToolOutcome::Cancelled => ToolReply::Cancelled,
        ToolOutcome::Panicked(m) => {
            let mut text = "Handler panic: ".to_string();
            text.append(m.as_str());
            ToolReply::Error(McpError::internal_error(text))
        },
    }
}

impl<T, R, P> Router<T, R, P> {
    /// The handler a `tools/call` request for `name` goes to, or why it is
    /// refused: the checks of [`precheck`] in order, then an unknown name.
    pub fn tool_call_target(&self, st: RequestState, name: &str, disabled: Option<&StrSet>) -> (r: Result<&T, Refusal>)
        ensures
            match precheck(st, enabled_in(disabled_names(disabled), name@)) {
                Some(f) => r == Err::<&T, Refusal>(f),
                None => match r {
                    Ok(h) => self.tool_part().1.dom().contains(name@) && *h == self.tool_part().1[name@],
                    Err(f) => f == Refusal::NotFound && !self.tool_part().1.dom().contains(name@),
                },
            },
    {
        if let Some(f) = check_request(st, disabled, name) {
            return Err(f);
        }
        match self.get_tool(name) {
            Some(h) => Ok(h),
            None => Err(Refusal::NotFound),
        }
    }

    /// The handler a `tools/call` request for `name` goes to once its
    /// arguments are checked, or why it is refused: the refusals of
    /// [`Self::tool_call_target`], then the complaints that `check` (the
    /// schema check of the handler's input schema, strict or lenient as the
    /// router is set) finds in the arguments.  The check runs only on a tool
    /// that is found, and before its handler.
    pub fn tool_call_admit<F>(&self, st: RequestState, name: &str, disabled: Option<&StrSet>, check: F) -> (r: Result<
        &T,
        ToolCallRefusal,
    >) where F: Fn(&T, bool) -> Vec<ValidationIssue>
        requires
            forall|h: &T| call_requires(check, (h, self.settings().0)),
        ensures
            match precheck(st, enabled_in(disabled_names(disabled), name@)) {
                Some(f) => r == Err::<&T, ToolCallRefusal>(ToolCallRefusal::Refused(f)),
                None => if !self.tool_part().1.dom().contains(name@) {
                    r == Err::<&T, ToolCallRefusal>(ToolCallRefusal::Refused(Refusal::NotFound))
                } else {
                    exists|issues: Vec<ValidationIssue>|
                        {
                            &&& call_ensures(check, (&self.tool_part().1[name@], self.settings().0), issues)
                            &&& issues@.len() == 0 ==> (r matches Ok(h) && *h == self.tool_part().1[name@])
                            &&& issues@.len() > 0 ==> (r matches Err(ToolCallRefusal::InvalidArguments(e)) && e.code
                                == McpErrorCode::InvalidParams && e.message@ == validation_failure_message(issues@))
                        }
                },
            },
    {
        match self.tool_call_target(st, name, disabled) {
            Err(f) => Err(ToolCallRefusal::Refused(f)),
            Ok(h) => {
                let issues = check(h, self.strict_input_validation());
                match arguments_refusal(&issues) {
                    Some(e) => Err(ToolCallRefusal::InvalidArguments(e)),
                    None => Ok(h),
                }
            },
        }
    }

    /// The handler a `prompts/get` request for `name` goes to, or why it is
    /// refused, as for tools.
    pub fn prompt_get_target(&self, st: RequestState, name: &str, disabled: Option<&StrSet>) -> (r: Result<&P, Refusal>)
        ensures
            match precheck(st, enabled_in(disabled_names(disabled), name@)) {
                Some(f) => r == Err::<&P, Refusal>(f),
                None => match r {
                    Ok(h) => self.prompt_part().1.dom().contains(name@) && *h == self.prompt_part().1[name@],
                    Err(f) => f == Refusal::NotFound && !self.prompt_part().1.dom().contains(name@),
                },
            },
    {
        if let Some(f) = check_request(st, disabled, name) {
            return Err(f);
        }
        match self.get_prompt(name) {
            Some(h) => Ok(h),
            None => Err(Refusal::NotFound),
        }
    }

    /// The handler and template parameters a `resources/read` request for
    /// `uri` goes to, or why it is refused: the checks of [`precheck`] in
    /// order, then a URI that no resource serves (see
    /// [`Self::resolve_resource`]).
    pub fn resource_read_target(&self, st: RequestState, uri: &str, disabled: Option<&StrSet>) -> (r: Result<
        (&R, StrMap<String>),
        Refusal,
    >)
        ensures
            match precheck(st, enabled_in(disabled_names(disabled), uri@)) {
                Some(f) => r == Err::<(&R, StrMap<String>), Refusal>(f),
                None => match r {
                    Ok(found) => self.resource_part().1.dom().contains(uri@) ==> (*found.0
                        == self.resource_part().1[uri@] && found.1@.dom().len() == 0),
                    Err(f) => f == Refusal::NotFound && !self.resource_part().1.dom().contains(uri@) && forall|
                        k: Seq<char>,
                    | !#[trigger] serves(self.template_part(), k, uri@),
                },
            },
            precheck(st, enabled_in(disabled_names(disabled), uri@)) is None && !self.resource_part().1.dom().contains(
                uri@,
            ) ==> (r matches Ok(found) ==> exists|k: Seq<char>| #[trigger]
                best_template(self.template_part(), k, uri@) && self.template_part().1[k] == Some(*found.0)
                    && template_match(template_segments(k), uri@) == Some(text_values(found.1@))),
    {
        if let Some(f) = check_request(st, disabled, uri) {
            return Err(f);
        }
        match self.resolve_resource(uri) {
            Some(found) => Ok(found),
            None => Err(Refusal::NotFound),
        }
    }
}

} // verus!

verus! {

// ============================================================================
// URL encoding and percent-decoding
// ============================================================================

/// The bytes of a text whose characters are all ASCII: one per character.
pub open spec fn ascii_bytes(cs: Seq<char>) -> Seq<u8> {
    Seq::new(cs.len(), |i: int| cs[i] as u8)
}

/// URL-encoding a byte string can be split at its first byte.
proof fn lemma_url_encode_front(b: u8, rest: Seq<u8>)
    ensures
        url_encode_bytes(seq![b] + rest) == url_encode_byte(b) + url_encode_bytes(rest),
    decreases rest.len(),
{
    let s = seq![b] + rest;
    if rest.len() == 0 {
        assert(s.drop_last() =~= Seq::<u8>::empty());
        assert(s.last() == b);
        assert(url_encode_bytes(s) == url_encode_bytes(s.drop_last()) + url_encode_byte(s.last()));
        assert(url_encode_bytes(s.drop_last()) =~= Seq::<char>::empty());
        assert(url_encode_bytes(rest) =~= Seq::<char>::empty());
        assert(url_encode_bytes(s) =~= url_encode_byte(b));
        assert(url_encode_byte(b) + url_encode_bytes(rest) =~= url_encode_byte(b));
    } else {
        assert(s.drop_last() =~= seq![b] + rest.drop_last());
        assert(s.last() == rest.last());
        lemma_url_encode_front(b, rest.drop_last());
        assert(url_encode_bytes(s) == url_encode_bytes(s.drop_last()) + url_encode_byte(s.last()));
        assert(url_encode_bytes(rest) == url_encode_bytes(rest.drop_last()) + url_encode_byte(rest.last()));
        assert(url_encode_byte(b) + url_encode_bytes(rest.drop_last()) + url_encode_byte(rest.last())
            =~= url_encode_byte(b) + (url_encode_bytes(rest.drop_last()) + url_encode_byte(rest.last())));
    }
}

/// The URL encoding of a byte is ASCII.
proof fn lemma_url_encode_byte_ascii(b: u8)
    ensures
        vstd::utf8::is_ascii_chars(url_encode_byte(b)),
{
    if is_unreserved(b) {
        let c = (b as u32) as char;
        assert(c as u32 == b as u32);
        assert('\0' <= c <= '\u{7f}');
        assert(url_encode_byte(b)[0] == c);
    } else {
        let hi = hex_upper_char((b / 16) as nat);
        let lo = hex_upper_char((b % 16) as nat);
        assert(b / 16 < 16 && b % 16 < 16);
        assert('\0' <= hi <= '\u{7f}');
        assert('\0' <= lo <= '\u{7f}');
        assert(url_encode_byte(b) =~= seq!['%', hi, lo]);
    }
}

/// The URL encoding of a byte string is ASCII.
proof fn lemma_url_encode_ascii(bs: Seq<u8>)
    ensures
        vstd::utf8::is_ascii_chars(url_encode_bytes(bs)),
    decreases bs.len(),
{
    if bs.len() > 0 {
        lemma_url_encode_ascii(bs.drop_last());
        lemma_url_encode_byte_ascii(bs.last());
        let a = url_encode_bytes(bs.drop_last());
        let e = url_encode_byte(bs.last());
        assert(url_encode_bytes(bs) == a + e);
        assert forall|i: int| 0 <= i < url_encode_bytes(bs).len() implies '\0' <= #[trigger] url_encode_bytes(
            bs,
        )[i] <= '\u{7f}' by {
            if i < a.len() {
                assert(url_encode_bytes(bs)[i] == a[i]);
            } else {
                assert(url_encode_bytes(bs)[i] == e[i - a.len()]);
            }
        }
    }
}

/// Percent-decoding the ASCII bytes of the URL encoding of a byte string
/// gives the byte string back.
proof fn lemma_url_encode_decodes(bs: Seq<u8>)
    ensures
        percent_decoded_bytes(ascii_bytes(url_encode_bytes(bs))) == Some(bs),
    decreases bs.len(),
{
    if bs.len() == 0 {
        assert(ascii_bytes(url_encode_bytes(bs)) =~= Seq::<u8>::empty());
    } else {
        let b = bs[0];
        let rest = bs.drop_first();
        assert(bs =~= seq![b] + rest);
        lemma_url_encode_front(b, rest);
        lemma_url_encode_decodes(rest);
        let head = url_encode_byte(b);
        let tail = url_encode_bytes(rest);
        let all = ascii_bytes(head + tail);
        assert(all =~= ascii_bytes(head) + ascii_bytes(tail));
        if is_unreserved(b) {
            assert(ascii_bytes(head) =~= seq![b]);
            assert(all.drop_first() =~= ascii_bytes(tail));
            assert(all[0] != 37);
            assert(seq![b] + rest =~= bs);
        } else {
            let hi = (b / 16) as nat;
            let lo = (b % 16) as nat;
            assert(ascii_bytes(head) =~= seq![37u8, hex_upper_char(hi) as u8, hex_upper_char(lo) as u8]);
            assert(all.skip(3) =~= ascii_bytes(tail));
            assert(hex_value(all[1]) == Some(hi as u8));
            assert(hex_value(all[2]) == Some(lo as u8));
            assert((hi * 16 + lo) as u8 == b);
            assert(seq![b] + rest =~= bs);
        }
    }
}

/// Percent-decoding the URL encoding of a text gives the text back.
pub proof fn law_url_encode_roundtrip(t: Seq<char>)
    ensures
        percent_decoded(url_encoded(t)) == Some(t),
{
    let bs = vstd::utf8::encode_utf8(t);
    let e = url_encode_bytes(bs);
    lemma_url_encode_ascii(bs);
    vstd::utf8::is_ascii_chars_encode_utf8(e);
    assert(vstd::utf8::encode_utf8(e) =~= ascii_bytes(e));
    lemma_url_encode_decodes(bs);
    vstd::utf8::encode_utf8_valid_utf8(t);
    vstd::utf8::encode_utf8_decode_utf8(t);
}

/// Whether `c` is left as it is by URL encoding: an ASCII letter or digit,
/// `-`, `_`, `.` or `~`.
pub open spec fn is_unreserved_char(c: char) -> bool {
    ('A' <= c && c <= 'Z') || ('a' <= c && c <= 'z') || ('0' <= c && c <= '9') || c == '-' || c == '_' || c
        == '.' || c == '~'
}

/// Whether `c` is an upper-case hexadecimal digit.
pub open spec fn is_upper_hex_char(c: char) -> bool {
    ('0' <= c && c <= '9') || ('A' <= c && c <= 'F')
}

/// Whether `e` is in the URL-encoded alphabet: every character is unreserved
/// or `%`, and every `%` is followed by two upper-case hexadecimal digits.
pub open spec fn in_url_encoded_alphabet(e: Seq<char>) -> bool {
    forall|i: int|
        0 <= i < e.len() ==> (is_unreserved_char(#[trigger] e[i]) || (e[i] == '%' && i + 2 < e.len()
            && is_upper_hex_char(e[i + 1]) && is_upper_hex_char(e[i + 2])))
}

/// Two texts in the URL-encoded alphabet make one.
proof fn lemma_alphabet_concat(a: Seq<char>, b: Seq<char>)
    requires
        in_url_encoded_alphabet(a),
        in_url_encoded_alphabet(b),
    ensures
        in_url_encoded_alphabet(a + b),
{
    let e = a + b;
    assert forall|i: int| 0 <= i < e.len() implies (is_unreserved_char(#[trigger] e[i]) || (e[i] == '%' && i + 2
        < e.len() && is_upper_hex_char(e[i + 1]) && is_upper_hex_char(e[i + 2]))) by {
        if i < a.len() {
            assert(e[i] == a[i]);
            if !is_unreserved_char(a[i]) {
                assert(e[i + 1] == a[i + 1] && e[i + 2] == a[i + 2]);
            }
        } else {
            let k = i - a.len();
            assert(e[i] == b[k]);
            if !is_unreserved_char(b[k]) {
                assert(e[i + 1] == b[k + 1] && e[i + 2] == b[k + 2]);
            }
        }
    }
}

/// The URL encoding of a byte is in the URL-encoded alphabet.
proof fn lemma_byte_alphabet(b: u8)
    ensures
        in_url_encoded_alphabet(url_encode_byte(b)),
{
    let e = url_encode_byte(b);
    if is_unreserved(b) {
        let c = (b as u32) as char;
        assert(c as u32 == b as u32);
        assert(is_unreserved_char(c));
        assert(e[0] == c);
    } else {
        let hi = hex_upper_char((b / 16) as nat);
        let lo = hex_upper_char((b % 16) as nat);
        assert(b / 16 < 16 && b % 16 < 16);
        assert(is_upper_hex_char(hi));
        assert(is_upper_hex_char(lo));
        assert(is_unreserved_char(hi) && is_unreserved_char(lo));
        assert(e =~= seq!['%', hi, lo]);
    }
}

/// The URL encoding of a byte string is in the URL-encoded alphabet.
proof fn lemma_bytes_alphabet(bs: Seq<u8>)
    ensures
        in_url_encoded_alphabet(url_encode_bytes(bs)),
    decreases bs.len(),
{
    if bs.len() > 0 {
        lemma_bytes_alphabet(bs.drop_last());
        lemma_byte_alphabet(bs.last());
        lemma_alphabet_concat(url_encode_bytes(bs.drop_last()), url_encode_byte(bs.last()));
    }
}

/// The URL encoding of any text uses only unreserved characters and `%`
/// followed by two upper-case hexadecimal digits.
pub proof fn law_url_encode_alphabet(t: Seq<char>)
    ensures
        in_url_encoded_alphabet(url_encoded(t)),
{
    lemma_bytes_alphabet(vstd::utf8::encode_utf8(t));
}

} // verus!
