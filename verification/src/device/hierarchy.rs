//! Finding elements in the XML view hierarchy a device reports: an element
//! matches a selector by resource-id suffix or by text (exact, or a regular
//! expression between slashes); its `bounds="[x1,y1][x2,y2]"` attribute
//! gives where to tap.

use vstd::prelude::*;
use vstd::string::StringExecFns;
use crate::device::error::TransportError;
use crate::device::types::{DeviceSelectorView, Selector};
use crate::engine::{append_selector_fields_debug, selector_fields_debug};
use crate::text::{
    chars_of, ends_with, find_chars, find_from, has_suffix, occurs_at, slice_chars, string_from,
    trim, trim_range,
};

verus! {

// ----------------------------------------------------------------------------
// Bounds
/// A rectangle on screen.
#[derive(Debug, Clone, Copy, PartialEq, Eq, Structural)]
pub struct Bounds {
    pub x: u32,
    pub y: u32,
    pub width: u32,
    pub height: u32,
}

/// The rectangle stays on the `u32` plane.
pub open spec fn bounds_fit(b: Bounds) -> bool {
    b.x + b.width <= u32::MAX && b.y + b.height <= u32::MAX
}

impl Bounds {
    /// The point in the middle (rounded down).
    pub fn center(&self) -> (r: (u32, u32))
        requires
            self.x + self.width / 2 <= u32::MAX,
            self.y + self.height / 2 <= u32::MAX,
        ensures
            r == ((self.x + self.width / 2) as u32, (self.y + self.height / 2) as u32),
    {
        (self.x + self.width / 2, self.y + self.height / 2)
    }
}

/// The center of the rectangle `[x1,y1][x2,y2]` is the midpoint
/// `((x1 + x2) / 2, (y1 + y2) / 2)`.
pub proof fn lemma_center_is_midpoint(x1: u32, y1: u32, x2: u32, y2: u32)
    requires
        x1 <= x2,
        y1 <= y2,
    ensures
        ({
            let b = Bounds { x: x1, y: y1, width: (x2 - x1) as u32, height: (y2 - y1) as u32 };
            &&& bounds_fit(b)
            &&& b.x + b.width / 2 == (x1 + x2) / 2
            &&& b.y + b.height / 2 == (y1 + y2) / 2
        }),
{
}

// ----------------------------------------------------------------------------
// Parsing `[x1,y1][x2,y2]`
/// Whether a character is a decimal digit.
pub open spec fn is_digit(c: char) -> bool {
    '0' <= c <= '9'
}

/// The value of a decimal digit.
pub open spec fn digit_value(c: char) -> nat {
    (c as nat - '0' as nat) as nat
}

/// The number that decimal digits spell.
pub open spec fn digits_value(s: Seq<char>) -> nat
    decreases s.len(),
{
    if s.len() == 0 {
        0
    } else {
        digits_value(s.drop_last()) * 10 + digit_value(s.last())
    }
}

/// The digits of an unsigned number: the text after an optional `+`.
pub open spec fn digits_part(s: Seq<char>) -> Seq<char> {
    if s.len() > 0 && s[0] == '+' {
        s.subrange(1, s.len() as int)
    } else {
        s
    }
}

/// Every character is a decimal digit.
pub open spec fn all_digits(d: Seq<char>) -> bool {
    forall|i: int| 0 <= i < d.len() ==> is_digit(#[trigger] d[i])
}

/// `u32::from_str`: an optional `+`, then one or more decimal digits
/// spelling a number that fits in `u32`.
pub open spec fn parse_u32(s: Seq<char>) -> Option<u32> {
    let d = digits_part(s);
    if d.len() > 0 && all_digits(d) && digits_value(d) <= u32::MAX {
        Some(digits_value(d) as u32)
    } else {
        None
    }
}

/// `digits_value`, capped just above `u32::MAX`.
pub open spec fn capped(v: nat) -> nat {
    if v > u32::MAX {
        u32::MAX as nat + 1
    } else {
        v
    }
}

proof fn lemma_capped_step(v: nat, d: nat)
    requires
        d < 10,
    ensures
        capped(v * 10 + d) == capped(capped(v) * 10 + d),
{
}

fn parse_u32_chars(s: &Vec<char>) -> (r: Option<u32>)
    ensures
        r == parse_u32(s@),
{
    let start: usize = if s.len() > 0 && s[0] == '+' {
        1
    } else {
        0
    };
    let ghost d = digits_part(s@);
    assert(d =~= s@.subrange(start as int, s.len() as int));
    if start >= s.len() {
        return None;
    }
    let mut acc: u64 = 0;
    let mut i: usize = start;
    assert(d.subrange(0, 0) =~= Seq::<char>::empty());
    while i < s.len()
        invariant
            start <= i <= s.len(),
            d == digits_part(s@),
            d =~= s@.subrange(start as int, s.len() as int),
            acc == capped(digits_value(d.subrange(0, i - start))),
            forall|j: int| 0 <= j < i - start ==> is_digit(#[trigger] d[j]),
        decreases s.len() - i,
    {
        let c = s[i];
        if !('0' <= c && c <= '9') {
            assert(d[i - start] == c);
            assert(!is_digit(d[i - start]));
            assert(!all_digits(d));
            return None;
        }
        let dv = (c as u32 - '0' as u32) as u64;
        proof {
            let p = d.subrange(0, i - start + 1);
            assert(p.drop_last() =~= d.subrange(0, i - start));
            assert(p.last() == c);
            lemma_capped_step(digits_value(d.subrange(0, i - start)), dv as nat);
        }
        acc = acc * 10 + dv;
        if acc > 0xffff_ffff {
            acc = 0x1_0000_0000;
        }
        i += 1;
    }
    assert(d.subrange(0, (s.len() - start) as int) =~= d);
    if acc > 0xffff_ffff {
        None
    } else {
        Some(acc as u32)
    }
}

/// The text before and after the first `c`.
pub open spec fn split_once(s: Seq<char>, c: char) -> Option<(Seq<char>, Seq<char>)> {
    match find_from(s, seq![c], 0) {
        Some(i) => Some((s.subrange(0, i), s.subrange(i + 1, s.len() as int))),
        None => None,
    }
}

/// The text without any leading `c`.
pub open spec fn drop_leading(s: Seq<char>, c: char) -> Seq<char>
    decreases s.len(),
{
    if s.len() > 0 && s[0] == c {
        drop_leading(s.subrange(1, s.len() as int), c)
    } else {
        s
    }
}

/// The rectangle `[x1,y1][x2,y2]` describes (white space around the text
/// and around each number is allowed). A rectangle whose second corner lies
/// left of or above the first is no rectangle.
pub open spec fn parse_bounds_spec(s: Seq<char>) -> Option<Bounds> {
    let t = trim(s);
    if !(t.len() > 0 && t[0] == '[') {
        None
    } else {
        match split_once(t.subrange(1, t.len() as int), ']') {
            None => None,
            Some((first, rest)) => match split_once(first, ',') {
                None => None,
                Some((x1s, y1s)) => match split_once(drop_leading(rest, '['), ']') {
                    None => None,
                    Some((second, _)) => match split_once(second, ',') {
                        None => None,
                        Some((x2s, y2s)) => match (
                            parse_u32(trim(x1s)),
                            parse_u32(trim(y1s)),
                            parse_u32(trim(x2s)),
                            parse_u32(trim(y2s)),
                        ) {
                            (Some(x1), Some(y1), Some(x2), Some(y2)) => if x1 <= x2 && y1 <= y2 {
                                Some(
                                    Bounds {
                                        x: x1,
                                        y: y1,
                                        width: (x2 - x1) as u32,
                                        height: (y2 - y1) as u32,
                                    },
                                )
                            } else {
                                None
                            },
                            _ => None,
                        },
                    },
                },
            },
        }
    }
}

pub proof fn lemma_parsed_bounds_fit(s: Seq<char>)
    ensures
        parse_bounds_spec(s) matches Some(b) ==> bounds_fit(b),
{
}

fn single(c: char) -> (r: Vec<char>)
    ensures
        r@ == seq![c],
{
    let mut v: Vec<char> = Vec::new();
    v.push(c);
    assert(v@ =~= seq![c]);
    v
}

/// Splits at the first `c`.
fn split_once_chars(s: &Vec<char>, c: char) -> (r: Option<(Vec<char>, Vec<char>)>)
    ensures
        match r {
            Some((a, b)) => split_once(s@, c) == Some((a@, b@)),
            None => split_once(s@, c) is None,
        },
{
    let sep = single(c);
    match find_chars(s, &sep, 0) {
        Some(i) => {
            proof {
                crate::text::lemma_find_from_found(s@, sep@, 0);
                assert(occurs_at(s@, sep@, i as int));
            }
            assert(i + 1 <= s@.len());
            assert(s@.len() == s.len());
            Some((slice_chars(s, 0, i), slice_chars(s, i + 1, s.len())))
        },
        None => None,
    }
}

fn drop_leading_chars(s: &Vec<char>, c: char) -> (r: Vec<char>)
    ensures
        r@ == drop_leading(s@, c),
{
    let mut i: usize = 0;
    assert(s@.subrange(0, s.len() as int) =~= s@);
    while i < s.len() && s[i] == c
        invariant
            i <= s.len(),
            drop_leading(s@, c) == drop_leading(s@.subrange(i as int, s.len() as int), c),
        decreases s.len() - i,
    {
        assert(s@.subrange(i as int, s.len() as int).subrange(1, (s.len() - i) as int)
            =~= s@.subrange(i + 1, s.len() as int));
        i += 1;
    }
    slice_chars(s, i, s.len())
}

fn trimmed(s: &Vec<char>) -> (r: Vec<char>)
    ensures
        r@ == trim(s@),
{
    let r = trim_range(s, 0, s.len());
    assert(s@.subrange(0, s.len() as int) =~= s@);
    r
}

/// Parses `[x1,y1][x2,y2]` into a rectangle.
pub fn parse_bounds(s: &str) -> (r: Option<Bounds>)
    ensures
        r == parse_bounds_spec(s@),
{
    let t = trimmed(&chars_of(s));
    if !(t.len() > 0 && t[0] == '[') {
        return None;
    }
    let inner = slice_chars(&t, 1, t.len());
    let (first, rest) = split_once_chars(&inner, ']')?;
    let (x1s, y1s) = split_once_chars(&first, ',')?;
    let rest2 = drop_leading_chars(&rest, '[');
    let (second, _tail) = split_once_chars(&rest2, ']')?;
    let (x2s, y2s) = split_once_chars(&second, ',')?;
    let x1 = parse_u32_chars(&trimmed(&x1s))?;
    let y1 = parse_u32_chars(&trimmed(&y1s))?;
    let x2 = parse_u32_chars(&trimmed(&x2s))?;
    let y2 = parse_u32_chars(&trimmed(&y2s))?;
    if x1 <= x2 && y1 <= y2 {
        Some(Bounds { x: x1, y: y1, width: x2 - x1, height: y2 - y1 })
    } else {
        None
    }
}

// ----------------------------------------------------------------------------
// Regular expressions
#[verifier::external_type_specification]
#[verifier::external_body]
pub struct ExRegex(regex::Regex);

/// The name for whether the regex crate accepts a pattern.
pub uninterp spec fn regex_valid(pattern: Seq<char>) -> bool;

/// The name for whether a pattern the regex crate accepts matches somewhere
/// in a text.
pub uninterp spec fn regex_finds(pattern: Seq<char>, text: Seq<char>) -> bool;

/// A compiled regular expression, with the pattern it was compiled from.
pub struct Pattern {
    re: regex::Regex,
    source: Ghost<Seq<char>>,
}

impl Pattern {
    pub closed spec fn source(&self) -> Seq<char> {
        self.source@
    }
}

/// `regex::Regex::new`: compiles a pattern. Whether it compiles depends on
/// the pattern alone, so it is named.
#[verifier::external_body]
fn compile_pattern(pattern: &str) -> (r: Option<Pattern>)
    ensures
        r is Some <==> regex_valid(pattern@),
        r matches Some(p) ==> p.source() == pattern@,
{
    regex::Regex::new(pattern).ok().map(|re| Pattern { re, source: Ghost(pattern@) })
}

/// `regex::Regex::is_match`: whether the pattern matches somewhere in the
/// text; named by the pattern the expression was compiled from.
#[verifier::external_body]
fn pattern_matches(p: &Pattern, text: &str) -> (r: bool)
    ensures
        r == regex_finds(p.source(), text@),
{
    p.re.is_match(text)
}

// ----------------------------------------------------------------------------
// Matching elements
/// The value of an element's attribute; when the name occurs twice, the
/// later value counts.
pub open spec fn attr_value(attrs: Seq<(Seq<char>, Seq<char>)>, name: Seq<char>) -> Option<
    Seq<char>,
>
    decreases attrs.len(),
{
    if attrs.len() == 0 {
        None
    } else if attrs.last().0 == name {
        Some(attrs.last().1)
    } else {
        attr_value(attrs.drop_last(), name)
    }
}

/// The attributes of an element, names and values taken by their views.
pub open spec fn attrs_view(attrs: Seq<(String, String)>) -> Seq<(Seq<char>, Seq<char>)> {
    attrs.map_values(|a: (String, String)| (a.0@, a.1@))
}

/// Whether an element matches a selector: by the suffix `:id/<id>` of its
/// `resource-id` when the selector has an id; otherwise by its `text`
/// (missing text reads as empty), exactly, or as a regular expression that
/// compiles and matches when the selector's text is `/.../` with something
/// between the slashes.
pub open spec fn element_matches(attrs: Seq<(Seq<char>, Seq<char>)>, s: DeviceSelectorView) -> bool {
    match s.id {
        Some(id) => match attr_value(attrs, "resource-id"@) {
            Some(r) => has_suffix(r, ":id/"@ + id),
            None => false,
        },
        None => match s.text {
            Some(t) => {
                let node = match attr_value(attrs, "text"@) {
                    Some(v) => v,
                    None => Seq::empty(),
                };
                if t.len() > 2 && t[0] == '/' && t.last() == '/' {
                    let pattern = t.subrange(1, t.len() - 1);
                    regex_valid(pattern) && regex_finds(pattern, node)
                } else {
                    node == t
                }
            },
            None => false,
        },
    }
}

/// The text an element shows: its `text` attribute, empty when missing.
pub open spec fn shown_text(attrs: Seq<(Seq<char>, Seq<char>)>) -> Seq<char> {
    match attr_value(attrs, "text"@) {
        Some(v) => v,
        None => Seq::empty(),
    }
}

/// A selector by plain text: no id, and a text not written as `/.../`.
pub open spec fn plain_text_selector(s: DeviceSelectorView, t: Seq<char>) -> bool {
    &&& s.id is None
    &&& s.text == Some(t)
    &&& !(t.len() > 2 && t[0] == '/' && t.last() == '/')
}

/// A plain text selector matches exactly the elements that show that
/// text: an element whose text only begins or ends with it, or holds it,
/// does not match.
pub proof fn lemma_plain_text_matches(attrs: Seq<(Seq<char>, Seq<char>)>, s: DeviceSelectorView, t: Seq<char>)
    requires
        plain_text_selector(s, t),
    ensures
        element_matches(attrs, s) <==> shown_text(attrs) == t,
{
}

/// The element a plain text selector picks shows exactly that text: the
/// rectangle found is the one given by the `bounds` of an element, at the
/// returned position, whose text is the selector's text.
pub proof fn lemma_plain_text_selection(
    elements: Seq<Seq<(Seq<char>, Seq<char>)>>,
    s: DeviceSelectorView,
    t: Seq<char>,
    count: nat,
) -> (i: int)
    requires
        plain_text_selector(s, t),
        select_from(elements, s, count) is Some,
    ensures
        0 <= i < elements.len(),
        shown_text(elements[i]) == t,
        attr_value(elements[i], "bounds"@) matches Some(b) && parse_bounds_spec(b) == select_from(
            elements,
            s,
            count,
        ),
    decreases elements.len(),
{
    if element_matches(elements[0], s) && count == s.index {
        0
    } else {
        let next = if element_matches(elements[0], s) {
            count + 1
        } else {
            count
        };
        let j = lemma_plain_text_selection(elements.drop_first(), s, t, next);
        assert(elements.drop_first()[j] == elements[j + 1]);
        j + 1
    }
}

fn attr_lookup<'a>(attrs: &'a Vec<(String, String)>, name: &str) -> (r: Option<&'a String>)
    ensures
        match r {
            Some(v) => attr_value(attrs_view(attrs@), name@) == Some(v@),
            None => attr_value(attrs_view(attrs@), name@) is None,
        },
{
    let mut i = attrs.len();
    assert(attrs_view(attrs@).subrange(0, attrs.len() as int) =~= attrs_view(attrs@));
    while i > 0
        invariant
            i <= attrs.len(),
            attr_value(attrs_view(attrs@), name@) == attr_value(
                attrs_view(attrs@).subrange(0, i as int),
                name@,
            ),
        decreases i,
    {
        let ghost pre = attrs_view(attrs@).subrange(0, i as int);
        assert(pre.last() == (attrs@[i - 1].0@, attrs@[i - 1].1@));
        assert(pre.drop_last() =~= attrs_view(attrs@).subrange(0, i - 1));
        if crate::text::same_text(attrs[i - 1].0.as_str(), name) {
            return Some(&attrs[i - 1].1);
        }
        i -= 1;
    }
    None
}

/// Whether an element matches a selector.
pub fn matches_selector(attrs: &Vec<(String, String)>, selector: &Selector) -> (r: bool)
    ensures
        r == element_matches(attrs_view(attrs@), selector@),
{
    if let Some(id) = &selector.id {
        let mut suffix = string_from(":id/");
        suffix.append(id.as_str());
        return match attr_lookup(attrs, "resource-id") {
            Some(r) => ends_with(&chars_of(r.as_str()), &chars_of(suffix.as_str())),
            None => false,
        };
    }
    if let Some(text) = &selector.text {
        let node: String = match attr_lookup(attrs, "text") {
            Some(v) => v.clone(),
            None => String::new(),
        };
        let t = chars_of(text.as_str());
        if t.len() > 2 && t[0] == '/' && t[t.len() - 1] == '/' {
            let pattern = crate::text::string_of(&slice_chars(&t, 1, t.len() - 1));
            return match compile_pattern(pattern.as_str()) {
                Some(p) => pattern_matches(&p, node.as_str()),
                None => false,
            };
        }
        return crate::text::same_text(node.as_str(), text.as_str());
    }
    false
}

/// The rectangle of the `index`-th element (counting from `count`) that
/// matches the selector: the element's `bounds`; nothing when it has none
/// or when they do not parse.
pub open spec fn select_from(
    elements: Seq<Seq<(Seq<char>, Seq<char>)>>,
    s: DeviceSelectorView,
    count: nat,
) -> Option<Bounds>
    decreases elements.len(),
{
    if elements.len() == 0 {
        None
    } else if element_matches(elements[0], s) {
        if count == s.index {
            match attr_value(elements[0], "bounds"@) {
                Some(b) => parse_bounds_spec(b),
                None => None,
            }
        } else {
            select_from(elements.drop_first(), s, count + 1)
        }
    } else {
        select_from(elements.drop_first(), s, count)
    }
}

/// The elements, each attribute taken by its view.
pub open spec fn elements_view(elements: Seq<Vec<(String, String)>>) -> Seq<
    Seq<(Seq<char>, Seq<char>)>,
> {
    elements.map_values(|e: Vec<(String, String)>| attrs_view(e@))
}

/// Picks the rectangle of the element the selector picks.
pub fn select_element(elements: &Vec<Vec<(String, String)>>, selector: &Selector) -> (r: Option<
    Bounds,
>)
    ensures
        r == select_from(elements_view(elements@), selector@, 0),
{
    let ghost all = elements_view(elements@);
    let mut count: u64 = 0;
    let mut i: usize = 0;
    assert(all.subrange(0, all.len() as int) =~= all);
    while i < elements.len()
        invariant
            i <= elements.len(),
            count <= i,
            all == elements_view(elements@),
            select_from(all, selector@, 0) == select_from(
                all.subrange(i as int, all.len() as int),
                selector@,
                count as nat,
            ),
        decreases elements.len() - i,
    {
        let ghost rest = all.subrange(i as int, all.len() as int);
        assert(rest[0] == attrs_view(elements@[i as int]@));
        assert(rest.drop_first() =~= all.subrange(i + 1, all.len() as int));
        if matches_selector(&elements[i], selector) {
            if count == selector.index as u64 {
                return match attr_lookup(&elements[i], "bounds") {
                    Some(b) => parse_bounds(b.as_str()),
                    None => None,
                };
            }
            count += 1;
        }
        i += 1;
    }
    None
}

// ----------------------------------------------------------------------------
// Reading the XML
#[verifier::external_type_specification]
#[verifier::external_body]
#[verifier::reject_recursive_types(R)]
pub struct ExXmlReader<R>(quick_xml::Reader<R>);

/// One event of the XML reader as the element search sees it.
pub enum XmlEvent {
    /// A start or empty element tag, with its attributes in order.
    Element(Vec<(String, String)>),
    /// Anything else: text, end tags, comments, declarations.
    Other,
    /// The end of the document, or an error that stops the reading.
    End,
}

pub enum XmlEventView {
    Element(Seq<(Seq<char>, Seq<char>)>),
    Other,
    End,
}

impl View for XmlEvent {
    type V = XmlEventView;

    open spec fn view(&self) -> XmlEventView {
        match self {
            XmlEvent::Element(attrs) => XmlEventView::Element(attrs_view(attrs@)),
            XmlEvent::Other => XmlEventView::Other,
            XmlEvent::End => XmlEventView::End,
        }
    }
}

/// The name for the event quick-xml yields as its `k`-th (from 0) when
/// reading `doc` with text trimming on.
pub uninterp spec fn xml_event(doc: Seq<char>, k: nat) -> XmlEventView;

/// A quick-xml reader over a document, with the document and the number of
/// events read so far.
pub struct XmlCursor<'a> {
    reader: quick_xml::Reader<&'a [u8]>,
    doc: Ghost<Seq<char>>,
    read: Ghost<nat>,
}

impl<'a> View for XmlCursor<'a> {
    type V = (Seq<char>, nat);

    closed spec fn view(&self) -> (Seq<char>, nat) {
        (self.doc@, self.read@)
    }
}

/// `quick_xml::Reader::from_str`, set to trim text: a reader at the start
/// of the document.
#[verifier::external_body]
fn xml_reader<'a>(xml: &'a str) -> (r: XmlCursor<'a>)
    ensures
        r@ == (xml@, 0nat),
{
    let mut reader = quick_xml::Reader::from_str(xml);
    reader.config_mut().trim_text(true);
    XmlCursor { reader, doc: Ghost(xml@), read: Ghost(0) }
}

/// `quick_xml::Reader::read_event`: the next event, each tag's attributes
/// decoded as (lossy) UTF-8, attributes the reader rejects left out. The
/// reader is deterministic, so the `k`-th event is named by the document
/// and `k`.
#[verifier::external_body]
fn xml_next<'a>(c: &mut XmlCursor<'a>) -> (e: XmlEvent)
    ensures
        final(c)@ == (old(c)@.0, old(c)@.1 + 1),
        e@ == xml_event(old(c)@.0, old(c)@.1),
{
    let e = match c.reader.read_event() {
        Ok(quick_xml::events::Event::Start(t)) | Ok(quick_xml::events::Event::Empty(t)) => XmlEvent::Element(
            t.attributes().filter_map(|a| a.ok()).map(|a| (
                String::from_utf8_lossy(a.key.as_ref()).to_string(),
                String::from_utf8_lossy(a.value.as_ref()).to_string(),
            )).collect(),
        ),
        Ok(quick_xml::events::Event::Eof) | Err(_) => XmlEvent::End,
        Ok(_) => XmlEvent::Other,
    };
    c.read = Ghost(c.read@ + 1);
    e
}

/// The elements among the events from the `k`-th up to the `limit`-th or
/// the end of the document, whichever comes first.
pub open spec fn elements_from(doc: Seq<char>, k: nat, limit: nat) -> Seq<
    Seq<(Seq<char>, Seq<char>)>,
>
    decreases limit - k,
{
    if k >= limit {
        Seq::empty()
    } else {
        match xml_event(doc, k) {
            XmlEventView::End => Seq::empty(),
            XmlEventView::Element(attrs) => seq![attrs] + elements_from(doc, k + 1, limit),
            XmlEventView::Other => elements_from(doc, k + 1, limit),
        }
    }
}

/// Finds the rectangle of the element a selector picks in a view
/// hierarchy: reads the elements up to the end of the document (or the
/// first error), then picks as `select_element` does.
///
/// Every event the reader yields before the end takes up at least one byte
/// of the text, so at most as many events as the text has bytes are read.
pub fn find_element(xml: &str, selector: &Selector) -> (r: Option<Bounds>)
    ensures
        r == select_from(elements_from(xml@, 0, xml.len() as nat), selector@, 0),
{
    let mut cursor = xml_reader(xml);
    let mut elements: Vec<Vec<(String, String)>> = Vec::new();
    let limit = xml.len();
    let ghost all = elements_from(xml@, 0, limit as nat);
    let mut read: usize = 0;
    let mut done = false;
    assert(elements_view(elements@) + elements_from(xml@, 0, limit as nat) =~= all);
    while read < limit && !done
        invariant
            read <= limit,
            limit == xml.len(),
            all == elements_from(xml@, 0, limit as nat),
            cursor@ == (xml@, read as nat),
            done ==> elements_view(elements@) == all,
            !done ==> elements_view(elements@) + elements_from(xml@, read as nat, limit as nat)
                == all,
        decreases limit - read,
    {
        let ghost before = elements_view(elements@);
        let ghost rest = elements_from(xml@, read as nat + 1, limit as nat);
        match xml_next(&mut cursor) {
            XmlEvent::Element(attrs) => {
                let ghost a = attrs_view(attrs@);
                elements.push(attrs);
                assert(elements_view(elements@) =~= before.push(a));
                assert(before + (seq![a] + rest) =~= before.push(a) + rest);
            },
            XmlEvent::Other => {},
            XmlEvent::End => {
                assert(before + Seq::<Seq<(Seq<char>, Seq<char>)>>::empty() =~= before);
                done = true;
            },
        }
        read += 1;
    }
    if !done {
        assert(elements_view(elements@) + elements_from(xml@, read as nat, limit as nat)
            =~= elements_view(elements@));
    }
    select_element(&elements, selector)
}

// ----------------------------------------------------------------------------
// Tapping
/// The message of a tap whose element is not there.
pub open spec fn tap_not_found_reason(s: DeviceSelectorView) -> Seq<char> {
    "tap: element not found: "@ + selector_fields_debug(s.text, s.id, s.index)
}

/// Where a tap on the selected element lands: the center of its rectangle;
/// an element that is not there is an error.
pub fn tap_target(xml: &str, selector: &Selector) -> (r: Result<(u32, u32), TransportError>)
    ensures
        match select_from(elements_from(xml@, 0, xml.len() as nat), selector@, 0) {
            Some(b) => r == Ok::<(u32, u32), TransportError>(
                ((b.x + b.width / 2) as u32, (b.y + b.height / 2) as u32),
            ),
            None => r matches Err(TransportError::ElementNotFound { reason }) && reason@
                == tap_not_found_reason(selector@),
        },
{
    match find_element(xml, selector) {
        Some(b) => {
            proof {
                lemma_selected_fits(elements_from(xml@, 0, xml.len() as nat), selector@, 0);
            }
            Ok(b.center())
        },
        None => {
            let mut reason = string_from("tap: element not found: ");
            append_selector_fields_debug(&mut reason, &selector.text, &selector.id, selector.index);
            Err(TransportError::ElementNotFound { reason })
        },
    }
}

/// A selected rectangle stays on the `u32` plane.
pub proof fn lemma_selected_fits(
    elements: Seq<Seq<(Seq<char>, Seq<char>)>>,
    s: DeviceSelectorView,
    count: nat,
)
    ensures
        select_from(elements, s, count) matches Some(b) ==> bounds_fit(b),
    decreases elements.len(),
{
    if elements.len() > 0 {
        if element_matches(elements[0], s) && count != s.index {
            lemma_selected_fits(elements.drop_first(), s, count + 1);
        } else if !element_matches(elements[0], s) {
            lemma_selected_fits(elements.drop_first(), s, count);
        }
    }
}

} // verus!
