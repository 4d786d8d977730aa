//! Tileset loader: consumes the event stream of the structured-markup
//! reader and drives tile registration and adjacency resolution.
//!
//! The reader itself is an outside collaborator: it turns the input bytes
//! into a flat sequence of element-start / element-end events, which this
//! module reduces to plain values and then processes with a small state
//! machine (root element `set`, container elements `tiles` and `neighbors`,
//! leaf elements `tile` and `neighbor`).

use vstd::prelude::*;

use xml::reader::ErrorKind;
use xml::reader::EventReader;
use xml::reader::XmlEvent;

use crate::symmetry::SymmetryClass;
use crate::tileset::spec_expanded;
use crate::tileset::spec_find_name;
use crate::tileset::spec_registered;
use crate::tileset::RegisterOutcome;
use crate::tileset::Tileset;
use crate::text::is_digit;
use crate::text::next_non_space;
use crate::text::next_space;
use crate::text::parse_usize;
use crate::text::str_eq;

verus! {

/// One event of the structured-markup reader, reduced to plain values.
#[derive(Debug)]
pub enum TileEvent {
    /// An element opens: its name, then its attributes as name/value pairs
    /// in document order.
    ElementStart(String, Vec<(String, String)>),
    /// An element closes.
    ElementEnd(String),
    /// Clean end of the document.
    DocumentEnd,
    /// The input ended while elements were still open; a load finalizes
    /// with whatever was consumed.
    Truncated,
    /// A low-level syntax error: the document is malformed and the load
    /// fails.
    Malformed,
    /// Any other reader event; carries nothing the model needs.
    Other,
}

/// A recoverable problem found during a load: the declaration at fault is
/// skipped (or patched, where the description says so) and the load goes
/// on.
#[derive(Clone, Debug, PartialEq, Eq)]
pub enum Warning {
    /// A tile node without a `name` or `symmetry` attribute.
    IncompleteTile,
    /// A tile name that is already registered.
    DuplicateTile(String),
    /// An unrecognized symmetry tag; the tile falls back to full symmetry.
    UnknownSymmetry(String),
    /// A `weight` attribute that is not a positive decimal number.
    InvalidWeight(String),
    /// The global orientation index space (bounded by `usize`) is
    /// exhausted; the tile is skipped.
    CapacityExceeded,
    /// A neighbor node whose `left` or `right` attribute is missing or
    /// holds no tile name.
    NeighbourSideMissing,
    /// A neighbor case number that is not a number `usize` can hold.
    InvalidCaseNumber(String),
    /// A neighbor declaration referencing an unregistered tile name.
    UnknownTileReference(String),
    /// A neighbor case number at or above the referenced tile's
    /// cardinality.
    CaseOutOfRange(String),
    /// An unrecognized element inside a recognized section.
    UnknownElement(String),
    /// An unrecognized attribute on a tile or neighbor node.
    UnknownAttribute(String),
    /// The input ended early; the load finalized with what was consumed.
    TruncatedInput,
}

/// A fatal load failure, surfaced to the caller: nothing is returned.
#[derive(Clone, Copy, Debug, PartialEq, Eq, Structural)]
pub enum ParseError {
    /// The event stream reported a malformed document.
    Malformed,
}

/// What the structured-markup reader yields on the given input bytes: the
/// document's events in order, reduced to plain values, ending with the
/// first of `DocumentEnd`, `Truncated` or `Malformed`.
pub uninterp spec fn xml_events_of(bytes: Seq<u8>) -> Seq<TileEvent>;

/// The attribute type of the outside reader, carried only between the two
/// trusted functions below.
#[verifier::external_type_specification]
#[verifier::external_body]
pub struct ExOwnedAttribute(xml::attribute::OwnedAttribute);

/// Relies on `xml::attribute::OwnedAttribute`: reduces each attribute to
/// its local name and its value, in order.
#[verifier::external_body]
fn attr_pairs(attrs: Vec<xml::attribute::OwnedAttribute>) -> Vec<(String, String)> {
    attrs.into_iter().map(|a| (a.name.local_name, a.value)).collect()
}

/// Relies on `xml::reader::EventReader`: `next` yields the document's
/// events in order and, after an `EndDocument` or an error, that same
/// outcome forever, so the collection stops at the first of them. An input
/// that ends early is reported as an `UnexpectedEof` error kind (the bytes
/// stop inside one character), or as a syntax error whose message starts
/// with `Unexpected end of stream` (they stop inside the document) or with
/// `Unclosed <![CDATA[` (inside a character-data section); any other error
/// means a malformed document. The events are a function of the input
/// bytes alone.
#[verifier::external_body]
fn read_events(bytes: &[u8]) -> (r: Vec<TileEvent>)
    ensures
        r@ == xml_events_of(bytes@),
{
    let mut reader = EventReader::new(bytes);
    let mut out = vec![];
    loop {
        let (ev, stop) = match reader.next() {
            Ok(XmlEvent::StartElement { name, attributes, .. }) => (TileEvent::ElementStart(name.local_name, attr_pairs(attributes)), false),
            Ok(XmlEvent::EndElement { name }) => (TileEvent::ElementEnd(name.local_name), false),
            Ok(XmlEvent::EndDocument) => (TileEvent::DocumentEnd, true),
            Ok(_) => (TileEvent::Other, false),
            Err(e) => (match e.kind() { ErrorKind::UnexpectedEof => TileEvent::Truncated, ErrorKind::Syntax(m) if m.starts_with("Unexpected end of stream") || m.starts_with("Unclosed <![CDATA[") => TileEvent::Truncated, _ => TileEvent::Malformed }, true),
        };
        out.push(ev);
        if stop { return out; }
    }
}

/// One side of a neighbor declaration: a tile name, optionally followed by
/// a local orientation case number.
#[derive(Debug)]
pub enum NeighKind {
    Tile(String),
    Complex { tile: String, num: String },
}

impl NeighKind {
    /// The tile name of this side.
    pub open spec fn spec_tile(self) -> Seq<char> {
        match self {
            NeighKind::Tile(tile) => tile@,
            NeighKind::Complex { tile, .. } => tile@,
        }
    }

    /// The local case number this side denotes: `0` when no number is
    /// given, otherwise the value of the number text (or nothing, when
    /// that text is not a number `usize` can hold).
    pub open spec fn spec_num(self) -> Option<usize> {
        match self {
            NeighKind::Tile(_) => Some(0usize),
            NeighKind::Complex { num, .. } => if crate::text::all_digits(
                crate::text::digits_part(num@),
            ) && crate::text::digits_val(crate::text::digits_part(num@)) <= usize::MAX {
                Some(crate::text::digits_val(crate::text::digits_part(num@)) as usize)
            } else {
                None
            },
        }
    }

    pub fn tile(&self) -> (r: &String)
        ensures
            r@ == self.spec_tile(),
    {
        match self {
            NeighKind::Tile(tile) => tile,
            NeighKind::Complex { tile, .. } => tile,
        }
    }

    pub fn num(&self) -> (r: Option<usize>)
        ensures
            r == self.spec_num(),
    {
        match self {
            NeighKind::Tile(_) => Some(0),
            NeighKind::Complex { num, .. } => parse_usize(num.as_str()),
        }
    }
}

/// First index at or after `from` whose attribute name is `key` (or the
/// number of attributes, when none matches).
pub open spec fn spec_attr_index(attrs: Seq<(String, String)>, key: Seq<char>, from: int) -> int
    decreases attrs.len() - from,
    when 0 <= from <= attrs.len()
{
    if from >= attrs.len() {
        attrs.len() as int
    } else if attrs[from].0@ == key {
        from
    } else {
        spec_attr_index(attrs, key, from + 1)
    }
}

/// The value of the first attribute named `key`, if any.
pub open spec fn spec_find_attr(attrs: Seq<(String, String)>, key: Seq<char>) -> Option<String> {
    let i = spec_attr_index(attrs, key, 0);
    if i < attrs.len() {
        Some(attrs[i].1)
    } else {
        None
    }
}

/// Looks up the first attribute with the given name.
pub fn find_attr<'a>(attrs: &'a Vec<(String, String)>, key: &str) -> (r: Option<&'a String>)
    ensures
        match r {
            Some(v) => spec_find_attr(attrs@, key@) == Some(*v),
            None => spec_find_attr(attrs@, key@) is None,
        },
{
    let n = attrs.len();
    let mut i: usize = 0;
    while i < n
        invariant
            0 <= i <= n,
            n == attrs@.len(),
            spec_attr_index(attrs@, key@, 0) == spec_attr_index(attrs@, key@, i as int),
        decreases n - i,
    {
        if str_eq(attrs[i].0.as_str(), key) {
            return Some(&attrs[i].1);
        }
        i += 1;
    }
    None
}

/// Extracts the tile name and optional case number from a neighbor side
/// descriptor: the first whitespace-separated token is the tile name, the
/// second (if present) the case number text; anything further is ignored.
/// A descriptor with no token at all yields nothing.
pub fn extract_neighbour(text: &str) -> (r: Option<NeighKind>)
    ensures
        ({
            let s = text@;
            let a0 = next_non_space(s, 0);
            let e0 = next_space(s, a0);
            let a1 = next_non_space(s, e0);
            let e1 = next_space(s, a1);
            match r {
                None => a0 == s.len(),
                Some(nk) => match nk {
                    NeighKind::Tile(tile) => a0 < s.len() && a1 == s.len() && tile@ == s.subrange(
                        a0,
                        e0,
                    ),
                    NeighKind::Complex { tile, num } => a0 < s.len() && a1 < s.len() && tile@
                        == s.subrange(a0, e0) && num@ == s.subrange(a1, e1),
                },
            }
        }),
{
    let n = text.unicode_len();
    let a0 = scan_non_space(text, 0);
    if a0 == n {
        return None;
    }
    let e0 = scan_space(text, a0);
    let tile = text.substring_char(a0, e0).to_owned();
    let a1 = scan_non_space(text, e0);
    if a1 == n {
        return Some(NeighKind::Tile(tile));
    }
    let e1 = scan_space(text, a1);
    let num = text.substring_char(a1, e1).to_owned();
    Some(NeighKind::Complex { tile, num })
}

/// Index of the first exponent marker (`e` or `E`) at or after `from`, or
/// the length of `s` when there is none.
pub open spec fn next_exp(s: Seq<char>, from: int) -> int
    decreases s.len() - from,
    when 0 <= from <= s.len()
{
    if from >= s.len() || s[from] == 'e' || s[from] == 'E' {
        from
    } else {
        next_exp(s, from + 1)
    }
}

/// A number's significand: digits with at most one decimal point, and, for
/// the weight to denote a positive real, at least one digit that is not
/// zero.
pub open spec fn spec_valid_mantissa(s: Seq<char>) -> bool {
    &&& s.len() > 0
    &&& (forall|i: int| 0 <= i < s.len() ==> (is_digit(#[trigger] s[i]) || s[i] == '.'))
    &&& (forall|i: int, j: int|
        #![trigger s[i], s[j]]
        0 <= i < j < s.len() ==> !(s[i] == '.' && s[j] == '.'))
    &&& (exists|i: int| 0 <= i < s.len() && is_digit(#[trigger] s[i]) && s[i] != '0')
}

/// An exponent: one or more digits after an optional sign.
pub open spec fn spec_valid_exp(e: Seq<char>) -> bool {
    crate::text::all_digits(
        if e.len() > 0 && (e[0] == '+' || e[0] == '-') {
            e.drop_first()
        } else {
            e
        },
    )
}

/// A weight attribute must denote a positive real in the number forms the
/// standard float parser reads: an optional leading plus sign, a
/// significand of digits with at most one decimal point, and an optional
/// signed decimal exponent; positivity asks for a nonzero significand
/// digit.
pub open spec fn spec_valid_weight(s: Seq<char>) -> bool {
    let b = crate::text::digits_part(s);
    let k = next_exp(b, 0);
    &&& spec_valid_mantissa(b.take(k))
    &&& (k == b.len() || spec_valid_exp(b.subrange(k + 1, b.len() as int)))
}

/// Scans forward to the first exponent marker.
fn scan_exp(s: &str, from: usize) -> (r: usize)
    requires
        from <= s@.len(),
    ensures
        r == next_exp(s@, from as int),
        from <= r <= s@.len(),
{
    let n = s.unicode_len();
    let mut i = from;
    while i < n
        invariant
            from <= i <= n,
            n == s@.len(),
            next_exp(s@, from as int) == next_exp(s@, i as int),
        decreases n - i,
    {
        let c = s.get_char(i);
        if c == 'e' || c == 'E' {
            return i;
        }
        i += 1;
    }
    i
}

/// Checks the significand text against `spec_valid_mantissa`.
fn valid_mantissa(s: &str) -> (r: bool)
    ensures
        r == spec_valid_mantissa(s@),
{
    let n = s.unicode_len();
    if n == 0 {
        return false;
    }
    let mut seen_dot = false;
    let mut seen_nonzero = false;
    let mut i: usize = 0;
    while i < n
        invariant
            0 < n == s@.len(),
            0 <= i <= n,
            forall|k: int| 0 <= k < i ==> (is_digit(#[trigger] s@[k]) || s@[k] == '.'),
            seen_dot == exists|k: int| 0 <= k < i && (#[trigger] s@[k]) == '.',
            seen_nonzero == exists|k: int|
                0 <= k < i && is_digit(#[trigger] s@[k]) && s@[k] != '0',
            forall|k: int, l: int|
                #![trigger s@[k], s@[l]]
                0 <= k < l < i ==> !(s@[k] == '.' && s@[l] == '.'),
        decreases n - i,
    {
        let c = s.get_char(i);
        let u = c as u32;
        if c == '.' {
            if seen_dot {
                proof {
                    let k = choose|k: int| 0 <= k < i && (#[trigger] s@[k]) == '.';
                    assert(s@[k] == '.' && s@[i as int] == '.');
                }
                return false;
            }
            seen_dot = true;
        } else if 48 <= u && u <= 57 {
            if u != 48 {
                seen_nonzero = true;
            }
        } else {
            assert(!is_digit(s@[i as int]) && s@[i as int] != '.');
            return false;
        }
        i += 1;
    }
    seen_nonzero
}

/// Checks the weight text against `spec_valid_weight`.
pub fn valid_weight(s: &str) -> (r: bool)
    ensures
        r == spec_valid_weight(s@),
{
    let n = s.unicode_len();
    let start: usize = if n > 0 && s.get_char(0) == '+' {
        1
    } else {
        0
    };
    let b = s.substring_char(start, n);
    proof {
        assert(b@ =~= crate::text::digits_part(s@));
    }
    let bn = b.unicode_len();
    let k = scan_exp(b, 0);
    let m = b.substring_char(0, k);
    proof {
        assert(m@ =~= b@.take(k as int));
    }
    if !valid_mantissa(m) {
        return false;
    }
    if k == bn {
        return true;
    }
    let e = b.substring_char(k + 1, bn);
    let en = e.unicode_len();
    let estart: usize = if en > 0 && {
        let c = e.get_char(0);
        c == '+' || c == '-'
    } {
        1
    } else {
        0
    };
    let d = e.substring_char(estart, en);
    proof {
        if estart == 1 {
            assert(d@ =~= e@.drop_first());
        } else {
            assert(d@ =~= e@);
        }
    }
    crate::text::digits_only(d)
}

/// The warnings the unrecognized attributes of a tile node produce, in
/// document order (`name`, `symmetry` and `weight` are recognized).
pub open spec fn spec_tile_attr_warnings(attrs: Seq<(String, String)>) -> Seq<Warning>
    decreases attrs.len(),
{
    if attrs.len() == 0 {
        Seq::empty()
    } else {
        let front = spec_tile_attr_warnings(attrs.drop_last());
        let key = attrs.last().0@;
        if key == "name"@ || key == "symmetry"@ || key == "weight"@ {
            front
        } else {
            front.push(Warning::UnknownAttribute(attrs.last().0))
        }
    }
}

/// The warnings the unrecognized attributes of a neighbor node produce, in
/// document order (`left` and `right` are recognized).
pub open spec fn spec_neigh_attr_warnings(attrs: Seq<(String, String)>) -> Seq<Warning>
    decreases attrs.len(),
{
    if attrs.len() == 0 {
        Seq::empty()
    } else {
        let front = spec_neigh_attr_warnings(attrs.drop_last());
        let key = attrs.last().0@;
        if key == "left"@ || key == "right"@ {
            front
        } else {
            front.push(Warning::UnknownAttribute(attrs.last().0))
        }
    }
}

/// Scans forward to the first non-space character.
fn scan_non_space(s: &str, from: usize) -> (r: usize)
    requires
        from <= s@.len(),
    ensures
        r == next_non_space(s@, from as int),
        from <= r <= s@.len(),
{
    let n = s.unicode_len();
    let mut i = from;
    while i < n
        invariant
            from <= i <= n,
            n == s@.len(),
            next_non_space(s@, from as int) == next_non_space(s@, i as int),
        decreases n - i,
    {
        if !crate::text::is_space_char(s.get_char(i)) {
            return i;
        }
        i += 1;
    }
    i
}

/// Scans forward to the first space character.
fn scan_space(s: &str, from: usize) -> (r: usize)
    requires
        from <= s@.len(),
    ensures
        r == next_space(s@, from as int),
        from <= r <= s@.len(),
{
    let n = s.unicode_len();
    let mut i = from;
    while i < n
        invariant
            from <= i <= n,
            n == s@.len(),
            next_space(s@, from as int) == next_space(s@, i as int),
        decreases n - i,
    {
        if crate::text::is_space_char(s.get_char(i)) {
            return i;
        }
        i += 1;
    }
    i
}

/// Start of a side descriptor's first token (its tile name).
pub open spec fn spec_side_name_start(s: Seq<char>) -> int {
    next_non_space(s, 0)
}

/// The tile name a side descriptor holds.
pub open spec fn spec_side_name(s: Seq<char>) -> Seq<char> {
    s.subrange(spec_side_name_start(s), next_space(s, spec_side_name_start(s)))
}

/// Start of a side descriptor's second token (its case number), or the
/// descriptor's length when there is none.
pub open spec fn spec_side_num_start(s: Seq<char>) -> int {
    next_non_space(s, next_space(s, spec_side_name_start(s)))
}

/// The case-number text of a side descriptor.
pub open spec fn spec_side_num_text(s: Seq<char>) -> Seq<char> {
    s.subrange(spec_side_num_start(s), next_space(s, spec_side_num_start(s)))
}

/// The local case number a side descriptor denotes: `0` when no second
/// token is present, else the value of that token (or nothing when it is
/// not a number `usize` can hold).
pub open spec fn spec_side_case(s: Seq<char>) -> Option<int> {
    if spec_side_num_start(s) == s.len() {
        Some(0int)
    } else if crate::text::all_digits(crate::text::digits_part(spec_side_num_text(s)))
        && crate::text::digits_val(crate::text::digits_part(spec_side_num_text(s)))
        <= usize::MAX {
        Some(crate::text::digits_val(crate::text::digits_part(spec_side_num_text(s))))
    } else {
        None
    }
}

/// A side is missing when its attribute is absent or its value holds no
/// tile name at all.
pub open spec fn spec_side_missing(v: Option<String>) -> bool {
    match v {
        None => true,
        Some(s) => spec_side_name_start(s@) == s@.len(),
    }
}

/// `w1` is `base` plus exactly one warning.
pub open spec fn spec_one_warning(w1: Seq<Warning>, base: Seq<Warning>) -> bool {
    w1.len() == base.len() + 1 && w1.take(base.len() as int) == base
}

/// The effect of one tile declaration with resolved attribute values: an
/// unrecognized symmetry tag warns and falls back to full symmetry; an
/// invalid weight, a duplicate name or an exhausted index space warn and
/// register nothing; otherwise the tile is registered.
pub open spec fn spec_tile_decl_effect(
    ts0: Tileset,
    ts1: Tileset,
    w0: Seq<Warning>,
    w1: Seq<Warning>,
    tilename: String,
    symmetry: String,
    weight: String,
) -> bool {
    let class = crate::symmetry::spec_class_of_tag(symmetry@);
    let base = w0 + (if crate::symmetry::spec_tag_recognized(symmetry@) {
        Seq::<Warning>::empty()
    } else {
        seq![Warning::UnknownSymmetry(symmetry)]
    });
    if !spec_valid_weight(weight@) {
        ts1 == ts0 && w1 == base.push(Warning::InvalidWeight(weight))
    } else if spec_find_name(ts0.offsets@, tilename@) is Some {
        ts1 == ts0 && w1 == base.push(Warning::DuplicateTile(tilename))
    } else if ts0.action@.len() + 8 > usize::MAX {
        ts1 == ts0 && w1 == base.push(Warning::CapacityExceeded)
    } else {
        spec_registered(ts0, ts1, tilename, class, weight) && w1 == base
    }
}

/// The effect of one tile node: warnings for its unrecognized attributes,
/// then either the incomplete-node warning (no `name` or no `symmetry`
/// attribute) or one tile declaration, its weight defaulting to `1.0` when
/// the attribute is absent.
pub open spec fn spec_tile_node_effect(
    ts0: Tileset,
    ts1: Tileset,
    w0: Seq<Warning>,
    w1: Seq<Warning>,
    attrs: Seq<(String, String)>,
) -> bool {
    let name_v = spec_find_attr(attrs, "name"@);
    let sym_v = spec_find_attr(attrs, "symmetry"@);
    let weight_v = spec_find_attr(attrs, "weight"@);
    let base = w0 + spec_tile_attr_warnings(attrs);
    if name_v is None || sym_v is None {
        ts1 == ts0 && w1 == base.push(Warning::IncompleteTile)
    } else {
        exists|w: String|
            #![auto]
            w@ == (if weight_v is Some {
                weight_v->Some_0@
            } else {
                "1.0"@
            }) && spec_tile_decl_effect(ts0, ts1, base, w1, name_v->Some_0, sym_v->Some_0, w)
    }
}

/// The effect of one neighbor declaration: the first failing check (a
/// missing side, an unreadable case number, an unregistered tile name, a
/// case at or above the tile's cardinality — left side first) warns and
/// adds no edge; a declaration that resolves on both sides appends exactly
/// the four expanded edges.
pub open spec fn spec_neigh_decl_effect(
    ts0: Tileset,
    ts1: Tileset,
    w0: Seq<Warning>,
    w1: Seq<Warning>,
    attrs: Seq<(String, String)>,
) -> bool {
    let base = w0 + spec_neigh_attr_warnings(attrs);
    let lv = spec_find_attr(attrs, "left"@);
    let rv = spec_find_attr(attrs, "right"@);
    if spec_side_missing(lv) || spec_side_missing(rv) {
        ts1 == ts0 && w1 == base.push(Warning::NeighbourSideMissing)
    } else {
        let ls = lv->Some_0@;
        let rs = rv->Some_0@;
        let lname = spec_side_name(ls);
        let rname = spec_side_name(rs);
        if spec_side_case(ls) is None {
            ts1 == ts0 && spec_one_warning(w1, base) && (match w1.last() {
                Warning::InvalidCaseNumber(n) => n@ == spec_side_num_text(ls),
                _ => false,
            })
        } else if spec_side_case(rs) is None {
            ts1 == ts0 && spec_one_warning(w1, base) && (match w1.last() {
                Warning::InvalidCaseNumber(n) => n@ == spec_side_num_text(rs),
                _ => false,
            })
        } else if spec_find_name(ts0.offsets@, lname) is None {
            ts1 == ts0 && spec_one_warning(w1, base) && (match w1.last() {
                Warning::UnknownTileReference(n) => n@ == lname,
                _ => false,
            })
        } else if spec_side_case(ls)->Some_0 >= spec_find_name(
            ts0.offsets@,
            lname,
        )->Some_0.cardinality {
            ts1 == ts0 && spec_one_warning(w1, base) && (match w1.last() {
                Warning::CaseOutOfRange(n) => n@ == lname,
                _ => false,
            })
        } else if spec_find_name(ts0.offsets@, rname) is None {
            ts1 == ts0 && spec_one_warning(w1, base) && (match w1.last() {
                Warning::UnknownTileReference(n) => n@ == rname,
                _ => false,
            })
        } else if spec_side_case(rs)->Some_0 >= spec_find_name(
            ts0.offsets@,
            rname,
        )->Some_0.cardinality {
            ts1 == ts0 && spec_one_warning(w1, base) && (match w1.last() {
                Warning::CaseOutOfRange(n) => n@ == rname,
                _ => false,
            })
        } else {
            w1 == base && spec_expanded(
                ts0,
                ts1,
                spec_find_name(ts0.offsets@, lname)->Some_0.offset + spec_side_case(ls)->Some_0,
                spec_find_name(ts0.offsets@, rname)->Some_0.offset + spec_side_case(rs)->Some_0,
            )
        }
    }
}

/// Current state of the parser as it traverses the markup tree.
#[derive(Clone, Copy, Debug, PartialEq, Eq, Structural)]
pub enum XmlState {
    Off,
    Root,
    Tiles,
    Neighbours,
}

/// The model builder: a state stack for the section structure, the tileset
/// being built and the warnings collected so far. Each load uses its own
/// parser, so two concurrent loads never interleave index assignment.
pub struct XmlParser {
    pub stack: Vec<XmlState>,
    pub tileset: Tileset,
    pub warnings: Vec<Warning>,
}

impl XmlParser {
    /// The machine state a fresh parser starts from: outside any section,
    /// nothing built, nothing to warn about.
    pub open spec fn spec_init(self) -> bool {
        &&& self.stack@ =~= seq![XmlState::Off]
        &&& self.tileset.spec_is_empty()
        &&& self.warnings@.len() == 0
    }

    pub fn new() -> (r: XmlParser)
        ensures
            r.tileset.wf(),
            r.spec_init(),
    {
        XmlParser { stack: vec![XmlState::Off], tileset: Tileset::default(), warnings: Vec::new() }
    }

    /// The state on top of the stack (`Off` when the stack is empty).
    pub open spec fn spec_state(self) -> XmlState {
        if self.stack@.len() == 0 {
            XmlState::Off
        } else {
            self.stack@.last()
        }
    }

    pub fn state(&self) -> (s: XmlState)
        ensures
            s == self.spec_state(),
    {
        if self.stack.len() == 0 {
            XmlState::Off
        } else {
            self.stack[self.stack.len() - 1]
        }
    }

    pub fn push(&mut self, state: XmlState)
        ensures
            final(self).stack@ == old(self).stack@.push(state),
            final(self).tileset == old(self).tileset,
            final(self).warnings@ == old(self).warnings@,
    {
        self.stack.push(state)
    }

    pub fn pop(&mut self) -> (s: XmlState)
        ensures
            final(self).tileset == old(self).tileset,
            final(self).warnings@ == old(self).warnings@,
            old(self).stack@.len() == 0 ==> final(self).stack@ == old(self).stack@ && s
                == XmlState::Off,
            old(self).stack@.len() > 0 ==> final(self).stack@ == old(self).stack@.drop_last() && s
                == old(self).stack@.last(),
    {
        match self.stack.pop() {
            Some(s) => s,
            None => XmlState::Off,
        }
    }

    /// Warns once for each attribute of a tile node that is not `name`,
    /// `symmetry` or `weight`.
    fn warn_tile_attrs(&mut self, attrs: &Vec<(String, String)>)
        ensures
            final(self).stack@ == old(self).stack@,
            final(self).tileset == old(self).tileset,
            final(self).warnings@ == old(self).warnings@ + spec_tile_attr_warnings(attrs@),
    {
        let n = attrs.len();
        proof {
            assert(attrs@.take(0) =~= Seq::<(String, String)>::empty());
            assert(self.warnings@ =~= old(self).warnings@ + spec_tile_attr_warnings(attrs@.take(0)));
        }
        let mut i: usize = 0;
        while i < n
            invariant
                0 <= i <= n,
                n == attrs@.len(),
                self.stack@ == old(self).stack@,
                self.tileset == old(self).tileset,
                self.warnings@ == old(self).warnings@ + spec_tile_attr_warnings(
                    attrs@.take(i as int),
                ),
            decreases n - i,
        {
            proof {
                assert(attrs@.take(i + 1).drop_last() =~= attrs@.take(i as int));
                assert(attrs@.take(i + 1).last() == attrs@[i as int]);
            }
            let k = &attrs[i].0;
            if !(str_eq(k.as_str(), "name") || str_eq(k.as_str(), "symmetry") || str_eq(
                k.as_str(),
                "weight",
            )) {
                self.warnings.push(Warning::UnknownAttribute(attrs[i].0.clone()));
                proof {
                    assert(self.warnings@ =~= old(self).warnings@ + spec_tile_attr_warnings(
                        attrs@.take(i + 1),
                    ));
                }
            }
            i += 1;
        }
        proof {
            assert(attrs@.take(n as int) =~= attrs@);
        }
    }

    /// Warns once for each attribute of a neighbor node that is not `left`
    /// or `right`.
    fn warn_neigh_attrs(&mut self, attrs: &Vec<(String, String)>)
        ensures
            final(self).stack@ == old(self).stack@,
            final(self).tileset == old(self).tileset,
            final(self).warnings@ == old(self).warnings@ + spec_neigh_attr_warnings(attrs@),
    {
        let n = attrs.len();
        proof {
            assert(attrs@.take(0) =~= Seq::<(String, String)>::empty());
            assert(self.warnings@ =~= old(self).warnings@ + spec_neigh_attr_warnings(
                attrs@.take(0),
            ));
        }
        let mut i: usize = 0;
        while i < n
            invariant
                0 <= i <= n,
                n == attrs@.len(),
                self.stack@ == old(self).stack@,
                self.tileset == old(self).tileset,
                self.warnings@ == old(self).warnings@ + spec_neigh_attr_warnings(
                    attrs@.take(i as int),
                ),
            decreases n - i,
        {
            proof {
                assert(attrs@.take(i + 1).drop_last() =~= attrs@.take(i as int));
                assert(attrs@.take(i + 1).last() == attrs@[i as int]);
            }
            let k = &attrs[i].0;
            if !(str_eq(k.as_str(), "left") || str_eq(k.as_str(), "right")) {
                self.warnings.push(Warning::UnknownAttribute(attrs[i].0.clone()));
                proof {
                    assert(self.warnings@ =~= old(self).warnings@ + spec_neigh_attr_warnings(
                        attrs@.take(i + 1),
                    ));
                }
            }
            i += 1;
        }
        proof {
            assert(attrs@.take(n as int) =~= attrs@);
        }
    }

    /// Adds a tile into the set: resolves the symmetry tag (falling back
    /// to full symmetry with a warning when unrecognized), validates the
    /// weight text and registers the tile; a duplicate name or an
    /// exhausted index space registers nothing and warns.
    pub fn create_tile(&mut self, tilename: &String, symmetry: &String, weight: &String)
        requires
            old(self).tileset.wf(),
        ensures
            final(self).tileset.wf(),
            final(self).stack@ == old(self).stack@,
            spec_tile_decl_effect(
                old(self).tileset,
                final(self).tileset,
                old(self).warnings@,
                final(self).warnings@,
                *tilename,
                *symmetry,
                *weight,
            ),
    {
        let (class, recognized) = SymmetryClass::from_tag(symmetry.as_str());
        if !recognized {
            self.warnings.push(Warning::UnknownSymmetry(symmetry.clone()));
            proof {
                assert(self.warnings@ =~= old(self).warnings@ + seq![
                    Warning::UnknownSymmetry(*symmetry),
                ]);
            }
        } else {
            proof {
                assert(self.warnings@ =~= old(self).warnings@ + Seq::<Warning>::empty());
            }
        }
        if !valid_weight(weight.as_str()) {
            self.warnings.push(Warning::InvalidWeight(weight.clone()));
            return;
        }
        match self.tileset.register(tilename.clone(), class, weight.clone()) {
            RegisterOutcome::Registered => {},
            RegisterOutcome::DuplicateName => {
                self.warnings.push(Warning::DuplicateTile(tilename.clone()));
            },
            RegisterOutcome::CapacityExceeded => {
                self.warnings.push(Warning::CapacityExceeded);
            },
        }
    }

    /// Processes a tile node: warns about unrecognized attributes, then
    /// requires `name` and `symmetry` (an incomplete node is skipped with
    /// a warning) and registers the tile; an absent weight defaults to
    /// `1.0`.
    pub fn handle_tile(&mut self, attributes: &Vec<(String, String)>)
        requires
            old(self).tileset.wf(),
        ensures
            final(self).tileset.wf(),
            final(self).stack@ == old(self).stack@,
            spec_tile_node_effect(
                old(self).tileset,
                final(self).tileset,
                old(self).warnings@,
                final(self).warnings@,
                attributes@,
            ),
    {
        self.warn_tile_attrs(attributes);
        let tilename = find_attr(attributes, "name");
        let symmetry = find_attr(attributes, "symmetry");
        let ghost base = old(self).warnings@ + spec_tile_attr_warnings(attributes@);
        match (tilename, symmetry) {
            (Some(t), Some(s)) => {
                match find_attr(attributes, "weight") {
                    Some(w) => {
                        let w2 = w.clone();
                        self.create_tile(t, s, &w2);
                        proof {
                            assert(spec_tile_decl_effect(
                                old(self).tileset,
                                self.tileset,
                                base,
                                self.warnings@,
                                spec_find_attr(attributes@, "name"@)->Some_0,
                                spec_find_attr(attributes@, "symmetry"@)->Some_0,
                                w2,
                            ));
                        }
                    },
                    None => {
                        let w2 = String::from_str("1.0");
                        self.create_tile(t, s, &w2);
                        proof {
                            assert(spec_tile_decl_effect(
                                old(self).tileset,
                                self.tileset,
                                base,
                                self.warnings@,
                                spec_find_attr(attributes@, "name"@)->Some_0,
                                spec_find_attr(attributes@, "symmetry"@)->Some_0,
                                w2,
                            ));
                        }
                    },
                }
            },
            _ => {
                self.warnings.push(Warning::IncompleteTile);
                proof {
                    assert(self.warnings@ =~= base.push(Warning::IncompleteTile));
                }
            },
        }
    }

    /// Processes a neighbor node: resolves both side descriptors through
    /// the name index into global orientation indices and appends the four
    /// expanded edges; the first failing check (left side first) warns and
    /// appends nothing.
    pub fn handle_neighbour(&mut self, attributes: &Vec<(String, String)>)
        requires
            old(self).tileset.wf(),
        ensures
            final(self).tileset.wf(),
            final(self).stack@ == old(self).stack@,
            spec_neigh_decl_effect(
                old(self).tileset,
                final(self).tileset,
                old(self).warnings@,
                final(self).warnings@,
                attributes@,
            ),
    {
        self.warn_neigh_attrs(attributes);
        let ghost base = old(self).warnings@ + spec_neigh_attr_warnings(attributes@);
        let left_extracted = match find_attr(attributes, "left") {
            Some(v) => extract_neighbour(v.as_str()),
            None => None,
        };
        let right_extracted = match find_attr(attributes, "right") {
            Some(v) => extract_neighbour(v.as_str()),
            None => None,
        };
        let (lk, rk) = match (left_extracted, right_extracted) {
            (Some(l), Some(r)) => (l, r),
            _ => {
                self.warnings.push(Warning::NeighbourSideMissing);
                proof {
                    assert(self.warnings@ =~= base.push(Warning::NeighbourSideMissing));
                }
                return ;
            },
        };
        let lcase: usize;
        match lk.num() {
            Some(v) => {
                lcase = v;
            },
            None => {
                proof {
                    let ls = spec_find_attr(attributes@, "left"@)->Some_0@;
                    assert(spec_side_num_start(ls) < ls.len());
                    assert(spec_side_case(ls) is None);
                }
                match &lk {
                    NeighKind::Complex { num, .. } => {
                        self.warnings.push(Warning::InvalidCaseNumber(num.clone()));
                        proof {
                            assert(self.warnings@.take(base.len() as int) =~= base);
                        }
                    },
                    NeighKind::Tile(_) => {
                        proof {
                            assert(false);
                        }
                    },
                }
                return ;
            },
        }
        proof {
            let ls = spec_find_attr(attributes@, "left"@)->Some_0@;
            if spec_side_num_start(ls) < ls.len() && crate::text::all_digits(
                crate::text::digits_part(spec_side_num_text(ls)),
            ) {
                crate::text::lemma_digits_val_nonneg(crate::text::digits_part(
                    spec_side_num_text(ls),
                ));
            }
            assert(spec_side_case(ls) == Some(lcase as int));
        }
        let rcase: usize;
        match rk.num() {
            Some(v) => {
                rcase = v;
            },
            None => {
                proof {
                    let rs = spec_find_attr(attributes@, "right"@)->Some_0@;
                    assert(spec_side_num_start(rs) < rs.len());
                    assert(spec_side_case(rs) is None);
                }
                match &rk {
                    NeighKind::Complex { num, .. } => {
                        self.warnings.push(Warning::InvalidCaseNumber(num.clone()));
                        proof {
                            assert(self.warnings@.take(base.len() as int) =~= base);
                        }
                    },
                    NeighKind::Tile(_) => {
                        proof {
                            assert(false);
                        }
                    },
                }
                return ;
            },
        }
        proof {
            let rs = spec_find_attr(attributes@, "right"@)->Some_0@;
            if spec_side_num_start(rs) < rs.len() && crate::text::all_digits(
                crate::text::digits_part(spec_side_num_text(rs)),
            ) {
                crate::text::lemma_digits_val_nonneg(crate::text::digits_part(
                    spec_side_num_text(rs),
                ));
            }
            assert(spec_side_case(rs) == Some(rcase as int));
        }
        let lidx = match self.tileset.lookup(lk.tile()) {
            Some(i) => i,
            None => {
                self.warnings.push(Warning::UnknownTileReference(lk.tile().clone()));
                proof {
                    assert(self.warnings@.take(base.len() as int) =~= base);
                }
                return ;
            },
        };
        let loffset = self.tileset.offsets[lidx].offset;
        let lcard = self.tileset.offsets[lidx].cardinality;
        if lcase >= lcard {
            self.warnings.push(Warning::CaseOutOfRange(lk.tile().clone()));
            proof {
                assert(self.warnings@.take(base.len() as int) =~= base);
            }
            return ;
        }
        let ridx = match self.tileset.lookup(rk.tile()) {
            Some(i) => i,
            None => {
                self.warnings.push(Warning::UnknownTileReference(rk.tile().clone()));
                proof {
                    assert(self.warnings@.take(base.len() as int) =~= base);
                }
                return ;
            },
        };
        let roffset = self.tileset.offsets[ridx].offset;
        let rcard = self.tileset.offsets[ridx].cardinality;
        if rcase >= rcard {
            self.warnings.push(Warning::CaseOutOfRange(rk.tile().clone()));
            proof {
                assert(self.warnings@.take(base.len() as int) =~= base);
            }
            return ;
        }
        let table_len = self.tileset.action.len();
        proof {
            assert(self.tileset.offsets@[lidx as int].offset + self.tileset.offsets@[
                lidx as int
            ].cardinality <= table_len);
            assert(self.tileset.offsets@[ridx as int].offset + self.tileset.offsets@[
                ridx as int
            ].cardinality <= table_len);
        }
        let lglobal = loffset + lcase;
        let rglobal = roffset + rcase;
        self.tileset.expand_neighbour(lglobal, rglobal);
    }
}

/// Whether the event stream hits a malformed-document marker before its
/// first terminal event: exactly then a load fails.
pub open spec fn spec_fatal_before_end(evs: Seq<TileEvent>) -> bool
    decreases evs.len(),
{
    if evs.len() == 0 {
        false
    } else {
        match evs[0] {
            TileEvent::Malformed => true,
            TileEvent::DocumentEnd => false,
            TileEvent::Truncated => false,
            _ => spec_fatal_before_end(evs.drop_first()),
        }
    }
}

/// Whether the event stream ends in a truncated-input marker: the load
/// then finalizes with what was consumed and warns.
pub open spec fn spec_truncated_before_end(evs: Seq<TileEvent>) -> bool
    decreases evs.len(),
{
    if evs.len() == 0 {
        false
    } else {
        match evs[0] {
            TileEvent::Truncated => true,
            TileEvent::DocumentEnd => false,
            TileEvent::Malformed => false,
            _ => spec_truncated_before_end(evs.drop_first()),
        }
    }
}

/// Relates a machine state — the section stack, the tileset built so far
/// and the warnings collected so far — and the remaining events to a
/// finished tileset and warning list: one transition per event, mirroring
/// the state machine exactly, halting at the first terminal event. No
/// finished pair stands past a malformed marker. A tile node contributes
/// only inside the `tiles` section and a neighbor node only inside the
/// `neighbors` section; unrecognized elements inside recognized sections
/// warn, and everything else passes through untouched.
pub open spec fn spec_run(
    stack: Seq<XmlState>,
    ts: Tileset,
    ws: Seq<Warning>,
    evs: Seq<TileEvent>,
    ts1: Tileset,
    ws1: Seq<Warning>,
) -> bool
    decreases evs.len(), 0int,
{
    if evs.len() == 0 {
        ts1 == ts && ws1 == ws
    } else {
        let rest = evs.drop_first();
        let st = if stack.len() == 0 {
            XmlState::Off
        } else {
            stack.last()
        };
        match evs[0] {
            TileEvent::DocumentEnd => ts1 == ts && ws1 == ws,
            TileEvent::Truncated => ts1 == ts && ws1 == ws.push(Warning::TruncatedInput),
            TileEvent::Malformed => false,
            TileEvent::Other => spec_run(stack, ts, ws, rest, ts1, ws1),
            TileEvent::ElementStart(name, attrs) => match st {
                XmlState::Off => if name@ == "set"@ {
                    spec_run(stack.push(XmlState::Root), ts, ws, rest, ts1, ws1)
                } else {
                    spec_run(stack, ts, ws, rest, ts1, ws1)
                },
                XmlState::Root => if name@ == "tiles"@ {
                    spec_run(stack.push(XmlState::Tiles), ts, ws, rest, ts1, ws1)
                } else if name@ == "neighbors"@ {
                    spec_run(stack.push(XmlState::Neighbours), ts, ws, rest, ts1, ws1)
                } else {
                    spec_run(stack, ts, ws.push(Warning::UnknownElement(name)), rest, ts1, ws1)
                },
                XmlState::Tiles => if name@ == "tile"@ {
                    spec_run_tile(stack, ts, ws, attrs@, rest, ts1, ws1)
                } else {
                    spec_run(stack, ts, ws.push(Warning::UnknownElement(name)), rest, ts1, ws1)
                },
                XmlState::Neighbours => if name@ == "neighbor"@ {
                    spec_run_neigh(stack, ts, ws, attrs@, rest, ts1, ws1)
                } else {
                    spec_run(stack, ts, ws.push(Warning::UnknownElement(name)), rest, ts1, ws1)
                },
            },
            TileEvent::ElementEnd(name) => match st {
                XmlState::Tiles => if name@ == "tiles"@ {
                    spec_run(stack.drop_last(), ts, ws, rest, ts1, ws1)
                } else {
                    spec_run(stack, ts, ws, rest, ts1, ws1)
                },
                XmlState::Neighbours => if name@ == "neighbors"@ {
                    spec_run(stack.drop_last(), ts, ws, rest, ts1, ws1)
                } else {
                    spec_run(stack, ts, ws, rest, ts1, ws1)
                },
                XmlState::Root => if name@ == "set"@ {
                    spec_run(stack.drop_last(), ts, ws, rest, ts1, ws1)
                } else {
                    spec_run(stack, ts, ws, rest, ts1, ws1)
                },
                XmlState::Off => spec_run(stack, ts, ws, rest, ts1, ws1),
            },
        }
    }
}

/// One tile node inside the `tiles` section, then the rest of the run:
/// some intermediate state follows from the node's effect and finishes the
/// run.
pub open spec fn spec_run_tile(
    stack: Seq<XmlState>,
    ts: Tileset,
    ws: Seq<Warning>,
    attrs: Seq<(String, String)>,
    rest: Seq<TileEvent>,
    ts1: Tileset,
    ws1: Seq<Warning>,
) -> bool
    decreases rest.len(), 1int,
{
    exists|ts2: Tileset, ws2: Seq<Warning>|
        #![trigger spec_tile_node_effect(ts, ts2, ws, ws2, attrs)]
        #![trigger spec_run(stack, ts2, ws2, rest, ts1, ws1)]
        spec_tile_node_effect(ts, ts2, ws, ws2, attrs) && spec_run(stack, ts2, ws2, rest, ts1, ws1)
}

/// One neighbor node inside the `neighbors` section, then the rest of the
/// run.
pub open spec fn spec_run_neigh(
    stack: Seq<XmlState>,
    ts: Tileset,
    ws: Seq<Warning>,
    attrs: Seq<(String, String)>,
    rest: Seq<TileEvent>,
    ts1: Tileset,
    ws1: Seq<Warning>,
) -> bool
    decreases rest.len(), 1int,
{
    exists|ts2: Tileset, ws2: Seq<Warning>|
        #![trigger spec_neigh_decl_effect(ts, ts2, ws, ws2, attrs)]
        #![trigger spec_run(stack, ts2, ws2, rest, ts1, ws1)]
        spec_neigh_decl_effect(ts, ts2, ws, ws2, attrs) && spec_run(stack, ts2, ws2, rest, ts1, ws1)
}

/// A tile node processed inside the `tiles` section prepends its event to
/// a run of the machine.
proof fn lemma_run_prepend_tile(
    stack: Seq<XmlState>,
    ts0: Tileset,
    ws0: Seq<Warning>,
    ts2: Tileset,
    ws2: Seq<Warning>,
    evs: Seq<TileEvent>,
    out_ts: Tileset,
    out_ws: Seq<Warning>,
)
    requires
        evs.len() > 0,
        evs[0] is ElementStart,
        (if stack.len() == 0 {
            XmlState::Off
        } else {
            stack.last()
        }) == XmlState::Tiles,
        evs[0]->ElementStart_0@ == "tile"@,
        spec_tile_node_effect(ts0, ts2, ws0, ws2, evs[0]->ElementStart_1@),
        spec_run(stack, ts2, ws2, evs.drop_first(), out_ts, out_ws),
    ensures
        spec_run(stack, ts0, ws0, evs, out_ts, out_ws),
{
    let rest = evs.drop_first();
    assert(spec_run(stack, ts2, ws2, rest, out_ts, out_ws));
    assert(spec_run_tile(stack, ts0, ws0, evs[0]->ElementStart_1@, rest, out_ts, out_ws));
}

/// A neighbor node processed inside the `neighbors` section prepends its
/// event to a run of the machine.
proof fn lemma_run_prepend_neigh(
    stack: Seq<XmlState>,
    ts0: Tileset,
    ws0: Seq<Warning>,
    ts2: Tileset,
    ws2: Seq<Warning>,
    evs: Seq<TileEvent>,
    out_ts: Tileset,
    out_ws: Seq<Warning>,
)
    requires
        evs.len() > 0,
        evs[0] is ElementStart,
        (if stack.len() == 0 {
            XmlState::Off
        } else {
            stack.last()
        }) == XmlState::Neighbours,
        evs[0]->ElementStart_0@ == "neighbor"@,
        spec_neigh_decl_effect(ts0, ts2, ws0, ws2, evs[0]->ElementStart_1@),
        spec_run(stack, ts2, ws2, evs.drop_first(), out_ts, out_ws),
    ensures
        spec_run(stack, ts0, ws0, evs, out_ts, out_ws),
{
    let rest = evs.drop_first();
    assert(spec_run(stack, ts2, ws2, rest, out_ts, out_ws));
    assert(spec_run_neigh(stack, ts0, ws0, evs[0]->ElementStart_1@, rest, out_ts, out_ws));
}

impl XmlParser {
    /// Drives the state machine over a materialized event sequence: tile
    /// nodes are processed inside the `tiles` section, neighbor nodes
    /// inside the `neighbors` section; unrecognized elements inside
    /// recognized sections warn; everything else is ignored. A truncated
    /// stream finalizes with a warning; a malformed one fails the load.
    /// The returned tileset and warnings are exactly a run of the machine
    /// over the events from this parser's state, as `spec_run` states.
    #[verifier::loop_isolation(false)]
    #[verifier::rlimit(100)]
    #[verifier::spinoff_prover]
    pub fn parse(self, events: Vec<TileEvent>) -> (r: Result<
        (Tileset, Vec<Warning>),
        ParseError,
    >)
        requires
            self.tileset.wf(),
        ensures
            match r {
                Ok(p) => p.0.wf() && !spec_fatal_before_end(events@) && (spec_truncated_before_end(
                    events@,
                ) ==> p.1@.len() > 0 && p.1@.last() == Warning::TruncatedInput) && spec_run(
                    self.stack@,
                    self.tileset,
                    self.warnings@,
                    events@,
                    p.0,
                    p.1@,
                ),
                Err(e) => e == ParseError::Malformed && spec_fatal_before_end(events@),
            },
    {
        let mut me = self;
        let ghost s0_stack = me.stack@;
        let ghost s0_ts = me.tileset;
        let ghost s0_ws = me.warnings@;
        let n = events.len();
        proof {
            assert(events@.skip(0) =~= events@);
        }
        let mut i: usize = 0;
        while i < n
            invariant
                0 <= i <= n,
                n == events@.len(),
                me.tileset.wf(),
                spec_fatal_before_end(events@) == spec_fatal_before_end(events@.skip(i as int)),
                spec_truncated_before_end(events@) == spec_truncated_before_end(
                    events@.skip(i as int),
                ),
                forall|ts1: Tileset, ws1: Seq<Warning>|
                    #![trigger spec_run(me.stack@, me.tileset, me.warnings@, events@.skip(i as int), ts1, ws1)]
                    spec_run(me.stack@, me.tileset, me.warnings@, events@.skip(i as int), ts1, ws1)
                        ==> spec_run(s0_stack, s0_ts, s0_ws, events@, ts1, ws1),
            decreases n - i,
        {
            proof {
                assert(events@.skip(i as int).drop_first() =~= events@.skip(i as int + 1));
                assert(events@.skip(i as int)[0] == events@[i as int]);
            }
            let ghost pre_stack = me.stack@;
            let ghost pre_ts = me.tileset;
            let ghost pre_ws = me.warnings@;
            let ghost rest = events@.skip(i as int + 1);
            match &events[i] {
                TileEvent::ElementStart(name, attributes) => {
                    match me.state() {
                        XmlState::Off => {
                            if str_eq(name.as_str(), "set") {
                                me.push(XmlState::Root);
                            }
                            proof {
                                assert forall|ts1: Tileset, ws1: Seq<Warning>|
                                    spec_run(me.stack@, me.tileset, me.warnings@, rest, ts1, ws1)
                                        implies spec_run(
                                    pre_stack,
                                    pre_ts,
                                    pre_ws,
                                    events@.skip(i as int),
                                    ts1,
                                    ws1,
                                ) by {
                                    assert(events@.skip(i as int).drop_first() =~= rest);
                                }
                            }
                        },
                        XmlState::Root => {
                            if str_eq(name.as_str(), "tiles") {
                                me.push(XmlState::Tiles);
                            } else if str_eq(name.as_str(), "neighbors") {
                                me.push(XmlState::Neighbours);
                            } else {
                                me.warnings.push(Warning::UnknownElement(name.clone()));
                            }
                            proof {
                                assert forall|ts1: Tileset, ws1: Seq<Warning>|
                                    spec_run(me.stack@, me.tileset, me.warnings@, rest, ts1, ws1)
                                        implies spec_run(
                                    pre_stack,
                                    pre_ts,
                                    pre_ws,
                                    events@.skip(i as int),
                                    ts1,
                                    ws1,
                                ) by {
                                    assert(events@.skip(i as int).drop_first() =~= rest);
                                }
                            }
                        },
                        XmlState::Tiles => {
                            if str_eq(name.as_str(), "tile") {
                                me.handle_tile(attributes);
                                proof {
                                    assert(spec_tile_node_effect(
                                        pre_ts,
                                        me.tileset,
                                        pre_ws,
                                        me.warnings@,
                                        attributes@,
                                    ));
                                    assert forall|ts1: Tileset, ws1: Seq<Warning>|
                                        spec_run(me.stack@, me.tileset, me.warnings@, rest, ts1, ws1)
                                            implies spec_run(
                                        pre_stack,
                                        pre_ts,
                                        pre_ws,
                                        events@.skip(i as int),
                                        ts1,
                                        ws1,
                                    ) by {
                                        assert(events@.skip(i as int).drop_first() =~= rest);
                                        lemma_run_prepend_tile(
                                            pre_stack,
                                            pre_ts,
                                            pre_ws,
                                            me.tileset,
                                            me.warnings@,
                                            events@.skip(i as int),
                                            ts1,
                                            ws1,
                                        );
                                    }
                                }
                            } else {
                                me.warnings.push(Warning::UnknownElement(name.clone()));
                                proof {
                                    assert forall|ts1: Tileset, ws1: Seq<Warning>|
                                        spec_run(me.stack@, me.tileset, me.warnings@, rest, ts1, ws1)
                                            implies spec_run(
                                        pre_stack,
                                        pre_ts,
                                        pre_ws,
                                        events@.skip(i as int),
                                        ts1,
                                        ws1,
                                    ) by {
                                        assert(events@.skip(i as int).drop_first() =~= rest);
                                    }
                                }
                            }
                        },
                        XmlState::Neighbours => {
                            if str_eq(name.as_str(), "neighbor") {
                                me.handle_neighbour(attributes);
                                proof {
                                    assert(spec_neigh_decl_effect(
                                        pre_ts,
                                        me.tileset,
                                        pre_ws,
                                        me.warnings@,
                                        attributes@,
                                    ));
                                    assert forall|ts1: Tileset, ws1: Seq<Warning>|
                                        spec_run(me.stack@, me.tileset, me.warnings@, rest, ts1, ws1)
                                            implies spec_run(
                                        pre_stack,
                                        pre_ts,
                                        pre_ws,
                                        events@.skip(i as int),
                                        ts1,
                                        ws1,
                                    ) by {
                                        assert(events@.skip(i as int).drop_first() =~= rest);
                                        lemma_run_prepend_neigh(
                                            pre_stack,
                                            pre_ts,
                                            pre_ws,
                                            me.tileset,
                                            me.warnings@,
                                            events@.skip(i as int),
                                            ts1,
                                            ws1,
                                        );
                                    }
                                }
                            } else {
                                me.warnings.push(Warning::UnknownElement(name.clone()));
                                proof {
                                    assert forall|ts1: Tileset, ws1: Seq<Warning>|
                                        spec_run(me.stack@, me.tileset, me.warnings@, rest, ts1, ws1)
                                            implies spec_run(
                                        pre_stack,
                                        pre_ts,
                                        pre_ws,
                                        events@.skip(i as int),
                                        ts1,
                                        ws1,
                                    ) by {
                                        assert(events@.skip(i as int).drop_first() =~= rest);
                                    }
                                }
                            }
                        },
                    }
                },
                TileEvent::ElementEnd(name) => {
                    match me.state() {
                        XmlState::Tiles => {
                            if str_eq(name.as_str(), "tiles") {
                                me.pop();
                            }
                        },
                        XmlState::Neighbours => {
                            if str_eq(name.as_str(), "neighbors") {
                                me.pop();
                            }
                        },
                        XmlState::Root => {
                            if str_eq(name.as_str(), "set") {
                                me.pop();
                            }
                        },
                        XmlState::Off => {},
                    }
                    proof {
                        assert forall|ts1: Tileset, ws1: Seq<Warning>|
                            spec_run(me.stack@, me.tileset, me.warnings@, rest, ts1, ws1)
                                implies spec_run(
                            pre_stack,
                            pre_ts,
                            pre_ws,
                            events@.skip(i as int),
                            ts1,
                            ws1,
                        ) by {
                            assert(events@.skip(i as int).drop_first() =~= rest);
                            assert(spec_run(me.stack@, me.tileset, me.warnings@, events@.skip(
                                i as int,
                            ).drop_first(), ts1, ws1));
                        }
                    }
                },
                TileEvent::DocumentEnd => {
                    proof {
                        assert(spec_run(
                            pre_stack,
                            pre_ts,
                            pre_ws,
                            events@.skip(i as int),
                            me.tileset,
                            me.warnings@,
                        ));
                    }
                    return Ok((me.tileset, me.warnings));
                },
                TileEvent::Truncated => {
                    me.warnings.push(Warning::TruncatedInput);
                    proof {
                        assert(spec_run(
                            pre_stack,
                            pre_ts,
                            pre_ws,
                            events@.skip(i as int),
                            me.tileset,
                            me.warnings@,
                        ));
                    }
                    return Ok((me.tileset, me.warnings));
                },
                TileEvent::Malformed => {
                    return Err(ParseError::Malformed);
                },
                TileEvent::Other => {
                    proof {
                        assert forall|ts1: Tileset, ws1: Seq<Warning>|
                            spec_run(me.stack@, me.tileset, me.warnings@, rest, ts1, ws1)
                                implies spec_run(
                            pre_stack,
                            pre_ts,
                            pre_ws,
                            events@.skip(i as int),
                            ts1,
                            ws1,
                        ) by {
                            assert(events@.skip(i as int).drop_first() =~= rest);
                        }
                    }
                },
            }
            i += 1;
        }
        proof {
            assert(events@.skip(n as int).len() == 0);
            assert(spec_run(
                me.stack@,
                me.tileset,
                me.warnings@,
                events@.skip(n as int),
                me.tileset,
                me.warnings@,
            ));
        }
        Ok((me.tileset, me.warnings))
    }
}

/// Loads a tileset from the raw bytes of a markup document: the outside
/// reader turns the bytes into events, and the verified state machine
/// builds the model. On success the model is well-formed, it and the
/// warnings are exactly a run of the machine from a fresh state over the
/// document's events, and the warnings say which declarations were skipped
/// or patched; a malformed document yields a typed failure and nothing
/// else.
pub fn load_tileset(bytes: &[u8]) -> (r: Result<(Tileset, Vec<Warning>), ParseError>)
    ensures
        match r {
            Ok(p) => p.0.wf() && !spec_fatal_before_end(xml_events_of(bytes@)) && (
            spec_truncated_before_end(xml_events_of(bytes@)) ==> p.1@.len() > 0 && p.1@.last()
                == Warning::TruncatedInput) && (exists|p0: XmlParser|
                #![trigger spec_run(p0.stack@, p0.tileset, p0.warnings@, xml_events_of(bytes@), p.0, p.1@)]
                p0.spec_init() && spec_run(
                    p0.stack@,
                    p0.tileset,
                    p0.warnings@,
                    xml_events_of(bytes@),
                    p.0,
                    p.1@,
                )),
            Err(e) => e == ParseError::Malformed && spec_fatal_before_end(xml_events_of(bytes@)),
        },
{
    let events = read_events(bytes);
    let parser = XmlParser::new();
    let ghost p0 = parser;
    let r = parser.parse(events);
    proof {
        if r is Ok {
            let p = r->Ok_0;
            assert(spec_run(p0.stack@, p0.tileset, p0.warnings@, xml_events_of(bytes@), p.0, p.1@));
        }
    }
    r
}

} // verus!
