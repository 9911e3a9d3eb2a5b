//! The static rule tables: property renames, and (property, value)-keyed
//! replacement lists. The tables are read-only data; the lookups below
//! are plain functions over them, one per property.

use vstd::prelude::*;
use vstd::utf8::encode_utf8;

verus! {

/// The UTF-8 bytes of a string literal; the canonical form in which the
/// rule tables are stated.
pub open spec fn lit_bytes(s: &str) -> Seq<u8> {
    encode_utf8(s@)
}

/// The byte sequences of a list of executable byte-pair entries.
pub open spec fn pairs_view(v: Seq<(&'static [u8], &'static [u8])>) -> Seq<(Seq<u8>, Seq<u8>)> {
    v.map_values(|p: (&'static [u8], &'static [u8])| (p.0@, p.1@))
}

/// The byte sequences of a list of string pairs.
pub open spec fn string_pairs_view(v: Seq<(String, String)>) -> Seq<(Seq<u8>, Seq<u8>)> {
    v.map_values(|p: (String, String)| (encode_utf8(p.0@), encode_utf8(p.1@)))
}

/// Byte-slice equality.
pub fn bytes_eq(a: &[u8], b: &[u8]) -> (r: bool)
    ensures
        r == (a@ == b@),
{
    if a.len() != b.len() {
        proof {
            assert(a@ != b@);
        }
        return false;
    }
    let mut i: usize = 0;
    while i < a.len()
        invariant
            i <= a.len(),
            a@.len() == b@.len(),
            forall|j: int| 0 <= j < i ==> a@[j] == b@[j],
        ensures
            i <= a.len(),
            a@.len() == b@.len(),
            i < a.len() ==> a@[i as int] != b@[i as int],
            i == a.len() ==> forall|j: int| 0 <= j < i ==> a@[j] == b@[j],
        decreases a.len() - i,
    {
        if a[i] != b[i] {
            break ;
        }
        i += 1;
    }
    if i == a.len() {
        proof {
            assert(a@ =~= b@);
        }
        true
    } else {
        proof {
            assert(a@ != b@);
        }
        false
    }
}

/// The rename table: a dialect property name and the custom property
/// that replaces it, the value passing through unchanged.
pub open spec fn rename_rule_spec(name: Seq<u8>) -> Option<Seq<u8>> {
    if name == lit_bytes("linear-weight") {
        Some(lit_bytes("--lynx-linear-weight"))
    } else if name == lit_bytes("flex-direction") {
        Some(lit_bytes("--flex-direction"))
    } else if name == lit_bytes("flex-wrap") {
        Some(lit_bytes("--flex-wrap"))
    } else if name == lit_bytes("flex-grow") {
        Some(lit_bytes("--flex-grow"))
    } else if name == lit_bytes("flex-shrink") {
        Some(lit_bytes("--flex-shrink"))
    } else if name == lit_bytes("flex-basis") {
        Some(lit_bytes("--flex-basis"))
    } else if name == lit_bytes("list-main-axis-gap") {
        Some(lit_bytes("--list-main-axis-gap"))
    } else if name == lit_bytes("list-cross-axis-gap") {
        Some(lit_bytes("--list-cross-axis-gap"))
    } else {
        None
    }
}

/// The rename table looked up by name, over raw bytes.
pub fn get_rename_rule_bytes(name: &[u8]) -> (r: Option<&'static [u8]>)
    ensures
        match r {
            Some(x) => rename_rule_spec(name@) == Some(x@),
            None => rename_rule_spec(name@) is None,
        },
{
    if bytes_eq(name, "linear-weight".as_bytes()) {
        Some("--lynx-linear-weight".as_bytes())
    } else if bytes_eq(name, "flex-direction".as_bytes()) {
        Some("--flex-direction".as_bytes())
    } else if bytes_eq(name, "flex-wrap".as_bytes()) {
        Some("--flex-wrap".as_bytes())
    } else if bytes_eq(name, "flex-grow".as_bytes()) {
        Some("--flex-grow".as_bytes())
    } else if bytes_eq(name, "flex-shrink".as_bytes()) {
        Some("--flex-shrink".as_bytes())
    } else if bytes_eq(name, "flex-basis".as_bytes()) {
        Some("--flex-basis".as_bytes())
    } else if bytes_eq(name, "list-main-axis-gap".as_bytes()) {
        Some("--list-main-axis-gap".as_bytes())
    } else if bytes_eq(name, "list-cross-axis-gap".as_bytes()) {
        Some("--list-cross-axis-gap".as_bytes())
    } else {
        None
    }
}

/// The rename table looked up by name: the custom property that the
/// name maps to, or nothing.
pub fn get_rename_rule_value(name: &str) -> (r: Option<&'static str>)
    ensures
        match r {
            Some(x) => rename_rule_spec(encode_utf8(name@)) == Some(encode_utf8(x@)),
            None => rename_rule_spec(encode_utf8(name@)) is None,
        },
{
    if bytes_eq(name.as_bytes(), "linear-weight".as_bytes()) {
        Some("--lynx-linear-weight")
    } else if bytes_eq(name.as_bytes(), "flex-direction".as_bytes()) {
        Some("--flex-direction")
    } else if bytes_eq(name.as_bytes(), "flex-wrap".as_bytes()) {
        Some("--flex-wrap")
    } else if bytes_eq(name.as_bytes(), "flex-grow".as_bytes()) {
        Some("--flex-grow")
    } else if bytes_eq(name.as_bytes(), "flex-shrink".as_bytes()) {
        Some("--flex-shrink")
    } else if bytes_eq(name.as_bytes(), "flex-basis".as_bytes()) {
        Some("--flex-basis")
    } else if bytes_eq(name.as_bytes(), "list-main-axis-gap".as_bytes()) {
        Some("--list-main-axis-gap")
    } else if bytes_eq(name.as_bytes(), "list-cross-axis-gap".as_bytes()) {
        Some("--list-cross-axis-gap")
    } else {
        None
    }
}

/// The replacement lists of the `display` property, keyed by value.
pub open spec fn display_rule_spec(value: Seq<u8>) -> Option<Seq<(Seq<u8>, Seq<u8>)>> {
    if value == lit_bytes("linear") {
        Some(seq![(lit_bytes("--lynx-display-toggle"), lit_bytes("var(--lynx-display-linear)")), (lit_bytes("--lynx-display"), lit_bytes("linear")), (lit_bytes("display"), lit_bytes("flex"))])
    } else if value == lit_bytes("flex") {
        Some(seq![(lit_bytes("--lynx-display-toggle"), lit_bytes("var(--lynx-display-flex)")), (lit_bytes("--lynx-display"), lit_bytes("flex")), (lit_bytes("display"), lit_bytes("flex"))])
    } else {
        None
    }
}

/// The replacement lists of the `direction` property, keyed by value.
pub open spec fn direction_rule_spec(value: Seq<u8>) -> Option<Seq<(Seq<u8>, Seq<u8>)>> {
    if value == lit_bytes("lynx-rtl") {
        Some(seq![(lit_bytes("direction"), lit_bytes("rtl"))])
    } else {
        None
    }
}

/// The replacement lists of the `linear-orientation` property, keyed by value.
pub open spec fn linear_orientation_rule_spec(value: Seq<u8>) -> Option<Seq<(Seq<u8>, Seq<u8>)>> {
    if value == lit_bytes("horizontal") {
        Some(seq![(lit_bytes("--lynx-linear-orientation"), lit_bytes("horizontal")), (lit_bytes("--lynx-linear-orientation-toggle"), lit_bytes("var(--lynx-linear-orientation-horizontal)"))])
    } else if value == lit_bytes("horizontal-reverse") {
        Some(seq![(lit_bytes("--lynx-linear-orientation"), lit_bytes("horizontal-reverse")), (lit_bytes("--lynx-linear-orientation-toggle"), lit_bytes("var(--lynx-linear-orientation-horizontal-reverse)"))])
    } else if value == lit_bytes("vertical") {
        Some(seq![(lit_bytes("--lynx-linear-orientation"), lit_bytes("vertical")), (lit_bytes("--lynx-linear-orientation-toggle"), lit_bytes("var(--lynx-linear-orientation-vertical)"))])
    } else if value == lit_bytes("vertical-reverse") {
        Some(seq![(lit_bytes("--lynx-linear-orientation"), lit_bytes("vertical-reverse")), (lit_bytes("--lynx-linear-orientation-toggle"), lit_bytes("var(--lynx-linear-orientation-vertical-reverse)"))])
    } else {
        None
    }
}

/// The replacement lists of the `linear-direction` property, keyed by value.
pub open spec fn linear_direction_rule_spec(value: Seq<u8>) -> Option<Seq<(Seq<u8>, Seq<u8>)>> {
    if value == lit_bytes("row") {
        Some(seq![(lit_bytes("--lynx-linear-orientation"), lit_bytes("horizontal")), (lit_bytes("--lynx-linear-orientation-toggle"), lit_bytes("var(--lynx-linear-orientation-horizontal)"))])
    } else if value == lit_bytes("row-reverse") {
        Some(seq![(lit_bytes("--lynx-linear-orientation"), lit_bytes("horizontal-reverse")), (lit_bytes("--lynx-linear-orientation-toggle"), lit_bytes("var(--lynx-linear-orientation-horizontal-reverse)"))])
    } else if value == lit_bytes("column") {
        Some(seq![(lit_bytes("--lynx-linear-orientation"), lit_bytes("vertical")), (lit_bytes("--lynx-linear-orientation-toggle"), lit_bytes("var(--lynx-linear-orientation-vertical)"))])
    } else if value == lit_bytes("column-reverse") {
        Some(seq![(lit_bytes("--lynx-linear-orientation"), lit_bytes("vertical-reverse")), (lit_bytes("--lynx-linear-orientation-toggle"), lit_bytes("var(--lynx-linear-orientation-vertical-reverse)"))])
    } else {
        None
    }
}

/// The replacement lists of the `linear-gravity` property, keyed by value.
pub open spec fn linear_gravity_rule_spec(value: Seq<u8>) -> Option<Seq<(Seq<u8>, Seq<u8>)>> {
    if value == lit_bytes("top") {
        Some(seq![(lit_bytes("--justify-content-column"), lit_bytes("flex-start")), (lit_bytes("--justify-content-column-reverse"), lit_bytes("flex-end")), (lit_bytes("--justify-content-row"), lit_bytes("flex-start")), (lit_bytes("--justify-content-row-reverse"), lit_bytes("flex-start"))])
    } else if value == lit_bytes("bottom") {
        Some(seq![(lit_bytes("--justify-content-column"), lit_bytes("flex-end")), (lit_bytes("--justify-content-column-reverse"), lit_bytes("flex-start")), (lit_bytes("--justify-content-row"), lit_bytes("flex-start")), (lit_bytes("--justify-content-row-reverse"), lit_bytes("flex-start"))])
    } else if value == lit_bytes("left") {
        Some(seq![(lit_bytes("--justify-content-column"), lit_bytes("flex-start")), (lit_bytes("--justify-content-column-reverse"), lit_bytes("flex-start")), (lit_bytes("--justify-content-row"), lit_bytes("flex-start")), (lit_bytes("--justify-content-row-reverse"), lit_bytes("flex-end"))])
    } else if value == lit_bytes("right") {
        Some(seq![(lit_bytes("--justify-content-column"), lit_bytes("flex-start")), (lit_bytes("--justify-content-column-reverse"), lit_bytes("flex-start")), (lit_bytes("--justify-content-row"), lit_bytes("flex-end")), (lit_bytes("--justify-content-row-reverse"), lit_bytes("flex-start"))])
    } else if value == lit_bytes("center-vertical") {
        Some(seq![(lit_bytes("--justify-content-column"), lit_bytes("center")), (lit_bytes("--justify-content-column-reverse"), lit_bytes("center")), (lit_bytes("--justify-content-row"), lit_bytes("flex-start")), (lit_bytes("--justify-content-row-reverse"), lit_bytes("flex-start"))])
    } else if value == lit_bytes("center-horizontal") {
        Some(seq![(lit_bytes("--justify-content-column"), lit_bytes("flex-start")), (lit_bytes("--justify-content-column-reverse"), lit_bytes("flex-start")), (lit_bytes("--justify-content-row"), lit_bytes("center")), (lit_bytes("--justify-content-row-reverse"), lit_bytes("center"))])
    } else if value == lit_bytes("start") {
        Some(seq![(lit_bytes("--justify-content-column"), lit_bytes("flex-start")), (lit_bytes("--justify-content-column-reverse"), lit_bytes("flex-start")), (lit_bytes("--justify-content-row"), lit_bytes("flex-start")), (lit_bytes("--justify-content-row-reverse"), lit_bytes("flex-start"))])
    } else if value == lit_bytes("end") {
        Some(seq![(lit_bytes("--justify-content-column"), lit_bytes("flex-end")), (lit_bytes("--justify-content-column-reverse"), lit_bytes("flex-end")), (lit_bytes("--justify-content-row"), lit_bytes("flex-end")), (lit_bytes("--justify-content-row-reverse"), lit_bytes("flex-end"))])
    } else if value == lit_bytes("center") {
        Some(seq![(lit_bytes("--justify-content-column"), lit_bytes("center")), (lit_bytes("--justify-content-column-reverse"), lit_bytes("center")), (lit_bytes("--justify-content-row"), lit_bytes("center")), (lit_bytes("--justify-content-row-reverse"), lit_bytes("center"))])
    } else if value == lit_bytes("space-between") {
        Some(seq![(lit_bytes("--justify-content-column"), lit_bytes("space-between")), (lit_bytes("--justify-content-column-reverse"), lit_bytes("space-between")), (lit_bytes("--justify-content-row"), lit_bytes("space-between")), (lit_bytes("--justify-content-row-reverse"), lit_bytes("space-between"))])
    } else {
        None
    }
}

/// The replacement lists of the `linear-cross-gravity` property, keyed by value.
pub open spec fn linear_cross_gravity_rule_spec(value: Seq<u8>) -> Option<Seq<(Seq<u8>, Seq<u8>)>> {
    if value == lit_bytes("start") {
        Some(seq![(lit_bytes("align-items"), lit_bytes("start"))])
    } else if value == lit_bytes("end") {
        Some(seq![(lit_bytes("align-items"), lit_bytes("end"))])
    } else if value == lit_bytes("center") {
        Some(seq![(lit_bytes("align-items"), lit_bytes("center"))])
    } else if value == lit_bytes("stretch") {
        Some(seq![(lit_bytes("align-items"), lit_bytes("stretch"))])
    } else {
        None
    }
}

/// The replacement lists of the `linear-layout-gravity` property, keyed by value.
pub open spec fn linear_layout_gravity_rule_spec(value: Seq<u8>) -> Option<Seq<(Seq<u8>, Seq<u8>)>> {
    if value == lit_bytes("none") {
        Some(seq![(lit_bytes("--align-self-row"), lit_bytes("auto")), (lit_bytes("--align-self-column"), lit_bytes("auto"))])
    } else if value == lit_bytes("stretch") {
        Some(seq![(lit_bytes("--align-self-row"), lit_bytes("stretch")), (lit_bytes("--align-self-column"), lit_bytes("stretch"))])
    } else if value == lit_bytes("top") {
        Some(seq![(lit_bytes("--align-self-row"), lit_bytes("start")), (lit_bytes("--align-self-column"), lit_bytes("auto"))])
    } else if value == lit_bytes("bottom") {
        Some(seq![(lit_bytes("--align-self-row"), lit_bytes("end")), (lit_bytes("--align-self-column"), lit_bytes("auto"))])
    } else if value == lit_bytes("left") {
        Some(seq![(lit_bytes("--align-self-row"), lit_bytes("auto")), (lit_bytes("--align-self-column"), lit_bytes("start"))])
    } else if value == lit_bytes("right") {
        Some(seq![(lit_bytes("--align-self-row"), lit_bytes("auto")), (lit_bytes("--align-self-column"), lit_bytes("end"))])
    } else if value == lit_bytes("start") {
        Some(seq![(lit_bytes("--align-self-row"), lit_bytes("start")), (lit_bytes("--align-self-column"), lit_bytes("start"))])
    } else if value == lit_bytes("end") {
        Some(seq![(lit_bytes("--align-self-row"), lit_bytes("end")), (lit_bytes("--align-self-column"), lit_bytes("end"))])
    } else if value == lit_bytes("center") {
        Some(seq![(lit_bytes("--align-self-row"), lit_bytes("center")), (lit_bytes("--align-self-column"), lit_bytes("center"))])
    } else if value == lit_bytes("center-vertical") {
        Some(seq![(lit_bytes("--align-self-row"), lit_bytes("center")), (lit_bytes("--align-self-column"), lit_bytes("start"))])
    } else if value == lit_bytes("center-horizontal") {
        Some(seq![(lit_bytes("--align-self-row"), lit_bytes("start")), (lit_bytes("--align-self-column"), lit_bytes("center"))])
    } else if value == lit_bytes("fill-vertical") {
        Some(seq![(lit_bytes("--align-self-row"), lit_bytes("stretch")), (lit_bytes("--align-self-column"), lit_bytes("auto"))])
    } else if value == lit_bytes("fill-horizontal") {
        Some(seq![(lit_bytes("--align-self-row"), lit_bytes("auto")), (lit_bytes("--align-self-column"), lit_bytes("stretch"))])
    } else {
        None
    }
}

/// The replacement lists of the `justify-content` property, keyed by value.
pub open spec fn justify_content_rule_spec(value: Seq<u8>) -> Option<Seq<(Seq<u8>, Seq<u8>)>> {
    if value == lit_bytes("start") {
        Some(seq![(lit_bytes("justify-content"), lit_bytes("flex-start"))])
    } else if value == lit_bytes("end") {
        Some(seq![(lit_bytes("justify-content"), lit_bytes("flex-end"))])
    } else if value == lit_bytes("left") {
        Some(seq![(lit_bytes("justify-content"), lit_bytes("--lynx-invalid-invalid-invalid"))])
    } else if value == lit_bytes("right") {
        Some(seq![(lit_bytes("justify-content"), lit_bytes("--lynx-invalid-invalid-invalid"))])
    } else {
        None
    }
}

/// The replace table: ordered replacement pairs for a recognised
/// (property, value) combination; the order is the emission order.
pub open spec fn replace_rule_spec(name: Seq<u8>, value: Seq<u8>) -> Option<
    Seq<(Seq<u8>, Seq<u8>)>,
> {
    if name == lit_bytes("display") {
        display_rule_spec(value)
    } else if name == lit_bytes("direction") {
        direction_rule_spec(value)
    } else if name == lit_bytes("linear-orientation") {
        linear_orientation_rule_spec(value)
    } else if name == lit_bytes("linear-direction") {
        linear_direction_rule_spec(value)
    } else if name == lit_bytes("linear-gravity") {
        linear_gravity_rule_spec(value)
    } else if name == lit_bytes("linear-cross-gravity") {
        linear_cross_gravity_rule_spec(value)
    } else if name == lit_bytes("linear-layout-gravity") {
        linear_layout_gravity_rule_spec(value)
    } else if name == lit_bytes("justify-content") {
        justify_content_rule_spec(value)
    } else {
        None
    }
}

fn display_rule_bytes(value: &[u8]) -> (r: Option<Vec<(&'static [u8], &'static [u8])>>)
    ensures
        match r {
            Some(v) => display_rule_spec(value@) == Some(pairs_view(v@)),
            None => display_rule_spec(value@) is None,
        },
{
    if bytes_eq(value, "linear".as_bytes()) {
        let v: Vec<(&'static [u8], &'static [u8])> = vec![("--lynx-display-toggle".as_bytes(), "var(--lynx-display-linear)".as_bytes()), ("--lynx-display".as_bytes(), "linear".as_bytes()), ("display".as_bytes(), "flex".as_bytes())];
        proof {
            assert(pairs_view(v@) =~= seq![(lit_bytes("--lynx-display-toggle"), lit_bytes("var(--lynx-display-linear)")), (lit_bytes("--lynx-display"), lit_bytes("linear")), (lit_bytes("display"), lit_bytes("flex"))]);
        }
        Some(v)
    } else if bytes_eq(value, "flex".as_bytes()) {
        let v: Vec<(&'static [u8], &'static [u8])> = vec![("--lynx-display-toggle".as_bytes(), "var(--lynx-display-flex)".as_bytes()), ("--lynx-display".as_bytes(), "flex".as_bytes()), ("display".as_bytes(), "flex".as_bytes())];
        proof {
            assert(pairs_view(v@) =~= seq![(lit_bytes("--lynx-display-toggle"), lit_bytes("var(--lynx-display-flex)")), (lit_bytes("--lynx-display"), lit_bytes("flex")), (lit_bytes("display"), lit_bytes("flex"))]);
        }
        Some(v)
    } else {
        None
    }
}

fn direction_rule_bytes(value: &[u8]) -> (r: Option<Vec<(&'static [u8], &'static [u8])>>)
    ensures
        match r {
            Some(v) => direction_rule_spec(value@) == Some(pairs_view(v@)),
            None => direction_rule_spec(value@) is None,
        },
{
    if bytes_eq(value, "lynx-rtl".as_bytes()) {
        let v: Vec<(&'static [u8], &'static [u8])> = vec![("direction".as_bytes(), "rtl".as_bytes())];
        proof {
            assert(pairs_view(v@) =~= seq![(lit_bytes("direction"), lit_bytes("rtl"))]);
        }
        Some(v)
    } else {
        None
    }
}

fn linear_orientation_rule_bytes(value: &[u8]) -> (r: Option<Vec<(&'static [u8], &'static [u8])>>)
    ensures
        match r {
            Some(v) => linear_orientation_rule_spec(value@) == Some(pairs_view(v@)),
            None => linear_orientation_rule_spec(value@) is None,
        },
{
    if bytes_eq(value, "horizontal".as_bytes()) {
        let v: Vec<(&'static [u8], &'static [u8])> = vec![("--lynx-linear-orientation".as_bytes(), "horizontal".as_bytes()), ("--lynx-linear-orientation-toggle".as_bytes(), "var(--lynx-linear-orientation-horizontal)".as_bytes())];
        proof {
            assert(pairs_view(v@) =~= seq![(lit_bytes("--lynx-linear-orientation"), lit_bytes("horizontal")), (lit_bytes("--lynx-linear-orientation-toggle"), lit_bytes("var(--lynx-linear-orientation-horizontal)"))]);
        }
        Some(v)
    } else if bytes_eq(value, "horizontal-reverse".as_bytes()) {
        let v: Vec<(&'static [u8], &'static [u8])> = vec![("--lynx-linear-orientation".as_bytes(), "horizontal-reverse".as_bytes()), ("--lynx-linear-orientation-toggle".as_bytes(), "var(--lynx-linear-orientation-horizontal-reverse)".as_bytes())];
        proof {
            assert(pairs_view(v@) =~= seq![(lit_bytes("--lynx-linear-orientation"), lit_bytes("horizontal-reverse")), (lit_bytes("--lynx-linear-orientation-toggle"), lit_bytes("var(--lynx-linear-orientation-horizontal-reverse)"))]);
        }
        Some(v)
    } else if bytes_eq(value, "vertical".as_bytes()) {
        let v: Vec<(&'static [u8], &'static [u8])> = vec![("--lynx-linear-orientation".as_bytes(), "vertical".as_bytes()), ("--lynx-linear-orientation-toggle".as_bytes(), "var(--lynx-linear-orientation-vertical)".as_bytes())];
        proof {
            assert(pairs_view(v@) =~= seq![(lit_bytes("--lynx-linear-orientation"), lit_bytes("vertical")), (lit_bytes("--lynx-linear-orientation-toggle"), lit_bytes("var(--lynx-linear-orientation-vertical)"))]);
        }
        Some(v)
    } else if bytes_eq(value, "vertical-reverse".as_bytes()) {
        let v: Vec<(&'static [u8], &'static [u8])> = vec![("--lynx-linear-orientation".as_bytes(), "vertical-reverse".as_bytes()), ("--lynx-linear-orientation-toggle".as_bytes(), "var(--lynx-linear-orientation-vertical-reverse)".as_bytes())];
        proof {
            assert(pairs_view(v@) =~= seq![(lit_bytes("--lynx-linear-orientation"), lit_bytes("vertical-reverse")), (lit_bytes("--lynx-linear-orientation-toggle"), lit_bytes("var(--lynx-linear-orientation-vertical-reverse)"))]);
        }
        Some(v)
    } else {
        None
    }
}

fn linear_direction_rule_bytes(value: &[u8]) -> (r: Option<Vec<(&'static [u8], &'static [u8])>>)
    ensures
        match r {
            Some(v) => linear_direction_rule_spec(value@) == Some(pairs_view(v@)),
            None => linear_direction_rule_spec(value@) is None,
        },
{
    if bytes_eq(value, "row".as_bytes()) {
        let v: Vec<(&'static [u8], &'static [u8])> = vec![("--lynx-linear-orientation".as_bytes(), "horizontal".as_bytes()), ("--lynx-linear-orientation-toggle".as_bytes(), "var(--lynx-linear-orientation-horizontal)".as_bytes())];
        proof {
            assert(pairs_view(v@) =~= seq![(lit_bytes("--lynx-linear-orientation"), lit_bytes("horizontal")), (lit_bytes("--lynx-linear-orientation-toggle"), lit_bytes("var(--lynx-linear-orientation-horizontal)"))]);
        }
        Some(v)
    } else if bytes_eq(value, "row-reverse".as_bytes()) {
        let v: Vec<(&'static [u8], &'static [u8])> = vec![("--lynx-linear-orientation".as_bytes(), "horizontal-reverse".as_bytes()), ("--lynx-linear-orientation-toggle".as_bytes(), "var(--lynx-linear-orientation-horizontal-reverse)".as_bytes())];
        proof {
            assert(pairs_view(v@) =~= seq![(lit_bytes("--lynx-linear-orientation"), lit_bytes("horizontal-reverse")), (lit_bytes("--lynx-linear-orientation-toggle"), lit_bytes("var(--lynx-linear-orientation-horizontal-reverse)"))]);
        }
        Some(v)
    } else if bytes_eq(value, "column".as_bytes()) {
        let v: Vec<(&'static [u8], &'static [u8])> = vec![("--lynx-linear-orientation".as_bytes(), "vertical".as_bytes()), ("--lynx-linear-orientation-toggle".as_bytes(), "var(--lynx-linear-orientation-vertical)".as_bytes())];
        proof {
            assert(pairs_view(v@) =~= seq![(lit_bytes("--lynx-linear-orientation"), lit_bytes("vertical")), (lit_bytes("--lynx-linear-orientation-toggle"), lit_bytes("var(--lynx-linear-orientation-vertical)"))]);
        }
        Some(v)
    } else if bytes_eq(value, "column-reverse".as_bytes()) {
        let v: Vec<(&'static [u8], &'static [u8])> = vec![("--lynx-linear-orientation".as_bytes(), "vertical-reverse".as_bytes()), ("--lynx-linear-orientation-toggle".as_bytes(), "var(--lynx-linear-orientation-vertical-reverse)".as_bytes())];
        proof {
            assert(pairs_view(v@) =~= seq![(lit_bytes("--lynx-linear-orientation"), lit_bytes("vertical-reverse")), (lit_bytes("--lynx-linear-orientation-toggle"), lit_bytes("var(--lynx-linear-orientation-vertical-reverse)"))]);
        }
        Some(v)
    } else {
        None
    }
}

#[verifier::rlimit(100)]
fn linear_gravity_rule_bytes(value: &[u8]) -> (r: Option<Vec<(&'static [u8], &'static [u8])>>)
    ensures
        match r {
            Some(v) => linear_gravity_rule_spec(value@) == Some(pairs_view(v@)),
            None => linear_gravity_rule_spec(value@) is None,
        },
{
    if bytes_eq(value, "top".as_bytes()) {
        let v: Vec<(&'static [u8], &'static [u8])> = vec![("--justify-content-column".as_bytes(), "flex-start".as_bytes()), ("--justify-content-column-reverse".as_bytes(), "flex-end".as_bytes()), ("--justify-content-row".as_bytes(), "flex-start".as_bytes()), ("--justify-content-row-reverse".as_bytes(), "flex-start".as_bytes())];
        proof {
            assert(pairs_view(v@) =~= seq![(lit_bytes("--justify-content-column"), lit_bytes("flex-start")), (lit_bytes("--justify-content-column-reverse"), lit_bytes("flex-end")), (lit_bytes("--justify-content-row"), lit_bytes("flex-start")), (lit_bytes("--justify-content-row-reverse"), lit_bytes("flex-start"))]);
        }
        Some(v)
    } else if bytes_eq(value, "bottom".as_bytes()) {
        let v: Vec<(&'static [u8], &'static [u8])> = vec![("--justify-content-column".as_bytes(), "flex-end".as_bytes()), ("--justify-content-column-reverse".as_bytes(), "flex-start".as_bytes()), ("--justify-content-row".as_bytes(), "flex-start".as_bytes()), ("--justify-content-row-reverse".as_bytes(), "flex-start".as_bytes())];
        proof {
            assert(pairs_view(v@) =~= seq![(lit_bytes("--justify-content-column"), lit_bytes("flex-end")), (lit_bytes("--justify-content-column-reverse"), lit_bytes("flex-start")), (lit_bytes("--justify-content-row"), lit_bytes("flex-start")), (lit_bytes("--justify-content-row-reverse"), lit_bytes("flex-start"))]);
        }
        Some(v)
    } else if bytes_eq(value, "left".as_bytes()) {
        let v: Vec<(&'static [u8], &'static [u8])> = vec![("--justify-content-column".as_bytes(), "flex-start".as_bytes()), ("--justify-content-column-reverse".as_bytes(), "flex-start".as_bytes()), ("--justify-content-row".as_bytes(), "flex-start".as_bytes()), ("--justify-content-row-reverse".as_bytes(), "flex-end".as_bytes())];
        proof {
            assert(pairs_view(v@) =~= seq![(lit_bytes("--justify-content-column"), lit_bytes("flex-start")), (lit_bytes("--justify-content-column-reverse"), lit_bytes("flex-start")), (lit_bytes("--justify-content-row"), lit_bytes("flex-start")), (lit_bytes("--justify-content-row-reverse"), lit_bytes("flex-end"))]);
        }
        Some(v)
    } else if bytes_eq(value, "right".as_bytes()) {
        let v: Vec<(&'static [u8], &'static [u8])> = vec![("--justify-content-column".as_bytes(), "flex-start".as_bytes()), ("--justify-content-column-reverse".as_bytes(), "flex-start".as_bytes()), ("--justify-content-row".as_bytes(), "flex-end".as_bytes()), ("--justify-content-row-reverse".as_bytes(), "flex-start".as_bytes())];
        proof {
            assert(pairs_view(v@) =~= seq![(lit_bytes("--justify-content-column"), lit_bytes("flex-start")), (lit_bytes("--justify-content-column-reverse"), lit_bytes("flex-start")), (lit_bytes("--justify-content-row"), lit_bytes("flex-end")), (lit_bytes("--justify-content-row-reverse"), lit_bytes("flex-start"))]);
        }
        Some(v)
    } else if bytes_eq(value, "center-vertical".as_bytes()) {
        let v: Vec<(&'static [u8], &'static [u8])> = vec![("--justify-content-column".as_bytes(), "center".as_bytes()), ("--justify-content-column-reverse".as_bytes(), "center".as_bytes()), ("--justify-content-row".as_bytes(), "flex-start".as_bytes()), ("--justify-content-row-reverse".as_bytes(), "flex-start".as_bytes())];
        proof {
            assert(pairs_view(v@) =~= seq![(lit_bytes("--justify-content-column"), lit_bytes("center")), (lit_bytes("--justify-content-column-reverse"), lit_bytes("center")), (lit_bytes("--justify-content-row"), lit_bytes("flex-start")), (lit_bytes("--justify-content-row-reverse"), lit_bytes("flex-start"))]);
        }
        Some(v)
    } else if bytes_eq(value, "center-horizontal".as_bytes()) {
        let v: Vec<(&'static [u8], &'static [u8])> = vec![("--justify-content-column".as_bytes(), "flex-start".as_bytes()), ("--justify-content-column-reverse".as_bytes(), "flex-start".as_bytes()), ("--justify-content-row".as_bytes(), "center".as_bytes()), ("--justify-content-row-reverse".as_bytes(), "center".as_bytes())];
        proof {
            assert(pairs_view(v@) =~= seq![(lit_bytes("--justify-content-column"), lit_bytes("flex-start")), (lit_bytes("--justify-content-column-reverse"), lit_bytes("flex-start")), (lit_bytes("--justify-content-row"), lit_bytes("center")), (lit_bytes("--justify-content-row-reverse"), lit_bytes("center"))]);
        }
        Some(v)
    } else if bytes_eq(value, "start".as_bytes()) {
        let v: Vec<(&'static [u8], &'static [u8])> = vec![("--justify-content-column".as_bytes(), "flex-start".as_bytes()), ("--justify-content-column-reverse".as_bytes(), "flex-start".as_bytes()), ("--justify-content-row".as_bytes(), "flex-start".as_bytes()), ("--justify-content-row-reverse".as_bytes(), "flex-start".as_bytes())];
        proof {
            assert(pairs_view(v@) =~= seq![(lit_bytes("--justify-content-column"), lit_bytes("flex-start")), (lit_bytes("--justify-content-column-reverse"), lit_bytes("flex-start")), (lit_bytes("--justify-content-row"), lit_bytes("flex-start")), (lit_bytes("--justify-content-row-reverse"), lit_bytes("flex-start"))]);
        }
        Some(v)
    } else if bytes_eq(value, "end".as_bytes()) {
        let v: Vec<(&'static [u8], &'static [u8])> = vec![("--justify-content-column".as_bytes(), "flex-end".as_bytes()), ("--justify-content-column-reverse".as_bytes(), "flex-end".as_bytes()), ("--justify-content-row".as_bytes(), "flex-end".as_bytes()), ("--justify-content-row-reverse".as_bytes(), "flex-end".as_bytes())];
        proof {
            assert(pairs_view(v@) =~= seq![(lit_bytes("--justify-content-column"), lit_bytes("flex-end")), (lit_bytes("--justify-content-column-reverse"), lit_bytes("flex-end")), (lit_bytes("--justify-content-row"), lit_bytes("flex-end")), (lit_bytes("--justify-content-row-reverse"), lit_bytes("flex-end"))]);
        }
        Some(v)
    } else if bytes_eq(value, "center".as_bytes()) {
        let v: Vec<(&'static [u8], &'static [u8])> = vec![("--justify-content-column".as_bytes(), "center".as_bytes()), ("--justify-content-column-reverse".as_bytes(), "center".as_bytes()), ("--justify-content-row".as_bytes(), "center".as_bytes()), ("--justify-content-row-reverse".as_bytes(), "center".as_bytes())];
        proof {
            assert(pairs_view(v@) =~= seq![(lit_bytes("--justify-content-column"), lit_bytes("center")), (lit_bytes("--justify-content-column-reverse"), lit_bytes("center")), (lit_bytes("--justify-content-row"), lit_bytes("center")), (lit_bytes("--justify-content-row-reverse"), lit_bytes("center"))]);
        }
        Some(v)
    } else if bytes_eq(value, "space-between".as_bytes()) {
        let v: Vec<(&'static [u8], &'static [u8])> = vec![("--justify-content-column".as_bytes(), "space-between".as_bytes()), ("--justify-content-column-reverse".as_bytes(), "space-between".as_bytes()), ("--justify-content-row".as_bytes(), "space-between".as_bytes()), ("--justify-content-row-reverse".as_bytes(), "space-between".as_bytes())];
        proof {
            assert(pairs_view(v@) =~= seq![(lit_bytes("--justify-content-column"), lit_bytes("space-between")), (lit_bytes("--justify-content-column-reverse"), lit_bytes("space-between")), (lit_bytes("--justify-content-row"), lit_bytes("space-between")), (lit_bytes("--justify-content-row-reverse"), lit_bytes("space-between"))]);
        }
        Some(v)
    } else {
        None
    }
}

fn linear_cross_gravity_rule_bytes(value: &[u8]) -> (r: Option<Vec<(&'static [u8], &'static [u8])>>)
    ensures
        match r {
            Some(v) => linear_cross_gravity_rule_spec(value@) == Some(pairs_view(v@)),
            None => linear_cross_gravity_rule_spec(value@) is None,
        },
{
    if bytes_eq(value, "start".as_bytes()) {
        let v: Vec<(&'static [u8], &'static [u8])> = vec![("align-items".as_bytes(), "start".as_bytes())];
        proof {
            assert(pairs_view(v@) =~= seq![(lit_bytes("align-items"), lit_bytes("start"))]);
        }
        Some(v)
    } else if bytes_eq(value, "end".as_bytes()) {
        let v: Vec<(&'static [u8], &'static [u8])> = vec![("align-items".as_bytes(), "end".as_bytes())];
        proof {
            assert(pairs_view(v@) =~= seq![(lit_bytes("align-items"), lit_bytes("end"))]);
        }
        Some(v)
    } else if bytes_eq(value, "center".as_bytes()) {
        let v: Vec<(&'static [u8], &'static [u8])> = vec![("align-items".as_bytes(), "center".as_bytes())];
        proof {
            assert(pairs_view(v@) =~= seq![(lit_bytes("align-items"), lit_bytes("center"))]);
        }
        Some(v)
    } else if bytes_eq(value, "stretch".as_bytes()) {
        let v: Vec<(&'static [u8], &'static [u8])> = vec![("align-items".as_bytes(), "stretch".as_bytes())];
        proof {
            assert(pairs_view(v@) =~= seq![(lit_bytes("align-items"), lit_bytes("stretch"))]);
        }
        Some(v)
    } else {
        None
    }
}

#[verifier::rlimit(100)]
fn linear_layout_gravity_rule_bytes(value: &[u8]) -> (r: Option<Vec<(&'static [u8], &'static [u8])>>)
    ensures
        match r {
            Some(v) => linear_layout_gravity_rule_spec(value@) == Some(pairs_view(v@)),
            None => linear_layout_gravity_rule_spec(value@) is None,
        },
{
    if bytes_eq(value, "none".as_bytes()) {
        let v: Vec<(&'static [u8], &'static [u8])> = vec![("--align-self-row".as_bytes(), "auto".as_bytes()), ("--align-self-column".as_bytes(), "auto".as_bytes())];
        proof {
            assert(pairs_view(v@) =~= seq![(lit_bytes("--align-self-row"), lit_bytes("auto")), (lit_bytes("--align-self-column"), lit_bytes("auto"))]);
        }
        Some(v)
    } else if bytes_eq(value, "stretch".as_bytes()) {
        let v: Vec<(&'static [u8], &'static [u8])> = vec![("--align-self-row".as_bytes(), "stretch".as_bytes()), ("--align-self-column".as_bytes(), "stretch".as_bytes())];
        proof {
            assert(pairs_view(v@) =~= seq![(lit_bytes("--align-self-row"), lit_bytes("stretch")), (lit_bytes("--align-self-column"), lit_bytes("stretch"))]);
        }
        Some(v)
    } else if bytes_eq(value, "top".as_bytes()) {
        let v: Vec<(&'static [u8], &'static [u8])> = vec![("--align-self-row".as_bytes(), "start".as_bytes()), ("--align-self-column".as_bytes(), "auto".as_bytes())];
        proof {
            assert(pairs_view(v@) =~= seq![(lit_bytes("--align-self-row"), lit_bytes("start")), (lit_bytes("--align-self-column"), lit_bytes("auto"))]);
        }
        Some(v)
    } else if bytes_eq(value, "bottom".as_bytes()) {
        let v: Vec<(&'static [u8], &'static [u8])> = vec![("--align-self-row".as_bytes(), "end".as_bytes()), ("--align-self-column".as_bytes(), "auto".as_bytes())];
        proof {
            assert(pairs_view(v@) =~= seq![(lit_bytes("--align-self-row"), lit_bytes("end")), (lit_bytes("--align-self-column"), lit_bytes("auto"))]);
        }
        Some(v)
    } else if bytes_eq(value, "left".as_bytes()) {
        let v: Vec<(&'static [u8], &'static [u8])> = vec![("--align-self-row".as_bytes(), "auto".as_bytes()), ("--align-self-column".as_bytes(), "start".as_bytes())];
        proof {
            assert(pairs_view(v@) =~= seq![(lit_bytes("--align-self-row"), lit_bytes("auto")), (lit_bytes("--align-self-column"), lit_bytes("start"))]);
        }
        Some(v)
    } else if bytes_eq(value, "right".as_bytes()) {
        let v: Vec<(&'static [u8], &'static [u8])> = vec![("--align-self-row".as_bytes(), "auto".as_bytes()), ("--align-self-column".as_bytes(), "end".as_bytes())];
        proof {
            assert(pairs_view(v@) =~= seq![(lit_bytes("--align-self-row"), lit_bytes("auto")), (lit_bytes("--align-self-column"), lit_bytes("end"))]);
        }
        Some(v)
    } else if bytes_eq(value, "start".as_bytes()) {
        let v: Vec<(&'static [u8], &'static [u8])> = vec![("--align-self-row".as_bytes(), "start".as_bytes()), ("--align-self-column".as_bytes(), "start".as_bytes())];
        proof {
            assert(pairs_view(v@) =~= seq![(lit_bytes("--align-self-row"), lit_bytes("start")), (lit_bytes("--align-self-column"), lit_bytes("start"))]);
        }
        Some(v)
    } else if bytes_eq(value, "end".as_bytes()) {
        let v: Vec<(&'static [u8], &'static [u8])> = vec![("--align-self-row".as_bytes(), "end".as_bytes()), ("--align-self-column".as_bytes(), "end".as_bytes())];
        proof {
            assert(pairs_view(v@) =~= seq![(lit_bytes("--align-self-row"), lit_bytes("end")), (lit_bytes("--align-self-column"), lit_bytes("end"))]);
        }
        Some(v)
    } else if bytes_eq(value, "center".as_bytes()) {
        let v: Vec<(&'static [u8], &'static [u8])> = vec![("--align-self-row".as_bytes(), "center".as_bytes()), ("--align-self-column".as_bytes(), "center".as_bytes())];
        proof {
            assert(pairs_view(v@) =~= seq![(lit_bytes("--align-self-row"), lit_bytes("center")), (lit_bytes("--align-self-column"), lit_bytes("center"))]);
        }
        Some(v)
    } else if bytes_eq(value, "center-vertical".as_bytes()) {
        let v: Vec<(&'static [u8], &'static [u8])> = vec![("--align-self-row".as_bytes(), "center".as_bytes()), ("--align-self-column".as_bytes(), "start".as_bytes())];
        proof {
            assert(pairs_view(v@) =~= seq![(lit_bytes("--align-self-row"), lit_bytes("center")), (lit_bytes("--align-self-column"), lit_bytes("start"))]);
        }
        Some(v)
    } else if bytes_eq(value, "center-horizontal".as_bytes()) {
        let v: Vec<(&'static [u8], &'static [u8])> = vec![("--align-self-row".as_bytes(), "start".as_bytes()), ("--align-self-column".as_bytes(), "center".as_bytes())];
        proof {
            assert(pairs_view(v@) =~= seq![(lit_bytes("--align-self-row"), lit_bytes("start")), (lit_bytes("--align-self-column"), lit_bytes("center"))]);
        }
        Some(v)
    } else if bytes_eq(value, "fill-vertical".as_bytes()) {
        let v: Vec<(&'static [u8], &'static [u8])> = vec![("--align-self-row".as_bytes(), "stretch".as_bytes()), ("--align-self-column".as_bytes(), "auto".as_bytes())];
        proof {
            assert(pairs_view(v@) =~= seq![(lit_bytes("--align-self-row"), lit_bytes("stretch")), (lit_bytes("--align-self-column"), lit_bytes("auto"))]);
        }
        Some(v)
    } else if bytes_eq(value, "fill-horizontal".as_bytes()) {
        let v: Vec<(&'static [u8], &'static [u8])> = vec![("--align-self-row".as_bytes(), "auto".as_bytes()), ("--align-self-column".as_bytes(), "stretch".as_bytes())];
        proof {
            assert(pairs_view(v@) =~= seq![(lit_bytes("--align-self-row"), lit_bytes("auto")), (lit_bytes("--align-self-column"), lit_bytes("stretch"))]);
        }
        Some(v)
    } else {
        None
    }
}

fn justify_content_rule_bytes(value: &[u8]) -> (r: Option<Vec<(&'static [u8], &'static [u8])>>)
    ensures
        match r {
            Some(v) => justify_content_rule_spec(value@) == Some(pairs_view(v@)),
            None => justify_content_rule_spec(value@) is None,
        },
{
    if bytes_eq(value, "start".as_bytes()) {
        let v: Vec<(&'static [u8], &'static [u8])> = vec![("justify-content".as_bytes(), "flex-start".as_bytes())];
        proof {
            assert(pairs_view(v@) =~= seq![(lit_bytes("justify-content"), lit_bytes("flex-start"))]);
        }
        Some(v)
    } else if bytes_eq(value, "end".as_bytes()) {
        let v: Vec<(&'static [u8], &'static [u8])> = vec![("justify-content".as_bytes(), "flex-end".as_bytes())];
        proof {
            assert(pairs_view(v@) =~= seq![(lit_bytes("justify-content"), lit_bytes("flex-end"))]);
        }
        Some(v)
    } else if bytes_eq(value, "left".as_bytes()) {
        let v: Vec<(&'static [u8], &'static [u8])> = vec![("justify-content".as_bytes(), "--lynx-invalid-invalid-invalid".as_bytes())];
        proof {
            assert(pairs_view(v@) =~= seq![(lit_bytes("justify-content"), lit_bytes("--lynx-invalid-invalid-invalid"))]);
        }
        Some(v)
    } else if bytes_eq(value, "right".as_bytes()) {
        let v: Vec<(&'static [u8], &'static [u8])> = vec![("justify-content".as_bytes(), "--lynx-invalid-invalid-invalid".as_bytes())];
        proof {
            assert(pairs_view(v@) =~= seq![(lit_bytes("justify-content"), lit_bytes("--lynx-invalid-invalid-invalid"))]);
        }
        Some(v)
    } else {
        None
    }
}

/// The replace table looked up by name and value, over raw bytes.
pub fn get_replace_rule_bytes(name: &[u8], value: &[u8]) -> (r: Option<
    Vec<(&'static [u8], &'static [u8])>,
>)
    ensures
        match r {
            Some(v) => replace_rule_spec(name@, value@) == Some(pairs_view(v@)),
            None => replace_rule_spec(name@, value@) is None,
        },
{
    if bytes_eq(name, "display".as_bytes()) {
        display_rule_bytes(value)
    } else if bytes_eq(name, "direction".as_bytes()) {
        direction_rule_bytes(value)
    } else if bytes_eq(name, "linear-orientation".as_bytes()) {
        linear_orientation_rule_bytes(value)
    } else if bytes_eq(name, "linear-direction".as_bytes()) {
        linear_direction_rule_bytes(value)
    } else if bytes_eq(name, "linear-gravity".as_bytes()) {
        linear_gravity_rule_bytes(value)
    } else if bytes_eq(name, "linear-cross-gravity".as_bytes()) {
        linear_cross_gravity_rule_bytes(value)
    } else if bytes_eq(name, "linear-layout-gravity".as_bytes()) {
        linear_layout_gravity_rule_bytes(value)
    } else if bytes_eq(name, "justify-content".as_bytes()) {
        justify_content_rule_bytes(value)
    } else {
        None
    }
}

fn display_rule_strings(value: &str) -> (r: Option<Vec<(String, String)>>)
    ensures
        match r {
            Some(v) => display_rule_spec(encode_utf8(value@)) == Some(string_pairs_view(v@)),
            None => display_rule_spec(encode_utf8(value@)) is None,
        },
{
    if bytes_eq(value.as_bytes(), "linear".as_bytes()) {
        let v: Vec<(String, String)> = vec![("--lynx-display-toggle".to_owned(), "var(--lynx-display-linear)".to_owned()), ("--lynx-display".to_owned(), "linear".to_owned()), ("display".to_owned(), "flex".to_owned())];
        proof {
            assert(string_pairs_view(v@) =~= seq![(lit_bytes("--lynx-display-toggle"), lit_bytes("var(--lynx-display-linear)")), (lit_bytes("--lynx-display"), lit_bytes("linear")), (lit_bytes("display"), lit_bytes("flex"))]);
        }
        Some(v)
    } else if bytes_eq(value.as_bytes(), "flex".as_bytes()) {
        let v: Vec<(String, String)> = vec![("--lynx-display-toggle".to_owned(), "var(--lynx-display-flex)".to_owned()), ("--lynx-display".to_owned(), "flex".to_owned()), ("display".to_owned(), "flex".to_owned())];
        proof {
            assert(string_pairs_view(v@) =~= seq![(lit_bytes("--lynx-display-toggle"), lit_bytes("var(--lynx-display-flex)")), (lit_bytes("--lynx-display"), lit_bytes("flex")), (lit_bytes("display"), lit_bytes("flex"))]);
        }
        Some(v)
    } else {
        None
    }
}

fn direction_rule_strings(value: &str) -> (r: Option<Vec<(String, String)>>)
    ensures
        match r {
            Some(v) => direction_rule_spec(encode_utf8(value@)) == Some(string_pairs_view(v@)),
            None => direction_rule_spec(encode_utf8(value@)) is None,
        },
{
    if bytes_eq(value.as_bytes(), "lynx-rtl".as_bytes()) {
        let v: Vec<(String, String)> = vec![("direction".to_owned(), "rtl".to_owned())];
        proof {
            assert(string_pairs_view(v@) =~= seq![(lit_bytes("direction"), lit_bytes("rtl"))]);
        }
        Some(v)
    } else {
        None
    }
}

fn linear_orientation_rule_strings(value: &str) -> (r: Option<Vec<(String, String)>>)
    ensures
        match r {
            Some(v) => linear_orientation_rule_spec(encode_utf8(value@)) == Some(string_pairs_view(v@)),
            None => linear_orientation_rule_spec(encode_utf8(value@)) is None,
        },
{
    if bytes_eq(value.as_bytes(), "horizontal".as_bytes()) {
        let v: Vec<(String, String)> = vec![("--lynx-linear-orientation".to_owned(), "horizontal".to_owned()), ("--lynx-linear-orientation-toggle".to_owned(), "var(--lynx-linear-orientation-horizontal)".to_owned())];
        proof {
            assert(string_pairs_view(v@) =~= seq![(lit_bytes("--lynx-linear-orientation"), lit_bytes("horizontal")), (lit_bytes("--lynx-linear-orientation-toggle"), lit_bytes("var(--lynx-linear-orientation-horizontal)"))]);
        }
        Some(v)
    } else if bytes_eq(value.as_bytes(), "horizontal-reverse".as_bytes()) {
        let v: Vec<(String, String)> = vec![("--lynx-linear-orientation".to_owned(), "horizontal-reverse".to_owned()), ("--lynx-linear-orientation-toggle".to_owned(), "var(--lynx-linear-orientation-horizontal-reverse)".to_owned())];
        proof {
            assert(string_pairs_view(v@) =~= seq![(lit_bytes("--lynx-linear-orientation"), lit_bytes("horizontal-reverse")), (lit_bytes("--lynx-linear-orientation-toggle"), lit_bytes("var(--lynx-linear-orientation-horizontal-reverse)"))]);
        }
        Some(v)
    } else if bytes_eq(value.as_bytes(), "vertical".as_bytes()) {
        let v: Vec<(String, String)> = vec![("--lynx-linear-orientation".to_owned(), "vertical".to_owned()), ("--lynx-linear-orientation-toggle".to_owned(), "var(--lynx-linear-orientation-vertical)".to_owned())];
        proof {
            assert(string_pairs_view(v@) =~= seq![(lit_bytes("--lynx-linear-orientation"), lit_bytes("vertical")), (lit_bytes("--lynx-linear-orientation-toggle"), lit_bytes("var(--lynx-linear-orientation-vertical)"))]);
        }
        Some(v)
    } else if bytes_eq(value.as_bytes(), "vertical-reverse".as_bytes()) {
        let v: Vec<(String, String)> = vec![("--lynx-linear-orientation".to_owned(), "vertical-reverse".to_owned()), ("--lynx-linear-orientation-toggle".to_owned(), "var(--lynx-linear-orientation-vertical-reverse)".to_owned())];
        proof {
            assert(string_pairs_view(v@) =~= seq![(lit_bytes("--lynx-linear-orientation"), lit_bytes("vertical-reverse")), (lit_bytes("--lynx-linear-orientation-toggle"), lit_bytes("var(--lynx-linear-orientation-vertical-reverse)"))]);
        }
        Some(v)
    } else {
        None
    }
}

fn linear_direction_rule_strings(value: &str) -> (r: Option<Vec<(String, String)>>)
    ensures
        match r {
            Some(v) => linear_direction_rule_spec(encode_utf8(value@)) == Some(string_pairs_view(v@)),
            None => linear_direction_rule_spec(encode_utf8(value@)) is None,
        },
{
    if bytes_eq(value.as_bytes(), "row".as_bytes()) {
        let v: Vec<(String, String)> = vec![("--lynx-linear-orientation".to_owned(), "horizontal".to_owned()), ("--lynx-linear-orientation-toggle".to_owned(), "var(--lynx-linear-orientation-horizontal)".to_owned())];
        proof {
            assert(string_pairs_view(v@) =~= seq![(lit_bytes("--lynx-linear-orientation"), lit_bytes("horizontal")), (lit_bytes("--lynx-linear-orientation-toggle"), lit_bytes("var(--lynx-linear-orientation-horizontal)"))]);
        }
        Some(v)
    } else if bytes_eq(value.as_bytes(), "row-reverse".as_bytes()) {
        let v: Vec<(String, String)> = vec![("--lynx-linear-orientation".to_owned(), "horizontal-reverse".to_owned()), ("--lynx-linear-orientation-toggle".to_owned(), "var(--lynx-linear-orientation-horizontal-reverse)".to_owned())];
        proof {
            assert(string_pairs_view(v@) =~= seq![(lit_bytes("--lynx-linear-orientation"), lit_bytes("horizontal-reverse")), (lit_bytes("--lynx-linear-orientation-toggle"), lit_bytes("var(--lynx-linear-orientation-horizontal-reverse)"))]);
        }
        Some(v)
    } else if bytes_eq(value.as_bytes(), "column".as_bytes()) {
        let v: Vec<(String, String)> = vec![("--lynx-linear-orientation".to_owned(), "vertical".to_owned()), ("--lynx-linear-orientation-toggle".to_owned(), "var(--lynx-linear-orientation-vertical)".to_owned())];
        proof {
            assert(string_pairs_view(v@) =~= seq![(lit_bytes("--lynx-linear-orientation"), lit_bytes("vertical")), (lit_bytes("--lynx-linear-orientation-toggle"), lit_bytes("var(--lynx-linear-orientation-vertical)"))]);
        }
        Some(v)
    } else if bytes_eq(value.as_bytes(), "column-reverse".as_bytes()) {
        let v: Vec<(String, String)> = vec![("--lynx-linear-orientation".to_owned(), "vertical-reverse".to_owned()), ("--lynx-linear-orientation-toggle".to_owned(), "var(--lynx-linear-orientation-vertical-reverse)".to_owned())];
        proof {
            assert(string_pairs_view(v@) =~= seq![(lit_bytes("--lynx-linear-orientation"), lit_bytes("vertical-reverse")), (lit_bytes("--lynx-linear-orientation-toggle"), lit_bytes("var(--lynx-linear-orientation-vertical-reverse)"))]);
        }
        Some(v)
    } else {
        None
    }
}

#[verifier::rlimit(100)]
fn linear_gravity_rule_strings(value: &str) -> (r: Option<Vec<(String, String)>>)
    ensures
        match r {
            Some(v) => linear_gravity_rule_spec(encode_utf8(value@)) == Some(string_pairs_view(v@)),
            None => linear_gravity_rule_spec(encode_utf8(value@)) is None,
        },
{
    if bytes_eq(value.as_bytes(), "top".as_bytes()) {
        let v: Vec<(String, String)> = vec![("--justify-content-column".to_owned(), "flex-start".to_owned()), ("--justify-content-column-reverse".to_owned(), "flex-end".to_owned()), ("--justify-content-row".to_owned(), "flex-start".to_owned()), ("--justify-content-row-reverse".to_owned(), "flex-start".to_owned())];
        proof {
            assert(string_pairs_view(v@) =~= seq![(lit_bytes("--justify-content-column"), lit_bytes("flex-start")), (lit_bytes("--justify-content-column-reverse"), lit_bytes("flex-end")), (lit_bytes("--justify-content-row"), lit_bytes("flex-start")), (lit_bytes("--justify-content-row-reverse"), lit_bytes("flex-start"))]);
        }
        Some(v)
    } else if bytes_eq(value.as_bytes(), "bottom".as_bytes()) {
        let v: Vec<(String, String)> = vec![("--justify-content-column".to_owned(), "flex-end".to_owned()), ("--justify-content-column-reverse".to_owned(), "flex-start".to_owned()), ("--justify-content-row".to_owned(), "flex-start".to_owned()), ("--justify-content-row-reverse".to_owned(), "flex-start".to_owned())];
        proof {
            assert(string_pairs_view(v@) =~= seq![(lit_bytes("--justify-content-column"), lit_bytes("flex-end")), (lit_bytes("--justify-content-column-reverse"), lit_bytes("flex-start")), (lit_bytes("--justify-content-row"), lit_bytes("flex-start")), (lit_bytes("--justify-content-row-reverse"), lit_bytes("flex-start"))]);
        }
        Some(v)
    } else if bytes_eq(value.as_bytes(), "left".as_bytes()) {
        let v: Vec<(String, String)> = vec![("--justify-content-column".to_owned(), "flex-start".to_owned()), ("--justify-content-column-reverse".to_owned(), "flex-start".to_owned()), ("--justify-content-row".to_owned(), "flex-start".to_owned()), ("--justify-content-row-reverse".to_owned(), "flex-end".to_owned())];
        proof {
            assert(string_pairs_view(v@) =~= seq![(lit_bytes("--justify-content-column"), lit_bytes("flex-start")), (lit_bytes("--justify-content-column-reverse"), lit_bytes("flex-start")), (lit_bytes("--justify-content-row"), lit_bytes("flex-start")), (lit_bytes("--justify-content-row-reverse"), lit_bytes("flex-end"))]);
        }
        Some(v)
    } else if bytes_eq(value.as_bytes(), "right".as_bytes()) {
        let v: Vec<(String, String)> = vec![("--justify-content-column".to_owned(), "flex-start".to_owned()), ("--justify-content-column-reverse".to_owned(), "flex-start".to_owned()), ("--justify-content-row".to_owned(), "flex-end".to_owned()), ("--justify-content-row-reverse".to_owned(), "flex-start".to_owned())];
        proof {
            assert(string_pairs_view(v@) =~= seq![(lit_bytes("--justify-content-column"), lit_bytes("flex-start")), (lit_bytes("--justify-content-column-reverse"), lit_bytes("flex-start")), (lit_bytes("--justify-content-row"), lit_bytes("flex-end")), (lit_bytes("--justify-content-row-reverse"), lit_bytes("flex-start"))]);
        }
        Some(v)
    } else if bytes_eq(value.as_bytes(), "center-vertical".as_bytes()) {
        let v: Vec<(String, String)> = vec![("--justify-content-column".to_owned(), "center".to_owned()), ("--justify-content-column-reverse".to_owned(), "center".to_owned()), ("--justify-content-row".to_owned(), "flex-start".to_owned()), ("--justify-content-row-reverse".to_owned(), "flex-start".to_owned())];
        proof {
            assert(string_pairs_view(v@) =~= seq![(lit_bytes("--justify-content-column"), lit_bytes("center")), (lit_bytes("--justify-content-column-reverse"), lit_bytes("center")), (lit_bytes("--justify-content-row"), lit_bytes("flex-start")), (lit_bytes("--justify-content-row-reverse"), lit_bytes("flex-start"))]);
        }
        Some(v)
    } else if bytes_eq(value.as_bytes(), "center-horizontal".as_bytes()) {
        let v: Vec<(String, String)> = vec![("--justify-content-column".to_owned(), "flex-start".to_owned()), ("--justify-content-column-reverse".to_owned(), "flex-start".to_owned()), ("--justify-content-row".to_owned(), "center".to_owned()), ("--justify-content-row-reverse".to_owned(), "center".to_owned())];
        proof {
            assert(string_pairs_view(v@) =~= seq![(lit_bytes("--justify-content-column"), lit_bytes("flex-start")), (lit_bytes("--justify-content-column-reverse"), lit_bytes("flex-start")), (lit_bytes("--justify-content-row"), lit_bytes("center")), (lit_bytes("--justify-content-row-reverse"), lit_bytes("center"))]);
        }
        Some(v)
    } else if bytes_eq(value.as_bytes(), "start".as_bytes()) {
        let v: Vec<(String, String)> = vec![("--justify-content-column".to_owned(), "flex-start".to_owned()), ("--justify-content-column-reverse".to_owned(), "flex-start".to_owned()), ("--justify-content-row".to_owned(), "flex-start".to_owned()), ("--justify-content-row-reverse".to_owned(), "flex-start".to_owned())];
        proof {
            assert(string_pairs_view(v@) =~= seq![(lit_bytes("--justify-content-column"), lit_bytes("flex-start")), (lit_bytes("--justify-content-column-reverse"), lit_bytes("flex-start")), (lit_bytes("--justify-content-row"), lit_bytes("flex-start")), (lit_bytes("--justify-content-row-reverse"), lit_bytes("flex-start"))]);
        }
        Some(v)
    } else if bytes_eq(value.as_bytes(), "end".as_bytes()) {
        let v: Vec<(String, String)> = vec![("--justify-content-column".to_owned(), "flex-end".to_owned()), ("--justify-content-column-reverse".to_owned(), "flex-end".to_owned()), ("--justify-content-row".to_owned(), "flex-end".to_owned()), ("--justify-content-row-reverse".to_owned(), "flex-end".to_owned())];
        proof {
            assert(string_pairs_view(v@) =~= seq![(lit_bytes("--justify-content-column"), lit_bytes("flex-end")), (lit_bytes("--justify-content-column-reverse"), lit_bytes("flex-end")), (lit_bytes("--justify-content-row"), lit_bytes("flex-end")), (lit_bytes("--justify-content-row-reverse"), lit_bytes("flex-end"))]);
        }
        Some(v)
    } else if bytes_eq(value.as_bytes(), "center".as_bytes()) {
        let v: Vec<(String, String)> = vec![("--justify-content-column".to_owned(), "center".to_owned()), ("--justify-content-column-reverse".to_owned(), "center".to_owned()), ("--justify-content-row".to_owned(), "center".to_owned()), ("--justify-content-row-reverse".to_owned(), "center".to_owned())];
        proof {
            assert(string_pairs_view(v@) =~= seq![(lit_bytes("--justify-content-column"), lit_bytes("center")), (lit_bytes("--justify-content-column-reverse"), lit_bytes("center")), (lit_bytes("--justify-content-row"), lit_bytes("center")), (lit_bytes("--justify-content-row-reverse"), lit_bytes("center"))]);
        }
        Some(v)
    } else if bytes_eq(value.as_bytes(), "space-between".as_bytes()) {
        let v: Vec<(String, String)> = vec![("--justify-content-column".to_owned(), "space-between".to_owned()), ("--justify-content-column-reverse".to_owned(), "space-between".to_owned()), ("--justify-content-row".to_owned(), "space-between".to_owned()), ("--justify-content-row-reverse".to_owned(), "space-between".to_owned())];
        proof {
            assert(string_pairs_view(v@) =~= seq![(lit_bytes("--justify-content-column"), lit_bytes("space-between")), (lit_bytes("--justify-content-column-reverse"), lit_bytes("space-between")), (lit_bytes("--justify-content-row"), lit_bytes("space-between")), (lit_bytes("--justify-content-row-reverse"), lit_bytes("space-between"))]);
        }
        Some(v)
    } else {
        None
    }
}

fn linear_cross_gravity_rule_strings(value: &str) -> (r: Option<Vec<(String, String)>>)
    ensures
        match r {
            Some(v) => linear_cross_gravity_rule_spec(encode_utf8(value@)) == Some(string_pairs_view(v@)),
            None => linear_cross_gravity_rule_spec(encode_utf8(value@)) is None,
        },
{
    if bytes_eq(value.as_bytes(), "start".as_bytes()) {
        let v: Vec<(String, String)> = vec![("align-items".to_owned(), "start".to_owned())];
        proof {
            assert(string_pairs_view(v@) =~= seq![(lit_bytes("align-items"), lit_bytes("start"))]);
        }
        Some(v)
    } else if bytes_eq(value.as_bytes(), "end".as_bytes()) {
        let v: Vec<(String, String)> = vec![("align-items".to_owned(), "end".to_owned())];
        proof {
            assert(string_pairs_view(v@) =~= seq![(lit_bytes("align-items"), lit_bytes("end"))]);
        }
        Some(v)
    } else if bytes_eq(value.as_bytes(), "center".as_bytes()) {
        let v: Vec<(String, String)> = vec![("align-items".to_owned(), "center".to_owned())];
        proof {
            assert(string_pairs_view(v@) =~= seq![(lit_bytes("align-items"), lit_bytes("center"))]);
        }
        Some(v)
    } else if bytes_eq(value.as_bytes(), "stretch".as_bytes()) {
        let v: Vec<(String, String)> = vec![("align-items".to_owned(), "stretch".to_owned())];
        proof {
            assert(string_pairs_view(v@) =~= seq![(lit_bytes("align-items"), lit_bytes("stretch"))]);
        }
        Some(v)
    } else {
        None
    }
}

#[verifier::rlimit(100)]
fn linear_layout_gravity_rule_strings(value: &str) -> (r: Option<Vec<(String, String)>>)
    ensures
        match r {
            Some(v) => linear_layout_gravity_rule_spec(encode_utf8(value@)) == Some(string_pairs_view(v@)),
            None => linear_layout_gravity_rule_spec(encode_utf8(value@)) is None,
        },
{
    if bytes_eq(value.as_bytes(), "none".as_bytes()) {
        let v: Vec<(String, String)> = vec![("--align-self-row".to_owned(), "auto".to_owned()), ("--align-self-column".to_owned(), "auto".to_owned())];
        proof {
            assert(string_pairs_view(v@) =~= seq![(lit_bytes("--align-self-row"), lit_bytes("auto")), (lit_bytes("--align-self-column"), lit_bytes("auto"))]);
        }
        Some(v)
    } else if bytes_eq(value.as_bytes(), "stretch".as_bytes()) {
        let v: Vec<(String, String)> = vec![("--align-self-row".to_owned(), "stretch".to_owned()), ("--align-self-column".to_owned(), "stretch".to_owned())];
        proof {
            assert(string_pairs_view(v@) =~= seq![(lit_bytes("--align-self-row"), lit_bytes("stretch")), (lit_bytes("--align-self-column"), lit_bytes("stretch"))]);
        }
        Some(v)
    } else if bytes_eq(value.as_bytes(), "top".as_bytes()) {
        let v: Vec<(String, String)> = vec![("--align-self-row".to_owned(), "start".to_owned()), ("--align-self-column".to_owned(), "auto".to_owned())];
        proof {
            assert(string_pairs_view(v@) =~= seq![(lit_bytes("--align-self-row"), lit_bytes("start")), (lit_bytes("--align-self-column"), lit_bytes("auto"))]);
        }
        Some(v)
    } else if bytes_eq(value.as_bytes(), "bottom".as_bytes()) {
        let v: Vec<(String, String)> = vec![("--align-self-row".to_owned(), "end".to_owned()), ("--align-self-column".to_owned(), "auto".to_owned())];
        proof {
            assert(string_pairs_view(v@) =~= seq![(lit_bytes("--align-self-row"), lit_bytes("end")), (lit_bytes("--align-self-column"), lit_bytes("auto"))]);
        }
        Some(v)
    } else if bytes_eq(value.as_bytes(), "left".as_bytes()) {
        let v: Vec<(String, String)> = vec![("--align-self-row".to_owned(), "auto".to_owned()), ("--align-self-column".to_owned(), "start".to_owned())];
        proof {
            assert(string_pairs_view(v@) =~= seq![(lit_bytes("--align-self-row"), lit_bytes("auto")), (lit_bytes("--align-self-column"), lit_bytes("start"))]);
        }
        Some(v)
    } else if bytes_eq(value.as_bytes(), "right".as_bytes()) {
        let v: Vec<(String, String)> = vec![("--align-self-row".to_owned(), "auto".to_owned()), ("--align-self-column".to_owned(), "end".to_owned())];
        proof {
            assert(string_pairs_view(v@) =~= seq![(lit_bytes("--align-self-row"), lit_bytes("auto")), (lit_bytes("--align-self-column"), lit_bytes("end"))]);
        }
        Some(v)
    } else if bytes_eq(value.as_bytes(), "start".as_bytes()) {
        let v: Vec<(String, String)> = vec![("--align-self-row".to_owned(), "start".to_owned()), ("--align-self-column".to_owned(), "start".to_owned())];
        proof {
            assert(string_pairs_view(v@) =~= seq![(lit_bytes("--align-self-row"), lit_bytes("start")), (lit_bytes("--align-self-column"), lit_bytes("start"))]);
        }
        Some(v)
    } else if bytes_eq(value.as_bytes(), "end".as_bytes()) {
        let v: Vec<(String, String)> = vec![("--align-self-row".to_owned(), "end".to_owned()), ("--align-self-column".to_owned(), "end".to_owned())];
        proof {
            assert(string_pairs_view(v@) =~= seq![(lit_bytes("--align-self-row"), lit_bytes("end")), (lit_bytes("--align-self-column"), lit_bytes("end"))]);
        }
        Some(v)
    } else if bytes_eq(value.as_bytes(), "center".as_bytes()) {
        let v: Vec<(String, String)> = vec![("--align-self-row".to_owned(), "center".to_owned()), ("--align-self-column".to_owned(), "center".to_owned())];
        proof {
            assert(string_pairs_view(v@) =~= seq![(lit_bytes("--align-self-row"), lit_bytes("center")), (lit_bytes("--align-self-column"), lit_bytes("center"))]);
        }
        Some(v)
    } else if bytes_eq(value.as_bytes(), "center-vertical".as_bytes()) {
        let v: Vec<(String, String)> = vec![("--align-self-row".to_owned(), "center".to_owned()), ("--align-self-column".to_owned(), "start".to_owned())];
        proof {
            assert(string_pairs_view(v@) =~= seq![(lit_bytes("--align-self-row"), lit_bytes("center")), (lit_bytes("--align-self-column"), lit_bytes("start"))]);
        }
        Some(v)
    } else if bytes_eq(value.as_bytes(), "center-horizontal".as_bytes()) {
        let v: Vec<(String, String)> = vec![("--align-self-row".to_owned(), "start".to_owned()), ("--align-self-column".to_owned(), "center".to_owned())];
        proof {
            assert(string_pairs_view(v@) =~= seq![(lit_bytes("--align-self-row"), lit_bytes("start")), (lit_bytes("--align-self-column"), lit_bytes("center"))]);
        }
        Some(v)
    } else if bytes_eq(value.as_bytes(), "fill-vertical".as_bytes()) {
        let v: Vec<(String, String)> = vec![("--align-self-row".to_owned(), "stretch".to_owned()), ("--align-self-column".to_owned(), "auto".to_owned())];
        proof {
            assert(string_pairs_view(v@) =~= seq![(lit_bytes("--align-self-row"), lit_bytes("stretch")), (lit_bytes("--align-self-column"), lit_bytes("auto"))]);
        }
        Some(v)
    } else if bytes_eq(value.as_bytes(), "fill-horizontal".as_bytes()) {
        let v: Vec<(String, String)> = vec![("--align-self-row".to_owned(), "auto".to_owned()), ("--align-self-column".to_owned(), "stretch".to_owned())];
        proof {
            assert(string_pairs_view(v@) =~= seq![(lit_bytes("--align-self-row"), lit_bytes("auto")), (lit_bytes("--align-self-column"), lit_bytes("stretch"))]);
        }
        Some(v)
    } else {
        None
    }
}

fn justify_content_rule_strings(value: &str) -> (r: Option<Vec<(String, String)>>)
    ensures
        match r {
            Some(v) => justify_content_rule_spec(encode_utf8(value@)) == Some(string_pairs_view(v@)),
            None => justify_content_rule_spec(encode_utf8(value@)) is None,
        },
{
    if bytes_eq(value.as_bytes(), "start".as_bytes()) {
        let v: Vec<(String, String)> = vec![("justify-content".to_owned(), "flex-start".to_owned())];
        proof {
            assert(string_pairs_view(v@) =~= seq![(lit_bytes("justify-content"), lit_bytes("flex-start"))]);
        }
        Some(v)
    } else if bytes_eq(value.as_bytes(), "end".as_bytes()) {
        let v: Vec<(String, String)> = vec![("justify-content".to_owned(), "flex-end".to_owned())];
        proof {
            assert(string_pairs_view(v@) =~= seq![(lit_bytes("justify-content"), lit_bytes("flex-end"))]);
        }
        Some(v)
    } else if bytes_eq(value.as_bytes(), "left".as_bytes()) {
        let v: Vec<(String, String)> = vec![("justify-content".to_owned(), "--lynx-invalid-invalid-invalid".to_owned())];
        proof {
            assert(string_pairs_view(v@) =~= seq![(lit_bytes("justify-content"), lit_bytes("--lynx-invalid-invalid-invalid"))]);
        }
        Some(v)
    } else if bytes_eq(value.as_bytes(), "right".as_bytes()) {
        let v: Vec<(String, String)> = vec![("justify-content".to_owned(), "--lynx-invalid-invalid-invalid".to_owned())];
        proof {
            assert(string_pairs_view(v@) =~= seq![(lit_bytes("justify-content"), lit_bytes("--lynx-invalid-invalid-invalid"))]);
        }
        Some(v)
    } else {
        None
    }
}

/// The replace table looked up by name and value: the ordered
/// replacement pairs, or nothing.
pub fn get_replace_rule_value(name: &str, value: &str) -> (r: Option<Vec<(String, String)>>)
    ensures
        match r {
            Some(v) => replace_rule_spec(encode_utf8(name@), encode_utf8(value@)) == Some(
                string_pairs_view(v@),
            ),
            None => replace_rule_spec(encode_utf8(name@), encode_utf8(value@)) is None,
        },
{
    if bytes_eq(name.as_bytes(), "display".as_bytes()) {
        display_rule_strings(value)
    } else if bytes_eq(name.as_bytes(), "direction".as_bytes()) {
        direction_rule_strings(value)
    } else if bytes_eq(name.as_bytes(), "linear-orientation".as_bytes()) {
        linear_orientation_rule_strings(value)
    } else if bytes_eq(name.as_bytes(), "linear-direction".as_bytes()) {
        linear_direction_rule_strings(value)
    } else if bytes_eq(name.as_bytes(), "linear-gravity".as_bytes()) {
        linear_gravity_rule_strings(value)
    } else if bytes_eq(name.as_bytes(), "linear-cross-gravity".as_bytes()) {
        linear_cross_gravity_rule_strings(value)
    } else if bytes_eq(name.as_bytes(), "linear-layout-gravity".as_bytes()) {
        linear_layout_gravity_rule_strings(value)
    } else if bytes_eq(name.as_bytes(), "justify-content".as_bytes()) {
        justify_content_rule_strings(value)
    } else {
        None
    }
}

/// Every entry of the rename table is valid UTF-8.
pub proof fn lemma_rename_rule_valid(name: Seq<u8>)
    ensures
        rename_rule_spec(name) matches Some(x) ==> vstd::utf8::valid_utf8(x),
{
    broadcast use vstd::utf8::encode_utf8_valid_utf8;

}

proof fn display_pairs_valid(value: Seq<u8>)
    ensures
        display_rule_spec(value) matches Some(l) ==> forall|i: int|
            0 <= i < l.len() ==> vstd::utf8::valid_utf8(#[trigger] l[i].0) && vstd::utf8::valid_utf8(
                l[i].1,
            ),
{
    broadcast use vstd::utf8::encode_utf8_valid_utf8;

}

proof fn direction_pairs_valid(value: Seq<u8>)
    ensures
        direction_rule_spec(value) matches Some(l) ==> forall|i: int|
            0 <= i < l.len() ==> vstd::utf8::valid_utf8(#[trigger] l[i].0) && vstd::utf8::valid_utf8(
                l[i].1,
            ),
{
    broadcast use vstd::utf8::encode_utf8_valid_utf8;

}

proof fn linear_orientation_pairs_valid(value: Seq<u8>)
    ensures
        linear_orientation_rule_spec(value) matches Some(l) ==> forall|i: int|
            0 <= i < l.len() ==> vstd::utf8::valid_utf8(#[trigger] l[i].0) && vstd::utf8::valid_utf8(
                l[i].1,
            ),
{
    broadcast use vstd::utf8::encode_utf8_valid_utf8;

}

proof fn linear_direction_pairs_valid(value: Seq<u8>)
    ensures
        linear_direction_rule_spec(value) matches Some(l) ==> forall|i: int|
            0 <= i < l.len() ==> vstd::utf8::valid_utf8(#[trigger] l[i].0) && vstd::utf8::valid_utf8(
                l[i].1,
            ),
{
    broadcast use vstd::utf8::encode_utf8_valid_utf8;

}

#[verifier::rlimit(100)]
proof fn linear_gravity_pairs_valid(value: Seq<u8>)
    ensures
        linear_gravity_rule_spec(value) matches Some(l) ==> forall|i: int|
            0 <= i < l.len() ==> vstd::utf8::valid_utf8(#[trigger] l[i].0) && vstd::utf8::valid_utf8(
                l[i].1,
            ),
{
    broadcast use vstd::utf8::encode_utf8_valid_utf8;

}

proof fn linear_cross_gravity_pairs_valid(value: Seq<u8>)
    ensures
        linear_cross_gravity_rule_spec(value) matches Some(l) ==> forall|i: int|
            0 <= i < l.len() ==> vstd::utf8::valid_utf8(#[trigger] l[i].0) && vstd::utf8::valid_utf8(
                l[i].1,
            ),
{
    broadcast use vstd::utf8::encode_utf8_valid_utf8;

}

#[verifier::rlimit(100)]
proof fn linear_layout_gravity_pairs_valid(value: Seq<u8>)
    ensures
        linear_layout_gravity_rule_spec(value) matches Some(l) ==> forall|i: int|
            0 <= i < l.len() ==> vstd::utf8::valid_utf8(#[trigger] l[i].0) && vstd::utf8::valid_utf8(
                l[i].1,
            ),
{
    broadcast use vstd::utf8::encode_utf8_valid_utf8;

}

proof fn justify_content_pairs_valid(value: Seq<u8>)
    ensures
        justify_content_rule_spec(value) matches Some(l) ==> forall|i: int|
            0 <= i < l.len() ==> vstd::utf8::valid_utf8(#[trigger] l[i].0) && vstd::utf8::valid_utf8(
                l[i].1,
            ),
{
    broadcast use vstd::utf8::encode_utf8_valid_utf8;

}

/// Every entry of the replace table is valid UTF-8 on both sides.
pub proof fn lemma_replace_rule_valid(name: Seq<u8>, value: Seq<u8>)
    ensures
        replace_rule_spec(name, value) matches Some(l) ==> forall|i: int|
            0 <= i < l.len() ==> vstd::utf8::valid_utf8(#[trigger] l[i].0) && vstd::utf8::valid_utf8(
                l[i].1,
            ),
{

    display_pairs_valid(value);
    direction_pairs_valid(value);
    linear_orientation_pairs_valid(value);
    linear_direction_pairs_valid(value);
    linear_gravity_pairs_valid(value);
    linear_cross_gravity_pairs_valid(value);
    linear_layout_gravity_pairs_valid(value);
    justify_content_pairs_valid(value);
}

} // verus!
