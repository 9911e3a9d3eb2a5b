//! The rewrite driver: consumes declarations, derives replacement pairs
//! from the rule tables and the property-specific logic for `color`,
//! `flex`, `linear-weight` and `linear-weight-sum`, and assembles the
//! rewritten style text and the separate children style text.

use crate::char_code_definitions::{is_white_space, is_white_space_spec};
use crate::parser::parse_inline_style::{
    decls_bytes_spec, parse_inline_style_bytes, DeclSpec, Transformer,
};
use crate::parser::tokenize::cut_at;
use crate::parser::utils::widen_spec;
use crate::transformer::rules::{
    bytes_eq, get_rename_rule_bytes, get_replace_rule_bytes, lit_bytes, pairs_view,
    rename_rule_spec, replace_rule_spec,
};
use vstd::prelude::*;
use vstd::slice::{slice_subrange, slice_to_vec};
use vstd::utf8::{encode_utf8, is_char_boundary, valid_utf8};

verus! {

/// Whether every byte is a decimal digit; vacuously true of an empty
/// sequence.
pub open spec fn is_digit_only_spec(b: Seq<u8>) -> bool {
    forall|i: int| 0 <= i < b.len() ==> 0x30 <= #[trigger] b[i] <= 0x39
}

pub fn is_digit_only_bytes(source: &[u8]) -> (r: bool)
    ensures
        r == is_digit_only_spec(source@),
{
    let mut i: usize = 0;
    while i < source.len()
        invariant
            i <= source.len(),
            forall|j: int| 0 <= j < i ==> 0x30 <= #[trigger] source@[j] <= 0x39,
        ensures
            i <= source.len(),
            forall|j: int| 0 <= j < i ==> 0x30 <= #[trigger] source@[j] <= 0x39,
            i < source.len() ==> !(0x30 <= source@[i as int] <= 0x39),
        decreases source.len() - i,
    {
        let code = source[i];
        if code > 0x39 || code < 0x30 {
            break ;
        }
        i += 1;
    }
    i == source.len()
}

/// Whether the text is made of decimal digits alone.
pub fn is_digit_only(source: &str) -> (r: bool)
    ensures
        r == is_digit_only_spec(encode_utf8(source@)),
{
    is_digit_only_bytes(source.as_bytes())
}

/// Whether `v` begins with `p`.
pub open spec fn starts_with_spec(v: Seq<u8>, p: Seq<u8>) -> bool {
    v.len() >= p.len() && v.subrange(0, p.len() as int) == p
}

pub(crate) fn starts_with_bytes(v: &[u8], p: &[u8]) -> (r: bool)
    ensures
        r == starts_with_spec(v@, p@),
{
    if v.len() < p.len() {
        return false;
    }
    let prefix = slice_subrange(v, 0, p.len());
    bytes_eq(prefix, p)
}

/// The field-boundary table before the flex scan: six entries, each the
/// buffer length.
pub open spec fn flex_init_fields(vb: Seq<u8>) -> Seq<int> {
    Seq::new(6, |i: int| vb.len() as int)
}

/// The flex whitespace-split scan: walking the value, even entries record
/// where a field starts and odd entries where it ends, up to six marks.
pub open spec fn flex_scan(vb: Seq<u8>, cur: int, ii: int, f: Seq<int>) -> (int, Seq<int>)
    decreases vb.len() - cur,
{
    if 0 <= cur < vb.len() && 0 <= ii < 6 {
        let c = vb[cur];
        if (ii % 2 == 0 && !is_white_space_spec(c as int)) || (ii % 2 == 1 && is_white_space_spec(
            c as int,
        )) {
            flex_scan(vb, cur + 1, ii + 1, f.update(ii, cur))
        } else {
            flex_scan(vb, cur + 1, ii, f)
        }
    } else {
        (ii, f)
    }
}

/// The scan only moves marks forward: marks below `ii` are kept, new marks
/// lie in `[cur, len)` in strictly increasing order, and marks at or past
/// the final count stay at the buffer length.
pub proof fn lemma_flex_scan_wf(vb: Seq<u8>, cur: int, ii: int, f: Seq<int>)
    requires
        0 <= cur <= vb.len(),
        0 <= ii <= 6,
        f.len() == 6,
        forall|k: int| ii <= k < 6 ==> f[k] == vb.len(),
        forall|k: int| 0 <= k < ii ==> 0 <= #[trigger] f[k] < cur,
        forall|j: int, k: int| 0 <= j < k < ii ==> f[j] < f[k],
        ii % 2 == 0 ==> cur == 0 || is_white_space_spec(vb[cur - 1] as int),
        forall|k: int|
            0 <= k < ii && k % 2 == 0 ==> #[trigger] f[k] == 0 || is_white_space_spec(
                vb[f[k] - 1] as int,
            ),
        forall|k: int|
            0 <= k < ii && k % 2 == 1 ==> is_white_space_spec(#[trigger] vb[f[k]] as int),
    ensures
        ({
            let (ii2, f2) = flex_scan(vb, cur, ii, f);
            &&& ii <= ii2 <= 6
            &&& f2.len() == 6
            &&& forall|k: int| 0 <= k < ii ==> f2[k] == f[k]
            &&& forall|k: int| ii2 <= k < 6 ==> f2[k] == vb.len()
            &&& forall|k: int| 0 <= k < ii2 ==> 0 <= #[trigger] f2[k] < vb.len()
            &&& forall|j: int, k: int| 0 <= j < k < ii2 ==> f2[j] < f2[k]
            &&& forall|k: int|
                0 <= k < ii2 && k % 2 == 0 ==> #[trigger] f2[k] == 0 || is_white_space_spec(
                    vb[f2[k] - 1] as int,
                )
            &&& forall|k: int|
                0 <= k < ii2 && k % 2 == 1 ==> is_white_space_spec(#[trigger] vb[f2[k]] as int)
        }),
    decreases vb.len() - cur,
{
    if 0 <= cur < vb.len() && ii < 6 {
        let c = vb[cur];
        if (ii % 2 == 0 && !is_white_space_spec(c as int)) || (ii % 2 == 1 && is_white_space_spec(
            c as int,
        )) {
            lemma_flex_scan_wf(vb, cur + 1, ii + 1, f.update(ii, cur));
        } else {
            lemma_flex_scan_wf(vb, cur + 1, ii, f);
        }
    }
}

/// The replacement pairs of the `flex` shorthand: the value is split on
/// whitespace into up to three fields, and grow, shrink and basis are
/// assigned per the field count.
pub open spec fn flex_pairs_spec(vb: Seq<u8>) -> Seq<(Seq<u8>, Seq<u8>)> {
    let (ii, f) = flex_scan(vb, 0, 0, flex_init_fields(vb));
    let n = (ii + 1) / 2;
    if n == 1 {
        let fld = vb.subrange(f[0], f[1]);
        if fld == lit_bytes("none") {
            seq![
                (lit_bytes("--flex-shrink"), lit_bytes("0")),
                (lit_bytes("--flex-grow"), lit_bytes("0")),
                (lit_bytes("--flex-basis"), lit_bytes("auto")),
            ]
        } else if fld == lit_bytes("auto") {
            seq![
                (lit_bytes("--flex-shrink"), lit_bytes("1")),
                (lit_bytes("--flex-grow"), lit_bytes("1")),
                (lit_bytes("--flex-basis"), lit_bytes("auto")),
            ]
        } else if is_digit_only_spec(fld) {
            seq![
                (lit_bytes("--flex-grow"), fld),
                (lit_bytes("--flex-shrink"), lit_bytes("1")),
                (lit_bytes("--flex-basis"), lit_bytes("0%")),
            ]
        } else {
            seq![
                (lit_bytes("--flex-grow"), lit_bytes("1")),
                (lit_bytes("--flex-shrink"), lit_bytes("1")),
                (lit_bytes("--flex-basis"), fld),
            ]
        }
    } else if n == 2 {
        let fld1 = vb.subrange(f[0], f[1]);
        let fld2 = vb.subrange(f[2], f[3]);
        if is_digit_only_spec(fld2) {
            seq![
                (lit_bytes("--flex-grow"), fld1),
                (lit_bytes("--flex-shrink"), fld2),
                (lit_bytes("--flex-basis"), lit_bytes("0%")),
            ]
        } else {
            seq![
                (lit_bytes("--flex-grow"), fld1),
                (lit_bytes("--flex-shrink"), lit_bytes("1")),
                (lit_bytes("--flex-basis"), fld2),
            ]
        }
    } else if n == 3 {
        seq![
            (lit_bytes("--flex-grow"), vb.subrange(f[0], f[1])),
            (lit_bytes("--flex-shrink"), vb.subrange(f[2], f[3])),
            (lit_bytes("--flex-basis"), vb.subrange(f[4], f[5])),
        ]
    } else {
        Seq::empty()
    }
}

/// The replacement pairs of the `color` property: a value opening with
/// `linear-gradient` routes the gradient to a custom property over a
/// transparent text fill; any other value resets those custom properties
/// and keeps the color.
pub open spec fn color_pairs_spec(vb: Seq<u8>) -> Seq<(Seq<u8>, Seq<u8>)> {
    if starts_with_spec(vb, lit_bytes("linear-gradient")) {
        seq![
            (lit_bytes("color"), lit_bytes("transparent")),
            (lit_bytes("-webkit-background-clip"), lit_bytes("text")),
            (lit_bytes("background-clip"), lit_bytes("text")),
            (lit_bytes("--lynx-text-bg-color"), vb),
        ]
    } else {
        seq![
            (lit_bytes("--lynx-text-bg-color"), lit_bytes("initial")),
            (lit_bytes("-webkit-background-clip"), lit_bytes("initial")),
            (lit_bytes("background-clip"), lit_bytes("initial")),
            (lit_bytes("color"), vb),
        ]
    }
}

/// The same-element replacement pairs of a declaration, before the
/// `linear-weight` addition: rename, replace, `color` and `flex` are
/// tried in this priority order.
pub open spec fn primary_pairs_spec(nb: Seq<u8>, vb: Seq<u8>) -> Seq<(Seq<u8>, Seq<u8>)> {
    if rename_rule_spec(nb) is Some {
        seq![(rename_rule_spec(nb).unwrap(), vb)]
    } else if replace_rule_spec(nb, vb) is Some {
        replace_rule_spec(nb, vb).unwrap()
    } else if nb == lit_bytes("color") {
        color_pairs_spec(vb)
    } else if nb == lit_bytes("flex") {
        flex_pairs_spec(vb)
    } else {
        Seq::empty()
    }
}

/// Everything a declaration `(name, value)` produces: the same-element
/// pairs (with the `--lynx-linear-weight-basis` addition for a non-zero
/// `linear-weight`), and the pairs bound for descendant elements (only
/// `linear-weight-sum` produces any).
pub open spec fn query_rules_spec(nb: Seq<u8>, vb: Seq<u8>) -> (
    Seq<(Seq<u8>, Seq<u8>)>,
    Seq<(Seq<u8>, Seq<u8>)>,
) {
    let primary = primary_pairs_spec(nb, vb);
    let primary2 = if nb == lit_bytes("linear-weight") && vb != lit_bytes("0") {
        primary.push((lit_bytes("--lynx-linear-weight-basis"), lit_bytes("0")))
    } else {
        primary
    };
    let children = if nb == lit_bytes("linear-weight-sum") {
        seq![(lit_bytes("--lynx-linear-weight-sum"), vb)]
    } else {
        Seq::empty()
    };
    (primary2, children)
}

/// The byte sequences of a list of owned byte pairs.
pub open spec fn vec_pairs_view(v: Seq<(Vec<u8>, Vec<u8>)>) -> Seq<(Seq<u8>, Seq<u8>)> {
    v.map_values(|p: (Vec<u8>, Vec<u8>)| (p.0@, p.1@))
}

/// The `color` expansion over raw bytes.
fn color_rules_bytes(value: &[u8]) -> (result: Vec<(Vec<u8>, Vec<u8>)>)
    ensures
        vec_pairs_view(result@) == color_pairs_spec(value@),
{
    let mut result: Vec<(Vec<u8>, Vec<u8>)> = Vec::new();
    let is_linear_gradient = starts_with_bytes(value, "linear-gradient".as_bytes());
    if is_linear_gradient {
        result.push((slice_to_vec("color".as_bytes()), slice_to_vec("transparent".as_bytes())));
        result.push(
            (
                slice_to_vec("-webkit-background-clip".as_bytes()),
                slice_to_vec("text".as_bytes()),
            ),
        );
        result.push(
            (slice_to_vec("background-clip".as_bytes()), slice_to_vec("text".as_bytes())),
        );
        result.push((slice_to_vec("--lynx-text-bg-color".as_bytes()), slice_to_vec(value)));
    } else {
        result.push(
            (slice_to_vec("--lynx-text-bg-color".as_bytes()), slice_to_vec("initial".as_bytes())),
        );
        result.push(
            (
                slice_to_vec("-webkit-background-clip".as_bytes()),
                slice_to_vec("initial".as_bytes()),
            ),
        );
        result.push(
            (slice_to_vec("background-clip".as_bytes()), slice_to_vec("initial".as_bytes())),
        );
        result.push((slice_to_vec("color".as_bytes()), slice_to_vec(value)));
    }
    proof {
        assert(vec_pairs_view(result@) =~= color_pairs_spec(value@));
    }
    result
}

/// The `flex` shorthand expansion over raw bytes.
#[verifier::rlimit(100)]
fn flex_rules_bytes(value: &[u8]) -> (result: Vec<(Vec<u8>, Vec<u8>)>)
    ensures
        vec_pairs_view(result@) == flex_pairs_spec(value@),
{
    let mut result: Vec<(Vec<u8>, Vec<u8>)> = Vec::new();
    let mut current_offset: usize = 0;
    let mut val_fields: Vec<usize> = Vec::new();
    val_fields.push(value.len());
    val_fields.push(value.len());
    val_fields.push(value.len());
    val_fields.push(value.len());
    val_fields.push(value.len());
    val_fields.push(value.len());
    let mut ii: usize = 0;
    proof {
        assert(val_fields@.map_values(|x: usize| x as int) =~= flex_init_fields(value@));
    }
    while current_offset < value.len() && ii < 6
        invariant
            ii <= 6,
            current_offset <= value.len(),
            val_fields@.len() == 6,
            flex_scan(value@, 0, 0, flex_init_fields(value@)) == flex_scan(
                value@,
                current_offset as int,
                ii as int,
                val_fields@.map_values(|x: usize| x as int),
            ),
        ensures
            ii <= 6,
            current_offset <= value.len(),
            val_fields@.len() == 6,
            !(current_offset < value.len() && ii < 6),
            flex_scan(value@, 0, 0, flex_init_fields(value@)) == (
                ii as int,
                val_fields@.map_values(|x: usize| x as int),
            ),
        decreases value.len() - current_offset,
    {
        let ghost fields_before = val_fields@.map_values(|x: usize| x as int);
        let code = value[current_offset];
        if (ii % 2 == 0 && !is_white_space(code)) || (ii % 2 == 1 && is_white_space(code)) {
            val_fields[ii] = current_offset;
            proof {
                assert(val_fields@.map_values(|x: usize| x as int) =~= fields_before.update(
                    ii as int,
                    current_offset as int,
                ));
            }
            ii += 1;
        }
        current_offset += 1;
    }
    proof {
        lemma_flex_scan_wf(value@, 0, 0, flex_init_fields(value@));
    }
    let value_num: usize = (ii + 1) / 2;
    let ghost f = val_fields@.map_values(|x: usize| x as int);
    proof {
        assert forall|k: int| 0 <= k < 6 implies f[k] == val_fields@[k] as int by {}
        assert(value_num as int <= 3);
    }
    if value_num == 1 {
        proof {
            assert(0 < ii as int);
            assert(f[0] <= f[1] <= value@.len());
        }
        let field = slice_subrange(value, val_fields[0], val_fields[1]);
        proof {
            assert(field@ == value@.subrange(f[0], f[1]));
        }
        if bytes_eq(field, "none".as_bytes()) {
            result.push(
                (slice_to_vec("--flex-shrink".as_bytes()), slice_to_vec("0".as_bytes())),
            );
            result.push((slice_to_vec("--flex-grow".as_bytes()), slice_to_vec("0".as_bytes())));
            result.push(
                (slice_to_vec("--flex-basis".as_bytes()), slice_to_vec("auto".as_bytes())),
            );
        } else if bytes_eq(field, "auto".as_bytes()) {
            result.push(
                (slice_to_vec("--flex-shrink".as_bytes()), slice_to_vec("1".as_bytes())),
            );
            result.push((slice_to_vec("--flex-grow".as_bytes()), slice_to_vec("1".as_bytes())));
            result.push(
                (slice_to_vec("--flex-basis".as_bytes()), slice_to_vec("auto".as_bytes())),
            );
        } else {
            let is_flex_grow = is_digit_only_bytes(field);
            if is_flex_grow {
                result.push((slice_to_vec("--flex-grow".as_bytes()), slice_to_vec(field)));
                result.push(
                    (slice_to_vec("--flex-shrink".as_bytes()), slice_to_vec("1".as_bytes())),
                );
                result.push(
                    (slice_to_vec("--flex-basis".as_bytes()), slice_to_vec("0%".as_bytes())),
                );
            } else {
                result.push(
                    (slice_to_vec("--flex-grow".as_bytes()), slice_to_vec("1".as_bytes())),
                );
                result.push(
                    (slice_to_vec("--flex-shrink".as_bytes()), slice_to_vec("1".as_bytes())),
                );
                result.push((slice_to_vec("--flex-basis".as_bytes()), slice_to_vec(field)));
            }
        }
    } else if value_num == 2 {
        proof {
            assert(2 < ii as int);
            assert(f[0] <= f[1] <= value@.len() && f[2] <= f[3] <= value@.len());
        }
        let field1 = slice_subrange(value, val_fields[0], val_fields[1]);
        let field2 = slice_subrange(value, val_fields[2], val_fields[3]);
        result.push((slice_to_vec("--flex-grow".as_bytes()), slice_to_vec(field1)));
        let is_flex_shrink = is_digit_only_bytes(field2);
        if is_flex_shrink {
            result.push((slice_to_vec("--flex-shrink".as_bytes()), slice_to_vec(field2)));
            result.push(
                (slice_to_vec("--flex-basis".as_bytes()), slice_to_vec("0%".as_bytes())),
            );
        } else {
            result.push(
                (slice_to_vec("--flex-shrink".as_bytes()), slice_to_vec("1".as_bytes())),
            );
            result.push((slice_to_vec("--flex-basis".as_bytes()), slice_to_vec(field2)));
        }
    } else if value_num == 3 {
        proof {
            assert(4 < ii as int);
            assert(f[0] <= f[1] <= value@.len() && f[2] <= f[3] <= value@.len() && f[4] <= f[5]
                <= value@.len());
        }
        let field1 = slice_subrange(value, val_fields[0], val_fields[1]);
        let field2 = slice_subrange(value, val_fields[2], val_fields[3]);
        let field3 = slice_subrange(value, val_fields[4], val_fields[5]);
        result.push((slice_to_vec("--flex-grow".as_bytes()), slice_to_vec(field1)));
        result.push((slice_to_vec("--flex-shrink".as_bytes()), slice_to_vec(field2)));
        result.push((slice_to_vec("--flex-basis".as_bytes()), slice_to_vec(field3)));
    }
    proof {
        assert(vec_pairs_view(result@) =~= flex_pairs_spec(value@));
    }
    result
}

/// The replacement pairs of one declaration, over raw bytes: the
/// same-element list and the children list of `query_rules_spec`.
pub fn query_transform_rules_bytes(name: &[u8], value: &[u8]) -> (r: (
    Vec<(Vec<u8>, Vec<u8>)>,
    Vec<(Vec<u8>, Vec<u8>)>,
))
    ensures
        vec_pairs_view(r.0@) == query_rules_spec(name@, value@).0,
        vec_pairs_view(r.1@) == query_rules_spec(name@, value@).1,
{
    let mut result: Vec<(Vec<u8>, Vec<u8>)> = Vec::new();
    let mut result_children: Vec<(Vec<u8>, Vec<u8>)> = Vec::new();
    if let Some(renamed_value) = get_rename_rule_bytes(name) {
        result.push((slice_to_vec(renamed_value), slice_to_vec(value)));
        proof {
            assert(vec_pairs_view(result@) =~= primary_pairs_spec(name@, value@));
        }
    } else if let Some(replaced) = get_replace_rule_bytes(name, value) {
        let mut k: usize = 0;
        while k < replaced.len()
            invariant
                k <= replaced@.len(),
                result@.len() == k,
                forall|j: int|
                    0 <= j < k ==> (#[trigger] result@[j].0@, result@[j].1@) == (
                        replaced@[j].0@,
                        replaced@[j].1@,
                    ),
            decreases replaced.len() - k,
        {
            let (a, b) = replaced[k];
            result.push((slice_to_vec(a), slice_to_vec(b)));
            k += 1;
        }
        proof {
            assert(vec_pairs_view(result@) =~= pairs_view(replaced@));
            assert(vec_pairs_view(result@) =~= primary_pairs_spec(name@, value@));
        }
    } else if bytes_eq(name, "color".as_bytes()) {
        result = color_rules_bytes(value);
        proof {
            assert(vec_pairs_view(result@) =~= primary_pairs_spec(name@, value@));
        }
    } else if bytes_eq(name, "flex".as_bytes()) {
        result = flex_rules_bytes(value);
        proof {
            assert(vec_pairs_view(result@) =~= primary_pairs_spec(name@, value@));
        }
    } else {
        proof {
            assert(vec_pairs_view(result@) =~= primary_pairs_spec(name@, value@));
        }
    }
    if bytes_eq(name, "linear-weight-sum".as_bytes()) {
        result_children.push(
            (slice_to_vec("--lynx-linear-weight-sum".as_bytes()), slice_to_vec(value)),
        );
    }
    if bytes_eq(name, "linear-weight".as_bytes()) && !bytes_eq(value, "0".as_bytes()) {
        result.push(
            (slice_to_vec("--lynx-linear-weight-basis".as_bytes()), slice_to_vec("0".as_bytes())),
        );
    }
    proof {
        assert(vec_pairs_view(result@) =~= query_rules_spec(name@, value@).0);
        assert(vec_pairs_view(result_children@) =~= query_rules_spec(name@, value@).1);
    }
    (result, result_children)
}

/// The text of one replacement pair: `name:value`.
pub open spec fn pair_text(p: (Seq<u8>, Seq<u8>)) -> Seq<u8> {
    p.0 + lit_bytes(":") + p.1
}

/// The same-element pairs rendered in order, joined by `;` — with
/// ` !important` before each separating `;` when the declaration carried
/// the marker — and nothing after the last pair.
pub open spec fn render_pairs(ps: Seq<(Seq<u8>, Seq<u8>)>, important: bool) -> Seq<u8>
    decreases ps.len(),
{
    if ps.len() == 0 {
        Seq::empty()
    } else if ps.len() == 1 {
        pair_text(ps[0])
    } else {
        pair_text(ps[0]) + (if important {
            lit_bytes(" !important;")
        } else {
            lit_bytes(";")
        }) + render_pairs(ps.drop_first(), important)
    }
}

/// The children pairs rendered in order, each followed by ` !important`
/// when marked and always by a trailing `;`.
pub open spec fn render_children_pairs(ps: Seq<(Seq<u8>, Seq<u8>)>, important: bool) -> Seq<u8>
    decreases ps.len(),
{
    if ps.len() == 0 {
        Seq::empty()
    } else {
        pair_text(ps[0]) + (if important {
            lit_bytes(" !important")
        } else {
            Seq::empty()
        }) + lit_bytes(";") + render_children_pairs(ps.drop_first(), important)
    }
}

/// Unrolling `render_pairs` at position `i`.
proof fn lemma_render_pairs_skip(ps: Seq<(Seq<u8>, Seq<u8>)>, important: bool, i: int)
    requires
        0 <= i < ps.len(),
    ensures
        render_pairs(ps.skip(i), important) == pair_text(ps[i]) + (if i < ps.len() - 1 {
            if important {
                lit_bytes(" !important;")
            } else {
                lit_bytes(";")
            }
        } else {
            Seq::empty()
        }) + render_pairs(ps.skip(i + 1), important),
{
    let tail = ps.skip(i);
    assert(tail[0] == ps[i]);
    if i < ps.len() - 1 {
        assert(tail.drop_first() =~= ps.skip(i + 1));
    } else {
        assert(ps.skip(i + 1) =~= Seq::<(Seq<u8>, Seq<u8>)>::empty());
        assert(pair_text(ps[i]) + Seq::empty() + Seq::empty() =~= pair_text(ps[i]));
    }
}

/// Unrolling `render_children_pairs` at position `i`.
proof fn lemma_render_children_skip(ps: Seq<(Seq<u8>, Seq<u8>)>, important: bool, i: int)
    requires
        0 <= i < ps.len(),
    ensures
        render_children_pairs(ps.skip(i), important) == pair_text(ps[i]) + (if important {
            lit_bytes(" !important")
        } else {
            Seq::empty()
        }) + lit_bytes(";") + render_children_pairs(ps.skip(i + 1), important),
{
    let tail = ps.skip(i);
    assert(tail[0] == ps[i]);
    assert(tail.drop_first() =~= ps.skip(i + 1));
}

/// The rewrite driver's running state: the primary output so far, the
/// offset up to which the source has been handled, and the children
/// output so far.
pub struct RewriteState {
    pub primary: Seq<u8>,
    pub offset: int,
    pub children: Seq<u8>,
}

pub open spec fn init_rewrite_state() -> RewriteState {
    RewriteState { primary: Seq::empty(), offset: 0, children: Seq::empty() }
}

/// One declaration's effect on the driver state: when it produces primary
/// pairs, everything between the last handled offset and its name is
/// copied verbatim, the rendered pairs follow, and the handled offset
/// moves to the value's end (leaving the original trailing text to the
/// next verbatim copy); children pairs are appended to the separate
/// children output. A declaration whose spans do not lie in order inside
/// the buffer leaves the state unchanged; the parser never produces one.
pub open spec fn transform_step(b: Seq<u8>, st: RewriteState, d: DeclSpec) -> RewriteState {
    if 0 <= st.offset <= d.name_start && d.name_start <= d.name_end <= b.len() && 0
        <= d.value_start <= d.value_end <= b.len() {
        let name = b.subrange(d.name_start, d.name_end);
        let value = b.subrange(d.value_start, d.value_end);
        let q = query_rules_spec(name, value);
        RewriteState {
            primary: if q.0.len() > 0 {
                st.primary + b.subrange(st.offset, d.name_start) + render_pairs(
                    q.0,
                    d.is_important,
                )
            } else {
                st.primary
            },
            offset: if q.0.len() > 0 {
                d.value_end
            } else {
                st.offset
            },
            children: if q.1.len() > 0 {
                st.children + render_children_pairs(q.1, d.is_important)
            } else {
                st.children
            },
        }
    } else {
        st
    }
}

/// The driver state after a sequence of declarations.
pub open spec fn transform_run(b: Seq<u8>, ds: Seq<DeclSpec>) -> RewriteState
    decreases ds.len(),
{
    if ds.len() == 0 {
        init_rewrite_state()
    } else {
        transform_step(b, transform_run(b, ds.drop_last()), ds.last())
    }
}

/// The final outputs: when any declaration was rewritten, the source past
/// the last handled offset is appended verbatim; with no rewritten
/// declaration the primary output stays empty.
pub open spec fn transform_finish(b: Seq<u8>, st: RewriteState) -> (Seq<u8>, Seq<u8>) {
    if st.offset != 0 && 0 <= st.offset <= b.len() {
        (st.primary + b.subrange(st.offset, b.len() as int), st.children)
    } else {
        (st.primary, st.children)
    }
}

/// The rewritten text and the children text of an 8-bit style buffer.
pub open spec fn transform_bytes_spec(b: Seq<u8>) -> (Seq<u8>, Seq<u8>) {
    transform_finish(b, transform_run(b, decls_bytes_spec(b)))
}

fn push_bytes(out: &mut Vec<u8>, b: &[u8])
    ensures
        final(out)@ == old(out)@ + b@,
{
    let mut i: usize = 0;
    while i < b.len()
        invariant
            i <= b.len(),
            out@ == old(out)@ + b@.subrange(0, i as int),
        decreases b.len() - i,
    {
        proof {
            assert(old(out)@ + b@.subrange(0, i as int + 1) =~= (old(out)@ + b@.subrange(
                0,
                i as int,
            )).push(b@[i as int]));
        }
        out.push(b[i]);
        i += 1;
    }
    proof {
        assert(b@.subrange(0, b@.len() as int) =~= b@);
    }
}

fn copy_range(s: &[u8], a: usize, b: usize) -> (r: Vec<u8>)
    requires
        a <= b <= s.len(),
    ensures
        r@ == s@.subrange(a as int, b as int),
{
    slice_to_vec(slice_subrange(s, a, b))
}


/// Append `name:value` for each pair, joined by `;` (with ` !important`
/// before each separating `;` when marked), nothing after the last pair.
fn render_pairs_into(out: &mut Vec<u8>, pairs: &Vec<(Vec<u8>, Vec<u8>)>, important: bool)
    ensures
        final(out)@ == old(out)@ + render_pairs(vec_pairs_view(pairs@), important),
{
    let n = pairs.len();
    let ghost rs = vec_pairs_view(pairs@);
    let ghost base = out@;
    proof {
        assert(rs.skip(0) =~= rs);
    }
    let mut idx: usize = 0;
    while idx < n
        invariant
            n == pairs.len(),
            idx <= n,
            rs == vec_pairs_view(pairs@),
            rs.len() == n,
            out@ + render_pairs(rs.skip(idx as int), important) == base + render_pairs(
                rs,
                important,
            ),
        ensures
            out@ == base + render_pairs(rs, important),
        decreases n - idx,
    {
        proof {
            lemma_render_pairs_skip(rs, important, idx as int);
            assert(rs[idx as int] == (pairs@[idx as int].0@, pairs@[idx as int].1@));
        }
        push_bytes(out, pairs[idx].0.as_slice());
        push_bytes(out, ":".as_bytes());
        push_bytes(out, pairs[idx].1.as_slice());
        if idx < n - 1 {
            if important {
                push_bytes(out, " !important;".as_bytes());
            } else {
                push_bytes(out, ";".as_bytes());
            }
        }
        idx += 1;
    }
    proof {
        assert(rs.skip(n as int) =~= Seq::<(Seq<u8>, Seq<u8>)>::empty());
    }
}

/// Append `name:value[ !important];` for each children pair.
fn render_children_into(out: &mut Vec<u8>, pairs: &Vec<(Vec<u8>, Vec<u8>)>, important: bool)
    ensures
        final(out)@ == old(out)@ + render_children_pairs(vec_pairs_view(pairs@), important),
{
    let m = pairs.len();
    let ghost cs = vec_pairs_view(pairs@);
    let ghost cbase = out@;
    proof {
        assert(cs.skip(0) =~= cs);
    }
    let mut idx: usize = 0;
    while idx < m
        invariant
            m == pairs.len(),
            idx <= m,
            cs == vec_pairs_view(pairs@),
            cs.len() == m,
            out@ + render_children_pairs(cs.skip(idx as int), important) == cbase
                + render_children_pairs(cs, important),
        ensures
            out@ == cbase + render_children_pairs(cs, important),
        decreases m - idx,
    {
        proof {
            lemma_render_children_skip(cs, important, idx as int);
            assert(cs[idx as int] == (pairs@[idx as int].0@, pairs@[idx as int].1@));
        }
        push_bytes(out, pairs[idx].0.as_slice());
        push_bytes(out, ":".as_bytes());
        push_bytes(out, pairs[idx].1.as_slice());
        if important {
            push_bytes(out, " !important".as_bytes());
        }
        push_bytes(out, ";".as_bytes());
        idx += 1;
    }
    proof {
        assert(cs.skip(m as int) =~= Seq::<(Seq<u8>, Seq<u8>)>::empty());
    }
}

/// The rewrite driver's sink: it holds its own copy of the source bytes
/// and assembles the two output buffers as declarations arrive.
pub struct TransformerData {
    source: Vec<u8>,
    transformed_source: Vec<u8>,
    offset: usize,
    extra_children_styles: Vec<u8>,
    decls_seen: Ghost<Seq<DeclSpec>>,
}

impl TransformerData {
    pub fn new(source: &[u8]) -> (r: TransformerData)
        ensures
            r.inv(),
            r.decls() == Seq::<DeclSpec>::empty(),
            r.frame() == source@,
    {
        let r = TransformerData {
            source: slice_to_vec(source),
            transformed_source: Vec::new(),
            offset: 0,
            extra_children_styles: Vec::new(),
            decls_seen: Ghost(Seq::empty()),
        };
        r
    }

    /// Close the run: append the source past the last handled offset (only
    /// when something was rewritten) and hand both buffers out.
    pub fn finish(self) -> (r: (Vec<u8>, Vec<u8>))
        requires
            self.inv(),
        ensures
            (r.0@, r.1@) == transform_finish(self.frame(), transform_run(
                self.frame(),
                self.decls(),
            )),
    {
        let TransformerData {
            source,
            mut transformed_source,
            offset,
            extra_children_styles,
            decls_seen,
        } = self;
        if offset != 0 && offset <= source.len() {
            let tail = slice_subrange(source.as_slice(), offset, source.len());
            push_bytes(&mut transformed_source, tail);
        }
        (transformed_source, extra_children_styles)
    }
}

impl Transformer for TransformerData {
    closed spec fn inv(&self) -> bool {
        let st = transform_run(self.source@, self.decls_seen@);
        &&& self.transformed_source@ == st.primary
        &&& self.offset as int == st.offset
        &&& self.extra_children_styles@ == st.children
    }

    closed spec fn decls(&self) -> Seq<DeclSpec> {
        self.decls_seen@
    }

    closed spec fn frame(&self) -> Seq<u8> {
        self.source@
    }

    #[verifier::rlimit(100)]
    fn on_declaration(
        &mut self,
        name_start: usize,
        name_end: usize,
        value_start: usize,
        value_end: usize,
        is_important: bool,
    ) {
        let ghost d = DeclSpec {
            name_start: name_start as int,
            name_end: name_end as int,
            value_start: value_start as int,
            value_end: value_end as int,
            is_important: is_important,
        };
        let ghost st0 = transform_run(self.source@, self.decls_seen@);
        // The parser hands spans out in source order and in bounds; the
        // check keeps the method total for any caller.
        if self.offset <= name_start && name_start <= name_end && name_end <= self.source.len()
            && value_start <= value_end && value_end <= self.source.len() {
            let name = copy_range(self.source.as_slice(), name_start, name_end);
            let value = copy_range(self.source.as_slice(), value_start, value_end);
            let (result, result_children) = query_transform_rules_bytes(
                name.as_slice(),
                value.as_slice(),
            );
            if result.len() > 0 {
                let pre = copy_range(self.source.as_slice(), self.offset, name_start);
                push_bytes(&mut self.transformed_source, pre.as_slice());
                render_pairs_into(&mut self.transformed_source, &result, is_important);
                self.offset = value_end;
            }
            if result_children.len() > 0 {
                render_children_into(&mut self.extra_children_styles, &result_children, is_important);
            }
            proof {
                self.decls_seen@ = self.decls_seen@.push(d);
                assert(self.decls_seen@.drop_last() =~= old(self).decls_seen@);
                assert(transform_run(self.source@, self.decls_seen@) == transform_step(
                    self.source@,
                    st0,
                    d,
                ));
            }
        } else {
            proof {
                self.decls_seen@ = self.decls_seen@.push(d);
                assert(self.decls_seen@.drop_last() =~= old(self).decls_seen@);
            }
        }
    }
}

/// Rewrite one 8-bit style buffer: parse its declarations and apply the
/// rule-driven rewrite, returning the rewritten text and the children
/// text as bytes.
pub fn transform_inline_style_bytes(source: &[u8]) -> (r: (Vec<u8>, Vec<u8>))
    requires
        source.len() < usize::MAX - 8,
    ensures
        r.0@ == transform_bytes_spec(source@).0,
        r.1@ == transform_bytes_spec(source@).1,
{
    let mut transformer = TransformerData::new(source);
    parse_inline_style_bytes(source, &mut transformer);
    transformer.finish()
}

/// Relies on str::from_utf8: it succeeds exactly when the bytes are valid
/// UTF-8, and the returned text then holds exactly those bytes.
#[verifier::external_body]
fn str_from_utf8(v: &[u8]) -> (r: Option<&str>)
    ensures
        r is Some <==> valid_utf8(v@),
        r matches Some(s) ==> encode_utf8(s@) == v@,
{
    core::str::from_utf8(v).ok()
}

/// The given bytes as text, or the empty string when they are not valid
/// UTF-8 (the rewrite of a well-formed style string always is).
pub open spec fn text_of_bytes(s: Seq<char>, b: Seq<u8>) -> bool {
    &&& valid_utf8(b) ==> encode_utf8(s) == b
    &&& !valid_utf8(b) ==> s == Seq::<char>::empty()
}

fn bytes_to_string(v: &[u8]) -> (r: String)
    ensures
        text_of_bytes(r@, v@),
{
    match str_from_utf8(v) {
        Some(s) => s.to_owned(),
        None => String::new(),
    }
}

/// Rewrite one inline style string: the end-to-end entry point. The
/// first result is the rewritten style text, the second the children
/// style text (empty when no declaration produced child-facing output);
/// both are exactly the byte-level `transform_bytes_spec` of the source.
pub fn transform_inline_style_string(source: &str) -> (r: (String, String))
    requires
        encode_utf8(source@).len() < usize::MAX - 8,
    ensures
        encode_utf8(r.0@) == transform_bytes_spec(encode_utf8(source@)).0,
        encode_utf8(r.1@) == transform_bytes_spec(encode_utf8(source@)).1,
{
    let bytes = source.as_bytes();
    proof {
        broadcast use vstd::utf8::encode_utf8_valid_utf8;

        lemma_transform_bytes_valid(encode_utf8(source@));
    }
    let (transformed, children) = transform_inline_style_bytes(bytes);
    let first = bytes_to_string(transformed.as_slice());
    let second = bytes_to_string(children.as_slice());
    (first, second)
}

/// A string pair decoded from a byte pair, component by component.
pub open spec fn string_pair_of_bytes(p: (String, String), q: (Seq<u8>, Seq<u8>)) -> bool {
    text_of_bytes(p.0@, q.0) && text_of_bytes(p.1@, q.1)
}

fn convert_pairs(v: &Vec<(Vec<u8>, Vec<u8>)>) -> (r: Vec<(String, String)>)
    ensures
        r@.len() == v@.len(),
        forall|i: int|
            0 <= i < v@.len() ==> string_pair_of_bytes(
                #[trigger] r@[i],
                (v@[i].0@, v@[i].1@),
            ),
{
    let mut r: Vec<(String, String)> = Vec::new();
    let mut i: usize = 0;
    while i < v.len()
        invariant
            i <= v@.len(),
            r@.len() == i,
            forall|j: int|
                0 <= j < i ==> string_pair_of_bytes(#[trigger] r@[j], (v@[j].0@, v@[j].1@)),
        decreases v.len() - i,
    {
        let a = bytes_to_string(v[i].0.as_slice());
        let b = bytes_to_string(v[i].1.as_slice());
        r.push((a, b));
        i += 1;
    }
    r
}

/// Decoded pairs equal their byte originals once those are known valid.
proof fn lemma_converted_pairs_exact(
    sv: Seq<(String, String)>,
    bv: Seq<(Vec<u8>, Vec<u8>)>,
    sp: Seq<(Seq<u8>, Seq<u8>)>,
)
    requires
        sv.len() == bv.len(),
        vec_pairs_view(bv) == sp,
        pairs_valid(sp),
        forall|i: int|
            0 <= i < bv.len() ==> string_pair_of_bytes(#[trigger] sv[i], (bv[i].0@, bv[i].1@)),
    ensures
        forall|i: int|
            0 <= i < sp.len() ==> encode_utf8(#[trigger] sv[i].0@) == sp[i].0 && encode_utf8(
                sv[i].1@,
            ) == sp[i].1,
{
    assert(sp.len() == bv.len());
    assert forall|i: int| 0 <= i < sp.len() implies encode_utf8(#[trigger] sv[i].0@) == sp[i].0
        && encode_utf8(sv[i].1@) == sp[i].1 by {
        assert(sp[i] == vec_pairs_view(bv)[i]);
        assert(sp[i] == (bv[i].0@, bv[i].1@));
        assert(valid_utf8(sp[i].0) && valid_utf8(sp[i].1));
        assert(string_pair_of_bytes(sv[i], (bv[i].0@, bv[i].1@)));
    }
}

/// Everything one declaration `(name, value)` produces, as text: the
/// same-element pairs and the children pairs of `query_rules_spec`,
/// pair for pair.
#[verifier::rlimit(100)]
pub fn query_transform_rules(name: &str, value: &str) -> (r: (
    Vec<(String, String)>,
    Vec<(String, String)>,
))
    ensures
        ({
            let sp = query_rules_spec(encode_utf8(name@), encode_utf8(value@));
            &&& r.0@.len() == sp.0.len()
            &&& r.1@.len() == sp.1.len()
            &&& forall|i: int|
                0 <= i < sp.0.len() ==> encode_utf8(#[trigger] r.0@[i].0@) == sp.0[i].0
                    && encode_utf8(r.0@[i].1@) == sp.0[i].1
            &&& forall|i: int|
                0 <= i < sp.1.len() ==> encode_utf8(#[trigger] r.1@[i].0@) == sp.1[i].0
                    && encode_utf8(r.1@[i].1@) == sp.1[i].1
        }),
{
    let (bp, bc) = query_transform_rules_bytes(name.as_bytes(), value.as_bytes());
    let r0 = convert_pairs(&bp);
    let r1 = convert_pairs(&bc);
    proof {
        broadcast use vstd::utf8::encode_utf8_valid_utf8;

        let sp = query_rules_spec(encode_utf8(name@), encode_utf8(value@));
        lemma_query_pairs_valid(encode_utf8(name@), encode_utf8(value@));
        lemma_converted_pairs_exact(r0@, bp@, sp.0);
        lemma_converted_pairs_exact(r1@, bc@, sp.1);
    }
    (r0, r1)
}

/// Whether `needle` occurs as a contiguous run inside `hay`.
pub open spec fn contains_sub(hay: Seq<u8>, needle: Seq<u8>) -> bool {
    exists|k: int|
        0 <= k && k + needle.len() <= hay.len() && #[trigger] hay.subrange(k, k + needle.len())
            == needle
}

/// A contained run survives appending.
proof fn lemma_contains_extend(hay: Seq<u8>, ext: Seq<u8>, needle: Seq<u8>)
    requires
        contains_sub(hay, needle),
    ensures
        contains_sub(hay + ext, needle),
{
    let k = choose|k: int|
        0 <= k && k + needle.len() <= hay.len() && #[trigger] hay.subrange(k, k + needle.len())
            == needle;
    assert((hay + ext).subrange(k, k + needle.len() as int) =~= hay.subrange(
        k,
        k + needle.len() as int,
    ));
    assert(0 <= k && k + needle.len() <= (hay + ext).len() && (hay + ext).subrange(
        k,
        k + needle.len() as int,
    ) == needle);
}

/// A middle piece of an appended source chunk is contained in the result.
proof fn lemma_contains_chunk(pre: Seq<u8>, b: Seq<u8>, lo: int, x: int, y: int, hi: int)
    requires
        0 <= lo <= x <= y <= hi <= b.len(),
    ensures
        contains_sub(pre + b.subrange(lo, hi), b.subrange(x, y)),
{
    let k = pre.len() + (x - lo);
    assert((pre + b.subrange(lo, hi)).subrange(k as int, k + (y - x)) =~= b.subrange(x, y));
    assert(0 <= k && k + b.subrange(x, y).len() <= (pre + b.subrange(lo, hi)).len() && (pre
        + b.subrange(lo, hi)).subrange(k as int, k + b.subrange(x, y).len()) == b.subrange(x, y));
}

/// Whether a declaration produces no same-element replacement pairs: its
/// name matches no rename or replace rule and is none of the special
/// properties.
pub open spec fn decl_primary_empty(b: Seq<u8>, d: DeclSpec) -> bool {
    query_rules_spec(
        b.subrange(d.name_start, d.name_end),
        b.subrange(d.value_start, d.value_end),
    ).0.len() == 0
}

/// Driver-state facts along a run of ordered, well-formed declarations:
/// the handled offset stays in bounds and before every unprocessed
/// declaration; once the rewritten declaration `w` is past, the offset is
/// positive; and once the untouched declaration `t` is past, either its
/// text already stands in the primary output or the offset still lies at
/// or before its name.
#[verifier::rlimit(100)]
proof fn lemma_transform_run_invariant(b: Seq<u8>, ds: Seq<DeclSpec>, t: int, w: int, p: int)
    requires
        forall|i: int|
            0 <= i < ds.len() ==> crate::parser::parse_inline_style::decl_wf(
                #[trigger] ds[i],
                b.len() as int,
            ),
        crate::parser::parse_inline_style::decls_ordered(ds),
        0 <= t < ds.len(),
        0 <= w < ds.len(),
        decl_primary_empty(b, ds[t]),
        !decl_primary_empty(b, ds[w]),
        0 <= p <= ds.len(),
    ensures
        ({
            let st = transform_run(b, ds.take(p));
            &&& 0 <= st.offset <= b.len()
            &&& p < ds.len() ==> st.offset <= ds[p].name_start
            &&& p > w ==> 1 <= st.offset
            &&& p > t ==> st.offset <= ds[t].name_start || contains_sub(
                st.primary,
                b.subrange(ds[t].name_start, ds[t].value_end),
            )
        }),
    decreases p,
{
    if p > 0 {
        let q = p - 1;
        lemma_transform_run_invariant(b, ds, t, w, q);
        let stq = transform_run(b, ds.take(q));
        let d = ds[q];
        assert(ds.take(p).drop_last() =~= ds.take(q));
        assert(ds.take(p).last() == d);
        let st = transform_step(b, stq, d);
        let span = b.subrange(ds[t].name_start, ds[t].value_end);
        let name = b.subrange(d.name_start, d.name_end);
        let value = b.subrange(d.value_start, d.value_end);
        let qr = query_rules_spec(name, value);
        // the guard of transform_step passes: the offset lies at or
        // before this declaration's name, and its spans are in bounds
        assert(stq.offset <= d.name_start);
        if qr.0.len() > 0 {
            // a rewritten declaration: the offset advances to its value end
            assert(st.offset == d.value_end);
            if p < ds.len() {
                assert(d.value_end <= ds[p].name_start);
            }
            if q == t {
                assert(false);
            }
            if q > t {
                if contains_sub(stq.primary, span) {
                    lemma_contains_extend(
                        stq.primary,
                        b.subrange(stq.offset, d.name_start) + render_pairs(qr.0, d.is_important),
                        span,
                    );
                    assert(stq.primary + (b.subrange(stq.offset, d.name_start) + render_pairs(
                        qr.0,
                        d.is_important,
                    )) =~= st.primary);
                } else {
                    // the untouched declaration lies inside the verbatim copy
                    assert(stq.offset <= ds[t].name_start);
                    assert(ds[t].value_end <= d.name_start);
                    lemma_contains_chunk(
                        stq.primary,
                        b,
                        stq.offset,
                        ds[t].name_start,
                        ds[t].value_end,
                        d.name_start,
                    );
                    lemma_contains_extend(
                        stq.primary + b.subrange(stq.offset, d.name_start),
                        render_pairs(qr.0, d.is_important),
                        span,
                    );
                    assert((stq.primary + b.subrange(stq.offset, d.name_start)) + render_pairs(
                        qr.0,
                        d.is_important,
                    ) =~= st.primary);
                }
            }
        } else {
            assert(st.offset == stq.offset && st.primary == stq.primary);
            if p < ds.len() {
                assert(d.name_start <= d.value_end <= ds[p].name_start);
            }
            if q == w {
                assert(false);
            }
        }
    } else {
        assert(ds.take(0) =~= Seq::<DeclSpec>::empty());
    }
}

/// Idempotence of passthrough: a declaration whose name matches no rule
/// and is none of the special properties appears byte-identical in the
/// rewritten output, provided some declaration of the input was
/// rewritten. (With no rewritten declaration at all the primary output
/// is empty by design, so there is nothing for it to appear in.)
pub proof fn lemma_passthrough_byte_identical(b: Seq<u8>, t: int, w: int)
    requires
        0 <= t < decls_bytes_spec(b).len(),
        0 <= w < decls_bytes_spec(b).len(),
        decl_primary_empty(b, decls_bytes_spec(b)[t]),
        !decl_primary_empty(b, decls_bytes_spec(b)[w]),
    ensures
        contains_sub(
            transform_bytes_spec(b).0,
            b.subrange(decls_bytes_spec(b)[t].name_start, decls_bytes_spec(b)[t].value_end),
        ),
{
    crate::parser::parse_inline_style::lemma_decls_bytes_wf(b);
    let ds = decls_bytes_spec(b);
    lemma_transform_run_invariant(b, ds, t, w, ds.len() as int);
    assert(ds.take(ds.len() as int) =~= ds);
    let st = transform_run(b, ds);
    let span = b.subrange(ds[t].name_start, ds[t].value_end);
    if contains_sub(st.primary, span) {
        if st.offset != 0 && 0 <= st.offset <= b.len() {
            lemma_contains_extend(st.primary, b.subrange(st.offset, b.len() as int), span);
        }
    } else {
        assert(st.offset <= ds[t].name_start);
        assert(1 <= st.offset);
        lemma_contains_chunk(st.primary, b, st.offset, ds[t].name_start, ds[t].value_end, b.len() as int);
    }
}

/// A cut position of the byte buffer falls on a character boundary when
/// the bytes are valid UTF-8: either end, a position beside an ASCII
/// byte, or just past a leading 3-byte byte-order mark.
proof fn lemma_cut_boundary(b: Seq<u8>, p: int)
    requires
        valid_utf8(b),
        0 <= p <= b.len(),
        cut_at(widen_spec(b), p),
    ensures
        is_char_boundary(b, p),
{
    let s = widen_spec(b);
    vstd::utf8::is_char_boundary_start_end_of_seq(b);
    if p == 0 || p == b.len() {
    } else if s[p] < 0x80 {
        assert(b[p] < 0x80);
        vstd::utf8::is_char_boundary_iff_not_is_continuation_byte(b, p);
    } else if s[p - 1] < 0x80 {
        assert(b[p - 1] < 0x80);
        vstd::utf8::is_char_boundary_iff_not_is_continuation_byte(b, p - 1);
        assert(is_char_boundary(b, p - 1));
        vstd::utf8::valid_utf8_split(b, p - 1);
        let suffix = b.subrange(p - 1, b.len() as int);
        assert(valid_utf8(suffix));
        assert(suffix.len() >= 2);
        assert(vstd::utf8::is_leading_byte_width_1(suffix[0]));
        reveal_with_fuel(valid_utf8, 2);
        assert(vstd::utf8::valid_first_scalar(suffix));
        assert(vstd::utf8::length_of_first_scalar(suffix) == 1);
        let rest = vstd::utf8::pop_first_scalar(suffix);
        assert(valid_utf8(rest));
        assert(rest =~= b.subrange(p, b.len() as int));
        assert(is_char_boundary(rest, 0));
        vstd::utf8::is_char_boundary_iff_not_is_continuation_byte(rest, 0);
        assert(!vstd::utf8::is_continuation_byte(rest[0]));
        assert(rest[0] == b[p]);
        vstd::utf8::is_char_boundary_iff_not_is_continuation_byte(b, p);
    } else {
        // the byte-order mark is one whole 3-byte character
        assert(p == 3 && b[0] == 0xEF);
        reveal_with_fuel(valid_utf8, 2);
        assert(vstd::utf8::valid_first_scalar(b));
        assert(vstd::utf8::length_of_first_scalar(b) == 3);
        reveal_with_fuel(is_char_boundary, 2);
        assert(is_char_boundary(vstd::utf8::pop_first_scalar(b), 0));
        assert(is_char_boundary(b, 3));
    }
}

/// A piece of a valid buffer between two character boundaries is itself
/// valid UTF-8.
proof fn lemma_boundary_subrange_valid(b: Seq<u8>, x: int, y: int)
    requires
        valid_utf8(b),
        0 <= x <= y <= b.len(),
        is_char_boundary(b, x),
        is_char_boundary(b, y),
    ensures
        valid_utf8(b.subrange(x, y)),
{
    vstd::utf8::valid_utf8_split(b, x);
    let suffix = b.subrange(x, b.len() as int);
    vstd::utf8::is_char_boundary_start_end_of_seq(suffix);
    if y == b.len() {
        assert(b.subrange(x, y) =~= suffix);
    } else {
        vstd::utf8::is_char_boundary_iff_not_is_continuation_byte(b, y);
        assert(!vstd::utf8::is_continuation_byte(b[y]));
        if y > x {
            assert(suffix[y - x] == b[y]);
            vstd::utf8::is_char_boundary_iff_not_is_continuation_byte(suffix, y - x);
        }
        assert(is_char_boundary(suffix, y - x));
        vstd::utf8::valid_utf8_split(suffix, y - x);
        assert(b.subrange(x, y) =~= suffix.subrange(0, y - x));
    }
}

/// A piece of a valid buffer between two cuts is valid UTF-8.
proof fn lemma_cut_subrange_valid(b: Seq<u8>, x: int, y: int)
    requires
        valid_utf8(b),
        0 <= x <= y <= b.len(),
        cut_at(widen_spec(b), x),
        cut_at(widen_spec(b), y),
    ensures
        valid_utf8(b.subrange(x, y)),
{
    lemma_cut_boundary(b, x);
    lemma_cut_boundary(b, y);
    lemma_boundary_subrange_valid(b, x, y);
}

/// Every replacement pair holds valid UTF-8 on both sides.
pub open spec fn pairs_valid(ps: Seq<(Seq<u8>, Seq<u8>)>) -> bool {
    forall|i: int|
        0 <= i < ps.len() ==> valid_utf8(#[trigger] ps[i].0) && valid_utf8(ps[i].1)
}

/// The flex fields of a valid value are valid UTF-8: each field starts at
/// the value's start or after a whitespace byte and ends at a whitespace
/// byte or the value's end.
proof fn lemma_flex_pairs_valid(vb: Seq<u8>)
    requires
        valid_utf8(vb),
    ensures
        pairs_valid(flex_pairs_spec(vb)),
{
    broadcast use vstd::utf8::encode_utf8_valid_utf8;

    lemma_flex_scan_wf(vb, 0, 0, flex_init_fields(vb));
    let (ii, f) = flex_scan(vb, 0, 0, flex_init_fields(vb));
    if 0 < ii {
        assert(cut_at(widen_spec(vb), f[0]) && cut_at(widen_spec(vb), f[1]));
        lemma_cut_subrange_valid(vb, f[0], f[1]);
    }
    if 2 < ii {
        assert(cut_at(widen_spec(vb), f[2]) && cut_at(widen_spec(vb), f[3]));
        lemma_cut_subrange_valid(vb, f[2], f[3]);
    }
    if 4 < ii {
        assert(cut_at(widen_spec(vb), f[4]) && cut_at(widen_spec(vb), f[5]));
        lemma_cut_subrange_valid(vb, f[4], f[5]);
    }
}

/// Everything a declaration produces is valid UTF-8, provided its value
/// text is: the generated names and keyword values are literals, and the
/// passed-through value or its flex fields are pieces of the value.
proof fn lemma_query_pairs_valid(nb: Seq<u8>, vb: Seq<u8>)
    requires
        valid_utf8(vb),
    ensures
        pairs_valid(query_rules_spec(nb, vb).0),
        pairs_valid(query_rules_spec(nb, vb).1),
{
    broadcast use vstd::utf8::encode_utf8_valid_utf8;

    crate::transformer::rules::lemma_rename_rule_valid(nb);
    crate::transformer::rules::lemma_replace_rule_valid(nb, vb);
    if rename_rule_spec(nb) is Some {
    } else if replace_rule_spec(nb, vb) is Some {
    } else if nb == lit_bytes("flex") {
        lemma_flex_pairs_valid(vb);
    }
}

/// The rendered pair text is valid UTF-8 when every pair is.
proof fn lemma_render_pairs_valid(ps: Seq<(Seq<u8>, Seq<u8>)>, important: bool)
    requires
        pairs_valid(ps),
    ensures
        valid_utf8(render_pairs(ps, important)),
        valid_utf8(render_children_pairs(ps, important)),
    decreases ps.len(),
{
    broadcast use vstd::utf8::encode_utf8_valid_utf8;

    assert(valid_utf8(Seq::<u8>::empty())) by {
        reveal_with_fuel(valid_utf8, 1);
    }
    if ps.len() > 0 {
        assert(valid_utf8(ps[0].0) && valid_utf8(ps[0].1));
        vstd::utf8::valid_utf8_concat(ps[0].0, lit_bytes(":"));
        vstd::utf8::valid_utf8_concat(ps[0].0 + lit_bytes(":"), ps[0].1);
        assert(valid_utf8(pair_text(ps[0])));
        assert(pairs_valid(ps.drop_first()));
        lemma_render_pairs_valid(ps.drop_first(), important);
        let sep = if important {
            lit_bytes(" !important;")
        } else {
            lit_bytes(";")
        };
        vstd::utf8::valid_utf8_concat(pair_text(ps[0]), sep);
        vstd::utf8::valid_utf8_concat(
            pair_text(ps[0]) + sep,
            render_pairs(ps.drop_first(), important),
        );
        let csep = if important {
            lit_bytes(" !important")
        } else {
            Seq::<u8>::empty()
        };
        vstd::utf8::valid_utf8_concat(pair_text(ps[0]), csep);
        vstd::utf8::valid_utf8_concat(pair_text(ps[0]) + csep, lit_bytes(";"));
        vstd::utf8::valid_utf8_concat(
            pair_text(ps[0]) + csep + lit_bytes(";"),
            render_children_pairs(ps.drop_first(), important),
        );
    }
}

/// The driver's outputs stay valid UTF-8 along a run over well-formed,
/// cut-aligned declarations of a valid buffer.
proof fn lemma_transform_run_valid(b: Seq<u8>, ds: Seq<DeclSpec>, p: int)
    requires
        valid_utf8(b),
        0 <= p <= ds.len(),
        forall|i: int|
            0 <= i < ds.len() ==> crate::parser::parse_inline_style::decl_wf(
                #[trigger] ds[i],
                b.len() as int,
            ),
        forall|i: int|
            0 <= i < ds.len() ==> crate::parser::parse_inline_style::decl_cuts(
                widen_spec(b),
                #[trigger] ds[i],
            ),
    ensures
        ({
            let st = transform_run(b, ds.take(p));
            &&& valid_utf8(st.primary)
            &&& valid_utf8(st.children)
            &&& 0 <= st.offset <= b.len()
            &&& cut_at(widen_spec(b), st.offset)
        }),
    decreases p,
{
    broadcast use vstd::utf8::valid_utf8_concat;

    assert(valid_utf8(Seq::<u8>::empty())) by {
        reveal_with_fuel(valid_utf8, 1);
    }
    if p > 0 {
        let q = p - 1;
        lemma_transform_run_valid(b, ds, q);
        let stq = transform_run(b, ds.take(q));
        let d = ds[q];
        assert(ds.take(p).drop_last() =~= ds.take(q));
        assert(ds.take(p).last() == d);
        if 0 <= stq.offset <= d.name_start && d.name_start <= d.name_end <= b.len() && 0
            <= d.value_start <= d.value_end <= b.len() {
            let value = b.subrange(d.value_start, d.value_end);
            lemma_cut_subrange_valid(b, d.value_start, d.value_end);
            let name = b.subrange(d.name_start, d.name_end);
            let q2 = query_rules_spec(name, value);
            lemma_query_pairs_valid(name, value);
            lemma_render_pairs_valid(q2.0, d.is_important);
            lemma_render_pairs_valid(q2.1, d.is_important);
            lemma_cut_subrange_valid(b, stq.offset, d.name_start);
        }
    } else {
        assert(ds.take(0) =~= Seq::<DeclSpec>::empty());
    }
}

/// The rewrite of a valid UTF-8 buffer is valid UTF-8, in both outputs.
pub proof fn lemma_transform_bytes_valid(b: Seq<u8>)
    requires
        valid_utf8(b),
    ensures
        valid_utf8(transform_bytes_spec(b).0),
        valid_utf8(transform_bytes_spec(b).1),
{
    broadcast use vstd::utf8::valid_utf8_concat;

    crate::parser::parse_inline_style::lemma_decls_bytes_wf(b);
    let ds = decls_bytes_spec(b);
    lemma_transform_run_valid(b, ds, ds.len() as int);
    assert(ds.take(ds.len() as int) =~= ds);
    let st = transform_run(b, ds);
    if st.offset != 0 && 0 <= st.offset <= b.len() {
        vstd::utf8::is_char_boundary_start_end_of_seq(b);
        lemma_cut_boundary(b, st.offset);
        lemma_boundary_subrange_valid(b, st.offset, b.len() as int);
    }
}

} // verus!
