//! The declaration parser: a four-state machine over the token stream
//! that recognises `ident : value [!important] ;` groups and recovers
//! from malformed declarations by skipping to the next ident.

use crate::char_code_definitions::is_white_space_spec;
use crate::char_code_definitions::{get_start_offset, start_offset_spec};
use crate::parser::tokenize::{
    bom_offset16, cut_at, lemma_token_cuts, lemma_token_spans_partition, token_seq, tokenize_from,
    tokens_bytes_spec, tokens_spec, Parser, TokenList,
};
use crate::parser::types::{
    COLON_TOKEN, DELIM_TOKEN, IDENT_TOKEN, LEFT_CURLY_BRACKET_TOKEN, LEFT_PARENTHESES_TOKEN,
    LEFT_SQUARE_BRACKET_TOKEN, SEMICOLON_TOKEN, WHITESPACE_TOKEN,
};
use crate::parser::utils::{cmp_str, cmp_str_spec, code_unit_at, is_white_space16, widen, widen_spec};
use vstd::prelude::*;

verus! {

/// The sequence "important", matched case-insensitively after a `!`.
pub open spec fn important_seq_spec() -> Seq<u16> {
    seq![105u16, 109u16, 112u16, 111u16, 114u16, 116u16, 97u16, 110u16, 116u16]
}

/// A parsed declaration: spans into the source buffer and the important
/// flag, at the specification level.
pub struct DeclSpec {
    pub name_start: int,
    pub name_end: int,
    pub value_start: int,
    pub value_end: int,
    pub is_important: bool,
}

/// A parsed declaration: `[name_start, name_end)` and
/// `[value_start, value_end)` are spans into the source buffer.
pub struct Declaration {
    pub name_start: usize,
    pub name_end: usize,
    pub value_start: usize,
    pub value_end: usize,
    pub is_important: bool,
}

impl View for Declaration {
    type V = DeclSpec;

    open spec fn view(&self) -> DeclSpec {
        DeclSpec {
            name_start: self.name_start as int,
            name_end: self.name_end as int,
            value_start: self.value_start as int,
            value_end: self.value_end as int,
            is_important: self.is_important,
        }
    }
}

/// The declaration machine's state: 0 seeks a name, 1 seeks the colon,
/// 2 seeks the first value token, 3 accumulates the value.
pub struct DeclState {
    pub status: int,
    pub name_start: int,
    pub name_end: int,
    pub value_start: int,
    pub value_end: int,
    pub is_important: bool,
    pub prev_token_type: u16,
}

/// The machine's initial state; the previous token is taken to be
/// whitespace.
pub open spec fn init_decl_state() -> DeclState {
    DeclState {
        status: 0,
        name_start: 0,
        name_end: 0,
        value_start: 0,
        value_end: 0,
        is_important: false,
        prev_token_type: WHITESPACE_TOKEN,
    }
}

/// Trailing-whitespace trim of a value span: decrement `ve` while the code
/// unit before it is whitespace and the span is non-empty.
pub open spec fn trim_value_end_spec(s: Seq<u16>, vs: int, ve: int) -> int
    decreases ve - vs,
{
    if ve > vs && is_white_space_spec(code_unit_at(s, ve - 1) as int) {
        trim_value_end_spec(s, vs, ve - 1)
    } else {
        ve
    }
}

/// One token's effect on the machine: the next state and the declaration
/// emitted, if this token completed one.
pub open spec fn decl_step(s: Seq<u16>, st: DeclState, token_type: u16, start: int, end: int) -> (
    DeclState,
    Option<DeclSpec>,
) {
    let reset = DeclState {
        status: 0,
        name_start: 0,
        name_end: 0,
        value_start: 0,
        value_end: 0,
        is_important: false,
        prev_token_type: token_type,
    };
    if token_type == IDENT_TOKEN && st.status == 0 {
        (
            DeclState {
                status: 1,
                name_start: start,
                name_end: end,
                prev_token_type: token_type,
                ..st
            },
            None,
        )
    } else if st.status == 1 && token_type == WHITESPACE_TOKEN {
        (DeclState { prev_token_type: token_type, ..st }, None)
    } else if st.status == 1 && token_type == COLON_TOKEN {
        (DeclState { status: 2, prev_token_type: token_type, ..st }, None)
    } else if st.status == 2 && token_type != LEFT_CURLY_BRACKET_TOKEN && token_type
        != LEFT_PARENTHESES_TOKEN && token_type != LEFT_SQUARE_BRACKET_TOKEN && token_type
        != SEMICOLON_TOKEN {
        if token_type == WHITESPACE_TOKEN {
            (DeclState { prev_token_type: token_type, ..st }, None)
        } else {
            (DeclState { status: 3, value_start: start, prev_token_type: token_type, ..st }, None)
        }
    } else if st.status == 3 && token_type == SEMICOLON_TOKEN {
        let ve0 = if st.value_end == 0 {
            start
        } else {
            st.value_end
        };
        let ve = trim_value_end_spec(s, st.value_start, ve0);
        (
            reset,
            Some(
                DeclSpec {
                    name_start: st.name_start,
                    name_end: st.name_end,
                    value_start: st.value_start,
                    value_end: ve,
                    is_important: st.is_important,
                },
            ),
        )
    } else if st.status == 3 && st.prev_token_type == DELIM_TOKEN && cmp_str_spec(
        s,
        start,
        end,
        important_seq_spec(),
    ) {
        (
            DeclState { is_important: true, value_end: start - 1, prev_token_type: token_type, ..st },
            None,
        )
    } else if st.status == 3 && token_type != LEFT_CURLY_BRACKET_TOKEN && token_type
        != LEFT_PARENTHESES_TOKEN && token_type != LEFT_SQUARE_BRACKET_TOKEN && token_type
        != SEMICOLON_TOKEN {
        if token_type != WHITESPACE_TOKEN {
            (DeclState { value_end: end, prev_token_type: token_type, ..st }, None)
        } else {
            (DeclState { prev_token_type: token_type, ..st }, None)
        }
    } else if st.status != 0 {
        (reset, None)
    } else {
        (DeclState { prev_token_type: token_type, ..st }, None)
    }
}

/// The machine run over a token sequence from the initial state: the final
/// state and the declarations emitted, in order.
pub open spec fn decl_run(s: Seq<u16>, toks: Seq<(u16, int, int)>) -> (DeclState, Seq<DeclSpec>)
    decreases toks.len(),
{
    if toks.len() == 0 {
        (init_decl_state(), Seq::empty())
    } else {
        let (stp, dsp) = decl_run(s, toks.drop_last());
        let t = toks.last();
        let (st, d) = decl_step(s, stp, t.0, t.1, t.2);
        (
            st,
            match d {
                Some(x) => dsp.push(x),
                None => dsp,
            },
        )
    }
}

/// The declarations of a buffer given its token sequence: the machine is
/// run over the tokens, and when the stream does not end on a semicolon
/// one is synthesized at the end of the buffer, so a trailing declaration
/// without punctuation is still flushed.
pub open spec fn decls_from_tokens(s: Seq<u16>, toks: Seq<(u16, int, int)>) -> Seq<DeclSpec> {
    let (st, ds) = decl_run(s, toks);
    if st.prev_token_type != SEMICOLON_TOKEN {
        let (st2, d) = decl_step(s, st, SEMICOLON_TOKEN, s.len() as int, s.len() as int);
        match d {
            Some(x) => ds.push(x),
            None => ds,
        }
    } else {
        ds
    }
}

/// The declarations of a 16-bit buffer.
pub open spec fn decls_spec(s: Seq<u16>) -> Seq<DeclSpec> {
    decls_from_tokens(s, tokens_spec(s))
}

/// The declarations of an 8-bit buffer; spans index the byte buffer.
pub open spec fn decls_bytes_spec(b: Seq<u8>) -> Seq<DeclSpec> {
    decls_from_tokens(widen_spec(b), tokens_bytes_spec(b))
}


/// Well-formedness of one parsed declaration: the name is a non-empty
/// span before the value span, and the value begins past the first code
/// unit and ends within the buffer.
pub open spec fn decl_wf(d: DeclSpec, len: int) -> bool {
    &&& 0 <= d.name_start < d.name_end <= d.value_start
    &&& 1 <= d.value_start <= d.value_end <= len
}

/// Declarations in source order: each one ends before the next begins.
pub open spec fn decls_ordered(ds: Seq<DeclSpec>) -> bool {
    forall|i: int, j: int|
        0 <= i < j < ds.len() ==> #[trigger] ds[i].value_end <= #[trigger] ds[j].name_start
}

/// The spans of a declaration all lie on token cuts of the buffer.
pub open spec fn decl_cuts(s: Seq<u16>, d: DeclSpec) -> bool {
    cut_at(s, d.name_start) && cut_at(s, d.value_start) && cut_at(s, d.value_end)
}

/// The trim stops at the original end or on a whitespace code unit.
pub proof fn lemma_trim_cut(s: Seq<u16>, vs: int, ve: int)
    requires
        vs <= ve,
    ensures
        trim_value_end_spec(s, vs, ve) == ve || (trim_value_end_spec(s, vs, ve) < ve
            && is_white_space_spec(code_unit_at(s, trim_value_end_spec(s, vs, ve)) as int)),
    decreases ve - vs,
{
    if ve > vs && is_white_space_spec(code_unit_at(s, ve - 1) as int) {
        lemma_trim_cut(s, vs, ve - 1);
    }
}

/// The trim never moves the end below the start nor raises it.
pub proof fn lemma_trim_bounds(s: Seq<u16>, vs: int, ve: int)
    requires
        vs <= ve,
    ensures
        vs <= trim_value_end_spec(s, vs, ve) <= ve,
    decreases ve - vs,
{
    if ve > vs && is_white_space_spec(code_unit_at(s, ve - 1) as int) {
        lemma_trim_bounds(s, vs, ve - 1);
    }
}

/// The machine's invariant while tokens up to offset `cur` have been
/// processed: spans under construction and emitted declarations are
/// well formed, ordered, and end at or before `cur`.
pub open spec fn run_wf(s: Seq<u16>, st: DeclState, cur: int, ds: Seq<DeclSpec>) -> bool {
    &&& 0 <= cur <= s.len()
    &&& 0 <= st.status <= 3
    &&& st.status >= 1 ==> 0 <= st.name_start < st.name_end <= cur
    &&& st.status >= 1 ==> forall|i: int|
        0 <= i < ds.len() ==> #[trigger] ds[i].value_end <= st.name_start
    &&& st.status == 3 ==> st.name_end <= st.value_start && 1 <= st.value_start < cur
    &&& st.status == 3 ==> st.value_end == 0 || st.value_start <= st.value_end <= cur
    &&& st.status < 3 ==> st.value_end == 0
    &&& st.status >= 1 ==> cut_at(s, st.name_start)
    &&& st.status == 3 ==> cut_at(s, st.value_start)
    &&& st.status == 3 && st.value_end != 0 ==> cut_at(s, st.value_end)
    &&& forall|i: int| 0 <= i < ds.len() ==> decl_wf(#[trigger] ds[i], s.len() as int)
    &&& forall|i: int| 0 <= i < ds.len() ==> decl_cuts(s, #[trigger] ds[i])
    &&& decls_ordered(ds)
    &&& forall|i: int| 0 <= i < ds.len() ==> #[trigger] ds[i].value_end <= cur
}

/// One step preserves the machine's invariant, the processed region
/// growing to the token's end.
pub proof fn lemma_decl_step_wf(
    s: Seq<u16>,
    st: DeclState,
    cur: int,
    ds: Seq<DeclSpec>,
    tt: u16,
    a: int,
    b: int,
)
    requires
        run_wf(s, st, cur, ds),
        cur <= a <= b <= s.len(),
        tt != SEMICOLON_TOKEN ==> a < b,
        cut_at(s, a),
        cut_at(s, b),
        st.status == 3 && st.prev_token_type == DELIM_TOKEN ==> cut_at(s, a - 1),
    ensures
        ({
            let (st2, d) = decl_step(s, st, tt, a, b);
            let ds2 = match d {
                Some(x) => ds.push(x),
                None => ds,
            };
            run_wf(s, st2, b, ds2)
        }),
{
    let (st2, d) = decl_step(s, st, tt, a, b);
    if st.status == 3 && tt == SEMICOLON_TOKEN {
        let ve0 = if st.value_end == 0 {
            a
        } else {
            st.value_end
        };
        lemma_trim_bounds(s, st.value_start, ve0);
        lemma_trim_cut(s, st.value_start, ve0);
        let x = d.unwrap();
        let ds2 = ds.push(x);
        assert(decl_wf(x, s.len() as int));
        assert forall|i: int, j: int| 0 <= i < j < ds2.len() implies #[trigger] ds2[i].value_end
            <= #[trigger] ds2[j].name_start by {
            if j < ds.len() {
                assert(ds2[i] == ds[i] && ds2[j] == ds[j]);
            } else {
                assert(ds2[j] == x);
                if i < ds.len() {
                    assert(ds2[i] == ds[i]);
                }
            }
        }
    }
}

/// The end of the last processed token, or 0 before any token.
pub open spec fn run_cur(toks: Seq<(u16, int, int)>) -> int {
    if toks.len() == 0 {
        0
    } else {
        toks.last().2
    }
}

/// The machine run over a well-formed token sequence keeps its invariant.
pub proof fn lemma_decl_run_wf(s: Seq<u16>, toks: Seq<(u16, int, int)>)
    requires
        forall|i: int| 0 <= i < toks.len() ==> 0 <= #[trigger] toks[i].1 < toks[i].2 <= s.len(),
        forall|i: int| 0 <= i < toks.len() - 1 ==> #[trigger] toks[i].2 == toks[i + 1].1,
        forall|i: int|
            0 <= i < toks.len() ==> cut_at(s, #[trigger] toks[i].1) && cut_at(s, toks[i].2),
        forall|i: int|
            0 <= i < toks.len() && #[trigger] toks[i].0 == DELIM_TOKEN ==> toks[i].2 == toks[i].1
                + 1,
    ensures
        ({
            let (st, ds) = decl_run(s, toks);
            &&& run_wf(s, st, run_cur(toks), ds)
            &&& st.prev_token_type == (if toks.len() == 0 {
                WHITESPACE_TOKEN
            } else {
                toks.last().0
            })
        }),
    decreases toks.len(),
{
    if toks.len() > 0 {
        let prefix = toks.drop_last();
        assert forall|i: int| 0 <= i < prefix.len() implies 0 <= #[trigger] prefix[i].1
            < prefix[i].2 <= s.len() by {
            assert(prefix[i] == toks[i]);
        }
        assert forall|i: int| 0 <= i < prefix.len() - 1 implies #[trigger] prefix[i].2 == prefix[i
            + 1].1 by {
            assert(prefix[i] == toks[i] && prefix[i + 1] == toks[i + 1]);
        }
        assert forall|i: int| 0 <= i < prefix.len() implies cut_at(s, #[trigger] prefix[i].1)
            && cut_at(s, prefix[i].2) by {
            assert(prefix[i] == toks[i]);
        }
        assert forall|i: int|
            0 <= i < prefix.len() && #[trigger] prefix[i].0 == DELIM_TOKEN implies prefix[i].2
            == prefix[i].1 + 1 by {
            assert(prefix[i] == toks[i]);
        }
        lemma_decl_run_wf(s, prefix);
        let (stp, dsp) = decl_run(s, prefix);
        let t = toks.last();
        if toks.len() >= 2 {
            assert(toks[toks.len() - 2].2 == toks[toks.len() - 1].1);
            assert(run_cur(prefix) == toks[toks.len() - 2].2);
            if stp.prev_token_type == DELIM_TOKEN {
                assert(prefix.last() == toks[toks.len() - 2]);
                assert(cut_at(s, toks[toks.len() - 2].1));
            }
        }
        lemma_decl_step_wf(s, stp, run_cur(prefix), dsp, t.0, t.1, t.2);
    }
}

/// Every declaration of a buffer is well formed, and the declarations
/// come in source order.
pub proof fn lemma_decls_from_tokens_wf(s: Seq<u16>, toks: Seq<(u16, int, int)>)
    requires
        forall|i: int| 0 <= i < toks.len() ==> 0 <= #[trigger] toks[i].1 < toks[i].2 <= s.len(),
        forall|i: int| 0 <= i < toks.len() - 1 ==> #[trigger] toks[i].2 == toks[i + 1].1,
        forall|i: int|
            0 <= i < toks.len() ==> cut_at(s, #[trigger] toks[i].1) && cut_at(s, toks[i].2),
        forall|i: int|
            0 <= i < toks.len() && #[trigger] toks[i].0 == DELIM_TOKEN ==> toks[i].2 == toks[i].1
                + 1,
        toks.len() > 0 ==> toks.last().2 == s.len(),
    ensures
        ({
            let ds = decls_from_tokens(s, toks);
            &&& forall|i: int| 0 <= i < ds.len() ==> decl_wf(#[trigger] ds[i], s.len() as int)
            &&& forall|i: int| 0 <= i < ds.len() ==> decl_cuts(s, #[trigger] ds[i])
            &&& decls_ordered(ds)
        }),
{
    lemma_decl_run_wf(s, toks);
    let (st, ds) = decl_run(s, toks);
    if st.prev_token_type != SEMICOLON_TOKEN {
        if st.prev_token_type == DELIM_TOKEN && st.status == 3 {
            assert(toks.len() > 0);
            assert(cut_at(s, toks.last().1));
        }
        lemma_decl_step_wf(s, st, run_cur(toks), ds, SEMICOLON_TOKEN, s.len() as int, s.len() as int);
    }
}

/// Every declaration of an 8-bit buffer is well formed, and the
/// declarations come in source order.
pub proof fn lemma_decls_bytes_wf(b: Seq<u8>)
    ensures
        ({
            let ds = decls_bytes_spec(b);
            &&& forall|i: int| 0 <= i < ds.len() ==> decl_wf(#[trigger] ds[i], b.len() as int)
            &&& forall|i: int|
                0 <= i < ds.len() ==> decl_cuts(widen_spec(b), #[trigger] ds[i])
            &&& decls_ordered(ds)
        }),
{
    let s = widen_spec(b);
    let start = start_offset_spec(b);
    assert(s.len() == b.len());
    lemma_token_spans_partition(s, start);
    lemma_token_cuts(s, start);
    let toks = tokens_bytes_spec(b);
    lemma_decls_from_tokens_wf(s, toks);
}

/// A sink for declarations. `decls` is the sequence the sink has absorbed;
/// `inv` is whatever well-formedness the implementation maintains.
pub trait Transformer: Sized {
    spec fn inv(&self) -> bool;

    spec fn decls(&self) -> Seq<DeclSpec>;

    /// Data the sink promises to keep unchanged across calls (for a
    /// rewriting sink, its copy of the source text).
    spec fn frame(&self) -> Seq<u8>;

    fn on_declaration(
        &mut self,
        name_start: usize,
        name_end: usize,
        value_start: usize,
        value_end: usize,
        is_important: bool,
    )
        requires
            old(self).inv(),
        ensures
            final(self).inv(),
            final(self).frame() == old(self).frame(),
            final(self).decls() == old(self).decls().push(
                DeclSpec {
                    name_start: name_start as int,
                    name_end: name_end as int,
                    value_start: value_start as int,
                    value_end: value_end as int,
                    is_important: is_important,
                },
            ),
    ;
}

/// A sink that simply records every declaration.
pub struct DeclarationList {
    pub items: Vec<Declaration>,
}

impl DeclarationList {
    pub fn new() -> (r: DeclarationList)
        ensures
            r.inv(),
            r.decls() == Seq::<DeclSpec>::empty(),
    {
        let r = DeclarationList { items: Vec::new() };
        proof {
            assert(r.decls() =~= Seq::<DeclSpec>::empty());
        }
        r
    }
}

impl Transformer for DeclarationList {
    open spec fn inv(&self) -> bool {
        true
    }

    open spec fn frame(&self) -> Seq<u8> {
        Seq::empty()
    }

    open spec fn decls(&self) -> Seq<DeclSpec> {
        self.items@.map_values(|d: Declaration| d@)
    }

    fn on_declaration(
        &mut self,
        name_start: usize,
        name_end: usize,
        value_start: usize,
        value_end: usize,
        is_important: bool,
    ) {
        self.items.push(
            Declaration { name_start, name_end, value_start, value_end, is_important },
        );
        proof {
            assert(self.decls() =~= old(self).decls().push(
                DeclSpec {
                    name_start: name_start as int,
                    name_end: name_end as int,
                    value_start: value_start as int,
                    value_end: value_end as int,
                    is_important: is_important,
                },
            ));
        }
    }
}

/// The declaration machine's mutable state, advanced one token at a time.
pub struct ParserState {
    status: usize,
    name_start: usize,
    name_end: usize,
    value_start: usize,
    value_end: usize,
    is_important: bool,
    prev_token_type: u16,
}

impl View for ParserState {
    type V = DeclState;

    closed spec fn view(&self) -> DeclState {
        DeclState {
            status: self.status as int,
            name_start: self.name_start as int,
            name_end: self.name_end as int,
            value_start: self.value_start as int,
            value_end: self.value_end as int,
            is_important: self.is_important,
            prev_token_type: self.prev_token_type,
        }
    }
}

impl ParserState {
    /// State well-formedness against a buffer: while a value is being
    /// accumulated its spans stay inside the buffer, which keeps the
    /// trailing-whitespace trim in bounds.
    pub open spec fn wf(&self, s: Seq<u16>) -> bool {
        &&& self@.status == 3 ==> 1 <= self@.value_start <= s.len()
        &&& self@.value_end <= s.len()
    }

    pub fn new() -> (r: ParserState)
        ensures
            r@ == init_decl_state(),
            forall|s: Seq<u16>| r.wf(s),
    {
        ParserState {
            status: 0,
            name_start: 0,
            name_end: 0,
            value_start: 0,
            value_end: 0,
            is_important: false,
            prev_token_type: WHITESPACE_TOKEN,
        }
    }

    /// Advance the machine by one token; the completed declaration is
    /// returned when this token closed one.
    pub fn on_token(&mut self, source: &[u16], token_type: u16, start: usize, end: usize) -> (r:
        Option<Declaration>)
        requires
            old(self).wf(source@),
            start <= end <= source.len(),
            old(self)@.status != 0 ==> 1 <= start,
        ensures
            final(self).wf(source@),
            ({
                let (st, d) = decl_step(source@, old(self)@, token_type, start as int, end as int);
                &&& final(self)@ == st
                &&& match (r, d) {
                    (Some(x), Some(y)) => x@ == y,
                    (None, None) => true,
                    _ => false,
                }
            }),
    {
        let important_str: Vec<u16> = vec![105, 109, 112, 111, 114, 116, 97, 110, 116];
        proof {
            assert(important_str@ =~= important_seq_spec());
        }
        let important_matches = cmp_str(source, start, end, important_str.as_slice());
        let mut result: Option<Declaration> = None;
        if token_type == IDENT_TOKEN && self.status == 0 {
            self.name_start = start;
            self.name_end = end;
            self.prev_token_type = token_type;
            self.status = 1;
        } else if self.status == 1 && token_type == WHITESPACE_TOKEN {
            // whitespace between the name and the colon is discarded
        } else if self.status == 1 && token_type == COLON_TOKEN {
            self.status = 2;
        } else if self.status == 2 && token_type != LEFT_CURLY_BRACKET_TOKEN && token_type
            != LEFT_PARENTHESES_TOKEN && token_type != LEFT_SQUARE_BRACKET_TOKEN && token_type
            != SEMICOLON_TOKEN {
            if token_type == WHITESPACE_TOKEN {
                // whitespace before the first value token is discarded
            } else {
                self.value_start = start;
                self.status = 3;
            }
        } else if self.status == 3 && token_type == SEMICOLON_TOKEN {
            if self.value_end == 0 {
                self.value_end = start;
            }
            let ghost ve0 = self.value_end as int;
            let ghost vs0 = self.value_start as int;
            while is_white_space16(crate::parser::utils::code_unit(source, self.value_end - 1))
                && self.value_end > self.value_start
                invariant
                    1 <= self.value_end <= ve0,
                    1 <= self.value_start,
                    self.value_start as int == vs0,
                    self.name_start == old(self).name_start,
                    self.name_end == old(self).name_end,
                    self.is_important == old(self).is_important,
                    self.status == old(self).status,
                    self.prev_token_type == old(self).prev_token_type,
                    trim_value_end_spec(source@, vs0, ve0) == trim_value_end_spec(
                        source@,
                        vs0,
                        self.value_end as int,
                    ),
                ensures
                    self.value_start as int == vs0,
                    self.name_start == old(self).name_start,
                    self.name_end == old(self).name_end,
                    self.is_important == old(self).is_important,
                    self.status == old(self).status,
                    self.prev_token_type == old(self).prev_token_type,
                    self.value_end as int == trim_value_end_spec(source@, vs0, ve0),
                decreases self.value_end,
            {
                self.value_end -= 1;
            }
            result = Some(
                Declaration {
                    name_start: self.name_start,
                    name_end: self.name_end,
                    value_start: self.value_start,
                    value_end: self.value_end,
                    is_important: self.is_important,
                },
            );
            self.status = 0;
            self.name_start = 0;
            self.name_end = 0;
            self.value_start = 0;
            self.value_end = 0;
            self.is_important = false;
        } else if self.status == 3 && self.prev_token_type == DELIM_TOKEN && important_matches {
            self.is_important = true;
            self.value_end = start - 1;
        } else if self.status == 3 && token_type != LEFT_CURLY_BRACKET_TOKEN && token_type
            != LEFT_PARENTHESES_TOKEN && token_type != LEFT_SQUARE_BRACKET_TOKEN && token_type
            != SEMICOLON_TOKEN {
            if token_type != WHITESPACE_TOKEN {
                self.value_end = end;
            }
        } else if self.status != 0 {
            self.status = 0;
            self.name_start = 0;
            self.name_end = 0;
            self.value_start = 0;
            self.value_end = 0;
            self.is_important = false;
        }
        self.prev_token_type = token_type;
        result
    }
}

/// Run the declaration machine over the tokens of `source` from `start`,
/// handing each completed declaration to `transformer`.
#[verifier::rlimit(60)]
fn parse_core<T: Transformer>(source: &[u16], start: usize, transformer: &mut T)
    requires
        source.len() < usize::MAX - 8,
        start <= source.len(),
        old(transformer).inv(),
    ensures
        final(transformer).inv(),
        final(transformer).frame() == old(transformer).frame(),
        final(transformer).decls() == old(transformer).decls() + decls_from_tokens(
            source@,
            token_seq(source@, start as int),
        ),
{
    let ghost frame0 = transformer.frame();
    let ghost ds0 = transformer.decls();
    let ghost toks = token_seq(source@, start as int);
    let mut sink = TokenList::new();
    tokenize_from(source, start, &mut sink);
    proof {
        lemma_token_spans_partition(source@, start as int);
    }
    let mut state = ParserState::new();
    let n = sink.items.len();
    let mut i: usize = 0;
    while i < n
        invariant
            source@.len() < usize::MAX - 8,
            n == sink.items.len(),
            sink.tokens() == toks,
            i <= n,
            toks.len() == n,
            forall|j: int| 0 <= j < n ==> start as int <= #[trigger] toks[j].1 < toks[j].2 <= source@.len(),
            forall|j: int| 0 <= j < n - 1 ==> #[trigger] toks[j].2 == toks[j + 1].1,
            transformer.inv(),
            transformer.frame() == frame0,
            state.wf(source@),
            (state@, transformer.decls().skip(ds0.len() as int)) == decl_run(source@, toks.take(i as int)),
            transformer.decls().len() >= ds0.len(),
            transformer.decls().take(ds0.len() as int) == ds0,
        decreases n - i,
    {
        let (tt, st, en) = sink.items[i];
        proof {
            assert(toks[i as int] == (tt, st as int, en as int));
            if i > 0 {
                assert(toks[i as int].1 == toks[i as int - 1].2);
                assert(toks[i as int - 1].1 < toks[i as int - 1].2);
            }
            if state@.status != 0 {
                assert(toks.take(i as int).len() > 0);
                assert(i > 0);
            }
            assert(toks.take(i as int + 1).drop_last() =~= toks.take(i as int));
            assert(toks.take(i as int + 1).last() == toks[i as int]);
        }
        let ghost before = transformer.decls();
        let r = state.on_token(source, tt, st, en);
        match r {
            Some(d) => {
                transformer.on_declaration(
                    d.name_start,
                    d.name_end,
                    d.value_start,
                    d.value_end,
                    d.is_important,
                );
                proof {
                    assert(transformer.decls().skip(ds0.len() as int) =~= before.skip(
                        ds0.len() as int,
                    ).push(d@));
                    assert(transformer.decls().take(ds0.len() as int) =~= ds0);
                }
            },
            None => {},
        }
        i += 1;
    }
    proof {
        assert(toks.take(n as int) =~= toks);
    }
    if state.prev_token_type != SEMICOLON_TOKEN {
        proof {
            if state@.status != 0 {
                assert(toks.len() > 0);
                assert(source@.len() > 0);
            }
        }
        let ghost before = transformer.decls();
        let r = state.on_token(source, SEMICOLON_TOKEN, source.len(), source.len());
        match r {
            Some(d) => {
                transformer.on_declaration(
                    d.name_start,
                    d.name_end,
                    d.value_start,
                    d.value_end,
                    d.is_important,
                );
                proof {
                    assert(transformer.decls().skip(ds0.len() as int) =~= before.skip(
                        ds0.len() as int,
                    ).push(d@));
                }
            },
            None => {},
        }
    }
    proof {
        assert(transformer.decls() =~= ds0 + decls_from_tokens(source@, toks));
    }
}

/// Parse the declarations of a 16-bit buffer, handing each one to
/// `transformer` in source order. The declarations handed over are
/// exactly `decls_spec` of the buffer.
pub fn parse_inline_style<T: Transformer>(source: &[u16], transformer: &mut T)
    requires
        source.len() < usize::MAX - 8,
        old(transformer).inv(),
    ensures
        final(transformer).inv(),
        final(transformer).frame() == old(transformer).frame(),
        final(transformer).decls() == old(transformer).decls() + decls_spec(source@),
{
    let first = crate::parser::utils::code_unit(source, 0);
    let start: usize = if first == 0xFEFF || first == 0xFFFE {
        1
    } else {
        0
    };
    proof {
        assert(start as int == bom_offset16(source@));
    }
    parse_core(source, start, transformer);
}

/// Parse the declarations of an 8-bit buffer; spans index the byte
/// buffer. The declarations handed over are exactly `decls_bytes_spec`.
pub fn parse_inline_style_bytes<T: Transformer>(source: &[u8], transformer: &mut T)
    requires
        source.len() < usize::MAX - 8,
        old(transformer).inv(),
    ensures
        final(transformer).inv(),
        final(transformer).frame() == old(transformer).frame(),
        final(transformer).decls() == old(transformer).decls() + decls_bytes_spec(source@),
{
    let widened = widen(source);
    let start = get_start_offset(source);
    parse_core(widened.as_slice(), start, transformer);
}

} // verus!
