//! The pipeline grammar.
//!
//! ```text
//! Seq     ::= Node ( "!" Node )*
//! Node    ::= Ident ( WS ArgList )?
//! ArgList ::= Arg ( ("," WS? | WS) Arg )*
//! Arg     ::= Key "=" (Ident | "'" StringLit "'")
//! ```
//!
//! Identifiers have no internal whitespace; string values are single-quoted;
//! argument separators are a comma, a comma plus spaces, or spaces. A node
//! kind is classified by the shape of its identifier: an identifier with a
//! colon is a `Func` (`model:func`), the suffixes `src`, `sink` and `store`
//! mark the terminal roles, and any other identifier names a model. Because
//! classification strips the suffix, rendering a kind adds it back; a model
//! kind renders as its bare name.
//!
//! The executable parser is proved equal to the specification-level parser
//! defined here. `lemma_classify_render_round_trip` shows that rendering any
//! kind the parser can produce and classifying it again is the identity, and
//! `lemma_pipeline_round_trip` lifts this to whole plan lists: rendering the
//! kinds of a parsed pipeline and parsing the joined text again yields the
//! same kinds.

use vstd::prelude::*;

use crate::ast::{
    entries_sorted, seq_to_map, Object, Plan, PlanKind, PlanKindV, PlanV, Value, ValueV,
};
use crate::error::PipeError;

verus! {

/// Byte values of the grammar's terminal characters.
pub const B_SPACE: u8 = 32;

pub const B_TAB: u8 = 9;

pub const B_QUOTE: u8 = 39;

pub const B_EQ: u8 = 61;

pub const B_COMMA: u8 = 44;

pub const B_BANG: u8 = 33;

pub const B_COLON: u8 = 58;

pub const B_UNDER: u8 = 95;

pub const B_LA: u8 = 97;

pub const B_LZ: u8 = 122;

pub const B_UA: u8 = 65;

pub const B_UZ: u8 = 90;

pub const B_D0: u8 = 48;

pub const B_D9: u8 = 57;

pub const B_LS: u8 = 115;

pub const B_LR: u8 = 114;

pub const B_LC: u8 = 99;

pub const B_LI: u8 = 105;

pub const B_LN: u8 = 110;

pub const B_LK: u8 = 107;

pub const B_LT: u8 = 116;

pub const B_LO: u8 = 111;

pub const B_LE: u8 = 101;

pub const B_LB: u8 = 98;

pub const B_LH: u8 = 104;

pub const B_LF: u8 = 102;

pub const B_LM: u8 = 109;

pub const B_LD: u8 = 100;

pub const B_LU: u8 = 117;

pub const B_LY: u8 = 121;

pub const B_LP: u8 = 112;

pub const B_LL: u8 = 108;

pub const B_LV: u8 = 118;

pub const B_LX: u8 = 120;

pub const B_LJ: u8 = 106;

pub const B_LG: u8 = 103;

pub const B_SLASH: u8 = 47;

pub const B_DOT: u8 = 46;

pub open spec fn is_ws_byte(c: u8) -> bool {
    c == B_SPACE || c == B_TAB
}

pub open spec fn is_ident_byte(c: u8) -> bool {
    (B_LA <= c && c <= B_LZ) || (B_UA <= c && c <= B_UZ) || (B_D0 <= c && c <= B_D9) || c == B_UNDER
        || c == B_COLON
}

/// First index at or after `i` holding a non-whitespace byte, else the length.
pub open spec fn ws_end(s: Seq<u8>, i: int) -> int
    decreases s.len() - i,
{
    if i < 0 {
        0
    } else if i >= s.len() {
        s.len() as int
    } else if is_ws_byte(s[i]) {
        ws_end(s, i + 1)
    } else {
        i
    }
}

/// First index at or after `i` holding a non-identifier byte, else the length.
pub open spec fn ident_end(s: Seq<u8>, i: int) -> int
    decreases s.len() - i,
{
    if i < 0 {
        0
    } else if i >= s.len() {
        s.len() as int
    } else if is_ident_byte(s[i]) {
        ident_end(s, i + 1)
    } else {
        i
    }
}

/// First index at or after `i` holding a single quote, else the length.
pub open spec fn quote_scan(s: Seq<u8>, i: int) -> int
    decreases s.len() - i,
{
    if i < 0 {
        0
    } else if i >= s.len() {
        s.len() as int
    } else if s[i] != B_QUOTE {
        quote_scan(s, i + 1)
    } else {
        i
    }
}

/// First index at or after `i` holding a colon, else the length.
pub open spec fn colon_scan(s: Seq<u8>, i: int) -> int
    decreases s.len() - i,
{
    if i < 0 {
        0
    } else if i >= s.len() {
        s.len() as int
    } else if s[i] != B_COLON {
        colon_scan(s, i + 1)
    } else {
        i
    }
}

pub proof fn lemma_ws_end_bounds(s: Seq<u8>, i: int)
    requires
        0 <= i <= s.len(),
    ensures
        i <= ws_end(s, i) <= s.len(),
    decreases s.len() - i,
{
    if i < s.len() && is_ws_byte(s[i]) {
        lemma_ws_end_bounds(s, i + 1);
    }
}

pub proof fn lemma_ident_end_bounds(s: Seq<u8>, i: int)
    requires
        0 <= i <= s.len(),
    ensures
        i <= ident_end(s, i) <= s.len(),
    decreases s.len() - i,
{
    if i < s.len() && is_ident_byte(s[i]) {
        lemma_ident_end_bounds(s, i + 1);
    }
}

pub proof fn lemma_quote_scan_bounds(s: Seq<u8>, i: int)
    requires
        0 <= i <= s.len(),
    ensures
        i <= quote_scan(s, i) <= s.len(),
    decreases s.len() - i,
{
    if i < s.len() && s[i] != B_QUOTE {
        lemma_quote_scan_bounds(s, i + 1);
    }
}

pub proof fn lemma_colon_scan_bounds(s: Seq<u8>, i: int)
    requires
        0 <= i <= s.len(),
    ensures
        i <= colon_scan(s, i) <= s.len(),
    decreases s.len() - i,
{
    if i < s.len() && s[i] != B_COLON {
        lemma_colon_scan_bounds(s, i + 1);
    }
}

pub open spec fn src_bytes() -> Seq<u8> {
    seq![B_LS, B_LR, B_LC]
}

pub open spec fn sink_bytes() -> Seq<u8> {
    seq![B_LS, B_LI, B_LN, B_LK]
}

pub open spec fn store_bytes() -> Seq<u8> {
    seq![B_LS, B_LT, B_LO, B_LR, B_LE]
}

pub open spec fn ends_with(s: Seq<u8>, suffix: Seq<u8>) -> bool {
    s.len() >= suffix.len() && s.subrange(s.len() - suffix.len(), s.len() as int) == suffix
}

/// Classifies a node identifier into its plan kind.
pub open spec fn spec_classify(id: Seq<u8>) -> PlanKindV {
    let p = colon_scan(id, 0);
    if 0 <= p < id.len() {
        PlanKindV::Func {
            model_name: id.subrange(0, p),
            func: id.subrange(p + 1, id.len() as int),
        }
    } else if ends_with(id, src_bytes()) {
        PlanKindV::Src { name: id.subrange(0, id.len() - 3) }
    } else if ends_with(id, sink_bytes()) {
        PlanKindV::Sink { name: id.subrange(0, id.len() - 4) }
    } else if ends_with(id, store_bytes()) {
        PlanKindV::Store { name: id.subrange(0, id.len() - 5) }
    } else {
        PlanKindV::Model { name: id }
    }
}

/// An argument value: a bare identifier or a single-quoted string.
pub open spec fn spec_parse_value(s: Seq<u8>, i: int) -> Option<(Seq<u8>, int)> {
    if 0 <= i < s.len() && s[i] == B_QUOTE {
        let j = quote_scan(s, i + 1);
        if j < s.len() {
            Some((s.subrange(i + 1, j), j + 1))
        } else {
            None
        }
    } else {
        let j = ident_end(s, i);
        if 0 <= i < j {
            Some((s.subrange(i, j), j))
        } else {
            None
        }
    }
}

/// One `key=value` argument.
pub open spec fn spec_parse_arg(s: Seq<u8>, i: int) -> Option<((Seq<u8>, Seq<u8>), int)> {
    let j = ident_end(s, i);
    if 0 <= i < j && j < s.len() && s[j] == B_EQ {
        match spec_parse_value(s, j + 1) {
            Some((v, k)) => Some(((s.subrange(i, j), v), k)),
            None => None,
        }
    } else {
        None
    }
}

pub proof fn lemma_parse_value_advances(s: Seq<u8>, i: int)
    requires
        0 <= i <= s.len(),
    ensures
        spec_parse_value(s, i) matches Some(r) ==> i < r.1 <= s.len(),
{
    lemma_ident_end_bounds(s, i);
    if i < s.len() {
        lemma_quote_scan_bounds(s, i + 1);
    }
}

pub proof fn lemma_parse_arg_advances(s: Seq<u8>, i: int)
    requires
        0 <= i <= s.len(),
    ensures
        spec_parse_arg(s, i) matches Some(r) ==> i < r.1 <= s.len(),
{
    lemma_ident_end_bounds(s, i);
    let j = ident_end(s, i);
    if 0 <= i < j && j < s.len() && s[j] == B_EQ {
        lemma_parse_value_advances(s, j + 1);
    }
}

/// An argument list: one argument, then further arguments after a comma
/// (optionally followed by spaces) or after spaces alone.
pub open spec fn spec_parse_args(s: Seq<u8>, i: int) -> Option<(Seq<(Seq<u8>, Seq<u8>)>, int)>
    decreases s.len() - i,
{
    match spec_parse_arg(s, i) {
        None => None,
        Some((a, k)) => if k <= i || k > s.len() {
            None
        } else if k < s.len() && s[k] == B_COMMA {
            let w = ws_end(s, k + 1);
            if w <= k || w > s.len() {
                None
            } else {
                match spec_parse_args(s, w) {
                    Some((rest, end)) => Some((seq![a] + rest, end)),
                    None => None,
                }
            }
        } else {
            let w = ws_end(s, k);
            if w > s.len() {
                None
            } else if w > k && spec_parse_arg(s, w) is Some {
                match spec_parse_args(s, w) {
                    Some((rest, end)) => Some((seq![a] + rest, end)),
                    None => None,
                }
            } else {
                Some((seq![a], k))
            }
        },
    }
}

pub proof fn lemma_parse_args_advances(s: Seq<u8>, i: int)
    requires
        0 <= i <= s.len(),
    ensures
        spec_parse_args(s, i) matches Some(r) ==> i < r.1 <= s.len(),
    decreases s.len() - i,
{
    lemma_parse_arg_advances(s, i);
    match spec_parse_arg(s, i) {
        None => {},
        Some((a, k)) => {
            if i < k <= s.len() {
                if k < s.len() && s[k] == B_COMMA {
                    lemma_ws_end_bounds(s, k + 1);
                    lemma_parse_args_advances(s, ws_end(s, k + 1));
                } else {
                    lemma_ws_end_bounds(s, k);
                    lemma_parse_args_advances(s, ws_end(s, k));
                }
            }
        },
    }
}

/// A node with its raw arguments, in text order.
pub open spec fn spec_parse_node(s: Seq<u8>, i: int) -> Option<
    ((PlanKindV, Seq<(Seq<u8>, Seq<u8>)>), int),
> {
    let j = ident_end(s, i);
    if 0 <= i < j <= s.len() {
        let kind = spec_classify(s.subrange(i, j));
        let w = ws_end(s, j);
        if j < w <= s.len() && spec_parse_arg(s, w) is Some {
            match spec_parse_args(s, w) {
                Some((args, k)) => Some(((kind, args), k)),
                None => None,
            }
        } else {
            Some(((kind, Seq::empty()), j))
        }
    } else {
        None
    }
}

pub proof fn lemma_parse_node_advances(s: Seq<u8>, i: int)
    requires
        0 <= i <= s.len(),
    ensures
        spec_parse_node(s, i) matches Some(r) ==> i < r.1 <= s.len(),
{
    lemma_ident_end_bounds(s, i);
    let j = ident_end(s, i);
    if 0 <= i < j <= s.len() {
        lemma_ws_end_bounds(s, j);
        lemma_parse_args_advances(s, ws_end(s, j));
    }
}

/// The node sequence from position `i` to the end of the text.
pub open spec fn spec_parse_rest(s: Seq<u8>, i: int) -> Option<
    Seq<(PlanKindV, Seq<(Seq<u8>, Seq<u8>)>)>,
>
    decreases s.len() - i,
{
    match spec_parse_node(s, i) {
        None => None,
        Some((p, k)) => if k <= i || k > s.len() {
            None
        } else {
            let w = ws_end(s, k);
            if w >= s.len() {
                Some(seq![p])
            } else if s[w] == B_BANG {
                let w2 = ws_end(s, w + 1);
                if w2 <= i || w2 > s.len() {
                    None
                } else {
                    match spec_parse_rest(s, w2) {
                        Some(rest) => Some(seq![p] + rest),
                        None => None,
                    }
                }
            } else {
                None
            }
        },
    }
}

/// The whole pipeline: leading whitespace, then the node sequence.
pub open spec fn spec_parse_pipeline(s: Seq<u8>) -> Option<
    Seq<(PlanKindV, Seq<(Seq<u8>, Seq<u8>)>)>,
> {
    spec_parse_rest(s, ws_end(s, 0))
}

/// Folds raw arguments into a key/value map, in text order, so that a later
/// duplicate key overrides an earlier one.
pub open spec fn spec_args_fold(m: Map<Seq<u8>, ValueV>, raw: Seq<(Seq<u8>, Seq<u8>)>) -> Map<
    Seq<u8>,
    ValueV,
>
    decreases raw.len(),
{
    if raw.len() == 0 {
        m
    } else {
        spec_args_fold(m.insert(raw[0].0, ValueV::Text(raw[0].1)), raw.drop_first())
    }
}

/// A parsed plan corresponds to a raw node: same kind, and its argument
/// object is the (canonically ordered) map of the raw arguments.
pub open spec fn plan_matches_raw(p: PlanV, raw: (PlanKindV, Seq<(Seq<u8>, Seq<u8>)>)) -> bool {
    &&& p.kind == raw.0
    &&& entries_sorted(p.args)
    &&& seq_to_map(p.args) == spec_args_fold(Map::empty(), raw.1)
}

pub open spec fn plans_match_raws(
    ps: Seq<PlanV>,
    raws: Seq<(PlanKindV, Seq<(Seq<u8>, Seq<u8>)>)>,
) -> bool {
    ps.len() == raws.len() && forall|t: int|
        0 <= t < ps.len() ==> plan_matches_raw(#[trigger] ps[t], raws[t])
}

fn is_ws_exec(c: u8) -> (r: bool)
    ensures
        r == is_ws_byte(c),
{
    c == B_SPACE || c == B_TAB
}

fn is_ident_exec(c: u8) -> (r: bool)
    ensures
        r == is_ident_byte(c),
{
    (B_LA <= c && c <= B_LZ) || (B_UA <= c && c <= B_UZ) || (B_D0 <= c && c <= B_D9) || c == B_UNDER
        || c == B_COLON
}

fn skip_ws(s: &Vec<u8>, i: usize) -> (r: usize)
    requires
        i <= s@.len(),
    ensures
        r == ws_end(s@, i as int),
        i <= r <= s@.len(),
{
    let mut j = i;
    while j < s.len() && is_ws_exec(s[j])
        invariant
            i <= j <= s@.len(),
            ws_end(s@, i as int) == ws_end(s@, j as int),
        decreases s@.len() - j,
    {
        j = j + 1;
    }
    j
}

fn scan_ident(s: &Vec<u8>, i: usize) -> (r: usize)
    requires
        i <= s@.len(),
    ensures
        r == ident_end(s@, i as int),
        i <= r <= s@.len(),
{
    let mut j = i;
    while j < s.len() && is_ident_exec(s[j])
        invariant
            i <= j <= s@.len(),
            ident_end(s@, i as int) == ident_end(s@, j as int),
        decreases s@.len() - j,
    {
        j = j + 1;
    }
    j
}

fn scan_quote(s: &Vec<u8>, i: usize) -> (r: usize)
    requires
        i <= s@.len(),
    ensures
        r == quote_scan(s@, i as int),
        i <= r <= s@.len(),
{
    let mut j = i;
    while j < s.len() && s[j] != B_QUOTE
        invariant
            i <= j <= s@.len(),
            quote_scan(s@, i as int) == quote_scan(s@, j as int),
        decreases s@.len() - j,
    {
        j = j + 1;
    }
    j
}

fn scan_colon(s: &Vec<u8>, i: usize) -> (r: usize)
    requires
        i <= s@.len(),
    ensures
        r == colon_scan(s@, i as int),
        i <= r <= s@.len(),
{
    let mut j = i;
    while j < s.len() && s[j] != B_COLON
        invariant
            i <= j <= s@.len(),
            colon_scan(s@, i as int) == colon_scan(s@, j as int),
        decreases s@.len() - j,
    {
        j = j + 1;
    }
    j
}

/// Copies the byte range `[a, b)`.
fn subvec(s: &Vec<u8>, a: usize, b: usize) -> (r: Vec<u8>)
    requires
        a <= b <= s@.len(),
    ensures
        r@ == s@.subrange(a as int, b as int),
{
    let mut r: Vec<u8> = Vec::new();
    let mut i = a;
    while i < b
        invariant
            a <= i <= b <= s@.len(),
            r@ == s@.subrange(a as int, i as int),
        decreases b - i,
    {
        r.push(s[i]);
        proof {
            assert(s@.subrange(a as int, i + 1 as int) =~= s@.subrange(a as int, i as int).push(
                s@[i as int],
            ));
        }
        i = i + 1;
    }
    r
}

/// Classifies a node identifier into its plan kind.
pub fn classify(id: &Vec<u8>) -> (r: PlanKind)
    ensures
        r@ == spec_classify(id@),
{
    let n = id.len();
    let p = scan_colon(id, 0);
    if p < n {
        PlanKind::Func { model_name: subvec(id, 0, p), func: subvec(id, p + 1, n) }
    } else if n >= 3 && id[n - 3] == B_LS && id[n - 2] == B_LR && id[n - 1] == B_LC {
        proof {
            assert(id@.subrange(n - 3, n as int) =~= src_bytes());
        }
        PlanKind::Src { name: subvec(id, 0, n - 3) }
    } else if n >= 4 && id[n - 4] == B_LS && id[n - 3] == B_LI && id[n - 2] == B_LN && id[n - 1]
        == B_LK {
        proof {
            assert(!ends_with(id@, src_bytes())) by {
                if ends_with(id@, src_bytes()) {
                    assert(id@.subrange(n - 3, n as int)[2] == B_LC);
                }
            }
            assert(id@.subrange(n - 4, n as int) =~= sink_bytes());
        }
        PlanKind::Sink { name: subvec(id, 0, n - 4) }
    } else if n >= 5 && id[n - 5] == B_LS && id[n - 4] == B_LT && id[n - 3] == B_LO && id[n - 2]
        == B_LR && id[n - 1] == B_LE {
        proof {
            assert(!ends_with(id@, src_bytes())) by {
                if ends_with(id@, src_bytes()) {
                    assert(id@.subrange(n - 3, n as int)[2] == B_LC);
                }
            }
            assert(!ends_with(id@, sink_bytes())) by {
                if ends_with(id@, sink_bytes()) {
                    assert(id@.subrange(n - 4, n as int)[3] == B_LK);
                }
            }
            assert(id@.subrange(n - 5, n as int) =~= store_bytes());
        }
        PlanKind::Store { name: subvec(id, 0, n - 5) }
    } else {
        proof {
            if ends_with(id@, src_bytes()) {
                assert(id@.subrange(n - 3, n as int)[0] == B_LS);
                assert(id@.subrange(n - 3, n as int)[1] == B_LR);
                assert(id@.subrange(n - 3, n as int)[2] == B_LC);
            }
            if ends_with(id@, sink_bytes()) {
                assert(id@.subrange(n - 4, n as int)[0] == B_LS);
                assert(id@.subrange(n - 4, n as int)[1] == B_LI);
                assert(id@.subrange(n - 4, n as int)[2] == B_LN);
                assert(id@.subrange(n - 4, n as int)[3] == B_LK);
            }
            if ends_with(id@, store_bytes()) {
                assert(id@.subrange(n - 5, n as int)[0] == B_LS);
                assert(id@.subrange(n - 5, n as int)[1] == B_LT);
                assert(id@.subrange(n - 5, n as int)[2] == B_LO);
                assert(id@.subrange(n - 5, n as int)[3] == B_LR);
                assert(id@.subrange(n - 5, n as int)[4] == B_LE);
            }
            assert(id@.subrange(0, n as int) =~= id@);
        }
        PlanKind::Model { name: subvec(id, 0, n) }
    }
}

fn parse_value(s: &Vec<u8>, i: usize) -> (r: Option<(Vec<u8>, usize)>)
    requires
        i <= s@.len(),
    ensures
        match r {
            Some(v) => spec_parse_value(s@, i as int) == Some((v.0@, v.1 as int)) && i < v.1
                <= s@.len(),
            None => spec_parse_value(s@, i as int) is None,
        },
{
    if i < s.len() && s[i] == B_QUOTE {
        let j = scan_quote(s, i + 1);
        if j < s.len() {
            Some((subvec(s, i + 1, j), j + 1))
        } else {
            None
        }
    } else {
        let j = scan_ident(s, i);
        if j > i {
            Some((subvec(s, i, j), j))
        } else {
            None
        }
    }
}

fn parse_arg(s: &Vec<u8>, i: usize) -> (r: Option<(Vec<u8>, Vec<u8>, usize)>)
    requires
        i <= s@.len(),
    ensures
        match r {
            Some(a) => spec_parse_arg(s@, i as int) == Some(((a.0@, a.1@), a.2 as int)) && i < a.2
                <= s@.len(),
            None => spec_parse_arg(s@, i as int) is None,
        },
{
    let j = scan_ident(s, i);
    if j > i && j < s.len() && s[j] == B_EQ {
        match parse_value(s, j + 1) {
            Some((v, k)) => Some((subvec(s, i, j), v, k)),
            None => None,
        }
    } else {
        None
    }
}

/// Parses an argument list from position `i`, folding each argument into
/// `args` in text order; a later duplicate key overrides an earlier one.
fn parse_args_into(s: &Vec<u8>, i: usize, args: &mut Object) -> (r: Option<usize>)
    requires
        i <= s@.len(),
        old(args).wf(),
    ensures
        match r {
            Some(k) => spec_parse_args(s@, i as int) matches Some(pr) && pr.1 == k as int && i < k
                <= s@.len() && final(args).wf() && final(args).as_map() == spec_args_fold(
                old(args).as_map(),
                pr.0,
            ),
            None => spec_parse_args(s@, i as int) is None,
        },
    decreases s@.len() - i,
{
    match parse_arg(s, i) {
        None => None,
        Some((key, val, k)) => {
            let ghost a = (key@, val@);
            args.insert(key, Value::String(val));
            if k < s.len() && s[k] == B_COMMA {
                let w = skip_ws(s, k + 1);
                match parse_args_into(s, w, args) {
                    Some(end) => {
                        proof {
                            let (rest, e) = spec_parse_args(s@, w as int).unwrap();
                            assert((seq![a] + rest).drop_first() =~= rest);
                            assert((seq![a] + rest)[0] == a);
                        }
                        Some(end)
                    },
                    None => None,
                }
            } else {
                let w = skip_ws(s, k);
                let more = if w > k {
                    match parse_arg(s, w) {
                        Some(_) => true,
                        None => false,
                    }
                } else {
                    false
                };
                if more {
                    match parse_args_into(s, w, args) {
                        Some(end) => {
                            proof {
                                let (rest, e) = spec_parse_args(s@, w as int).unwrap();
                                assert((seq![a] + rest).drop_first() =~= rest);
                                assert((seq![a] + rest)[0] == a);
                            }
                            Some(end)
                        },
                        None => None,
                    }
                } else {
                    proof {
                        assert(seq![a].drop_first() =~= Seq::<(Seq<u8>, Seq<u8>)>::empty());
                        assert(seq![a][0] == a);
                        assert(spec_parse_args(s@, i as int) == Some((seq![a], k as int)));
                        let m0 = old(args).as_map();
                        assert(args.as_map() == m0.insert(a.0, ValueV::Text(a.1)));
                        assert(spec_args_fold(m0.insert(a.0, ValueV::Text(a.1)), Seq::empty())
                            == m0.insert(a.0, ValueV::Text(a.1)));
                        assert(spec_args_fold(m0, seq![a]) == spec_args_fold(
                            m0.insert(seq![a][0].0, ValueV::Text(seq![a][0].1)),
                            seq![a].drop_first(),
                        ));
                        assert(args.as_map() == spec_args_fold(old(args).as_map(), seq![a]));
                    }
                    Some(k)
                }
            }
        },
    }
}

/// Parses one node: an identifier, optionally followed by arguments.
fn parse_node(s: &Vec<u8>, i: usize) -> (r: Option<(Plan, usize)>)
    requires
        i <= s@.len(),
    ensures
        match r {
            Some(p) => spec_parse_node(s@, i as int) matches Some(pr) && pr.1 == p.1 as int && i
                < p.1 <= s@.len() && p.0@.kind == pr.0.0 && p.0.args.wf() && p.0.args.as_map()
                == spec_args_fold(Map::empty(), pr.0.1),
            None => spec_parse_node(s@, i as int) is None,
        },
{
    let j = scan_ident(s, i);
    if j == i {
        return None;
    }
    let id = subvec(s, i, j);
    let kind = classify(&id);
    let w = skip_ws(s, j);
    let arg_follows = if w > j {
        match parse_arg(s, w) {
            Some(_) => true,
            None => false,
        }
    } else {
        false
    };
    if arg_follows {
        let mut args = Object::new();
        match parse_args_into(s, w, &mut args) {
            Some(k) => Some((Plan { kind, args }, k)),
            None => None,
        }
    } else {
        let args = Object::new();
        Some((Plan { kind, args }, j))
    }
}

/// Parses the node sequence from position `i`, appending plans to `out`.
fn parse_rest(s: &Vec<u8>, i: usize, out: &mut Vec<Plan>) -> (r: bool)
    requires
        i <= s@.len(),
    ensures
        r ==> (spec_parse_rest(s@, i as int) matches Some(raws) && {
            &&& final(out)@.len() == old(out)@.len() + raws.len()
            &&& final(out)@.take(old(out)@.len() as int) == old(out)@
            &&& plans_match_raws(
                final(out)@.skip(old(out)@.len() as int).map_values(|p: Plan| p@),
                raws,
            )
        }),
        !r ==> spec_parse_rest(s@, i as int) is None,
    decreases s@.len() - i,
{
    match parse_node(s, i) {
        None => false,
        Some((p, k)) => {
            let w = skip_ws(s, k);
            if w >= s.len() {
                out.push(p);
                proof {
                    let raws = spec_parse_rest(s@, i as int).unwrap();
                    assert(final(out)@.take(old(out)@.len() as int) =~= old(out)@);
                    let tail = final(out)@.skip(old(out)@.len() as int).map_values(
                        |q: Plan| q@,
                    );
                    assert(final(out)@.skip(old(out)@.len() as int) =~= seq![p]);
                    assert(tail =~= seq![p@]);
                }
                true
            } else if s[w] == B_BANG {
                let w2 = skip_ws(s, w + 1);
                out.push(p);
                let ghost mid = out@;
                let ok = parse_rest(s, w2, out);
                if ok {
                    proof {
                        let raws_rest = spec_parse_rest(s@, w2 as int).unwrap();
                        let raws = spec_parse_rest(s@, i as int).unwrap();
                        let node_raw = spec_parse_node(s@, i as int).unwrap().0;
                        assert(raws =~= seq![node_raw] + raws_rest);
                        assert(mid.take(old(out)@.len() as int) =~= old(out)@);
                        assert(final(out)@.take(old(out)@.len() as int) =~= old(out)@) by {
                            assert(final(out)@.take(mid.len() as int) == mid);
                            assert forall|t: int| 0 <= t < old(out)@.len() implies final(out)@[t]
                                == old(out)@[t] by {
                                assert(mid[t] == old(out)@[t]);
                                assert(final(out)@[t] == mid[t]);
                            }
                        }
                        let tail = final(out)@.skip(old(out)@.len() as int).map_values(
                            |q: Plan| q@,
                        );
                        assert(tail.len() == raws.len());
                        assert forall|t: int| 0 <= t < tail.len() implies plan_matches_raw(
                            #[trigger] tail[t],
                            raws[t],
                        ) by {
                            if t == 0 {
                                assert(final(out)@[old(out)@.len() as int] == mid[mid.len() - 1]);
                                assert(mid[mid.len() - 1] == p);
                                assert(tail[0] == p@);
                                assert(raws[0] == node_raw);
                            } else {
                                let rest_tail = final(out)@.skip(mid.len() as int).map_values(
                                    |q: Plan| q@,
                                );
                                assert(rest_tail[t - 1] == final(out)@[mid.len() + t - 1]@);
                                assert(tail[t] == final(out)@[old(out)@.len() + t]@);
                                assert(plan_matches_raw(rest_tail[t - 1], raws_rest[t - 1]));
                                assert(raws[t] == raws_rest[t - 1]);
                            }
                        }
                    }
                    true
                } else {
                    false
                }
            } else {
                false
            }
        },
    }
}

/// Parses a whole pipeline expression into its plan list.
///
/// On success the result corresponds plan by plan to the specification-level
/// parse of the input; on failure the input does not match the grammar and a
/// `ParseError` carries the byte offset at which parsing stopped.
pub fn parse_pipeline(s: &Vec<u8>) -> (r: Result<Vec<Plan>, PipeError>)
    ensures
        match r {
            Ok(plans) => spec_parse_pipeline(s@) matches Some(raws) && plans_match_raws(
                plans@.map_values(|p: Plan| p@),
                raws,
            ),
            Err(e) => spec_parse_pipeline(s@) is None && e matches PipeError::ParseError { .. },
        },
{
    let start = skip_ws(s, 0);
    let mut out: Vec<Plan> = Vec::new();
    let ok = parse_rest(s, start, &mut out);
    if ok {
        proof {
            assert(out@.take(0) =~= Seq::<Plan>::empty());
            assert(out@.skip(0) =~= out@);
        }
        Ok(out)
    } else {
        Err(PipeError::ParseError { at: start })
    }
}

pub open spec fn batch_bytes() -> Seq<u8> {
    seq![B_LB, B_LA, B_LT, B_LC, B_LH]
}

pub open spec fn format_bytes() -> Seq<u8> {
    seq![B_LF, B_LO, B_LR, B_LM, B_LA, B_LT]
}

pub open spec fn stream_bytes() -> Seq<u8> {
    seq![B_LS, B_LT, B_LR, B_LE, B_LA, B_LM]
}

/// The canonical rendering of a plan kind, the inverse of classification.
///
/// A model kind renders as its bare name, because classification is
/// suffix-based; the engine-internal batch, format and stream kinds keep the
/// original suffixed log form.
pub open spec fn spec_render_kind(k: PlanKindV) -> Seq<u8> {
    match k {
        PlanKindV::Batch { name } => name + batch_bytes(),
        PlanKindV::Format { name } => name + format_bytes(),
        PlanKindV::Func { model_name, func } => model_name + seq![B_COLON] + func,
        PlanKindV::Model { name } => name,
        PlanKindV::Sink { name } => name + sink_bytes(),
        PlanKindV::Src { name } => name + src_bytes(),
        PlanKindV::Store { name } => name + store_bytes(),
        PlanKindV::Stream { name } => name + stream_bytes(),
    }
}

/// Renders a plan kind as pipeline text.
pub fn render_kind(k: &PlanKind) -> (r: Vec<u8>)
    ensures
        r@ == spec_render_kind(k@),
{
    match k {
        PlanKind::Batch { name } => {
            let mut out = crate::ast::clone_bytes(name);
            out.push(B_LB);
            out.push(B_LA);
            out.push(B_LT);
            out.push(B_LC);
            out.push(B_LH);
            proof {
                assert(out@ =~= name@ + batch_bytes());
            }
            out
        },
        PlanKind::Format { name } => {
            let mut out = crate::ast::clone_bytes(name);
            out.push(B_LF);
            out.push(B_LO);
            out.push(B_LR);
            out.push(B_LM);
            out.push(B_LA);
            out.push(B_LT);
            proof {
                assert(out@ =~= name@ + format_bytes());
            }
            out
        },
        PlanKind::Func { model_name, func } => {
            let mut out = crate::ast::clone_bytes(model_name);
            out.push(B_COLON);
            let mut i: usize = 0;
            while i < func.len()
                invariant
                    0 <= i <= func@.len(),
                    out@ == model_name@ + seq![B_COLON] + func@.take(i as int),
                decreases func@.len() - i,
            {
                out.push(func[i]);
                proof {
                    assert(model_name@ + seq![B_COLON] + func@.take(i + 1 as int) =~= (model_name@
                        + seq![B_COLON] + func@.take(i as int)).push(func@[i as int]));
                }
                i = i + 1;
            }
            proof {
                assert(out@ =~= model_name@ + seq![B_COLON] + func@) by {
                    assert(func@.take(func@.len() as int) =~= func@);
                }
            }
            out
        },
        PlanKind::Model { name } => crate::ast::clone_bytes(name),
        PlanKind::Sink { name } => {
            let mut out = crate::ast::clone_bytes(name);
            out.push(B_LS);
            out.push(B_LI);
            out.push(B_LN);
            out.push(B_LK);
            proof {
                assert(out@ =~= name@ + sink_bytes());
            }
            out
        },
        PlanKind::Src { name } => {
            let mut out = crate::ast::clone_bytes(name);
            out.push(B_LS);
            out.push(B_LR);
            out.push(B_LC);
            proof {
                assert(out@ =~= name@ + src_bytes());
            }
            out
        },
        PlanKind::Store { name } => {
            let mut out = crate::ast::clone_bytes(name);
            out.push(B_LS);
            out.push(B_LT);
            out.push(B_LO);
            out.push(B_LR);
            out.push(B_LE);
            proof {
                assert(out@ =~= name@ + store_bytes());
            }
            out
        },
        PlanKind::Stream { name } => {
            let mut out = crate::ast::clone_bytes(name);
            out.push(B_LS);
            out.push(B_LT);
            out.push(B_LR);
            out.push(B_LE);
            out.push(B_LA);
            out.push(B_LM);
            proof {
                assert(out@ =~= name@ + stream_bytes());
            }
            out
        },
    }
}

pub open spec fn ident_bytes_only(s: Seq<u8>) -> bool {
    forall|j: int| 0 <= j < s.len() ==> is_ident_byte(#[trigger] s[j])
}

pub open spec fn colon_free(s: Seq<u8>) -> bool {
    forall|j: int| 0 <= j < s.len() ==> (#[trigger] s[j]) != B_COLON
}

/// The kinds the parser can produce, with the name shapes it can produce
/// them from. Batch, format and stream kinds are engine-internal and never
/// come out of the parser.
pub open spec fn kind_producible(k: PlanKindV) -> bool {
    match k {
        PlanKindV::Func { model_name, func } => ident_bytes_only(model_name) && ident_bytes_only(
            func,
        ) && colon_free(model_name),
        PlanKindV::Src { name } => ident_bytes_only(name) && colon_free(name),
        PlanKindV::Sink { name } => ident_bytes_only(name) && colon_free(name),
        PlanKindV::Store { name } => ident_bytes_only(name) && colon_free(name),
        PlanKindV::Model { name } => name.len() > 0 && ident_bytes_only(name) && colon_free(name)
            && !ends_with(name, src_bytes()) && !ends_with(name, sink_bytes()) && !ends_with(
            name,
            store_bytes(),
        ),
        _ => false,
    }
}

proof fn lemma_colon_scan_none(s: Seq<u8>, i: int)
    requires
        0 <= i <= s.len(),
        forall|j: int| i <= j < s.len() ==> (#[trigger] s[j]) != B_COLON,
    ensures
        colon_scan(s, i) == s.len(),
    decreases s.len() - i,
{
    if i < s.len() {
        lemma_colon_scan_none(s, i + 1);
    }
}

proof fn lemma_colon_scan_hit(s: Seq<u8>, i: int, p: int)
    requires
        0 <= i <= p < s.len(),
        forall|j: int| i <= j < p ==> (#[trigger] s[j]) != B_COLON,
        s[p] == B_COLON,
    ensures
        colon_scan(s, i) == p,
    decreases p - i,
{
    if i < p {
        lemma_colon_scan_hit(s, i + 1, p);
    }
}

/// A pipeline text rendered from kinds: the kinds' renderings joined with
/// `" ! "`.
pub open spec fn render_pipeline(kinds: Seq<PlanKindV>) -> Seq<u8>
    decreases kinds.len(),
{
    if kinds.len() == 0 {
        Seq::empty()
    } else if kinds.len() == 1 {
        spec_render_kind(kinds[0])
    } else {
        spec_render_kind(kinds[0]) + seq![B_SPACE, B_BANG, B_SPACE] + render_pipeline(
            kinds.drop_first(),
        )
    }
}

/// Scanning stops exactly at the first non-identifier byte after an
/// identifier run.
proof fn lemma_ident_end_hit(s: Seq<u8>, i: int, p: int)
    requires
        0 <= i <= p <= s.len(),
        forall|k: int| i <= k < p ==> is_ident_byte(#[trigger] s[k]),
        p == s.len() || !is_ident_byte(s[p]),
    ensures
        ident_end(s, i) == p,
    decreases p - i,
{
    if i < p {
        lemma_ident_end_hit(s, i + 1, p);
    }
}

/// The rendering of a producible kind is a non-empty identifier.
proof fn lemma_render_kind_ident(k: PlanKindV)
    requires
        kind_producible(k),
    ensures
        spec_render_kind(k).len() > 0,
        forall|j: int|
            0 <= j < spec_render_kind(k).len() ==> is_ident_byte(#[trigger] spec_render_kind(k)[j]),
{
    let r = spec_render_kind(k);
    match k {
        PlanKindV::Func { model_name, func } => {
            assert forall|j: int| 0 <= j < r.len() implies is_ident_byte(#[trigger] r[j]) by {
                if j < model_name.len() {
                    assert(r[j] == model_name[j]);
                } else if j == model_name.len() {
                    assert(r[j] == B_COLON);
                } else {
                    assert(r[j] == func[j - model_name.len() - 1]);
                }
            }
        },
        PlanKindV::Src { name } => {
            assert forall|j: int| 0 <= j < r.len() implies is_ident_byte(#[trigger] r[j]) by {
                if j < name.len() {
                    assert(r[j] == name[j]);
                } else {
                    assert(r[j] == src_bytes()[j - name.len()]);
                }
            }
        },
        PlanKindV::Sink { name } => {
            assert forall|j: int| 0 <= j < r.len() implies is_ident_byte(#[trigger] r[j]) by {
                if j < name.len() {
                    assert(r[j] == name[j]);
                } else {
                    assert(r[j] == sink_bytes()[j - name.len()]);
                }
            }
        },
        PlanKindV::Store { name } => {
            assert forall|j: int| 0 <= j < r.len() implies is_ident_byte(#[trigger] r[j]) by {
                if j < name.len() {
                    assert(r[j] == name[j]);
                } else {
                    assert(r[j] == store_bytes()[j - name.len()]);
                }
            }
        },
        PlanKindV::Model { name } => {},
        _ => {},
    }
}

/// Parsing a node sequence rendered at the end of the text yields exactly
/// those kinds, each with no arguments.
proof fn lemma_parse_rest_of_render(s: Seq<u8>, i: int, kinds: Seq<PlanKindV>)
    requires
        kinds.len() > 0,
        forall|t: int| 0 <= t < kinds.len() ==> kind_producible(#[trigger] kinds[t]),
        0 <= i,
        i + render_pipeline(kinds).len() == s.len(),
        s.subrange(i, s.len() as int) == render_pipeline(kinds),
    ensures
        spec_parse_rest(s, i) matches Some(raws) && raws.len() == kinds.len() && (forall|t: int|
            0 <= t < kinds.len() ==> (#[trigger] raws[t]).0 == kinds[t] && raws[t].1
                == Seq::<(Seq<u8>, Seq<u8>)>::empty()),
    decreases kinds.len(),
{
    let e = render_pipeline(kinds);
    let r0 = spec_render_kind(kinds[0]);
    assert forall|k: int| i <= k < s.len() implies s[k] == e[k - i] by {
        assert(s.subrange(i, s.len() as int)[k - i] == e[k - i]);
    }
    lemma_render_kind_ident(kinds[0]);
    assert forall|k: int| 0 <= k < r0.len() implies e[k] == r0[k] by {
        if kinds.len() > 1 {
            assert(e == r0 + seq![B_SPACE, B_BANG, B_SPACE] + render_pipeline(kinds.drop_first()));
        }
    }
    let j = i + r0.len() as int;
    assert forall|k: int| i <= k < j implies is_ident_byte(#[trigger] s[k]) by {
        assert(s[k] == e[k - i]);
        assert(e[k - i] == r0[k - i]);
    }
    if kinds.len() == 1 {
        assert(j == s.len());
        lemma_ident_end_hit(s, i, j);
        assert(s.subrange(i, j) =~= r0) by {
            assert forall|k: int| 0 <= k < r0.len() implies s.subrange(i, j)[k] == r0[k] by {
                assert(s[i + k] == e[i + k - i]);
            }
        }
        lemma_classify_render_round_trip(kinds[0]);
        // No whitespace follows, so the node has no arguments and the
        // sequence ends here.
        assert(ws_end(s, j) == j);
        assert(spec_parse_node(s, i) == Some(((kinds[0], Seq::<(Seq<u8>, Seq<u8>)>::empty()), j)));
        let raws = spec_parse_rest(s, i).unwrap();
        assert(raws =~= seq![(kinds[0], Seq::<(Seq<u8>, Seq<u8>)>::empty())]);
    } else {
        assert(e == r0 + seq![B_SPACE, B_BANG, B_SPACE] + render_pipeline(kinds.drop_first()));
        assert(s[j] == B_SPACE);
        assert(s[j + 1] == B_BANG);
        assert(s[j + 2] == B_SPACE);
        assert(!is_ident_byte(B_SPACE));
        lemma_ident_end_hit(s, i, j);
        assert(s.subrange(i, j) =~= r0) by {
            assert forall|k: int| 0 <= k < r0.len() implies s.subrange(i, j)[k] == r0[k] by {
                assert(s[i + k] == e[i + k - i]);
            }
        }
        lemma_classify_render_round_trip(kinds[0]);
        // One space, then the separator: the whitespace scan stops at the
        // bang, whose position cannot start an argument.
        assert(!is_ws_byte(s[j + 1]));
        assert(ws_end(s, j + 1) == j + 1);
        assert(ws_end(s, j) == j + 1);
        assert(ident_end(s, j + 1) == j + 1);
        assert(spec_parse_arg(s, j + 1) is None);
        assert(spec_parse_node(s, i) == Some(((kinds[0], Seq::<(Seq<u8>, Seq<u8>)>::empty()), j)));
        // The rest of the text is the rendering of the remaining kinds.
        let rest = kinds.drop_first();
        let f = j + 3;
        assert(forall|t: int| 0 <= t < rest.len() ==> kind_producible(#[trigger] rest[t])) by {
            assert forall|t: int| 0 <= t < rest.len() implies kind_producible(
                #[trigger] rest[t],
            ) by {
                assert(rest[t] == kinds[t + 1]);
            }
        }
        assert(rest.len() > 0);
        lemma_render_kind_ident(rest[0]);
        assert(s.subrange(f, s.len() as int) =~= render_pipeline(rest)) by {
            assert forall|k: int| 0 <= k < render_pipeline(rest).len() implies s.subrange(
                f,
                s.len() as int,
            )[k] == render_pipeline(rest)[k] by {
                assert(s[f + k] == e[f + k - i]);
                assert(e[r0.len() + 3 + k] == render_pipeline(rest)[k]);
            }
        }
        lemma_parse_rest_of_render(s, f, rest);
        // The scan from the bang's successor stops at the next identifier.
        assert(s[f] == render_pipeline(rest)[0]) by {
            assert(s.subrange(f, s.len() as int)[0] == render_pipeline(rest)[0]);
        }
        assert(render_pipeline(rest)[0] == spec_render_kind(rest[0])[0]) by {
            if rest.len() > 1 {
                assert(render_pipeline(rest) == spec_render_kind(rest[0]) + seq![
                    B_SPACE,
                    B_BANG,
                    B_SPACE,
                ] + render_pipeline(rest.drop_first()));
            }
        }
        assert(is_ident_byte(s[f]));
        assert(!is_ws_byte(s[f]));
        assert(ws_end(s, f) == f);
        assert(ws_end(s, j + 2) == f);
        let raws_rest = spec_parse_rest(s, f).unwrap();
        assert(spec_parse_rest(s, i) == Some(
            seq![(kinds[0], Seq::<(Seq<u8>, Seq<u8>)>::empty())] + raws_rest,
        ));
        let raws = spec_parse_rest(s, i).unwrap();
        assert forall|t: int| 0 <= t < kinds.len() implies (#[trigger] raws[t]).0 == kinds[t]
            && raws[t].1 == Seq::<(Seq<u8>, Seq<u8>)>::empty() by {
            if t == 0 {
            } else {
                assert(raws[t] == raws_rest[t - 1]);
                assert(rest[t - 1] == kinds[t]);
            }
        }
    }
}

/// Plan round-trip: rendering the kinds of any producible plan list and
/// parsing the joined text again yields the same kinds, each with empty
/// arguments. The kinds of any successfully parsed pipeline are producible,
/// so parsing, rendering each kind in order and re-parsing restores the
/// plan list.
#[verifier::rlimit(30)]
pub proof fn lemma_pipeline_round_trip(kinds: Seq<PlanKindV>)
    requires
        kinds.len() > 0,
        forall|t: int| 0 <= t < kinds.len() ==> kind_producible(#[trigger] kinds[t]),
    ensures
        spec_parse_pipeline(render_pipeline(kinds)) matches Some(raws) && raws.len()
            == kinds.len() && (forall|t: int|
            0 <= t < kinds.len() ==> (#[trigger] raws[t]).0 == kinds[t] && raws[t].1
                == Seq::<(Seq<u8>, Seq<u8>)>::empty()),
{
    let s = render_pipeline(kinds);
    assert(s.subrange(0, s.len() as int) =~= s);
    lemma_render_kind_ident(kinds[0]);
    assert(s[0] == spec_render_kind(kinds[0])[0]) by {
        if kinds.len() > 1 {
            assert(s == spec_render_kind(kinds[0]) + seq![B_SPACE, B_BANG, B_SPACE]
                + render_pipeline(kinds.drop_first()));
        }
    }
    assert(is_ident_byte(s[0]));
    assert(ws_end(s, 0) == 0);
    lemma_parse_rest_of_render(s, 0, kinds);
}

/// Rendering any kind the parser can produce and classifying the rendered
/// identifier again is the identity. Together with the parser/renderer
/// contracts this is the plan round-trip law: the kinds of a parsed pipeline
/// re-parse from their rendering to the same kinds.
pub proof fn lemma_classify_render_round_trip(k: PlanKindV)
    requires
        kind_producible(k),
    ensures
        spec_classify(spec_render_kind(k)) == k,
{
    match k {
        PlanKindV::Func { model_name, func } => {
            let id = model_name + seq![B_COLON] + func;
            assert forall|j: int| 0 <= j < model_name.len() implies (#[trigger] id[j])
                != B_COLON by {
                assert(id[j] == model_name[j]);
            }
            assert(id[model_name.len() as int] == B_COLON);
            lemma_colon_scan_hit(id, 0, model_name.len() as int);
            assert(id.subrange(0, model_name.len() as int) =~= model_name);
            assert(id.subrange(model_name.len() as int + 1, id.len() as int) =~= func);
        },
        PlanKindV::Src { name } => {
            let id = name + src_bytes();
            assert forall|j: int| 0 <= j < id.len() implies (#[trigger] id[j]) != B_COLON by {
                if j < name.len() {
                    assert(id[j] == name[j]);
                } else {
                    assert(id[j] == src_bytes()[j - name.len()]);
                }
            }
            lemma_colon_scan_none(id, 0);
            assert(id.subrange(id.len() - 3, id.len() as int) =~= src_bytes());
            assert(id.subrange(0, id.len() - 3) =~= name);
        },
        PlanKindV::Sink { name } => {
            let id = name + sink_bytes();
            assert forall|j: int| 0 <= j < id.len() implies (#[trigger] id[j]) != B_COLON by {
                if j < name.len() {
                    assert(id[j] == name[j]);
                } else {
                    assert(id[j] == sink_bytes()[j - name.len()]);
                }
            }
            lemma_colon_scan_none(id, 0);
            assert(id[id.len() - 1] == B_LK);
            assert(!ends_with(id, src_bytes())) by {
                if ends_with(id, src_bytes()) {
                    assert(id.subrange(id.len() - 3, id.len() as int)[2] == B_LC);
                }
            }
            assert(id.subrange(id.len() - 4, id.len() as int) =~= sink_bytes());
            assert(id.subrange(0, id.len() - 4) =~= name);
        },
        PlanKindV::Store { name } => {
            let id = name + store_bytes();
            assert forall|j: int| 0 <= j < id.len() implies (#[trigger] id[j]) != B_COLON by {
                if j < name.len() {
                    assert(id[j] == name[j]);
                } else {
                    assert(id[j] == store_bytes()[j - name.len()]);
                }
            }
            lemma_colon_scan_none(id, 0);
            assert(id[id.len() - 1] == B_LE);
            assert(!ends_with(id, src_bytes())) by {
                if ends_with(id, src_bytes()) {
                    assert(id.subrange(id.len() - 3, id.len() as int)[2] == B_LC);
                }
            }
            assert(!ends_with(id, sink_bytes())) by {
                if ends_with(id, sink_bytes()) {
                    assert(id.subrange(id.len() - 4, id.len() as int)[3] == B_LK);
                }
            }
            assert(id.subrange(id.len() - 5, id.len() as int) =~= store_bytes());
            assert(id.subrange(0, id.len() - 5) =~= name);
        },
        PlanKindV::Model { name } => {
            lemma_colon_scan_none(name, 0);
        },
        _ => {},
    }
}

} // verus!
