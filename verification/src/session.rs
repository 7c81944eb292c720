//! The plan compiler and the node factory registry.
//!
//! A session holds a registry of node factories, each declaring its kind and
//! its input and output edges. Compiling a plan list is a linear scan with a
//! rolling context: every node's input edge is checked against the context,
//! the context is then extended by the node's output edge, and the structural
//! source/sink rules are enforced. The compiler never inspects node
//! internals; building the implementations is the driver's business.

use vstd::prelude::*;

use crate::ast::{Object, Plan, PlanKind, PlanKindV, PlanType};
use crate::error::PipeError;
use crate::grammar::{
    B_LA, B_LB, B_LC, B_LD, B_LE, B_LF, B_LH, B_LI, B_LL, B_LM, B_LN, B_LO, B_LP, B_LR, B_LS,
    B_LT, B_LU, B_LV, B_LY,
};
use crate::order::bytes_eq;

verus! {

/// Mathematical view of a `PipeEdge`.
pub struct EdgeV {
    pub batch: Option<Seq<u8>>,
    pub model: Option<Seq<Seq<u8>>>,
    pub stream: Option<Seq<u8>>,
}

/// The views of a list of names.
pub open spec fn names_view(ms: Seq<Vec<u8>>) -> Seq<Seq<u8>> {
    ms.map_values(|m: Vec<u8>| m@)
}

/// The declared compatibility triple of a node: the batch engine it needs or
/// produces, the models it needs or supplies, and the stream form. An absent
/// axis means "no constraint" on input and "no change" on output.
pub struct PipeEdge {
    pub batch: Option<Vec<u8>>,
    pub model: Option<Vec<Vec<u8>>>,
    pub stream: Option<Vec<u8>>,
}

impl View for PipeEdge {
    type V = EdgeV;

    open spec fn view(&self) -> EdgeV {
        EdgeV {
            batch: match self.batch {
                Some(ref b) => Some(b@),
                None => None,
            },
            model: match self.model {
                Some(ref ms) => Some(names_view(ms@)),
                None => None,
            },
            stream: match self.stream {
                Some(ref t) => Some(t@),
                None => None,
            },
        }
    }
}

impl Default for PipeEdge {
    /// The unconstrained edge.
    fn default() -> (r: PipeEdge)
        ensures
            r@.batch is None,
            r@.model is None,
            r@.stream is None,
    {
        PipeEdge { batch: None, model: None, stream: None }
    }
}

impl PipeEdge {
    /// A structural copy whose view equals this one's.
    pub fn duplicate(&self) -> (r: PipeEdge)
        ensures
            r@ == self@,
    {
        let batch = match &self.batch {
            Some(b) => Some(crate::ast::clone_bytes(b)),
            None => None,
        };
        let model = match &self.model {
            Some(ms) => {
                let mut out: Vec<Vec<u8>> = Vec::new();
                let mut i: usize = 0;
                while i < ms.len()
                    invariant
                        0 <= i <= ms@.len(),
                        out@.len() == i,
                        forall|j: int| 0 <= j < i ==> (#[trigger] out@[j])@ == ms@[j]@,
                    decreases ms@.len() - i,
                {
                    out.push(crate::ast::clone_bytes(&ms[i]));
                    i = i + 1;
                }
                proof {
                    assert(names_view(out@) =~= names_view(ms@));
                }
                Some(out)
            },
            None => None,
        };
        let stream = match &self.stream {
            Some(t) => Some(crate::ast::clone_bytes(t)),
            None => None,
        };
        PipeEdge { batch, model, stream }
    }
}

/// Mathematical view of a factory descriptor.
pub struct FactoryV {
    pub kind: PlanKindV,
    pub input: EdgeV,
    pub output: EdgeV,
    pub builds: PlanType,
}

/// A node factory: the kind it is registered under, its edges, and the role
/// of the implementation its builder produces.
pub struct PipeNodeFactory {
    pub kind: PlanKind,
    pub input: PipeEdge,
    pub output: PipeEdge,
    pub builds: PlanType,
}

impl View for PipeNodeFactory {
    type V = FactoryV;

    open spec fn view(&self) -> FactoryV {
        FactoryV { kind: self.kind@, input: self.input@, output: self.output@, builds: self.builds }
    }
}

impl PipeNodeFactory {
    /// A structural copy whose view equals this one's.
    pub fn duplicate(&self) -> (r: PipeNodeFactory)
        ensures
            r@ == self@,
    {
        PipeNodeFactory {
            kind: self.kind.duplicate(),
            input: self.input.duplicate(),
            output: self.output.duplicate(),
            builds: self.builds,
        }
    }
}

/// The rolling context of the compiler's linear scan.
pub struct CtxV {
    pub batch: Seq<u8>,
    pub models: Seq<Seq<u8>>,
    pub stream: Seq<u8>,
}

/// The whole compiler state: the rolling context plus whether a source and a
/// sink have been seen.
pub struct CompileStateV {
    pub ctx: CtxV,
    pub src_seen: bool,
    pub sink_seen: bool,
}

/// The ways one compilation step can fail.
pub enum FailV {
    UnknownNode,
    IncompatibleBatch,
    ImplicitModel,
    MissingModel,
    IncompatibleStream,
    DuplicateSrc,
    LinkBeforeSrc,
    DuplicateSink,
    LinkAfterSink,
    NoSrc,
    NoSink,
}

pub open spec fn datafusion_bytes() -> Seq<u8> {
    seq![B_LD, B_LA, B_LT, B_LA, B_LF, B_LU, B_LS, B_LI, B_LO, B_LN]
}

pub open spec fn memory_bytes() -> Seq<u8> {
    seq![B_LM, B_LE, B_LM, B_LO, B_LR, B_LY]
}

/// Builds the default batch engine name.
pub fn datafusion_name() -> (r: Vec<u8>)
    ensures
        r@ == datafusion_bytes(),
{
    let mut v: Vec<u8> = Vec::new();
    v.push(B_LD);
    v.push(B_LA);
    v.push(B_LT);
    v.push(B_LA);
    v.push(B_LF);
    v.push(B_LU);
    v.push(B_LS);
    v.push(B_LI);
    v.push(B_LO);
    v.push(B_LN);
    proof {
        assert(v@ =~= datafusion_bytes());
    }
    v
}

/// Builds the default stream form name.
pub fn memory_name() -> (r: Vec<u8>)
    ensures
        r@ == memory_bytes(),
{
    let mut v: Vec<u8> = Vec::new();
    v.push(B_LM);
    v.push(B_LE);
    v.push(B_LM);
    v.push(B_LO);
    v.push(B_LR);
    v.push(B_LY);
    proof {
        assert(v@ =~= memory_bytes());
    }
    v
}

pub open spec fn pdf_bytes() -> Seq<u8> {
    seq![B_LP, B_LD, B_LF]
}

pub open spec fn binary_bytes() -> Seq<u8> {
    seq![B_LB, B_LI, B_LN, B_LA, B_LR, B_LY]
}

pub open spec fn doc_bytes() -> Seq<u8> {
    seq![B_LD, B_LO, B_LC]
}

pub open spec fn hash_bytes() -> Seq<u8> {
    seq![B_LH, B_LA, B_LS, B_LH]
}

pub open spec fn file_bytes() -> Seq<u8> {
    seq![B_LF, B_LI, B_LL, B_LE]
}

pub open spec fn stdin_bytes() -> Seq<u8> {
    seq![B_LS, B_LT, B_LD, B_LI, B_LN]
}

pub open spec fn csv_bytes() -> Seq<u8> {
    seq![B_LC, B_LS, B_LV]
}

pub open spec fn stdout_bytes() -> Seq<u8> {
    seq![B_LS, B_LT, B_LD, B_LO, B_LU, B_LT]
}

pub open spec fn local_bytes() -> Seq<u8> {
    seq![B_LL, B_LO, B_LC, B_LA, B_LL]
}

pub open spec fn split_bytes() -> Seq<u8> {
    seq![B_LS, B_LP, B_LL, B_LI, B_LT]
}

/// Builds the name of the portable-document format converter.
pub fn pdf_name() -> (r: Vec<u8>)
    ensures
        r@ == pdf_bytes(),
{
    let mut v: Vec<u8> = Vec::new();
    v.push(B_LP);
    v.push(B_LD);
    v.push(B_LF);
    proof {
        assert(v@ =~= pdf_bytes());
    }
    v
}

/// Builds the binary model name.
pub fn binary_name() -> (r: Vec<u8>)
    ensures
        r@ == binary_bytes(),
{
    let mut v: Vec<u8> = Vec::new();
    v.push(B_LB);
    v.push(B_LI);
    v.push(B_LN);
    v.push(B_LA);
    v.push(B_LR);
    v.push(B_LY);
    proof {
        assert(v@ =~= binary_bytes());
    }
    v
}

/// Builds the doc model name.
pub fn doc_name() -> (r: Vec<u8>)
    ensures
        r@ == doc_bytes(),
{
    let mut v: Vec<u8> = Vec::new();
    v.push(B_LD);
    v.push(B_LO);
    v.push(B_LC);
    proof {
        assert(v@ =~= doc_bytes());
    }
    v
}

/// Builds the hash model name.
pub fn hash_name() -> (r: Vec<u8>)
    ensures
        r@ == hash_bytes(),
{
    let mut v: Vec<u8> = Vec::new();
    v.push(B_LH);
    v.push(B_LA);
    v.push(B_LS);
    v.push(B_LH);
    proof {
        assert(v@ =~= hash_bytes());
    }
    v
}

/// Builds the file model name.
pub fn file_name() -> (r: Vec<u8>)
    ensures
        r@ == file_bytes(),
{
    let mut v: Vec<u8> = Vec::new();
    v.push(B_LF);
    v.push(B_LI);
    v.push(B_LL);
    v.push(B_LE);
    proof {
        assert(v@ =~= file_bytes());
    }
    v
}

/// Builds the stdin source name.
pub fn stdin_name() -> (r: Vec<u8>)
    ensures
        r@ == stdin_bytes(),
{
    let mut v: Vec<u8> = Vec::new();
    v.push(B_LS);
    v.push(B_LT);
    v.push(B_LD);
    v.push(B_LI);
    v.push(B_LN);
    proof {
        assert(v@ =~= stdin_bytes());
    }
    v
}

/// Builds the csv source name.
pub fn csv_name() -> (r: Vec<u8>)
    ensures
        r@ == csv_bytes(),
{
    let mut v: Vec<u8> = Vec::new();
    v.push(B_LC);
    v.push(B_LS);
    v.push(B_LV);
    proof {
        assert(v@ =~= csv_bytes());
    }
    v
}

/// Builds the stdout sink name.
pub fn stdout_name() -> (r: Vec<u8>)
    ensures
        r@ == stdout_bytes(),
{
    let mut v: Vec<u8> = Vec::new();
    v.push(B_LS);
    v.push(B_LT);
    v.push(B_LD);
    v.push(B_LO);
    v.push(B_LU);
    v.push(B_LT);
    proof {
        assert(v@ =~= stdout_bytes());
    }
    v
}

/// Builds the local store name.
pub fn local_name() -> (r: Vec<u8>)
    ensures
        r@ == local_bytes(),
{
    let mut v: Vec<u8> = Vec::new();
    v.push(B_LL);
    v.push(B_LO);
    v.push(B_LC);
    v.push(B_LA);
    v.push(B_LL);
    proof {
        assert(v@ =~= local_bytes());
    }
    v
}

/// Builds the split function name.
pub fn split_name() -> (r: Vec<u8>)
    ensures
        r@ == split_bytes(),
{
    let mut v: Vec<u8> = Vec::new();
    v.push(B_LS);
    v.push(B_LP);
    v.push(B_LL);
    v.push(B_LI);
    v.push(B_LT);
    proof {
        assert(v@ =~= split_bytes());
    }
    v
}

/// The compiler's initial state: the default batch engine and stream form,
/// no models, no source, no sink.
pub open spec fn init_state() -> CompileStateV {
    CompileStateV {
        ctx: CtxV { batch: datafusion_bytes(), models: Seq::empty(), stream: memory_bytes() },
        src_seen: false,
        sink_seen: false,
    }
}

/// First registered factory under a kind, if any.
pub open spec fn find_factory(reg: Seq<FactoryV>, k: PlanKindV) -> Option<FactoryV>
    decreases reg.len(),
{
    if reg.len() == 0 {
        None
    } else if reg[0].kind == k {
        Some(reg[0])
    } else {
        find_factory(reg.drop_first(), k)
    }
}

pub open spec fn models_has(ms: Seq<Seq<u8>>, m: Seq<u8>) -> bool {
    exists|j: int| 0 <= j < ms.len() && ms[j] == m
}

pub open spec fn batch_fail(input: EdgeV, ctx: CtxV) -> bool {
    match input.batch {
        Some(b) => b != ctx.batch,
        None => false,
    }
}

pub open spec fn model_implicit_fail(input: EdgeV, ctx: CtxV) -> bool {
    input.model is Some && ctx.models.len() == 0
}

pub open spec fn model_missing_fail(input: EdgeV, ctx: CtxV) -> bool {
    match input.model {
        Some(req) => exists|j: int| 0 <= j < req.len() && !models_has(ctx.models, #[trigger] req[j]),
        None => false,
    }
}

pub open spec fn stream_fail(input: EdgeV, ctx: CtxV) -> bool {
    match input.stream {
        Some(t) => t != ctx.stream,
        None => false,
    }
}

/// Extends the rolling context by a node's output edge: the batch and stream
/// axes are replaced where set, the model axis is unioned.
pub open spec fn apply_output(output: EdgeV, ctx: CtxV) -> CtxV {
    CtxV {
        batch: match output.batch {
            Some(b) => b,
            None => ctx.batch,
        },
        models: match output.model {
            Some(ms) => ctx.models + ms,
            None => ctx.models,
        },
        stream: match output.stream {
            Some(t) => t,
            None => ctx.stream,
        },
    }
}

/// One compilation step: factory lookup, the three edge checks in order,
/// the context update, and the structural source/sink rules.
pub open spec fn step_check(reg: Seq<FactoryV>, st: CompileStateV, kind: PlanKindV) -> Result<
    CompileStateV,
    FailV,
> {
    match find_factory(reg, kind) {
        None => Err(FailV::UnknownNode),
        Some(f) => {
            if batch_fail(f.input, st.ctx) {
                Err(FailV::IncompatibleBatch)
            } else if model_implicit_fail(f.input, st.ctx) {
                Err(FailV::ImplicitModel)
            } else if model_missing_fail(f.input, st.ctx) {
                Err(FailV::MissingModel)
            } else if stream_fail(f.input, st.ctx) {
                Err(FailV::IncompatibleStream)
            } else if kind is Src && st.src_seen {
                Err(FailV::DuplicateSrc)
            } else if !(kind is Src) && !st.src_seen {
                Err(FailV::LinkBeforeSrc)
            } else if kind is Sink && st.sink_seen {
                Err(FailV::DuplicateSink)
            } else if !(kind is Sink) && st.sink_seen {
                Err(FailV::LinkAfterSink)
            } else {
                Ok(
                    CompileStateV {
                        ctx: apply_output(f.output, st.ctx),
                        src_seen: st.src_seen || kind is Src,
                        sink_seen: st.sink_seen || kind is Sink,
                    },
                )
            }
        },
    }
}

/// The compiler's scan over a kind sequence. An error carries the position
/// of the step that failed.
pub open spec fn spec_compile_seq(
    reg: Seq<FactoryV>,
    st: CompileStateV,
    kinds: Seq<PlanKindV>,
) -> Result<CompileStateV, (int, FailV)>
    decreases kinds.len(),
{
    if kinds.len() == 0 {
        Ok(st)
    } else {
        match step_check(reg, st, kinds[0]) {
            Ok(st1) => match spec_compile_seq(reg, st1, kinds.drop_first()) {
                Ok(st2) => Ok(st2),
                Err((i, f)) => Err((i + 1, f)),
            },
            Err(f) => Err((0, f)),
        }
    }
}

/// The whole compilation: the scan, then the requirement that exactly one
/// source and one sink were seen. A post-loop failure carries the position
/// one past the end.
pub open spec fn spec_compile(reg: Seq<FactoryV>, kinds: Seq<PlanKindV>) -> Result<
    CompileStateV,
    (int, FailV),
> {
    match spec_compile_seq(reg, init_state(), kinds) {
        Ok(st) => if !st.src_seen {
            Err((kinds.len() as int, FailV::NoSrc))
        } else if !st.sink_seen {
            Err((kinds.len() as int, FailV::NoSink))
        } else {
            Ok(st)
        },
        Err(e) => Err(e),
    }
}

/// Edge monotonicity: compiling a concatenation is compiling the prefix and
/// then compiling the suffix from the prefix's resulting state. In
/// particular, when the compiler admits `a + b` it admits the prefix `a`,
/// and the suffix's edge checks all pass against the rolling context left by
/// `a`.
pub proof fn lemma_compile_seq_append(
    reg: Seq<FactoryV>,
    st: CompileStateV,
    a: Seq<PlanKindV>,
    b: Seq<PlanKindV>,
)
    ensures
        spec_compile_seq(reg, st, a + b) == (match spec_compile_seq(reg, st, a) {
            Ok(st1) => match spec_compile_seq(reg, st1, b) {
                Ok(st2) => Ok::<CompileStateV, (int, FailV)>(st2),
                Err((i, f)) => Err((a.len() + i, f)),
            },
            Err(e) => Err(e),
        }),
    decreases a.len(),
{
    if a.len() == 0 {
        assert(a + b =~= b);
    } else {
        let ab = a + b;
        assert(ab[0] == a[0]);
        match step_check(reg, st, a[0]) {
            Ok(st1) => {
                lemma_compile_seq_append(reg, st1, a.drop_first(), b);
                assert(ab.drop_first() =~= a.drop_first() + b);
            },
            Err(f) => {},
        }
    }
}

/// Edge monotonicity, on whole plans: when the compiler's scan admits a
/// concatenation, it admits the prefix, and the suffix passes every edge
/// and structural check from the rolling state the prefix leaves behind.
pub proof fn lemma_edge_monotonicity(reg: Seq<FactoryV>, p: Seq<PlanKindV>, s: Seq<PlanKindV>)
    requires
        spec_compile_seq(reg, init_state(), p + s) is Ok,
    ensures
        spec_compile_seq(reg, init_state(), p) is Ok,
        spec_compile_seq(reg, spec_compile_seq(reg, init_state(), p)->Ok_0, s) is Ok,
{
    lemma_compile_seq_append(reg, init_state(), p, s);
}

proof fn lemma_find_update(reg: Seq<FactoryV>, i: int, f: FactoryV)
    requires
        0 <= i < reg.len(),
        reg[i].kind == f.kind,
        forall|j: int| 0 <= j < i ==> (#[trigger] reg[j]).kind != f.kind,
    ensures
        forall|k: PlanKindV|
            #[trigger] find_factory(reg.update(i, f), k) == if k == f.kind {
                Some(f)
            } else {
                find_factory(reg, k)
            },
    decreases reg.len(),
{
    let upd = reg.update(i, f);
    if i == 0 {
        assert(upd[0] == f);
        assert(upd.drop_first() =~= reg.drop_first());
    } else {
        assert(upd[0] == reg[0]);
        assert(reg[0].kind != f.kind);
        lemma_find_update(reg.drop_first(), i - 1, f);
        assert(upd.drop_first() =~= reg.drop_first().update(i - 1, f));
        assert forall|k: PlanKindV| true implies #[trigger] find_factory(upd, k) == (if k == f.kind {
            Some(f)
        } else {
            find_factory(reg, k)
        }) by {
            if k == upd[0].kind {
            } else {
                assert(find_factory(upd, k) == find_factory(upd.drop_first(), k));
                assert(find_factory(reg, k) == find_factory(reg.drop_first(), k));
            }
        }
    }
}

proof fn lemma_find_push(reg: Seq<FactoryV>, f: FactoryV)
    requires
        forall|j: int| 0 <= j < reg.len() ==> (#[trigger] reg[j]).kind != f.kind,
    ensures
        forall|k: PlanKindV|
            #[trigger] find_factory(reg.push(f), k) == if k == f.kind {
                Some(f)
            } else {
                find_factory(reg, k)
            },
    decreases reg.len(),
{
    let p = reg.push(f);
    assert forall|k: PlanKindV| true implies #[trigger] find_factory(p, k) == (if k == f.kind {
        Some(f)
    } else {
        find_factory(reg, k)
    }) by {
        if reg.len() == 0 {
            assert(p[0] == f);
            assert(p.drop_first() =~= Seq::<FactoryV>::empty());
            if k == f.kind {
                assert(find_factory(p, k) == Some(f));
            } else {
                assert(find_factory(p, k) == find_factory(p.drop_first(), k));
            }
        } else {
            assert(p[0] == reg[0]);
            assert(forall|j: int|
                0 <= j < reg.drop_first().len() ==> (#[trigger] reg.drop_first()[j]).kind
                    != f.kind) by {
                assert forall|j: int| 0 <= j < reg.drop_first().len() implies (
                #[trigger] reg.drop_first()[j]).kind != f.kind by {
                    assert(reg.drop_first()[j] == reg[j + 1]);
                }
            }
            lemma_find_push(reg.drop_first(), f);
            assert(p.drop_first() =~= reg.drop_first().push(f));
            if k == reg[0].kind {
                assert(k != f.kind);
                assert(find_factory(p, k) == Some(p[0]));
                assert(find_factory(reg, k) == Some(reg[0]));
            } else {
                assert(find_factory(p, k) == find_factory(p.drop_first(), k));
                assert(find_factory(p.drop_first(), k) == find_factory(
                    reg.drop_first().push(f),
                    k,
                ));
                assert(find_factory(reg, k) == find_factory(reg.drop_first(), k));
            }
        }
    }
}

/// The node factory registry of one session.
pub struct PipeSession {
    factories: Vec<PipeNodeFactory>,
}

impl View for PipeSession {
    type V = Seq<FactoryV>;

    closed spec fn view(&self) -> Seq<FactoryV> {
        self.factories@.map_values(|f: PipeNodeFactory| f@)
    }
}

impl PipeSession {
    /// A session with no factories.
    pub fn empty() -> (r: PipeSession)
        ensures
            r@ == Seq::<FactoryV>::empty(),
    {
        let r = PipeSession { factories: Vec::new() };
        proof {
            assert(r@ =~= Seq::<FactoryV>::empty());
        }
        r
    }

    /// Position of the first factory registered under a kind.
    fn find_index(&self, kind: &PlanKind) -> (r: Option<usize>)
        ensures
            match r {
                Some(i) => i < self@.len() && self@[i as int].kind == kind@ && find_factory(
                    self@,
                    kind@,
                ) == Some(self@[i as int]) && forall|j: int|
                    0 <= j < i ==> (#[trigger] self@[j]).kind != kind@,
                None => find_factory(self@, kind@) is None,
            },
    {
        let ghost reg = self@;
        proof {
            assert(reg.skip(0) =~= reg);
        }
        let mut i: usize = 0;
        while i < self.factories.len()
            invariant
                0 <= i <= reg.len(),
                reg.len() == self.factories@.len(),
                reg == self@,
                forall|j: int| 0 <= j < i ==> (#[trigger] reg[j]).kind != kind@,
                find_factory(reg, kind@) == find_factory(reg.skip(i as int), kind@),
            decreases reg.len() - i,
        {
            if self.factories[i].kind.kind_eq(kind) {
                proof {
                    assert(reg.skip(i as int)[0] == reg[i as int]);
                }
                return Some(i);
            }
            proof {
                assert(reg.skip(i as int)[0] == reg[i as int]);
                assert(reg.skip(i as int).drop_first() =~= reg.skip(i + 1));
            }
            i = i + 1;
        }
        proof {
            assert(reg.skip(reg.len() as int) =~= Seq::<FactoryV>::empty());
        }
        None
    }

    /// Registers a factory under its kind, replacing and returning any
    /// factory already registered under that kind.
    pub fn insert_factory(&mut self, factory: PipeNodeFactory) -> (prev: Option<PipeNodeFactory>)
        ensures
            forall|k: PlanKindV|
                #[trigger] find_factory(final(self)@, k) == if k == factory@.kind {
                    Some(factory@)
                } else {
                    find_factory(old(self)@, k)
                },
            match prev {
                Some(p) => find_factory(old(self)@, factory@.kind) == Some(p@),
                None => find_factory(old(self)@, factory@.kind) is None,
            },
            final(self)@.len() <= old(self)@.len() + 1,
    {
        let ghost reg = self@;
        match self.find_index(&factory.kind) {
            Some(i) => {
                let ghost fv = factory@;
                let old_factory = self.factories.remove(i);
                self.factories.insert(i, factory);
                proof {
                    assert(self@ =~= reg.update(i as int, fv));
                    lemma_find_update(reg, i as int, fv);
                }
                Some(old_factory)
            },
            None => {
                let ghost fv = factory@;
                self.factories.push(factory);
                proof {
                    assert(self@ =~= reg.push(fv));
                    assert forall|j: int| 0 <= j < reg.len() implies (#[trigger] reg[j]).kind
                        != fv.kind by {
                        lemma_find_skip_none(reg, fv.kind, j);
                    }
                    lemma_find_push(reg, fv);
                }
                None
            },
        }
    }
}

/// If a kind is absent from the registry, no entry carries it.
proof fn lemma_find_skip_none(reg: Seq<FactoryV>, k: PlanKindV, j: int)
    requires
        find_factory(reg, k) is None,
        0 <= j < reg.len(),
    ensures
        reg[j].kind != k,
    decreases reg.len(),
{
    if j > 0 {
        lemma_find_skip_none(reg.drop_first(), k, j - 1);
        assert(reg.drop_first()[j - 1] == reg[j]);
    }
}

/// The kinds of a plan sequence.
pub open spec fn spec_kinds(ps: Seq<Plan>) -> Seq<PlanKindV> {
    ps.map_values(|p: Plan| p@.kind)
}

/// Failing a step fails the whole compilation at that position.
proof fn lemma_compile_err_at(
    reg: Seq<FactoryV>,
    kinds: Seq<PlanKindV>,
    index: int,
    st: CompileStateV,
    f: FailV,
)
    requires
        0 <= index < kinds.len(),
        spec_compile_seq(reg, init_state(), kinds.take(index)) == Ok::<CompileStateV, (int, FailV)>(
            st,
        ),
        step_check(reg, st, kinds[index]) == Err::<CompileStateV, FailV>(f),
    ensures
        spec_compile(reg, kinds) == Err::<CompileStateV, (int, FailV)>((index, f)),
{
    let a = kinds.take(index);
    let b = kinds.skip(index);
    lemma_compile_seq_append(reg, init_state(), a, b);
    assert(a + b =~= kinds);
    assert(b[0] == kinds[index]);
    assert(b.len() > 0);
    assert(spec_compile_seq(reg, st, b) == Err::<CompileStateV, (int, FailV)>((0, f)));
    assert(spec_compile_seq(reg, init_state(), a + b) == Err::<CompileStateV, (int, FailV)>(
        (a.len() as int + 0, f),
    ));
    assert(a.len() == index);
    assert(spec_compile_seq(reg, init_state(), kinds) == spec_compile_seq(
        reg,
        init_state(),
        a + b,
    ));
}

/// Passing a step advances the compilation by one position.
proof fn lemma_compile_ok_step(
    reg: Seq<FactoryV>,
    kinds: Seq<PlanKindV>,
    index: int,
    st: CompileStateV,
    st2: CompileStateV,
)
    requires
        0 <= index < kinds.len(),
        spec_compile_seq(reg, init_state(), kinds.take(index)) == Ok::<CompileStateV, (int, FailV)>(
            st,
        ),
        step_check(reg, st, kinds[index]) == Ok::<CompileStateV, FailV>(st2),
    ensures
        spec_compile_seq(reg, init_state(), kinds.take(index + 1)) == Ok::<
            CompileStateV,
            (int, FailV),
        >(st2),
{
    let a = kinds.take(index);
    let b = seq![kinds[index]];
    lemma_compile_seq_append(reg, init_state(), a, b);
    assert(b[0] == kinds[index]);
    assert(b.drop_first() =~= Seq::<PlanKindV>::empty());
    assert(spec_compile_seq(reg, st2, b.drop_first()) == Ok::<CompileStateV, (int, FailV)>(st2));
    assert(spec_compile_seq(reg, st, b) == Ok::<CompileStateV, (int, FailV)>(st2));
    assert(a + b =~= kinds.take(index + 1));
    assert(spec_compile_seq(reg, init_state(), a + b) == Ok::<CompileStateV, (int, FailV)>(st2));
    assert(spec_compile_seq(reg, init_state(), kinds.take(index + 1)) == spec_compile_seq(
        reg,
        init_state(),
        a + b,
    ));
}

/// How a compilation failure surfaces as an engine error: the matching
/// variant, carrying the failing position and, for the per-node failures,
/// the kind at that position.
pub open spec fn error_reflects(
    e: PipeError,
    idx: int,
    f: FailV,
    kinds: Seq<PlanKindV>,
) -> bool {
    match f {
        FailV::UnknownNode => e matches PipeError::UnknownNode { index, kind } && index == idx
            && kind@ == kinds[idx],
        FailV::IncompatibleBatch => e matches PipeError::IncompatibleBatch { index, kind } && index
            == idx && kind@ == kinds[idx],
        FailV::ImplicitModel => e matches PipeError::ImplicitModel { index, kind } && index == idx
            && kind@ == kinds[idx],
        FailV::MissingModel => e matches PipeError::MissingModel { index, kind } && index == idx
            && kind@ == kinds[idx],
        FailV::IncompatibleStream => e matches PipeError::IncompatibleStream { index, kind }
            && index == idx && kind@ == kinds[idx],
        FailV::DuplicateSrc => e matches PipeError::DuplicateSrc { index, kind } && index == idx
            && kind@ == kinds[idx],
        FailV::LinkBeforeSrc => e matches PipeError::LinkBeforeSrc { index, kind } && index == idx
            && kind@ == kinds[idx],
        FailV::DuplicateSink => e matches PipeError::DuplicateSink { index, kind } && index == idx
            && kind@ == kinds[idx],
        FailV::LinkAfterSink => e matches PipeError::LinkAfterSink { index, kind } && index == idx
            && kind@ == kinds[idx],
        FailV::NoSrc => e is NoSrc && idx == kinds.len(),
        FailV::NoSink => e is NoSink && idx == kinds.len(),
    }
}

fn models_contain(ms: &Vec<Vec<u8>>, m: &Vec<u8>) -> (r: bool)
    ensures
        r == models_has(names_view(ms@), m@),
{
    let ghost view = names_view(ms@);
    let mut i: usize = 0;
    while i < ms.len()
        invariant
            0 <= i <= ms@.len(),
            view == names_view(ms@),
            forall|j: int| 0 <= j < i ==> (#[trigger] view[j]) != m@,
        decreases ms@.len() - i,
    {
        if bytes_eq(&ms[i], m) {
            proof {
                assert(view[i as int] == m@);
            }
            return true;
        }
        i = i + 1;
    }
    false
}

impl PipeSession {
    /// Validates a plan list: looks up every kind, checks each node's input
    /// edge against the rolling context, extends the context by its output
    /// edge, and enforces the source/sink structure. On success the plans
    /// come back unchanged, ready to be built and executed in order.
    #[verifier::loop_isolation(false)]
    pub fn compile(&self, plans: Vec<Plan>) -> (r: Result<Vec<Plan>, PipeError>)
        ensures
            match r {
                Ok(out) => spec_compile(self@, spec_kinds(plans@)) is Ok && out@ == plans@,
                Err(e) => spec_compile(self@, spec_kinds(plans@)) matches Err(p) && error_reflects(
                    e,
                    p.0,
                    p.1,
                    spec_kinds(plans@),
                ),
            },
    {
        let ghost reg = self@;
        let ghost orig = plans@;
        let ghost kinds = spec_kinds(plans@);
        let mut rest = plans;
        let mut out: Vec<Plan> = Vec::new();
        let mut batch: Vec<u8> = datafusion_name();
        let mut models: Vec<Vec<u8>> = Vec::new();
        let mut stream: Vec<u8> = memory_name();
        let mut src_seen = false;
        let mut sink_seen = false;
        proof {
            assert(kinds.take(0) =~= Seq::<PlanKindV>::empty());
            assert(names_view(models@) =~= Seq::<Seq<u8>>::empty());
            assert(out@ =~= orig.take(0));
            assert(rest@ =~= orig.skip(0));
        }
        while rest.len() > 0
            invariant
                reg == self@,
                orig.len() == kinds.len(),
                kinds == spec_kinds(orig),
                out@.len() + rest@.len() == orig.len(),
                rest@ == orig.skip(out@.len() as int),
                out@ == orig.take(out@.len() as int),
                spec_compile_seq(reg, init_state(), kinds.take(out@.len() as int)) == Ok::<
                    CompileStateV,
                    (int, FailV),
                >(
                    CompileStateV {
                        ctx: CtxV {
                            batch: batch@,
                            models: names_view(models@),
                            stream: stream@,
                        },
                        src_seen: src_seen,
                        sink_seen: sink_seen,
                    },
                ),
            decreases rest@.len(),
        {
            let ghost st = CompileStateV {
                ctx: CtxV {
                    batch: batch@,
                    models: names_view(models@),
                    stream: stream@,
                },
                src_seen: src_seen,
                sink_seen: sink_seen,
            };
            let index = out.len();
            let plan = rest.remove(0);
            proof {
                assert(orig.skip(index as int)[0] == orig[index as int]);
                assert(orig.skip(index as int).drop_first() =~= orig.skip(index as int + 1));
                assert(kinds[index as int] == orig[index as int]@.kind);
            }
            let fidx = match self.find_index(&plan.kind) {
                Some(fi) => fi,
                None => {
                    proof {
                        assert(step_check(reg, st, kinds[index as int]) == Err::<
                            CompileStateV,
                            FailV,
                        >(FailV::UnknownNode));
                        lemma_compile_err_at(reg, kinds, index as int, st, FailV::UnknownNode);
                    }
                    return Err(PipeError::UnknownNode { index, kind: plan.kind });
                },
            };
            let f = &self.factories[fidx];
            proof {
                assert(f@ == self@[fidx as int]);
                assert(find_factory(reg, kinds[index as int]) == Some(f@));
            }
            // Input edge: batch axis.
            let batch_ok = match &f.input.batch {
                Some(b) => bytes_eq(b, &batch),
                None => true,
            };
            if !batch_ok {
                proof {
                    assert(batch_fail(f@.input, st.ctx));
                    assert(step_check(reg, st, kinds[index as int]) == Err::<CompileStateV, FailV>(
                        FailV::IncompatibleBatch,
                    ));
                    lemma_compile_err_at(reg, kinds, index as int, st, FailV::IncompatibleBatch);
                }
                return Err(PipeError::IncompatibleBatch { index, kind: plan.kind });
            }
            // Input edge: model axis.
            match &f.input.model {
                Some(req) => {
                    if models.len() == 0 {
                        proof {
                            assert(model_implicit_fail(f@.input, st.ctx));
                            assert(step_check(reg, st, kinds[index as int]) == Err::<
                                CompileStateV,
                                FailV,
                            >(FailV::ImplicitModel));
                            lemma_compile_err_at(reg, kinds, index as int, st, FailV::ImplicitModel);
                        }
                        return Err(PipeError::ImplicitModel { index, kind: plan.kind });
                    }
                    let ghost reqv = names_view(req@);
                    let mut t: usize = 0;
                    while t < req.len()
                        invariant
                            0 <= t <= req@.len(),
                            reqv == names_view(req@),
                            st.ctx.models == names_view(models@),
                            names_view(models@) == st.ctx.models,
                            forall|j: int|
                                0 <= j < t ==> models_has(st.ctx.models, #[trigger] reqv[j]),
                        decreases req@.len() - t,
                    {
                        if !models_contain(&models, &req[t]) {
                            proof {
                                assert(reqv.len() == req@.len());
                                assert(reqv[t as int] == req@[t as int]@);
                                assert(f@.input.model == Some(reqv));
                                assert(!models_has(st.ctx.models, reqv[t as int]));
                                assert(model_missing_fail(f@.input, st.ctx)) by {
                                    let r = f@.input.model.unwrap();
                                    assert(r == reqv);
                                    assert(0 <= t < r.len());
                                    assert(!models_has(st.ctx.models, r[t as int]));
                                    assert(exists|j: int|
                                        0 <= j < r.len() && !models_has(
                                            st.ctx.models,
                                            #[trigger] r[j],
                                        ));
                                }
                                assert(step_check(reg, st, kinds[index as int]) == Err::<
                                    CompileStateV,
                                    FailV,
                                >(FailV::MissingModel));
                                lemma_compile_err_at(
                                    reg,
                                    kinds,
                                    index as int,
                                    st,
                                    FailV::MissingModel,
                                );
                            }
                            return Err(PipeError::MissingModel { index, kind: plan.kind });
                        }
                        proof {
                            assert(reqv[t as int] == req@[t as int]@);
                        }
                        t = t + 1;
                    }
                    proof {
                        assert(!model_missing_fail(f@.input, st.ctx));
                        assert(!model_implicit_fail(f@.input, st.ctx));
                    }
                },
                None => {
                    proof {
                        assert(!model_missing_fail(f@.input, st.ctx));
                        assert(!model_implicit_fail(f@.input, st.ctx));
                    }
                },
            }
            // Input edge: stream axis.
            let stream_ok = match &f.input.stream {
                Some(t) => bytes_eq(t, &stream),
                None => true,
            };
            if !stream_ok {
                proof {
                    assert(stream_fail(f@.input, st.ctx));
                    assert(step_check(reg, st, kinds[index as int]) == Err::<CompileStateV, FailV>(
                        FailV::IncompatibleStream,
                    ));
                    lemma_compile_err_at(reg, kinds, index as int, st, FailV::IncompatibleStream);
                }
                return Err(PipeError::IncompatibleStream { index, kind: plan.kind });
            }
            // Structural rules.
            let role = plan.kind.role();
            let is_src = role == PlanType::Src;
            let is_sink = role == PlanType::Sink;
            proof {
                assert(is_src == kinds[index as int] is Src);
                assert(is_sink == kinds[index as int] is Sink);
            }
            if is_src && src_seen {
                proof {
                    assert(step_check(reg, st, kinds[index as int]) == Err::<CompileStateV, FailV>(
                        FailV::DuplicateSrc,
                    ));
                    lemma_compile_err_at(reg, kinds, index as int, st, FailV::DuplicateSrc);
                }
                return Err(PipeError::DuplicateSrc { index, kind: plan.kind });
            }
            if !is_src && !src_seen {
                proof {
                    assert(step_check(reg, st, kinds[index as int]) == Err::<CompileStateV, FailV>(
                        FailV::LinkBeforeSrc,
                    ));
                    lemma_compile_err_at(reg, kinds, index as int, st, FailV::LinkBeforeSrc);
                }
                return Err(PipeError::LinkBeforeSrc { index, kind: plan.kind });
            }
            if is_sink && sink_seen {
                proof {
                    assert(step_check(reg, st, kinds[index as int]) == Err::<CompileStateV, FailV>(
                        FailV::DuplicateSink,
                    ));
                    lemma_compile_err_at(reg, kinds, index as int, st, FailV::DuplicateSink);
                }
                return Err(PipeError::DuplicateSink { index, kind: plan.kind });
            }
            if !is_sink && sink_seen {
                proof {
                    assert(step_check(reg, st, kinds[index as int]) == Err::<CompileStateV, FailV>(
                        FailV::LinkAfterSink,
                    ));
                    lemma_compile_err_at(reg, kinds, index as int, st, FailV::LinkAfterSink);
                }
                return Err(PipeError::LinkAfterSink { index, kind: plan.kind });
            }
            // Update the rolling context from the output edge.
            match &f.output.batch {
                Some(b) => {
                    batch = crate::ast::clone_bytes(b);
                },
                None => {},
            }
            match &f.output.model {
                Some(ms) => {
                    let ghost before = names_view(models@);
                    let ghost msv = names_view(ms@);
                    let ghost blen = models@.len() as int;
                    proof {
                        assert(msv.len() == ms@.len());
                        assert(before.len() == blen);
                        assert forall|j: int| 0 <= j < blen implies (#[trigger] models@[j])@
                            == before[j] by {
                            assert(before[j] == names_view(models@)[j]);
                        }
                    }
                    let mut t: usize = 0;
                    while t < ms.len()
                        invariant
                            0 <= t <= ms@.len(),
                            models@.len() == blen + t,
                            forall|j: int| 0 <= j < blen ==> (#[trigger] models@[j])@ == before[j],
                            forall|j: int|
                                0 <= j < t ==> (#[trigger] models@[blen + j])@ == msv[j],
                        decreases ms@.len() - t,
                    {
                        models.push(crate::ast::clone_bytes(&ms[t]));
                        proof {
                            assert(msv[t as int] == ms@[t as int]@);
                            assert(models@[blen + t as int]@ == msv[t as int]);
                        }
                        t = t + 1;
                    }
                    proof {
                        assert forall|j: int| 0 <= j < names_view(models@).len() implies
                            #[trigger] names_view(models@)[j] == (before + msv)[j] by {
                            assert(names_view(models@)[j] == models@[j]@);
                            if j < blen {
                            } else {
                                assert(models@[blen + (j - blen)]@ == msv[j - blen]);
                            }
                        }
                        assert(names_view(models@) =~= before + msv);
                    }
                },
                None => {},
            }
            match &f.output.stream {
                Some(tname) => {
                    stream = crate::ast::clone_bytes(tname);
                },
                None => {},
            }
            src_seen = src_seen || is_src;
            sink_seen = sink_seen || is_sink;
            proof {
                let st2 = CompileStateV {
                    ctx: CtxV {
                        batch: batch@,
                        models: names_view(models@),
                        stream: stream@,
                    },
                    src_seen: src_seen,
                    sink_seen: sink_seen,
                };
                assert(st2.ctx == apply_output(f@.output, st.ctx)) by {
                    match f@.output.model {
                        Some(msv) => {
                            assert(st2.ctx.models =~= st.ctx.models + msv);
                        },
                        None => {},
                    }
                }
                assert(step_check(reg, st, kinds[index as int]) == Ok::<CompileStateV, FailV>(st2));
                lemma_compile_ok_step(reg, kinds, index as int, st, st2);
            }
            out.push(plan);
            proof {
                assert(out@ =~= orig.take(index as int + 1));
            }
        }
        proof {
            assert(kinds.take(out@.len() as int) =~= kinds);
            assert(out@ =~= orig);
        }
        if !src_seen {
            return Err(PipeError::NoSrc);
        }
        if !sink_seen {
            return Err(PipeError::NoSink);
        }
        Ok(out)
    }

    /// Registers the built-in node set: the default batch engine and stream
    /// form, the binary-to-doc converter, and the concrete sources, sink and
    /// store.
    pub fn add_builtin_factories(&mut self)
        ensures
            find_factory(final(self)@, crate::nodes::batch_factory_v().kind) == Some(
                crate::nodes::batch_factory_v(),
            ),
            find_factory(final(self)@, crate::nodes::stream_factory_v().kind) == Some(
                crate::nodes::stream_factory_v(),
            ),
            find_factory(final(self)@, crate::nodes::pdf_factory_v().kind) == Some(
                crate::nodes::pdf_factory_v(),
            ),
            find_factory(final(self)@, crate::nodes::split_factory_v().kind) == Some(
                crate::nodes::split_factory_v(),
            ),
            find_factory(final(self)@, crate::nodes::stdout_sink_factory_v().kind) == Some(
                crate::nodes::stdout_sink_factory_v(),
            ),
            find_factory(final(self)@, crate::nodes::csv_src_factory_v().kind) == Some(
                crate::nodes::csv_src_factory_v(),
            ),
            find_factory(final(self)@, crate::nodes::file_src_factory_v().kind) == Some(
                crate::nodes::file_src_factory_v(),
            ),
            find_factory(final(self)@, crate::nodes::stdin_src_factory_v().kind) == Some(
                crate::nodes::stdin_src_factory_v(),
            ),
            find_factory(final(self)@, crate::nodes::local_store_factory_v().kind) == Some(
                crate::nodes::local_store_factory_v(),
            ),
            forall|k: PlanKindV|
                !crate::nodes::builtin_kind(k) ==> #[trigger] find_factory(final(self)@, k)
                    == find_factory(old(self)@, k),
    {
        self.insert_factory(crate::nodes::DataFusionBatchBuilder::descriptor());
        self.insert_factory(crate::nodes::MemoryStreamFactory::descriptor());
        self.insert_factory(crate::nodes::PdfFactory::descriptor());
        self.insert_factory(crate::nodes::SplitBuilder::descriptor());
        self.insert_factory(crate::nodes::StdoutSinkBuilder::descriptor());
        self.insert_factory(crate::nodes::CsvSrcBuilder::descriptor());
        self.insert_factory(crate::nodes::FileSrcBuilder::descriptor());
        self.insert_factory(crate::nodes::StdinSrcFactory::descriptor());
        self.insert_factory(crate::nodes::LocalStoreFactory::descriptor());
    }
}

/// The axis a name-compatibility check speaks about.
#[derive(Copy, Clone, PartialEq, Eq, Structural)]
pub enum ValidatableTypeName {
    Batch,
    Model,
    Stream,
}

impl ValidatableTypeName {
    /// The canonical lower-case name of the axis.
    pub fn as_str(&self) -> (r: &'static str)
        ensures
            *self == ValidatableTypeName::Batch ==> r@ == "batch"@,
            *self == ValidatableTypeName::Model ==> r@ == "model"@,
            *self == ValidatableTypeName::Stream ==> r@ == "stream"@,
    {
        match self {
            ValidatableTypeName::Batch => "batch",
            ValidatableTypeName::Model => "model",
            ValidatableTypeName::Stream => "stream",
        }
    }
}

impl PipeSession {
    /// Checks one axis of an edge against the rolling context: the names
    /// must agree.
    pub fn validate_types(
        &self,
        expected: &Vec<u8>,
        actual: &Vec<u8>,
        _axis: ValidatableTypeName,
    ) -> (r: bool)
        ensures
            r == (expected@ == actual@),
    {
        bytes_eq(expected, actual)
    }

    /// The factories registered under the given names on one axis,
    /// duplicated in order; `None` when some name has no factory.
    pub fn collect_factories(
        &self,
        names: &Vec<Vec<u8>>,
        axis: ValidatableTypeName,
    ) -> (r: Option<Vec<PipeNodeFactory>>)
        ensures
            match r {
                Some(fs) => fs@.len() == names@.len() && forall|j: int|
                    0 <= j < fs@.len() ==> find_factory(
                        self@,
                        axis_kind(axis, names@[j]@),
                    ) == Some((#[trigger] fs@[j])@),
                None => exists|j: int|
                    0 <= j < names@.len() && find_factory(
                        self@,
                        axis_kind(axis, (#[trigger] names@[j])@),
                    ) is None,
            },
    {
        let mut fs: Vec<PipeNodeFactory> = Vec::new();
        let mut i: usize = 0;
        while i < names.len()
            invariant
                0 <= i <= names@.len(),
                fs@.len() == i,
                forall|j: int|
                    0 <= j < i ==> find_factory(self@, axis_kind(axis, names@[j]@)) == Some(
                        (#[trigger] fs@[j])@,
                    ),
            decreases names@.len() - i,
        {
            let kind = match axis {
                ValidatableTypeName::Batch => PlanKind::Batch {
                    name: crate::ast::clone_bytes(&names[i]),
                },
                ValidatableTypeName::Model => PlanKind::Model {
                    name: crate::ast::clone_bytes(&names[i]),
                },
                ValidatableTypeName::Stream => PlanKind::Stream {
                    name: crate::ast::clone_bytes(&names[i]),
                },
            };
            match self.find_index(&kind) {
                Some(fi) => {
                    fs.push(self.factories[fi].duplicate());
                },
                None => {
                    return None;
                },
            }
            i = i + 1;
        }
        Some(fs)
    }
}

/// The kind a bare name denotes on one compatibility axis.
pub open spec fn axis_kind(axis: ValidatableTypeName, name: Seq<u8>) -> PlanKindV {
    match axis {
        ValidatableTypeName::Batch => PlanKindV::Batch { name },
        ValidatableTypeName::Model => PlanKindV::Model { name },
        ValidatableTypeName::Stream => PlanKindV::Stream { name },
    }
}

/// The implementation role a plan kind must be realised by: a model plan is
/// realised by a converter function, a format plan by a batch engine, and
/// every other kind by an implementation of its own role.
pub open spec fn spec_expected_impl(kind_role: PlanType) -> PlanType {
    match kind_role {
        PlanType::Model => PlanType::Func,
        PlanType::Format => PlanType::Batch,
        r => r,
    }
}

/// Whether a built implementation's role is admissible for a plan kind's
/// role; a mismatch is the `NodeKindMismatch` error.
pub fn admissible_impl(kind_role: PlanType, impl_role: PlanType) -> (r: bool)
    ensures
        r == (impl_role == spec_expected_impl(kind_role)),
{
    let expected = match kind_role {
        PlanType::Model => PlanType::Func,
        PlanType::Format => PlanType::Batch,
        r => r,
    };
    impl_role == expected
}

/// What the executor does at one node.
#[derive(Copy, Clone, PartialEq, Eq, Structural)]
pub enum ExecAction {
    /// Call the source; it yields the channel.
    RunSrc,
    /// Call the function on the channel; it yields the next channel.
    RunFunc,
    /// Call the sink on the channel and stop.
    RunSink,
    /// Run the store's save pass over the channel.
    RunSave,
}

/// The executor's dispatch rule: a source runs unconditionally; a function,
/// sink or store needs an upstream channel; a store with no upstream channel
/// (the load path) and the engine-internal roles are refused.
pub open spec fn spec_exec_step(impl_role: PlanType, has_channel: bool) -> Result<
    ExecAction,
    PipeError,
> {
    match impl_role {
        PlanType::Src => Ok(ExecAction::RunSrc),
        PlanType::Func => if has_channel {
            Ok(ExecAction::RunFunc)
        } else {
            Err(PipeError::CallError)
        },
        PlanType::Sink => if has_channel {
            Ok(ExecAction::RunSink)
        } else {
            Err(PipeError::CallError)
        },
        PlanType::Store => if has_channel {
            Ok(ExecAction::RunSave)
        } else {
            Err(PipeError::CallError)
        },
        _ => Err(PipeError::CallError),
    }
}

/// Decides the executor's action at one node.
pub fn exec_step(impl_role: PlanType, has_channel: bool) -> (r: Result<ExecAction, PipeError>)
    ensures
        r == spec_exec_step(impl_role, has_channel),
{
    match impl_role {
        PlanType::Src => Ok(ExecAction::RunSrc),
        PlanType::Func => if has_channel {
            Ok(ExecAction::RunFunc)
        } else {
            Err(PipeError::CallError)
        },
        PlanType::Sink => if has_channel {
            Ok(ExecAction::RunSink)
        } else {
            Err(PipeError::CallError)
        },
        PlanType::Store => if has_channel {
            Ok(ExecAction::RunSave)
        } else {
            Err(PipeError::CallError)
        },
        PlanType::Batch => Err(PipeError::CallError),
        PlanType::Stream => Err(PipeError::CallError),
        PlanType::Model => Err(PipeError::CallError),
        PlanType::Format => Err(PipeError::CallError),
    }
}

} // verus!
