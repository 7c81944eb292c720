//! The built-in node set: the descriptors of the default batch engine and
//! stream form, the binary-to-doc converter, the doc splitter, and the
//! concrete sources, sink and store, together with the plain configuration
//! each node is built from.
//!
//! A descriptor declares a node's kind and edges; the work a node does at run
//! time (reading files, writing to standard output, spawning the converter)
//! is the driver's business and happens outside this crate. What is checked
//! here is everything the compiler and the engine decide on: the edge
//! declarations and the parsing of each node's arguments.

use vstd::prelude::*;

use crate::ast::{Object, PlanKind, PlanType, Value, ValueV};
use crate::error::PipeError;
use crate::grammar::{
    batch_bytes, stream_bytes, B_LA, B_LB, B_LC, B_LE, B_LF, B_LG, B_LH, B_LI, B_LL, B_LM, B_LO,
    B_LP, B_LR, B_LS, B_LT,
};
use crate::session::{
    binary_bytes, binary_name, csv_bytes, csv_name, datafusion_bytes, datafusion_name, doc_bytes,
    doc_name, file_bytes, file_name, hash_bytes, hash_name, local_bytes, local_name, memory_bytes,
    memory_name, pdf_bytes, pdf_name, split_bytes, split_name, stdin_bytes, stdin_name,
    stdout_bytes, stdout_name, EdgeV, FactoryV, PipeEdge, PipeNodeFactory,
};

verus! {

/// Descriptor of the default (columnar) batch engine.
pub open spec fn batch_factory_v() -> FactoryV {
    FactoryV {
        kind: crate::ast::PlanKindV::Batch { name: datafusion_bytes() },
        input: EdgeV { batch: None, model: Some(seq![datafusion_bytes()]), stream: None },
        output: EdgeV {
            batch: Some(datafusion_bytes()),
            model: Some(seq![datafusion_bytes()]),
            stream: None,
        },
        builds: PlanType::Batch,
    }
}

/// Descriptor of the default (in-memory) stream form.
pub open spec fn stream_factory_v() -> FactoryV {
    FactoryV {
        kind: crate::ast::PlanKindV::Stream { name: memory_bytes() },
        input: EdgeV { batch: None, model: Some(seq![memory_bytes()]), stream: None },
        output: EdgeV {
            batch: None,
            model: Some(seq![memory_bytes()]),
            stream: Some(memory_bytes()),
        },
        builds: PlanType::Stream,
    }
}

/// Descriptor of the binary-to-doc converter; a bare `pdf` element in the
/// pipeline text classifies as a model name, so the converter is registered
/// under the model kind and realised by a function implementation.
pub open spec fn pdf_factory_v() -> FactoryV {
    FactoryV {
        kind: crate::ast::PlanKindV::Model { name: pdf_bytes() },
        input: EdgeV { batch: None, model: Some(seq![binary_bytes()]), stream: None },
        output: EdgeV { batch: None, model: Some(seq![doc_bytes()]), stream: None },
        builds: PlanType::Func,
    }
}

/// Descriptor of the doc splitter function.
pub open spec fn split_factory_v() -> FactoryV {
    FactoryV {
        kind: crate::ast::PlanKindV::Func { model_name: doc_bytes(), func: split_bytes() },
        input: EdgeV { batch: None, model: Some(seq![doc_bytes()]), stream: None },
        output: EdgeV { batch: None, model: Some(seq![doc_bytes()]), stream: None },
        builds: PlanType::Func,
    }
}

/// Descriptor of the stdout sink.
pub open spec fn stdout_sink_factory_v() -> FactoryV {
    FactoryV {
        kind: crate::ast::PlanKindV::Sink { name: stdout_bytes() },
        input: EdgeV { batch: None, model: None, stream: None },
        output: EdgeV { batch: None, model: None, stream: None },
        builds: PlanType::Sink,
    }
}

/// Descriptor of the csv source: it supplies a columnar batch.
pub open spec fn csv_src_factory_v() -> FactoryV {
    FactoryV {
        kind: crate::ast::PlanKindV::Src { name: csv_bytes() },
        input: EdgeV { batch: None, model: None, stream: None },
        output: EdgeV {
            batch: Some(datafusion_bytes()),
            model: Some(seq![batch_bytes(), stream_bytes()]),
            stream: None,
        },
        builds: PlanType::Src,
    }
}

/// Descriptor of the file source.
pub open spec fn file_src_factory_v() -> FactoryV {
    FactoryV {
        kind: crate::ast::PlanKindV::Src { name: file_bytes() },
        input: EdgeV { batch: None, model: None, stream: None },
        output: EdgeV {
            batch: None,
            model: Some(seq![binary_bytes(), file_bytes(), hash_bytes(), stream_bytes()]),
            stream: None,
        },
        builds: PlanType::Src,
    }
}

/// Descriptor of the stdin source.
pub open spec fn stdin_src_factory_v() -> FactoryV {
    FactoryV {
        kind: crate::ast::PlanKindV::Src { name: stdin_bytes() },
        input: EdgeV { batch: None, model: None, stream: None },
        output: EdgeV {
            batch: None,
            model: Some(seq![doc_bytes(), hash_bytes()]),
            stream: None,
        },
        builds: PlanType::Src,
    }
}

/// Descriptor of the local filesystem store.
pub open spec fn local_store_factory_v() -> FactoryV {
    FactoryV {
        kind: crate::ast::PlanKindV::Store { name: local_bytes() },
        input: EdgeV { batch: None, model: None, stream: None },
        output: EdgeV { batch: None, model: None, stream: None },
        builds: PlanType::Store,
    }
}

/// The kinds the built-in registration touches.
pub open spec fn builtin_kind(k: crate::ast::PlanKindV) -> bool {
    ||| k == batch_factory_v().kind
    ||| k == stream_factory_v().kind
    ||| k == pdf_factory_v().kind
    ||| k == split_factory_v().kind
    ||| k == stdout_sink_factory_v().kind
    ||| k == csv_src_factory_v().kind
    ||| k == file_src_factory_v().kind
    ||| k == stdin_src_factory_v().kind
    ||| k == local_store_factory_v().kind
}

/// Factory of the default batch engine.
pub struct DataFusionBatchBuilder;

impl DataFusionBatchBuilder {
    pub fn descriptor() -> (r: PipeNodeFactory)
        ensures
            r@ == batch_factory_v(),
    {
        let mut in_models: Vec<Vec<u8>> = Vec::new();
        in_models.push(datafusion_name());
        let mut out_models: Vec<Vec<u8>> = Vec::new();
        out_models.push(datafusion_name());
        let r = PipeNodeFactory {
            kind: PlanKind::Batch { name: datafusion_name() },
            input: PipeEdge { batch: None, model: Some(in_models), stream: None },
            output: PipeEdge {
                batch: Some(datafusion_name()),
                model: Some(out_models),
                stream: None,
            },
            builds: PlanType::Batch,
        };
        proof {
            assert(r@.input.model.unwrap() =~= seq![datafusion_bytes()]);
            assert(r@.output.model.unwrap() =~= seq![datafusion_bytes()]);
        }
        r
    }
}

/// Factory of the default stream form.
pub struct MemoryStreamFactory;

impl MemoryStreamFactory {
    pub fn descriptor() -> (r: PipeNodeFactory)
        ensures
            r@ == stream_factory_v(),
    {
        let mut in_models: Vec<Vec<u8>> = Vec::new();
        in_models.push(memory_name());
        let mut out_models: Vec<Vec<u8>> = Vec::new();
        out_models.push(memory_name());
        let r = PipeNodeFactory {
            kind: PlanKind::Stream { name: memory_name() },
            input: PipeEdge { batch: None, model: Some(in_models), stream: None },
            output: PipeEdge { batch: None, model: Some(out_models), stream: Some(memory_name()) },
            builds: PlanType::Stream,
        };
        proof {
            assert(r@.input.model.unwrap() =~= seq![memory_bytes()]);
            assert(r@.output.model.unwrap() =~= seq![memory_bytes()]);
        }
        r
    }
}

/// Factory of the binary-to-doc converter.
pub struct PdfFactory;

impl PdfFactory {
    pub fn descriptor() -> (r: PipeNodeFactory)
        ensures
            r@ == pdf_factory_v(),
    {
        let mut in_models: Vec<Vec<u8>> = Vec::new();
        in_models.push(binary_name());
        let mut out_models: Vec<Vec<u8>> = Vec::new();
        out_models.push(doc_name());
        let r = PipeNodeFactory {
            kind: PlanKind::Model { name: pdf_name() },
            input: PipeEdge { batch: None, model: Some(in_models), stream: None },
            output: PipeEdge { batch: None, model: Some(out_models), stream: None },
            builds: PlanType::Func,
        };
        proof {
            assert(r@.input.model.unwrap() =~= seq![binary_bytes()]);
            assert(r@.output.model.unwrap() =~= seq![doc_bytes()]);
        }
        r
    }
}

/// Factory of the doc splitter.
pub struct SplitBuilder;

impl SplitBuilder {
    pub fn descriptor() -> (r: PipeNodeFactory)
        ensures
            r@ == split_factory_v(),
    {
        let mut in_models: Vec<Vec<u8>> = Vec::new();
        in_models.push(doc_name());
        let mut out_models: Vec<Vec<u8>> = Vec::new();
        out_models.push(doc_name());
        let r = PipeNodeFactory {
            kind: PlanKind::Func { model_name: doc_name(), func: split_name() },
            input: PipeEdge { batch: None, model: Some(in_models), stream: None },
            output: PipeEdge { batch: None, model: Some(out_models), stream: None },
            builds: PlanType::Func,
        };
        proof {
            assert(r@.input.model.unwrap() =~= seq![doc_bytes()]);
            assert(r@.output.model.unwrap() =~= seq![doc_bytes()]);
        }
        r
    }
}

/// Factory of the stdout sink.
pub struct StdoutSinkBuilder;

impl StdoutSinkBuilder {
    pub fn descriptor() -> (r: PipeNodeFactory)
        ensures
            r@ == stdout_sink_factory_v(),
    {
        PipeNodeFactory {
            kind: PlanKind::Sink { name: stdout_name() },
            input: PipeEdge { batch: None, model: None, stream: None },
            output: PipeEdge { batch: None, model: None, stream: None },
            builds: PlanType::Sink,
        }
    }
}

/// Factory of the csv source.
pub struct CsvSrcBuilder;

impl CsvSrcBuilder {
    pub fn descriptor() -> (r: PipeNodeFactory)
        ensures
            r@ == csv_src_factory_v(),
    {
        let mut out_models: Vec<Vec<u8>> = Vec::new();
        out_models.push(batch_model_name());
        out_models.push(stream_model_name());
        let r = PipeNodeFactory {
            kind: PlanKind::Src { name: csv_name() },
            input: PipeEdge { batch: None, model: None, stream: None },
            output: PipeEdge {
                batch: Some(datafusion_name()),
                model: Some(out_models),
                stream: None,
            },
            builds: PlanType::Src,
        };
        proof {
            assert(r@.output.model.unwrap() =~= seq![batch_bytes(), stream_bytes()]);
        }
        r
    }
}

/// Factory of the file source.
pub struct FileSrcBuilder;

impl FileSrcBuilder {
    pub fn descriptor() -> (r: PipeNodeFactory)
        ensures
            r@ == file_src_factory_v(),
    {
        let mut out_models: Vec<Vec<u8>> = Vec::new();
        out_models.push(binary_name());
        out_models.push(file_name());
        out_models.push(hash_name());
        out_models.push(stream_model_name());
        let r = PipeNodeFactory {
            kind: PlanKind::Src { name: file_name() },
            input: PipeEdge { batch: None, model: None, stream: None },
            output: PipeEdge { batch: None, model: Some(out_models), stream: None },
            builds: PlanType::Src,
        };
        proof {
            assert(r@.output.model.unwrap() =~= seq![
                binary_bytes(),
                file_bytes(),
                hash_bytes(),
                stream_bytes(),
            ]);
        }
        r
    }
}

/// Factory of the stdin source.
pub struct StdinSrcFactory;

impl StdinSrcFactory {
    pub fn descriptor() -> (r: PipeNodeFactory)
        ensures
            r@ == stdin_src_factory_v(),
    {
        let mut out_models: Vec<Vec<u8>> = Vec::new();
        out_models.push(doc_name());
        out_models.push(hash_name());
        let r = PipeNodeFactory {
            kind: PlanKind::Src { name: stdin_name() },
            input: PipeEdge { batch: None, model: None, stream: None },
            output: PipeEdge { batch: None, model: Some(out_models), stream: None },
            builds: PlanType::Src,
        };
        proof {
            assert(r@.output.model.unwrap() =~= seq![doc_bytes(), hash_bytes()]);
        }
        r
    }
}

/// Factory of the local filesystem store.
pub struct LocalStoreFactory;

impl LocalStoreFactory {
    pub fn descriptor() -> (r: PipeNodeFactory)
        ensures
            r@ == local_store_factory_v(),
    {
        PipeNodeFactory {
            kind: PlanKind::Store { name: local_name() },
            input: PipeEdge { batch: None, model: None, stream: None },
            output: PipeEdge { batch: None, model: None, stream: None },
            builds: PlanType::Store,
        }
    }
}

/// Builds the batch model name.
pub fn batch_model_name() -> (r: Vec<u8>)
    ensures
        r@ == batch_bytes(),
{
    let mut v: Vec<u8> = Vec::new();
    v.push(B_LB);
    v.push(B_LA);
    v.push(B_LT);
    v.push(B_LC);
    v.push(B_LH);
    proof {
        assert(v@ =~= batch_bytes());
    }
    v
}

/// Builds the stream model name.
pub fn stream_model_name() -> (r: Vec<u8>)
    ensures
        r@ == stream_bytes(),
{
    let mut v: Vec<u8> = Vec::new();
    v.push(B_LS);
    v.push(B_LT);
    v.push(B_LR);
    v.push(B_LE);
    v.push(B_LA);
    v.push(B_LM);
    proof {
        assert(v@ =~= stream_bytes());
    }
    v
}

/// The `path` argument key.
pub open spec fn path_key() -> Seq<u8> {
    seq![B_LP, B_LA, B_LT, B_LH]
}

/// Builds the `path` argument key.
pub fn path_key_name() -> (r: Vec<u8>)
    ensures
        r@ == path_key(),
{
    let mut v: Vec<u8> = Vec::new();
    v.push(B_LP);
    v.push(B_LA);
    v.push(B_LT);
    v.push(B_LH);
    proof {
        assert(v@ =~= path_key());
    }
    v
}

/// The `cache` argument key.
pub open spec fn cache_key() -> Seq<u8> {
    seq![B_LC, B_LA, B_LC, B_LH, B_LE]
}

/// Builds the `cache` argument key.
pub fn cache_key_name() -> (r: Vec<u8>)
    ensures
        r@ == cache_key(),
{
    let mut v: Vec<u8> = Vec::new();
    v.push(B_LC);
    v.push(B_LA);
    v.push(B_LC);
    v.push(B_LH);
    v.push(B_LE);
    proof {
        assert(v@ =~= cache_key());
    }
    v
}

/// The `prog` argument key.
pub open spec fn prog_key() -> Seq<u8> {
    seq![B_LP, B_LR, B_LO, B_LG]
}

/// Builds the `prog` argument key.
pub fn prog_key_name() -> (r: Vec<u8>)
    ensures
        r@ == prog_key(),
{
    let mut v: Vec<u8> = Vec::new();
    v.push(B_LP);
    v.push(B_LR);
    v.push(B_LO);
    v.push(B_LG);
    proof {
        assert(v@ =~= prog_key());
    }
    v
}

/// How the file source keys its cache entry: by the content's hash or by
/// the path's hash (the default, which defers reading the content).
#[derive(Copy, Clone, PartialEq, Eq, Structural)]
pub enum FileCacheType {
    Content,
    Path,
}

/// The file source's configuration.
pub struct FileSrc {
    pub cache: FileCacheType,
    pub path: Vec<u8>,
}

impl FileSrc {
    /// Reads the configuration from a plan's arguments: `path` is required
    /// text; `cache` is optionally `content` or `path`, defaulting to
    /// `path`. Anything else is a build error.
    pub fn from_args(args: &Object) -> (r: Result<FileSrc, PipeError>)
        requires
            args.wf(),
        ensures
            match r {
                Ok(cfg) => {
                    &&& args.as_map().contains_key(path_key())
                    &&& args.as_map()[path_key()] == ValueV::Text(cfg.path@)
                    &&& (if args.as_map().contains_key(cache_key()) {
                        (args.as_map()[cache_key()] == ValueV::Text(crate::models::content_key())
                            && cfg.cache == FileCacheType::Content) || (args.as_map()[cache_key()]
                            == ValueV::Text(path_key()) && cfg.cache == FileCacheType::Path)
                    } else {
                        cfg.cache == FileCacheType::Path
                    })
                },
                Err(e) => (!(args.as_map().contains_key(path_key())
                    && args.as_map()[path_key()] is Text) || (args.as_map().contains_key(
                    cache_key(),
                ) && !(args.as_map()[cache_key()] == ValueV::Text(crate::models::content_key())
                    || args.as_map()[cache_key()] == ValueV::Text(path_key())))) && e matches
                    PipeError::BuildError { .. },
            },
    {
        let path = match args.get(&path_key_name()) {
            Some(Value::String(s)) => crate::ast::clone_bytes(s),
            _ => {
                return Err(PipeError::BuildError { index: 0 });
            },
        };
        let cache = match args.get(&cache_key_name()) {
            Some(Value::String(s)) => {
                if crate::order::bytes_eq(s, &crate::models::content_key_name()) {
                    FileCacheType::Content
                } else if crate::order::bytes_eq(s, &path_key_name()) {
                    FileCacheType::Path
                } else {
                    return Err(PipeError::BuildError { index: 0 });
                }
            },
            Some(_) => {
                return Err(PipeError::BuildError { index: 0 });
            },
            None => FileCacheType::Path,
        };
        Ok(FileSrc { cache, path })
    }
}

/// The csv source's configuration.
pub struct CsvSrc {
    pub path: Vec<u8>,
}

impl CsvSrc {
    /// Reads the configuration from a plan's arguments: `path` is required
    /// text.
    pub fn from_args(args: &Object) -> (r: Result<CsvSrc, PipeError>)
        requires
            args.wf(),
        ensures
            match r {
                Ok(cfg) => args.as_map().contains_key(path_key()) && args.as_map()[path_key()]
                    == ValueV::Text(cfg.path@),
                Err(e) => !(args.as_map().contains_key(path_key())
                    && args.as_map()[path_key()] is Text) && e matches PipeError::BuildError {
                    ..
                },
            },
    {
        match args.get(&path_key_name()) {
            Some(Value::String(s)) => Ok(CsvSrc { path: crate::ast::clone_bytes(s) }),
            _ => Err(PipeError::BuildError { index: 0 }),
        }
    }
}

/// The stdin source takes no configuration.
pub struct StdinSrc {}

impl StdinSrc {
    pub fn from_args(_args: &Object) -> (r: StdinSrc) {
        StdinSrc {  }
    }
}

/// The stdout sink takes no configuration.
pub struct StdoutSink {}

impl StdoutSink {
    pub fn from_args(_args: &Object) -> (r: StdoutSink) {
        StdoutSink {  }
    }
}

/// The doc splitter takes no configuration.
pub struct SplitFunc {}

impl SplitFunc {
    pub fn from_args(_args: &Object) -> (r: SplitFunc) {
        SplitFunc {  }
    }
}

/// The converter program's default name.
pub open spec fn libreoffice_bytes() -> Seq<u8> {
    seq![B_LL, B_LI, B_LB, B_LR, B_LE, B_LO, B_LF, B_LF, B_LI, B_LC, B_LE]
}

/// The binary-to-doc converter's configuration: the converter program to
/// run.
pub struct PdfFunc {
    pub prog: Vec<u8>,
}

impl PdfFunc {
    /// The default converter program.
    pub fn default_prog() -> (r: Vec<u8>)
        ensures
            r@ == libreoffice_bytes(),
    {
        let mut v: Vec<u8> = Vec::new();
        v.push(B_LL);
        v.push(B_LI);
        v.push(B_LB);
        v.push(B_LR);
        v.push(B_LE);
        v.push(B_LO);
        v.push(B_LF);
        v.push(B_LF);
        v.push(B_LI);
        v.push(B_LC);
        v.push(B_LE);
        proof {
            assert(v@ =~= libreoffice_bytes());
        }
        v
    }

    /// Reads the configuration from a plan's arguments: `prog` is optional
    /// text, defaulting to the converter program's name. A present but a
    /// non-text `prog` is a build error.
    pub fn from_args(args: &Object) -> (r: Result<PdfFunc, PipeError>)
        requires
            args.wf(),
        ensures
            match r {
                Ok(cfg) => (if args.as_map().contains_key(prog_key()) {
                    args.as_map()[prog_key()] == ValueV::Text(cfg.prog@)
                } else {
                    cfg.prog@ == libreoffice_bytes()
                }),
                Err(e) => args.as_map().contains_key(prog_key()) && !(
                args.as_map()[prog_key()] is Text) && e matches PipeError::BuildError { .. },
            },
    {
        match args.get(&prog_key_name()) {
            Some(Value::String(s)) => Ok(PdfFunc { prog: crate::ast::clone_bytes(s) }),
            Some(_) => Err(PipeError::BuildError { index: 0 }),
            None => Ok(PdfFunc { prog: Self::default_prog() }),
        }
    }
}

/// Groups the decimal digits of a byte count by threes with commas.
pub open spec fn spec_thousands(n: int) -> Seq<u8>
    decreases n,
{
    if n < 1000 {
        crate::json::encode_int(if n < 0 {
            0
        } else {
            n
        })
    } else {
        spec_thousands(n / 1000) + seq![crate::grammar::B_COMMA] + spec_pad3(n % 1000)
    }
}

/// Three zero-padded decimal digits.
pub open spec fn spec_pad3(n: int) -> Seq<u8> {
    seq![(48 + n / 100) as u8, (48 + (n / 10) % 10) as u8, (48 + n % 10) as u8]
}

/// The summary a binary value prints as: `Binary({count} bytes)` with the
/// byte count grouped by thousands.
pub open spec fn spec_binary_summary(len: int) -> Seq<u8> {
    seq![66u8, 105u8, 110u8, 97u8, 114u8, 121u8, 40u8] + spec_thousands(len) + seq![
        32u8,
        98u8,
        121u8,
        116u8,
        101u8,
        115u8,
        41u8,
    ]
}

/// Appends the grouped decimal digits of a byte count.
fn push_thousands(out: &mut Vec<u8>, n: usize)
    ensures
        final(out)@ == old(out)@ + spec_thousands(n as int),
    decreases n,
{
    if n < 1000 {
        if n == 0 {
            out.push(48);
            proof {
                assert(out@ =~= old(out)@ + spec_thousands(0));
            }
        } else {
            if n >= 100 {
                out.push(48 + (n / 100) as u8);
            }
            if n >= 10 {
                out.push(48 + ((n / 10) % 10) as u8);
            }
            out.push(48 + (n % 10) as u8);
            proof {
                let m = n as int;
                assert(crate::json::dec_digits(m) == crate::json::dec_digits(m / 10) + seq![
                    (48 + m % 10) as u8,
                ]);
                if n >= 10 {
                    assert(crate::json::dec_digits(m / 10) == crate::json::dec_digits(m / 100)
                        + seq![(48 + (m / 10) % 10) as u8]);
                }
                if n >= 100 {
                    assert(crate::json::dec_digits(m / 100) == crate::json::dec_digits(m / 1000)
                        + seq![(48 + (m / 100) % 10) as u8]);
                    assert(crate::json::dec_digits(m / 1000) =~= Seq::<u8>::empty());
                }
                assert(out@ =~= old(out)@ + spec_thousands(m));
            }
        }
    } else {
        push_thousands(out, n / 1000);
        out.push(crate::grammar::B_COMMA);
        let r = n % 1000;
        out.push(48 + (r / 100) as u8);
        out.push(48 + ((r / 10) % 10) as u8);
        out.push(48 + (r % 10) as u8);
        proof {
            assert(out@ =~= old(out)@ + spec_thousands(n as int));
        }
    }
}

/// The summary a binary value prints as.
pub fn binary_summary(len: usize) -> (r: Vec<u8>)
    ensures
        r@ == spec_binary_summary(len as int),
{
    let mut out: Vec<u8> = Vec::new();
    out.push(66);
    out.push(105);
    out.push(110);
    out.push(97);
    out.push(114);
    out.push(121);
    out.push(40);
    proof {
        assert(out@ =~= seq![66u8, 105u8, 110u8, 97u8, 114u8, 121u8, 40u8]);
    }
    push_thousands(&mut out, len);
    out.push(32);
    out.push(98);
    out.push(121);
    out.push(116);
    out.push(101);
    out.push(115);
    out.push(41);
    proof {
        assert(out@ =~= spec_binary_summary(len as int));
    }
    out
}

/// What the stdout sink prints for one (flattened) record: a doc record
/// prints its document text, a binary record prints its byte-count summary,
/// and any other record prints its pretty document — each followed by a
/// newline.
pub open spec fn spec_stdout_render(top: crate::object::LayerV) -> Seq<u8> {
    let m = crate::ast::seq_to_map(top.content);
    if m.contains_key(crate::models::document_key()) && m[crate::models::document_key()] is Text {
        (match m[crate::models::document_key()] {
            ValueV::Text(t) => t,
            _ => Seq::empty(),
        }) + seq![crate::json::B_NL]
    } else if m.contains_key(crate::models::content_key()) && (m[crate::models::content_key()] is Binary
        || m[crate::models::content_key()] is Text) {
        (match m[crate::models::content_key()] {
            ValueV::Binary(b) => spec_binary_summary(b.len() as int),
            ValueV::Text(t) => spec_binary_summary(t.len() as int),
            _ => Seq::empty(),
        }) + seq![crate::json::B_NL]
    } else {
        crate::json::encode_pretty(top.content) + seq![crate::json::B_NL]
    }
}

/// Renders one record the way the stdout sink prints it.
pub fn stdout_render<F>(item: &crate::object::LazyObject<F>) -> (r: Vec<u8>)
    requires
        item.wf(),
    ensures
        r@ == spec_stdout_render(item@.last()),
{
    match item.get_raw(&crate::models::document_key_name()) {
        Some(Value::String(t)) => {
            let mut out = crate::ast::clone_bytes(t);
            out.push(crate::json::B_NL);
            proof {
                assert(out@ =~= spec_stdout_render(item@.last()));
            }
            return out;
        },
        _ => {},
    }
    match item.get_raw(&crate::models::content_key_name()) {
        Some(Value::Binary(b)) => {
            let mut out = binary_summary(b.0.len());
            out.push(crate::json::B_NL);
            proof {
                assert(out@ =~= spec_stdout_render(item@.last()));
            }
            return out;
        },
        Some(Value::String(t)) => {
            let mut out = binary_summary(t.len());
            out.push(crate::json::B_NL);
            proof {
                assert(out@ =~= spec_stdout_render(item@.last()));
            }
            return out;
        },
        _ => {},
    }
    let mut out = item.top_content().to_string_pretty();
    out.push(crate::json::B_NL);
    proof {
        assert(out@ =~= spec_stdout_render(item@.last()));
    }
    out
}

} // verus!
