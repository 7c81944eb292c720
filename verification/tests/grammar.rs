//! Grammar, rendering and plan compilation.

use xlake::ast::{Plan, PlanKind, PlanType, Value};
use xlake::error::PipeError;
use xlake::grammar::{classify, parse_pipeline, render_kind};
use xlake::session::{admissible_impl, exec_step, ExecAction, PipeEdge, PipeNodeFactory, PipeSession};

fn parse(text: &str) -> Result<Vec<Plan>, PipeError> {
    parse_pipeline(&text.as_bytes().to_vec())
}

fn builtin_session() -> PipeSession {
    let mut session = PipeSession::empty();
    session.add_builtin_factories();
    session
}

#[test]
fn test_grammar_simple() {
    let input = "stdinsrc ! stdoutsink";
    let _ = parse(input).unwrap();
}

#[test]
fn test_grammar_simple_err() {
    let input = "stdin src ! stdout sink";
    assert!(parse(input).is_err());
}

#[test]
fn test_grammar_argument_quote() {
    let input = "filesrc path='lib.rs' ! stdoutsink";
    let _ = parse(input).unwrap();
}

#[test]
fn test_grammar_argument_quote_err() {
    let input = "filesrc path=lib.rs ! stdoutsink";
    assert!(parse(input).is_err());
}

#[test]
fn test_grammar_argument_sep_comma() {
    let input = "filesrc cache=content,path='lib.rs' ! stdoutsink";
    let _ = parse(input).unwrap();
}

#[test]
fn test_grammar_argument_sep_comma_and_space() {
    let input = "filesrc cache=content, path='lib.rs' ! stdoutsink";
    let _ = parse(input).unwrap();
}

#[test]
fn test_grammar_argument_sep_space() {
    let input = "filesrc cache=content path='lib.rs' ! stdoutsink";
    let _ = parse(input).unwrap();
}

#[test]
fn parse_classifies_kinds() {
    let plans = parse("filesrc path='lib.rs' ! pdf ! doc:split ! localstore ! stdoutsink").unwrap();
    assert_eq!(plans.len(), 5);
    assert!(matches!(&plans[0].kind, PlanKind::Src { name } if name.as_slice() == b"file"));
    assert!(matches!(&plans[1].kind, PlanKind::Model { name } if name.as_slice() == b"pdf"));
    assert!(
        matches!(&plans[2].kind, PlanKind::Func { model_name, func }
            if model_name.as_slice() == b"doc" && func.as_slice() == b"split")
    );
    assert!(matches!(&plans[3].kind, PlanKind::Store { name } if name.as_slice() == b"local"));
    assert!(matches!(&plans[4].kind, PlanKind::Sink { name } if name.as_slice() == b"stdout"));
}

#[test]
fn parse_collects_arguments() {
    let plans = parse("filesrc cache=content, path='lib.rs' ! stdoutsink").unwrap();
    let args = &plans[0].args;
    assert_eq!(args.len(), 2);
    match args.get(&b"path".to_vec()) {
        Some(Value::String(s)) => assert_eq!(s.as_slice(), b"lib.rs"),
        other => panic!("path argument missing: {:?}", other.is_some()),
    }
    match args.get(&b"cache".to_vec()) {
        Some(Value::String(s)) => assert_eq!(s.as_slice(), b"content"),
        _ => panic!("cache argument missing"),
    }
    assert!(plans[1].args.is_empty());
}

#[test]
fn parse_rejects_leftover_text() {
    assert!(parse("stdinsrc ! stdoutsink trailing").is_err());
    assert!(parse("").is_err());
    assert!(parse("!").is_err());
    assert!(parse("stdinsrc !").is_err());
}

#[test]
fn render_is_inverse_of_classification() {
    let plans = parse("stdinsrc ! pdf ! doc:split ! localstore ! stdoutsink").unwrap();
    for plan in &plans {
        let rendered = render_kind(&plan.kind);
        let back = classify(&rendered);
        let same = plan.kind.kind_eq(&back);
        assert!(same);
    }
}

#[test]
fn plan_round_trip_reparses_to_same_list() {
    let plans = parse("filesrc path='x.docx' ! pdf ! localstore path='c' ! stdoutsink").unwrap();
    let mut joined: Vec<u8> = Vec::new();
    for (i, plan) in plans.iter().enumerate() {
        if i > 0 {
            joined.extend_from_slice(b" ! ");
        }
        joined.extend_from_slice(&render_kind(&plan.kind));
    }
    assert_eq!(joined, b"filesrc ! pdf ! localstore ! stdoutsink".to_vec());
    let again = parse_pipeline(&joined).unwrap();
    assert_eq!(again.len(), plans.len());
    for (a, b) in again.iter().zip(plans.iter()) {
        assert!(a.kind.kind_eq(&b.kind));
        assert!(a.args.is_empty());
    }
}

#[test]
fn compile_admits_simple_pipeline() {
    let session = builtin_session();
    let plans = parse("stdinsrc ! stdoutsink").unwrap();
    let nodes = session.compile(plans).unwrap();
    assert_eq!(nodes.len(), 2);
}

#[test]
fn compile_admits_converter_and_store() {
    let session = builtin_session();
    let plans = parse("filesrc path='x.docx' ! pdf ! localstore path='c' ! stdoutsink").unwrap();
    let nodes = session.compile(plans).unwrap();
    assert_eq!(nodes.len(), 4);
}

#[test]
fn compile_admits_csv_batch() {
    let session = builtin_session();
    let plans = parse("csvsrc path='t.csv' ! stdoutsink").unwrap();
    assert!(session.compile(plans).is_ok());
}

#[test]
fn compile_rejects_duplicate_src() {
    let session = builtin_session();
    let plans = parse("stdinsrc ! stdinsrc ! stdoutsink").unwrap();
    match session.compile(plans) {
        Err(PipeError::DuplicateSrc { index, .. }) => assert_eq!(index, 1),
        _ => panic!("expected a duplicated src error"),
    }
}

#[test]
fn compile_rejects_link_before_src() {
    let session = builtin_session();
    let plans = parse("stdoutsink").unwrap();
    match session.compile(plans) {
        Err(PipeError::LinkBeforeSrc { index, .. }) => assert_eq!(index, 0),
        _ => panic!("expected a link-before-src error"),
    }
}

#[test]
fn compile_rejects_duplicate_sink() {
    let session = builtin_session();
    let plans = parse("stdinsrc ! stdoutsink ! stdoutsink").unwrap();
    match session.compile(plans) {
        Err(PipeError::DuplicateSink { index, .. }) => assert_eq!(index, 2),
        _ => panic!("expected a duplicated sink error"),
    }
}

#[test]
fn compile_rejects_link_after_sink() {
    let session = builtin_session();
    let plans = parse("stdinsrc ! stdoutsink ! doc:split").unwrap();
    match session.compile(plans) {
        Err(PipeError::LinkAfterSink { index, .. }) => assert_eq!(index, 2),
        _ => panic!("expected a link-after-sink error"),
    }
}

#[test]
fn compile_rejects_unknown_node() {
    let session = builtin_session();
    let plans = parse("nosuchsrc ! stdoutsink").unwrap();
    match session.compile(plans) {
        Err(PipeError::UnknownNode { index, .. }) => assert_eq!(index, 0),
        _ => panic!("expected an unknown-node error"),
    }
}

#[test]
fn compile_rejects_missing_model() {
    let session = builtin_session();
    let plans = parse("stdinsrc ! pdf ! stdoutsink").unwrap();
    match session.compile(plans) {
        Err(PipeError::MissingModel { index, .. }) => assert_eq!(index, 1),
        _ => panic!("expected a missing-model error"),
    }
}

#[test]
fn compile_rejects_missing_terminals() {
    let session = builtin_session();
    let plans = parse("stdinsrc").unwrap();
    assert!(matches!(session.compile(plans), Err(PipeError::NoSink)));
    assert!(matches!(session.compile(Vec::new()), Err(PipeError::NoSrc)));
}

#[test]
fn compile_rejects_implicit_model() {
    // The edge checks run before the structural rules, so a node demanding
    // models from an empty context fails on that demand first.
    let session = builtin_session();
    let plans = parse("pdf ! stdoutsink").unwrap();
    match session.compile(plans) {
        Err(PipeError::ImplicitModel { index, .. }) => assert_eq!(index, 0),
        _ => panic!("expected an implicit-model error"),
    }
}

#[test]
fn compile_rejects_incompatible_axes() {
    let mut session = builtin_session();
    session.insert_factory(PipeNodeFactory {
        kind: PlanKind::Model { name: b"otherbatch".to_vec() },
        input: PipeEdge {
            batch: Some(b"elsewhere".to_vec()),
            model: None,
            stream: None,
        },
        output: PipeEdge { batch: None, model: None, stream: None },
        builds: PlanType::Func,
    });
    session.insert_factory(PipeNodeFactory {
        kind: PlanKind::Model { name: b"otherstream".to_vec() },
        input: PipeEdge {
            batch: None,
            model: None,
            stream: Some(b"elsewhere".to_vec()),
        },
        output: PipeEdge { batch: None, model: None, stream: None },
        builds: PlanType::Func,
    });
    let plans = parse("stdinsrc ! otherbatch ! stdoutsink").unwrap();
    match session.compile(plans) {
        Err(PipeError::IncompatibleBatch { index, .. }) => assert_eq!(index, 1),
        _ => panic!("expected an incompatible-batch error"),
    }
    let plans = parse("stdinsrc ! otherstream ! stdoutsink").unwrap();
    match session.compile(plans) {
        Err(PipeError::IncompatibleStream { index, .. }) => assert_eq!(index, 1),
        _ => panic!("expected an incompatible-stream error"),
    }
}

#[test]
fn insert_factory_replaces_by_kind() {
    let mut session = PipeSession::empty();
    let fresh = || PipeNodeFactory {
        kind: PlanKind::Src { name: b"custom".to_vec() },
        input: PipeEdge { batch: None, model: None, stream: None },
        output: PipeEdge { batch: None, model: None, stream: None },
        builds: PlanType::Src,
    };
    assert!(session.insert_factory(fresh()).is_none());
    let replaced = session.insert_factory(fresh());
    assert!(replaced.is_some());
}

#[test]
fn executor_dispatch_rules() {
    assert!(matches!(exec_step(PlanType::Src, false), Ok(ExecAction::RunSrc)));
    assert!(matches!(exec_step(PlanType::Func, true), Ok(ExecAction::RunFunc)));
    assert!(matches!(exec_step(PlanType::Sink, true), Ok(ExecAction::RunSink)));
    assert!(matches!(exec_step(PlanType::Store, true), Ok(ExecAction::RunSave)));
    assert!(exec_step(PlanType::Func, false).is_err());
    assert!(exec_step(PlanType::Store, false).is_err());
}

#[test]
fn model_plans_admit_func_impls() {
    assert!(admissible_impl(PlanType::Model, PlanType::Func));
    assert!(admissible_impl(PlanType::Src, PlanType::Src));
    assert!(!admissible_impl(PlanType::Src, PlanType::Func));
    assert!(!admissible_impl(PlanType::Model, PlanType::Model));
}
