//! Objects, the JSON codec, layered records, model views, hashing and the
//! store rules.

use xlake::ast::{Binary, Number, Object, Value};
use xlake::batch::{record_batches_to_rows, Column};
use xlake::hash::{digest_string, HashModelView};
use xlake::models::{BinaryModelView, DocModelObject, DocModelView, FileModelView};
use xlake::nodes::{binary_summary, stdout_render, FileCacheType, FileSrc};
use xlake::object::{LazyObject, ModelSet, ObjectLayer};
use xlake::store::{save_action, LocalStore, SaveAction};

type Rec = LazyObject<()>;
type Layer = ObjectLayer<()>;

fn text(s: &[u8]) -> Value {
    Value::String(s.to_vec())
}

#[test]
fn object_keeps_keys_sorted_and_unique() {
    let mut o = Object::new();
    o.insert(b"b".to_vec(), Value::Number(Number::Fixed(2)));
    o.insert(b"a".to_vec(), Value::Number(Number::Fixed(1)));
    o.insert(b"c".to_vec(), Value::Number(Number::Fixed(3)));
    assert_eq!(o.len(), 3);
    assert_eq!(o.key_at(0).as_slice(), b"a");
    assert_eq!(o.key_at(1).as_slice(), b"b");
    assert_eq!(o.key_at(2).as_slice(), b"c");
    let prev = o.insert(b"b".to_vec(), Value::Number(Number::Fixed(20)));
    assert!(matches!(prev, Some(Value::Number(Number::Fixed(2)))));
    assert_eq!(o.len(), 3);
}

#[test]
fn object_append_prefers_the_newcomer() {
    let mut a = Object::new();
    a.insert(b"x".to_vec(), text(b"old"));
    a.insert(b"y".to_vec(), text(b"keep"));
    let mut b = Object::new();
    b.insert(b"x".to_vec(), text(b"new"));
    a.append(b);
    assert!(matches!(a.get(&b"x".to_vec()), Some(Value::String(s)) if s.as_slice() == b"new"));
    assert!(matches!(a.get(&b"y".to_vec()), Some(Value::String(s)) if s.as_slice() == b"keep"));
}

#[test]
fn json_compact_document() {
    let mut o = Object::new();
    o.insert(b"b".to_vec(), text(b"x"));
    o.insert(b"a".to_vec(), Value::Number(Number::Fixed(1)));
    assert_eq!(o.to_vec(), b"{\"a\":1,\"b\":\"x\"}".to_vec());
}

#[test]
fn json_escapes_and_base64() {
    let mut o = Object::new();
    o.insert(b"q".to_vec(), text(b"say \"hi\"\\"));
    o.insert(b"b".to_vec(), Value::Binary(Binary(b"hi".to_vec())));
    o.insert(b"n".to_vec(), Value::Number(Number::Fixed(-42)));
    o.insert(b"z".to_vec(), Value::Null);
    o.insert(b"t".to_vec(), Value::Bool(true));
    assert_eq!(
        o.to_vec(),
        b"{\"b\":\"aGk=\",\"n\":-42,\"q\":\"say \\\"hi\\\"\\\\\",\"t\":true,\"z\":null}".to_vec()
    );
}

#[test]
fn json_base64_padding_forms() {
    let mut o = Object::new();
    o.insert(b"a".to_vec(), Value::Binary(Binary(vec![0])));
    o.insert(b"b".to_vec(), Value::Binary(Binary(b"hel".to_vec())));
    o.insert(b"c".to_vec(), Value::Binary(Binary(b"hello".to_vec())));
    assert_eq!(
        o.to_vec(),
        b"{\"a\":\"AA==\",\"b\":\"aGVs\",\"c\":\"aGVsbG8=\"}".to_vec()
    );
}

#[test]
fn json_pretty_document() {
    let mut o = Object::new();
    o.insert(b"a".to_vec(), Value::Number(Number::Fixed(1)));
    o.insert(b"b".to_vec(), text(b"x"));
    assert_eq!(
        o.to_string_pretty(),
        b"{\n  \"a\": 1,\n  \"b\": \"x\"\n}".to_vec()
    );
    assert_eq!(Object::new().to_string_pretty(), b"{}".to_vec());
}

#[test]
fn store_round_trip_restores_the_object() {
    let mut o = Object::new();
    o.insert(b"num".to_vec(), Value::Number(Number::Fixed(7)));
    o.insert(b"neg".to_vec(), Value::Number(Number::Fixed(-3)));
    o.insert(b"text".to_vec(), text(b"with \"quotes\" and\nlines"));
    o.insert(b"flag".to_vec(), Value::Bool(false));
    o.insert(b"none".to_vec(), Value::Null);
    let bytes = o.to_vec();
    let back = Object::from_slice(&bytes).unwrap();
    assert_eq!(back.to_vec(), bytes);
    assert_eq!(back.len(), o.len());
}

#[test]
fn from_json_folds_members_in_order() {
    let members = vec![
        (b"k".to_vec(), text(b"first")),
        (b"a".to_vec(), Value::Number(Number::Fixed(1))),
        (b"k".to_vec(), text(b"second")),
    ];
    let o = Object::from_json(members);
    assert_eq!(o.len(), 2);
    assert!(matches!(o.get(&b"k".to_vec()), Some(Value::String(s)) if s.as_slice() == b"second"));
}

#[test]
fn json_reader_accepts_whitespace_and_rejects_junk() {
    let doc = b"{ \"a\" : 1 ,\n \"b\" : \"x\" }".to_vec();
    let o = Object::from_slice(&doc).unwrap();
    assert_eq!(o.to_vec(), b"{\"a\":1,\"b\":\"x\"}".to_vec());
    assert!(Object::from_slice(&b"".to_vec()).is_err());
    assert!(Object::from_slice(&b"{".to_vec()).is_err());
    assert!(Object::from_slice(&b"{\"a\":}".to_vec()).is_err());
    assert!(Object::from_slice(&b"{\"a\":1.5}".to_vec()).is_err());
    assert!(Object::from_slice(&b"{\"a\":1} tail".to_vec()).is_err());
}

#[test]
fn layers_merge_with_the_later_layer_winning() {
    let mut base = Object::new();
    base.insert(b"k".to_vec(), text(b"low"));
    base.insert(b"only".to_vec(), text(b"base"));
    let mut top = Object::new();
    top.insert(b"k".to_vec(), text(b"high"));
    let mut rec: Rec = LazyObject::from_layer(Layer::from_object(base, ModelSet::new()));
    rec.append_layer(Layer::from_object(top, ModelSet::new()));
    let flat = rec.flatten_without_futures();
    let content = flat.as_content_unpolled();
    assert!(
        matches!(content.get(&b"k".to_vec()), Some(Value::String(s)) if s.as_slice() == b"high")
    );
    assert!(
        matches!(content.get(&b"only".to_vec()), Some(Value::String(s)) if s.as_slice() == b"base")
    );
}

#[test]
fn flatten_is_idempotent() {
    let mut a = Object::new();
    a.insert(b"x".to_vec(), Value::Number(Number::Fixed(1)));
    let mut b = Object::new();
    b.insert(b"y".to_vec(), Value::Number(Number::Fixed(2)));
    let mut rec: Rec = LazyObject::from_layer(Layer::from_object(
        a,
        ModelSet::single(b"one".to_vec()),
    ));
    rec.append_layer(Layer::from_object(b, ModelSet::single(b"two".to_vec())));
    let once = rec.flatten_without_futures();
    let first = once.as_content_unpolled().to_vec();
    let again: Rec = LazyObject::from_layer(once);
    let twice = again.flatten_without_futures();
    assert_eq!(twice.as_content_unpolled().to_vec(), first);
    assert_eq!(twice.models().len(), 2);
}

#[test]
fn deferred_producers_fulfil_in_place() {
    let mut rec: LazyObject<u32> = LazyObject::from_layer(ObjectLayer::empty(ModelSet::new()));
    rec.append_future(7, ModelSet::single(b"extra".to_vec()));
    assert!(!rec.is_ready());
    let fut = rec.take_deferred(0);
    assert_eq!(fut, Some(7));
    let mut produced = Object::new();
    produced.insert(b"late".to_vec(), text(b"value"));
    rec.fulfill(0, produced);
    assert!(rec.is_ready());
    let flat = rec.flatten_without_futures();
    assert!(matches!(
        flat.as_content_unpolled().get(&b"late".to_vec()),
        Some(Value::String(s)) if s.as_slice() == b"value"
    ));
}

#[test]
fn cast_then_inner_is_the_identity() {
    let rec: Rec = LazyObject::from_layer(
        DocModelObject { document: b"hello".to_vec() }.into_layer(),
    );
    let before = rec.top_content().to_vec();
    let view = match DocModelView::__cast(rec) {
        Ok(view) => view,
        Err(_) => panic!("doc record must cast into the doc view"),
    };
    let back = view.__into_inner();
    assert_eq!(back.top_content().to_vec(), before);
    assert_eq!(back.layer_count(), 1);
    let bad: Rec = LazyObject::from_layer(ObjectLayer::empty(ModelSet::new()));
    match DocModelView::__cast(bad) {
        Ok(_) => panic!("empty record must not provide the doc model"),
        Err(rec) => assert_eq!(rec.layer_count(), 1),
    }
}

#[test]
fn string_content_promotes_to_binary() {
    let mut layer = Object::new();
    layer.insert(b"content".to_vec(), text(b"raw"));
    let rec: Rec = LazyObject::from_layer(Layer::from_object(layer, ModelSet::new()));
    let mut view = match BinaryModelView::__cast(rec) {
        Ok(v) => v,
        Err(_) => panic!("record carries a content field"),
    };
    assert!(view.content());
    match view.content_bytes() {
        Some(b) => assert_eq!(b.as_slice(), b"raw"),
        None => panic!("content must hold binary after promotion"),
    }
}

#[test]
fn file_view_writes_the_extension() {
    let rec: Rec = LazyObject::from_layer(ObjectLayer::empty(ModelSet::new()));
    let view = FileModelView::new(rec, b"pdf".to_vec());
    match view.extension() {
        Some(e) => assert_eq!(e.as_slice(), b"pdf"),
        None => panic!("extension must be present"),
    }
}

#[test]
fn hashing_is_stable_and_content_dependent() {
    let a = xlake::hash::Hash::digest(&b"hello".to_vec());
    let b = xlake::hash::Hash::digest(&b"hello".to_vec());
    let c = xlake::hash::Hash::digest(&b"hellp".to_vec());
    assert_eq!(a.0, b.0);
    assert_ne!(a.0, c.0);
    assert_ne!(a.0, b"hello".to_vec());
    assert!(!a.0.is_empty());
    let d = digest_string(&Binary(b"hello".to_vec()));
    assert_eq!(d.0, a.0);
}

#[test]
fn hash_view_carries_the_digest() {
    let view: HashModelView<()> = HashModelView::new(&b"doc body".to_vec());
    let expected = xlake::hash::Hash::digest(&b"doc body".to_vec());
    let h = match view.hash_text() {
        Some(h) => h,
        None => panic!("hash field must hold text"),
    };
    assert_eq!(h.0, expected.0);
    assert!(view.is_ready());
    // The record is a single ready layer whose content is exactly the
    // hash field.
    let rec = view.__into_inner();
    assert_eq!(rec.layer_count(), 1);
    assert!(rec.is_ready());
    let content = rec.top_content();
    assert_eq!(content.len(), 1);
    assert_eq!(content.key_at(0).as_slice(), b"hash");
}

#[test]
fn save_rules() {
    assert!(matches!(save_action(false, true, true), SaveAction::Forward));
    assert!(matches!(save_action(false, false, false), SaveAction::Forward));
    assert!(matches!(save_action(true, true, true), SaveAction::ReplaceFetch));
    assert!(matches!(save_action(true, true, false), SaveAction::Forward));
    assert!(matches!(save_action(true, false, true), SaveAction::WriteThrough));
    assert!(matches!(save_action(true, false, false), SaveAction::WriteThrough));
}

#[test]
fn save_hit_replacement_preserves_content() {
    // A ready, hashed record: the hit path replaces its materialisation
    // with a fetch; fulfilling the fetch with the stored object leaves the
    // flattened content unchanged.
    let mut content = Object::new();
    content.insert(b"hash".to_vec(), text(b"h1"));
    content.insert(b"payload".to_vec(), text(b"data"));
    let rec: LazyObject<u8> = LazyObject::from_layer(ObjectLayer::from_object(
        content,
        ModelSet::single(b"hash".to_vec()),
    ));
    let stored = rec.top_content().to_vec();
    let fetched = Object::from_slice(&stored).unwrap();
    let mut replaced = rec.replace_with(9);
    assert!(!replaced.is_ready());
    let _ = replaced.take_deferred(0);
    replaced.fulfill(0, fetched);
    let flat = replaced.flatten_without_futures();
    assert_eq!(flat.as_content_unpolled().to_vec(), stored);
}

#[test]
fn local_store_paths() {
    let store = LocalStore::at(b"c".to_vec());
    let h = xlake::hash::Hash(b"abc".to_vec());
    assert_eq!(store.path(&h), b"c/abc.json".to_vec());
    assert_eq!(LocalStore::default_path(), b"caches".to_vec());
    let mut args = Object::new();
    args.insert(b"path".to_vec(), text(b"elsewhere"));
    let configured = LocalStore::from_args(&args).unwrap();
    assert_eq!(configured.path_base().as_slice(), b"elsewhere");
    let fallback = LocalStore::from_args(&Object::new()).unwrap();
    assert_eq!(fallback.path_base().as_slice(), b"caches");
}

#[test]
fn file_src_arguments() {
    let mut args = Object::new();
    args.insert(b"path".to_vec(), text(b"lib.rs"));
    args.insert(b"cache".to_vec(), text(b"content"));
    let cfg = FileSrc::from_args(&args).unwrap();
    assert_eq!(cfg.path.as_slice(), b"lib.rs");
    assert!(matches!(cfg.cache, FileCacheType::Content));
    let mut defaulted = Object::new();
    defaulted.insert(b"path".to_vec(), text(b"lib.rs"));
    let cfg = FileSrc::from_args(&defaulted).unwrap();
    assert!(matches!(cfg.cache, FileCacheType::Path));
    assert!(FileSrc::from_args(&Object::new()).is_err());
    let mut bad = Object::new();
    bad.insert(b"path".to_vec(), Value::Number(Number::Fixed(1)));
    assert!(FileSrc::from_args(&bad).is_err());
    let mut bad_cache = Object::new();
    bad_cache.insert(b"path".to_vec(), text(b"lib.rs"));
    bad_cache.insert(b"cache".to_vec(), text(b"sometimes"));
    assert!(FileSrc::from_args(&bad_cache).is_err());
}

#[test]
fn columns_become_rows_in_key_order() {
    let columns = vec![
        Column {
            name: b"b".to_vec(),
            values: vec![Some(Value::Number(Number::Fixed(2))), None],
        },
        Column {
            name: b"a".to_vec(),
            values: vec![
                Some(Value::Number(Number::Fixed(1))),
                Some(Value::Number(Number::Fixed(3))),
            ],
        },
    ];
    let rows = record_batches_to_rows(2, &columns).unwrap();
    assert_eq!(rows.len(), 2);
    assert_eq!(rows[0].to_vec(), b"{\"a\":1,\"b\":2}".to_vec());
    assert_eq!(rows[1].to_vec(), b"{\"a\":3}".to_vec());
    let broken = vec![Column { name: b"a".to_vec(), values: vec![] }];
    assert!(record_batches_to_rows(2, &broken).is_err());
}

#[test]
fn stdout_renders_by_model() {
    let doc: Rec = LazyObject::from_layer(
        DocModelObject { document: b"hello\n".to_vec() }.into_layer(),
    );
    assert_eq!(stdout_render(&doc), b"hello\n\n".to_vec());

    let mut binary = Object::new();
    binary.insert(b"content".to_vec(), Value::Binary(Binary(vec![0u8; 1234])));
    let bin: Rec = LazyObject::from_layer(Layer::from_object(binary, ModelSet::new()));
    assert_eq!(stdout_render(&bin), b"Binary(1,234 bytes)\n".to_vec());

    let mut plain = Object::new();
    plain.insert(b"a".to_vec(), Value::Number(Number::Fixed(1)));
    let other: Rec = LazyObject::from_layer(Layer::from_object(plain, ModelSet::new()));
    assert_eq!(stdout_render(&other), b"{\n  \"a\": 1\n}\n".to_vec());
}

#[test]
fn byte_counts_group_by_thousands() {
    assert_eq!(binary_summary(0), b"Binary(0 bytes)".to_vec());
    assert_eq!(binary_summary(999), b"Binary(999 bytes)".to_vec());
    assert_eq!(binary_summary(1000), b"Binary(1,000 bytes)".to_vec());
    assert_eq!(binary_summary(1234567), b"Binary(1,234,567 bytes)".to_vec());
}
