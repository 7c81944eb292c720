//! The doc, binary and file models and their typed views.
//!
//! A model is a named schema asserting the presence of fields. A view wraps
//! a record and stands for the assertion "this record provides model M";
//! casting re-validates the assertion and hands the record back unchanged on
//! failure, and cast-then-inner is the identity on the record.

use vstd::prelude::*;

use crate::ast::{clone_bytes, seq_to_map, Binary, Object, Value, ValueV};
use crate::grammar::{B_LC, B_LD, B_LE, B_LI, B_LM, B_LN, B_LO, B_LS, B_LT, B_LU, B_LX};
use crate::object::{layers_wf, LayerV, LazyObject, ModelSet, ObjectLayer};
use crate::session::{binary_bytes, binary_name, doc_bytes, doc_name};

verus! {

/// The `document` field key.
pub open spec fn document_key() -> Seq<u8> {
    seq![B_LD, B_LO, B_LC, B_LU, B_LM, B_LE, B_LN, B_LT]
}

/// The `content` field key.
pub open spec fn content_key() -> Seq<u8> {
    seq![B_LC, B_LO, B_LN, B_LT, B_LE, B_LN, B_LT]
}

/// The `extension` field key.
pub open spec fn extension_key() -> Seq<u8> {
    seq![B_LE, B_LX, B_LT, B_LE, B_LN, B_LS, B_LI, B_LO, B_LN]
}

/// Builds the `document` field key.
pub fn document_key_name() -> (r: Vec<u8>)
    ensures
        r@ == document_key(),
{
    let mut v: Vec<u8> = Vec::new();
    v.push(B_LD);
    v.push(B_LO);
    v.push(B_LC);
    v.push(B_LU);
    v.push(B_LM);
    v.push(B_LE);
    v.push(B_LN);
    v.push(B_LT);
    proof {
        assert(v@ =~= document_key());
    }
    v
}

/// Builds the `content` field key.
pub fn content_key_name() -> (r: Vec<u8>)
    ensures
        r@ == content_key(),
{
    let mut v: Vec<u8> = Vec::new();
    v.push(B_LC);
    v.push(B_LO);
    v.push(B_LN);
    v.push(B_LT);
    v.push(B_LE);
    v.push(B_LN);
    v.push(B_LT);
    proof {
        assert(v@ =~= content_key());
    }
    v
}

/// Builds the `extension` field key.
pub fn extension_key_name() -> (r: Vec<u8>)
    ensures
        r@ == extension_key(),
{
    let mut v: Vec<u8> = Vec::new();
    v.push(B_LE);
    v.push(B_LX);
    v.push(B_LT);
    v.push(B_LE);
    v.push(B_LN);
    v.push(B_LS);
    v.push(B_LI);
    v.push(B_LO);
    v.push(B_LN);
    proof {
        assert(v@ =~= extension_key());
    }
    v
}

/// A plain record carrying a text document.
pub struct DocModelObject {
    pub document: Vec<u8>,
}

impl DocModelObject {
    /// The record as a ready layer asserting the doc model.
    pub fn into_layer<F>(self) -> (r: ObjectLayer<F>)
        ensures
            r.wf(),
            !r@.pending,
            seq_to_map(r@.content) == Map::<Seq<u8>, ValueV>::empty().insert(
                document_key(),
                ValueV::Text(self.document@),
            ),
            seq_to_map(r@.models).dom() == Set::<Seq<u8>>::empty().insert(doc_bytes()),
    {
        let mut content = Object::new();
        content.insert(document_key_name(), Value::String(self.document));
        ObjectLayer::from_object(content, ModelSet::single(doc_name()))
    }
}

/// A plain record carrying raw bytes.
pub struct BinaryModelObject {
    pub content: Binary,
}

impl BinaryModelObject {
    /// The record as a ready layer asserting the binary model.
    pub fn into_layer<F>(self) -> (r: ObjectLayer<F>)
        ensures
            r.wf(),
            !r@.pending,
            seq_to_map(r@.content) == Map::<Seq<u8>, ValueV>::empty().insert(
                content_key(),
                ValueV::Binary(self.content@),
            ),
            seq_to_map(r@.models).dom() == Set::<Seq<u8>>::empty().insert(binary_bytes()),
    {
        let mut content = Object::new();
        content.insert(content_key_name(), Value::Binary(self.content));
        ObjectLayer::from_object(content, ModelSet::single(binary_name()))
    }

    /// The record as an object, for deferred production.
    pub fn into_object(self) -> (r: Object)
        ensures
            r.wf(),
            r.as_map() == Map::<Seq<u8>, ValueV>::empty().insert(
                content_key(),
                ValueV::Binary(self.content@),
            ),
    {
        let mut content = Object::new();
        content.insert(content_key_name(), Value::Binary(self.content));
        content
    }
}

/// A plain record carrying a file extension.
pub struct FileModelObject {
    pub extension: Vec<u8>,
}

/// A record provides the doc model when its top layer carries `document`.
pub open spec fn spec_provides_doc(layers: Seq<LayerV>) -> bool {
    seq_to_map(layers.last().content).contains_key(document_key())
}

/// A record provides the binary model when its top layer carries `content`.
pub open spec fn spec_provides_binary(layers: Seq<LayerV>) -> bool {
    seq_to_map(layers.last().content).contains_key(content_key())
}

/// A record provides the file model when its top layer carries `extension`.
pub open spec fn spec_provides_file(layers: Seq<LayerV>) -> bool {
    seq_to_map(layers.last().content).contains_key(extension_key())
}

/// A typed projection asserting "this record provides the doc model".
pub struct DocModelView<F> {
    item: LazyObject<F>,
}

impl<F> View for DocModelView<F> {
    type V = Seq<LayerV>;

    closed spec fn view(&self) -> Seq<LayerV> {
        self.item@
    }
}

impl<F> DocModelView<F> {
    pub open spec fn wf(&self) -> bool {
        layers_wf(self@) && spec_provides_doc(self@)
    }

    /// Casts a record into the view; the record comes back unchanged on
    /// failure, and unchanged inside the view on success.
    pub fn __cast(item: LazyObject<F>) -> (r: Result<DocModelView<F>, LazyObject<F>>)
        requires
            item.wf(),
        ensures
            match r {
                Ok(v) => v@ == item@ && v.wf() && spec_provides_doc(item@),
                Err(e) => e@ == item@ && !spec_provides_doc(item@),
            },
    {
        match item.get_raw(&document_key_name()) {
            Some(_) => Ok(DocModelView { item }),
            None => Err(item),
        }
    }

    /// The record inside, unchanged: cast-then-inner is the identity.
    pub fn __into_inner(self) -> (r: LazyObject<F>)
        ensures
            r@ == self@,
    {
        self.item
    }

    /// The raw document field.
    pub fn document_raw(&self) -> (r: &Value)
        requires
            self.wf(),
        ensures
            r@ == seq_to_map(self@.last().content)[document_key()],
    {
        match self.item.get_raw(&document_key_name()) {
            Some(v) => v,
            None => {
                proof {
                    assert(false);
                }
                &Value::Null
            },
        }
    }

    /// The document text, when the field holds a string.
    pub fn document(&self) -> (r: Option<&Vec<u8>>)
        requires
            self.wf(),
        ensures
            match r {
                Some(d) => seq_to_map(self@.last().content)[document_key()] == ValueV::Text(d@),
                None => !(seq_to_map(self@.last().content)[document_key()] is Text),
            },
    {
        match self.item.get_raw(&document_key_name()) {
            Some(Value::String(s)) => Some(s),
            _ => None,
        }
    }
}

/// A typed projection asserting "this record provides the binary model".
pub struct BinaryModelView<F> {
    item: LazyObject<F>,
}

impl<F> View for BinaryModelView<F> {
    type V = Seq<LayerV>;

    closed spec fn view(&self) -> Seq<LayerV> {
        self.item@
    }
}

impl<F> BinaryModelView<F> {
    pub open spec fn wf(&self) -> bool {
        layers_wf(self@) && spec_provides_binary(self@)
    }

    /// Casts a record into the view; the record comes back unchanged on
    /// failure, and unchanged inside the view on success.
    pub fn __cast(item: LazyObject<F>) -> (r: Result<BinaryModelView<F>, LazyObject<F>>)
        requires
            item.wf(),
        ensures
            match r {
                Ok(v) => v@ == item@ && v.wf() && spec_provides_binary(item@),
                Err(e) => e@ == item@ && !spec_provides_binary(item@),
            },
    {
        match item.get_raw(&content_key_name()) {
            Some(_) => Ok(BinaryModelView { item }),
            None => Err(item),
        }
    }

    /// The record inside, unchanged: cast-then-inner is the identity.
    pub fn __into_inner(self) -> (r: LazyObject<F>)
        ensures
            r@ == self@,
    {
        self.item
    }

    /// Promotes a string-valued content field to binary in place — the
    /// documented string-to-binary coercion — and reports whether the field
    /// holds binary afterwards.
    pub fn content(&mut self) -> (r: bool)
        requires
            old(self).wf(),
        ensures
            final(self).wf(),
            final(self)@.len() == old(self)@.len(),
            final(self)@.drop_last() == old(self)@.drop_last(),
            final(self)@.last().models == old(self)@.last().models,
            final(self)@.last().pending == old(self)@.last().pending,
            (match seq_to_map(old(self)@.last().content)[content_key()] {
                ValueV::Text(t) => seq_to_map(final(self)@.last().content) == seq_to_map(
                    old(self)@.last().content,
                ).insert(content_key(), ValueV::Binary(t)),
                _ => final(self)@.last().content == old(self)@.last().content,
            }),
            r == (seq_to_map(final(self)@.last().content)[content_key()] is Binary),
    {
        let promote = match self.item.get_raw(&content_key_name()) {
            Some(Value::String(s)) => Some(clone_bytes(s)),
            _ => None,
        };
        match promote {
            Some(bytes) => {
                self.item.insert(content_key_name(), Value::Binary(Binary(bytes)));
            },
            None => {},
        }
        match self.item.get_raw(&content_key_name()) {
            Some(Value::Binary(_)) => true,
            _ => false,
        }
    }

    /// The content bytes, when the field holds binary.
    pub fn content_bytes(&self) -> (r: Option<&Vec<u8>>)
        requires
            self.wf(),
        ensures
            match r {
                Some(b) => seq_to_map(self@.last().content)[content_key()] == ValueV::Binary(b@),
                None => !(seq_to_map(self@.last().content)[content_key()] is Binary),
            },
    {
        match self.item.get_raw(&content_key_name()) {
            Some(Value::Binary(b)) => Some(&b.0),
            _ => None,
        }
    }

    /// Overwrites the content field with new bytes.
    pub fn set_content(&mut self, bytes: Vec<u8>)
        requires
            old(self).wf(),
        ensures
            final(self).wf(),
            final(self)@.len() == old(self)@.len(),
            final(self)@.drop_last() == old(self)@.drop_last(),
            seq_to_map(final(self)@.last().content) == seq_to_map(
                old(self)@.last().content,
            ).insert(content_key(), ValueV::Binary(bytes@)),
            final(self)@.last().models == old(self)@.last().models,
            final(self)@.last().pending == old(self)@.last().pending,
    {
        self.item.insert(content_key_name(), Value::Binary(Binary(bytes)));
    }
}

/// A typed projection asserting "this record provides the file model".
pub struct FileModelView<F> {
    item: LazyObject<F>,
}

impl<F> View for FileModelView<F> {
    type V = Seq<LayerV>;

    closed spec fn view(&self) -> Seq<LayerV> {
        self.item@
    }
}

impl<F> FileModelView<F> {
    pub open spec fn wf(&self) -> bool {
        layers_wf(self@) && spec_provides_file(self@)
    }

    /// Wraps a record after writing the given extension into its top layer.
    pub fn new(item: LazyObject<F>, extension: Vec<u8>) -> (r: FileModelView<F>)
        requires
            item.wf(),
        ensures
            r.wf(),
            r@.len() == item@.len(),
            r@.drop_last() == item@.drop_last(),
            seq_to_map(r@.last().content) == seq_to_map(item@.last().content).insert(
                extension_key(),
                ValueV::Text(extension@),
            ),
            r@.last().models == item@.last().models,
            r@.last().pending == item@.last().pending,
    {
        let mut item = item;
        item.insert(extension_key_name(), Value::String(extension));
        FileModelView { item }
    }

    /// Casts a record into the view; the record comes back unchanged on
    /// failure, and unchanged inside the view on success.
    pub fn __cast(item: LazyObject<F>) -> (r: Result<FileModelView<F>, LazyObject<F>>)
        requires
            item.wf(),
        ensures
            match r {
                Ok(v) => v@ == item@ && v.wf() && spec_provides_file(item@),
                Err(e) => e@ == item@ && !spec_provides_file(item@),
            },
    {
        match item.get_raw(&extension_key_name()) {
            Some(_) => Ok(FileModelView { item }),
            None => Err(item),
        }
    }

    /// The record inside, unchanged: cast-then-inner is the identity.
    pub fn __into_inner(self) -> (r: LazyObject<F>)
        ensures
            r@ == self@,
    {
        self.item
    }

    /// Overwrites the extension field.
    pub fn set_extension(&mut self, extension: Vec<u8>)
        requires
            old(self).wf(),
        ensures
            final(self).wf(),
            final(self)@.len() == old(self)@.len(),
            final(self)@.drop_last() == old(self)@.drop_last(),
            seq_to_map(final(self)@.last().content) == seq_to_map(
                old(self)@.last().content,
            ).insert(extension_key(), ValueV::Text(extension@)),
    {
        self.item.insert(extension_key_name(), Value::String(extension));
    }

    /// The extension text, when the field holds a string.
    pub fn extension(&self) -> (r: Option<&Vec<u8>>)
        requires
            self.wf(),
        ensures
            match r {
                Some(e) => seq_to_map(self@.last().content)[extension_key()] == ValueV::Text(e@),
                None => !(seq_to_map(self@.last().content)[extension_key()] is Text),
            },
    {
        match self.item.get_raw(&extension_key_name()) {
            Some(Value::String(s)) => Some(s),
            _ => None,
        }
    }
}

} // verus!
