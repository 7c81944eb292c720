//! Content hashing and the hash model view.
//!
//! A record's identity is the base58 (Bitcoin alphabet) rendering of the
//! Blake2s-256 digest of its canonical bytes. The digest and the base58
//! encoding are outside computations; each is taken on trust behind one
//! wrapper whose result is named, and everything built on top of them is
//! verified against those names.

use vstd::prelude::*;

use blake2::Digest;

use crate::ast::{clone_bytes, seq_to_map, Object, Value, ValueV};
use crate::object::{LayerV, LazyObject, ModelSet, ObjectLayer};
use crate::session::hash_bytes;

verus! {

/// The Blake2s-256 digest of a byte string.
pub uninterp spec fn blake2s_digest(data: Seq<u8>) -> Seq<u8>;

/// The base58 (Bitcoin alphabet) rendering of a byte string.
pub uninterp spec fn base58_text(data: Seq<u8>) -> Seq<u8>;

/// The content hash text: base58 over the Blake2s-256 digest.
pub open spec fn hash_text_of(data: Seq<u8>) -> Seq<u8> {
    base58_text(blake2s_digest(data))
}

/// Relies on blake2's `Blake2s256`: the digest depends on the input bytes
/// alone and is 32 bytes long.
#[verifier::external_body]
fn blake2s(data: &Vec<u8>) -> (r: Vec<u8>)
    ensures
        r@ == blake2s_digest(data@),
        r@.len() == 32,
{
    blake2::Blake2s256::digest(data.as_slice()).to_vec()
}

/// Relies on bs58's encode with the Bitcoin alphabet: the text depends on
/// the input bytes alone.
#[verifier::external_body]
fn base58(data: &Vec<u8>) -> (r: Vec<u8>)
    ensures
        r@ == base58_text(data@),
{
    bs58::encode(data.as_slice()).with_alphabet(bs58::Alphabet::BITCOIN).into_vec()
}

/// A content hash: the canonical on-disk identifier of an object.
pub struct Hash(pub Vec<u8>);

impl View for Hash {
    type V = Seq<u8>;

    open spec fn view(&self) -> Seq<u8> {
        self.0@
    }
}

impl Hash {
    /// The content hash of a byte string.
    pub fn digest(data: &Vec<u8>) -> (r: Hash)
        ensures
            r@ == hash_text_of(data@),
    {
        Hash(base58(&blake2s(data)))
    }

    /// A structural copy whose view equals this one's.
    pub fn duplicate(&self) -> (r: Hash)
        ensures
            r@ == self@,
    {
        Hash(clone_bytes(&self.0))
    }
}

/// Anything exposing a canonical byte view is hashable.
pub trait Hashable {
    spec fn bytes_view(&self) -> Seq<u8>;

    fn as_bytes(&self) -> (r: &Vec<u8>)
        ensures
            r@ == self.bytes_view(),
    ;
}

impl Hashable for Vec<u8> {
    open spec fn bytes_view(&self) -> Seq<u8> {
        self@
    }

    fn as_bytes(&self) -> (r: &Vec<u8>) {
        self
    }
}

impl Hashable for crate::ast::Binary {
    open spec fn bytes_view(&self) -> Seq<u8> {
        self@
    }

    fn as_bytes(&self) -> (r: &Vec<u8>) {
        &self.0
    }
}

/// The content hash of anything hashable.
pub fn digest_string<T: Hashable>(hashable: &T) -> (r: Hash)
    ensures
        r@ == hash_text_of(hashable.bytes_view()),
{
    Hash::digest(hashable.as_bytes())
}

/// A plain record carrying only a hash field.
pub struct HashModelObject {
    pub hash: Vec<u8>,
}

impl HashModelObject {
    /// The record as a ready layer asserting the hash model.
    pub fn into_layer<F>(self) -> (r: ObjectLayer<F>)
        ensures
            r.wf(),
            !r@.pending,
            seq_to_map(r@.content) == Map::<Seq<u8>, ValueV>::empty().insert(
                hash_bytes(),
                ValueV::Text(self.hash@),
            ),
            seq_to_map(r@.models).dom() == Set::<Seq<u8>>::empty().insert(hash_bytes()),
    {
        let mut content = Object::new();
        content.insert(crate::session::hash_name(), Value::String(self.hash));
        ObjectLayer::from_object(content, __provides())
    }
}

/// The model-name set of the hash model.
pub fn __provides() -> (r: ModelSet)
    ensures
        r.wf(),
        r.as_set() == Set::<Seq<u8>>::empty().insert(hash_bytes()),
{
    ModelSet::single(crate::session::hash_name())
}

/// A record provides the hash model when its top layer carries the hash
/// field.
pub open spec fn spec_provides_hash(layers: Seq<LayerV>) -> bool {
    seq_to_map(layers.last().content).contains_key(hash_bytes())
}

/// Validates the hash model against a record.
pub fn __validate<F>(item: &LazyObject<F>) -> (r: bool)
    requires
        item.wf(),
    ensures
        r == spec_provides_hash(item@),
{
    match item.get_raw(&crate::session::hash_name()) {
        Some(_) => true,
        None => false,
    }
}

/// A typed projection asserting "this record provides the hash model".
pub struct HashModelView<F> {
    item: LazyObject<F>,
}

impl<F> View for HashModelView<F> {
    type V = Seq<LayerV>;

    closed spec fn view(&self) -> Seq<LayerV> {
        self.item@
    }
}

impl<F> HashModelView<F> {
    pub open spec fn wf(&self) -> bool {
        crate::object::layers_wf(self@) && spec_provides_hash(self@)
    }

    /// The stored hash text, when the hash field holds a string.
    pub open spec fn spec_hash(&self) -> Seq<u8>
        recommends
            self.wf(),
    {
        match seq_to_map(self@.last().content)[hash_bytes()] {
            ValueV::Text(t) => t,
            _ => Seq::empty(),
        }
    }

    /// Casts a record into the view; the record comes back unchanged on
    /// failure, and unchanged inside the view on success.
    pub fn __cast(item: LazyObject<F>) -> (r: Result<HashModelView<F>, LazyObject<F>>)
        requires
            item.wf(),
        ensures
            match r {
                Ok(v) => v@ == item@ && v.wf() && spec_provides_hash(item@),
                Err(e) => e@ == item@ && !spec_provides_hash(item@),
            },
    {
        if __validate(&item) {
            Ok(HashModelView { item })
        } else {
            Err(item)
        }
    }

    /// The record inside, unchanged: cast-then-inner is the identity.
    pub fn __into_inner(self) -> (r: LazyObject<F>)
        ensures
            r@ == self@,
    {
        self.item
    }

    /// Wraps a layer after writing the given hash text into it.
    pub fn from_owned(layer: ObjectLayer<F>, hash: Hash) -> (r: HashModelView<F>)
        requires
            layer.wf(),
        ensures
            r.wf(),
            r@.len() == 1,
            seq_to_map(r@[0].content) == seq_to_map(layer@.content).insert(
                hash_bytes(),
                ValueV::Text(hash@),
            ),
            r@[0].models == layer@.models,
            r@[0].pending == layer@.pending,
            r.spec_hash() == hash@,
    {
        let mut layer = layer;
        layer.insert(crate::session::hash_name(), Value::String(hash.0));
        let item = LazyObject::from_layer(layer);
        proof {
            assert(item@.last() == item@[0]);
        }
        HashModelView { item }
    }

    /// A fresh record whose identity is the content hash of the given
    /// bytes: a single ready layer asserting the hash model, whose content
    /// is exactly the hash field.
    pub fn new(hashable: &Vec<u8>) -> (r: HashModelView<F>)
        ensures
            r.wf(),
            r@.len() == 1,
            r.spec_hash() == hash_text_of(hashable@),
            seq_to_map(r@[0].content) == Map::<Seq<u8>, ValueV>::empty().insert(
                hash_bytes(),
                ValueV::Text(hash_text_of(hashable@)),
            ),
            seq_to_map(r@[0].models).dom() == Set::<Seq<u8>>::empty().insert(hash_bytes()),
            !r@[0].pending,
    {
        let layer: ObjectLayer<F> = ObjectLayer::empty(__provides());
        let r = Self::from_owned(layer, Hash::digest(hashable));
        proof {
            assert(seq_to_map(Seq::<(Seq<u8>, ValueV)>::empty()) =~= Map::<
                Seq<u8>,
                ValueV,
            >::empty());
        }
        r
    }

    /// Whether every layer of the record is ready.
    pub fn is_ready(&self) -> (r: bool)
        requires
            self.wf(),
        ensures
            r == crate::object::layers_ready(self@),
    {
        self.item.is_ready()
    }

    /// The raw hash field.
    pub fn hash_raw(&self) -> (r: &Value)
        requires
            self.wf(),
        ensures
            r@ == seq_to_map(self@.last().content)[hash_bytes()],
    {
        match self.item.get_raw(&crate::session::hash_name()) {
            Some(v) => v,
            None => {
                proof {
                    assert(false);
                }
                &Value::Null
            },
        }
    }

    /// The hash text, copied; the hash field must hold a string.
    pub fn hash(&self) -> (r: Hash)
        requires
            self.wf(),
            seq_to_map(self@.last().content)[hash_bytes()] is Text,
        ensures
            r@ == self.spec_hash(),
    {
        match self.item.get_raw(&crate::session::hash_name()) {
            Some(Value::String(s)) => Hash(clone_bytes(s)),
            _ => {
                proof {
                    assert(false);
                }
                Hash(Vec::new())
            },
        }
    }

    /// The hash text when the hash field holds a string, else nothing.
    pub fn hash_text(&self) -> (r: Option<Hash>)
        requires
            self.wf(),
        ensures
            match r {
                Some(h) => seq_to_map(self@.last().content)[hash_bytes()] is Text && h@
                    == self.spec_hash(),
                None => !(seq_to_map(self@.last().content)[hash_bytes()] is Text),
            },
    {
        match self.item.get_raw(&crate::session::hash_name()) {
            Some(Value::String(s)) => Some(Hash(clone_bytes(s))),
            _ => None,
        }
    }

    /// Overwrites the raw hash field.
    pub fn hash_mut_raw(&mut self, value: Value)
        requires
            old(self).wf(),
        ensures
            final(self).wf(),
            final(self)@.len() == old(self)@.len(),
            final(self)@.drop_last() == old(self)@.drop_last(),
            seq_to_map(final(self)@.last().content) == seq_to_map(
                old(self)@.last().content,
            ).insert(hash_bytes(), value@),
    {
        self.item.insert(crate::session::hash_name(), value);
    }
}

} // verus!
