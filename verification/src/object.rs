//! Layered, lazily materialisable records.
//!
//! A `LazyObject` is a non-empty stack of `ObjectLayer`s. Each layer carries
//! already-materialised content, an optional deferred producer whose result
//! is merged into that layer when resolved, and the set of model names the
//! layer asserts. The merged view of a record is the ordered merge of its
//! layers, a later layer overriding an earlier one.
//!
//! The deferred producer is opaque to this crate: the layer types are generic
//! over it, and a driver resolves producers with `take_deferred` and hands
//! the results back with `fulfill`. Everything the record's contents go
//! through — merging, flattening, replacement — is verified here.

use vstd::prelude::*;

use crate::ast::{seq_to_map, Object, Value, ValueV};

verus! {

/// A set of model names, kept as an ordered map with no payload so the
/// name sequence is canonical.
pub struct ModelSet {
    names: Object,
}

impl View for ModelSet {
    type V = Seq<(Seq<u8>, ValueV)>;

    closed spec fn view(&self) -> Seq<(Seq<u8>, ValueV)> {
        self.names@
    }
}

impl ModelSet {
    pub open spec fn wf(&self) -> bool {
        crate::ast::entries_sorted(self@)
    }

    /// The set of names asserted.
    pub open spec fn as_set(&self) -> Set<Seq<u8>> {
        seq_to_map(self@).dom()
    }

    /// The empty set.
    pub fn new() -> (r: ModelSet)
        ensures
            r.wf(),
            r@ == Seq::<(Seq<u8>, ValueV)>::empty(),
            r.as_set() == Set::<Seq<u8>>::empty(),
    {
        let r = ModelSet { names: Object::new() };
        proof {
            assert(r.as_set() =~= Set::<Seq<u8>>::empty());
        }
        r
    }

    /// The singleton set.
    pub fn single(name: Vec<u8>) -> (r: ModelSet)
        ensures
            r.wf(),
            r.as_set() == Set::<Seq<u8>>::empty().insert(name@),
    {
        let mut r = ModelSet::new();
        r.insert(name);
        proof {
            assert(r.as_set() =~= Set::<Seq<u8>>::empty().insert(name@));
        }
        r
    }

    /// Asserts one more name.
    pub fn insert(&mut self, name: Vec<u8>)
        requires
            old(self).wf(),
        ensures
            final(self).wf(),
            final(self).as_set() == old(self).as_set().insert(name@),
    {
        self.names.insert(name, Value::Null);
        proof {
            assert(self.as_set() =~= old(self).as_set().insert(name@));
        }
    }

    /// Whether a name is asserted.
    pub fn contains(&self, name: &Vec<u8>) -> (r: bool)
        requires
            self.wf(),
        ensures
            r == self.as_set().contains(name@),
    {
        match self.names.get(name) {
            Some(_) => true,
            None => false,
        }
    }

    /// Asserts every name of `other` as well.
    pub fn union_from(&mut self, other: ModelSet)
        requires
            old(self).wf(),
            other.wf(),
        ensures
            final(self).wf(),
            final(self).as_set() == old(self).as_set().union(other.as_set()),
            old(self)@.len() == 0 ==> final(self)@ == other@,
    {
        self.names.append(other.names);
        proof {
            assert(self.as_set() =~= old(self).as_set().union(other.as_set()));
        }
    }

    /// A structural copy whose view equals this one's.
    pub fn duplicate(&self) -> (r: ModelSet)
        ensures
            r@ == self@,
    {
        ModelSet { names: self.names.duplicate() }
    }

    /// The names in order.
    pub fn len(&self) -> (r: usize)
        ensures
            r == self@.len(),
    {
        self.names.len()
    }

    /// The name at a position.
    pub fn name_at(&self, i: usize) -> (r: &Vec<u8>)
        requires
            i < self@.len(),
        ensures
            r@ == self@[i as int].0,
    {
        self.names.key_at(i)
    }
}

/// Mathematical view of one layer: its content entries, the model-name
/// entries, and whether a deferred producer is still pending.
pub struct LayerV {
    pub content: Seq<(Seq<u8>, ValueV)>,
    pub models: Seq<(Seq<u8>, ValueV)>,
    pub pending: bool,
}

/// One layer of a lazy record. `F` is the deferred producer's type; the
/// crate never inspects it.
pub struct ObjectLayer<F> {
    content: Object,
    deferred: Option<F>,
    models: ModelSet,
}

impl<F> View for ObjectLayer<F> {
    type V = LayerV;

    closed spec fn view(&self) -> LayerV {
        LayerV { content: self.content@, models: self.models@, pending: self.deferred is Some }
    }
}

impl<F> ObjectLayer<F> {
    pub open spec fn wf(&self) -> bool {
        crate::ast::entries_sorted(self@.content) && crate::ast::entries_sorted(self@.models)
    }

    /// The map the layer's materialised content denotes.
    pub open spec fn content_map(&self) -> Map<Seq<u8>, ValueV> {
        seq_to_map(self@.content)
    }

    /// The model names the layer asserts.
    pub open spec fn model_set(&self) -> Set<Seq<u8>> {
        seq_to_map(self@.models).dom()
    }

    /// An empty, ready layer asserting the given models.
    pub fn empty(models: ModelSet) -> (r: ObjectLayer<F>)
        requires
            models.wf(),
        ensures
            r.wf(),
            r@.content == Seq::<(Seq<u8>, ValueV)>::empty(),
            r@.models == models@,
            !r@.pending,
    {
        ObjectLayer { content: Object::new(), deferred: None, models }
    }

    /// A ready layer with the given content and models.
    pub fn from_object(content: Object, models: ModelSet) -> (r: ObjectLayer<F>)
        requires
            content.wf(),
            models.wf(),
        ensures
            r.wf(),
            r@.content == content@,
            r@.models == models@,
            !r@.pending,
    {
        ObjectLayer { content, deferred: None, models }
    }

    /// A ready layer with the given content and no asserted models.
    pub fn from_object_dyn(content: Object) -> (r: ObjectLayer<F>)
        requires
            content.wf(),
        ensures
            r.wf(),
            r@.content == content@,
            r@.models == Seq::<(Seq<u8>, ValueV)>::empty(),
            !r@.pending,
    {
        ObjectLayer { content, deferred: None, models: ModelSet::new() }
    }

    /// The materialised content, without resolving any pending producer.
    pub fn as_content_unpolled(&self) -> (r: &Object)
        ensures
            r@ == self@.content,
    {
        &self.content
    }

    /// Read access to a field of the materialised content.
    pub fn get_raw(&self, key: &Vec<u8>) -> (r: Option<&Value>)
        requires
            self.wf(),
        ensures
            match r {
                Some(v) => self.content_map().contains_key(key@) && v@ == self.content_map()[key@],
                None => !self.content_map().contains_key(key@),
            },
    {
        self.content.get(key)
    }

    /// Writes a field of the materialised content, returning the value the
    /// key held before.
    pub fn insert(&mut self, key: Vec<u8>, value: Value) -> (prev: Option<Value>)
        requires
            old(self).wf(),
        ensures
            final(self).wf(),
            final(self).content_map() == old(self).content_map().insert(key@, value@),
            final(self)@.models == old(self)@.models,
            final(self)@.pending == old(self)@.pending,
            match prev {
                Some(v) => old(self).content_map().contains_key(key@) && v@ == old(
                    self,
                ).content_map()[key@],
                None => !old(self).content_map().contains_key(key@),
            },
    {
        self.content.insert(key, value)
    }

    /// Whether the layer has no pending producer.
    pub fn is_ready(&self) -> (r: bool)
        ensures
            r == !self@.pending,
    {
        match &self.deferred {
            Some(_) => false,
            None => true,
        }
    }

    /// The model names the layer asserts.
    pub fn models(&self) -> (r: &ModelSet)
        ensures
            r@ == self@.models,
    {
        &self.models
    }

    /// The pretty document of the materialised content.
    pub fn to_string_pretty(&self) -> (r: Vec<u8>)
        ensures
            r@ == crate::json::encode_pretty(self@.content),
    {
        self.content.to_string_pretty()
    }

    /// Merges another layer's content and models into this one; the other
    /// layer's entries win on key collisions. Pending producers of either
    /// layer play no part: the other layer's producer is dropped.
    pub fn merge_without_future(&mut self, other: ObjectLayer<F>)
        requires
            old(self).wf(),
            other.wf(),
        ensures
            final(self).wf(),
            final(self).content_map() == old(self).content_map().union_prefer_right(
                other.content_map(),
            ),
            final(self).model_set() == old(self).model_set().union(other.model_set()),
            final(self)@.pending == old(self)@.pending,
            old(self)@.content.len() == 0 ==> final(self)@.content == other@.content,
            old(self)@.models.len() == 0 ==> final(self)@.models == other@.models,
    {
        self.content.append(other.content);
        self.models.union_from(other.models);
        proof {
            assert(self.model_set() =~= old(self).model_set().union(other.model_set()));
        }
    }
}

/// Mathematical merge of a layer stack's contents, a later layer overriding
/// an earlier one.
pub open spec fn merged_content(ls: Seq<LayerV>) -> Map<Seq<u8>, ValueV>
    decreases ls.len(),
{
    if ls.len() == 0 {
        Map::empty()
    } else {
        merged_content(ls.drop_last()).union_prefer_right(seq_to_map(ls.last().content))
    }
}

/// Mathematical union of a layer stack's model sets.
pub open spec fn merged_models(ls: Seq<LayerV>) -> Set<Seq<u8>>
    decreases ls.len(),
{
    if ls.len() == 0 {
        Set::empty()
    } else {
        merged_models(ls.drop_last()).union(seq_to_map(ls.last().models).dom())
    }
}

/// Every layer is ready.
pub open spec fn layers_ready(ls: Seq<LayerV>) -> bool {
    forall|i: int| 0 <= i < ls.len() ==> !(#[trigger] ls[i]).pending
}

/// A well-formed layer stack: non-empty, every layer's content and model
/// entries sorted.
pub open spec fn layers_wf(ls: Seq<LayerV>) -> bool {
    &&& ls.len() > 0
    &&& forall|i: int|
        0 <= i < ls.len() ==> crate::ast::entries_sorted((#[trigger] ls[i]).content)
            && crate::ast::entries_sorted(ls[i].models)
}

/// The views of a layer stack.
pub open spec fn layers_view<F>(ls: Seq<ObjectLayer<F>>) -> Seq<LayerV> {
    ls.map_values(|l: ObjectLayer<F>| l@)
}

/// A layered record with possibly-deferred content. The layer stack is
/// never empty; the top layer is the write target.
pub struct LazyObject<F> {
    layers: Vec<ObjectLayer<F>>,
}

impl<F> View for LazyObject<F> {
    type V = Seq<LayerV>;

    closed spec fn view(&self) -> Seq<LayerV> {
        layers_view(self.layers@)
    }
}

impl<F> LazyObject<F> {
    pub open spec fn wf(&self) -> bool {
        layers_wf(self@)
    }

    /// The record's conceptual merged content.
    pub open spec fn merged(&self) -> Map<Seq<u8>, ValueV> {
        merged_content(self@)
    }

    /// The union of the layers' model assertions.
    pub open spec fn models(&self) -> Set<Seq<u8>> {
        merged_models(self@)
    }

    /// A single-layer record.
    pub fn from_layer(layer: ObjectLayer<F>) -> (r: LazyObject<F>)
        requires
            layer.wf(),
        ensures
            r.wf(),
            r@ == seq![layer@],
    {
        let mut layers: Vec<ObjectLayer<F>> = Vec::new();
        layers.push(layer);
        let r = LazyObject { layers };
        proof {
            assert(r@ =~= seq![layer@]);
        }
        r
    }

    pub fn layer_count(&self) -> (r: usize)
        ensures
            r == self@.len(),
    {
        self.layers.len()
    }

    /// Whether every layer is ready.
    pub fn is_ready(&self) -> (r: bool)
        ensures
            r == layers_ready(self@),
    {
        let mut i: usize = 0;
        while i < self.layers.len()
            invariant
                0 <= i <= self@.len(),
                self@.len() == self.layers@.len(),
                forall|j: int| 0 <= j < i ==> !(#[trigger] self@[j]).pending,
            decreases self@.len() - i,
        {
            if !self.layers[i].is_ready() {
                proof {
                    assert(self@[i as int].pending);
                }
                return false;
            }
            i = i + 1;
        }
        true
    }

    /// Pushes a layer unconditionally.
    pub fn append_layer(&mut self, layer: ObjectLayer<F>)
        requires
            old(self).wf(),
            layer.wf(),
        ensures
            final(self).wf(),
            final(self)@ == old(self)@.push(layer@),
    {
        self.layers.push(layer);
        proof {
            assert(self@ =~= old(self)@.push(layer@));
        }
    }

    /// Attaches a deferred producer: onto the top layer when that layer is
    /// ready (extending its models), else as a new layer of its own.
    pub fn append_future(&mut self, future: F, models: ModelSet)
        requires
            old(self).wf(),
            models.wf(),
        ensures
            final(self).wf(),
            old(self)@.last().pending ==> final(self)@ == old(self)@.push(
                LayerV {
                    content: Seq::empty(),
                    models: models@,
                    pending: true,
                },
            ),
            !old(self)@.last().pending ==> {
                &&& final(self)@.len() == old(self)@.len()
                &&& final(self)@.drop_last() == old(self)@.drop_last()
                &&& final(self)@.last().content == old(self)@.last().content
                &&& seq_to_map(final(self)@.last().models).dom() == seq_to_map(
                    old(self)@.last().models,
                ).dom().union(seq_to_map(models@).dom())
                &&& final(self)@.last().pending
            },
    {
        let mut top = match self.layers.pop() {
            Some(t) => t,
            None => {
                proof {
                    assert(false);
                }
                ObjectLayer::empty(ModelSet::new())
            },
        };
        proof {
            assert(top@ == old(self)@.last());
            assert(top.wf());
        }
        if top.is_ready() {
            top.deferred = Some(future);
            top.models.union_from(models);
            let ghost topv = top@;
            self.layers.push(top);
            proof {
                assert(self@ =~= old(self)@.drop_last().push(topv));
                assert(self@.drop_last() =~= old(self)@.drop_last());
                assert(self@.last() == topv);
                assert forall|i: int| 0 <= i < self@.len() implies crate::ast::entries_sorted(
                    (#[trigger] self@[i]).content,
                ) && crate::ast::entries_sorted(self@[i].models) by {
                    if i < self@.len() - 1 {
                        assert(self@[i] == old(self)@[i]);
                    }
                }
            }
        } else {
            self.layers.push(top);
            let fresh = ObjectLayer { content: Object::new(), deferred: Some(future), models };
            self.layers.push(fresh);
            proof {
                assert(self@ =~= old(self)@.push(
                    LayerV { content: Seq::empty(), models: models@, pending: true },
                ));
                assert forall|i: int| 0 <= i < self@.len() implies crate::ast::entries_sorted(
                    (#[trigger] self@[i]).content,
                ) && crate::ast::entries_sorted(self@[i].models) by {
                    if i < self@.len() - 1 {
                        assert(self@[i] == old(self)@[i]);
                    }
                }
            }
        }
    }

    /// Takes the pending producer of the layer at a position, if any,
    /// leaving the layer ready.
    pub fn take_deferred(&mut self, i: usize) -> (r: Option<F>)
        requires
            old(self).wf(),
            i < old(self)@.len(),
        ensures
            final(self).wf(),
            final(self)@.len() == old(self)@.len(),
            forall|j: int|
                0 <= j < old(self)@.len() && j != i ==> final(self)@[j] == (
                #[trigger] old(self)@[j]),
            final(self)@[i as int].content == old(self)@[i as int].content,
            final(self)@[i as int].models == old(self)@[i as int].models,
            !final(self)@[i as int].pending,
            r is Some <==> old(self)@[i as int].pending,
    {
        let ghost before = self.layers@;
        let mut layer = self.layers.remove(i);
        proof {
            assert(layer@ == old(self)@[i as int]);
        }
        let d = layer.deferred;
        layer.deferred = None;
        self.layers.insert(i, layer);
        proof {
            assert(self.layers@ =~= before.update(i as int, self.layers@[i as int]));
            assert forall|j: int| 0 <= j < old(self)@.len() && j != i implies self@[j] == (
            #[trigger] old(self)@[j]) by {
                assert(self.layers@[j] == before[j]);
            }
            assert(self@[i as int].content == old(self)@[i as int].content);
            assert forall|j: int| 0 <= j < self@.len() implies crate::ast::entries_sorted(
                (#[trigger] self@[j]).content,
            ) && crate::ast::entries_sorted(self@[j].models) by {
                if j != i {
                    assert(self@[j] == old(self)@[j]);
                }
            }
        }
        d
    }

    /// Hands a resolved producer's object back to the layer it belonged to:
    /// the object is merged into that layer's content, the object's fields
    /// winning on key collisions.
    pub fn fulfill(&mut self, i: usize, resolved: Object)
        requires
            old(self).wf(),
            i < old(self)@.len(),
            resolved.wf(),
        ensures
            final(self).wf(),
            final(self)@.len() == old(self)@.len(),
            forall|j: int|
                0 <= j < old(self)@.len() && j != i ==> final(self)@[j] == (
                #[trigger] old(self)@[j]),
            seq_to_map(final(self)@[i as int].content) == seq_to_map(
                old(self)@[i as int].content,
            ).union_prefer_right(seq_to_map(resolved@)),
            final(self)@[i as int].models == old(self)@[i as int].models,
            final(self)@[i as int].pending == old(self)@[i as int].pending,
    {
        let ghost before = self.layers@;
        let mut layer = self.layers.remove(i);
        proof {
            assert(layer@ == old(self)@[i as int]);
        }
        layer.content.append(resolved);
        self.layers.insert(i, layer);
        proof {
            assert(self.layers@ =~= before.update(i as int, self.layers@[i as int]));
            assert forall|j: int| 0 <= j < old(self)@.len() && j != i implies self@[j] == (
            #[trigger] old(self)@[j]) by {
                assert(self.layers@[j] == before[j]);
            }
            assert forall|j: int| 0 <= j < self@.len() implies crate::ast::entries_sorted(
                (#[trigger] self@[j]).content,
            ) && crate::ast::entries_sorted(self@[j].models) by {
                if j != i {
                    assert(self@[j] == old(self)@[j]);
                }
            }
        }
    }

    /// The ordered merge of all layers into one ready layer: a later layer's
    /// fields and models win over an earlier one's. Pending producers are
    /// discarded.
    pub fn flatten_without_futures(self) -> (r: ObjectLayer<F>)
        requires
            self.wf(),
        ensures
            r.wf(),
            !r@.pending,
            seq_to_map(r@.content) == merged_content(self@),
            seq_to_map(r@.models).dom() == merged_models(self@),
    {
        let ghost orig = self@;
        let mut rest = self.layers;
        let mut acc: ObjectLayer<F> = ObjectLayer {
            content: Object::new(),
            deferred: None,
            models: ModelSet::new(),
        };
        let ghost mut k: int = 0;
        proof {
            assert(orig.take(0) =~= Seq::<LayerV>::empty());
            assert(acc.content_map() =~= merged_content(orig.take(0)));
            assert(acc.model_set() =~= merged_models(orig.take(0)));
            assert(layers_view(rest@) =~= orig.skip(0));
        }
        while rest.len() > 0
            invariant
                acc.wf(),
                !acc@.pending,
                k + rest@.len() == orig.len(),
                0 <= k <= orig.len(),
                layers_view(rest@) == orig.skip(k),
                acc.content_map() == merged_content(orig.take(k)),
                acc.model_set() == merged_models(orig.take(k)),
                forall|i: int|
                    0 <= i < orig.len() ==> crate::ast::entries_sorted(
                        (#[trigger] orig[i]).content,
                    ) && crate::ast::entries_sorted(orig[i].models),
            decreases rest@.len(),
        {
            let ghost rest_before = rest@;
            let layer = rest.remove(0);
            proof {
                assert(layer@ == layers_view(rest_before)[0]);
                assert(layers_view(rest_before)[0] == orig.skip(k)[0]);
                assert(orig.skip(k)[0] == orig[k]);
                assert(layers_view(rest@) =~= layers_view(rest_before).drop_first());
                assert(layers_view(rest_before).drop_first() =~= orig.skip(k + 1));
                assert(layer.wf());
            }
            acc.merge_without_future(layer);
            proof {
                assert(orig.take(k + 1).drop_last() =~= orig.take(k));
                assert(orig.take(k + 1).last() == orig[k]);
                k = k + 1;
            }
        }
        proof {
            assert(orig.take(orig.len() as int) =~= orig);
        }
        acc
    }

    /// Flattens the already-materialised portion, discards pending
    /// producers, and attaches the supplied producer to the single remaining
    /// layer. This is the cache-hit substitution.
    pub fn replace_with(self, future: F) -> (r: LazyObject<F>)
        requires
            self.wf(),
        ensures
            r.wf(),
            r@.len() == 1,
            seq_to_map(r@[0].content) == merged_content(self@),
            seq_to_map(r@[0].models).dom() == merged_models(self@),
            r@[0].pending,
    {
        let ghost orig = self@;
        let mut layer = self.flatten_without_futures();
        layer.deferred = Some(future);
        let mut layers: Vec<ObjectLayer<F>> = Vec::new();
        layers.push(layer);
        let r = LazyObject { layers };
        proof {
            assert(r@ =~= seq![layer@]);
        }
        r
    }

    /// The top layer's materialised content.
    pub fn top_content(&self) -> (r: &Object)
        requires
            self.wf(),
        ensures
            r@ == self@.last().content,
    {
        let n = self.layers.len();
        proof {
            assert(self@[n - 1] == self@.last());
        }
        self.layers[n - 1].as_content_unpolled()
    }

    /// Read access to a field of the top layer's materialised content.
    pub fn get_raw(&self, key: &Vec<u8>) -> (r: Option<&Value>)
        requires
            self.wf(),
        ensures
            match r {
                Some(v) => seq_to_map(self@.last().content).contains_key(key@) && v@ == seq_to_map(
                    self@.last().content,
                )[key@],
                None => !seq_to_map(self@.last().content).contains_key(key@),
            },
    {
        let n = self.layers.len();
        proof {
            assert(self@[n - 1] == self@.last());
        }
        self.layers[n - 1].get_raw(key)
    }

    /// Writes a field of the top layer's materialised content.
    pub fn insert(&mut self, key: Vec<u8>, value: Value) -> (prev: Option<Value>)
        requires
            old(self).wf(),
        ensures
            final(self).wf(),
            final(self)@.len() == old(self)@.len(),
            final(self)@.drop_last() == old(self)@.drop_last(),
            seq_to_map(final(self)@.last().content) == seq_to_map(
                old(self)@.last().content,
            ).insert(key@, value@),
            final(self)@.last().models == old(self)@.last().models,
            final(self)@.last().pending == old(self)@.last().pending,
    {
        let n = self.layers.len();
        let mut top = match self.layers.pop() {
            Some(t) => t,
            None => {
                proof {
                    assert(false);
                }
                ObjectLayer::empty(ModelSet::new())
            },
        };
        proof {
            assert(top@ == old(self)@.last());
        }
        let prev = top.insert(key, value);
        let ghost topv = top@;
        self.layers.push(top);
        proof {
            assert(self@ =~= old(self)@.drop_last().push(topv));
            assert(self@.drop_last() =~= old(self)@.drop_last());
            assert(self@.last() == topv);
            assert forall|i: int| 0 <= i < self@.len() implies crate::ast::entries_sorted(
                (#[trigger] self@[i]).content,
            ) && crate::ast::entries_sorted(self@[i].models) by {
                if i < self@.len() - 1 {
                    assert(self@[i] == old(self)@[i]);
                }
            }
        }
        prev
    }
}

/// Flattening is idempotent: flattening a record that is already the result
/// of a flatten changes neither its content nor its models.
pub proof fn lemma_flatten_idempotent(flat: LayerV)
    ensures
        merged_content(seq![flat]) == seq_to_map(flat.content),
        merged_models(seq![flat]) == seq_to_map(flat.models).dom(),
{
    assert(seq![flat].drop_last() =~= Seq::<LayerV>::empty());
    assert(seq![flat].last() == flat);
    assert(merged_content(Seq::<LayerV>::empty()) == Map::<Seq<u8>, ValueV>::empty());
    assert(merged_models(Seq::<LayerV>::empty()) == Set::<Seq<u8>>::empty());
    assert(Map::<Seq<u8>, ValueV>::empty().union_prefer_right(seq_to_map(flat.content))
        =~= seq_to_map(flat.content));
    assert(Set::<Seq<u8>>::empty().union(seq_to_map(flat.models).dom()) =~= seq_to_map(
        flat.models,
    ).dom());
}

} // verus!
