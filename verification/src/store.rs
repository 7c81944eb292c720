//! The content-addressed store: the save pass's decisions and the local
//! filesystem store's configuration and key-to-path mapping.
//!
//! The save pass walks the records of a channel in order. A record that does
//! not carry a hash is forwarded unchanged. For a hashed record the store is
//! consulted: on a hit, a ready record has its materialisation replaced by a
//! deferred fetch, while a record with pending work is forwarded unchanged
//! (the cached bytes exist, but the pending producer carries semantics that
//! must not be dropped); on a miss, the record is flattened, written, and
//! the flattened record forwarded. Reading, writing and probing the store
//! are a driver's business; every decision and every record transformation
//! is verified here.

use vstd::prelude::*;

use crate::ast::{seq_to_map, Object, Value, ValueV};
use crate::error::PipeError;
use crate::grammar::{B_DOT, B_LA, B_LC, B_LE, B_LH, B_LJ, B_LN, B_LO, B_LS, B_SLASH};
use crate::object::{merged_content, merged_models, LayerV};

verus! {

/// What the save pass does with one record.
#[derive(Copy, Clone, PartialEq, Eq, Structural)]
pub enum SaveAction {
    /// Forward the record unchanged.
    Forward,
    /// Replace the record's materialisation with a deferred store fetch.
    ReplaceFetch,
    /// Flatten the record, write it to the store, forward the flat record.
    WriteThrough,
}

/// The save rule of one record, from what is known of it: whether it
/// carries a hash, whether the store holds that hash, and whether the
/// record is fully materialised.
pub open spec fn spec_save_action(has_hash: bool, contains: bool, ready: bool) -> SaveAction {
    if !has_hash {
        SaveAction::Forward
    } else if contains {
        if ready {
            SaveAction::ReplaceFetch
        } else {
            SaveAction::Forward
        }
    } else {
        SaveAction::WriteThrough
    }
}

/// Decides what the save pass does with one record.
pub fn save_action(has_hash: bool, contains: bool, ready: bool) -> (r: SaveAction)
    ensures
        r == spec_save_action(has_hash, contains, ready),
{
    if !has_hash {
        SaveAction::Forward
    } else if contains {
        if ready {
            SaveAction::ReplaceFetch
        } else {
            SaveAction::Forward
        }
    } else {
        SaveAction::WriteThrough
    }
}

/// Save fidelity: whatever action the save pass takes, the record it emits
/// flattens to the content of the record that went in. A forwarded record
/// is unchanged. A written-through record is emitted as its own flattening,
/// which is idempotent. On a hit the record's materialisation becomes a
/// deferred fetch; when the store returns exactly the record's flattened
/// content, merging the fetched object over the flattened record changes
/// nothing.
pub proof fn lemma_save_fidelity(record: Seq<LayerV>, flat: LayerV, fetched: Map<Seq<u8>, ValueV>)
    requires
        seq_to_map(flat.content) == merged_content(record),
        seq_to_map(flat.models).dom() == merged_models(record),
        fetched == merged_content(record),
    ensures
        merged_content(seq![flat]) == merged_content(record),
        merged_models(seq![flat]) == merged_models(record),
        merged_content(record).union_prefer_right(fetched) == merged_content(record),
{
    crate::object::lemma_flatten_idempotent(flat);
    assert(merged_content(record).union_prefer_right(fetched) =~= merged_content(record));
}

/// What is known of one record when the save pass has consulted the
/// store: whether the record carries a hash, whether the store holds that
/// hash, and — on a hit — the content the deferred fetch later returns.
pub struct SaveOutcomeV {
    pub has_hash: bool,
    pub contains: bool,
    pub fetched: Map<Seq<u8>, ValueV>,
}

/// The flattened content of the record the save pass emits for one input
/// record: unchanged when forwarded, its own flattening when written
/// through (idempotent), and the flattened record overridden by the
/// fetched object on a hit.
pub open spec fn spec_save_emit(record: Seq<LayerV>, outcome: SaveOutcomeV) -> Map<Seq<u8>, ValueV> {
    match spec_save_action(
        outcome.has_hash,
        outcome.contains,
        crate::object::layers_ready(record),
    ) {
        SaveAction::Forward => merged_content(record),
        SaveAction::WriteThrough => merged_content(record),
        SaveAction::ReplaceFetch => merged_content(record).union_prefer_right(outcome.fetched),
    }
}

/// Save fidelity over a whole pass: the save rule emits exactly one record
/// per input record, in input order — `spec_save_emit` is a function of the
/// record at each position — and wherever the store's fetch on a hit
/// returns exactly the record's flattened content, every emitted record
/// flattens to the content of the record that went in.
pub proof fn lemma_save_pass_fidelity(records: Seq<Seq<LayerV>>, outcomes: Seq<SaveOutcomeV>)
    requires
        outcomes.len() == records.len(),
        forall|i: int|
            0 <= i < records.len() && spec_save_action(
                (#[trigger] outcomes[i]).has_hash,
                outcomes[i].contains,
                crate::object::layers_ready(records[i]),
            ) == SaveAction::ReplaceFetch ==> outcomes[i].fetched == merged_content(records[i]),
    ensures
        forall|i: int|
            0 <= i < records.len() ==> #[trigger] spec_save_emit(records[i], outcomes[i])
                == merged_content(records[i]),
{
    assert forall|i: int| 0 <= i < records.len() implies #[trigger] spec_save_emit(
        records[i],
        outcomes[i],
    ) == merged_content(records[i]) by {
        let action = spec_save_action(
            outcomes[i].has_hash,
            outcomes[i].contains,
            crate::object::layers_ready(records[i]),
        );
        if action == SaveAction::ReplaceFetch {
            assert(merged_content(records[i]).union_prefer_right(outcomes[i].fetched)
                =~= merged_content(records[i]));
        }
    }
}

/// The default base directory of the local store.
pub open spec fn caches_bytes() -> Seq<u8> {
    seq![B_LC, B_LA, B_LC, B_LH, B_LE, B_LS]
}

/// The `.json` suffix of a stored object's file name.
pub open spec fn json_suffix() -> Seq<u8> {
    seq![B_DOT, B_LJ, B_LS, B_LO, B_LN]
}

/// The file a hash is stored under: `{base}/{hash}.json`.
pub open spec fn spec_store_path(base: Seq<u8>, hash: Seq<u8>) -> Seq<u8> {
    base + seq![B_SLASH] + hash + json_suffix()
}

/// The local filesystem store: a flat directory of `{hash}.json` files.
pub struct LocalStore {
    path: Vec<u8>,
}

impl View for LocalStore {
    type V = Seq<u8>;

    closed spec fn view(&self) -> Seq<u8> {
        self.path@
    }
}

impl LocalStore {
    /// The default base directory.
    pub fn default_path() -> (r: Vec<u8>)
        ensures
            r@ == caches_bytes(),
    {
        let mut v: Vec<u8> = Vec::new();
        v.push(B_LC);
        v.push(B_LA);
        v.push(B_LC);
        v.push(B_LH);
        v.push(B_LE);
        v.push(B_LS);
        proof {
            assert(v@ =~= caches_bytes());
        }
        v
    }

    /// A store rooted at the given base directory.
    pub fn at(path: Vec<u8>) -> (r: LocalStore)
        ensures
            r@ == path@,
    {
        LocalStore { path }
    }

    /// Reads the store's configuration from a plan's arguments: the `path`
    /// argument when it is present and holds text, else the default base
    /// directory. A present but non-text `path` is a build error.
    pub fn from_args(args: &Object) -> (r: Result<LocalStore, PipeError>)
        requires
            args.wf(),
        ensures
            match r {
                Ok(store) => (if args.as_map().contains_key(crate::nodes::path_key()) {
                    args.as_map()[crate::nodes::path_key()] == ValueV::Text(store@)
                } else {
                    store@ == caches_bytes()
                }),
                Err(e) => args.as_map().contains_key(crate::nodes::path_key()) && !(
                args.as_map()[crate::nodes::path_key()] is Text) && e matches
                    PipeError::BuildError { .. },
            },
    {
        match args.get(&crate::nodes::path_key_name()) {
            Some(Value::String(s)) => Ok(LocalStore { path: crate::ast::clone_bytes(s) }),
            Some(_) => Err(PipeError::BuildError { index: 0 }),
            None => Ok(LocalStore { path: Self::default_path() }),
        }
    }

    /// The base directory.
    pub fn path_base(&self) -> (r: &Vec<u8>)
        ensures
            r@ == self@,
    {
        &self.path
    }

    /// The file a hash is stored under.
    pub fn path(&self, hash: &crate::hash::Hash) -> (r: Vec<u8>)
        ensures
            r@ == spec_store_path(self@, hash@),
    {
        let mut v = crate::ast::clone_bytes(&self.path);
        v.push(B_SLASH);
        let mut i: usize = 0;
        while i < hash.0.len()
            invariant
                0 <= i <= hash.0@.len(),
                v@ == self@ + seq![B_SLASH] + hash@.take(i as int),
            decreases hash.0@.len() - i,
        {
            v.push(hash.0[i]);
            proof {
                assert(self@ + seq![B_SLASH] + hash@.take(i + 1 as int) =~= (self@ + seq![B_SLASH]
                    + hash@.take(i as int)).push(hash@[i as int]));
            }
            i = i + 1;
        }
        v.push(B_DOT);
        v.push(B_LJ);
        v.push(B_LS);
        v.push(B_LO);
        v.push(B_LN);
        proof {
            assert(hash@.take(hash@.len() as int) =~= hash@);
            assert(v@ =~= spec_store_path(self@, hash@));
        }
        v
    }
}

} // verus!
