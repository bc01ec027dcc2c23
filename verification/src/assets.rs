//! Asset markers: a bag that names an asset by its path stands on an entity
//! until the asset is resolved, and is then replaced by the asset's handle.

use vstd::prelude::*;
use crate::error::EditorError;
use crate::property::{BagView, DynamicProperties, Field, FieldView, Value, ValueView};

verus! {

/// Names an asset by its path.
#[derive(Debug)]
pub struct Asset {
    pub path: String,
}

/// The bag that stands for an asset marker with the path `path`, under the
/// type name `type_tag`: one text field named `path`.
pub open spec fn asset_bag(type_tag: Seq<char>, path: Seq<char>) -> BagView {
    BagView {
        type_tag,
        fields: seq![FieldView { name: "path"@, value: ValueView::Text(path) }],
    }
}

impl Asset {
    /// The marker of the asset at `path`.
    pub fn new(path: String) -> (r: Asset)
        ensures
            r.path@ == path@,
    {
        Asset { path }
    }

    /// The bag that stands for this marker under the type name `type_tag`.
    pub fn to_dynamic(&self, type_tag: String) -> (r: DynamicProperties)
        ensures
            r@ == asset_bag(type_tag@, self.path@),
    {
        let mut fields: Vec<Field> = Vec::new();
        fields.push(Field { name: "path".to_owned(), value: Value::Text(self.path.clone()) });
        let r = DynamicProperties { type_tag, fields };
        assert(r@.fields =~= asset_bag(type_tag@, self.path@).fields);
        r
    }
}

impl Default for Asset {
    fn default() -> (r: Asset)
        ensures
            r.path@ == Seq::<char>::empty(),
    {
        Asset { path: String::new() }
    }
}

/// An entity whose marker was resolved: the marker is to be taken off the
/// runtime object `entity` and the asset handle `handle` put on it.
#[derive(Debug, Clone, Copy, PartialEq, Eq, Structural)]
pub struct Resolved {
    pub entity: u64,
    pub handle: u64,
}

/// Whether the loader found the asset of each of the first `n` markers.
pub open spec fn all_found(loaded: Seq<Option<u64>>, n: int) -> bool {
    n <= loaded.len() && forall|i: int| 0 <= i < n ==> #[trigger] loaded[i] is Some
}

/// Pairs each entity that carries a marker with the handle that the loader
/// gave for the marker's path: `loaded` holds the loader's answer for each
/// of `pending`, in order, `None` where it found no asset. Fails with
/// `AssetResolutionFailure` exactly where an answer is `None` or missing.
pub fn load_asset_system(pending: &Vec<u64>, loaded: &Vec<Option<u64>>) -> (r: Result<
    Vec<Resolved>,
    EditorError,
>)
    ensures
        match r {
            Ok(resolved) => all_found(loaded@, pending.len() as int) && resolved.len()
                == pending.len() && forall|i: int|
                0 <= i < pending.len() ==> resolved[i] == (Resolved {
                    entity: pending[i],
                    handle: loaded[i]->Some_0,
                }),
            Err(e) => e == EditorError::AssetResolutionFailure && !all_found(
                loaded@,
                pending.len() as int,
            ),
        },
{
    if loaded.len() < pending.len() {
        return Err(EditorError::AssetResolutionFailure);
    }
    let mut resolved: Vec<Resolved> = Vec::new();
    let mut i: usize = 0;
    while i < pending.len()
        invariant
            i <= pending.len(),
            pending.len() <= loaded.len(),
            resolved.len() == i,
            forall|k: int| 0 <= k < i ==> #[trigger] loaded[k] is Some,
            forall|k: int|
                0 <= k < i ==> resolved[k] == (Resolved {
                    entity: pending[k],
                    handle: loaded[k]->Some_0,
                }),
        decreases pending.len() - i,
    {
        match loaded[i] {
            Some(handle) => {
                resolved.push(Resolved { entity: pending[i], handle });
            },
            None => {
                return Err(EditorError::AssetResolutionFailure);
            },
        }
        i += 1;
    }
    Ok(resolved)
}

} // verus!
