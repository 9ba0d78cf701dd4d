//! The per-tick runtime resolver.
//!
//! A display entity references a sprite by name together with an atlas
//! handle and carries a mutable current index.  Every tick the resolver
//! looks each name up in the atlas's mapping (once the atlas is loaded)
//! and writes the index; a missing name leaves the index unchanged and is
//! reported as a non-fatal diagnostic.  The step is a leveling operation:
//! idempotent and safe to re-run unconditionally.

use vstd::prelude::*;

use crate::atlas::XMLTextureAtlas;

verus! {

/// A display entity's sprite reference: the symbolic name it was authored
/// with, and the layout index the resolver keeps up to date.
#[derive(Debug)]
pub struct XMLTextureAtlasComponent {
    pub name: String,
    pub index: usize,
}

/// What one resolver step leaves in the current-index field.
pub open spec fn resolved_index(
    names: Map<Seq<char>, usize>,
    name: Seq<char>,
    current: usize,
) -> usize {
    if names.contains_key(name) {
        names[name]
    } else {
        current
    }
}

/// Resolve one sprite name against a loaded atlas, writing the mapped
/// index or leaving the field unchanged; the result says whether the name
/// was found.
pub fn resolve_index(atlas: &XMLTextureAtlas, name: &str, index: &mut usize) -> (found: bool)
    ensures
        found == atlas@.contains_key(name@),
        *final(index) == resolved_index(atlas@, name@, *old(index)),
{
    match atlas.get(name) {
        Some(v) => {
            *index = v;
            true
        },
        None => false,
    }
}

/// The names among the given sprites that a mapping does not contain, in
/// order; these are the resolver's per-tick diagnostics.
pub open spec fn missing_names(
    names: Map<Seq<char>, usize>,
    sprites: Seq<XMLTextureAtlasComponent>,
) -> Seq<Seq<char>>
    decreases sprites.len(),
{
    if sprites.len() == 0 {
        Seq::empty()
    } else if names.contains_key(sprites.last().name@) {
        missing_names(names, sprites.drop_last())
    } else {
        missing_names(names, sprites.drop_last()).push(sprites.last().name@)
    }
}

/// One resolver tick over the entities that share an atlas handle.
///
/// While the atlas is not yet loaded (`None`) nothing is written and
/// nothing is reported.  Once it is loaded, every entity whose name the
/// mapping contains gets its index written; an entity whose name is absent
/// keeps its index, and its name is returned as a diagnostic without
/// halting the processing of its siblings.
pub fn update_atlas(atlas: Option<&XMLTextureAtlas>, sprites: &mut Vec<XMLTextureAtlasComponent>)
    -> (missing: Vec<String>)
    ensures
        final(sprites)@.len() == old(sprites)@.len(),
        forall|k: int|
            0 <= k < old(sprites)@.len() ==> (#[trigger] final(sprites)@[k]).name@ == old(
                sprites,
            )@[k].name@,
        match atlas {
            None => final(sprites)@ == old(sprites)@ && missing@.len() == 0,
            Some(a) => (forall|k: int|
                0 <= k < old(sprites)@.len() ==> (#[trigger] final(sprites)@[k]).index
                    == resolved_index(a@, old(sprites)@[k].name@, old(sprites)@[k].index))
                && missing.deep_view() == missing_names(a@, old(sprites)@),
        },
{
    let mut missing: Vec<String> = Vec::new();
    let a = match atlas {
        Some(a) => a,
        None => {
            return missing;
        },
    };
    let n = sprites.len();
    let mut i: usize = 0;
    proof {
        assert(old(sprites)@.take(0int) =~= Seq::<XMLTextureAtlasComponent>::empty());
        assert(missing.deep_view() =~= Seq::<Seq<char>>::empty());
    }
    while i < n
        invariant
            i <= n,
            n == sprites@.len(),
            sprites@.len() == old(sprites)@.len(),
            forall|k: int|
                i <= k < sprites@.len() ==> #[trigger] sprites@[k] == old(sprites)@[k],
            forall|k: int|
                0 <= k < i ==> (#[trigger] sprites@[k]).name@ == old(sprites)@[k].name@,
            forall|k: int|
                0 <= k < i ==> (#[trigger] sprites@[k]).index == resolved_index(
                    a@,
                    old(sprites)@[k].name@,
                    old(sprites)@[k].index,
                ),
            missing.deep_view() == missing_names(a@, old(sprites)@.take(i as int)),
        decreases n - i,
    {
        let found = a.get(sprites[i].name.as_str());
        let ghost before = missing.deep_view();
        match found {
            Some(v) => {
                let name = sprites[i].name.clone();
                sprites.set(i, XMLTextureAtlasComponent { name, index: v });
            },
            None => {
                missing.push(sprites[i].name.clone());
            },
        }
        proof {
            let pre = old(sprites)@.take(i as int);
            let pre2 = old(sprites)@.take(i + 1int);
            assert(pre2.drop_last() =~= pre);
            assert(pre2.last() == old(sprites)@[i as int]);
            if found is Some {
                assert(missing_names(a@, pre2) == missing_names(a@, pre));
            } else {
                assert(missing.deep_view() =~= before.push(old(sprites)@[i as int].name@));
            }
        }
        i = i + 1;
    }
    proof {
        assert(old(sprites)@.take(n as int) =~= old(sprites)@);
    }
    missing
}

/// The resolver is a leveling operation: resolving a second time with the
/// same mapping leaves the index where the first resolution put it, so the
/// step may be re-run every tick without change.
pub proof fn lemma_resolve_idempotent(
    names: Map<Seq<char>, usize>,
    name: Seq<char>,
    current: usize,
)
    ensures
        resolved_index(names, name, resolved_index(names, name, current)) == resolved_index(
            names,
            name,
            current,
        ),
{
}

} // verus!
