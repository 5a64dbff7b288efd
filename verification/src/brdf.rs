//! Looking up a scene's BRDFs by id.

use vstd::prelude::*;

use crate::scene::{first_index_of, first_pos, lemma_first_pos};

verus! {

/// The BRDF models a scene file can declare, in the order they are searched.
#[derive(Clone, Copy, Debug, PartialEq, Eq, Structural)]
pub enum BrdfKind {
    OriginalPhong,
    ModifiedPhong,
    OriginalBlinnPhong,
    ModifiedBlinnPhong,
    TorranceSparrow,
}

/// The ids of the declared BRDFs of each model, in declaration order.
#[derive(Debug, Clone)]
pub struct BrdfIds {
    pub original_phong: Vec<usize>,
    pub modified_phong: Vec<usize>,
    pub original_blinn_phong: Vec<usize>,
    pub modified_blinn_phong: Vec<usize>,
    pub torrance_sparrow: Vec<usize>,
}

/// Where a BRDF id is found: in the first model, in search order, that declares
/// it, at the first position with that id.
pub open spec fn find_brdf_spec(ids: BrdfIds, id: usize) -> Option<(BrdfKind, int)> {
    if first_pos(ids.original_phong@, id) >= 0 {
        Some((BrdfKind::OriginalPhong, first_pos(ids.original_phong@, id)))
    } else if first_pos(ids.modified_phong@, id) >= 0 {
        Some((BrdfKind::ModifiedPhong, first_pos(ids.modified_phong@, id)))
    } else if first_pos(ids.original_blinn_phong@, id) >= 0 {
        Some((BrdfKind::OriginalBlinnPhong, first_pos(ids.original_blinn_phong@, id)))
    } else if first_pos(ids.modified_blinn_phong@, id) >= 0 {
        Some((BrdfKind::ModifiedBlinnPhong, first_pos(ids.modified_blinn_phong@, id)))
    } else if first_pos(ids.torrance_sparrow@, id) >= 0 {
        Some((BrdfKind::TorranceSparrow, first_pos(ids.torrance_sparrow@, id)))
    } else {
        None
    }
}

/// The ids declared for one model.
pub open spec fn brdf_list(ids: BrdfIds, kind: BrdfKind) -> Seq<usize> {
    match kind {
        BrdfKind::OriginalPhong => ids.original_phong@,
        BrdfKind::ModifiedPhong => ids.modified_phong@,
        BrdfKind::OriginalBlinnPhong => ids.original_blinn_phong@,
        BrdfKind::ModifiedBlinnPhong => ids.modified_blinn_phong@,
        BrdfKind::TorranceSparrow => ids.torrance_sparrow@,
    }
}

/// Place of a model in the search order.
pub open spec fn search_rank(kind: BrdfKind) -> int {
    match kind {
        BrdfKind::OriginalPhong => 0,
        BrdfKind::ModifiedPhong => 1,
        BrdfKind::OriginalBlinnPhong => 2,
        BrdfKind::ModifiedBlinnPhong => 3,
        BrdfKind::TorranceSparrow => 4,
    }
}

/// What a lookup of `id` may answer: `Some((kind, pos))` names a model whose
/// list holds `id` at `pos` and nowhere before, while no model searched
/// earlier declares `id`; `None` means no model declares `id`.
pub open spec fn brdf_answer(ids: BrdfIds, id: usize, r: Option<(BrdfKind, int)>) -> bool {
    match r {
        Some((kind, pos)) => {
            &&& 0 <= pos < brdf_list(ids, kind).len()
            &&& brdf_list(ids, kind)[pos] == id
            &&& forall|j: int| 0 <= j < pos ==> brdf_list(ids, kind)[j] != id
            &&& forall|k: BrdfKind| search_rank(k) < search_rank(kind) ==> !(#[trigger] brdf_list(ids, k)).contains(id)
        },
        None => forall|k: BrdfKind| !(#[trigger] brdf_list(ids, k)).contains(id),
    }
}

/// A BRDF is found in the list of the model it is reported with, at the
/// reported position, and the first model in search order that declares the
/// id is the one reported; an id that no model declares is not found. In
/// particular an id declared by one model alone is reported with that model.
pub proof fn law_brdf_found_where_declared(ids: BrdfIds, id: usize)
    ensures
        brdf_answer(ids, id, find_brdf_spec(ids, id)),
{
    lemma_first_pos(ids.original_phong@, id);
    lemma_first_pos(ids.modified_phong@, id);
    lemma_first_pos(ids.original_blinn_phong@, id);
    lemma_first_pos(ids.modified_blinn_phong@, id);
    lemma_first_pos(ids.torrance_sparrow@, id);
    assert forall|k: BrdfKind| #[trigger] brdf_list(ids, k).contains(id) implies first_pos(
        brdf_list(ids, k),
        id,
    ) >= 0 by {
        let j = choose|j: int| 0 <= j < brdf_list(ids, k).len() && brdf_list(ids, k)[j] == id;
        match k {
            BrdfKind::OriginalPhong => assert(ids.original_phong@[j] == id),
            BrdfKind::ModifiedPhong => assert(ids.modified_phong@[j] == id),
            BrdfKind::OriginalBlinnPhong => assert(ids.original_blinn_phong@[j] == id),
            BrdfKind::ModifiedBlinnPhong => assert(ids.modified_blinn_phong@[j] == id),
            BrdfKind::TorranceSparrow => assert(ids.torrance_sparrow@[j] == id),
        }
    }
}

/// Finds the BRDF with the given id: its model and its position among the
/// BRDFs of that model.
pub fn find_brdf(ids: &BrdfIds, id: usize) -> (r: Option<(BrdfKind, usize)>)
    ensures
        match r {
            Some((kind, pos)) => find_brdf_spec(*ids, id) == Some((kind, pos as int)),
            None => find_brdf_spec(*ids, id) is None,
        },
        brdf_answer(
            *ids,
            id,
            match r {
                Some((kind, pos)) => Some((kind, pos as int)),
                None => None,
            },
        ),
{
    proof {
        law_brdf_found_where_declared(*ids, id);
    }
    if let Some(p) = first_index_of(ids.original_phong.as_slice(), id) {
        return Some((BrdfKind::OriginalPhong, p));
    }
    if let Some(p) = first_index_of(ids.modified_phong.as_slice(), id) {
        return Some((BrdfKind::ModifiedPhong, p));
    }
    if let Some(p) = first_index_of(ids.original_blinn_phong.as_slice(), id) {
        return Some((BrdfKind::OriginalBlinnPhong, p));
    }
    if let Some(p) = first_index_of(ids.modified_blinn_phong.as_slice(), id) {
        return Some((BrdfKind::ModifiedBlinnPhong, p));
    }
    if let Some(p) = first_index_of(ids.torrance_sparrow.as_slice(), id) {
        return Some((BrdfKind::TorranceSparrow, p));
    }
    None
}

} // verus!
