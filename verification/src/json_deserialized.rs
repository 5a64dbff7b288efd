//! Scene-file records read as they are.

use vstd::prelude::*;

use crate::json_structs::{DataField, FaceType};

verus! {

/// A mesh as the scene file declares it.
#[derive(Debug, Clone)]
pub struct MeshJSON {
    pub _id: usize,
    pub material_idx: usize,
    pub faces: FaceType,
    pub _shading_mode: String,
}

impl Default for MeshJSON {
    /// Id and material 0, no faces, flat shading.
    fn default() -> (r: Self)
        ensures
            r._id == 0,
            r.material_idx == 0,
            r.faces._data@.len() == 0,
            r.faces._type@.len() == 0,
            r.faces._ply_file@.len() == 0,
            r._shading_mode@ == seq!['f', 'l', 'a', 't'],
    {
        proof {
            reveal_strlit("flat");
            assert("flat"@ =~= seq!['f', 'l', 'a', 't']);
        }
        MeshJSON {
            _id: 0,
            material_idx: 0,
            faces: DataField::default(),
            _shading_mode: "flat".to_owned(),
        }
    }
}

} // verus!
