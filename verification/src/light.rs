//! Light sources whose setup involves no geometry.

use vstd::prelude::*;

use crate::json_structs::SingleOrVec;
use crate::text::{eq_ignore_ascii_case, eq_ignore_ascii_case_spec};

verus! {

/// How an environment image maps directions to texture coordinates.
#[derive(Clone, Copy, Debug, PartialEq, Eq, Structural)]
pub enum EnvironmentMap {
    /// Latitude-longitude layout.
    LatLong,
    /// Light-probe layout.
    Spherical,
}

impl Default for EnvironmentMap {
    fn default() -> (r: Self)
        ensures
            r == EnvironmentMap::LatLong,
    {
        EnvironmentMap::LatLong
    }
}

/// How directions over a hemisphere are drawn.
#[derive(Clone, Copy, Debug, PartialEq, Eq, Structural)]
pub enum HemisphereSampling {
    /// Uniformly over the hemisphere.
    Uniform,
    /// With density proportional to the cosine to the normal.
    Cosine,
}

/// `uniform`, as the sampler names it.
pub open spec fn uniform_name() -> Seq<char> {
    seq!['u', 'n', 'i', 'f', 'o', 'r', 'm']
}

/// `cosine`, as the sampler names it.
pub open spec fn cosine_name() -> Seq<char> {
    seq!['c', 'o', 's', 'i', 'n', 'e']
}

/// An environment light that takes its radiance from one of the scene's images.
#[derive(Debug, Clone)]
pub struct SphericalDirectionalLight {
    pub _id: usize,
    pub _type: EnvironmentMap,
    /// Id of the image, counted from 1 as in the scene file.
    pub image_id: usize,
    pub sampler: String,
    /// Position of the image in the scene's image list, counted from 0.
    pub image_idx: usize,
}

impl SphericalDirectionalLight {
    /// Turns the image id, counted from 1, into a position counted from 0.
    pub fn setup(&mut self)
        requires
            old(self).image_id >= 1,
        ensures
            final(self).image_idx == old(self).image_id - 1,
            final(self)._id == old(self)._id,
            final(self)._type == old(self)._type,
            final(self).image_id == old(self).image_id,
            final(self).sampler == old(self).sampler,
    {
        self.image_idx = self.image_id - 1;
    }

    /// How the light samples directions: uniformly when its sampler is
    /// `uniform`, cosine-weighted otherwise (ASCII case ignored).
    pub fn direction_sampling(&self) -> (r: HemisphereSampling)
        ensures
            r == if eq_ignore_ascii_case_spec(self.sampler@, uniform_name()) {
                HemisphereSampling::Uniform
            } else {
                HemisphereSampling::Cosine
            },
    {
        proof {
            reveal_strlit("uniform");
            assert("uniform"@ =~= uniform_name());
        }
        if eq_ignore_ascii_case(self.sampler.as_str(), "uniform") {
            HemisphereSampling::Uniform
        } else {
            HemisphereSampling::Cosine
        }
    }

    /// How sampled radiance is weighted: by the cosine density when the
    /// sampler is `cosine` (ASCII case ignored), by the uniform density
    /// otherwise.
    pub fn radiance_weighting(&self) -> (r: HemisphereSampling)
        ensures
            r == if eq_ignore_ascii_case_spec(self.sampler@, cosine_name()) {
                HemisphereSampling::Cosine
            } else {
                HemisphereSampling::Uniform
            },
    {
        proof {
            reveal_strlit("cosine");
            assert("cosine"@ =~= cosine_name());
        }
        if eq_ignore_ascii_case(self.sampler.as_str(), "cosine") {
            HemisphereSampling::Cosine
        } else {
            HemisphereSampling::Uniform
        }
    }

    /// Position of the light's image in the scene's image list.
    pub fn image_idx(&self) -> (r: usize)
        ensures
            r == self.image_idx,
    {
        self.image_idx
    }
}

/// Sets up every environment light of a scene (see `setup`), each in place.
pub fn setup_env_lights(lights: &mut SingleOrVec<SphericalDirectionalLight>)
    requires
        forall|i: int| 0 <= i < old(lights)@.len() ==> (#[trigger] old(lights)@[i]).image_id >= 1,
    ensures
        final(lights)@.len() == old(lights)@.len(),
        old(lights).same_variant(final(lights)),
        forall|i: int|
            0 <= i < old(lights)@.len() ==> {
                let (a, b) = (old(lights)@[i], #[trigger] final(lights)@[i]);
                &&& b.image_idx == a.image_id - 1
                &&& b._id == a._id
                &&& b._type == a._type
                &&& b.image_id == a.image_id
                &&& b.sampler == a.sampler
            },
{
    let ghost start = lights@;
    let mut refs = lights.all_mut();
    let ghost all = refs@;
    let n = refs.len();
    while refs.len() > 0
        invariant
            n == all.len(),
            n == start.len(),
            refs@.len() <= n,
            forall|j: int| 0 <= j < refs@.len() ==> #[trigger] refs@[j] == all[j],
            forall|j: int| 0 <= j < n ==> *#[trigger] all[j] == start[j],
            forall|j: int| 0 <= j < n ==> (#[trigger] start[j]).image_id >= 1,
            forall|j: int|
                refs@.len() <= j < n ==> {
                    let (a, b) = (start[j], *final(#[trigger] all[j]));
                    &&& b.image_idx == a.image_id - 1
                    &&& b._id == a._id
                    &&& b._type == a._type
                    &&& b.image_id == a.image_id
                    &&& b.sampler == a.sampler
                },
        decreases refs@.len(),
    {
        let ghost k = refs@.len() - 1;
        let r = refs.pop().unwrap();
        assert(r == all[k]);
        r.setup();
    }
    assert forall|i: int| 0 <= i < n implies lights@[i] == *final(#[trigger] all[i]) by {}
    assert forall|i: int| 0 <= i < n implies {
        let (a, b) = (start[i], #[trigger] lights@[i]);
        &&& b.image_idx == a.image_id - 1
        &&& b._id == a._id
        &&& b._type == a._type
        &&& b.image_id == a.image_id
        &&& b.sampler == a.sampler
    } by {
        assert(lights@[i] == *final(all[i]));
    }
}

} // verus!
