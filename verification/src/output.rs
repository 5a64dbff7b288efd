//! Where the images rendered from a scene file are written.

use vstd::prelude::*;

use crate::text::str_eq;

verus! {

/// The folder, below the output root, that receives the images of a scene
/// file whose folder has the components `components`: the components after
/// the first one named `input_folder`; without such a component, the scene
/// folder's own name `dir_name`; without that either, nothing.
pub open spec fn output_subpath_spec(
    components: Seq<Seq<char>>,
    input_folder: Seq<char>,
    dir_name: Option<Seq<char>>,
) -> Option<Seq<Seq<char>>> {
    if exists|i: int| 0 <= i < components.len() && components[i] == input_folder {
        let i = choose|i: int|
            0 <= i < components.len() && components[i] == input_folder && forall|j: int|
                0 <= j < i ==> components[j] != input_folder;
        Some(components.subrange(i + 1, components.len() as int))
    } else {
        match dir_name {
            Some(d) => Some(seq![d]),
            None => None,
        }
    }
}

/// The characters of each string of `v`.
pub open spec fn strings_view(v: Seq<String>) -> Seq<Seq<char>> {
    v.map_values(|s: String| s@)
}

/// The characters of an optional string.
pub open spec fn opt_string_view(o: Option<String>) -> Option<Seq<char>> {
    match o {
        Some(s) => Some(s@),
        None => None,
    }
}

/// The characters of each string of an optional list.
pub open spec fn opt_strings_view(o: Option<Vec<String>>) -> Option<Seq<Seq<char>>> {
    match o {
        Some(v) => Some(strings_view(v@)),
        None => None,
    }
}

/// Picks the output folder of a scene file, relative to the output root, from
/// the components of the scene file's folder (see `output_subpath_spec`).
pub fn output_subpath(components: &[String], input_folder: &str, dir_name: Option<String>) -> (r:
    Option<Vec<String>>)
    ensures
        opt_strings_view(r) == output_subpath_spec(
            strings_view(components@),
            input_folder@,
            opt_string_view(dir_name),
        ),
{
    let ghost cs = strings_view(components@);
    let mut i: usize = 0;
    while i < components.len()
        invariant
            cs == strings_view(components@),
            i <= components.len(),
            forall|j: int| 0 <= j < i ==> cs[j] != input_folder@,
        decreases components.len() - i,
    {
        if str_eq(components[i].as_str(), input_folder) {
            let mut rest: Vec<String> = Vec::new();
            let mut k: usize = i + 1;
            while k < components.len()
                invariant
                    cs == strings_view(components@),
                    i < k <= components.len(),
                    rest@.len() == k - (i + 1),
                    forall|j: int| 0 <= j < rest@.len() ==> #[trigger] rest@[j]@ == cs[i + 1 + j],
                decreases components.len() - k,
            {
                let c = components[k].clone();
                assert(c@ == cs[k as int]);
                rest.push(c);
                k += 1;
            }
            proof {
                assert(strings_view(rest@) =~= cs.subrange(i + 1, cs.len() as int));
                assert(cs[i as int] == input_folder@);
                let c = choose|c: int|
                    0 <= c < cs.len() && cs[c] == input_folder@ && forall|j: int|
                        0 <= j < c ==> cs[j] != input_folder@;
                assert(c == i as int) by {
                    if c < i {
                    } else if c > i {
                        assert(cs[i as int] != input_folder@);
                    }
                }
            }
            return Some(rest);
        }
        i += 1;
    }
    match dir_name {
        Some(d) => {
            let ghost dv = d@;
            let v = vec![d];
            assert(strings_view(v@) =~= seq![dv]);
            Some(v)
        },
        None => None,
    }
}

} // verus!
