use vstd::prelude::*;

use crate::text::str_eq;

verus! {

/// `std::slice::from_ref`: the one-element slice that holds the referenced value.
pub assume_specification<T>[ std::slice::from_ref::<T> ](s: &T) -> (r: &[T])
    ensures
        r@ == seq![*s],
;

/// `std::slice::from_mut`: the one-element slice that borrows the referenced value;
/// writes through the slice land in the value.
pub assume_specification<T>[ std::slice::from_mut::<T> ](s: &mut T) -> (r: &mut [T])
    ensures
        r@ == seq![*old(s)],
        final(r)@.len() == 1,
        *final(s) == final(r)@[0],
;

/// A JSON field that holds either nothing, a single object or an array of objects.
#[derive(Debug, Clone)]
pub enum SingleOrVec<T> {
    Empty,
    Single(T),
    Multiple(Vec<T>),
}

impl<T> SingleOrVec<T> {
    /// The objects held, in order.
    pub open spec fn view_seq(&self) -> Seq<T> {
        match self {
            SingleOrVec::Empty => Seq::empty(),
            SingleOrVec::Single(t) => seq![*t],
            SingleOrVec::Multiple(v) => v@,
        }
    }

    /// Whether the variant follows the number of objects: `Empty` for none,
    /// `Single` for one, `Multiple` for two or more.
    pub open spec fn is_canonical(&self) -> bool {
        match self {
            SingleOrVec::Empty => true,
            SingleOrVec::Single(_) => true,
            SingleOrVec::Multiple(v) => v@.len() >= 2,
        }
    }

    /// Whether `self` and `other` are the same variant: both empty, both a
    /// single object, or both a list.
    pub open spec fn same_variant(&self, other: &Self) -> bool {
        &&& (self is Empty <==> other is Empty)
        &&& (self is Single <==> other is Single)
        &&& (self is Multiple <==> other is Multiple)
    }
}

impl<T> View for SingleOrVec<T> {
    type V = Seq<T>;

    open spec fn view(&self) -> Seq<T> {
        self.view_seq()
    }
}

impl<T> Default for SingleOrVec<T> {
    fn default() -> (r: Self)
        ensures
            r is Empty,
            r@.len() == 0,
    {
        SingleOrVec::Empty
    }
}

impl<T: Clone> SingleOrVec<T> {
    /// Number of objects held.
    pub fn len(&self) -> (n: usize)
        ensures
            n == self@.len(),
    {
        match self {
            SingleOrVec::Empty => 0,
            SingleOrVec::Single(_) => 1,
            SingleOrVec::Multiple(vs) => vs.len(),
        }
    }

    /// Whether no object is held.
    pub fn is_empty(&self) -> (b: bool)
        ensures
            b == (self@.len() == 0),
    {
        self.len() == 0
    }

    /// The objects held, as one slice.
    pub fn as_slice(&self) -> (s: &[T])
        ensures
            s@ == self@,
    {
        match self {
            SingleOrVec::Empty => &[],
            SingleOrVec::Single(v) => std::slice::from_ref(v),
            SingleOrVec::Multiple(vec) => vec.as_slice(),
        }
    }

    /// Copies of the objects held, in order.
    pub fn all(&self) -> (r: Vec<T>)
        ensures
            r@.len() == self@.len(),
            forall|i: int| 0 <= i < r@.len() ==> cloned::<T>(#[trigger] self@[i], r@[i]),
    {
        match self {
            SingleOrVec::Empty => Vec::new(),
            SingleOrVec::Single(t) => vec![t.clone()],
            SingleOrVec::Multiple(vec) => vec.clone(),
        }
    }

    /// References to the objects held, in order.
    pub fn all_ref(&self) -> (r: Vec<&T>)
        ensures
            r@ == self@.as_ref(),
    {
        let s = self.as_slice();
        let mut out: Vec<&T> = Vec::new();
        let mut i: usize = 0;
        while i < s.len()
            invariant
                s@ == self@,
                i <= s@.len(),
                out@ == s@.subrange(0, i as int).as_ref(),
            decreases s@.len() - i,
        {
            out.push(&s[i]);
            i += 1;
        }
        out
    }

    /// An iterator over references to the objects held, in order.
    pub fn iter(&self) -> (it: std::slice::Iter<'_, T>)
        ensures
            vstd::std_specs::iter::IteratorSpec::remaining(&it) == self@.as_ref(),
    {
        self.as_slice().iter()
    }

    /// The objects held, as one mutable slice.
    pub fn as_mut_slice(&mut self) -> (s: &mut [T])
        ensures
            s@ == old(self)@,
            final(self)@ == final(s)@,
            old(self).same_variant(final(self)),
    {
        match self {
            SingleOrVec::Empty => &mut [],
            SingleOrVec::Single(v) => std::slice::from_mut(v),
            SingleOrVec::Multiple(vs) => vs.as_mut_slice(),
        }
    }

    /// Mutable references to the objects held, in order.
    pub fn all_mut(&mut self) -> (r: Vec<&mut T>)
        ensures
            r@.len() == old(self)@.len(),
            forall|i: int| 0 <= i < r@.len() ==> *#[trigger] r@[i] == old(self)@[i],
            final(self)@.len() == old(self)@.len(),
            forall|i: int| 0 <= i < r@.len() ==> final(self)@[i] == *final(#[trigger] r@[i]),
            old(self).same_variant(final(self)),
    {
        let mut rest: &mut [T] = self.as_mut_slice();
        let ghost whole = final(rest)@;
        let mut out: Vec<&mut T> = Vec::new();
        while rest.len() > 0
            invariant
                out@.len() + rest@.len() == old(self)@.len(),
                rest@ == old(self)@.skip(out@.len() as int),
                forall|i: int| 0 <= i < out@.len() ==> *#[trigger] out@[i] == old(self)@[i],
                whole == Seq::new(out@.len(), |i: int| *final(out@[i])) + final(rest)@,
            decreases rest@.len(),
        {
            let (first, tail) = rest.split_at_mut(1);
            match first.first_mut() {
                Some(x) => out.push(x),
                None => {},
            }
            rest = tail;
        }
        // The slice left is empty; borrowing from it once more ends the borrow
        // with its final value known to be that empty slice.
        let _ = rest.first_mut();
        out
    }

    /// An iterator over mutable references to the objects held, in order.
    pub fn iter_mut(&mut self) -> (it: std::vec::IntoIter<&mut T>)
        ensures
            vstd::std_specs::iter::IteratorSpec::remaining(&it).len() == old(self)@.len(),
            forall|i: int|
                0 <= i < old(self)@.len() ==> *#[trigger] vstd::std_specs::iter::IteratorSpec::remaining(
                    &it,
                )[i] == old(self)@[i],
            final(self)@.len() == old(self)@.len(),
            old(self).same_variant(final(self)),
            forall|i: int|
                #![trigger vstd::std_specs::iter::IteratorSpec::remaining(&it)[i]]
                0 <= i < old(self)@.len() ==> {
                    let item = vstd::std_specs::iter::IteratorSpec::remaining(&it)[i];
                    final(self)@[i] == *final(item)
                },
    {
        self.all_mut().into_iter()
    }

    /// Appends an object: nothing becomes one object, one becomes a list of two.
    pub fn push(&mut self, item: T)
        ensures
            final(self)@ == old(self)@.push(item),
            *old(self) is Empty ==> *final(self) is Single,
            !(*old(self) is Empty) ==> *final(self) is Multiple,
            old(self).is_canonical() ==> final(self).is_canonical(),
    {
        let mut cur = SingleOrVec::Empty;
        std::mem::swap(self, &mut cur);
        match cur {
            SingleOrVec::Empty => {
                *self = SingleOrVec::Single(item);
            },
            SingleOrVec::Single(v) => {
                *self = SingleOrVec::Multiple(vec![v, item]);
            },
            SingleOrVec::Multiple(mut vs) => {
                vs.push(item);
                *self = SingleOrVec::Multiple(vs);
            },
        }
    }
}

/// The four kinds of named transformations a scene file declares.
#[derive(Clone, Copy, Debug, PartialEq, Eq, Structural)]
pub enum TransformKind {
    Translation,
    Rotation,
    Scaling,
    Composite,
}

/// One declared transformation: its numeric payload and its `_id`.
#[derive(Debug)]
pub struct TransformField<D> {
    pub _data: D,
    pub _id: usize,
}

impl<D: Clone> Clone for TransformField<D> {
    fn clone(&self) -> (r: Self)
        ensures
            r._id == self._id,
            cloned::<D>(self._data, r._data),
    {
        TransformField { _data: self._data.clone(), _id: self._id }
    }
}

/// Whether `b` is a copy of `a`: the same id and a clone of its payload.
pub open spec fn same_field<D: Clone>(a: TransformField<D>, b: TransformField<D>) -> bool {
    a._id == b._id && cloned::<D>(a._data, b._data)
}

/// Position of the first field with the given id, or -1 when there is none.
pub open spec fn first_id_index<D>(fields: Seq<TransformField<D>>, id: usize) -> int
    decreases fields.len(),
{
    if fields.len() == 0 {
        -1
    } else if fields[0]._id == id {
        0
    } else {
        let r = first_id_index(fields.drop_first(), id);
        if r < 0 {
            -1
        } else {
            r + 1
        }
    }
}

/// The first index with a given id is -1 or a position of the list.
pub proof fn lemma_first_id_index<D>(fields: Seq<TransformField<D>>, id: usize)
    ensures
        -1 <= first_id_index(fields, id) < fields.len(),
        first_id_index(fields, id) >= 0 ==> fields[first_id_index(fields, id)]._id == id,
        forall|j: int|
            0 <= j < fields.len() && (first_id_index(fields, id) < 0 || j < first_id_index(
                fields,
                id,
            )) ==> #[trigger] fields[j]._id != id,
    decreases fields.len(),
{
    if fields.len() > 0 && fields[0]._id != id {
        lemma_first_id_index(fields.drop_first(), id);
        assert forall|j: int|
            0 <= j < fields.len() && (first_id_index(fields, id) < 0 || j < first_id_index(
                fields,
                id,
            )) implies #[trigger] fields[j]._id != id by {
            if j > 0 {
                assert(fields[j] == fields.drop_first()[j - 1]);
            }
        }
    }
}

/// The result of looking an id up in a list of fields.
pub open spec fn lookup_spec<D>(fields: Seq<TransformField<D>>, id: usize) -> Option<
    TransformField<D>,
> {
    let k = first_id_index(fields, id);
    if k < 0 {
        None
    } else {
        Some(fields[k])
    }
}

/// Whether a looked-up reference is the expected field.
pub open spec fn found_as<D>(r: Option<&TransformField<D>>, expect: Option<TransformField<D>>) -> bool {
    match r {
        Some(f) => expect == Some(*f),
        None => expect is None,
    }
}

/// The first field with the given id.
pub fn find_by_id<D: Clone>(fields: &SingleOrVec<TransformField<D>>, id: usize) -> (r: Option<
    &TransformField<D>,
>)
    ensures
        found_as(r, lookup_spec(fields@, id)),
{
    let s = fields.as_slice();
    let mut i: usize = 0;
    proof {
        lemma_first_id_index(s@, id);
    }
    while i < s.len()
        invariant
            s@ == fields@,
            i <= s@.len(),
            forall|j: int| 0 <= j < i ==> #[trigger] s@[j]._id != id,
            -1 <= first_id_index(s@, id) < s@.len(),
            first_id_index(s@, id) >= 0 ==> s@[first_id_index(s@, id)]._id == id,
            forall|j: int|
                0 <= j < s@.len() && (first_id_index(s@, id) < 0 || j < first_id_index(s@, id))
                    ==> #[trigger] s@[j]._id != id,
        decreases s@.len() - i,
    {
        if s[i]._id == id {
            return Some(&s[i]);
        }
        i += 1;
    }
    None
}

/// The transformations declared in a scene, grouped by kind.
#[derive(Debug, Clone)]
pub struct Transformations<D> {
    pub translation: SingleOrVec<TransformField<D>>,
    pub rotation: SingleOrVec<TransformField<D>>,
    pub scaling: SingleOrVec<TransformField<D>>,
    pub composite: SingleOrVec<TransformField<D>>,
}

impl<D> Transformations<D> {
    /// The fields of the given kind.
    pub open spec fn of_kind(&self, kind: TransformKind) -> Seq<TransformField<D>> {
        match kind {
            TransformKind::Translation => self.translation@,
            TransformKind::Rotation => self.rotation@,
            TransformKind::Scaling => self.scaling@,
            TransformKind::Composite => self.composite@,
        }
    }
}

impl<D> Default for Transformations<D> {
    fn default() -> (r: Self)
        ensures
            r.translation is Empty,
            r.rotation is Empty,
            r.scaling is Empty,
            r.composite is Empty,
            r.translation@.len() == 0,
            r.rotation@.len() == 0,
            r.scaling@.len() == 0,
            r.composite@.len() == 0,
    {
        Transformations {
            translation: SingleOrVec::Empty,
            rotation: SingleOrVec::Empty,
            scaling: SingleOrVec::Empty,
            composite: SingleOrVec::Empty,
        }
    }
}

impl<D: Clone> Transformations<D> {
    /// The first translation with the given id.
    pub fn find_translation(&self, id: usize) -> (r: Option<&TransformField<D>>)
        ensures
            found_as(r, lookup_spec(self.translation@, id)),
    {
        find_by_id(&self.translation, id)
    }

    /// The first scaling with the given id.
    pub fn find_scaling(&self, id: usize) -> (r: Option<&TransformField<D>>)
        ensures
            found_as(r, lookup_spec(self.scaling@, id)),
    {
        find_by_id(&self.scaling, id)
    }

    /// The first rotation with the given id.
    pub fn find_rotation(&self, id: usize) -> (r: Option<&TransformField<D>>)
        ensures
            found_as(r, lookup_spec(self.rotation@, id)),
    {
        find_by_id(&self.rotation, id)
    }

    /// The first composite transformation with the given id.
    pub fn find_composite(&self, id: usize) -> (r: Option<&TransformField<D>>)
        ensures
            found_as(r, lookup_spec(self.composite@, id)),
    {
        find_by_id(&self.composite, id)
    }
}

/// A data block of the scene file: its values, the `_type` that says how they
/// are laid out, and the PLY file they may come from.
#[derive(Debug, Clone)]
pub struct DataField<T> {
    pub _data: Vec<T>,
    pub _type: String,
    pub _ply_file: String,
}

impl<T> Default for DataField<T> {
    /// No values, empty `_type` and no PLY file.
    fn default() -> (r: Self)
        ensures
            r._data@.len() == 0,
            r._type@.len() == 0,
            r._ply_file@.len() == 0,
    {
        DataField { _data: Vec::new(), _type: String::new(), _ply_file: String::new() }
    }
}

/// Face indices, three per triangle.
pub type FaceType = DataField<usize>;

impl DataField<usize> {
    /// Number of whole triangles the indices describe.
    pub fn len_tris(&self) -> (n: usize)
        ensures
            n == self._data@.len() / 3,
    {
        self._data.len() / 3
    }

    /// Whether there are no indices at all.
    pub fn is_empty(&self) -> (b: bool)
        ensures
            b == (self._data@.len() == 0),
    {
        self._data.len() == 0
    }

    /// The three vertex indices of triangle `i`.
    pub fn get_tri_indices(&self, i: usize) -> (r: [usize; 3])
        requires
            3 * i + 2 < self._data@.len(),
        ensures
            r@ == self._data@.subrange(3 * i, 3 * i + 3),
    {
        let len = self._data.len();
        assert(3 * i + 2 < len);
        let start = i * 3;
        let r = [self._data[start], self._data[start + 1], self._data[start + 2]];
        assert(r@ =~= self._data@.subrange(3 * i, 3 * i + 3));
        r
    }
}

/// Where, in a stored triple laid out as `layout`, the x, y and z components
/// are; unknown layouts are taken as `xyz`.
pub open spec fn layout_positions(layout: Seq<char>) -> (int, int, int) {
    if layout == seq!['x', 'z', 'y'] {
        (0, 2, 1)
    } else if layout == seq!['y', 'x', 'z'] {
        (1, 0, 2)
    } else if layout == seq!['y', 'z', 'x'] {
        (2, 0, 1)
    } else if layout == seq!['z', 'x', 'y'] {
        (1, 2, 0)
    } else if layout == seq!['z', 'y', 'x'] {
        (2, 1, 0)
    } else {
        (0, 1, 2)
    }
}

/// The components of a point stored as `layout`, put in `xyz` order.
pub open spec fn point_to_xyz<T>(p: [T; 3], layout: Seq<char>) -> [T; 3] {
    let pos = layout_positions(layout);
    [p@[pos.0], p@[pos.1], p@[pos.2]]
}

/// Every point of `d` rewritten from `layout` to `xyz` order; the number of
/// points is kept.
pub open spec fn to_xyz<T>(d: Seq<[T; 3]>, layout: Seq<char>) -> Seq<[T; 3]> {
    d.map_values(|p: [T; 3]| point_to_xyz(p, layout))
}

/// The layout name `xyz`.
pub open spec fn xyz() -> Seq<char> {
    seq!['x', 'y', 'z']
}

/// Rewriting triples that are already in `xyz` order changes nothing: a field
/// normalized once is left as it is by a second normalization.
pub proof fn law_to_xyz_idempotent<T>(d: Seq<[T; 3]>, layout: Seq<char>)
    ensures
        to_xyz(to_xyz(d, layout), xyz()) == to_xyz(d, layout),
{
    let e = to_xyz(d, layout);
    assert(xyz() != seq!['x', 'z', 'y']) by {
        assert(xyz()[1] != seq!['x', 'z', 'y'][1]);
    }
    assert(xyz() != seq!['y', 'x', 'z']) by {
        assert(xyz()[0] != seq!['y', 'x', 'z'][0]);
    }
    assert(xyz() != seq!['y', 'z', 'x']) by {
        assert(xyz()[0] != seq!['y', 'z', 'x'][0]);
    }
    assert(xyz() != seq!['z', 'x', 'y']) by {
        assert(xyz()[0] != seq!['z', 'x', 'y'][0]);
    }
    assert(xyz() != seq!['z', 'y', 'x']) by {
        assert(xyz()[0] != seq!['z', 'y', 'x'][0]);
    }
    assert(layout_positions(xyz()) == (0int, 1int, 2int));
    assert forall|i: int| 0 <= i < e.len() implies #[trigger] to_xyz(e, xyz())[i] == e[i] by {
        let p = e[i];
        let q = point_to_xyz(p, xyz());
        assert(q@ =~= p@);
    }
    assert(to_xyz(e, xyz()) =~= e);
}

fn layout_of(ty: &str) -> (p: (usize, usize, usize))
    ensures
        p.0 as int == layout_positions(ty@).0,
        p.1 as int == layout_positions(ty@).1,
        p.2 as int == layout_positions(ty@).2,
{
    proof {
        reveal_strlit("xzy");
        assert("xzy"@ =~= seq!['x', 'z', 'y']);
        reveal_strlit("yxz");
        assert("yxz"@ =~= seq!['y', 'x', 'z']);
        reveal_strlit("yzx");
        assert("yzx"@ =~= seq!['y', 'z', 'x']);
        reveal_strlit("zxy");
        assert("zxy"@ =~= seq!['z', 'x', 'y']);
        reveal_strlit("zyx");
        assert("zyx"@ =~= seq!['z', 'y', 'x']);
    }
    if str_eq(ty, "xzy") {
        (0, 2, 1)
    } else if str_eq(ty, "yxz") {
        (1, 0, 2)
    } else if str_eq(ty, "yzx") {
        (2, 0, 1)
    } else if str_eq(ty, "zxy") {
        (1, 2, 0)
    } else if str_eq(ty, "zyx") {
        (2, 1, 0)
    } else {
        (0, 1, 2)
    }
}

impl<T: Copy> DataField<T> {
    /// Number of whole `(u, v)` pairs the values hold.
    pub fn len_uv(&self) -> (n: usize)
        ensures
            n == self._data@.len() / 2,
    {
        self._data.len() / 2
    }

    /// The `i`-th `(u, v)` pair.
    pub fn get_uv_coords(&self, i: usize) -> (r: [T; 2])
        requires
            2 * i + 1 < self._data@.len(),
        ensures
            r@ == self._data@.subrange(2 * i, 2 * i + 2),
    {
        let len = self._data.len();
        assert(2 * i + 1 < len);
        let start = 2 * i;
        let r = [self._data[start], self._data[start + 1]];
        assert(r@ =~= self._data@.subrange(2 * i, 2 * i + 2));
        r
    }
}

impl<T: Copy> DataField<[T; 3]> {
    /// Rewrites points stored in another component order (`_type` such as
    /// `"zxy"`) to `xyz` order, point by point, keeping their number; an
    /// unknown order is taken as `xyz`. Returns false, changing nothing, when
    /// the data is already `xyz`.
    pub fn normalize_to_xyz(&mut self) -> (changed: bool)
        ensures
            changed == (old(self)._type@ != xyz()),
            !changed ==> *final(self) == *old(self),
            changed ==> {
                &&& final(self)._type@ == xyz()
                &&& final(self)._data@ == to_xyz(old(self)._data@, old(self)._type@)
                &&& final(self)._ply_file == old(self)._ply_file
            },
    {
        proof {
            reveal_strlit("xyz");
            assert("xyz"@ =~= xyz());
        }
        if str_eq(self._type.as_str(), "xyz") {
            return false;
        }
        let (px, py, pz) = layout_of(self._type.as_str());
        let ghost pos = layout_positions(self._type@);
        let n = self._data.len();
        let mut new_data: Vec<[T; 3]> = Vec::new();
        let mut k: usize = 0;
        while k < n
            invariant
                n == self._data@.len(),
                k <= n,
                pos == layout_positions(self._type@),
                px as int == pos.0,
                py as int == pos.1,
                pz as int == pos.2,
                0 <= pos.0 < 3 && 0 <= pos.1 < 3 && 0 <= pos.2 < 3,
                new_data@ =~= to_xyz(self._data@.take(k as int), self._type@),
            decreases n - k,
        {
            let p = self._data[k];
            let q = [p[px], p[py], p[pz]];
            assert(q == point_to_xyz(p, self._type@));
            new_data.push(q);
            assert(self._data@.take(k + 1) =~= self._data@.take(k as int).push(p));
            k += 1;
        }
        assert(self._data@.take(n as int) =~= self._data@);
        self._data = new_data;
        self._type = "xyz".to_owned();
        true
    }
}

/// A face as a PLY file stores it: the indices of its vertices.
#[derive(Debug, Clone)]
pub struct Face {
    pub vertex_indices: Vec<usize>,
}

} // verus!
