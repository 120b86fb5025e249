use vstd::prelude::*;

verus! {

/// Index of a subobject in the model's subobject table.
#[derive(Clone, Copy, Debug, Default, PartialEq, Eq, Structural, Hash)]
pub struct ObjectId(pub u32);

/// Index into the model's texture name list.
#[derive(Clone, Copy, Debug, Default, PartialEq, Eq, Structural, Hash)]
pub struct TextureId(pub u32);

/// Index into a subobject's vertex pool.
#[derive(Clone, Copy, Debug, Default, PartialEq, Eq, Structural, Hash)]
pub struct VertexId(pub u32);

/// Index into a subobject's normal pool.
#[derive(Clone, Copy, Debug, Default, PartialEq, Eq, Structural, Hash)]
pub struct NormalId(pub u32);

/// Index into the shield's polygon array.
#[derive(Clone, Copy, Debug, Default, PartialEq, Eq, Structural, Hash)]
pub struct PolygonId(pub u32);

/// Index into the model's path list.
#[derive(Clone, Copy, Debug, Default, PartialEq, Eq, Structural, Hash)]
pub struct PathId(pub u32);

impl TextureId {
    /// The sentinel that marks untextured polygons during the transient
    /// pre-cleanup stage of reading.
    pub fn untextured() -> (r: TextureId)
        ensures
            r.0 == u32::MAX,
    {
        TextureId(u32::MAX)
    }
}

/// A vector indexed by `ObjectId` only, so that subobject indices cannot be
/// confused with other kinds of index.
#[derive(Debug)]
pub struct ObjVec<T>(pub Vec<T>);

impl<T> ObjVec<T> {
    pub open spec fn view(&self) -> Seq<T> {
        self.0@
    }

    pub fn new() -> (r: ObjVec<T>)
        ensures
            r@ == Seq::<T>::empty(),
    {
        ObjVec(Vec::new())
    }

    pub fn len(&self) -> (r: usize)
        ensures
            r == self@.len(),
    {
        self.0.len()
    }

    pub fn at(&self, id: ObjectId) -> (r: &T)
        requires
            id.0 < self@.len(),
        ensures
            *r == self@[id.0 as int],
    {
        &self.0[id.0 as usize]
    }

    pub fn at_mut(&mut self, id: ObjectId) -> (r: &mut T)
        requires
            id.0 < old(self)@.len(),
        ensures
            *r == old(self)@[id.0 as int],
            final(self)@ == old(self)@.update(id.0 as int, *final(r)),
    {
        &mut self.0.as_mut_slice()[id.0 as usize]
    }

    pub fn push(&mut self, value: T)
        ensures
            final(self)@ == old(self)@.push(value),
    {
        self.0.push(value);
    }
}

impl<T> Default for ObjVec<T> {
    fn default() -> (r: Self)
        ensures
            r@ == Seq::<T>::empty(),
    {
        ObjVec(Vec::new())
    }
}

} // verus!
