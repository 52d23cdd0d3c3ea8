//! Looking up the voxel at a point of a model.

use crate::math::{IVec3, UVec3};
use crate::model::VoxelModel;
use crate::shape::{in_box, lemma_linear_index_in_range, shape_linearize};
use crate::voxel::{written_at, Size, SourceVoxel, Voxel, VoxelData};
use vstd::prelude::*;

verus! {

/// The point as unsigned coordinates, if it lies inside a model of the
/// given size: every coordinate at least zero and below its extent.
pub open spec fn point_within(size: (int, int, int), point: IVec3) -> Option<UVec3> {
    if in_box(size, point.ints()) {
        Some(UVec3 { x: point.x as u32, y: point.y as u32, z: point.z as u32 })
    } else {
        None
    }
}

/// The voxel that a grid holds at a point of the model inside its padding,
/// and none for a point outside the model.
pub open spec fn voxel_within(data: VoxelData, point: IVec3) -> Option<Voxel> {
    if in_box(data.model_extents(), point.ints()) {
        Some(data.cell((point.x + 1, point.y + 1, point.z + 1)))
    } else {
        None
    }
}

/// Getting the size of a voxel model and the voxel at a given point, in
/// voxel space: the model's own cells, counted from zero along each axis of
/// the grid.
pub trait VoxelQueryable {
    /// The grid behind the model.
    spec fn grid(&self) -> VoxelData;

    /// The size of the voxel model.
    fn size(&self) -> (size: IVec3)
        requires
            self.grid().wf(),
        ensures
            size.ints() == self.grid().model_extents(),
    ;

    /// If the voxel-space `point` is within the bounds of the model, it is
    /// returned as unsigned coordinates.
    fn point_in_model(&self, point: IVec3) -> (inside: Option<UVec3>)
        requires
            self.grid().wf(),
        ensures
            inside == point_within(self.grid().model_extents(), point),
    ;

    /// The voxel at the point given in voxel space, or none if the point
    /// lies outside the bounds of the model.
    fn get_voxel_at_point(&self, position: IVec3) -> (voxel: Option<Voxel>)
        requires
            self.grid().wf(),
        ensures
            voxel == voxel_within(self.grid(), position),
    ;
}

/// An extent of a well-formed grid is small enough for a signed coordinate.
proof fn lemma_extents_are_small(data: VoxelData)
    requires
        data.wf(),
    ensures
        data.extents().0 <= i32::MAX,
        data.extents().1 <= i32::MAX,
        data.extents().2 <= i32::MAX,
{
    let (ex, ey, ez) = data.extents();
    assert(4 * ex <= ex * ey * ez && 4 * ey <= ex * ey * ez && 4 * ez <= ex * ey * ez)
        by (nonlinear_arith)
        requires
            ex >= 2,
            ey >= 2,
            ez >= 2,
    ;
}

impl VoxelQueryable for VoxelModel {
    open spec fn grid(&self) -> VoxelData {
        self.data
    }

    fn size(&self) -> (size: IVec3) {
        let size = self.data.size();
        proof {
            lemma_extents_are_small(self.data);
        }
        if size.x > 0x7fff_ffff || size.y > 0x7fff_ffff || size.z > 0x7fff_ffff {
            IVec3 { x: 0, y: 0, z: 0 }
        } else {
            IVec3 { x: size.x as i32, y: size.y as i32, z: size.z as i32 }
        }
    }

    fn point_in_model(&self, point: IVec3) -> (inside: Option<UVec3>) {
        let size = self.size();
        if point.x >= size.x || point.y >= size.y || point.z >= size.z {
            return None;
        }
        if point.x < 0 || point.y < 0 || point.z < 0 {
            return None;
        }
        Some(UVec3 { x: point.x as u32, y: point.y as u32, z: point.z as u32 })
    }

    fn get_voxel_at_point(&self, position: IVec3) -> (voxel: Option<Voxel>) {
        let position = match self.point_in_model(position) {
            Some(position) => position,
            None => {
                return None;
            },
        };
        proof {
            lemma_extents_are_small(self.data);
            lemma_linear_index_in_range(
                self.data.extents(),
                (position.x + 1, position.y + 1, position.z + 1),
            );
        }
        let index = shape_linearize(&self.data.shape, position.x + 1, position.y + 1, position.z + 1) as usize;
        if index < self.data.voxels.len() {
            Some(self.data.voxels[index])
        } else {
            None
        }
    }
}

/// The voxel-space point at which a model's voxel is found after loading:
/// the x axis mirrored, y and z traded.
pub open spec fn voxel_space(v: SourceVoxel, size: Size) -> (int, int, int) {
    (size.x - 1 - v.x, v.z as int, v.y as int)
}

/// Reading back a loaded grid: a point inside the model holds what the
/// model's voxel list wrote last to the matching cell, and a point with a
/// coordinate below zero or not below the model's extent holds nothing.
pub proof fn lemma_query_reads_what_was_written(
    data: VoxelData,
    size: Size,
    voxels: Seq<SourceVoxel>,
    table: Map<u8, u32>,
    point: IVec3,
)
    requires
        data.holds_model(size, voxels, table),
    ensures
        data.model_extents() == (size.x as int, size.z as int, size.y as int),
        in_box(data.model_extents(), point.ints()) ==> voxel_within(data, point) == Some(
            written_at(voxels, size, table, (point.x + 1, point.y + 1, point.z + 1)),
        ),
        !in_box(data.model_extents(), point.ints()) ==> voxel_within(data, point) is None,
{
    if in_box(data.model_extents(), point.ints()) {
        assert(in_box(size.padded(), (point.x + 1, point.y + 1, point.z + 1)));
    }
}

/// What the list wrote to a voxel's cell, when no later voxel of the list
/// shares the cell, is that voxel.
pub proof fn lemma_last_writer_wins(
    voxels: Seq<SourceVoxel>,
    size: Size,
    table: Map<u8, u32>,
    k: int,
)
    requires
        0 <= k < voxels.len(),
        voxels[k].inside(size),
        forall|j: int|
            k < j < voxels.len() && voxels[j].inside(size) ==> #[trigger] voxels[j].cell(size)
                != voxels[k].cell(size),
    ensures
        written_at(voxels, size, table, voxels[k].cell(size)) == voxels[k].stored(table),
    decreases voxels.len(),
{
    if k < voxels.len() - 1 {
        let shorter = voxels.drop_last();
        assert(shorter[k] == voxels[k]);
        assert forall|j: int|
            k < j < shorter.len() && shorter[j].inside(size) implies #[trigger] shorter[j].cell(size)
            != shorter[k].cell(size) by {
            assert(shorter[j] == voxels[j]);
        }
        lemma_last_writer_wins(shorter, size, table, k);
        assert(voxels.last() == voxels[voxels.len() - 1]);
    }
}

/// Round trip: after loading, the voxel-space point of any voxel inside the
/// model that no later voxel overwrote holds that voxel's palette index,
/// flagged translucent exactly if the palette gives it a refractive index.
pub proof fn lemma_loaded_voxel_is_found(
    data: VoxelData,
    size: Size,
    voxels: Seq<SourceVoxel>,
    table: Map<u8, u32>,
    k: int,
)
    requires
        data.holds_model(size, voxels, table),
        0 <= k < voxels.len(),
        voxels[k].inside(size),
        forall|j: int|
            k < j < voxels.len() && voxels[j].inside(size) ==> #[trigger] voxels[j].cell(size)
                != voxels[k].cell(size),
    ensures
        forall|point: IVec3|
            point.ints() == voxel_space(voxels[k], size) ==> #[trigger] voxel_within(data, point)
                == Some(voxels[k].stored(table)),
{
    lemma_last_writer_wins(voxels, size, table, k);
    assert forall|point: IVec3| point.ints() == voxel_space(voxels[k], size) implies #[trigger] voxel_within(
        data,
        point,
    ) == Some(voxels[k].stored(table)) by {
        lemma_query_reads_what_was_written(data, size, voxels, table, point);
        assert((point.x + 1, point.y + 1, point.z + 1) == voxels[k].cell(size));
    }
}

} // verus!
