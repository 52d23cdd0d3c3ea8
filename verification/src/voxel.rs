//! Voxels, and the dense padded grid that a sparse model is loaded into.

use crate::math::UVec3;
use crate::registry::RefractionTable;
use crate::shape::{
    cell_count, copy_shape, extents_fit, in_box, lemma_linear_index_in_range,
    lemma_linear_index_injective, linear_index, new_shape, shape_dimensions, shape_extents,
    shape_linearize,
};
use vstd::prelude::*;

verus! {

/// How a cell takes part in meshing.
#[derive(Clone, Copy, Debug, PartialEq, Eq, Structural)]
pub enum Visibility {
    /// The cell produces no geometry.
    Empty,
    /// The cell produces geometry and lets light through.
    Translucent,
    /// The cell produces geometry and blocks light.
    Opaque,
}

#[verifier::external_type_specification]
#[verifier::external_body]
pub struct ExVoxelVisibility(block_mesh::VoxelVisibility);

/// A unit cube cell: a palette index and whether its material lets light through.
#[derive(Clone, Copy, Debug, PartialEq, Eq, Structural)]
pub struct Voxel {
    pub index: u8,
    pub is_translucent: bool,
}

/// The voxel of a cell that holds nothing.
pub open spec fn empty_voxel() -> Voxel {
    Voxel { index: 255, is_translucent: false }
}

impl Voxel {
    /// The voxel of a cell that holds nothing.
    pub fn empty() -> (v: Voxel)
        ensures
            v == empty_voxel(),
    {
        Voxel { index: 255, is_translucent: false }
    }

    /// Index 255 marks an empty cell whatever the flag says; any other cell
    /// is translucent or opaque by its flag.
    pub open spec fn visibility(self) -> Visibility {
        if self.index == 255 {
            Visibility::Empty
        } else if self.is_translucent {
            Visibility::Translucent
        } else {
            Visibility::Opaque
        }
    }

    /// How this voxel takes part in meshing.
    pub fn classify(&self) -> (v: Visibility)
        ensures
            v == self.visibility(),
    {
        if self.index == 255 {
            Visibility::Empty
        } else if self.is_translucent {
            Visibility::Translucent
        } else {
            Visibility::Opaque
        }
    }
}

/// The class that a value of `block_mesh::VoxelVisibility` stands for: the
/// variant of `Visibility` with the same name.
pub uninterp spec fn visibility_class(v: block_mesh::VoxelVisibility) -> Visibility;

/// The mesher's own name for a visibility class: each variant of
/// `Visibility` becomes the variant of `block_mesh::VoxelVisibility` with the
/// same name.
#[verifier::external_body]
fn mesher_visibility(v: Visibility) -> (r: block_mesh::VoxelVisibility)
    ensures
        visibility_class(r) == v,
{
    match v {
        Visibility::Empty => block_mesh::VoxelVisibility::Empty,
        Visibility::Translucent => block_mesh::VoxelVisibility::Translucent,
        Visibility::Opaque => block_mesh::VoxelVisibility::Opaque,
    }
}

impl block_mesh::Voxel for Voxel {
    /// How the mesher is to treat this voxel: as empty if its index is 255,
    /// else as translucent or opaque by its flag.
    fn get_visibility(&self) -> (seen: block_mesh::VoxelVisibility)
        ensures
            visibility_class(seen) == self.visibility(),
    {
        mesher_visibility(self.classify())
    }
}

impl block_mesh::MergeVoxel for Voxel {
    type MergeValue = Voxel;

    fn merge_value(&self) -> (value: Voxel)
        ensures
            value == *self,
    {
        *self
    }
}

/// Extents of a source model along its own axes.
#[derive(Clone, Copy, Debug, PartialEq, Eq, Structural)]
pub struct Size {
    pub x: u32,
    pub y: u32,
    pub z: u32,
}

/// One entry of a model's sparse voxel list: a position along the model's
/// own axes and a palette index.
#[derive(Clone, Copy, Debug, PartialEq, Eq, Structural)]
pub struct SourceVoxel {
    pub x: u8,
    pub y: u8,
    pub z: u8,
    pub i: u8,
}

/// A sparse voxel model as the file decoder hands it over.
#[derive(Clone, Debug)]
pub struct Model {
    pub size: Size,
    pub voxels: Vec<SourceVoxel>,
}

impl Size {
    /// Extents of the grid for a model of this size: one empty cell on every
    /// side, and the model's vertical axis (z) as the grid's second axis.
    pub open spec fn padded(self) -> (int, int, int) {
        (self.x + 2, self.z + 2, self.y + 2)
    }

    /// The padded grid has at most `u32::MAX` cells.
    pub open spec fn fits(self) -> bool {
        cell_count(self.padded()) <= u32::MAX
    }

    /// Whether a grid for a model of this size can be made.
    pub fn can_load(&self) -> (ok: bool)
        ensures
            ok == self.fits(),
    {
        let limit: u64 = 0xffff_ffff;
        let ex: u64 = self.x as u64 + 2;
        let ey: u64 = self.z as u64 + 2;
        let ez: u64 = self.y as u64 + 2;
        assert(ex * ey <= 0x1_0000_0001 * 0x1_0000_0001) by (nonlinear_arith)
            requires
                0 <= ex <= 0x1_0000_0001,
                0 <= ey <= 0x1_0000_0001,
        ;
        let plane: u128 = ex as u128 * ey as u128;
        proof {
            assert(plane * ez >= plane) by (nonlinear_arith)
                requires
                    plane >= 0,
                    ez >= 2,
            ;
        }
        if plane > limit as u128 {
            return false;
        }
        assert(plane * ez <= 0xffff_ffff * 0x1_0000_0001) by (nonlinear_arith)
            requires
                0 <= plane <= 0xffff_ffff,
                0 <= ez <= 0x1_0000_0001,
        ;
        let cells: u128 = plane * ez as u128;
        cells <= limit as u128
    }
}

impl SourceVoxel {
    /// The voxel lies inside a model of the given size.
    pub open spec fn inside(self, size: Size) -> bool {
        self.x < size.x && self.y < size.y && self.z < size.z
    }

    /// Whether the voxel lies inside a model of the given size. One that
    /// does not is dropped when the model is loaded.
    pub fn is_inside(&self, size: &Size) -> (inside: bool)
        ensures
            inside == self.inside(*size),
    {
        (self.x as u32) < size.x && (self.y as u32) < size.y && (self.z as u32) < size.z
    }

    /// The grid cell for this voxel: the x axis is mirrored, y and z trade
    /// places, and the padding shifts every coordinate by one.
    pub open spec fn cell(self, size: Size) -> (int, int, int) {
        (size.x - self.x, self.z + 1, self.y + 1)
    }

    /// What the grid stores for this voxel: its palette index, flagged
    /// translucent exactly if the table has a refractive index for it.
    pub open spec fn stored(self, table: Map<u8, u32>) -> Voxel {
        Voxel { index: self.i, is_translucent: table.contains_key(self.i) }
    }
}

/// What a cell holds once the listed voxels were written in order: the last
/// voxel inside the model whose cell it is, or nothing.
pub open spec fn written_at(
    voxels: Seq<SourceVoxel>,
    size: Size,
    table: Map<u8, u32>,
    p: (int, int, int),
) -> Voxel
    decreases voxels.len(),
{
    if voxels.len() == 0 {
        empty_voxel()
    } else if voxels.last().inside(size) && voxels.last().cell(size) == p {
        voxels.last().stored(table)
    } else {
        written_at(voxels.drop_last(), size, table, p)
    }
}

/// How many of the listed voxels lie outside the model, and so are dropped
/// when it is loaded.
pub open spec fn dropped_count(voxels: Seq<SourceVoxel>, size: Size) -> nat
    decreases voxels.len(),
{
    if voxels.len() == 0 {
        0
    } else if voxels.last().inside(size) {
        dropped_count(voxels.drop_last(), size)
    } else {
        dropped_count(voxels.drop_last(), size) + 1
    }
}

/// The cells of the padded grid, in row-major order, once the listed voxels
/// were written in order: all empty at first, then each voxel inside the
/// model written over its cell.
pub open spec fn grid_cells(voxels: Seq<SourceVoxel>, size: Size, table: Map<u8, u32>) -> Seq<Voxel>
    decreases voxels.len(),
{
    if voxels.len() == 0 {
        Seq::new(cell_count(size.padded()) as nat, |k: int| empty_voxel())
    } else if voxels.last().inside(size) {
        grid_cells(voxels.drop_last(), size, table).update(
            linear_index(size.padded(), voxels.last().cell(size)),
            voxels.last().stored(table),
        )
    } else {
        grid_cells(voxels.drop_last(), size, table)
    }
}

/// The refractive indices met while the listed voxels were written: one for
/// each voxel inside the model whose material is translucent, in list order.
pub open spec fn refractions_met(voxels: Seq<SourceVoxel>, size: Size, table: Map<u8, u32>) -> Seq<
    u32,
>
    decreases voxels.len(),
{
    if voxels.len() == 0 {
        Seq::empty()
    } else if voxels.last().inside(size) && table.contains_key(voxels.last().i) {
        refractions_met(voxels.drop_last(), size, table).push(table[voxels.last().i])
    } else {
        refractions_met(voxels.drop_last(), size, table)
    }
}

/// The refractive indices of the voxels of a grid: one for each cell, in
/// row-major order, that holds a voxel whose palette index has an entry in
/// the table. An empty cell has none, whatever the table says of index 255.
pub open spec fn refractions_of(cells: Seq<Voxel>, table: Map<u8, u32>) -> Seq<u32>
    decreases cells.len(),
{
    if cells.len() == 0 {
        Seq::empty()
    } else if cells.last().index != 255 && table.contains_key(cells.last().index) {
        refractions_of(cells.drop_last(), table).push(table[cells.last().index])
    } else {
        refractions_of(cells.drop_last(), table)
    }
}

/// A grid has a refractive index exactly if one of its cells holds a voxel
/// whose palette index has an entry in the table.
pub proof fn lemma_refraction_iff_translucent_material(cells: Seq<Voxel>, table: Map<u8, u32>)
    ensures
        refractions_of(cells, table).len() > 0 <==> exists|k: int|
            0 <= k < cells.len() && (#[trigger] cells[k]).index != 255 && table.contains_key(
                cells[k].index,
            ),
    decreases cells.len(),
{
    if cells.len() > 0 {
        let earlier = cells.drop_last();
        lemma_refraction_iff_translucent_material(earlier, table);
        if refractions_of(cells, table).len() > 0 {
            if cells.last().index != 255 && table.contains_key(cells.last().index) {
                assert(cells[cells.len() - 1] == cells.last());
            } else {
                let k = choose|k: int|
                    0 <= k < earlier.len() && (#[trigger] earlier[k]).index != 255
                        && table.contains_key(earlier[k].index);
                assert(cells[k] == earlier[k]);
            }
        }
        if exists|k: int|
            0 <= k < cells.len() && (#[trigger] cells[k]).index != 255 && table.contains_key(
                cells[k].index,
            ) {
            let k = choose|k: int|
                0 <= k < cells.len() && (#[trigger] cells[k]).index != 255 && table.contains_key(
                    cells[k].index,
                );
            if k < earlier.len() {
                assert(earlier[k] == cells[k]);
            }
        }
    }
}

/// A refractive index is met exactly if some voxel of the list lies inside
/// the model and has a translucent material.
pub proof fn lemma_refraction_met_iff_tagged(voxels: Seq<SourceVoxel>, size: Size, table: Map<u8, u32>)
    ensures
        refractions_met(voxels, size, table).len() > 0 <==> exists|k: int|
            0 <= k < voxels.len() && (#[trigger] voxels[k]).inside(size) && table.contains_key(
                voxels[k].i,
            ),
    decreases voxels.len(),
{
    if voxels.len() > 0 {
        let earlier = voxels.drop_last();
        lemma_refraction_met_iff_tagged(earlier, size, table);
        if refractions_met(voxels, size, table).len() > 0 {
            if voxels.last().inside(size) && table.contains_key(voxels.last().i) {
                assert(voxels[voxels.len() - 1] == voxels.last());
            } else {
                let k = choose|k: int|
                    0 <= k < earlier.len() && (#[trigger] earlier[k]).inside(size)
                        && table.contains_key(earlier[k].i);
                assert(voxels[k] == earlier[k]);
            }
        }
        if exists|k: int|
            0 <= k < voxels.len() && (#[trigger] voxels[k]).inside(size) && table.contains_key(
                voxels[k].i,
            ) {
            let k = choose|k: int|
                0 <= k < voxels.len() && (#[trigger] voxels[k]).inside(size) && table.contains_key(
                    voxels[k].i,
                );
            if k < earlier.len() {
                assert(earlier[k] == voxels[k]);
            }
        }
    }
}

/// A dense grid of voxels in row-major order.
pub struct VoxelData {
    pub shape: ndshape::RuntimeShape<u32, 3>,
    pub voxels: Vec<Voxel>,
}

impl VoxelData {
    /// The grid's extents, padding included.
    pub open spec fn extents(&self) -> (int, int, int) {
        shape_extents(self.shape)
    }

    /// The grid has its padding on every axis, its cell count fits in a
    /// `u32`, and it holds one voxel per cell.
    pub open spec fn wf(&self) -> bool {
        &&& 2 <= self.extents().0
        &&& 2 <= self.extents().1
        &&& 2 <= self.extents().2
        &&& extents_fit(self.extents())
        &&& self.voxels@.len() == cell_count(self.extents())
    }

    /// The voxel in cell `p`.
    pub open spec fn cell(&self, p: (int, int, int)) -> Voxel
        recommends
            in_box(self.extents(), p),
    {
        self.voxels@[linear_index(self.extents(), p)]
    }

    /// This grid is what loading the given model yields: the padded extents
    /// of the model, and in every cell what the model's voxel list wrote
    /// there last.
    pub open spec fn holds_model(&self, size: Size, voxels: Seq<SourceVoxel>, table: Map<u8, u32>) -> bool {
        &&& self.wf()
        &&& self.extents() == size.padded()
        &&& forall|p: (int, int, int)|
            in_box(size.padded(), p) ==> self.cell(p) == #[trigger] written_at(
                voxels,
                size,
                table,
                p,
            )
    }
}

impl VoxelData {
    /// The extents of the model inside the padding.
    pub open spec fn model_extents(&self) -> (int, int, int) {
        (self.extents().0 - 2, self.extents().1 - 2, self.extents().2 - 2)
    }

    /// Some cell holds a translucent voxel.
    pub open spec fn has_translucent_voxel(&self) -> bool {
        exists|k: int|
            0 <= k < self.voxels@.len() && (#[trigger] self.voxels@[k]).visibility()
                == Visibility::Translucent
    }

    /// The extents of the model inside the padding.
    pub fn size(&self) -> (size: UVec3)
        requires
            self.wf(),
        ensures
            size.ints() == self.model_extents(),
    {
        let dims = shape_dimensions(&self.shape);
        UVec3 { x: dims.0 - 2, y: dims.1 - 2, z: dims.2 - 2 }
    }

    /// The smallest extent of the model, which stands for the thickness of
    /// a translucent model.
    pub fn thickness(&self) -> (least: u32)
        requires
            self.wf(),
        ensures
            least <= self.model_extents().0,
            least <= self.model_extents().1,
            least <= self.model_extents().2,
            least == self.model_extents().0 || least == self.model_extents().1 || least
                == self.model_extents().2,
    {
        let size = self.size();
        let mut least = size.x;
        if size.y < least {
            least = size.y;
        }
        if size.z < least {
            least = size.z;
        }
        least
    }

    /// Whether the grid is well formed.
    pub fn is_well_formed(&self) -> (ok: bool)
        ensures
            ok == self.wf(),
    {
        let dims = shape_dimensions(&self.shape);
        if dims.0 < 2 || dims.1 < 2 || dims.2 < 2 {
            return false;
        }
        assert(dims.0 * dims.1 <= 0xffff_ffff * 0xffff_ffff) by (nonlinear_arith)
            requires
                0 <= dims.0 <= 0xffff_ffff,
                0 <= dims.1 <= 0xffff_ffff,
        ;
        let plane: u64 = dims.0 as u64 * dims.1 as u64;
        proof {
            let (ex, ey, ez) = self.extents();
            assert(ex * ey <= ex * ey * ez) by (nonlinear_arith)
                requires
                    ex >= 2,
                    ey >= 2,
                    ez >= 2,
            ;
        }
        if plane > 0xffff_ffff {
            return false;
        }
        assert(plane * dims.2 <= 0xffff_ffff * 0xffff_ffff) by (nonlinear_arith)
            requires
                0 <= plane <= 0xffff_ffff,
                0 <= dims.2 <= 0xffff_ffff,
        ;
        let cells: u64 = plane * dims.2 as u64;
        if cells > 0xffff_ffff {
            return false;
        }
        self.voxels.len() as u64 == cells
    }

    /// Whether some cell holds a translucent voxel.
    pub fn contains_translucent(&self) -> (found: bool)
        ensures
            found == self.has_translucent_voxel(),
    {
        let mut k: usize = 0;
        while k < self.voxels.len()
            invariant
                k <= self.voxels.len(),
                forall|j: int|
                    0 <= j < k ==> (#[trigger] self.voxels@[j]).visibility()
                        != Visibility::Translucent,
            decreases self.voxels.len() - k,
        {
            match self.voxels[k].classify() {
                Visibility::Translucent => {
                    return true;
                },
                _ => {},
            }
            k += 1;
        }
        false
    }

    /// The refractive indices of the grid's voxels, by the table of the
    /// palette that the grid is shown with.
    pub fn refraction_indices(&self, translucent_voxels: &RefractionTable) -> (indices: Vec<u32>)
        ensures
            indices@ == refractions_of(self.voxels@, translucent_voxels@),
    {
        let mut indices: Vec<u32> = Vec::new();
        let mut k: usize = 0;
        while k < self.voxels.len()
            invariant
                k <= self.voxels.len(),
                indices@ == refractions_of(self.voxels@.take(k as int), translucent_voxels@),
            decreases self.voxels.len() - k,
        {
            assert(self.voxels@.take(k + 1).drop_last() == self.voxels@.take(k as int));
            let voxel = self.voxels[k];
            if voxel.index != 255 {
                if let Some(bits) = translucent_voxels.find(voxel.index) {
                    indices.push(bits);
                }
            }
            k += 1;
        }
        assert(self.voxels@.take(k as int) == self.voxels@);
        indices
    }

    /// A copy of the grid.
    pub fn duplicate(&self) -> (copy: VoxelData)
        ensures
            copy.extents() == self.extents(),
            copy.voxels@ == self.voxels@,
    {
        let mut voxels: Vec<Voxel> = Vec::new();
        let mut k: usize = 0;
        while k < self.voxels.len()
            invariant
                k <= self.voxels.len(),
                voxels@ == self.voxels@.take(k as int),
            decreases self.voxels.len() - k,
        {
            voxels.push(self.voxels[k]);
            assert(self.voxels@.take(k + 1) =~= self.voxels@.take(k as int).push(self.voxels@[k as int]));
            k += 1;
        }
        assert(self.voxels@.take(k as int) == self.voxels@);
        VoxelData { shape: copy_shape(&self.shape), voxels }
    }
}

/// A padded grid whose cell count fits has extents and strides that fit too.
proof fn lemma_padded_fit(size: Size)
    requires
        size.fits(),
    ensures
        extents_fit(size.padded()),
        size.x + 2 <= u32::MAX,
        size.y + 2 <= u32::MAX,
        size.z + 2 <= u32::MAX,
{
    let (ex, ey, ez) = size.padded();
    assert(ex * ey <= ex * ey * ez && ex <= ex * ey && ey <= ex * ey && ez <= ex * ey * ez)
        by (nonlinear_arith)
        requires
            ex >= 2,
            ey >= 2,
            ez >= 2,
    ;
}

/// The cell of a voxel inside the model is a cell of the padded grid, away
/// from the padding.
pub proof fn lemma_cell_is_interior(v: SourceVoxel, size: Size)
    requires
        v.inside(size),
    ensures
        in_box(size.padded(), v.cell(size)),
        1 <= v.cell(size).0 <= size.x,
        1 <= v.cell(size).1 <= size.z,
        1 <= v.cell(size).2 <= size.y,
{
}

/// Two voxels at different positions inside a model get different cells of
/// the padded grid, at different places of its row-major order.
pub proof fn lemma_cells_do_not_collide(a: SourceVoxel, b: SourceVoxel, size: Size)
    requires
        a.inside(size),
        b.inside(size),
        a.x != b.x || a.y != b.y || a.z != b.z,
    ensures
        a.cell(size) != b.cell(size),
        linear_index(size.padded(), a.cell(size)) != linear_index(size.padded(), b.cell(size)),
{
    if linear_index(size.padded(), a.cell(size)) == linear_index(size.padded(), b.cell(size)) {
        lemma_linear_index_injective(size.padded(), a.cell(size), b.cell(size));
    }
}

/// Counts the voxels of a model that lie outside its size. Loading the
/// model drops them; the count is for the caller to report.
pub fn count_dropped(model: &Model) -> (dropped: usize)
    ensures
        dropped == dropped_count(model.voxels@, model.size),
{
    let mut dropped: usize = 0;
    let mut i: usize = 0;
    while i < model.voxels.len()
        invariant
            i <= model.voxels.len(),
            dropped == dropped_count(model.voxels@.take(i as int), model.size),
            dropped <= i,
        decreases model.voxels.len() - i,
    {
        assert(model.voxels@.take(i + 1).drop_last() == model.voxels@.take(i as int));
        if !model.voxels[i].is_inside(&model.size) {
            dropped += 1;
        }
        i += 1;
    }
    assert(model.voxels@.take(i as int) == model.voxels@);
    dropped
}

/// Loads a sparse model into a dense grid with one empty cell of padding on
/// every side, and collects the refractive indices of the translucent voxels
/// it wrote. A voxel outside the model's size is dropped.
pub fn load_from_model(model: &Model, translucent_voxels: &RefractionTable) -> (out: (
    VoxelData,
    Vec<u32>,
))
    requires
        model.size.fits(),
    ensures
        out.0.holds_model(model.size, model.voxels@, translucent_voxels@),
        out.0.voxels@ == grid_cells(model.voxels@, model.size, translucent_voxels@),
        out.1@ == refractions_met(model.voxels@, model.size, translucent_voxels@),
{
    let size = model.size;
    proof {
        lemma_padded_fit(size);
    }
    let shape = new_shape(size.x + 2, size.z + 2, size.y + 2);
    let ghost extents = size.padded();
    let ghost table = translucent_voxels@;
    let cells: u32 = (size.x + 2) * (size.z + 2) * (size.y + 2);
    let mut voxels: Vec<Voxel> = Vec::new();
    let mut filled: u32 = 0;
    while filled < cells
        invariant
            filled <= cells,
            voxels@.len() == filled,
            forall|k: int| 0 <= k < filled ==> voxels@[k] == empty_voxel(),
        decreases cells - filled,
    {
        voxels.push(Voxel::empty());
        filled += 1;
    }
    let mut refraction_indices: Vec<u32> = Vec::new();
    let mut i: usize = 0;
    assert(voxels@ =~= grid_cells(model.voxels@.take(0), size, table));
    proof {
        assert forall|p: (int, int, int)| in_box(extents, p) implies voxels@[linear_index(
            extents,
            p,
        )] == #[trigger] written_at(model.voxels@.take(0), size, table, p) by {
            lemma_linear_index_in_range(extents, p);
        }
    }
    while i < model.voxels.len()
        invariant
            i <= model.voxels.len(),
            size == model.size,
            table == translucent_voxels@,
            extents == size.padded(),
            extents_fit(extents),
            shape_extents(shape) == extents,
            voxels@.len() == cell_count(extents),
            voxels@ == grid_cells(model.voxels@.take(i as int), size, table),
            forall|p: (int, int, int)|
                in_box(extents, p) ==> voxels@[linear_index(extents, p)] == #[trigger] written_at(
                    model.voxels@.take(i as int),
                    size,
                    table,
                    p,
                ),
            refraction_indices@ == refractions_met(model.voxels@.take(i as int), size, table),
        decreases model.voxels.len() - i,
    {
        let voxel = model.voxels[i];
        let ghost before = voxels@;
        let ghost earlier = model.voxels@.take(i as int);
        let ghost now = model.voxels@.take(i + 1);
        assert(now.drop_last() == earlier);
        assert(now.last() == voxel);
        if voxel.x as u32 >= size.x || voxel.y as u32 >= size.y || voxel.z as u32 >= size.z {
            assert(!voxel.inside(size));
            assert forall|p: (int, int, int)| in_box(extents, p) implies voxels@[linear_index(
                extents,
                p,
            )] == #[trigger] written_at(now, size, table, p) by {
                lemma_linear_index_in_range(extents, p);
                assert(written_at(now, size, table, p) == written_at(earlier, size, table, p));
            }
        } else {
            proof {
                lemma_linear_index_in_range(extents, voxel.cell(size));
            }
            let index = shape_linearize(
                &shape,
                size.x - voxel.x as u32,
                voxel.z as u32 + 1,
                voxel.y as u32 + 1,
            ) as usize;
            let ior = translucent_voxels.find(voxel.i);
            let is_translucent = ior.is_some();
            if let Some(bits) = ior {
                refraction_indices.push(bits);
            }
            voxels.set(index, Voxel { index: voxel.i, is_translucent });
            proof {
                assert forall|p: (int, int, int)| in_box(extents, p) implies voxels@[linear_index(
                    extents,
                    p,
                )] == #[trigger] written_at(now, size, table, p) by {
                    lemma_linear_index_in_range(extents, p);
                    if p != voxel.cell(size) {
                        if linear_index(extents, p) == linear_index(extents, voxel.cell(size)) {
                            lemma_linear_index_injective(extents, p, voxel.cell(size));
                        }
                        assert(written_at(now, size, table, p) == written_at(
                            earlier,
                            size,
                            table,
                            p,
                        ));
                    }
                }
            }
        }
        i += 1;
    }
    assert(model.voxels@.take(i as int) == model.voxels@);
    let data = VoxelData { shape, voxels };
    (data, refraction_indices)
}

} // verus!
