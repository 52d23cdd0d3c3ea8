//! Meshing: the visible faces of a grid merged into quads by `block_mesh`,
//! and what the renderer needs to know of each quad.

use crate::math::{IVec3, UVec3};
use crate::shape::{
    cell_count, extents_fit, in_box, lemma_linear_index_in_range, linear_index, shape_dimensions,
    shape_extents, shape_linearize,
};
use crate::voxel::{Visibility, Voxel, VoxelData};
use vstd::prelude::*;

verus! {

/// A rectangle of merged voxel faces: the smallest cell it covers, in grid
/// coordinates, and how many cells it spans along the two in-plane axes of
/// its face.
#[derive(Clone, Copy, Debug, PartialEq, Eq, Structural)]
pub struct Quad {
    pub minimum: UVec3,
    pub width: u32,
    pub height: u32,
}

/// The coordinate of a point along axis 0 (x), 1 (y) or 2 (z).
pub open spec fn along(p: (int, int, int), axis: int) -> int {
    if axis == 0 {
        p.0
    } else if axis == 1 {
        p.1
    } else {
        p.2
    }
}

/// The point one step from the origin along an axis, times `length`.
pub open spec fn step(axis: int, length: int) -> (int, int, int) {
    if axis == 0 {
        (length, 0, 0)
    } else if axis == 1 {
        (0, length, 0)
    } else {
        (0, 0, length)
    }
}

/// The sum of two points.
pub open spec fn plus(a: (int, int, int), b: (int, int, int)) -> (int, int, int) {
    (a.0 + b.0, a.1 + b.1, a.2 + b.2)
}

/// The six faces of a cell are numbered 0 to 5: -x, -y, -z, +x, +y, +z.
/// This is the axis a face is perpendicular to.
pub open spec fn normal_axis(face: int) -> int {
    face % 3
}

/// Whether a face looks along its axis (faces 3 to 5) or against it.
pub open spec fn looks_forward(face: int) -> bool {
    face >= 3
}

/// The axis along which a quad of this face has its width: x for the z
/// faces, z for the others.
pub open spec fn width_axis(face: int) -> int {
    if face % 3 == 2 {
        0
    } else {
        2
    }
}

/// The axis along which a quad of this face has its height: x for the y
/// faces, y for the others.
pub open spec fn height_axis(face: int) -> int {
    if face % 3 == 1 {
        0
    } else {
        1
    }
}

/// Whether the two triangles of a quad of this face are listed
/// counter-clockwise as seen along the quad's corner order.
pub open spec fn winds_counter_clockwise(face: int) -> bool {
    face == 0 || face == 4 || face == 5
}

/// The quad covers cells of the box between `min` and `max` that are not on
/// the box's border: its smallest cell lies strictly inside, and it spans
/// at least one cell each way without reaching `max`.
pub open spec fn quad_inside(face: int, quad: Quad, min: (int, int, int), max: (int, int, int)) -> bool {
    &&& min.0 < quad.minimum.x < max.0
    &&& min.1 < quad.minimum.y < max.1
    &&& min.2 < quad.minimum.z < max.2
    &&& 1 <= quad.width
    &&& 1 <= quad.height
    &&& along(quad.minimum.ints(), width_axis(face)) + quad.width <= along(max, width_axis(face))
    &&& along(quad.minimum.ints(), height_axis(face)) + quad.height <= along(max, height_axis(face))
}

/// The cell of a quad that lies `a` cells along its width and `b` cells
/// along its height from its smallest cell.
pub open spec fn quad_cell(face: int, quad: Quad, a: int, b: int) -> (int, int, int) {
    plus(plus(quad.minimum.ints(), step(width_axis(face), a)), step(height_axis(face), b))
}

/// A voxel shows the face it turns to a neighbour: it is not empty, and the
/// neighbour is empty, or lets light through while the voxel itself does
/// not.
pub open spec fn face_shows(own: Visibility, neighbour: Visibility) -> bool {
    own != Visibility::Empty && (neighbour == Visibility::Empty || (neighbour
        == Visibility::Translucent && own == Visibility::Opaque))
}

/// The quad merges only what belongs together: every cell it covers holds
/// the same voxel as its smallest cell, and shows its face to the
/// neighbour that the face looks at.
#[verifier::opaque]
pub open spec fn quad_is_sound(voxels: Seq<Voxel>, extents: (int, int, int), face: int, quad: Quad) -> bool {
    forall|a: int, b: int|
        0 <= a < quad.width && 0 <= b < quad.height ==> {
            let cell = #[trigger] quad_cell(face, quad, a, b);
            &&& voxels[linear_index(extents, cell)] == voxels[linear_index(
                extents,
                quad.minimum.ints(),
            )]
            &&& face_shows(
                voxels[linear_index(extents, cell)].visibility(),
                voxels[linear_index(extents, plus(cell, normal_of(face)))].visibility(),
            )
        }
}

/// The quad covers the cell.
pub open spec fn covers(face: int, quad: Quad, cell: (int, int, int)) -> bool {
    exists|a: int, b: int|
        0 <= a < quad.width && 0 <= b < quad.height && #[trigger] quad_cell(face, quad, a, b) == cell
}

/// No face is left out: every cell strictly inside the box between `min`
/// and `max` that shows its face is covered by one of the quads.
#[verifier::opaque]
pub open spec fn faces_are_covered(
    voxels: Seq<Voxel>,
    extents: (int, int, int),
    min: (int, int, int),
    max: (int, int, int),
    face: int,
    quads: Seq<Quad>,
) -> bool {
    forall|cell: (int, int, int)|
        min.0 < cell.0 < max.0 && min.1 < cell.1 < max.1 && min.2 < cell.2 < max.2 && face_shows(
            voxels[#[trigger] linear_index(extents, cell)].visibility(),
            voxels[linear_index(extents, plus(cell, normal_of(face)))].visibility(),
        ) ==> exists|k: int| 0 <= k < quads.len() && covers(face, #[trigger] quads[k], cell)
}

/// No face is meshed twice: no cell is covered by two of the quads.
#[verifier::opaque]
pub open spec fn quads_are_disjoint(face: int, quads: Seq<Quad>) -> bool {
    forall|i: int, j: int, cell: (int, int, int)|
        0 <= i < j < quads.len() ==> !(#[trigger] covers(face, quads[i], cell) && #[trigger] covers(
            face,
            quads[j],
            cell,
        ))
}

/// Cell `a` is visited before cell `b` when the quads of a face are made:
/// slice by slice along the face's axis, and within a slice by z, then y,
/// then x.
pub open spec fn visited_before(face: int, a: (int, int, int), b: (int, int, int)) -> bool {
    let slice_a = along(a, normal_axis(face));
    let slice_b = along(b, normal_axis(face));
    slice_a < slice_b || (slice_a == slice_b && (a.2 < b.2 || (a.2 == b.2 && (a.1 < b.1 || (a.1
        == b.1 && a.0 < b.0)))))
}

/// The quads are listed in the order in which their smallest cells are
/// visited.
#[verifier::opaque]
pub open spec fn quads_in_visiting_order(face: int, quads: Seq<Quad>) -> bool {
    forall|j: int, k: int|
        0 <= j < k < quads.len() ==> visited_before(
            face,
            (#[trigger] quads[j]).minimum.ints(),
            (#[trigger] quads[k]).minimum.ints(),
        )
}

/// The cell could join the `k`-th quad when that quad was made: it holds
/// the voxel of the quad's smallest cell, it shows its face, and no quad
/// listed earlier covers it.
pub open spec fn joins(
    voxels: Seq<Voxel>,
    extents: (int, int, int),
    face: int,
    quads: Seq<Quad>,
    k: int,
    cell: (int, int, int),
) -> bool {
    &&& voxels[linear_index(extents, cell)] == voxels[linear_index(
        extents,
        quads[k].minimum.ints(),
    )]
    &&& face_shows(
        voxels[linear_index(extents, cell)].visibility(),
        voxels[linear_index(extents, plus(cell, normal_of(face)))].visibility(),
    )
    &&& forall|j: int| 0 <= j < k ==> !covers(face, #[trigger] quads[j], cell)
}

/// The `k`-th quad is grown as far as it could be when it was made: first
/// along its width, until it reached `max` or the next cell of its first
/// row could not join; then along its height, until it reached `max` or
/// some cell of the next row could not join.
#[verifier::opaque]
pub open spec fn quad_is_grown(
    voxels: Seq<Voxel>,
    extents: (int, int, int),
    max: (int, int, int),
    face: int,
    quads: Seq<Quad>,
    k: int,
) -> bool {
    let quad = quads[k];
    &&& along(quad.minimum.ints(), width_axis(face)) + quad.width == along(max, width_axis(face))
        || !joins(voxels, extents, face, quads, k, quad_cell(face, quad, quad.width as int, 0))
    &&& along(quad.minimum.ints(), height_axis(face)) + quad.height == along(
        max,
        height_axis(face),
    ) || exists|a: int|
        0 <= a < quad.width && !joins(
            voxels,
            extents,
            face,
            quads,
            k,
            #[trigger] quad_cell(face, quad, a, quad.height as int),
        )
}

/// The quads of each group, as sequences.
pub open spec fn groups_view(groups: Seq<Vec<Quad>>) -> Seq<Seq<Quad>> {
    groups.map_values(|g: Vec<Quad>| g@)
}

/// The quads that greedy meshing makes of the voxels of a box with the
/// given extents, for the cells between `min` and `max`: one group for
/// each face, in face order.
pub uninterp spec fn greedy_groups(
    voxels: Seq<Voxel>,
    extents: (int, int, int),
    min: UVec3,
    max: UVec3,
) -> Seq<Seq<Quad>>;

/// `block_mesh::greedy_quads` with the faces of
/// `RIGHT_HANDED_Y_UP_CONFIG`, on the cells between `min` and `max`. The
/// cells on the border of that box only hide faces; the cells inside it get
/// their visible faces meshed. The call needs a voxel for every cell of the
/// shape and a box of at least two cells each way inside the shape. There
/// are six groups of quads, which depend on the arguments alone. Every quad
/// lies inside the box, covers only cells whose voxel equals that of its
/// smallest cell (the merge value of a voxel is the voxel), and covers only
/// faces that show; every face that shows inside the box is covered by a
/// quad of its group, and by one only, as a covered face is marked and
/// not looked at again. The cells of a face are visited slice by slice
/// along the face's axis, and within a slice by z, then y, then x; a quad is
/// started at each visited cell whose face shows and is not yet covered, is
/// grown along its width and then along its height as far as cells can join
/// or the box allows, and is listed when it is made.
#[verifier::external_body]
fn greedy_quads(voxels: &Vec<Voxel>, shape: &ndshape::RuntimeShape<u32, 3>, min: UVec3, max: UVec3) -> (groups: Vec<Vec<Quad>>)
    requires
        extents_fit(shape_extents(*shape)),
        cell_count(shape_extents(*shape)) <= voxels@.len(),
        min.x < max.x < shape_extents(*shape).0,
        min.y < max.y < shape_extents(*shape).1,
        min.z < max.z < shape_extents(*shape).2,
        max.x <= i32::MAX,
        max.y <= i32::MAX,
        max.z <= i32::MAX,
    ensures
        groups@.len() == 6,
        groups_view(groups@) == greedy_groups(voxels@, shape_extents(*shape), min, max),
        forall|face: int, k: int|
            0 <= face < 6 && 0 <= k < groups@[face]@.len() ==> quad_inside(
                face,
                #[trigger] groups@[face]@[k],
                min.ints(),
                max.ints(),
            ),
        forall|face: int, k: int|
            0 <= face < 6 && 0 <= k < groups@[face]@.len() ==> quad_is_sound(
                voxels@,
                shape_extents(*shape),
                face,
                #[trigger] groups@[face]@[k],
            ),
        forall|face: int|
            0 <= face < 6 ==> faces_are_covered(
                voxels@,
                shape_extents(*shape),
                min.ints(),
                max.ints(),
                face,
                (#[trigger] groups@[face])@,
            ),
        forall|face: int| 0 <= face < 6 ==> quads_are_disjoint(face, (#[trigger] groups@[face])@),
        forall|face: int|
            0 <= face < 6 ==> quads_in_visiting_order(face, (#[trigger] groups@[face])@),
        forall|face: int, k: int|
            0 <= face < 6 && 0 <= k < groups@[face]@.len() ==> quad_is_grown(
                voxels@,
                shape_extents(*shape),
                max.ints(),
                face,
                groups@[face]@,
                k,
            ),
{
    let mut buffer = block_mesh::GreedyQuadsBuffer::new(voxels.len());
    let faces = &block_mesh::RIGHT_HANDED_Y_UP_CONFIG.faces;
    block_mesh::greedy_quads(voxels, shape, [min.x, min.y, min.z], [max.x, max.y, max.z], faces, &mut buffer);
    let convert = |q: &block_mesh::UnorientedQuad| Quad {
        minimum: UVec3 { x: q.minimum[0], y: q.minimum[1], z: q.minimum[2] },
        width: q.width,
        height: q.height,
    };
    buffer.quads.groups.iter().map(|group| group.iter().map(convert).collect()).collect()
}

/// The four corners of a quad as grid points: the corner at the quad's
/// smallest cell (on the far side of that cell for a face that looks
/// forward), then that corner moved by the width, by the height, and by both.
pub open spec fn corner_points(face: int, quad: Quad) -> Seq<(int, int, int)> {
    let base = if looks_forward(face) {
        plus(quad.minimum.ints(), step(normal_axis(face), 1))
    } else {
        quad.minimum.ints()
    };
    let across = step(width_axis(face), quad.width as int);
    let up = step(height_axis(face), quad.height as int);
    seq![base, plus(base, across), plus(base, up), plus(plus(base, across), up)]
}

/// The points as mathematical integers.
pub open spec fn points_view(points: Seq<UVec3>) -> Seq<(int, int, int)> {
    points.map_values(|p: UVec3| p.ints())
}

/// `OrientedBlockFace::quad_corners` of a face of
/// `RIGHT_HANDED_Y_UP_CONFIG`: the four corners of the quad, computed in
/// `u32`.
#[verifier::external_body]
fn quad_corners(face: usize, quad: Quad) -> (corners: [UVec3; 4])
    requires
        face < 6,
        quad.minimum.x + quad.width + quad.height + 1 <= u32::MAX,
        quad.minimum.y + quad.width + quad.height + 1 <= u32::MAX,
        quad.minimum.z + quad.width + quad.height + 1 <= u32::MAX,
    ensures
        points_view(corners@) == corner_points(face as int, quad),
{
    let minimum = [quad.minimum.x, quad.minimum.y, quad.minimum.z];
    let quad = block_mesh::UnorientedQuad { minimum, width: quad.width, height: quad.height };
    let corners = block_mesh::RIGHT_HANDED_Y_UP_CONFIG.faces[face].quad_corners(&quad);
    corners.map(|c| UVec3 { x: c.x, y: c.y, z: c.z })
}

/// The direction a face looks in: one step along its axis, forward or back.
pub open spec fn normal_of(face: int) -> (int, int, int) {
    step(
        normal_axis(face),
        if looks_forward(face) {
            1
        } else {
            -1
        },
    )
}

/// `OrientedBlockFace::signed_normal` of a face of
/// `RIGHT_HANDED_Y_UP_CONFIG`.
#[verifier::external_body]
fn signed_normal(face: usize) -> (normal: IVec3)
    requires
        face < 6,
    ensures
        normal.ints() == normal_of(face as int),
{
    let normal = block_mesh::RIGHT_HANDED_Y_UP_CONFIG.faces[face].signed_normal();
    IVec3 { x: normal.x, y: normal.y, z: normal.z }
}

/// The six vertex indices of the two triangles of a quad whose first vertex
/// has the index `start`.
pub open spec fn triangle_indices(face: int, start: int) -> Seq<int> {
    if winds_counter_clockwise(face) {
        seq![start, start + 1, start + 2, start + 1, start + 3, start + 2]
    } else {
        seq![start, start + 2, start + 1, start + 1, start + 2, start + 3]
    }
}

/// The indices as mathematical integers.
pub open spec fn indices_view(indices: Seq<u32>) -> Seq<int> {
    indices.map_values(|i: u32| i as int)
}

/// `OrientedBlockFace::quad_mesh_indices` of a face of
/// `RIGHT_HANDED_Y_UP_CONFIG`, computed in `u32`.
#[verifier::external_body]
fn quad_mesh_indices(face: usize, start: u32) -> (indices: [u32; 6])
    requires
        face < 6,
        start + 3 <= u32::MAX,
    ensures
        indices_view(indices@) == triangle_indices(face as int, start as int),
{
    block_mesh::RIGHT_HANDED_Y_UP_CONFIG.faces[face].quad_mesh_indices(start)
}

/// One quad of a mesh: the face it belongs to, its rectangle in grid
/// coordinates, its four corners in model coordinates (the padding taken
/// off), the direction it looks in, the palette index of the voxel at its
/// smallest cell, and the vertex indices of its two triangles.
#[derive(Debug)]
pub struct MeshQuad {
    pub face: u8,
    pub quad: Quad,
    pub corners: [IVec3; 4],
    pub normal: IVec3,
    pub material: u8,
    pub indices: [u32; 6],
}

/// A mesh quad over mathematical integers.
pub struct MeshQuadView {
    pub face: int,
    pub quad: Quad,
    pub corners: Seq<(int, int, int)>,
    pub normal: (int, int, int),
    pub material: u8,
    pub indices: Seq<int>,
}

impl View for MeshQuad {
    type V = MeshQuadView;

    open spec fn view(&self) -> MeshQuadView {
        MeshQuadView {
            face: self.face as int,
            quad: self.quad,
            corners: self.corners@.map_values(|p: IVec3| p.ints()),
            normal: self.normal.ints(),
            material: self.material,
            indices: indices_view(self.indices@),
        }
    }
}

/// The views of a list of mesh quads.
pub open spec fn mesh_view(mesh: Seq<MeshQuad>) -> Seq<MeshQuadView> {
    mesh.map_values(|q: MeshQuad| q@)
}

/// The `ordinal`-th quad of a mesh: its corners are those of the rectangle
/// moved back by the one cell of padding, and its vertices are the four
/// that follow those of the quads before it.
pub open spec fn mesh_quad_of(
    voxels: Seq<Voxel>,
    extents: (int, int, int),
    face: int,
    quad: Quad,
    ordinal: int,
) -> MeshQuadView {
    MeshQuadView {
        face,
        quad,
        corners: corner_points(face, quad).map_values(
            |p: (int, int, int)| (p.0 - 1, p.1 - 1, p.2 - 1),
        ),
        normal: normal_of(face),
        material: voxels[linear_index(extents, quad.minimum.ints())].index,
        indices: triangle_indices(face, 4 * ordinal),
    }
}

/// The mesh quads of one face, the first of which is the `first`-th of the
/// mesh.
pub open spec fn face_quads(
    voxels: Seq<Voxel>,
    extents: (int, int, int),
    face: int,
    quads: Seq<Quad>,
    first: int,
) -> Seq<MeshQuadView> {
    Seq::new(quads.len(), |k: int| mesh_quad_of(voxels, extents, face, quads[k], first + k))
}

/// The mesh quads of the first `faces` groups, face by face.
pub open spec fn mesh_of_faces(
    voxels: Seq<Voxel>,
    extents: (int, int, int),
    groups: Seq<Seq<Quad>>,
    faces: nat,
) -> Seq<MeshQuadView>
    decreases faces,
{
    if faces == 0 || faces > groups.len() {
        Seq::empty()
    } else {
        let before = mesh_of_faces(voxels, extents, groups, (faces - 1) as nat);
        before + face_quads(voxels, extents, faces - 1, groups[faces - 1], before.len() as int)
    }
}

/// The number of quads in the first `faces` groups.
pub open spec fn quad_count(groups: Seq<Seq<Quad>>, faces: nat) -> nat
    decreases faces,
{
    if faces == 0 || faces > groups.len() {
        0
    } else {
        quad_count(groups, (faces - 1) as nat) + groups[faces - 1].len()
    }
}

/// The groups can be made into a mesh for the grid: there is one group for
/// each face, every quad lies inside the grid, and four vertices for each
/// quad can be numbered in a `u32`.
pub open spec fn quads_fit(extents: (int, int, int), groups: Seq<Seq<Quad>>) -> bool {
    &&& groups.len() == 6
    &&& forall|face: int, k: int|
        0 <= face < 6 && 0 <= k < groups[face].len() ==> quad_inside(
            face,
            #[trigger] groups[face][k],
            (0, 0, 0),
            (extents.0 - 1, extents.1 - 1, extents.2 - 1),
        )
    &&& 4 * quad_count(groups, 6) <= u32::MAX + 1
}

/// The mesh of a grid for the given groups of quads, if they fit.
pub open spec fn assembled(voxels: Seq<Voxel>, extents: (int, int, int), groups: Seq<Seq<Quad>>) -> Option<
    Seq<MeshQuadView>,
> {
    if quads_fit(extents, groups) {
        Some(mesh_of_faces(voxels, extents, groups, 6))
    } else {
        None
    }
}

/// The mesh of a grid: its visible faces merged into quads, and those made
/// into mesh quads; none if the vertices cannot be numbered in a `u32`.
pub open spec fn mesh_of(voxels: Seq<Voxel>, extents: (int, int, int), mesh_outer_faces: bool) -> Option<
    Seq<MeshQuadView>,
> {
    assembled(voxels, extents, meshed_groups(voxels, extents, mesh_outer_faces))
}

/// The mesh has as many quads as the groups.
pub proof fn lemma_mesh_length(
    voxels: Seq<Voxel>,
    extents: (int, int, int),
    groups: Seq<Seq<Quad>>,
    faces: nat,
)
    ensures
        mesh_of_faces(voxels, extents, groups, faces).len() == quad_count(groups, faces),
    decreases faces,
{
    if faces != 0 && faces <= groups.len() {
        lemma_mesh_length(voxels, extents, groups, (faces - 1) as nat);
    }
}

/// The number of quads grows with the number of faces counted.
pub proof fn lemma_quad_count_grows(groups: Seq<Seq<Quad>>, fewer: nat, more: nat)
    requires
        fewer <= more <= groups.len(),
    ensures
        quad_count(groups, fewer) <= quad_count(groups, more),
    decreases more,
{
    if fewer < more {
        lemma_quad_count_grows(groups, fewer, (more - 1) as nat);
    }
}

/// Whether a quad of the given face lies inside the box between `min` and
/// `max`.
fn is_quad_inside(face: usize, quad: &Quad, min: UVec3, max: UVec3) -> (inside: bool)
    requires
        face < 6,
    ensures
        inside == quad_inside(face as int, *quad, min.ints(), max.ints()),
{
    let m = quad.minimum;
    if !(min.x < m.x && m.x < max.x && min.y < m.y && m.y < max.y && min.z < m.z && m.z < max.z) {
        return false;
    }
    if quad.width < 1 || quad.height < 1 {
        return false;
    }
    let (along_width, limit_width) = if face % 3 == 2 {
        (m.x, max.x)
    } else {
        (m.z, max.z)
    };
    let (along_height, limit_height) = if face % 3 == 1 {
        (m.x, max.x)
    } else {
        (m.y, max.y)
    };
    quad.width <= limit_width - along_width && quad.height <= limit_height - along_height
}

/// Whether the groups can be made into a mesh for the grid.
pub fn can_assemble(data: &VoxelData, groups: &Vec<Vec<Quad>>) -> (ok: bool)
    requires
        data.wf(),
    ensures
        ok == quads_fit(data.extents(), groups_view(groups@)),
{
    if groups.len() != 6 {
        return false;
    }
    let ghost all = groups_view(groups@);
    let dims = shape_dimensions(&data.shape);
    let min = UVec3 { x: 0, y: 0, z: 0 };
    let max = UVec3 { x: dims.0 - 1, y: dims.1 - 1, z: dims.2 - 1 };
    let mut count: u64 = 0;
    let mut face: usize = 0;
    while face < 6
        invariant
            face <= 6,
            groups@.len() == 6,
            all == groups_view(groups@),
            max.ints() == (data.extents().0 - 1, data.extents().1 - 1, data.extents().2 - 1),
            min.ints() == (0int, 0int, 0int),
            count == quad_count(all, face as nat),
            4 * count <= u32::MAX + 1,
            forall|f: int, k: int|
                0 <= f < face && 0 <= k < all[f].len() ==> quad_inside(
                    f,
                    #[trigger] all[f][k],
                    min.ints(),
                    max.ints(),
                ),
        decreases 6 - face,
    {
        let group = &groups[face];
        assert(all[face as int] == group@);
        if group.len() as u64 > 0x4000_0000 - count {
            proof {
                lemma_quad_count_grows(all, (face + 1) as nat, 6);
            }
            return false;
        }
        let mut k: usize = 0;
        while k < group.len()
            invariant
                k <= group.len(),
                face < 6,
                all.len() == 6,
                all == groups_view(groups@),
                all[face as int] == group@,
                max.ints() == (data.extents().0 - 1, data.extents().1 - 1, data.extents().2 - 1),
                min.ints() == (0int, 0int, 0int),
                forall|j: int|
                    0 <= j < k ==> quad_inside(
                        face as int,
                        #[trigger] group@[j],
                        min.ints(),
                        max.ints(),
                    ),
            decreases group.len() - k,
        {
            if !is_quad_inside(face, &group[k], min, max) {
                assert(all[face as int][k as int] == group@[k as int]);
                return false;
            }
            k += 1;
        }
        count = count + group.len() as u64;
        face += 1;
    }
    true
}

/// Makes the mesh of a grid from the groups of quads that meshing gave:
/// for each quad its corners, normal, material and triangles, face by face
/// in the order of the groups. There is no mesh if the quads do not fit the
/// grid.
pub fn assemble_mesh(data: &VoxelData, groups: &Vec<Vec<Quad>>) -> (mesh: Option<Vec<MeshQuad>>)
    requires
        data.wf(),
    ensures
        match mesh {
            Some(mesh) => Some(mesh_view(mesh@)) == assembled(
                data.voxels@,
                data.extents(),
                groups_view(groups@),
            ),
            None => assembled(data.voxels@, data.extents(), groups_view(groups@)) is None,
        },
{
    if !can_assemble(data, groups) {
        return None;
    }
    let ghost all = groups_view(groups@);
    let ghost extents = data.extents();
    let mut mesh: Vec<MeshQuad> = Vec::new();
    let mut face: usize = 0;
    assert(mesh_view(mesh@) =~= mesh_of_faces(data.voxels@, extents, all, 0));
    while face < 6
        invariant
            face <= 6,
            data.wf(),
            extents == data.extents(),
            groups@.len() == 6,
            all == groups_view(groups@),
            quads_fit(extents, all),
            mesh_view(mesh@) == mesh_of_faces(data.voxels@, extents, all, face as nat),
        decreases 6 - face,
    {
        let group = &groups[face];
        assert(all[face as int] == group@);
        let ghost before = mesh_view(mesh@);
        let ghost first = before.len() as int;
        proof {
            lemma_mesh_length(data.voxels@, extents, all, face as nat);
            lemma_quad_count_grows(all, (face + 1) as nat, 6);
        }
        let mut k: usize = 0;
        assert(mesh_view(mesh@) =~= before + face_quads(data.voxels@, extents, face as int, group@.take(0), first));
        while k < group.len()
            invariant
                k <= group.len(),
                face < 6,
                data.wf(),
                extents == data.extents(),
                all == groups_view(groups@),
                all[face as int] == group@,
                quads_fit(extents, all),
                first == before.len(),
                first == quad_count(all, face as nat),
                first + group@.len() == quad_count(all, (face + 1) as nat),
                quad_count(all, (face + 1) as nat) <= quad_count(all, 6),
                mesh_view(mesh@) == before + face_quads(
                    data.voxels@,
                    extents,
                    face as int,
                    group@.take(k as int),
                    first,
                ),
            decreases group.len() - k,
        {
            let quad = group[k];
            assert(all[face as int][k as int] == quad);
            assert(quad_inside(
                face as int,
                quad,
                (0, 0, 0),
                (extents.0 - 1, extents.1 - 1, extents.2 - 1),
            ));
            let ghost so_far = face_quads(data.voxels@, extents, face as int, group@.take(k as int), first);
            assert(mesh@.len() == mesh_view(mesh@).len());
            assert(so_far.len() == k);
            assert(mesh@.len() == first + k);
            let made = make_mesh_quad(data, face, quad, mesh.len());
            let ghost pushed = mesh@.push(made);
            mesh.push(made);
            assert(mesh_view(pushed) =~= (before + so_far).push(made@));
            assert(group@.take(k + 1)[k as int] == quad);
            assert(mesh_view(pushed) =~= before + face_quads(
                data.voxels@,
                extents,
                face as int,
                group@.take(k + 1),
                first,
            ));
            k += 1;
        }
        assert(group@.take(k as int) == group@);
        face += 1;
    }
    Some(mesh)
}

/// Makes the `ordinal`-th quad of a mesh.
fn make_mesh_quad(data: &VoxelData, face: usize, quad: Quad, ordinal: usize) -> (made: MeshQuad)
    requires
        data.wf(),
        face < 6,
        quad_inside(
            face as int,
            quad,
            (0, 0, 0),
            (data.extents().0 - 1, data.extents().1 - 1, data.extents().2 - 1),
        ),
        4 * ordinal + 3 <= u32::MAX,
    ensures
        made@ == mesh_quad_of(data.voxels@, data.extents(), face as int, quad, ordinal as int),
{
    let ghost extents = data.extents();
    proof {
        lemma_linear_index_in_range(extents, quad.minimum.ints());
        assert(4 * extents.0 <= extents.0 * extents.1 * extents.2 && 4 * extents.1 <= extents.0
            * extents.1 * extents.2 && 4 * extents.2 <= extents.0 * extents.1 * extents.2)
            by (nonlinear_arith)
            requires
                extents.0 >= 2,
                extents.1 >= 2,
                extents.2 >= 2,
        ;
    }
    let index = shape_linearize(&data.shape, quad.minimum.x, quad.minimum.y, quad.minimum.z) as usize;
    let material = data.voxels[index].index;
    let corners = quad_corners(face, quad);
    let ghost points = corner_points(face as int, quad);
    assert(forall|c: int| 0 <= c < 4 ==> corners@[c].ints() == #[trigger] points[c]) by {
        assert(points_view(corners@) == points);
        assert(forall|c: int| 0 <= c < 4 ==> points_view(corners@)[c] == corners@[c].ints());
    }
    assert(forall|c: int|
        0 <= c < 4 ==> 1 <= (#[trigger] points[c]).0 <= extents.0 && 1 <= points[c].1 <= extents.1 && 1
            <= points[c].2 <= extents.2);
    let moved = [
        IVec3 { x: (corners[0].x - 1) as i32, y: (corners[0].y - 1) as i32, z: (corners[0].z - 1) as i32 },
        IVec3 { x: (corners[1].x - 1) as i32, y: (corners[1].y - 1) as i32, z: (corners[1].z - 1) as i32 },
        IVec3 { x: (corners[2].x - 1) as i32, y: (corners[2].y - 1) as i32, z: (corners[2].z - 1) as i32 },
        IVec3 { x: (corners[3].x - 1) as i32, y: (corners[3].y - 1) as i32, z: (corners[3].z - 1) as i32 },
    ];
    let made = MeshQuad {
        face: face as u8,
        quad,
        corners: moved,
        normal: signed_normal(face),
        material,
        indices: quad_mesh_indices(face, 4 * (ordinal as u32)),
    };
    assert(made@.corners =~= mesh_quad_of(data.voxels@, data.extents(), face as int, quad, ordinal as int).corners);
    made
}

/// The box of cells that is handed to the mesher, by its smallest and
/// largest cell. With outer faces it is the whole grid: the padding hides
/// nothing, so every face on the model's boundary is meshed. Without them it
/// is the model alone: its outermost cells then only hide the faces of their
/// neighbours and get no faces themselves. A model thinner than two cells
/// leaves no box in that case.
pub open spec fn meshing_box(extents: (int, int, int), mesh_outer_faces: bool) -> Option<(UVec3, UVec3)> {
    if mesh_outer_faces {
        Some(
            (
                UVec3 { x: 0, y: 0, z: 0 },
                UVec3 {
                    x: (extents.0 - 1) as u32,
                    y: (extents.1 - 1) as u32,
                    z: (extents.2 - 1) as u32,
                },
            ),
        )
    } else if extents.0 >= 4 && extents.1 >= 4 && extents.2 >= 4 {
        Some(
            (
                UVec3 { x: 1, y: 1, z: 1 },
                UVec3 {
                    x: (extents.0 - 2) as u32,
                    y: (extents.1 - 2) as u32,
                    z: (extents.2 - 2) as u32,
                },
            ),
        )
    } else {
        None
    }
}

/// The quads of a grid, one group for each face: what greedy meshing makes
/// of the meshing box, and no quads where there is no box.
pub open spec fn meshed_groups(
    voxels: Seq<Voxel>,
    extents: (int, int, int),
    mesh_outer_faces: bool,
) -> Seq<Seq<Quad>> {
    match meshing_box(extents, mesh_outer_faces) {
        Some((min, max)) => greedy_groups(voxels, extents, min, max),
        None => Seq::new(6, |face: int| Seq::<Quad>::empty()),
    }
}

/// The mesh of the grid's quads has few enough vertices to number them in
/// a `u32`.
pub open spec fn mesh_fits(voxels: Seq<Voxel>, extents: (int, int, int), mesh_outer_faces: bool) -> bool {
    4 * quad_count(meshed_groups(voxels, extents, mesh_outer_faces), 6) <= u32::MAX + 1
}

/// Merges the visible faces of a grid into quads, one group for each face.
/// Every quad lies inside the grid.
pub fn mesh_quads(data: &VoxelData, mesh_outer_faces: bool) -> (groups: Vec<Vec<Quad>>)
    requires
        data.wf(),
    ensures
        groups@.len() == 6,
        groups_view(groups@) == meshed_groups(data.voxels@, data.extents(), mesh_outer_faces),
        forall|face: int, k: int|
            0 <= face < 6 && 0 <= k < groups@[face]@.len() ==> quad_inside(
                face,
                #[trigger] groups@[face]@[k],
                (0, 0, 0),
                (data.extents().0 - 1, data.extents().1 - 1, data.extents().2 - 1),
            ),
        forall|face: int, k: int|
            0 <= face < 6 && 0 <= k < groups@[face]@.len() ==> quad_is_sound(
                data.voxels@,
                data.extents(),
                face,
                #[trigger] groups@[face]@[k],
            ),
        match meshing_box(data.extents(), mesh_outer_faces) {
            Some((min, max)) => forall|face: int|
                0 <= face < 6 ==> faces_are_covered(
                    data.voxels@,
                    data.extents(),
                    min.ints(),
                    max.ints(),
                    face,
                    (#[trigger] groups@[face])@,
                ),
            None => true,
        },
        forall|face: int| 0 <= face < 6 ==> quads_are_disjoint(face, (#[trigger] groups@[face])@),
        forall|face: int|
            0 <= face < 6 ==> quads_in_visiting_order(face, (#[trigger] groups@[face])@),
        match meshing_box(data.extents(), mesh_outer_faces) {
            Some((min, max)) => forall|face: int, k: int|
                0 <= face < 6 && 0 <= k < groups@[face]@.len() ==> quad_is_grown(
                    data.voxels@,
                    data.extents(),
                    max.ints(),
                    face,
                    groups@[face]@,
                    k,
                ),
            None => true,
        },
{
    let dims = shape_dimensions(&data.shape);
    proof {
        let extents = data.extents();
        assert(4 * extents.0 <= extents.0 * extents.1 * extents.2 && 4 * extents.1 <= extents.0
            * extents.1 * extents.2 && 4 * extents.2 <= extents.0 * extents.1 * extents.2)
            by (nonlinear_arith)
            requires
                extents.0 >= 2,
                extents.1 >= 2,
                extents.2 >= 2,
        ;
    }
    if mesh_outer_faces {
        let min = UVec3 { x: 0, y: 0, z: 0 };
        let max = UVec3 { x: dims.0 - 1, y: dims.1 - 1, z: dims.2 - 1 };
        greedy_quads(&data.voxels, &data.shape, min, max)
    } else if dims.0 >= 4 && dims.1 >= 4 && dims.2 >= 4 {
        let min = UVec3 { x: 1, y: 1, z: 1 };
        let max = UVec3 { x: dims.0 - 2, y: dims.1 - 2, z: dims.2 - 2 };
        greedy_quads(&data.voxels, &data.shape, min, max)
    } else {
        let mut groups: Vec<Vec<Quad>> = Vec::new();
        let mut face: usize = 0;
        while face < 6
            invariant
                face <= 6,
                groups@.len() == face,
                forall|f: int| 0 <= f < face ==> (#[trigger] groups@[f])@.len() == 0,
            decreases 6 - face,
        {
            groups.push(Vec::new());
            face += 1;
        }
        assert(groups_view(groups@) =~= Seq::new(6, |face: int| Seq::<Quad>::empty())) by {
            assert forall|f: int| 0 <= f < 6 implies groups_view(groups@)[f] == Seq::<Quad>::empty() by {
                assert(groups@[f]@ =~= Seq::<Quad>::empty());
            }
        }
        assert forall|face: int| 0 <= face < 6 implies quads_are_disjoint(
            face,
            (#[trigger] groups@[face])@,
        ) by {
            reveal(quads_are_disjoint);
        }
        assert forall|face: int| 0 <= face < 6 implies quads_in_visiting_order(
            face,
            (#[trigger] groups@[face])@,
        ) by {
            reveal(quads_in_visiting_order);
        }
        groups
    }
}

/// Meshes a grid: its visible faces merged into quads, and for each quad
/// what the renderer needs. There is no mesh only if its vertices cannot be
/// numbered in a `u32`.
pub fn mesh_model(data: &VoxelData, mesh_outer_faces: bool) -> (mesh: Option<Vec<MeshQuad>>)
    requires
        data.wf(),
    ensures
        mesh is Some <==> mesh_fits(data.voxels@, data.extents(), mesh_outer_faces),
        mesh is Some ==> Some(mesh_view(mesh->0@)) == mesh_of(
            data.voxels@,
            data.extents(),
            mesh_outer_faces,
        ),
{
    let groups = mesh_quads(data, mesh_outer_faces);
    proof {
        let all = groups_view(groups@);
        assert forall|face: int, k: int| 0 <= face < 6 && 0 <= k < all[face].len() implies quad_inside(
            face,
            #[trigger] all[face][k],
            (0, 0, 0),
            (data.extents().0 - 1, data.extents().1 - 1, data.extents().2 - 1),
        ) by {
            assert(all[face][k] == groups@[face]@[k]);
        }
    }
    assemble_mesh(data, &groups)
}

/// Voxels of different materials never merge: two cells that one sound quad
/// covers hold the same voxel.
pub proof fn lemma_quad_has_one_material(
    voxels: Seq<Voxel>,
    extents: (int, int, int),
    face: int,
    quad: Quad,
    a: int,
    b: int,
    c: int,
    d: int,
)
    requires
        quad_is_sound(voxels, extents, face, quad),
        0 <= a < quad.width,
        0 <= b < quad.height,
        0 <= c < quad.width,
        0 <= d < quad.height,
    ensures
        voxels[linear_index(extents, quad_cell(face, quad, a, b))] == voxels[linear_index(
            extents,
            quad_cell(face, quad, c, d),
        )],
{
    reveal(quad_is_sound);
    let first = quad_cell(face, quad, a, b);
    let second = quad_cell(face, quad, c, d);
}

/// The face between two voxels that block light is omitted from both: no
/// sound quad covers a cell whose neighbour, in the direction the quad's
/// face looks, is opaque.
pub proof fn lemma_hidden_face_has_no_quad(
    voxels: Seq<Voxel>,
    extents: (int, int, int),
    face: int,
    quad: Quad,
    a: int,
    b: int,
)
    requires
        quad_is_sound(voxels, extents, face, quad),
        0 <= a < quad.width,
        0 <= b < quad.height,
    ensures
        voxels[linear_index(extents, plus(quad_cell(face, quad, a, b), normal_of(face)))].visibility()
            != Visibility::Opaque,
        voxels[linear_index(extents, quad_cell(face, quad, a, b))].visibility() != Visibility::Empty,
{
    reveal(quad_is_sound);
    let cell = quad_cell(face, quad, a, b);
}

/// The grid holds a voxel in cell `c` and nothing in any other cell.
pub open spec fn only_voxel_at(voxels: Seq<Voxel>, extents: (int, int, int), c: (int, int, int)) -> bool {
    &&& in_box(extents, c)
    &&& voxels[linear_index(extents, c)].visibility() != Visibility::Empty
    &&& forall|p: (int, int, int)|
        in_box(extents, p) && p != c ==> voxels[#[trigger] linear_index(extents, p)].visibility()
            == Visibility::Empty
}

/// The quad that covers the one face of cell `c` and nothing else.
pub open spec fn is_unit_quad_at(quad: Quad, c: (int, int, int)) -> bool {
    quad.minimum.ints() == c && quad.width == 1 && quad.height == 1
}

/// A sound quad of a grid with a single voxel is the unit quad at that
/// voxel's cell.
proof fn lemma_sound_quad_of_single_voxel(
    voxels: Seq<Voxel>,
    extents: (int, int, int),
    max: (int, int, int),
    face: int,
    quad: Quad,
    c: (int, int, int),
)
    requires
        0 <= face < 6,
        only_voxel_at(voxels, extents, c),
        max.0 < extents.0 && max.1 < extents.1 && max.2 < extents.2,
        quad.minimum.x < max.0 && quad.minimum.y < max.1 && quad.minimum.z < max.2,
        1 <= quad.width,
        1 <= quad.height,
        along(quad.minimum.ints(), width_axis(face)) + quad.width <= along(max, width_axis(face)),
        along(quad.minimum.ints(), height_axis(face)) + quad.height <= along(max, height_axis(face)),
        quad_is_sound(voxels, extents, face, quad),
    ensures
        is_unit_quad_at(quad, c),
{
    reveal(quad_is_sound);
    let smallest = quad_cell(face, quad, 0, 0);
    assert(smallest == quad.minimum.ints());
    assert(in_box(extents, smallest));
    assert(voxels[linear_index(extents, smallest)].visibility() != Visibility::Empty);
    assert(smallest == c);
    if quad.width >= 2 {
        let next = quad_cell(face, quad, 1, 0);
        assert(in_box(extents, next));
        assert(next != c);
        assert(voxels[linear_index(extents, next)].visibility() == Visibility::Empty);
    }
    if quad.height >= 2 {
        let next = quad_cell(face, quad, 0, 1);
        assert(in_box(extents, next));
        assert(next != c);
        assert(voxels[linear_index(extents, next)].visibility() == Visibility::Empty);
    }
}

/// A single voxel in an otherwise empty grid has exactly one quad on each
/// face, and that quad is a unit square: the quads of a face that lie
/// inside a box around the voxel, cover only what shows, cover all that
/// shows and cover nothing twice are the unit quad at the voxel's cell
/// alone.
pub proof fn lemma_single_voxel_has_one_unit_quad(
    voxels: Seq<Voxel>,
    extents: (int, int, int),
    min: (int, int, int),
    max: (int, int, int),
    face: int,
    quads: Seq<Quad>,
    c: (int, int, int),
)
    requires
        0 <= face < 6,
        only_voxel_at(voxels, extents, c),
        0 <= min.0 && 0 <= min.1 && 0 <= min.2,
        max.0 < extents.0 && max.1 < extents.1 && max.2 < extents.2,
        min.0 < c.0 < max.0 && min.1 < c.1 < max.1 && min.2 < c.2 < max.2,
        forall|k: int| 0 <= k < quads.len() ==> quad_inside(face, #[trigger] quads[k], min, max),
        forall|k: int|
            0 <= k < quads.len() ==> quad_is_sound(voxels, extents, face, #[trigger] quads[k]),
        faces_are_covered(voxels, extents, min, max, face, quads),
        quads_are_disjoint(face, quads),
    ensures
        quads.len() == 1,
        is_unit_quad_at(quads[0], c),
{
    assert forall|k: int| 0 <= k < quads.len() implies is_unit_quad_at(#[trigger] quads[k], c) by {
        assert(quad_inside(face, quads[k], min, max));
        lemma_sound_quad_of_single_voxel(voxels, extents, max, face, quads[k], c);
    }
    let neighbour = plus(c, normal_of(face));
    assert(in_box(extents, neighbour));
    assert(neighbour != c);
    assert(voxels[linear_index(extents, neighbour)].visibility() == Visibility::Empty);
    assert(exists|k: int| 0 <= k < quads.len() && covers(face, #[trigger] quads[k], c)) by {
        reveal(faces_are_covered);
    }
    if quads.len() >= 2 {
        assert(is_unit_quad_at(quads[0], c));
        assert(is_unit_quad_at(quads[1], c));
        assert(quad_cell(face, quads[0], 0, 0) == c);
        assert(quad_cell(face, quads[1], 0, 0) == c);
        assert(covers(face, quads[0], c));
        assert(covers(face, quads[1], c));
        assert(false) by {
            reveal(quads_are_disjoint);
        }
    }
}

/// The cell lies in the layer of `w` by `h` cells that starts at `lo` and
/// runs along the width and height of the face.
pub open spec fn in_layer(face: int, lo: (int, int, int), w: int, h: int, cell: (int, int, int)) -> bool {
    &&& along(cell, normal_axis(face)) == along(lo, normal_axis(face))
    &&& along(lo, width_axis(face)) <= along(cell, width_axis(face)) < along(lo, width_axis(face)) + w
    &&& along(lo, height_axis(face)) <= along(cell, height_axis(face)) < along(
        lo,
        height_axis(face),
    ) + h
}

/// The grid holds one and the same voxel in every cell of the layer, and
/// nothing in any other cell.
pub open spec fn only_layer(
    voxels: Seq<Voxel>,
    extents: (int, int, int),
    face: int,
    lo: (int, int, int),
    w: int,
    h: int,
) -> bool {
    &&& voxels[linear_index(extents, lo)].visibility() != Visibility::Empty
    &&& forall|p: (int, int, int)|
        in_box(extents, p) ==> (if in_layer(face, lo, w, h, p) {
            voxels[#[trigger] linear_index(extents, p)] == voxels[linear_index(extents, lo)]
        } else {
            voxels[linear_index(extents, p)].visibility() == Visibility::Empty
        })
}

/// Where a cell of a quad lies along the three axes of the quad's face.
proof fn lemma_quad_cell_coordinates(face: int, quad: Quad, a: int, b: int)
    requires
        0 <= face < 6,
    ensures
        along(quad_cell(face, quad, a, b), normal_axis(face)) == along(
            quad.minimum.ints(),
            normal_axis(face),
        ),
        along(quad_cell(face, quad, a, b), width_axis(face)) == along(
            quad.minimum.ints(),
            width_axis(face),
        ) + a,
        along(quad_cell(face, quad, a, b), height_axis(face)) == along(
            quad.minimum.ints(),
            height_axis(face),
        ) + b,
{
}

/// Two cells with the same coordinates along the three axes of a face are
/// the same cell.
proof fn lemma_same_coordinates(face: int, p: (int, int, int), q: (int, int, int))
    requires
        0 <= face < 6,
        along(p, normal_axis(face)) == along(q, normal_axis(face)),
        along(p, width_axis(face)) == along(q, width_axis(face)),
        along(p, height_axis(face)) == along(q, height_axis(face)),
    ensures
        p == q,
{
}

/// Every cell that a sound quad covers lies in the layer, if the grid holds
/// nothing else.
proof fn lemma_quad_cell_in_layer(
    voxels: Seq<Voxel>,
    extents: (int, int, int),
    min: (int, int, int),
    max: (int, int, int),
    face: int,
    quad: Quad,
    lo: (int, int, int),
    w: int,
    h: int,
    a: int,
    b: int,
)
    requires
        0 <= face < 6,
        0 <= min.0 && 0 <= min.1 && 0 <= min.2,
        max.0 < extents.0 && max.1 < extents.1 && max.2 < extents.2,
        only_layer(voxels, extents, face, lo, w, h),
        quad_inside(face, quad, min, max),
        quad_is_sound(voxels, extents, face, quad),
        0 <= a < quad.width,
        0 <= b < quad.height,
    ensures
        in_layer(face, lo, w, h, quad_cell(face, quad, a, b)),
        in_box(extents, quad_cell(face, quad, a, b)),
{
    reveal(quad_is_sound);
    let cell = quad_cell(face, quad, a, b);
    lemma_quad_cell_coordinates(face, quad, a, b);
    assert(in_box(extents, cell));
    assert(voxels[linear_index(extents, cell)].visibility() != Visibility::Empty);
}

/// A layer of one material in an otherwise empty grid is meshed as one
/// quad on each of its two faces: the quads of a face that the layer is
/// parallel to, made by growing each quad as far as it could go, are one
/// quad alone, which covers the whole layer.
pub proof fn lemma_layer_is_one_quad(
    voxels: Seq<Voxel>,
    extents: (int, int, int),
    min: (int, int, int),
    max: (int, int, int),
    face: int,
    quads: Seq<Quad>,
    lo: (int, int, int),
    w: int,
    h: int,
)
    requires
        0 <= face < 6,
        1 <= w,
        1 <= h,
        0 <= min.0 && 0 <= min.1 && 0 <= min.2,
        max.0 < extents.0 && max.1 < extents.1 && max.2 < extents.2,
        min.0 < lo.0 < max.0 && min.1 < lo.1 < max.1 && min.2 < lo.2 < max.2,
        along(lo, width_axis(face)) + w <= along(max, width_axis(face)),
        along(lo, height_axis(face)) + h <= along(max, height_axis(face)),
        only_layer(voxels, extents, face, lo, w, h),
        forall|k: int| 0 <= k < quads.len() ==> quad_inside(face, #[trigger] quads[k], min, max),
        forall|k: int|
            0 <= k < quads.len() ==> quad_is_sound(voxels, extents, face, #[trigger] quads[k]),
        faces_are_covered(voxels, extents, min, max, face, quads),
        quads_are_disjoint(face, quads),
        quads_in_visiting_order(face, quads),
        forall|k: int|
            0 <= k < quads.len() ==> #[trigger] quad_is_grown(voxels, extents, max, face, quads, k),
    ensures
        quads.len() == 1,
        quads[0].minimum.ints() == lo,
        quads[0].width == w,
        quads[0].height == h,
{
    // every cell of the layer shows its face
    assert forall|c: (int, int, int)| in_layer(face, lo, w, h, c) implies in_box(extents, c) && in_box(
        extents,
        plus(c, normal_of(face)),
    ) && voxels[linear_index(extents, c)] == voxels[linear_index(extents, lo)] && face_shows(
        voxels[linear_index(extents, c)].visibility(),
        voxels[#[trigger] linear_index(extents, plus(c, normal_of(face)))].visibility(),
    ) by {
        let across = plus(c, normal_of(face));
        assert(in_box(extents, c));
        assert(in_box(extents, across));
        assert(!in_layer(face, lo, w, h, across));
        assert(voxels[linear_index(extents, c)] == voxels[linear_index(extents, lo)]);
        assert(voxels[linear_index(extents, across)].visibility() == Visibility::Empty);
    }
    // the smallest cell of every quad lies in the layer
    assert forall|k: int| 0 <= k < quads.len() implies in_layer(
        face,
        lo,
        w,
        h,
        (#[trigger] quads[k]).minimum.ints(),
    ) by {
        lemma_quad_cell_in_layer(voxels, extents, min, max, face, quads[k], lo, w, h, 0, 0);
        assert(quad_cell(face, quads[k], 0, 0) == quads[k].minimum.ints());
    }
    // some quad covers the first cell of the layer, and starts there
    assert(in_layer(face, lo, w, h, lo));
    assert(exists|k: int| 0 <= k < quads.len() && covers(face, #[trigger] quads[k], lo)) by {
        reveal(faces_are_covered);
        assert(face_shows(
            voxels[linear_index(extents, lo)].visibility(),
            voxels[linear_index(extents, plus(lo, normal_of(face)))].visibility(),
        ));
    }
    let first = choose|k: int| 0 <= k < quads.len() && covers(face, #[trigger] quads[k], lo);
    let (a0, b0) = choose|a: int, b: int|
        0 <= a < quads[first].width && 0 <= b < quads[first].height && #[trigger] quad_cell(
            face,
            quads[first],
            a,
            b,
        ) == lo;
    lemma_quad_cell_coordinates(face, quads[first], a0, b0);
    assert(in_layer(face, lo, w, h, quads[first].minimum.ints()));
    assert(a0 == 0 && b0 == 0);
    assert(quad_cell(face, quads[first], 0, 0) == quads[first].minimum.ints());
    assert(quads[first].minimum.ints() == lo);
    // no quad is listed before it
    if first > 0 {
        assert(visited_before(face, quads[0].minimum.ints(), quads[first].minimum.ints())) by {
            reveal(quads_in_visiting_order);
        }
        assert(in_layer(face, lo, w, h, quads[0].minimum.ints()));
        assert(false);
    }
    let quad = quads[0];
    let width = quad.width as int;
    let height = quad.height as int;
    // it is no larger than the layer
    lemma_quad_cell_in_layer(voxels, extents, min, max, face, quad, lo, w, h, width - 1, 0);
    lemma_quad_cell_coordinates(face, quad, width - 1, 0);
    lemma_quad_cell_in_layer(voxels, extents, min, max, face, quad, lo, w, h, 0, height - 1);
    lemma_quad_cell_coordinates(face, quad, 0, height - 1);
    assert(width <= w && height <= h);
    // and it has grown to the layer's size
    assert(quad_is_grown(voxels, extents, max, face, quads, 0));
    reveal(quad_is_grown);
    if width < w {
        let next = quad_cell(face, quad, width, 0);
        lemma_quad_cell_coordinates(face, quad, width, 0);
        assert(in_layer(face, lo, w, h, next));
        assert(joins(voxels, extents, face, quads, 0, next));
        assert(false);
    }
    if height < h {
        let a = choose|a: int|
            0 <= a < quad.width && !joins(
                voxels,
                extents,
                face,
                quads,
                0,
                #[trigger] quad_cell(face, quad, a, quad.height as int),
            );
        let next = quad_cell(face, quad, a, height);
        lemma_quad_cell_coordinates(face, quad, a, height);
        assert(in_layer(face, lo, w, h, next));
        assert(joins(voxels, extents, face, quads, 0, next));
        assert(false);
    }
    // so it covers the layer, and leaves nothing for another quad
    if quads.len() >= 2 {
        let other = quads[1].minimum.ints();
        assert(in_layer(face, lo, w, h, other));
        let a = along(other, width_axis(face)) - along(lo, width_axis(face));
        let b = along(other, height_axis(face)) - along(lo, height_axis(face));
        lemma_quad_cell_coordinates(face, quad, a, b);
        lemma_same_coordinates(face, quad_cell(face, quad, a, b), other);
        assert(covers(face, quads[0], other));
        assert(quad_cell(face, quads[1], 0, 0) == other);
        assert(covers(face, quads[1], other));
        assert(false) by {
            reveal(quads_are_disjoint);
        }
    }
}

} // verus!
