use vox_scene::math::{IVec3, UVec3};
use vox_scene::mesh::{assemble_mesh, can_assemble, mesh_model, mesh_quads, MeshQuad, Quad};
use vox_scene::registry::RefractionTable;
use vox_scene::voxel::{load_from_model, Model, Size, SourceVoxel, Visibility, Voxel, VoxelData};

fn grid(size: (u32, u32, u32), voxels: Vec<(u8, u8, u8, u8)>, translucent: Vec<(u8, u32)>) -> VoxelData {
    let model = Model {
        size: Size { x: size.0, y: size.1, z: size.2 },
        voxels: voxels.into_iter().map(|(x, y, z, i)| SourceVoxel { x, y, z, i }).collect(),
    };
    load_from_model(&model, &RefractionTable::from_entries(&translucent)).0
}

fn points(quad: &MeshQuad) -> Vec<(i32, i32, i32)> {
    quad.corners.iter().map(|c| (c.x, c.y, c.z)).collect()
}

fn on_face(mesh: &[MeshQuad], face: u8) -> Vec<&MeshQuad> {
    mesh.iter().filter(|q| q.face == face).collect()
}

#[test]
fn single_voxel_has_six_unit_quads() {
    let data = grid((1, 1, 1), vec![(0, 0, 0, 42)], vec![]);
    let mesh = mesh_model(&data, true).unwrap();
    assert_eq!(mesh.len(), 6);
    for (k, quad) in mesh.iter().enumerate() {
        assert_eq!(quad.face as usize, k);
        assert_eq!(quad.quad, Quad { minimum: UVec3 { x: 1, y: 1, z: 1 }, width: 1, height: 1 });
        assert_eq!(quad.material, 42);
    }
    assert_eq!(points(&mesh[0]), vec![(0, 0, 0), (0, 0, 1), (0, 1, 0), (0, 1, 1)]);
    assert_eq!(points(&mesh[1]), vec![(0, 0, 0), (0, 0, 1), (1, 0, 0), (1, 0, 1)]);
    assert_eq!(points(&mesh[2]), vec![(0, 0, 0), (1, 0, 0), (0, 1, 0), (1, 1, 0)]);
    assert_eq!(points(&mesh[3]), vec![(1, 0, 0), (1, 0, 1), (1, 1, 0), (1, 1, 1)]);
    assert_eq!(points(&mesh[4]), vec![(0, 1, 0), (0, 1, 1), (1, 1, 0), (1, 1, 1)]);
    assert_eq!(points(&mesh[5]), vec![(0, 0, 1), (1, 0, 1), (0, 1, 1), (1, 1, 1)]);
}

#[test]
fn normals_point_out_of_each_face() {
    let data = grid((1, 1, 1), vec![(0, 0, 0, 1)], vec![]);
    let mesh = mesh_model(&data, true).unwrap();
    let normals: Vec<IVec3> = mesh.iter().map(|q| q.normal).collect();
    assert_eq!(
        normals,
        vec![
            IVec3 { x: -1, y: 0, z: 0 },
            IVec3 { x: 0, y: -1, z: 0 },
            IVec3 { x: 0, y: 0, z: -1 },
            IVec3 { x: 1, y: 0, z: 0 },
            IVec3 { x: 0, y: 1, z: 0 },
            IVec3 { x: 0, y: 0, z: 1 },
        ]
    );
}

#[test]
fn triangles_number_four_vertices_for_each_quad() {
    let data = grid((1, 1, 1), vec![(0, 0, 0, 1)], vec![]);
    let mesh = mesh_model(&data, true).unwrap();
    assert_eq!(mesh[0].indices, [0, 1, 2, 1, 3, 2]);
    assert_eq!(mesh[1].indices, [4, 6, 5, 5, 6, 7]);
    assert_eq!(mesh[2].indices, [8, 10, 9, 9, 10, 11]);
    assert_eq!(mesh[3].indices, [12, 14, 13, 13, 14, 15]);
    assert_eq!(mesh[4].indices, [16, 17, 18, 17, 19, 18]);
    assert_eq!(mesh[5].indices, [20, 21, 22, 21, 23, 22]);
}

#[test]
fn slab_of_one_material_merges_into_full_quads() {
    // 4 x 4 cells in the file's x and y, one cell high: in the grid the
    // thin axis is y
    let mut voxels = Vec::new();
    for x in 0..4u8 {
        for y in 0..4u8 {
            voxels.push((x, y, 0, 3));
        }
    }
    let data = grid((4, 4, 1), voxels, vec![]);
    let mesh = mesh_model(&data, true).unwrap();
    let bottom = on_face(&mesh, 1);
    let top = on_face(&mesh, 4);
    assert_eq!(bottom.len(), 1);
    assert_eq!(top.len(), 1);
    for quad in [bottom[0], top[0]] {
        assert_eq!(quad.quad, Quad { minimum: UVec3 { x: 1, y: 1, z: 1 }, width: 4, height: 4 });
        assert_eq!(quad.material, 3);
    }
    assert_eq!(points(bottom[0]), vec![(0, 0, 0), (0, 0, 4), (4, 0, 0), (4, 0, 4)]);
    assert_eq!(points(top[0]), vec![(0, 1, 0), (0, 1, 4), (4, 1, 0), (4, 1, 4)]);
    // the four sides are one strip each
    for face in [0u8, 2, 3, 5] {
        let side = on_face(&mesh, face);
        assert_eq!(side.len(), 1);
        let spans = (side[0].quad.width, side[0].quad.height);
        assert!(spans == (4, 1) || spans == (1, 4));
    }
    assert_eq!(mesh.len(), 6);
}

#[test]
fn different_materials_do_not_merge_and_hide_their_shared_face() {
    // two voxels side by side along the file's x axis
    let data = grid((2, 1, 1), vec![(0, 0, 0, 1), (1, 0, 0, 2)], vec![]);
    let mesh = mesh_model(&data, true).unwrap();
    // each voxel shows five faces; the two faces between them are gone
    assert_eq!(mesh.len(), 10);
    assert_eq!(on_face(&mesh, 0).len(), 1);
    assert_eq!(on_face(&mesh, 3).len(), 1);
    for face in [1u8, 2, 4, 5] {
        let quads = on_face(&mesh, face);
        assert_eq!(quads.len(), 2);
        let mut materials: Vec<u8> = quads.iter().map(|q| q.material).collect();
        materials.sort();
        assert_eq!(materials, vec![1, 2]);
    }
    for quad in &mesh {
        assert_eq!((quad.quad.width, quad.quad.height), (1, 1));
    }
    // source x = 0 is grid x = 2, so material 1 shows the +x face
    assert_eq!(on_face(&mesh, 3)[0].material, 1);
    assert_eq!(on_face(&mesh, 0)[0].material, 2);
}

#[test]
fn same_material_merges_across_two_voxels() {
    let data = grid((2, 1, 1), vec![(0, 0, 0, 1), (1, 0, 0, 1)], vec![]);
    let mesh = mesh_model(&data, true).unwrap();
    assert_eq!(mesh.len(), 6);
    let top = on_face(&mesh, 4);
    assert_eq!(points(top[0]), vec![(0, 1, 0), (0, 1, 1), (2, 1, 0), (2, 1, 1)]);
}

#[test]
fn translucent_voxel_does_not_hide_an_opaque_neighbour() {
    let data = grid((2, 1, 1), vec![(0, 0, 0, 1), (1, 0, 0, 2)], vec![(2, 7)]);
    let mesh = mesh_model(&data, true).unwrap();
    // the opaque voxel (grid x = 2) shows its -x face through the
    // translucent one; the translucent one does not show its +x face
    let minus_x = on_face(&mesh, 0);
    let mut materials: Vec<u8> = minus_x.iter().map(|q| q.material).collect();
    materials.sort();
    assert_eq!(materials, vec![1, 2]);
    assert_eq!(on_face(&mesh, 3).len(), 1);
    assert_eq!(on_face(&mesh, 3)[0].material, 1);
    assert_eq!(mesh.len(), 11);
}

#[test]
fn empty_model_has_an_empty_mesh() {
    let data = grid((3, 3, 3), vec![], vec![]);
    assert_eq!(mesh_model(&data, true).unwrap().len(), 0);
    assert_eq!(mesh_model(&data, false).unwrap().len(), 0);
    let groups = mesh_quads(&data, true);
    assert_eq!(groups.len(), 6);
    assert!(groups.iter().all(|g| g.is_empty()));
}

#[test]
fn without_outer_faces_the_boundary_cells_only_hide() {
    // a full 3 x 3 x 3 block: only the centre cell is meshed, and all its
    // neighbours hide it
    let mut voxels = Vec::new();
    for x in 0..3u8 {
        for y in 0..3u8 {
            for z in 0..3u8 {
                voxels.push((x, y, z, 1));
            }
        }
    }
    let full = grid((3, 3, 3), voxels.clone(), vec![]);
    assert_eq!(mesh_model(&full, false).unwrap().len(), 0);
    assert_eq!(mesh_model(&full, true).unwrap().len(), 6);
    // with the centre of the top layer removed, the centre cell shows its
    // top face
    let open: Vec<(u8, u8, u8, u8)> = voxels.into_iter().filter(|v| (v.0, v.1, v.2) != (1, 1, 2)).collect();
    let data = grid((3, 3, 3), open, vec![]);
    let mesh = mesh_model(&data, false).unwrap();
    assert_eq!(mesh.len(), 1);
    assert_eq!(mesh[0].face, 4);
    assert_eq!(mesh[0].quad, Quad { minimum: UVec3 { x: 2, y: 2, z: 2 }, width: 1, height: 1 });
    assert_eq!(points(&mesh[0]), vec![(1, 2, 1), (1, 2, 2), (2, 2, 1), (2, 2, 2)]);
}

#[test]
fn thin_model_without_outer_faces_has_no_quads() {
    let data = grid((4, 4, 1), vec![(0, 0, 0, 1), (1, 1, 0, 1)], vec![]);
    let groups = mesh_quads(&data, false);
    assert_eq!(groups.len(), 6);
    assert!(groups.iter().all(|g| g.is_empty()));
    assert_eq!(mesh_model(&data, false).unwrap().len(), 0);
}

#[test]
fn assembling_takes_the_material_at_the_smallest_cell() {
    let data = grid((2, 1, 1), vec![(0, 0, 0, 10), (1, 0, 0, 20)], vec![]);
    let mut groups: Vec<Vec<Quad>> = vec![vec![], vec![], vec![], vec![], vec![], vec![]];
    groups[4].push(Quad { minimum: UVec3 { x: 1, y: 1, z: 1 }, width: 1, height: 2 });
    groups[5].push(Quad { minimum: UVec3 { x: 2, y: 1, z: 1 }, width: 1, height: 1 });
    assert!(can_assemble(&data, &groups));
    let mesh = assemble_mesh(&data, &groups).unwrap();
    assert_eq!(mesh.len(), 2);
    assert_eq!(mesh[0].face, 4);
    assert_eq!(mesh[0].material, 20);
    assert_eq!(points(&mesh[0]), vec![(0, 1, 0), (0, 1, 1), (2, 1, 0), (2, 1, 1)]);
    assert_eq!(mesh[0].indices, [0, 1, 2, 1, 3, 2]);
    assert_eq!(mesh[1].face, 5);
    assert_eq!(mesh[1].material, 10);
    assert_eq!(points(&mesh[1]), vec![(1, 0, 1), (2, 0, 1), (1, 1, 1), (2, 1, 1)]);
    assert_eq!(mesh[1].indices, [4, 5, 6, 5, 7, 6]);
}

#[test]
fn quads_that_leave_the_grid_cannot_be_assembled() {
    let data = grid((2, 1, 1), vec![(0, 0, 0, 10)], vec![]);
    let empty: Vec<Vec<Quad>> = vec![vec![], vec![], vec![], vec![], vec![], vec![]];
    assert!(can_assemble(&data, &empty));
    assert_eq!(assemble_mesh(&data, &empty).unwrap().len(), 0);
    // five groups only
    let mut short = empty.clone();
    short.pop();
    assert!(!can_assemble(&data, &short));
    assert!(assemble_mesh(&data, &short).is_none());
    // smallest cell in the padding
    let mut padded = empty.clone();
    padded[0].push(Quad { minimum: UVec3 { x: 0, y: 1, z: 1 }, width: 1, height: 1 });
    assert!(assemble_mesh(&data, &padded).is_none());
    // too wide: face 2 has its width along x, and the grid is 4 cells wide
    let mut wide = empty.clone();
    wide[2].push(Quad { minimum: UVec3 { x: 1, y: 1, z: 1 }, width: 3, height: 1 });
    assert!(assemble_mesh(&data, &wide).is_none());
    let mut fits = empty.clone();
    fits[2].push(Quad { minimum: UVec3 { x: 1, y: 1, z: 1 }, width: 2, height: 1 });
    assert!(assemble_mesh(&data, &fits).is_some());
    // no extent
    let mut flat = empty.clone();
    flat[2].push(Quad { minimum: UVec3 { x: 1, y: 1, z: 1 }, width: 0, height: 1 });
    assert!(assemble_mesh(&data, &flat).is_none());
    // far outside
    let mut far = empty;
    far[3].push(Quad { minimum: UVec3 { x: u32::MAX, y: u32::MAX, z: u32::MAX }, width: u32::MAX, height: 1 });
    assert!(assemble_mesh(&data, &far).is_none());
}

fn cell_at(data: &VoxelData, dims: (i64, i64, i64), p: (i64, i64, i64)) -> Voxel {
    data.voxels[(p.0 + dims.0 * p.1 + dims.0 * dims.1 * p.2) as usize]
}

fn shows(own: Voxel, neighbour: Voxel) -> bool {
    let (own, neighbour) = (own.classify(), neighbour.classify());
    own != Visibility::Empty
        && (neighbour == Visibility::Empty || (neighbour == Visibility::Translucent && own == Visibility::Opaque))
}

/// Checks the quads of a grid against its cells: every quad covers equal
/// voxels whose faces show, and every face that shows inside the box is
/// covered exactly once.
fn check_quads_against_cells(data: &VoxelData, dims: (i64, i64, i64), outer: bool) -> usize {
    let groups = mesh_quads(data, outer);
    assert_eq!(groups.len(), 6);
    let normals: [(i64, i64, i64); 6] = [(-1, 0, 0), (0, -1, 0), (0, 0, -1), (1, 0, 0), (0, 1, 0), (0, 0, 1)];
    let width_axes: [(i64, i64, i64); 6] = [(0, 0, 1), (0, 0, 1), (1, 0, 0), (0, 0, 1), (0, 0, 1), (1, 0, 0)];
    let height_axes: [(i64, i64, i64); 6] = [(0, 1, 0), (1, 0, 0), (0, 1, 0), (0, 1, 0), (1, 0, 0), (0, 1, 0)];
    let border = if outer { 0 } else { 1 };
    let mut total = 0;
    for face in 0..6 {
        let mut covered = std::collections::BTreeMap::new();
        let n = normals[face];
        let (w, h) = (width_axes[face], height_axes[face]);
        let pick = |p: (i64, i64, i64), axis: (i64, i64, i64)| p.0 * axis.0 + p.1 * axis.1 + p.2 * axis.2;
        let max = (dims.0 - 1 - border, dims.1 - 1 - border, dims.2 - 1 - border);
        let mut earlier: Option<(i64, i64, i64, i64)> = None;
        for quad in &groups[face] {
            let m = (quad.minimum.x as i64, quad.minimum.y as i64, quad.minimum.z as i64);
            // quads come in the order in which their smallest cells are
            // visited: slice by slice along the face's axis, then by z, y, x
            let key = (pick(m, (n.0.abs(), n.1.abs(), n.2.abs())), m.2, m.1, m.0);
            if let Some(earlier) = earlier {
                assert!(earlier < key);
            }
            earlier = Some(key);
            // a quad is as wide and as high as it could grow when it was made
            let joins = |cell: (i64, i64, i64)| {
                cell_at(data, dims, cell) == cell_at(data, dims, m)
                    && shows(cell_at(data, dims, cell), cell_at(data, dims, (cell.0 + n.0, cell.1 + n.1, cell.2 + n.2)))
                    && !covered.contains_key(&cell)
            };
            let at = |a: i64, b: i64| (m.0 + a * w.0 + b * h.0, m.1 + a * w.1 + b * h.1, m.2 + a * w.2 + b * h.2);
            let (width, height) = (quad.width as i64, quad.height as i64);
            assert!(pick(m, w) + width <= pick(max, w) && pick(m, h) + height <= pick(max, h));
            assert!(pick(m, w) + width == pick(max, w) || !joins(at(width, 0)));
            assert!(pick(m, h) + height == pick(max, h) || (0..width).any(|a| !joins(at(a, height))));
            assert!(quad.width >= 1 && quad.height >= 1);
            for a in 0..quad.width as i64 {
                for b in 0..quad.height as i64 {
                    let cell = (m.0 + a * w.0 + b * h.0, m.1 + a * w.1 + b * h.1, m.2 + a * w.2 + b * h.2);
                    assert_eq!(cell_at(data, dims, cell), cell_at(data, dims, m));
                    *covered.entry(cell).or_insert(0) += 1;
                }
            }
            total += 1;
        }
        for x in border + 1..dims.0 - 1 - border {
            for y in border + 1..dims.1 - 1 - border {
                for z in border + 1..dims.2 - 1 - border {
                    let own = cell_at(data, dims, (x, y, z));
                    let neighbour = cell_at(data, dims, (x + n.0, y + n.1, z + n.2));
                    let times = covered.get(&(x, y, z)).copied().unwrap_or(0);
                    assert_eq!(times, if shows(own, neighbour) { 1 } else { 0 });
                }
            }
        }
        let inside = covered.keys().all(|c| {
            border < c.0 && c.0 < dims.0 - 1 - border && border < c.1 && c.1 < dims.1 - 1 - border
                && border < c.2 && c.2 < dims.2 - 1 - border
        });
        assert!(inside);
    }
    total
}

#[test]
fn quads_cover_exactly_the_faces_that_show() {
    // a 5 x 4 x 6 model filled by a fixed rule with holes, two opaque
    // materials and a translucent one
    let mut voxels = Vec::new();
    let mut seed = 12345u32;
    for x in 0..5u8 {
        for y in 0..4u8 {
            for z in 0..6u8 {
                seed = seed.wrapping_mul(1_103_515_245).wrapping_add(12_345);
                match (seed >> 16) % 5 {
                    0 => {}
                    1 | 2 => voxels.push((x, y, z, 1)),
                    3 => voxels.push((x, y, z, 2)),
                    _ => voxels.push((x, y, z, 3)),
                }
            }
        }
    }
    let data = grid((5, 4, 6), voxels, vec![(3, 1)]);
    let with_outer = check_quads_against_cells(&data, (7, 8, 6), true);
    let without_outer = check_quads_against_cells(&data, (7, 8, 6), false);
    assert!(with_outer > without_outer);
    assert!(without_outer > 0);
    assert_eq!(mesh_model(&data, true).unwrap().len(), with_outer);
    assert_eq!(mesh_model(&data, false).unwrap().len(), without_outer);
}
