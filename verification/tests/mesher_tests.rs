//! Behaviour of the greedy mesher: emptiness, merging, the index pattern,
//! and boundary handling against bordering chunks.

use automata::Block;
use automata::BlockRegistry;
use automata::Palette;
use automata::block_registry::ATTR_TRANSPARENT;
use automata::block_registry::Attributes;
use automata::chunk::CHUNK_SIZE_CUBED;
use automata::chunk::cell_index;
use automata::mesher::generate_packed_mesh;

fn opaque_registry() -> BlockRegistry {
    let mut registry = BlockRegistry::default();
    // "core:stone" gets identity 1 and no traits: an opaque block.
    registry.register_block("core", "stone", Attributes::empty());
    // "core:water" gets identity 2 and is see-through.
    registry.register_block("core", "water", Attributes::from_bits(ATTR_TRANSPARENT));
    registry
}

#[test]
fn empty_region_produces_empty_mesh() {
    let registry = opaque_registry();
    let palette = Palette::new(CHUNK_SIZE_CUBED);
    let mesh = generate_packed_mesh(&registry, &palette, [None, None, None, None, None, None]);
    assert_eq!(mesh.indexes.len(), 0);
    assert_eq!(mesh.vertexes.len(), 0);
}

#[test]
fn uniform_opaque_cube_merges_to_six_quads() {
    let registry = opaque_registry();
    let mut palette = Palette::new(CHUNK_SIZE_CUBED);
    for i in 0..CHUNK_SIZE_CUBED {
        palette.set(i, Block::new(1, 0, 0));
    }
    let mesh = generate_packed_mesh(&registry, &palette, [None, None, None, None, None, None]);
    assert_eq!(mesh.vertexes.len(), 6);
    assert_eq!(mesh.indexes.len(), 6);
}

#[test]
fn index_sextuples_follow_fixed_winding() {
    let registry = opaque_registry();
    let mut palette = Palette::new(CHUNK_SIZE_CUBED);
    palette.set(cell_index(5, 5, 5), Block::new(1, 0, 0));
    let mesh = generate_packed_mesh(&registry, &palette, [None, None, None, None, None, None]);
    for t in 0..mesh.indexes.len() {
        let base = (t * 4) as u32;
        let q = &mesh.indexes[t];
        assert_eq!(*q.get(0), base);
        assert_eq!(*q.get(1), base + 1);
        assert_eq!(*q.get(2), base + 3);
        assert_eq!(*q.get(3), base + 1);
        assert_eq!(*q.get(4), base + 2);
        assert_eq!(*q.get(5), base + 3);
    }
}

#[test]
fn single_cell_emits_six_faces() {
    let registry = opaque_registry();
    let mut palette = Palette::new(CHUNK_SIZE_CUBED);
    palette.set(cell_index(5, 5, 5), Block::new(1, 0, 0));
    let mesh = generate_packed_mesh(&registry, &palette, [None, None, None, None, None, None]);
    assert_eq!(mesh.vertexes.len(), 6);
}

#[test]
fn adjacent_same_label_cells_merge_faces() {
    let registry = opaque_registry();
    let mut palette = Palette::new(CHUNK_SIZE_CUBED);
    palette.set(cell_index(5, 5, 5), Block::new(1, 0, 0));
    palette.set(cell_index(6, 5, 5), Block::new(1, 0, 0));
    let mesh = generate_packed_mesh(&registry, &palette, [None, None, None, None, None, None]);
    // The shared face pair is hidden and the four long sides merge, so a
    // two-cell bar still needs exactly six quads.
    assert_eq!(mesh.vertexes.len(), 6);
}

#[test]
fn adjacent_different_labels_do_not_merge() {
    let registry = opaque_registry();
    let mut palette = Palette::new(CHUNK_SIZE_CUBED);
    palette.set(cell_index(5, 5, 5), Block::new(1, 0, 0));
    palette.set(cell_index(6, 5, 5), Block::new(2, 0, 0));
    let mesh = generate_packed_mesh(&registry, &palette, [None, None, None, None, None, None]);
    // The opaque block keeps all six faces (its neighbour is see-through);
    // the transparent block keeps its six as well (different label), and
    // no two faces can merge across the label change.
    assert_eq!(mesh.vertexes.len(), 12);
}

#[test]
fn transparent_same_label_pair_hides_shared_faces() {
    let registry = opaque_registry();
    let mut palette = Palette::new(CHUNK_SIZE_CUBED);
    palette.set(cell_index(5, 5, 5), Block::new(2, 0, 0));
    palette.set(cell_index(6, 5, 5), Block::new(2, 0, 0));
    let mesh = generate_packed_mesh(&registry, &palette, [None, None, None, None, None, None]);
    assert_eq!(mesh.vertexes.len(), 6);
}

#[test]
fn boundary_without_neighbor_is_emitted() {
    let registry = opaque_registry();
    let mut palette = Palette::new(CHUNK_SIZE_CUBED);
    palette.set(cell_index(31, 0, 0), Block::new(1, 0, 0));
    let mesh = generate_packed_mesh(&registry, &palette, [None, None, None, None, None, None]);
    // No bordering chunk was supplied along +X, so the boundary face is
    // conservatively kept: all six faces appear.
    assert_eq!(mesh.vertexes.len(), 6);
}

#[test]
fn boundary_against_same_opaque_neighbor_is_hidden() {
    let registry = opaque_registry();
    let mut palette = Palette::new(CHUNK_SIZE_CUBED);
    palette.set(cell_index(31, 0, 0), Block::new(1, 0, 0));
    let mut east = Palette::new(CHUNK_SIZE_CUBED);
    east.set(cell_index(0, 0, 0), Block::new(1, 0, 0));
    let mesh = generate_packed_mesh(
        &registry,
        &palette,
        [Some(&east), None, None, None, None, None],
    );
    // The +X face is hidden by the bordering chunk's opaque cell.
    assert_eq!(mesh.vertexes.len(), 5);
}

#[test]
fn boundary_against_air_neighbor_is_emitted() {
    let registry = opaque_registry();
    let mut palette = Palette::new(CHUNK_SIZE_CUBED);
    palette.set(cell_index(31, 0, 0), Block::new(1, 0, 0));
    let east = Palette::new(CHUNK_SIZE_CUBED);
    let mesh = generate_packed_mesh(
        &registry,
        &palette,
        [Some(&east), None, None, None, None, None],
    );
    assert_eq!(mesh.vertexes.len(), 6);
}

// Decodes every quad's rectangle from its packed corners, asserts that no
// two quads cover the same cell-face pair, and returns the total covered
// face area in cells.
fn replay_coverage(mesh: &automata::mesher::PackedMesh) -> usize {
    let mut covered = vec![false; CHUNK_SIZE_CUBED * 6];
    let mut area = 0usize;
    for t in 0..mesh.vertexes.len() {
        let mut coords = [[0u32; 4]; 3];
        for c in 0..4 {
            let bits = mesh.vertexes[t].get(c).xyz as u32;
            coords[0][c] = bits & 0x3f;
            coords[1][c] = (bits >> 6) & 0x3f;
            coords[2][c] = (bits >> 12) & 0x3f;
        }
        let bits0 = mesh.vertexes[t].get(0).xyz as u32;
        let tags = [(bits0 >> 18) & 3, (bits0 >> 20) & 3, (bits0 >> 22) & 3];
        // Exactly one axis carries a non-neutral orientation tag: the face
        // normal's axis, with 2 for positive and 0 for negative.
        assert_eq!(tags.iter().filter(|&&tag| tag != 1).count(), 1);
        let axis = (0..3).find(|&i| tags[i] != 1).unwrap();
        let positive = tags[axis] == 2;
        let dir = if positive { axis } else { axis + 3 };
        // All four corners sit on the face plane.
        let plane = coords[axis][0];
        for c in 1..4 {
            assert_eq!(coords[axis][c], plane);
        }
        assert!(!positive || plane >= 1);
        let cell_a = if positive { plane - 1 } else { plane };
        let o = [(axis + 1) % 3, (axis + 2) % 3];
        let lo = [
            *coords[o[0]].iter().min().unwrap(),
            *coords[o[1]].iter().min().unwrap(),
        ];
        let hi = [
            *coords[o[0]].iter().max().unwrap(),
            *coords[o[1]].iter().max().unwrap(),
        ];
        assert!(lo[0] < hi[0] && lo[1] < hi[1]);
        area += ((hi[0] - lo[0]) * (hi[1] - lo[1])) as usize;
        for u in lo[0]..hi[0] {
            for v in lo[1]..hi[1] {
                let mut pos = [0u32; 3];
                pos[axis] = cell_a;
                pos[o[0]] = u;
                pos[o[1]] = v;
                let cell = (pos[0] + 32 * pos[1] + 1024 * pos[2]) as usize;
                let key = cell * 6 + dir;
                assert!(!covered[key], "two quads cover one cell face");
                covered[key] = true;
            }
        }
    }
    area
}

#[test]
fn no_two_quads_cover_one_cell_face() {
    let registry = opaque_registry();
    let mut palette = Palette::new(CHUNK_SIZE_CUBED);
    // A varied region: bands of stone, water and air.
    for i in 0..CHUNK_SIZE_CUBED {
        let label = ((i * 2654435761usize) >> 8) % 3;
        if label != 0 {
            palette.set(i, Block::new(label as u16, 0, 0));
        }
    }
    let mesh = generate_packed_mesh(&registry, &palette, [None, None, None, None, None, None]);
    assert!(mesh.vertexes.len() > 0);
    replay_coverage(&mesh);
}

#[test]
fn uniform_cube_covers_its_exact_surface_area() {
    let registry = opaque_registry();
    let mut palette = Palette::new(CHUNK_SIZE_CUBED);
    for i in 0..CHUNK_SIZE_CUBED {
        palette.set(i, Block::new(1, 0, 0));
    }
    let mesh = generate_packed_mesh(&registry, &palette, [None, None, None, None, None, None]);
    let area = replay_coverage(&mesh);
    assert_eq!(area, 6 * 32 * 32);
}

#[test]
fn packed_vertices_stay_in_coordinate_range() {
    let registry = opaque_registry();
    let mut palette = Palette::new(CHUNK_SIZE_CUBED);
    for i in 0..CHUNK_SIZE_CUBED {
        palette.set(i, Block::new(1, 0, 0));
    }
    let mesh = generate_packed_mesh(&registry, &palette, [None, None, None, None, None, None]);
    for t in 0..mesh.vertexes.len() {
        for c in 0..4 {
            let v = mesh.vertexes[t].get(c);
            let bits = v.xyz as u32;
            assert!(bits & 0x3f <= 32);
            assert!((bits >> 6) & 0x3f <= 32);
            assert!((bits >> 12) & 0x3f <= 32);
            assert_eq!(v.uvz, 0);
        }
    }
}
