use space_rts::draw::{
    circle_filled_indices, circle_line_indices, grown_capacity, plan_box_draws, plan_draws, BoxOutlineDraw,
    DrawIndexedIndirect,
    TextureManager,
};
use space_rts::mesh::{append_offset_indices, triangle_corners};

#[test]
fn draws_pack_instances_and_indices() {
    let draws = plan_draws(&[2, 0, 3, 0, 1], &[36, 60, 24, 12, 90]);
    assert_eq!(
        draws,
        vec![
            DrawIndexedIndirect { index_count: 36, instance_count: 2, base_index: 0, vertex_offset: 0, base_instance: 0 },
            DrawIndexedIndirect { index_count: 24, instance_count: 3, base_index: 36, vertex_offset: 0, base_instance: 2 },
            DrawIndexedIndirect { index_count: 90, instance_count: 1, base_index: 60, vertex_offset: 0, base_instance: 5 },
        ]
    );
    assert!(plan_draws(&[0; 5], &[1; 5]).is_empty());
}

#[test]
fn index_offsets_count_only_drawn_models() {
    let draws = plan_draws(&[0, 1, 0, 0, 0], &[3, 4, 5, 6, 7]);
    assert_eq!(
        draws,
        vec![DrawIndexedIndirect { index_count: 4, instance_count: 1, base_index: 0, vertex_offset: 0, base_instance: 0 }]
    );
    let last = plan_draws(&[0, 0, 0, 0, 2], &[3, 4, 5, 6, 7]);
    assert_eq!(last[0].base_index, 0);
    let two = plan_draws(&[0, 1, 0, 2, 0], &[3, 4, 5, 6, 7]);
    assert_eq!(two[1].base_index, 4);
    assert_eq!(two[1].base_instance, 1);
    assert_eq!(last[0].instance_count, 2);
}

#[test]
fn buffers_grow_by_doubling() {
    assert_eq!(grown_capacity(64, 32), 64);
    assert_eq!(grown_capacity(64, 64), 64);
    assert_eq!(grown_capacity(64, 65), 128);
    assert_eq!(grown_capacity(64, 300), 300);
    assert_eq!(grown_capacity(0, 1), 1);
}

#[test]
fn circle_outline_indices() {
    let indices: [u16; 10] = circle_line_indices::<4, 10>();
    assert_eq!(indices, [0, 1, 1, 2, 2, 3, 3, 0, 0, 0]);
}

#[test]
fn circle_fan_indices() {
    let indices: [u16; 9] = circle_filled_indices::<5, 9>();
    assert_eq!(indices, [0, 1, 2, 0, 2, 3, 0, 3, 4]);
    let more: [u16; 4] = circle_filled_indices::<3, 4>();
    assert_eq!(more, [0, 1, 2, 0]);
}

#[test]
fn texture_indices_count_up() {
    let mut textures = TextureManager::new();
    assert_eq!(textures.count(), 0);
    assert_eq!(textures.add("a"), 0);
    assert_eq!(textures.add("b"), 1);
    assert_eq!(textures.count(), 2);
    assert_eq!(textures.into_textures(), vec!["a", "b"]);
}

#[test]
fn merged_indices_are_offset() {
    let mut indices = vec![0u16, 1, 2];
    append_offset_indices(&mut indices, &[0, 2, 1], 3);
    assert_eq!(indices, vec![0, 1, 2, 3, 5, 4]);
    assert_eq!(triangle_corners(&indices), vec![(0, 1, 2), (3, 5, 4)]);
    assert_eq!(triangle_corners(&[]), Vec::<(usize, usize, usize)>::new());
}

#[test]
fn box_outlines_skip_explosions() {
    let draws = plan_box_draws(&[2, 0, 3, 4, 1]);
    assert_eq!(
        draws,
        vec![
            BoxOutlineDraw { vertex_offset: 0, first_instance: 0, instance_count: 2 },
            BoxOutlineDraw { vertex_offset: 16, first_instance: 2, instance_count: 3 },
            BoxOutlineDraw { vertex_offset: 32, first_instance: 9, instance_count: 1 },
        ]
    );
    assert!(plan_box_draws(&[0, 0, 0, 5, 0]).is_empty());
}
