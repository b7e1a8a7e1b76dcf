//! Integer bookkeeping for instanced drawing: the indirect draw commands for
//! the per-model instance lists, buffer growth, the index lists of circle
//! meshes and the texture table.
use vstd::prelude::*;
use crate::ships::{ModelId, model_index};

verus! {

/// One indexed indirect draw command, in the layout the GPU reads.
#[derive(Debug, Clone, Copy, PartialEq, Eq, Structural)]
pub struct DrawIndexedIndirect {
    pub index_count: u32,
    pub instance_count: u32,
    pub base_index: u32,
    pub vertex_offset: i32,
    pub base_instance: u32,
}

/// Sum of the first `n` entries.
pub open spec fn prefix_sum(s: Seq<u32>, n: nat) -> nat
    decreases n,
{
    if n == 0 {
        0
    } else {
        prefix_sum(s, (n - 1) as nat) + s[n - 1] as nat
    }
}

/// Sum of the index counts of the first `n` models that have instances.
pub open spec fn drawn_index_sum(instances: Seq<u32>, indices: Seq<u32>, n: nat) -> nat
    decreases n,
{
    if n == 0 {
        0
    } else {
        drawn_index_sum(instances, indices, (n - 1) as nat) + if instances[n - 1] > 0 {
            indices[n - 1] as nat
        } else {
            0nat
        }
    }
}

/// The draw commands for the first `n` models: one per model with instances,
/// in model order. A draw's first instance follows the instances of all
/// earlier models, and its first index follows the index counts of the
/// earlier models that are drawn.
pub open spec fn planned_draws(instances: Seq<u32>, indices: Seq<u32>, n: nat) -> Seq<DrawIndexedIndirect>
    decreases n,
{
    if n == 0 {
        seq![]
    } else {
        let before = planned_draws(instances, indices, (n - 1) as nat);
        if instances[n - 1] > 0 {
            before.push(
                DrawIndexedIndirect {
                    index_count: indices[n - 1],
                    instance_count: instances[n - 1],
                    base_index: drawn_index_sum(instances, indices, (n - 1) as nat) as u32,
                    vertex_offset: 0,
                    base_instance: prefix_sum(instances, (n - 1) as nat) as u32,
                },
            )
        } else {
            before
        }
    }
}

proof fn lemma_sums_monotone(instances: Seq<u32>, indices: Seq<u32>, a: nat, b: nat)
    requires
        a <= b,
        b <= instances.len(),
        b <= indices.len(),
    ensures
        prefix_sum(instances, a) <= prefix_sum(instances, b),
        drawn_index_sum(instances, indices, a) <= drawn_index_sum(instances, indices, b),
    decreases b - a,
{
    if a < b {
        lemma_sums_monotone(instances, indices, a, (b - 1) as nat);
    }
}

/// Plans the draw commands for the models' instance lists: `instances[i]` is
/// the number of instances staged for model `i` and `indices[i]` the number
/// of indices of its mesh.
pub fn plan_draws(instances: &[u32; 5], indices: &[u32; 5]) -> (draws: Vec<DrawIndexedIndirect>)
    requires
        prefix_sum(instances@, 5) <= u32::MAX,
        drawn_index_sum(instances@, indices@, 5) <= u32::MAX,
    ensures
        draws@ == planned_draws(instances@, indices@, 5),
{
    let mut draws: Vec<DrawIndexedIndirect> = Vec::new();
    let mut instance_offset: u32 = 0;
    let mut index_offset: u32 = 0;
    let mut i: usize = 0;
    while i < 5
        invariant
            i <= 5,
            instances@.len() == 5,
            indices@.len() == 5,
            prefix_sum(instances@, 5) <= u32::MAX,
            drawn_index_sum(instances@, indices@, 5) <= u32::MAX,
            instance_offset == prefix_sum(instances@, i as nat),
            index_offset == drawn_index_sum(instances@, indices@, i as nat),
            draws@ == planned_draws(instances@, indices@, i as nat),
        decreases 5 - i,
    {
        proof {
            lemma_sums_monotone(instances@, indices@, (i + 1) as nat, 5);
        }
        let instance_count = instances[i];
        let index_count = indices[i];
        if instance_count > 0 {
            draws.push(
                DrawIndexedIndirect {
                    vertex_offset: 0,
                    base_instance: instance_offset,
                    instance_count,
                    base_index: index_offset,
                    index_count,
                },
            );
            instance_offset = instance_offset + instance_count;
            index_offset = index_offset + index_count;
        }
        i = i + 1;
    }
    draws
}

/// A draw of the bounding-box outlines of one model's instances: the 24
/// indices of a box outline, over the model's 8 box corners (starting at
/// `vertex_offset` in the box vertex buffer), for `instance_count` instances
/// from `first_instance` on.
#[derive(Debug, Clone, Copy, PartialEq, Eq, Structural)]
pub struct BoxOutlineDraw {
    pub vertex_offset: i32,
    pub first_instance: u32,
    pub instance_count: u32,
}

/// The box outline draws for the first `n` models: one per model with
/// instances, in model order, except the explosion, which has no box. Each
/// model has 8 box corners, and instances are packed as for `planned_draws`.
pub open spec fn planned_box_draws(instances: Seq<u32>, n: nat) -> Seq<BoxOutlineDraw>
    decreases n,
{
    if n == 0 {
        seq![]
    } else {
        let before = planned_box_draws(instances, (n - 1) as nat);
        if instances[n - 1] > 0 && n - 1 != model_index(ModelId::Explosion) {
            before.push(
                BoxOutlineDraw {
                    vertex_offset: (8 * (n - 1)) as i32,
                    first_instance: prefix_sum(instances, (n - 1) as nat) as u32,
                    instance_count: instances[n - 1],
                },
            )
        } else {
            before
        }
    }
}

/// Plans the bounding-box outline draws for the models' instance lists.
pub fn plan_box_draws(instances: &[u32; 5]) -> (draws: Vec<BoxOutlineDraw>)
    requires
        prefix_sum(instances@, 5) <= u32::MAX,
    ensures
        draws@ == planned_box_draws(instances@, 5),
{
    let explosion = ModelId::Explosion.index();
    let mut draws: Vec<BoxOutlineDraw> = Vec::new();
    let mut offset: u32 = 0;
    let mut vertex_offset: i32 = 0;
    let mut i: usize = 0;
    while i < 5
        invariant
            i <= 5,
            instances@.len() == 5,
            explosion == model_index(ModelId::Explosion),
            prefix_sum(instances@, 5) <= u32::MAX,
            offset == prefix_sum(instances@, i as nat),
            vertex_offset == 8 * i,
            draws@ == planned_box_draws(instances@, i as nat),
        decreases 5 - i,
    {
        proof {
            lemma_sums_monotone(instances@, instances@, (i + 1) as nat, 5);
        }
        let num_instances = instances[i];
        if num_instances > 0 {
            if i != explosion {
                draws.push(BoxOutlineDraw { vertex_offset, first_instance: offset, instance_count: num_instances });
            }
            offset = offset + num_instances;
        }
        vertex_offset = vertex_offset + 8;
        i = i + 1;
    }
    draws
}

/// The capacity of a growable buffer that must hold `needed` bytes: kept when
/// large enough, otherwise the larger of `needed` and double the capacity.
pub open spec fn spec_grown_capacity(capacity: nat, needed: nat) -> nat {
    if capacity < needed {
        if needed >= 2 * capacity {
            needed
        } else {
            2 * capacity
        }
    } else {
        capacity
    }
}

pub fn grown_capacity(capacity: usize, needed: usize) -> (c: usize)
    requires
        capacity < needed ==> 2 * capacity <= usize::MAX,
    ensures
        c == spec_grown_capacity(capacity as nat, needed as nat),
        c >= needed,
{
    if capacity < needed {
        let doubled = capacity * 2;
        if needed >= doubled {
            needed
        } else {
            doubled
        }
    } else {
        capacity
    }
}

/// Entry `k` of the line list of a circle with `n` points: entries `2i` and
/// `2i + 1` are point `i` and the next point (wrapping round), and entries
/// past the `n` segments are zero.
pub open spec fn line_index(n: int, k: int) -> u16 {
    if k >= 2 * n {
        0
    } else if k % 2 == 0 {
        (k / 2) as u16
    } else {
        ((k / 2 + 1) % n) as u16
    }
}

/// Entry `k` of the triangle fan of a polygon with `n` points: triangle `i`
/// is (0, i + 1, i + 2), and entries past the `n - 2` triangles are zero.
pub open spec fn fan_index(n: int, k: int) -> u16 {
    if k >= 3 * (n - 2) {
        0
    } else if k % 3 == 0 {
        0
    } else if k % 3 == 1 {
        (k / 3 + 1) as u16
    } else {
        (k / 3 + 2) as u16
    }
}

/// The line list of a circle outline with `VERTICES` points: segment `i`
/// joins point `i` to the next one, the last wrapping round to the first.
/// Entries past the segments are zero.
pub fn circle_line_indices<const VERTICES: usize, const INDICES: usize>() -> (indices: [u16; INDICES])
    requires
        2 * VERTICES <= INDICES,
    ensures
        forall|k: int| 0 <= k < INDICES ==> #[trigger] indices[k] == line_index(VERTICES as int, k),
{
    let mut indices: [u16; INDICES] = [0u16; INDICES];
    let mut i: usize = 0;
    while i < VERTICES
        invariant
            i <= VERTICES,
            2 * VERTICES <= INDICES,
            forall|k: int| 0 <= k < 2 * i ==> #[trigger] indices[k] == line_index(VERTICES as int, k),
            forall|k: int| 2 * i <= k < INDICES ==> #[trigger] indices[k] == 0,
        decreases VERTICES - i,
    {
        indices[i * 2] = i as u16;
        indices[i * 2 + 1] = ((i + 1) % VERTICES) as u16;
        i = i + 1;
    }
    indices
}

/// The triangle list of a filled convex polygon with `VERTICES` points, as a
/// fan from point 0: triangle `i` is (0, i + 1, i + 2). Entries past the
/// triangles are zero.
pub fn circle_filled_indices<const VERTICES: usize, const INDICES: usize>() -> (indices: [u16; INDICES])
    requires
        VERTICES >= 2,
        3 * (VERTICES - 2) <= INDICES,
    ensures
        forall|k: int| 0 <= k < INDICES ==> #[trigger] indices[k] == fan_index(VERTICES as int, k),
{
    let mut indices: [u16; INDICES] = [0u16; INDICES];
    let mut i: usize = 0;
    while i < VERTICES - 2
        invariant
            i <= VERTICES - 2,
            VERTICES >= 2,
            3 * (VERTICES - 2) <= INDICES,
            forall|k: int| 0 <= k < 3 * i ==> #[trigger] indices[k] == fan_index(VERTICES as int, k),
            forall|k: int| 3 * i <= k < INDICES ==> #[trigger] indices[k] == 0,
        decreases VERTICES - 2 - i,
    {
        indices[i * 3] = 0;
        indices[i * 3 + 1] = (i + 1) as u16;
        indices[i * 3 + 2] = (i + 2) as u16;
        i = i + 1;
    }
    indices
}

/// A table of textures; a texture's index is its position in the table.
pub struct TextureManager<V> {
    texture_views: Vec<V>,
}

impl<V> TextureManager<V> {
    pub closed spec fn textures(&self) -> Seq<V> {
        self.texture_views@
    }

    pub fn new() -> (t: Self)
        ensures
            t.textures().len() == 0,
    {
        TextureManager { texture_views: Vec::new() }
    }

    /// Appends a texture and returns its index.
    pub fn add(&mut self, texture: V) -> (index: u32)
        ensures
            final(self).textures() == old(self).textures().push(texture),
            index == old(self).textures().len() as u32,
    {
        let index = self.texture_views.len() as u32;
        self.texture_views.push(texture);
        index
    }

    pub fn count(&self) -> (n: u32)
        ensures
            n == self.textures().len() as u32,
    {
        self.texture_views.len() as u32
    }

    /// The textures, in index order.
    pub fn into_textures(self) -> (v: Vec<V>)
        ensures
            v@ == self.textures(),
    {
        self.texture_views
    }
}

} // verus!
