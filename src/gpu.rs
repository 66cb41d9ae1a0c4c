use vstd::prelude::*;

verus! {

/// The per-frame values that the shader-based renderer hands to its shaders.
#[derive(Clone, Copy, Debug, PartialEq, Eq, Structural)]
pub struct Uniforms {
    pub vp_width: u32,
    pub vp_height: u32,
    /// Frames accumulated since the view last changed.
    pub frame_count: u32,
}

impl Uniforms {
    /// The uniforms of a fresh viewport of `vp_width` by `vp_height` pixels.
    pub fn from_init_configs(vp_width: u32, vp_height: u32) -> (r: Uniforms)
        ensures
            r == (Uniforms { vp_width, vp_height, frame_count: 0 }),
    {
        Uniforms { vp_width, vp_height, frame_count: 0 }
    }

    /// Counts one more frame (wrapping at the top of `u32`).
    pub fn next_frame(&mut self)
        ensures
            final(self).vp_width == old(self).vp_width,
            final(self).vp_height == old(self).vp_height,
            final(self).frame_count == (old(self).frame_count + 1) % 0x1_0000_0000,
    {
        self.frame_count = self.frame_count.wrapping_add(1);
    }

    /// Drops the accumulated frames, as after a move of the camera.
    pub fn restart(&mut self)
        ensures
            final(self).vp_width == old(self).vp_width,
            final(self).vp_height == old(self).vp_height,
            final(self).frame_count == 0,
    {
        self.frame_count = 0;
    }

    /// Which of the two radiance buffers this frame reads from.
    pub fn radiance_slot(&self) -> (r: usize)
        ensures
            r == self.frame_count % 2,
    {
        (self.frame_count % 2) as usize
    }
}

/// A step of the camera along one of its basis vectors.
#[derive(Clone, Copy, Debug, PartialEq, Eq, Structural)]
pub enum CameraMove {
    Forward,
    Backward,
    Left,
    Right,
    Up,
    Down,
}

/// The keyboard scancodes that move the camera: W, S, A, D, space and shift.
pub open spec fn move_of(scancode: u32) -> Option<CameraMove> {
    if scancode == 17 {
        Some(CameraMove::Forward)
    } else if scancode == 31 {
        Some(CameraMove::Backward)
    } else if scancode == 30 {
        Some(CameraMove::Left)
    } else if scancode == 32 {
        Some(CameraMove::Right)
    } else if scancode == 57 {
        Some(CameraMove::Up)
    } else if scancode == 42 {
        Some(CameraMove::Down)
    } else {
        None
    }
}

impl CameraMove {
    /// The move bound to a key, if any.
    pub fn from_scancode(scancode: u32) -> (r: Option<CameraMove>)
        ensures
            r == move_of(scancode),
    {
        if scancode == 17 {
            Some(CameraMove::Forward)
        } else if scancode == 31 {
            Some(CameraMove::Backward)
        } else if scancode == 30 {
            Some(CameraMove::Left)
        } else if scancode == 32 {
            Some(CameraMove::Right)
        } else if scancode == 57 {
            Some(CameraMove::Up)
        } else if scancode == 42 {
            Some(CameraMove::Down)
        } else {
            None
        }
    }
}

/// Handles a key press: the camera move it asks for, if any, and the
/// uniforms restarted when the view changes. Other keys leave them as they
/// are.
pub fn move_camera(uniforms: &mut Uniforms, scancode: u32) -> (r: Option<CameraMove>)
    ensures
        r == move_of(scancode),
        final(uniforms).vp_width == old(uniforms).vp_width,
        final(uniforms).vp_height == old(uniforms).vp_height,
        final(uniforms).frame_count == if r is Some {
            0
        } else {
            old(uniforms).frame_count
        },
{
    let r = CameraMove::from_scancode(scancode);
    if r.is_some() {
        uniforms.restart();
    }
    r
}

/// The two families of materials, which the shaders keep in separate tables.
#[derive(Clone, Copy, Debug, PartialEq, Eq, Structural)]
pub enum MaterialClass {
    /// Lambertian, metal and dielectric materials.
    Scatter,
    /// Light sources.
    Emit,
}

/// A row of the shaders' material table: the family tag (0 for scattering,
/// 1 for emitting) and the row of the material within its family's table.
#[derive(Clone, Copy, Debug, PartialEq, Eq, Structural)]
pub struct MaterialSlot {
    pub t: u32,
    pub scatter_idx: u32,
    pub emit_idx: u32,
}

pub open spec fn class_tag(c: MaterialClass) -> u32 {
    match c {
        MaterialClass::Scatter => 0,
        MaterialClass::Emit => 1,
    }
}

/// How many entries of `s` belong to family `c`.
pub open spec fn count_class(s: Seq<MaterialClass>, c: MaterialClass) -> nat
    decreases s.len(),
{
    if s.len() == 0 {
        0
    } else {
        count_class(s.drop_last(), c) + if s.last() == c {
            1nat
        } else {
            0nat
        }
    }
}

/// The table row of material `k`: the family's tag, and the count of
/// earlier materials of the same family (the shaders read that count as the
/// row in the family's table, whichever the family).
pub open spec fn slot_of(s: Seq<MaterialClass>, k: int) -> MaterialSlot {
    MaterialSlot {
        t: class_tag(s[k]),
        scatter_idx: count_class(s.subrange(0, k), s[k]) as u32,
        emit_idx: 0,
    }
}

proof fn lemma_count_class_bound(s: Seq<MaterialClass>, c: MaterialClass)
    ensures
        count_class(s, c) <= s.len(),
    decreases s.len(),
{
    if s.len() > 0 {
        lemma_count_class_bound(s.drop_last(), c);
    }
}

/// The materials of a scene for the shader-based renderer, in the order they
/// were added; objects refer to a material by its position here.
#[derive(Debug)]
pub struct Scene {
    pub materials: Vec<MaterialClass>,
}

impl Scene {
    pub fn new() -> (r: Scene)
        ensures
            r.materials@ == Seq::<MaterialClass>::empty(),
    {
        Scene { materials: Vec::new() }
    }

    /// Adds a material and returns the index by which objects refer to it.
    pub fn add_material(&mut self, material: MaterialClass) -> (r: u32)
        requires
            old(self).materials@.len() < 0xffff_ffff,
        ensures
            final(self).materials@ == old(self).materials@.push(material),
            r == old(self).materials@.len(),
    {
        self.materials.push(material);
        (self.materials.len() - 1) as u32
    }

    /// The material table that the shaders read: one row per material, in
    /// order.
    pub fn material_slots(&self) -> (r: Vec<MaterialSlot>)
        requires
            self.materials@.len() <= 0xffff_ffff,
        ensures
            r@.len() == self.materials@.len(),
            forall|k: int| 0 <= k < r@.len() ==> r@[k] == slot_of(self.materials@, k),
    {
        let s = &self.materials;
        let n = s.len();
        let mut r: Vec<MaterialSlot> = Vec::new();
        let mut scatter: u32 = 0;
        let mut emit: u32 = 0;
        let mut k: usize = 0;
        while k < n
            invariant
                n == s@.len(),
                n <= 0xffff_ffff,
                k <= n,
                r@.len() == k,
                scatter == count_class(s@.subrange(0, k as int), MaterialClass::Scatter),
                emit == count_class(s@.subrange(0, k as int), MaterialClass::Emit),
                forall|j: int| 0 <= j < k ==> r@[j] == slot_of(s@, j),
            decreases n - k,
        {
            proof {
                assert(s@.subrange(0, k + 1).drop_last() =~= s@.subrange(0, k as int));
                lemma_count_class_bound(s@.subrange(0, k as int), MaterialClass::Scatter);
                lemma_count_class_bound(s@.subrange(0, k as int), MaterialClass::Emit);
            }
            match s[k] {
                MaterialClass::Scatter => {
                    r.push(MaterialSlot { t: 0, scatter_idx: scatter, emit_idx: 0 });
                    scatter = scatter + 1;
                },
                MaterialClass::Emit => {
                    r.push(MaterialSlot { t: 1, scatter_idx: emit, emit_idx: 0 });
                    emit = emit + 1;
                },
            }
            k = k + 1;
        }
        r
    }

    /// The first object whose material index names no material of the scene,
    /// if any; `material_idx` holds the material index of each object.
    pub fn first_dangling(&self, material_idx: &Vec<u32>) -> (r: Option<usize>)
        ensures
            r is None <==> forall|k: int|
                0 <= k < material_idx@.len() ==> material_idx@[k] < self.materials@.len(),
            r matches Some(k) ==> k < material_idx@.len() && material_idx@[k as int]
                >= self.materials@.len() && forall|j: int|
                0 <= j < k ==> material_idx@[j] < self.materials@.len(),
    {
        let n = self.materials.len();
        let mut k: usize = 0;
        while k < material_idx.len()
            invariant
                n == self.materials@.len(),
                k <= material_idx@.len(),
                forall|j: int| 0 <= j < k ==> material_idx@[j] < n,
            decreases material_idx@.len() - k,
        {
            if material_idx[k] as usize >= n {
                return Some(k);
            }
            k = k + 1;
        }
        None
    }
}

} // verus!
