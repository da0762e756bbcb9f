//! The OpenGL ES 1.1 fixed-function state that the ES 2.0 backend keeps
//! itself, because the ES 2.0 driver has none: texture units, client
//! arrays, matrix stacks and the fixed-function program's uniform locations.
//!
//! The matrices and the float attributes are the backend's business: the
//! state is generic over the matrix type `M` and over `A`, what the
//! backend keeps beside (current color, normal and converted arrays).

use vstd::prelude::*;
use crate::gles::gl::{
    COLOR_ARRAY, FLOAT, MODELVIEW, MODULATE, NORMAL_ARRAY, PROJECTION, TEXTURE, TEXTURE0, TEXTURE_2D,
    TEXTURE_COORD_ARRAY, VERTEX_ARRAY,
};

verus! {

/// How many texture units the state tracks.
pub const TEXTURE_UNITS: usize = 4;

/// How an ES 1.1 client-side vertex array is set up.
#[derive(Debug, Clone, Copy)]
pub struct FixedArrayState {
    pub size: i32,
    pub type_: u32,
    pub stride: i32,
    /// The array's address; 0 for none.
    pub pointer: usize,
    pub buffer_binding: u32,
    pub enabled: bool,
}

/// A disabled float array of `size` components at no address.
pub open spec fn default_array(size: i32) -> FixedArrayState {
    FixedArrayState { size, type_: FLOAT, stride: 0, pointer: 0, buffer_binding: 0, enabled: false }
}

impl FixedArrayState {
    pub fn with_size(size: i32) -> (a: Self)
        ensures
            a == default_array(size),
    {
        FixedArrayState { size, type_: FLOAT, stride: 0, pointer: 0, buffer_binding: 0, enabled: false }
    }
}

/// A matrix stack. It is never empty: the current matrix is held apart
/// from the ones pushed below it.
#[derive(Debug)]
pub struct MatrixStack<M> {
    below: Vec<M>,
    top: M,
}

impl<M> MatrixStack<M> {
    /// The matrices from the bottom up; the last is the current one.
    pub closed spec fn view(&self) -> Seq<M> {
        self.below@.push(self.top)
    }
}

impl<M: Copy> MatrixStack<M> {
    /// A stack holding just `m`.
    pub fn new(m: M) -> (s: Self)
        ensures
            s@ == seq![m],
    {
        let s = MatrixStack { below: Vec::new(), top: m };
        assert(s@ =~= seq![m]);
        s
    }

    pub fn depth(&self) -> (n: usize)
        requires
            self@.len() <= usize::MAX,
        ensures
            n == self@.len(),
    {
        self.below.len() + 1
    }

    /// The current matrix.
    pub fn top(&self) -> (m: M)
        ensures
            self@.len() >= 1,
            m == self@.last(),
    {
        self.top
    }

    /// The matrix at the bottom of the stack.
    pub fn bottom(&self) -> (m: M)
        ensures
            self@.len() >= 1,
            m == self@[0],
    {
        if self.below.len() > 0 {
            self.below[0]
        } else {
            self.top
        }
    }

    /// Replaces the current matrix.
    pub fn set_top(&mut self, m: M)
        ensures
            old(self)@.len() >= 1,
            final(self)@ == old(self)@.update(old(self)@.len() - 1, m),
    {
        self.top = m;
        assert(self@ =~= old(self)@.update(old(self)@.len() - 1, m));
    }

    /// The current matrix, to change in place.
    pub fn top_mut(&mut self) -> (m: &mut M)
        ensures
            old(self)@.len() >= 1,
            *m == old(self)@.last(),
            final(self)@ == old(self)@.update(old(self)@.len() - 1, *final(m)),
    {
        &mut self.top
    }

    /// Pushes a copy of the current matrix.
    pub fn push(&mut self)
        ensures
            old(self)@.len() >= 1,
            final(self)@ == old(self)@.push(old(self)@.last()),
    {
        let top = self.top;
        self.below.push(top);
        assert(self@ =~= old(self)@.push(old(self)@.last()));
    }

    /// Pops the current matrix, unless it is the only one.
    pub fn pop(&mut self)
        ensures
            old(self)@.len() >= 1,
            final(self)@ == if old(self)@.len() > 1 { old(self)@.drop_last() } else { old(self)@ },
    {
        if let Some(m) = self.below.pop() {
            self.top = m;
            assert(self@ =~= old(self)@.drop_last());
        }
    }
}

/// The texture unit that `texture` (a `TEXTURE0 + n` enumerant) names, 0
/// for anything below `TEXTURE0`.
pub open spec fn unit_of(texture: u32) -> int {
    if texture > TEXTURE0 {
        texture - TEXTURE0
    } else {
        0
    }
}

pub fn unit_index(texture: u32) -> (u: usize)
    ensures
        u == unit_of(texture),
{
    texture.saturating_sub(TEXTURE0) as usize
}

/// Which matrix stack a matrix mode and active texture select: 0 for the
/// model-view stack, 1 for the projection stack, 2 + n for the stack of
/// texture unit n.
pub open spec fn selected_stack(matrix_mode: u32, active_texture: u32) -> int {
    if matrix_mode == PROJECTION {
        1
    } else if matrix_mode == TEXTURE {
        2 + (active_texture - TEXTURE0)
    } else {
        0
    }
}

/// The matrix stack selection is defined: in texture mode, the active
/// texture is one of the tracked units.
pub open spec fn selection_valid(matrix_mode: u32, active_texture: u32) -> bool {
    matrix_mode == TEXTURE ==> TEXTURE0 <= active_texture < TEXTURE0 + TEXTURE_UNITS
}

/// The fixed-function state.
#[derive(Debug)]
pub struct GLES2FixedState<M, A> {
    pub active_texture: u32,
    pub client_active_texture: u32,
    pub array_buffer: u32,
    pub element_array_buffer: u32,
    pub bound_textures: [u32; 4],
    pub texture_enabled: [bool; 4],
    pub texture_env_mode: [u32; 4],
    pub matrix_mode: u32,
    pub modelview: MatrixStack<M>,
    pub projection: MatrixStack<M>,
    pub texture0: MatrixStack<M>,
    pub texture1: MatrixStack<M>,
    pub texture2: MatrixStack<M>,
    pub texture3: MatrixStack<M>,
    pub vertex: FixedArrayState,
    pub color: FixedArrayState,
    pub normal: FixedArrayState,
    pub texcoord: [FixedArrayState; 4],
    pub fixed_pipeline_active: bool,
    pub program: u32,
    pub mvp_location: i32,
    pub color_location: i32,
    pub texture_enabled_location: [i32; 2],
    pub texture_mode_location: [i32; 2],
    pub sampler_location: [i32; 2],
    pub texture_matrix_location: [i32; 2],
    /// What the backend keeps beside: current color and normal, converted
    /// arrays.
    pub attributes: A,
}

/// What enabling or disabling `cap` changes, if the state tracks it.
pub enum CapTarget {
    Texture2D(int),
    Vertex,
    Color,
    Normal,
    TexCoord(int),
}

impl<M: Copy, A> GLES2FixedState<M, A> {
    /// Whether this is the state of a new context: unit 0 active, nothing
    /// bound or enabled, modulate everywhere, model-view mode, each stack
    /// holding `identity`, no fixed-function program.
    pub open spec fn is_initial(&self, identity: M, attributes: A) -> bool {
        &&& self.active_texture == TEXTURE0
        &&& self.client_active_texture == TEXTURE0
        &&& self.array_buffer == 0
        &&& self.element_array_buffer == 0
        &&& self.bound_textures@ == seq![0u32, 0, 0, 0]
        &&& self.texture_enabled@ == seq![false, false, false, false]
        &&& self.texture_env_mode@ == seq![MODULATE, MODULATE, MODULATE, MODULATE]
        &&& self.matrix_mode == MODELVIEW
        &&& self.modelview@ == seq![identity]
        &&& self.projection@ == seq![identity]
        &&& self.texture0@ == seq![identity]
        &&& self.texture1@ == seq![identity]
        &&& self.texture2@ == seq![identity]
        &&& self.texture3@ == seq![identity]
        &&& self.vertex == default_array(4)
        &&& self.color == default_array(4)
        &&& self.normal == default_array(3)
        &&& self.texcoord@ == seq![default_array(2), default_array(2), default_array(2), default_array(2)]
        &&& !self.fixed_pipeline_active
        &&& self.program == 0
        &&& self.mvp_location == -1
        &&& self.color_location == -1
        &&& self.texture_enabled_location@ == seq![-1i32, -1i32]
        &&& self.texture_mode_location@ == seq![-1i32, -1i32]
        &&& self.sampler_location@ == seq![-1i32, -1i32]
        &&& self.texture_matrix_location@ == seq![-1i32, -1i32]
        &&& self.attributes == attributes
    }

    /// The state of a new context (see [`GLES2FixedState::is_initial`]).
    pub fn new(identity: M, attributes: A) -> (s: Self)
        ensures
            s.is_initial(identity, attributes),
    {
        let s = GLES2FixedState {
            active_texture: TEXTURE0,
            client_active_texture: TEXTURE0,
            array_buffer: 0,
            element_array_buffer: 0,
            bound_textures: [0; 4],
            texture_enabled: [false; 4],
            texture_env_mode: [MODULATE; 4],
            matrix_mode: MODELVIEW,
            modelview: MatrixStack::new(identity),
            projection: MatrixStack::new(identity),
            texture0: MatrixStack::new(identity),
            texture1: MatrixStack::new(identity),
            texture2: MatrixStack::new(identity),
            texture3: MatrixStack::new(identity),
            vertex: FixedArrayState::with_size(4),
            color: FixedArrayState::with_size(4),
            normal: FixedArrayState::with_size(3),
            texcoord: [
                FixedArrayState::with_size(2),
                FixedArrayState::with_size(2),
                FixedArrayState::with_size(2),
                FixedArrayState::with_size(2),
            ],
            fixed_pipeline_active: false,
            program: 0,
            mvp_location: -1,
            color_location: -1,
            texture_enabled_location: [-1; 2],
            texture_mode_location: [-1; 2],
            sampler_location: [-1; 2],
            texture_matrix_location: [-1; 2],
            attributes,
        };
        assert(s.bound_textures@ =~= seq![0u32, 0, 0, 0]);
        assert(s.texture_enabled@ =~= seq![false, false, false, false]);
        assert(s.texture_env_mode@ =~= seq![MODULATE, MODULATE, MODULATE, MODULATE]);
        assert(s.texcoord@ =~= seq![default_array(2), default_array(2), default_array(2), default_array(2)]);
        assert(s.texture_enabled_location@ =~= seq![-1i32, -1i32]);
        assert(s.texture_mode_location@ =~= seq![-1i32, -1i32]);
        assert(s.sampler_location@ =~= seq![-1i32, -1i32]);
        assert(s.texture_matrix_location@ =~= seq![-1i32, -1i32]);
        s
    }

    /// What `cap` refers to in this state, if it is tracked here: the
    /// texture enable of the active unit, a client array, or the texture
    /// coordinate array of the client-active unit.
    pub open spec fn cap_target(&self, cap: u32) -> Option<CapTarget> {
        let unit = unit_of(self.active_texture);
        let client_unit = unit_of(self.client_active_texture);
        if cap == TEXTURE_2D && unit < TEXTURE_UNITS {
            Some(CapTarget::Texture2D(unit))
        } else if cap == VERTEX_ARRAY {
            Some(CapTarget::Vertex)
        } else if cap == COLOR_ARRAY {
            Some(CapTarget::Color)
        } else if cap == NORMAL_ARRAY {
            Some(CapTarget::Normal)
        } else if cap == TEXTURE_COORD_ARRAY && client_unit < TEXTURE_UNITS {
            Some(CapTarget::TexCoord(client_unit))
        } else {
            None
        }
    }

    /// Whether `cap` is enabled, where it is tracked here.
    pub open spec fn cap_enabled(&self, cap: u32) -> Option<bool> {
        match self.cap_target(cap) {
            Some(CapTarget::Texture2D(u)) => Some(self.texture_enabled[u]),
            Some(CapTarget::Vertex) => Some(self.vertex.enabled),
            Some(CapTarget::Color) => Some(self.color.enabled),
            Some(CapTarget::Normal) => Some(self.normal.enabled),
            Some(CapTarget::TexCoord(u)) => Some(self.texcoord[u].enabled),
            None => None,
        }
    }

    /// Whether `a` and `b` agree on everything but the enables.
    pub open spec fn same_but_enables(a: &Self, b: &Self) -> bool {
        &&& a.active_texture == b.active_texture
        &&& a.client_active_texture == b.client_active_texture
        &&& a.array_buffer == b.array_buffer
        &&& a.element_array_buffer == b.element_array_buffer
        &&& a.bound_textures == b.bound_textures
        &&& a.texture_env_mode == b.texture_env_mode
        &&& a.matrix_mode == b.matrix_mode
        &&& a.modelview == b.modelview
        &&& a.projection == b.projection
        &&& a.texture0 == b.texture0
        &&& a.texture1 == b.texture1
        &&& a.texture2 == b.texture2
        &&& a.texture3 == b.texture3
        &&& a.fixed_pipeline_active == b.fixed_pipeline_active
        &&& a.program == b.program
        &&& a.mvp_location == b.mvp_location
        &&& a.color_location == b.color_location
        &&& a.texture_enabled_location == b.texture_enabled_location
        &&& a.texture_mode_location == b.texture_mode_location
        &&& a.sampler_location == b.sampler_location
        &&& a.texture_matrix_location == b.texture_matrix_location
        &&& a.attributes == b.attributes
        &&& a.vertex.size == b.vertex.size && a.vertex.type_ == b.vertex.type_ && a.vertex.stride == b.vertex.stride
        &&& a.vertex.pointer == b.vertex.pointer && a.vertex.buffer_binding == b.vertex.buffer_binding
        &&& a.color.size == b.color.size && a.color.type_ == b.color.type_ && a.color.stride == b.color.stride
        &&& a.color.pointer == b.color.pointer && a.color.buffer_binding == b.color.buffer_binding
        &&& a.normal.size == b.normal.size && a.normal.type_ == b.normal.type_ && a.normal.stride == b.normal.stride
        &&& a.normal.pointer == b.normal.pointer && a.normal.buffer_binding == b.normal.buffer_binding
        &&& forall|i: int|
            0 <= i < 4 ==> {
                &&& (#[trigger] a.texcoord[i]).size == b.texcoord[i].size
                &&& a.texcoord[i].type_ == b.texcoord[i].type_
                &&& a.texcoord[i].stride == b.texcoord[i].stride
                &&& a.texcoord[i].pointer == b.texcoord[i].pointer
                &&& a.texcoord[i].buffer_binding == b.texcoord[i].buffer_binding
            }
    }

    /// What setting the enable of `cap` to `enabled` does, `handled` saying
    /// whether the state tracks `cap`: it is set, and nothing else changes.
    pub open spec fn enable_post(before: &Self, after: &Self, cap: u32, enabled: bool, handled: bool) -> bool {
        &&& handled == before.cap_target(cap) is Some
        &&& !handled ==> *after == *before
        &&& Self::same_but_enables(after, before)
        &&& handled ==> after.cap_enabled(cap) == Some(enabled)
        &&& forall|other: u32|
            #![trigger after.cap_target(other)]
            after.cap_target(other) is Some && !(handled && before.cap_target(other) == before.cap_target(cap))
                ==> after.cap_enabled(other) == before.cap_enabled(other)
        &&& forall|u: int|
            0 <= u < 4 && !(handled && before.cap_target(cap) == Some(CapTarget::Texture2D(u)))
                ==> after.texture_enabled[u] == before.texture_enabled[u]
        &&& forall|u: int|
            0 <= u < 4 && !(handled && before.cap_target(cap) == Some(CapTarget::TexCoord(u)))
                ==> after.texcoord[u].enabled == before.texcoord[u].enabled
    }

    /// Whether `after` has the texture coordinate array of `unit` set to
    /// `enabled`, and those of the other units as in `before`.
    pub open spec fn sets_texcoord_enable(before: &Self, after: &Self, unit: int, enabled: bool) -> bool {
        forall|u: int|
            0 <= u < 4 ==> (#[trigger] after.texcoord[u]).enabled == if u == unit {
                enabled
            } else {
                before.texcoord[u].enabled
            }
    }

    /// Sets the enable of `cap` where the state tracks it; says whether it
    /// does. Every other enable stays as it was.
    pub fn enable(&mut self, cap: u32, enabled: bool) -> (handled: bool)
        ensures
            Self::enable_post(old(self), final(self), cap, enabled, handled),
            cap == TEXTURE_COORD_ARRAY && unit_of(old(self).client_active_texture) < 4 ==> handled
                && Self::sets_texcoord_enable(old(self), final(self), unit_of(old(self).client_active_texture), enabled),
    {
        let unit = unit_index(self.active_texture);
        let client_unit = unit_index(self.client_active_texture);
        if cap == TEXTURE_2D && unit < TEXTURE_UNITS {
            self.texture_enabled[unit] = enabled;
        } else if cap == VERTEX_ARRAY {
            self.vertex.enabled = enabled;
        } else if cap == COLOR_ARRAY {
            self.color.enabled = enabled;
        } else if cap == NORMAL_ARRAY {
            self.normal.enabled = enabled;
        } else if cap == TEXTURE_COORD_ARRAY && client_unit < TEXTURE_UNITS {
            self.texcoord[client_unit].enabled = enabled;
        } else {
            return false;
        }
        true
    }

    /// Enabling or disabling `GL_TEXTURE_COORD_ARRAY` sets the array of the
    /// client-active texture unit and no other, whichever unit is active for
    /// `glActiveTexture`; with the client-active unit out of range it is not
    /// handled and nothing changes.
    pub proof fn law_texcoord_enable_follows_client_unit(before: &Self, after: &Self, enabled: bool, handled: bool)
        requires
            Self::enable_post(before, after, TEXTURE_COORD_ARRAY, enabled, handled),
        ensures
            unit_of(before.client_active_texture) < 4 ==> handled && Self::sets_texcoord_enable(
                before,
                after,
                unit_of(before.client_active_texture),
                enabled,
            ) && after.texture_enabled == before.texture_enabled,
            unit_of(before.client_active_texture) >= 4 ==> !handled && *after == *before,
    {
        let cu = unit_of(before.client_active_texture);
        if cu < 4 {
            assert(after.cap_target(TEXTURE_COORD_ARRAY) == Some(CapTarget::TexCoord(cu)));
            assert forall|u: int| 0 <= u < 4 implies (#[trigger] after.texcoord[u]).enabled == if u == cu {
                enabled
            } else {
                before.texcoord[u].enabled
            } by {}
            assert(after.texture_enabled@ =~= before.texture_enabled@);
        }
    }

    /// Whether `cap` is enabled, where the state tracks it.
    pub fn is_enabled(&self, cap: u32) -> (r: Option<bool>)
        ensures
            r == self.cap_enabled(cap),
    {
        let unit = unit_index(self.active_texture);
        let client_unit = unit_index(self.client_active_texture);
        if cap == TEXTURE_2D && unit < TEXTURE_UNITS {
            Some(self.texture_enabled[unit])
        } else if cap == VERTEX_ARRAY {
            Some(self.vertex.enabled)
        } else if cap == COLOR_ARRAY {
            Some(self.color.enabled)
        } else if cap == NORMAL_ARRAY {
            Some(self.normal.enabled)
        } else if cap == TEXTURE_COORD_ARRAY && client_unit < TEXTURE_UNITS {
            Some(self.texcoord[client_unit].enabled)
        } else {
            None
        }
    }

    /// The matrix stack `k` (see [`selected_stack`]).
    pub open spec fn stack(&self, k: int) -> Seq<M> {
        if k == 1 {
            self.projection@
        } else if k == 2 {
            self.texture0@
        } else if k == 3 {
            self.texture1@
        } else if k == 4 {
            self.texture2@
        } else if k == 5 {
            self.texture3@
        } else {
            self.modelview@
        }
    }

    /// The stack the matrix mode selects.
    pub open spec fn current_stack(&self) -> Seq<M> {
        self.stack(selected_stack(self.matrix_mode, self.active_texture))
    }

    /// Whether `a` and `b` agree on everything but matrix stack `k`.
    pub open spec fn same_but_stack(a: &Self, b: &Self, k: int) -> bool {
        &&& a.active_texture == b.active_texture
        &&& a.client_active_texture == b.client_active_texture
        &&& a.array_buffer == b.array_buffer
        &&& a.element_array_buffer == b.element_array_buffer
        &&& a.bound_textures == b.bound_textures
        &&& a.texture_enabled == b.texture_enabled
        &&& a.texture_env_mode == b.texture_env_mode
        &&& a.matrix_mode == b.matrix_mode
        &&& a.vertex == b.vertex
        &&& a.color == b.color
        &&& a.normal == b.normal
        &&& a.texcoord == b.texcoord
        &&& a.fixed_pipeline_active == b.fixed_pipeline_active
        &&& a.program == b.program
        &&& a.mvp_location == b.mvp_location
        &&& a.color_location == b.color_location
        &&& a.texture_enabled_location == b.texture_enabled_location
        &&& a.texture_mode_location == b.texture_mode_location
        &&& a.sampler_location == b.sampler_location
        &&& a.texture_matrix_location == b.texture_matrix_location
        &&& a.attributes == b.attributes
        &&& forall|j: int| 0 <= j < 6 && j != k ==> #[trigger] a.stack(j) == b.stack(j)
    }

    /// The current matrix of the selected stack.
    pub fn current_matrix(&self) -> (m: M)
        requires
            selection_valid(self.matrix_mode, self.active_texture),
        ensures
            self.current_stack().len() >= 1,
            m == self.current_stack().last(),
    {
        if self.matrix_mode == PROJECTION {
            self.projection.top()
        } else if self.matrix_mode == TEXTURE {
            let unit = self.active_texture - TEXTURE0;
            if unit == 0 {
                self.texture0.top()
            } else if unit == 1 {
                self.texture1.top()
            } else if unit == 2 {
                self.texture2.top()
            } else {
                self.texture3.top()
            }
        } else {
            self.modelview.top()
        }
    }

    /// The current matrix of the selected stack, to change in place.
    pub fn current_matrix_mut(&mut self) -> (m: &mut M)
        requires
            selection_valid(old(self).matrix_mode, old(self).active_texture),
        ensures
            old(self).current_stack().len() >= 1,
            *m == old(self).current_stack().last(),
            final(self).current_stack() == old(self).current_stack().update(old(self).current_stack().len() - 1, *final(m)),
            Self::same_but_stack(final(self), old(self), selected_stack(old(self).matrix_mode, old(self).active_texture)),
    {
        if self.matrix_mode == PROJECTION {
            self.projection.top_mut()
        } else if self.matrix_mode == TEXTURE {
            let unit = self.active_texture - TEXTURE0;
            if unit == 0 {
                self.texture0.top_mut()
            } else if unit == 1 {
                self.texture1.top_mut()
            } else if unit == 2 {
                self.texture2.top_mut()
            } else {
                self.texture3.top_mut()
            }
        } else {
            self.modelview.top_mut()
        }
    }

    /// Pushes a copy of the current matrix on the selected stack.
    pub fn push_matrix(&mut self)
        requires
            selection_valid(old(self).matrix_mode, old(self).active_texture),
        ensures
            old(self).current_stack().len() >= 1,
            final(self).current_stack() == old(self).current_stack().push(old(self).current_stack().last()),
            Self::same_but_stack(final(self), old(self), selected_stack(old(self).matrix_mode, old(self).active_texture)),
    {
        if self.matrix_mode == PROJECTION {
            self.projection.push();
        } else if self.matrix_mode == TEXTURE {
            let unit = self.active_texture - TEXTURE0;
            if unit == 0 {
                self.texture0.push();
            } else if unit == 1 {
                self.texture1.push();
            } else if unit == 2 {
                self.texture2.push();
            } else {
                self.texture3.push();
            }
        } else {
            self.modelview.push();
        }
    }

    /// Pops the selected stack, unless only one matrix is left on it.
    pub fn pop_matrix(&mut self)
        requires
            selection_valid(old(self).matrix_mode, old(self).active_texture),
        ensures
            old(self).current_stack().len() >= 1,
            final(self).current_stack() == if old(self).current_stack().len() > 1 {
                old(self).current_stack().drop_last()
            } else {
                old(self).current_stack()
            },
            Self::same_but_stack(final(self), old(self), selected_stack(old(self).matrix_mode, old(self).active_texture)),
    {
        if self.matrix_mode == PROJECTION {
            self.projection.pop();
        } else if self.matrix_mode == TEXTURE {
            let unit = self.active_texture - TEXTURE0;
            if unit == 0 {
                self.texture0.pop();
            } else if unit == 1 {
                self.texture1.pop();
            } else if unit == 2 {
                self.texture2.pop();
            } else {
                self.texture3.pop();
            }
        } else {
            self.modelview.pop();
        }
    }
}

} // verus!
