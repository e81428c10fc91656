use vstd::prelude::*;

use crate::text::str_eq;

verus! {

broadcast use vstd::seq_lib::group_seq_properties;

/// How a transition between animation states eases its progress.
#[derive(PartialEq, Eq, Structural, Clone, Copy, Debug)]
pub enum InterpolationType {
    Linear,
    EaseIn,
    EaseOut,
    EaseInOut,
    Step,
}

/// The position of one vertex in an animation state, as the raw bit patterns
/// of its `f32` coordinates.
#[derive(Clone, Copy, Debug)]
pub struct VertexState {
    pub id: u32,
    pub x_bits: u32,
    pub y_bits: u32,
}

/// A named set of vertex positions.
#[derive(Clone, Debug)]
pub struct AnimationVertexState {
    pub state_name: String,
    pub vertices: Vec<VertexState>,
    pub interpolation: InterpolationType,
}

/// The ids of a sequence of vertex states.
pub open spec fn state_vertex_ids(vs: Seq<VertexState>) -> Seq<u32> {
    vs.map_values(|v: VertexState| v.id)
}

impl AnimationVertexState {
    /// Sets the position of the first vertex with this id, or adds the vertex.
    pub fn update_or_add(&mut self, vertex_id: u32, x_bits: u32, y_bits: u32)
        ensures
            final(self).state_name == old(self).state_name,
            final(self).interpolation == old(self).interpolation,
            ({
                let ids = state_vertex_ids(old(self).vertices@);
                let i = crate::map::first_id_index(ids, vertex_id);
                final(self).vertices@ == if i >= 0 {
                    old(self).vertices@.update(i, VertexState { id: vertex_id, x_bits, y_bits })
                } else {
                    old(self).vertices@.push(VertexState { id: vertex_id, x_bits, y_bits })
                }
            }),
    {
        let ghost ids = state_vertex_ids(self.vertices@);
        let mut i: usize = 0;
        while i < self.vertices.len()
            invariant
                i <= self.vertices.len(),
                self.vertices@ == old(self).vertices@,
                self.state_name == old(self).state_name,
                self.interpolation == old(self).interpolation,
                ids == state_vertex_ids(self.vertices@),
                forall|j: int| 0 <= j < i ==> ids[j] != vertex_id,
            decreases self.vertices.len() - i,
        {
            if self.vertices[i].id == vertex_id {
                proof {
                    crate::map::lemma_first_id_index(ids, vertex_id, i as int);
                    assert(crate::map::is_first_id(ids, vertex_id, i as int));
                }
                self.vertices[i].x_bits = x_bits;
                self.vertices[i].y_bits = y_bits;
                assert(self.vertices@ =~= old(self).vertices@.update(i as int, VertexState { id: vertex_id, x_bits, y_bits }));
                return;
            }
            i += 1;
        }
        self.vertices.push(VertexState { id: vertex_id, x_bits, y_bits });
    }
}

/// The names of a sequence of animation states.
pub open spec fn state_names(ss: Seq<AnimationVertexState>) -> Seq<Seq<char>> {
    ss.map_values(|s: AnimationVertexState| s.state_name@)
}

/// The first position of the state named `name`, or -1.
pub open spec fn first_state_named(ss: Seq<AnimationVertexState>, name: Seq<char>) -> int {
    if state_names(ss).contains(name) {
        choose|i: int|
            0 <= i < ss.len() && ss[i].state_name@ == name && forall|j: int|
                0 <= j < i ==> ss[j].state_name@ != name
    } else {
        -1
    }
}

/// The positions of the states named by `names`, skipping names with no state.
pub open spec fn loop_indices(ss: Seq<AnimationVertexState>, names: Seq<Seq<char>>) -> Seq<usize> {
    names.filter_map(
        |n: Seq<char>|
            if first_state_named(ss, n) >= 0 {
                Some(first_state_named(ss, n) as usize)
            } else {
                None
            },
    )
}

/// Animation of map vertices between named states. Times and durations are the
/// raw bit patterns of `f32` seconds; advancing them is done outside the verified core.
#[derive(Clone, Debug)]
pub struct VertexAnimationSystem {
    pub states: Vec<AnimationVertexState>,
    pub current_state: Option<usize>,
    pub next_state: Option<usize>,
    pub transition_duration_bits: u32,
    pub transition_progress_bits: u32,
    pub loop_states: Vec<usize>,
    pub loop_duration_bits: u32,
    pub loop_elapsed_time_bits: u32,
    pub current_loop_index: usize,
}

/// The bit pattern of the `f32` value 1.0.
pub const ONE_BITS: u32 = 0x3f80_0000u32;

impl VertexAnimationSystem {
    /// An animation system without states (loop duration 1.0 s, everything else zero).
    pub fn new() -> (r: Self)
        ensures
            r.states@.len() == 0,
            r.current_state is None,
            r.next_state is None,
            r.transition_duration_bits == 0,
            r.transition_progress_bits == 0,
            r.loop_states@.len() == 0,
            r.loop_duration_bits == ONE_BITS,
            r.loop_elapsed_time_bits == 0,
            r.current_loop_index == 0,
    {
        VertexAnimationSystem {
            states: Vec::new(),
            current_state: None,
            next_state: None,
            transition_duration_bits: 0,
            transition_progress_bits: 0,
            loop_states: Vec::new(),
            loop_duration_bits: ONE_BITS,
            loop_elapsed_time_bits: 0,
            current_loop_index: 0,
        }
    }

    /// The position of the first state with this name.
    fn state_position(&self, name: &str) -> (r: Option<usize>)
        ensures
            match r {
                Some(i) => i as int == first_state_named(self.states@, name@) && i < self.states@.len(),
                None => first_state_named(self.states@, name@) == -1,
            },
    {
        let mut i: usize = 0;
        while i < self.states.len()
            invariant
                i <= self.states.len(),
                forall|j: int| 0 <= j < i ==> self.states@[j].state_name@ != name@,
            decreases self.states.len() - i,
        {
            if str_eq(self.states[i].state_name.as_str(), name) {
                assert(state_names(self.states@)[i as int] == name@);
                return Some(i);
            }
            i += 1;
        }
        assert forall|j: int| 0 <= j < state_names(self.states@).len() implies state_names(self.states@)[j] != name@ by {}
        None
    }

    /// Adds a state and returns its position.
    pub fn add_state(&mut self, state_name: &str, vertices: Vec<VertexState>, interpolation: InterpolationType) -> (r: usize)
        requires
            old(self).states@.len() < usize::MAX,
        ensures
            final(self).states@.len() == old(self).states@.len() + 1,
            final(self).states@.drop_last() == old(self).states@,
            final(self).states@.last().state_name@ == state_name@,
            final(self).states@.last().vertices@ == vertices@,
            final(self).states@.last().interpolation == interpolation,
            r == old(self).states@.len(),
            final(self).current_state == old(self).current_state,
            final(self).next_state == old(self).next_state,
            final(self).loop_states == old(self).loop_states,
            final(self).current_loop_index == old(self).current_loop_index,
    {
        self.states.push(
            AnimationVertexState {
                state_name: crate::text::from_literal(state_name),
                vertices,
                interpolation,
            },
        );
        assert(self.states@.drop_last() =~= old(self).states@);
        self.states.len() - 1
    }

    /// Sets the position of a vertex in the first state with this name; does
    /// nothing when there is no such state.
    pub fn update_or_add_to_state(&mut self, state_name: &str, vertex_id: u32, x_bits: u32, y_bits: u32)
        ensures
            ({
                let i = first_state_named(old(self).states@, state_name@);
                if i >= 0 {
                    &&& final(self).states@.len() == old(self).states@.len()
                    &&& forall|j: int| 0 <= j < old(self).states@.len() && j != i ==> final(self).states@[j] == old(self).states@[j]
                    &&& final(self).states@[i].state_name == old(self).states@[i].state_name
                    &&& final(self).states@[i].interpolation == old(self).states@[i].interpolation
                    &&& final(self).states@[i].vertices@ == {
                        let vs = old(self).states@[i].vertices@;
                        let k = crate::map::first_id_index(state_vertex_ids(vs), vertex_id);
                        if k >= 0 {
                            vs.update(k, VertexState { id: vertex_id, x_bits, y_bits })
                        } else {
                            vs.push(VertexState { id: vertex_id, x_bits, y_bits })
                        }
                    }
                } else {
                    final(self).states == old(self).states
                }
            }),
            final(self).current_state == old(self).current_state,
            final(self).next_state == old(self).next_state,
            final(self).loop_states == old(self).loop_states,
    {
        match self.state_position(state_name) {
            Some(i) => {
                self.states[i].update_or_add(vertex_id, x_bits, y_bits);
            },
            None => {},
        }
    }

    /// Loops through the named states (names without a state are skipped),
    /// starting over: the loop position and elapsed time go to zero and the
    /// current state becomes the first looped state, if any.
    pub fn set_loop(&mut self, state_names: &[&str], duration_bits: u32)
        ensures
            final(self).loop_states@ == loop_indices(old(self).states@, state_names@.map_values(|n: &str| n@)),
            final(self).loop_duration_bits == duration_bits,
            final(self).loop_elapsed_time_bits == 0,
            final(self).current_loop_index == 0,
            final(self).current_state == if final(self).loop_states@.len() > 0 {
                Some(final(self).loop_states@[0])
            } else {
                old(self).current_state
            },
            final(self).states == old(self).states,
            final(self).next_state == old(self).next_state,
    {
        let ghost names = state_names@.map_values(|n: &str| n@);
        let ghost f = |n: Seq<char>|
            if first_state_named(self.states@, n) >= 0 {
                Some(first_state_named(self.states@, n) as usize)
            } else {
                None
            };
        let mut out: Vec<usize> = Vec::new();
        let mut k: usize = 0;
        while k < state_names.len()
            invariant
                k <= state_names@.len(),
                names == state_names@.map_values(|n: &str| n@),
                self.states == old(self).states,
                f == (|n: Seq<char>|
                    if first_state_named(self.states@, n) >= 0 {
                        Some(first_state_named(self.states@, n) as usize)
                    } else {
                        None
                    }),
                out@ == names.take(k as int).filter_map(f),
            decreases state_names@.len() - k,
        {
            proof {
                names.lemma_filter_map_take_succ(f, k as int);
            }
            match self.state_position(state_names[k]) {
                Some(i) => out.push(i),
                None => {},
            }
            k += 1;
        }
        assert(names.take(names.len() as int) == names);
        self.loop_states = out;
        self.loop_duration_bits = duration_bits;
        self.loop_elapsed_time_bits = 0;
        self.current_loop_index = 0;
        if self.loop_states.len() > 0 {
            self.current_state = Some(self.loop_states[0]);
        }
    }

    /// Starts a transition to the first state with this name (progress back to
    /// zero); does nothing when there is no such state.
    pub fn transition_to_state(&mut self, state_name: &str, duration_bits: u32)
        ensures
            ({
                let i = first_state_named(old(self).states@, state_name@);
                if i >= 0 {
                    &&& final(self).next_state == Some(i as usize)
                    &&& final(self).transition_duration_bits == duration_bits
                    &&& final(self).transition_progress_bits == 0
                } else {
                    &&& final(self).next_state == old(self).next_state
                    &&& final(self).transition_duration_bits == old(self).transition_duration_bits
                    &&& final(self).transition_progress_bits == old(self).transition_progress_bits
                }
            }),
            final(self).states == old(self).states,
            final(self).current_state == old(self).current_state,
            final(self).loop_states == old(self).loop_states,
    {
        match self.state_position(state_name) {
            Some(i) => {
                self.next_state = Some(i);
                self.transition_duration_bits = duration_bits;
                self.transition_progress_bits = 0;
            },
            None => {},
        }
    }

    /// Moves to the next looped state (wrapping around) and resets the elapsed
    /// time; this is the step taken when a loop period has elapsed.
    pub fn advance_loop(&mut self)
        requires
            old(self).loop_states@.len() > 0,
            old(self).current_loop_index < usize::MAX,
        ensures
            final(self).current_loop_index == (old(self).current_loop_index + 1) % (old(self).loop_states@.len() as int),
            final(self).current_state == Some(old(self).loop_states@[final(self).current_loop_index as int]),
            final(self).loop_elapsed_time_bits == 0,
            final(self).states == old(self).states,
            final(self).loop_states == old(self).loop_states,
            final(self).next_state == old(self).next_state,
    {
        self.loop_elapsed_time_bits = 0;
        self.current_loop_index = (self.current_loop_index + 1) % self.loop_states.len();
        self.current_state = Some(self.loop_states[self.current_loop_index]);
    }
}

} // verus!
