use vstd::prelude::*;
use crate::types::ContextState;

verus! {

/// One call into the graphics API, as planned by the binding logic. A plan is
/// a sequence of these; the unverified shell performs them in order inside a
/// single unit of work on the serialized executor.
#[derive(Clone, Copy, PartialEq, Eq, Structural, Debug)]
pub enum GlCommand {
    /// Make the binding object with this identifier the active vertex array.
    BindArray { id: u32 },
    /// Deactivate the current vertex array (bind "none").
    UnbindArray,
    /// Bind this buffer to the array-buffer target.
    BindBuffer { id: u32 },
    /// Configure the attribute at `location` through the integer path:
    /// `element_count` components per vertex, `stride` bytes between
    /// vertices, starting `byte_offset` bytes into a vertex.
    ConfigureIntAttribute { location: u32, element_count: u32, stride: u32, byte_offset: u32 },
    /// Configure the attribute at `location` through the floating-point path
    /// with normalization off; fields as in the integer path.
    ConfigureFloatAttribute { location: u32, element_count: u32, stride: u32, byte_offset: u32 },
    /// Enable the attribute array at `location`.
    EnableAttribute { location: u32 },
    /// Release the binding object with this identifier.
    DeleteArray { id: u32 },
}

/// How one command changes the tracked context state. Attribute configuration
/// and deletion leave the tracked bindings alone; deletion does not implicitly
/// unbind, which is why destruction plans an explicit unbind first when
/// needed.
pub open spec fn apply_command(state: ContextState, cmd: GlCommand) -> ContextState {
    match cmd {
        GlCommand::BindArray { id } => ContextState {
            current_bound_array: Some(id),
            current_bound_buffer: state.current_bound_buffer,
        },
        GlCommand::UnbindArray => ContextState {
            current_bound_array: None,
            current_bound_buffer: state.current_bound_buffer,
        },
        GlCommand::BindBuffer { id } => ContextState {
            current_bound_array: state.current_bound_array,
            current_bound_buffer: Some(id),
        },
        _ => state,
    }
}

/// The state a command sequence leaves behind, applied front to back.
pub open spec fn apply_all(state: ContextState, cmds: Seq<GlCommand>) -> ContextState
    decreases cmds.len(),
{
    if cmds.len() == 0 {
        state
    } else {
        apply_all(apply_command(state, cmds[0]), cmds.drop_first())
    }
}

/// Applying a concatenation is applying the parts in turn.
pub proof fn lemma_apply_all_concat(state: ContextState, a: Seq<GlCommand>, b: Seq<GlCommand>)
    ensures
        apply_all(state, a + b) == apply_all(apply_all(state, a), b),
    decreases a.len(),
{
    if a.len() == 0 {
        assert(a + b =~= b);
    } else {
        assert((a + b).drop_first() =~= a.drop_first() + b);
        assert((a + b)[0] == a[0]);
        lemma_apply_all_concat(apply_command(state, a[0]), a.drop_first(), b);
    }
}

/// Applying a single command is one step.
pub proof fn lemma_apply_all_one(state: ContextState, c: GlCommand)
    ensures
        apply_all(state, seq![c]) == apply_command(state, c),
{
    assert(seq![c][0] == c);
    assert(seq![c].drop_first() =~= Seq::<GlCommand>::empty());
    assert(apply_all(apply_command(state, c), Seq::<GlCommand>::empty()) == apply_command(state, c));
}

/// Applying a pair of commands is two steps.
pub proof fn lemma_apply_all_two(state: ContextState, c1: GlCommand, c2: GlCommand)
    ensures
        apply_all(state, seq![c1, c2]) == apply_command(apply_command(state, c1), c2),
{
    assert(seq![c1, c2][0] == c1);
    assert(seq![c1, c2].drop_first() =~= seq![c2]);
    lemma_apply_all_one(apply_command(state, c1), c2);
}

/// Run one planned command against the tracked state.
pub fn step_command(state: ContextState, cmd: GlCommand) -> (r: ContextState)
    ensures
        r == apply_command(state, cmd),
{
    match cmd {
        GlCommand::BindArray { id } => ContextState {
            current_bound_array: Some(id),
            current_bound_buffer: state.current_bound_buffer,
        },
        GlCommand::UnbindArray => ContextState {
            current_bound_array: None,
            current_bound_buffer: state.current_bound_buffer,
        },
        GlCommand::BindBuffer { id } => ContextState {
            current_bound_array: state.current_bound_array,
            current_bound_buffer: Some(id),
        },
        _ => state,
    }
}

/// Run a whole planned sequence against the tracked state.
pub fn run_commands(state: ContextState, cmds: &Vec<GlCommand>) -> (r: ContextState)
    ensures
        r == apply_all(state, cmds@),
{
    let mut cur = state;
    let mut i: usize = 0;
    proof {
        assert(cmds@.skip(0) =~= cmds@);
    }
    while i < cmds.len()
        invariant
            i <= cmds@.len(),
            apply_all(cur, cmds@.skip(i as int)) == apply_all(state, cmds@),
        decreases cmds@.len() - i,
    {
        proof {
            assert(cmds@.skip(i as int)[0] == cmds@[i as int]);
            assert(cmds@.skip(i as int).drop_first() =~= cmds@.skip(i as int + 1));
        }
        cur = step_command(cur, cmds[i]);
        i += 1;
    }
    proof {
        assert(cmds@.skip(i as int) =~= Seq::<GlCommand>::empty());
    }
    cur
}

} // verus!
