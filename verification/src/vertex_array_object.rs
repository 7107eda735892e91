use vstd::prelude::*;
use crate::types::{AttributeBinding, BufferDescriptor, ContextState, DataType};
use crate::commands::{
    GlCommand, apply_all, lemma_apply_all_concat, lemma_apply_all_one, lemma_apply_all_two,
};
use crate::cache::BindingCache;

verus! {

/// The command that configures one attribute: the integer path for
/// integer-like data, otherwise the floating-point path.
pub open spec fn configure_command(attr: AttributeBinding, stride: u32, location: u32) -> GlCommand {
    match attr.data_type {
        DataType::IntegerLike => GlCommand::ConfigureIntAttribute {
            location,
            element_count: attr.element_count,
            stride,
            byte_offset: attr.byte_offset,
        },
        DataType::FloatLike => GlCommand::ConfigureFloatAttribute {
            location,
            element_count: attr.element_count,
            stride,
            byte_offset: attr.byte_offset,
        },
    }
}

/// The commands one attribute contributes: nothing when the program does not
/// link it (no resolved location), otherwise configure then enable.
pub open spec fn attribute_commands(attr: AttributeBinding, stride: u32, location: Option<u32>) -> Seq<GlCommand> {
    match location {
        None => Seq::<GlCommand>::empty(),
        Some(loc) => seq![
            configure_command(attr, stride, loc),
            GlCommand::EnableAttribute { location: loc },
        ],
    }
}

/// The commands all attributes contribute, in buffer order. `locations[i]` is
/// the location the program resolved for `attrs[i]`, `None` for "not found".
pub open spec fn attributes_commands(attrs: Seq<AttributeBinding>, stride: u32, locations: Seq<Option<u32>>) -> Seq<GlCommand>
    decreases attrs.len(),
{
    if attrs.len() == 0 {
        Seq::<GlCommand>::empty()
    } else {
        attributes_commands(attrs.drop_last(), stride, locations.drop_last())
            + attribute_commands(attrs.last(), stride, locations.last())
    }
}

/// The opening of a construction: activate the new object, then bind the
/// buffer unless the context already has it bound (rebind avoidance).
pub open spec fn setup_commands(new_id: u32, buffer: BufferDescriptor, state: ContextState) -> Seq<GlCommand> {
    seq![GlCommand::BindArray { id: new_id }]
        + if state.current_bound_buffer == Some(buffer.id) {
            Seq::<GlCommand>::empty()
        } else {
            seq![GlCommand::BindBuffer { id: buffer.id }]
        }
}

/// The whole unit of work a construction submits, given the identifier the
/// context allocated and the locations the program resolved.
pub open spec fn construction_commands(new_id: u32, buffer: BufferDescriptor, locations: Seq<Option<u32>>, state: ContextState) -> Seq<GlCommand> {
    setup_commands(new_id, buffer, state)
        + attributes_commands(buffer.attributes@, buffer.stride, locations)
}

/// The tracked state a construction leaves behind: the new object active, the
/// buffer bound.
pub open spec fn construction_state(new_id: u32, buffer: BufferDescriptor) -> ContextState {
    ContextState { current_bound_array: Some(new_id), current_bound_buffer: Some(buffer.id) }
}

/// The unit of work a destruction submits: delete the object, unbinding it
/// first when it is the active one.
pub open spec fn destruction_commands(id: u32, state: ContextState) -> Seq<GlCommand> {
    if state.current_bound_array == Some(id) {
        seq![GlCommand::UnbindArray, GlCommand::DeleteArray { id }]
    } else {
        seq![GlCommand::DeleteArray { id }]
    }
}

/// The tracked state a destruction leaves behind: unchanged, except that the
/// active binding becomes "none" when the destroyed object was active.
pub open spec fn destruction_state(id: u32, state: ContextState) -> ContextState {
    if state.current_bound_array == Some(id) {
        ContextState { current_bound_array: None, current_bound_buffer: state.current_bound_buffer }
    } else {
        state
    }
}

/// Attribute configuration and enabling never touch the tracked bindings.
pub proof fn lemma_attributes_commands_apply(state: ContextState, attrs: Seq<AttributeBinding>, stride: u32, locations: Seq<Option<u32>>)
    ensures
        apply_all(state, attributes_commands(attrs, stride, locations)) == state,
    decreases attrs.len(),
{
    if attrs.len() == 0 {
    } else {
        lemma_attributes_commands_apply(state, attrs.drop_last(), stride, locations.drop_last());
        lemma_apply_all_concat(
            state,
            attributes_commands(attrs.drop_last(), stride, locations.drop_last()),
            attribute_commands(attrs.last(), stride, locations.last()),
        );
        let tail = attribute_commands(attrs.last(), stride, locations.last());
        match locations.last() {
            None => {
                assert(tail =~= Seq::<GlCommand>::empty());
            },
            Some(loc) => {
                let cc = configure_command(attrs.last(), stride, loc);
                assert(cc is ConfigureIntAttribute || cc is ConfigureFloatAttribute);
                lemma_apply_all_two(state, cc, GlCommand::EnableAttribute { location: loc });
            },
        }
    }
}

/// The planned construction commands really leave the context in the planned
/// state: the new object active and the buffer bound.
pub proof fn lemma_construction_commands_apply(new_id: u32, buffer: BufferDescriptor, locations: Seq<Option<u32>>, state: ContextState)
    ensures
        apply_all(state, construction_commands(new_id, buffer, locations, state))
            == construction_state(new_id, buffer),
{
    let setup = setup_commands(new_id, buffer, state);
    let attrs = attributes_commands(buffer.attributes@, buffer.stride, locations);
    lemma_apply_all_concat(state, setup, attrs);
    if state.current_bound_buffer == Some(buffer.id) {
        assert(setup =~= seq![GlCommand::BindArray { id: new_id }]);
        lemma_apply_all_one(state, GlCommand::BindArray { id: new_id });
        assert(apply_all(state, setup) == construction_state(new_id, buffer));
    } else {
        assert(setup =~= seq![
            GlCommand::BindArray { id: new_id },
            GlCommand::BindBuffer { id: buffer.id },
        ]);
        lemma_apply_all_two(
            state,
            GlCommand::BindArray { id: new_id },
            GlCommand::BindBuffer { id: buffer.id },
        );
        assert(apply_all(state, setup) == construction_state(new_id, buffer));
    }
    lemma_attributes_commands_apply(construction_state(new_id, buffer), buffer.attributes@, buffer.stride, locations);
}

/// The planned destruction commands really leave the context in the planned
/// state: unbound when the destroyed object was the active one, untouched
/// otherwise.
pub proof fn lemma_destruction_commands_apply(id: u32, state: ContextState)
    ensures
        apply_all(state, destruction_commands(id, state)) == destruction_state(id, state),
{
    if state.current_bound_array == Some(id) {
        lemma_apply_all_two(state, GlCommand::UnbindArray, GlCommand::DeleteArray { id });
    } else {
        lemma_apply_all_one(state, GlCommand::DeleteArray { id });
    }
}

/// The locations whose attribute arrays a command sequence enables, in order.
pub open spec fn enabled_locations(cmds: Seq<GlCommand>) -> Seq<u32>
    decreases cmds.len(),
{
    if cmds.len() == 0 {
        Seq::<u32>::empty()
    } else {
        enabled_locations(cmds.drop_last()) + match cmds.last() {
            GlCommand::EnableAttribute { location } => seq![location],
            _ => Seq::<u32>::empty(),
        }
    }
}

/// The locations the program resolved, in attribute order, skipping the
/// attributes it does not link.
pub open spec fn resolved_locations(locations: Seq<Option<u32>>) -> Seq<u32>
    decreases locations.len(),
{
    if locations.len() == 0 {
        Seq::<u32>::empty()
    } else {
        resolved_locations(locations.drop_last()) + match locations.last() {
            Some(loc) => seq![loc],
            None => Seq::<u32>::empty(),
        }
    }
}

/// What a single command contributes to the enabled locations.
pub proof fn lemma_enabled_locations_one(c: GlCommand)
    ensures
        enabled_locations(seq![c]) == (match c {
            GlCommand::EnableAttribute { location } => seq![location],
            _ => Seq::<u32>::empty(),
        }),
{
    let last_part = (match c {
        GlCommand::EnableAttribute { location } => seq![location],
        _ => Seq::<u32>::empty(),
    });
    assert(seq![c].last() == c);
    assert(seq![c].drop_last() =~= Seq::<GlCommand>::empty());
    assert(enabled_locations(seq![c]) == enabled_locations(Seq::<GlCommand>::empty()) + last_part);
    assert(Seq::<u32>::empty() + last_part =~= last_part);
}

/// Enabled locations distribute over concatenation.
pub proof fn lemma_enabled_locations_concat(a: Seq<GlCommand>, b: Seq<GlCommand>)
    ensures
        enabled_locations(a + b) == enabled_locations(a) + enabled_locations(b),
    decreases b.len(),
{
    if b.len() == 0 {
        assert(a + b =~= a);
        assert(enabled_locations(a) + enabled_locations(b) =~= enabled_locations(a));
    } else {
        assert((a + b).drop_last() =~= a + b.drop_last());
        assert((a + b).last() == b.last());
        lemma_enabled_locations_concat(a, b.drop_last());
        assert(enabled_locations(a) + enabled_locations(b.drop_last()) + match b.last() {
            GlCommand::EnableAttribute { location } => seq![location],
            _ => Seq::<u32>::empty(),
        } =~= enabled_locations(a) + enabled_locations(b));
    }
}

/// The attribute part of a construction enables exactly the resolved
/// locations, in order.
pub proof fn lemma_attributes_commands_enable(attrs: Seq<AttributeBinding>, stride: u32, locations: Seq<Option<u32>>)
    requires
        attrs.len() == locations.len(),
    ensures
        enabled_locations(attributes_commands(attrs, stride, locations)) == resolved_locations(locations),
    decreases attrs.len(),
{
    if attrs.len() == 0 {
    } else {
        lemma_attributes_commands_enable(attrs.drop_last(), stride, locations.drop_last());
        let head = attributes_commands(attrs.drop_last(), stride, locations.drop_last());
        let tail = attribute_commands(attrs.last(), stride, locations.last());
        lemma_enabled_locations_concat(head, tail);
        match locations.last() {
            None => {
                assert(enabled_locations(tail) =~= Seq::<u32>::empty());
                assert(resolved_locations(locations)
                    =~= resolved_locations(locations.drop_last()));
                assert(enabled_locations(head) + enabled_locations(tail)
                    =~= enabled_locations(head));
            },
            Some(loc) => {
                let cc = configure_command(attrs.last(), stride, loc);
                let en = GlCommand::EnableAttribute { location: loc };
                assert(tail =~= seq![cc] + seq![en]);
                lemma_enabled_locations_concat(seq![cc], seq![en]);
                lemma_enabled_locations_one(cc);
                lemma_enabled_locations_one(en);
                assert(cc is ConfigureIntAttribute || cc is ConfigureFloatAttribute);
                assert(enabled_locations(tail) =~= seq![loc]);
                assert(resolved_locations(locations)
                    =~= resolved_locations(locations.drop_last()) + seq![loc]);
                assert(enabled_locations(head) + enabled_locations(tail)
                    =~= resolved_locations(locations));
            },
        }
    }
}

/// Attribute skip: a construction enables exactly the attributes the program
/// links — those whose location resolved — in buffer order; an unresolved
/// attribute contributes no command at all.
pub proof fn lemma_attribute_skip(new_id: u32, buffer: BufferDescriptor, locations: Seq<Option<u32>>, state: ContextState)
    requires
        buffer.attributes@.len() == locations.len(),
    ensures
        enabled_locations(construction_commands(new_id, buffer, locations, state))
            == resolved_locations(locations),
        forall|i: int|
            0 <= i < locations.len() && locations[i] is None
                ==> attribute_commands(buffer.attributes@[i], buffer.stride, #[trigger] locations[i])
                    == Seq::<GlCommand>::empty(),
{
    let setup = setup_commands(new_id, buffer, state);
    let attrs = attributes_commands(buffer.attributes@, buffer.stride, locations);
    lemma_enabled_locations_concat(setup, attrs);
    let ba = GlCommand::BindArray { id: new_id };
    let bb = GlCommand::BindBuffer { id: buffer.id };
    if state.current_bound_buffer == Some(buffer.id) {
        assert(setup =~= seq![ba]);
        lemma_enabled_locations_one(ba);
    } else {
        assert(setup =~= seq![ba] + seq![bb]);
        lemma_enabled_locations_concat(seq![ba], seq![bb]);
        lemma_enabled_locations_one(ba);
        lemma_enabled_locations_one(bb);
        assert(enabled_locations(setup) =~= Seq::<u32>::empty());
    }
    lemma_attributes_commands_enable(buffer.attributes@, buffer.stride, locations);
    assert(enabled_locations(setup) + enabled_locations(attrs) =~= enabled_locations(attrs));
}

/// Whether a command sequence binds any buffer.
pub open spec fn binds_buffer(cmds: Seq<GlCommand>) -> bool {
    exists|i: int| 0 <= i < cmds.len() && #[trigger] cmds[i] is BindBuffer
}

/// The attribute part of a construction never binds a buffer.
pub proof fn lemma_attributes_commands_no_bind(attrs: Seq<AttributeBinding>, stride: u32, locations: Seq<Option<u32>>)
    ensures
        !binds_buffer(attributes_commands(attrs, stride, locations)),
    decreases attrs.len(),
{
    if attrs.len() == 0 {
    } else {
        lemma_attributes_commands_no_bind(attrs.drop_last(), stride, locations.drop_last());
        let head = attributes_commands(attrs.drop_last(), stride, locations.drop_last());
        let tail = attribute_commands(attrs.last(), stride, locations.last());
        assert forall|i: int| 0 <= i < (head + tail).len()
            implies !(#[trigger] (head + tail)[i] is BindBuffer) by {
            if i < head.len() {
                assert((head + tail)[i] == head[i]);
            } else {
                assert((head + tail)[i] == tail[i - head.len()]);
                match locations.last() {
                    None => {},
                    Some(loc) => {
                        assert(tail[0] == configure_command(attrs.last(), stride, loc));
                        assert(tail[1] == (GlCommand::EnableAttribute { location: loc }));
                    },
                }
            }
        }
    }
}

/// Rebind avoidance: after a construction has bound a buffer, a consecutive
/// construction for a buffer with the same identifier — no other work having
/// moved the tracked buffer binding — issues no buffer-bind command at all.
pub proof fn lemma_rebind_avoidance(id1: u32, id2: u32, first: BufferDescriptor, second: BufferDescriptor, locations: Seq<Option<u32>>)
    requires
        first.id == second.id,
    ensures
        !binds_buffer(construction_commands(
            id2,
            second,
            locations,
            construction_state(id1, first),
        )),
{
    let state = construction_state(id1, first);
    let setup = setup_commands(id2, second, state);
    let attrs = attributes_commands(second.attributes@, second.stride, locations);
    assert(setup =~= seq![GlCommand::BindArray { id: id2 }]);
    lemma_attributes_commands_no_bind(second.attributes@, second.stride, locations);
    assert forall|i: int| 0 <= i < (setup + attrs).len()
        implies !(#[trigger] (setup + attrs)[i] is BindBuffer) by {
        if i < setup.len() {
            assert((setup + attrs)[i] == setup[i]);
        } else {
            assert((setup + attrs)[i] == attrs[i - setup.len()]);
        }
    }
}

/// One constructed attribute-binding configuration. It owns exactly one
/// context-side resource; its identifier never changes once assigned, and
/// destruction consumes the object, so each object is destroyed at most once.
pub struct VertexArrayObject {
    id: u32,
}

impl VertexArrayObject {
    /// The context-side identifier this object owns.
    pub closed spec fn resource_id(self) -> u32 {
        self.id
    }

    /// Read the owned identifier.
    pub fn id(&self) -> (r: u32)
        ensures
            r == self.resource_id(),
    {
        self.id
    }

    /// Plan the construction of a binding object. `new_id` is the identifier
    /// the context allocated for it; `locations[i]` is what the program
    /// resolved for `buffer.attributes[i]`, `None` when the program does not
    /// link that attribute. Returns the object, the unit of work to run, and
    /// the tracked state that work leaves behind.
    pub fn new(new_id: u32, buffer: &BufferDescriptor, locations: &Vec<Option<u32>>, state: ContextState) -> (r: (VertexArrayObject, Vec<GlCommand>, ContextState))
        requires
            locations@.len() == buffer.attributes@.len(),
        ensures
            r.0.resource_id() == new_id,
            r.1@ == construction_commands(new_id, *buffer, locations@, state),
            r.2 == construction_state(new_id, *buffer),
    {
        let mut cmds: Vec<GlCommand> = Vec::new();
        cmds.push(GlCommand::BindArray { id: new_id });
        let need_bind = match state.current_bound_buffer {
            Some(b) => b != buffer.id,
            None => true,
        };
        if need_bind {
            cmds.push(GlCommand::BindBuffer { id: buffer.id });
        }
        proof {
            assert(cmds@ =~= setup_commands(new_id, *buffer, state));
        }
        let ghost setup = cmds@;
        let mut i: usize = 0;
        while i < buffer.attributes.len()
            invariant
                i <= buffer.attributes@.len(),
                locations@.len() == buffer.attributes@.len(),
                setup == setup_commands(new_id, *buffer, state),
                cmds@ == setup + attributes_commands(
                    buffer.attributes@.take(i as int),
                    buffer.stride,
                    locations@.take(i as int),
                ),
            decreases buffer.attributes@.len() - i,
        {
            let attr = &buffer.attributes[i];
            match locations[i] {
                None => {},
                Some(loc) => {
                    match attr.data_type {
                        DataType::IntegerLike => {
                            cmds.push(GlCommand::ConfigureIntAttribute {
                                location: loc,
                                element_count: attr.element_count,
                                stride: buffer.stride,
                                byte_offset: attr.byte_offset,
                            });
                        },
                        DataType::FloatLike => {
                            cmds.push(GlCommand::ConfigureFloatAttribute {
                                location: loc,
                                element_count: attr.element_count,
                                stride: buffer.stride,
                                byte_offset: attr.byte_offset,
                            });
                        },
                    }
                    cmds.push(GlCommand::EnableAttribute { location: loc });
                },
            }
            proof {
                assert(buffer.attributes@.take(i + 1).drop_last() =~= buffer.attributes@.take(i as int));
                assert(locations@.take(i + 1).drop_last() =~= locations@.take(i as int));
                assert(buffer.attributes@.take(i + 1).last() == buffer.attributes@[i as int]);
                assert(locations@.take(i + 1).last() == locations@[i as int]);
                assert(cmds@ =~= setup + attributes_commands(
                    buffer.attributes@.take(i + 1),
                    buffer.stride,
                    locations@.take(i + 1),
                ));
            }
            i += 1;
        }
        proof {
            assert(buffer.attributes@.take(i as int) =~= buffer.attributes@);
            assert(locations@.take(i as int) =~= locations@);
        }
        let vao = VertexArrayObject { id: new_id };
        let new_state = ContextState {
            current_bound_array: Some(new_id),
            current_bound_buffer: Some(buffer.id),
        };
        (vao, cmds, new_state)
    }

    /// Plan the destruction of this object. Consuming `self` is what makes a
    /// second destruction impossible. Returns the unit of work to submit and
    /// the tracked state it leaves behind: destroying the active object
    /// unbinds it (the active binding becomes "none"), destroying any other
    /// object leaves the tracked state unchanged.
    pub fn destroy(self, state: ContextState) -> (r: (Vec<GlCommand>, ContextState))
        ensures
            r.0@ == destruction_commands(self.resource_id(), state),
            r.1 == destruction_state(self.resource_id(), state),
            state.current_bound_array == Some(self.resource_id()) ==> r.1.current_bound_array is None,
            state.current_bound_array != Some(self.resource_id()) ==> r.1 == state,
    {
        let mut cmds: Vec<GlCommand> = Vec::new();
        let is_current = match state.current_bound_array {
            Some(cur) => cur == self.id,
            None => false,
        };
        if is_current {
            cmds.push(GlCommand::UnbindArray);
            cmds.push(GlCommand::DeleteArray { id: self.id });
            proof {
                assert(cmds@ =~= destruction_commands(self.resource_id(), state));
            }
            (cmds, ContextState { current_bound_array: None, current_bound_buffer: state.current_bound_buffer })
        } else {
            cmds.push(GlCommand::DeleteArray { id: self.id });
            proof {
                assert(cmds@ =~= destruction_commands(self.resource_id(), state));
            }
            (cmds, state)
        }
    }
}

/// Look a (buffer, program) pair up in the cache, constructing on a miss.
///
/// On a hit the cached identifier comes back, no work is planned, and neither
/// cache nor state changes. On a miss the construction planned from `new_id`
/// (the identifier the context allocated) and `locations` (what the program
/// resolved per attribute) comes back, and the new object is cached under the
/// pair, so an equal pair afterwards resolves to the same identifier.
pub fn get_vertex_array_object(
    cache: &mut BindingCache,
    buffer: &BufferDescriptor,
    program_id: u32,
    locations: &Vec<Option<u32>>,
    new_id: u32,
    state: ContextState,
) -> (r: (u32, Vec<GlCommand>, ContextState))
    requires
        old(cache).wf(),
        locations@.len() == buffer.attributes@.len(),
        !old(cache).contains_resource(new_id),
    ensures
        final(cache).wf(),
        old(cache).spec_lookup(buffer.id, program_id) is Some ==> {
            &&& r.0 == old(cache).spec_lookup(buffer.id, program_id).unwrap()
            &&& r.1@ == Seq::<GlCommand>::empty()
            &&& *final(cache) == *old(cache)
            &&& r.2 == state
        },
        old(cache).spec_lookup(buffer.id, program_id) is None ==> {
            &&& r.0 == new_id
            &&& r.1@ == construction_commands(new_id, *buffer, locations@, state)
            &&& final(cache).spec_lookup(buffer.id, program_id) == Some(new_id)
            &&& r.2 == construction_state(new_id, *buffer)
        },
        forall|b: u32, p: u32|
            !(b == buffer.id && p == program_id) ==> final(cache).spec_lookup(b, p) == old(cache).spec_lookup(b, p),
{
    match cache.lookup(buffer.id, program_id) {
        Some(id) => (id, Vec::new(), state),
        None => {
            let (vao, cmds, new_state) = VertexArrayObject::new(new_id, buffer, locations, state);
            let rid = vao.id();
            cache.insert(buffer.id, program_id, vao);
            (rid, cmds, new_state)
        },
    }
}

} // verus!
