use vao_cache::cache::BindingCache;
use vao_cache::commands::{run_commands, GlCommand};
use vao_cache::types::{AttributeBinding, BufferDescriptor, ContextState, DataType};
use vao_cache::vertex_array_object::{get_vertex_array_object, VertexArrayObject};

fn pos_buffer() -> BufferDescriptor {
    BufferDescriptor {
        id: 7,
        stride: 12,
        attributes: vec![AttributeBinding {
            name: String::from("pos"),
            data_type: DataType::FloatLike,
            element_count: 3,
            byte_offset: 0,
        }],
    }
}

#[test]
fn end_to_end_single_float_attribute() {
    let mut cache = BindingCache::new();
    let buffer = pos_buffer();
    let locations = vec![Some(0)];
    let state = ContextState::initial();
    let (id, cmds, after) = get_vertex_array_object(&mut cache, &buffer, 42, &locations, 1, state);
    assert_eq!(id, 1);
    assert_eq!(
        cmds,
        vec![
            GlCommand::BindArray { id: 1 },
            GlCommand::BindBuffer { id: 7 },
            GlCommand::ConfigureFloatAttribute {
                location: 0,
                element_count: 3,
                stride: 12,
                byte_offset: 0,
            },
            GlCommand::EnableAttribute { location: 0 },
        ]
    );
    let enables = cmds
        .iter()
        .filter(|c| matches!(c, GlCommand::EnableAttribute { .. }))
        .count();
    assert_eq!(enables, 1);
    assert_eq!(after.current_bound_array, Some(1));
    assert_eq!(after.current_bound_buffer, Some(7));
}

#[test]
fn second_call_returns_cached_id_without_construction() {
    let mut cache = BindingCache::new();
    let buffer = pos_buffer();
    let locations = vec![Some(0)];
    let state = ContextState::initial();
    let (id1, cmds1, after) = get_vertex_array_object(&mut cache, &buffer, 42, &locations, 1, state);
    assert_eq!(id1, 1);
    assert!(!cmds1.is_empty());
    let (id2, cmds2, after2) = get_vertex_array_object(&mut cache, &buffer, 42, &locations, 2, after);
    assert_eq!(id2, id1);
    assert!(cmds2.is_empty());
    assert_eq!(after2, after);
    assert_eq!(cache.len(), 1);
}

#[test]
fn distinct_keys_get_distinct_ids() {
    let mut cache = BindingCache::new();
    let buffer = pos_buffer();
    let locations = vec![Some(0)];
    let state = ContextState::initial();
    let (id1, _, s1) = get_vertex_array_object(&mut cache, &buffer, 42, &locations, 1, state);
    let (id2, _, _) = get_vertex_array_object(&mut cache, &buffer, 43, &locations, 2, s1);
    assert_ne!(id1, id2);
    assert_eq!(cache.lookup(7, 42), Some(1));
    assert_eq!(cache.lookup(7, 43), Some(2));
    assert_eq!(cache.len(), 2);
}

#[test]
fn unresolved_attributes_are_skipped() {
    let buffer = BufferDescriptor {
        id: 3,
        stride: 8,
        attributes: vec![
            AttributeBinding {
                name: String::from("unused"),
                data_type: DataType::IntegerLike,
                element_count: 1,
                byte_offset: 0,
            },
            AttributeBinding {
                name: String::from("uv"),
                data_type: DataType::FloatLike,
                element_count: 2,
                byte_offset: 4,
            },
        ],
    };
    let locations = vec![None, Some(5)];
    let state = ContextState::initial();
    let (vao, cmds, _) = VertexArrayObject::new(9, &buffer, &locations, state);
    assert_eq!(vao.id(), 9);
    assert_eq!(
        cmds,
        vec![
            GlCommand::BindArray { id: 9 },
            GlCommand::BindBuffer { id: 3 },
            GlCommand::ConfigureFloatAttribute {
                location: 5,
                element_count: 2,
                stride: 8,
                byte_offset: 4,
            },
            GlCommand::EnableAttribute { location: 5 },
        ]
    );
}

#[test]
fn integer_attributes_take_the_integer_path() {
    let buffer = BufferDescriptor {
        id: 2,
        stride: 4,
        attributes: vec![AttributeBinding {
            name: String::from("index"),
            data_type: DataType::IntegerLike,
            element_count: 1,
            byte_offset: 0,
        }],
    };
    let locations = vec![Some(1)];
    let (_, cmds, _) = VertexArrayObject::new(4, &buffer, &locations, ContextState::initial());
    assert!(cmds.contains(&GlCommand::ConfigureIntAttribute {
        location: 1,
        element_count: 1,
        stride: 4,
        byte_offset: 0,
    }));
    assert!(!cmds
        .iter()
        .any(|c| matches!(c, GlCommand::ConfigureFloatAttribute { .. })));
}

#[test]
fn consecutive_constructions_avoid_rebinding() {
    let buffer = pos_buffer();
    let locations = vec![Some(0)];
    let state = ContextState::initial();
    let (_, cmds1, s1) = VertexArrayObject::new(1, &buffer, &locations, state);
    assert!(cmds1.contains(&GlCommand::BindBuffer { id: 7 }));
    let (_, cmds2, _) = VertexArrayObject::new(2, &buffer, &locations, s1);
    assert!(!cmds2
        .iter()
        .any(|c| matches!(c, GlCommand::BindBuffer { .. })));
}

#[test]
fn destroying_the_active_object_unbinds_it() {
    let buffer = pos_buffer();
    let locations = vec![Some(0)];
    let (vao, _, s1) = VertexArrayObject::new(1, &buffer, &locations, ContextState::initial());
    assert_eq!(s1.current_bound_array, Some(1));
    let (cmds, s2) = vao.destroy(s1);
    assert_eq!(
        cmds,
        vec![GlCommand::UnbindArray, GlCommand::DeleteArray { id: 1 }]
    );
    assert_eq!(s2.current_bound_array, None);
    assert_eq!(s2.current_bound_buffer, s1.current_bound_buffer);
}

#[test]
fn destroying_an_inactive_object_leaves_the_state_alone() {
    let buffer = pos_buffer();
    let locations = vec![Some(0)];
    let (vao, _, s1) = VertexArrayObject::new(1, &buffer, &locations, ContextState::initial());
    let (_, _, s2) = VertexArrayObject::new(2, &buffer, &locations, s1);
    assert_eq!(s2.current_bound_array, Some(2));
    let (cmds, s3) = vao.destroy(s2);
    assert_eq!(cmds, vec![GlCommand::DeleteArray { id: 1 }]);
    assert_eq!(s3, s2);
}

#[test]
fn running_the_planned_commands_reaches_the_planned_state() {
    let buffer = pos_buffer();
    let locations = vec![Some(0)];
    let state = ContextState::initial();
    let (vao, cmds, planned) = VertexArrayObject::new(1, &buffer, &locations, state);
    let reached = run_commands(state, &cmds);
    assert_eq!(reached, planned);
    let (dcmds, dplanned) = vao.destroy(planned);
    let dreached = run_commands(planned, &dcmds);
    assert_eq!(dreached, dplanned);
}

#[test]
fn empty_cache_has_no_entries() {
    let cache = BindingCache::new();
    assert_eq!(cache.len(), 0);
    assert_eq!(cache.lookup(7, 42), None);
    assert!(!cache.holds_resource(1));
}

#[test]
fn cached_objects_are_found_by_resource_id() {
    let mut cache = BindingCache::new();
    let buffer = pos_buffer();
    let locations = vec![Some(0)];
    let (_, _, _) = get_vertex_array_object(
        &mut cache,
        &buffer,
        42,
        &locations,
        11,
        ContextState::initial(),
    );
    assert!(cache.holds_resource(11));
    assert!(!cache.holds_resource(12));
}

#[test]
fn buffer_with_no_attributes_only_binds() {
    let buffer = BufferDescriptor {
        id: 5,
        stride: 0,
        attributes: vec![],
    };
    let locations: Vec<Option<u32>> = vec![];
    let (_, cmds, after) = VertexArrayObject::new(6, &buffer, &locations, ContextState::initial());
    assert_eq!(
        cmds,
        vec![GlCommand::BindArray { id: 6 }, GlCommand::BindBuffer { id: 5 }]
    );
    assert_eq!(after.current_bound_array, Some(6));
    assert_eq!(after.current_bound_buffer, Some(5));
}
