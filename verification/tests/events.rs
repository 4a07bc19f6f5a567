use bevy_sly_compute::channel::mark_shader_modified;
use bevy_sly_compute::events::{
    shader_modified, AssetEvent, ComputeComplete, ComputeEvent, Pass, Workgroups,
};
use bevy_sly_compute::traits::{find_entry, AssetId, ComputeShader, ShaderRef};

#[derive(Clone)]
struct TwoStage;

impl ComputeShader for TwoStage {
    fn shader() -> ShaderRef {
        ShaderRef::Handle(AssetId::Index(7))
    }

    fn entry_points() -> Vec<&'static str> {
        vec!["pre", "main"]
    }
}

#[derive(Clone)]
struct Plain;

impl ComputeShader for Plain {
    fn shader() -> ShaderRef {
        ShaderRef::Path("shaders/plain.wgsl".to_string())
    }
}

fn one(x: u32, y: u32, z: u32) -> Vec<Workgroups> {
    vec![Workgroups { x, y, z }]
}

#[test]
fn entry_point_defaults_to_main() {
    assert_eq!(Plain::entry_points(), vec!["main"]);
    let event = ComputeEvent::<Plain>::new(Workgroups::new(2, 3, 4));
    assert_eq!(event.passes, vec![Pass { entry: "main", workgroups: one(2, 3, 4) }]);
}

#[test]
fn new_event_dispatches_once_under_first_entry_point() {
    let event = ComputeEvent::<TwoStage>::new(Workgroups::new(4, 1, 1));
    assert_eq!(event.passes, vec![Pass { entry: "pre", workgroups: one(4, 1, 1) }]);
    assert!(!event.dont_copy);
    assert_eq!(event.retry, 0);
}

#[test]
fn new_first_takes_the_first_of_the_given_entries() {
    let entries = vec!["a", "b"];
    let event = ComputeEvent::<TwoStage>::new_first(&entries, Workgroups::new(1, 2, 3));
    assert_eq!(event.passes, vec![Pass { entry: "a", workgroups: one(1, 2, 3) }]);
}

#[test]
fn new_named_uses_the_given_entry_point() {
    let event = ComputeEvent::<TwoStage>::new_named("main", Workgroups::new(8, 8, 1));
    assert_eq!(event.passes, vec![Pass { entry: "main", workgroups: one(8, 8, 1) }]);
    assert!(!event.dont_copy);
    assert_eq!(event.retry, 0);
}

#[test]
fn new_xyz_builds_the_workgroups() {
    let event = ComputeEvent::<TwoStage>::new_xyz(3, 2, 1);
    assert_eq!(event.passes, vec![Pass { entry: "pre", workgroups: one(3, 2, 1) }]);
}

#[test]
fn default_event_dispatches_one_workgroup() {
    let event = ComputeEvent::<TwoStage>::default();
    assert_eq!(event.passes, vec![Pass { entry: "pre", workgroups: one(1, 1, 1) }]);
    assert!(!event.dont_copy);
    assert_eq!(event.retry, 0);
}

#[test]
fn add_pass_appends_and_chains() {
    let mut event = ComputeEvent::<TwoStage>::new_named("pre", Workgroups::new(1, 1, 1));
    event
        .add_pass("main", Workgroups::new(16, 16, 1))
        .add_pass("pre", Workgroups::new(2, 1, 1));
    assert_eq!(
        event.passes,
        vec![
            Pass { entry: "pre", workgroups: one(1, 1, 1) },
            Pass { entry: "main", workgroups: one(16, 16, 1) },
            Pass { entry: "pre", workgroups: one(2, 1, 1) },
        ]
    );
    assert_eq!(event.retry, 0);
}

#[test]
fn cloned_event_holds_the_same() {
    let mut event = ComputeEvent::<TwoStage>::new_named("main", Workgroups::new(5, 6, 7));
    event.retry = 3;
    event.dont_copy = true;
    let copy = event.clone();
    assert_eq!(copy.passes, event.passes);
    assert_eq!(copy.retry, 3);
    assert!(copy.dont_copy);
}

#[test]
fn pass_new_holds_one_dispatch() {
    let pass = Pass::new("main", Workgroups::new(9, 1, 1));
    assert_eq!(pass, Pass { entry: "main", workgroups: one(9, 1, 1) });
    assert_eq!(pass.clone(), pass);
}

#[test]
fn workgroups_with_a_zero_are_not_dispatchable() {
    assert!(Workgroups::new(1, 1, 1).dispatchable());
    assert!(!Workgroups::new(0, 1, 1).dispatchable());
    assert!(!Workgroups::new(1, 0, 1).dispatchable());
    assert!(!Workgroups::new(1, 1, 0).dispatchable());
}

#[test]
fn completion_copies_by_default() {
    let complete = ComputeComplete::<TwoStage>::default();
    assert!(!complete.dont_copy);
}

#[test]
fn find_entry_gives_first_position() {
    let entries = vec!["pre", "main", "pre"];
    assert_eq!(find_entry(&entries, "pre"), Some(0));
    assert_eq!(find_entry(&entries, "main"), Some(1));
    assert_eq!(find_entry(&entries, "post"), None);
    assert_eq!(find_entry(&Vec::new(), "main"), None);
    // a name that differs from an entry point in one character is another
    assert_eq!(find_entry(&entries, "mair"), None);
}

#[test]
fn shader_handle_is_known_without_loading() {
    assert_eq!(TwoStage::shader().handle(), Some(AssetId::Index(7)));
    assert_eq!(Plain::shader().handle(), None);
    assert_eq!(ShaderRef::Default.handle(), None);
}

#[test]
fn shader_modified_notifies_on_modification_of_the_shader() {
    let shader = AssetId::Index(7);
    let events = vec![
        AssetEvent::Added { id: shader },
        AssetEvent::Modified { id: AssetId::Index(8) },
        AssetEvent::Modified { id: shader },
    ];
    assert!(shader_modified::<TwoStage>(&events, shader).is_some());
}

#[test]
fn shader_modified_ignores_other_assets_and_other_changes() {
    let shader = AssetId::Index(7);
    let events = vec![
        AssetEvent::Added { id: shader },
        AssetEvent::Removed { id: shader },
        AssetEvent::LoadedWithDependencies { id: shader },
        AssetEvent::Unused { id: shader },
        AssetEvent::Modified { id: AssetId::Index(8) },
        AssetEvent::Modified { id: AssetId::Uuid(7) },
    ];
    assert!(shader_modified::<TwoStage>(&events, shader).is_none());
    assert!(shader_modified::<TwoStage>(&Vec::new(), shader).is_none());
}

#[test]
fn mark_shader_modified_reports_every_asset() {
    let ids = vec![AssetId::Index(1), AssetId::Uuid(2), AssetId::Index(3)];
    assert_eq!(
        mark_shader_modified(&ids),
        vec![
            AssetEvent::Modified { id: AssetId::Index(1) },
            AssetEvent::Modified { id: AssetId::Uuid(2) },
            AssetEvent::Modified { id: AssetId::Index(3) },
        ]
    );
    assert_eq!(mark_shader_modified(&Vec::new()), Vec::new());
}
