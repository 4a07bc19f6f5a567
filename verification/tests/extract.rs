use bevy_sly_compute::events::{ComputeEvent, Pass, Workgroups};
use bevy_sly_compute::extract::{
    check_pass, collect_passes, dedup_passes, extract_resource, layout_images, validate_passes,
    ImageInfo, PassDefect, PassWarning,
};
use bevy_sly_compute::resources::BufferDimensions;
use bevy_sly_compute::traits::{AssetId, ComputeShader, ShaderRef};

#[derive(Clone)]
struct Terrain;

impl ComputeShader for Terrain {
    fn shader() -> ShaderRef {
        ShaderRef::Handle(AssetId::Index(1))
    }

    fn entry_points() -> Vec<&'static str> {
        vec!["erode", "smooth", "normals"]
    }
}

fn pass(entry: &'static str, sizes: &[(u32, u32, u32)]) -> Pass {
    Pass {
        entry,
        workgroups: sizes.iter().map(|&(x, y, z)| Workgroups { x, y, z }).collect(),
    }
}

fn job(passes: Vec<Pass>) -> ComputeEvent<Terrain> {
    let mut event = ComputeEvent::<Terrain>::new_named("erode", Workgroups::new(1, 1, 1));
    event.passes = passes;
    event
}

#[test]
fn valid_pass_has_no_defect() {
    let entries = Terrain::entry_points();
    assert_eq!(check_pass(&pass("smooth", &[(1, 2, 3), (4, 5, 6)]), &entries), None);
    assert_eq!(check_pass(&pass("smooth", &[]), &entries), None);
}

#[test]
fn unknown_entry_point_is_a_defect() {
    let entries = Terrain::entry_points();
    assert_eq!(
        check_pass(&pass("blur", &[(1, 1, 1)]), &entries),
        Some(PassDefect::UnknownEntryPoint)
    );
    // the unknown entry point is reported before the empty dispatch
    assert_eq!(
        check_pass(&pass("blur", &[(0, 1, 1)]), &entries),
        Some(PassDefect::UnknownEntryPoint)
    );
    assert_eq!(check_pass(&pass("erode", &[(1, 1, 1)]), &Vec::new()), Some(PassDefect::UnknownEntryPoint));
}

#[test]
fn zero_workgroup_component_is_a_defect() {
    let entries = Terrain::entry_points();
    for zero in [(0, 1, 1), (1, 0, 1), (1, 1, 0), (0, 0, 0)] {
        assert_eq!(check_pass(&pass("erode", &[zero]), &entries), Some(PassDefect::ZeroWorkgroups));
        assert_eq!(
            check_pass(&pass("erode", &[(4, 4, 1), zero, (2, 2, 2)]), &entries),
            Some(PassDefect::ZeroWorkgroups)
        );
    }
}

#[test]
fn pass_with_undeclared_entry_point_is_dropped_and_the_others_run() {
    let passes = vec![
        pass("erode", &[(8, 8, 1)]),
        pass("blur", &[(8, 8, 1)]),
        pass("normals", &[(4, 4, 1)]),
    ];
    let (valid, warnings) = validate_passes(&passes, &Terrain::entry_points());
    assert_eq!(valid, vec![pass("erode", &[(8, 8, 1)]), pass("normals", &[(4, 4, 1)])]);
    assert_eq!(warnings, vec![PassWarning { entry: "blur", defect: PassDefect::UnknownEntryPoint }]);
}

#[test]
fn pass_with_zero_workgroups_is_dropped_and_the_others_run() {
    let passes = vec![
        pass("erode", &[(8, 8, 1), (0, 8, 1)]),
        pass("smooth", &[(8, 8, 1)]),
        pass("normals", &[(4, 4, 0)]),
    ];
    let (valid, warnings) = validate_passes(&passes, &Terrain::entry_points());
    assert_eq!(valid, vec![pass("smooth", &[(8, 8, 1)])]);
    assert_eq!(
        warnings,
        vec![
            PassWarning { entry: "erode", defect: PassDefect::ZeroWorkgroups },
            PassWarning { entry: "normals", defect: PassDefect::ZeroWorkgroups },
        ]
    );
}

#[test]
fn dropping_a_refused_pass_from_the_job_changes_nothing() {
    let with = vec![
        pass("erode", &[(8, 8, 1)]),
        pass("blur", &[(8, 8, 1)]),
        pass("smooth", &[(0, 1, 1)]),
        pass("normals", &[(4, 4, 1)]),
    ];
    let without = vec![pass("erode", &[(8, 8, 1)]), pass("normals", &[(4, 4, 1)])];
    let entries = Terrain::entry_points();
    assert_eq!(validate_passes(&with, &entries).0, validate_passes(&without, &entries).0);
    assert_eq!(validate_passes(&without, &entries).0, without);
}

#[test]
fn first_pass_of_each_entry_point_wins() {
    let passes = vec![
        pass("erode", &[(1, 1, 1)]),
        pass("smooth", &[(2, 2, 2)]),
        pass("erode", &[(3, 3, 3)]),
        pass("smooth", &[(4, 4, 4)]),
        pass("normals", &[(5, 5, 5)]),
        pass("erode", &[(6, 6, 6)]),
    ];
    assert_eq!(
        dedup_passes(&passes),
        vec![
            pass("erode", &[(1, 1, 1)]),
            pass("smooth", &[(2, 2, 2)]),
            pass("normals", &[(5, 5, 5)]),
        ]
    );
    assert_eq!(dedup_passes(&Vec::new()), Vec::new());
}

#[test]
fn passes_are_collected_in_queue_order() {
    let events = vec![
        job(vec![pass("erode", &[(1, 1, 1)]), pass("smooth", &[(2, 2, 2)])]),
        job(vec![]),
        job(vec![pass("normals", &[(3, 3, 3)])]),
    ];
    assert_eq!(
        collect_passes(&events),
        vec![
            pass("erode", &[(1, 1, 1)]),
            pass("smooth", &[(2, 2, 2)]),
            pass("normals", &[(3, 3, 3)]),
        ]
    );
}

#[test]
fn extract_filters_then_dedups_across_jobs() {
    // the first "erode" is refused, so the second one is the first valid
    let events = vec![
        job(vec![pass("erode", &[(0, 1, 1)]), pass("smooth", &[(2, 2, 2)])]),
        job(vec![pass("erode", &[(7, 7, 1)]), pass("smooth", &[(9, 9, 9)])]),
        job(vec![pass("blur", &[(1, 1, 1)]), pass("erode", &[(5, 5, 1)])]),
    ];
    let (render, warnings) = extract_resource(&events, &Vec::new(), &Terrain::entry_points());
    let render = render.unwrap();
    assert_eq!(render.passes, vec![pass("smooth", &[(2, 2, 2)]), pass("erode", &[(7, 7, 1)])]);
    assert_eq!(render.images, Vec::new());
    assert_eq!(
        warnings,
        vec![
            PassWarning { entry: "erode", defect: PassDefect::ZeroWorkgroups },
            PassWarning { entry: "blur", defect: PassDefect::UnknownEntryPoint },
        ]
    );
}

#[test]
fn extract_has_nothing_to_run_without_a_valid_pass() {
    let none: Vec<ComputeEvent<Terrain>> = Vec::new();
    let (render, warnings) = extract_resource(&none, &Vec::new(), &Terrain::entry_points());
    assert!(render.is_none());
    assert!(warnings.is_empty());

    let events = vec![job(vec![pass("blur", &[(1, 1, 1)]), pass("erode", &[(1, 1, 0)])])];
    let (render, warnings) = extract_resource(&events, &Vec::new(), &Terrain::entry_points());
    assert!(render.is_none());
    assert_eq!(warnings.len(), 2);
}

#[test]
fn extract_lays_out_the_images() {
    let images = vec![
        ImageInfo { handle: AssetId::Index(10), width: 8, height: 8, pixel_size: 4 },
        ImageInfo { handle: AssetId::Uuid(11), width: 100, height: 3, pixel_size: 4 },
    ];
    let events = vec![job(vec![pass("erode", &[(1, 1, 1)])])];
    let (render, _) = extract_resource(&events, &images, &Terrain::entry_points());
    assert_eq!(
        render.unwrap().images,
        vec![
            (
                AssetId::Index(10),
                BufferDimensions {
                    width: 8,
                    height: 8,
                    unpadded_bytes_per_row: 32,
                    padded_bytes_per_row: 256,
                }
            ),
            (
                AssetId::Uuid(11),
                BufferDimensions {
                    width: 100,
                    height: 3,
                    unpadded_bytes_per_row: 400,
                    padded_bytes_per_row: 512,
                }
            ),
        ]
    );
    assert_eq!(layout_images(&images).len(), 2);
}

#[test]
fn image_that_is_too_large_is_not_representable() {
    assert!(ImageInfo { handle: AssetId::Index(1), width: 8, height: 8, pixel_size: 4 }.representable());
    assert!(!ImageInfo { handle: AssetId::Index(1), width: usize::MAX, height: 1, pixel_size: 2 }
        .representable());
    assert!(!ImageInfo { handle: AssetId::Index(1), width: 1, height: usize::MAX, pixel_size: 4 }
        .representable());
}
