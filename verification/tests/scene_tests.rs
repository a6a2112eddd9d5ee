use tile_render::model::RenderLayer;
use tile_render::scene::LayerRecord;
use tile_render::scene::build_layer_groups;
use tile_render::scene::cell_position;
use tile_render::scene::tile_source_rect;
use tile_render::urect::URect;
use tile_render::vec2::IVec2;

fn record(name: &str, is_actor_marker: bool, merge_with_prev: bool) -> LayerRecord {
    LayerRecord {
        is_actor_marker,
        merge_with_prev,
        layer: RenderLayer { name: name.to_string(), width: 0, height: 0, tiles: vec![] },
    }
}

fn names(groups: &[Vec<RenderLayer>]) -> Vec<Vec<String>> {
    groups.iter().map(|g| g.iter().map(|l| l.name.clone()).collect()).collect()
}

#[test]
fn grouping_follows_the_merge_flags() {
    let records = vec![
        record("ground", false, false),
        record("walls", false, true),
        record("roofs", false, false),
        record("Actors", true, false),
        record("overlay", false, true),
    ];
    let (groups, actor_layer) = build_layer_groups(records);
    assert_eq!(
        names(&groups),
        vec![
            Vec::<String>::new(),
            vec!["ground".to_string(), "walls".to_string()],
            vec!["roofs".to_string(), "overlay".to_string()],
        ]
    );
    assert_eq!(actor_layer, Some(3));
}

#[test]
fn without_a_marker_there_is_no_actor_layer() {
    let records = vec![record("ground", false, false), record("walls", false, false)];
    let (groups, actor_layer) = build_layer_groups(records);
    assert_eq!(groups.len(), 3);
    assert_eq!(actor_layer, None);
}

#[test]
fn an_empty_map_keeps_the_initial_group() {
    let (groups, actor_layer) = build_layer_groups(vec![]);
    assert_eq!(groups.len(), 1);
    assert!(groups[0].is_empty());
    assert_eq!(actor_layer, None);
}

#[test]
fn the_marker_never_joins_a_group() {
    // A layer merging after the marker joins the group the marker
    // interrupted, and the marker's index counts every record before it.
    let records = vec![
        record("ground", false, false),
        record("Actors", true, false),
        record("walls", false, true),
    ];
    let (groups, actor_layer) = build_layer_groups(records);
    assert_eq!(
        names(&groups),
        vec![Vec::<String>::new(), vec!["ground".to_string(), "walls".to_string()]]
    );
    assert_eq!(actor_layer, Some(1));
}

#[test]
fn tile_source_rect_walks_the_atlas_row_major() {
    assert_eq!(tile_source_rect(0, 4, 32, 32), URect::new(0, 0, 32, 32));
    assert_eq!(tile_source_rect(3, 4, 32, 32), URect::new(96, 0, 32, 32));
    assert_eq!(tile_source_rect(5, 4, 32, 32), URect::new(32, 32, 32, 32));
    assert_eq!(tile_source_rect(7, 4, 16, 24), URect::new(48, 24, 16, 24));
}

#[test]
fn cell_position_walks_the_layer_row_major() {
    assert_eq!(cell_position(0, 3, 32, 32), IVec2 { x: 0, y: 0 });
    assert_eq!(cell_position(2, 3, 32, 32), IVec2 { x: 64, y: 0 });
    assert_eq!(cell_position(4, 3, 32, 32), IVec2 { x: 32, y: 32 });
}
