use maplibre::buffer_pool::{BufferPool, FeatureStyle};
use maplibre::coords::{BoundingBox, TileCoordinate, ViewRegion, MAX_ZOOM};
use maplibre::stages::{register_render_stages, RenderStageLabel, Schedule, Stage, QueueStage};
use maplibre::style::{default_color, Color, Style, StyleLayer};
use maplibre::tile_cache::{LayerTessellateMessage, TileCache};
use maplibre::upload_stage::{feature_metadata, CameraView, Eventually, RenderState, TileViewPattern, UploadStage};
use maplibre::{MapBuildError, MapBuilder, RendererSettings, Scheduler, WgpuSettings};

fn tile(x: u32, y: u32, z: u8) -> TileCoordinate {
    TileCoordinate { x, y, z }
}

fn tessellated(c: TileCoordinate, name: &str, counts: Vec<u32>) -> LayerTessellateMessage {
    LayerTessellateMessage::TessellatedLayer {
        coords: c,
        layer_name: name.to_string(),
        buffer: vec![1, 2, 3, 4],
        feature_indices: counts,
    }
}

fn unavailable(c: TileCoordinate, name: &str) -> LayerTessellateMessage {
    LayerTessellateMessage::UnavailableLayer { coords: c, layer_name: name.to_string() }
}

fn water_style(color: Option<Color>) -> Style {
    Style {
        layers: vec![StyleLayer {
            index: 0,
            id: "water-fill".to_string(),
            source_layer: Some("water".to_string()),
            color,
        }],
    }
}

fn fresh_state() -> RenderState {
    RenderState {
        buffer_pool: Eventually::Initialized(BufferPool::new()),
        tile_view_pattern: Eventually::Initialized(TileViewPattern::new()),
    }
}

fn pool_of(state: &RenderState) -> &BufferPool {
    match &state.buffer_pool {
        Eventually::Initialized(p) => p,
        _ => panic!("pool not initialized"),
    }
}

fn loaded(pool: &BufferPool, c: TileCoordinate) -> Vec<String> {
    pool.get_loaded_layers_at(&c)
}

#[test]
fn view_region_empty_for_non_invertible_camera() {
    let r = ViewRegion::new(None, 0, 3, 3);
    assert!(r.tiles.is_empty());
    assert_eq!(r.zoom, 3);
}

#[test]
fn view_region_empty_for_zero_area_box() {
    let flat = BoundingBox { min_x: 0, min_y: 0, max_x: 4, max_y: 0 };
    assert!(ViewRegion::new(Some(flat), 1, 2, 2).tiles.is_empty());
    let inverted = BoundingBox { min_x: 3, min_y: 0, max_x: 1, max_y: 2 };
    assert!(ViewRegion::new(Some(inverted), 0, 2, 2).tiles.is_empty());
}

#[test]
fn view_region_row_major_and_clipped() {
    let b = BoundingBox { min_x: 0, min_y: 0, max_x: 2, max_y: 1 };
    let r = ViewRegion::new(Some(b), 0, 1, 1);
    assert_eq!(r.tiles, vec![tile(0, 0, 1), tile(1, 0, 1)]);
    // padding is clipped to the grid, 4 tiles a side at level 2
    let b = BoundingBox { min_x: -5, min_y: 3, max_x: 1, max_y: 9 };
    let r = ViewRegion::new(Some(b), 1, 2, 2);
    assert_eq!(r.tiles, vec![tile(0, 2, 2), tile(1, 2, 2), tile(0, 3, 2), tile(1, 3, 2)]);
}

#[test]
fn view_region_level_clipped_to_max_zoom() {
    let b = BoundingBox { min_x: 7, min_y: 7, max_x: 8, max_y: 8 };
    let r = ViewRegion::new(Some(b), 0, 30, 30);
    assert_eq!(r.tiles, vec![tile(7, 7, MAX_ZOOM)]);
}

#[test]
fn cache_insert_then_query_yields_result() {
    let mut cache = TileCache::new(4);
    let t1 = tile(1, 1, 3);
    assert!(cache.iter_tessellated_layers_at(&t1).is_none());
    cache.insert(tessellated(t1, "water", vec![3]));
    let got = cache.iter_tessellated_layers_at(&t1).unwrap();
    assert_eq!(got.len(), 1);
    assert_eq!(got[0].layer_name(), "water");
    assert_eq!(got[0].coords(), t1);
}

#[test]
fn cache_replaces_result_of_same_layer() {
    let mut cache = TileCache::new(4);
    let t1 = tile(1, 1, 3);
    cache.insert(unavailable(t1, "water"));
    cache.insert(tessellated(t1, "roads", vec![1]));
    cache.insert(tessellated(t1, "water", vec![2]));
    let got = cache.iter_tessellated_layers_at(&t1).unwrap();
    assert_eq!(got.len(), 2);
    assert!(matches!(got[0], LayerTessellateMessage::TessellatedLayer { .. }));
    assert_eq!(got[0].layer_name(), "water");
    assert_eq!(got[1].layer_name(), "roads");
}

#[test]
fn cache_evicts_oldest_tile_first() {
    let mut cache = TileCache::new(2);
    let (a, b, c) = (tile(0, 0, 1), tile(1, 0, 1), tile(0, 1, 1));
    cache.insert(tessellated(a, "water", vec![1]));
    cache.insert(tessellated(b, "water", vec![1]));
    cache.insert(tessellated(c, "water", vec![1]));
    assert!(cache.iter_tessellated_layers_at(&a).is_none());
    assert!(cache.iter_tessellated_layers_at(&b).is_some());
    assert!(cache.iter_tessellated_layers_at(&c).is_some());
}

#[test]
fn cache_of_zero_capacity_holds_nothing() {
    let mut cache = TileCache::new(0);
    let a = tile(0, 0, 1);
    cache.insert(tessellated(a, "water", vec![1]));
    assert!(cache.iter_tessellated_layers_at(&a).is_none());
}

#[test]
fn feature_metadata_replicates_single_color() {
    let c0 = Color { r: 10, g: 20, b: 30, a: 255 };
    let m = feature_metadata(&vec![2, 3], c0).unwrap();
    assert_eq!(m.len(), 5);
    assert_eq!(m, vec![FeatureStyle { color: c0 }; 5]);
}

#[test]
fn feature_metadata_of_no_features_is_empty() {
    let c0 = Color { r: 1, g: 1, b: 1, a: 1 };
    assert_eq!(feature_metadata(&vec![], c0).unwrap().len(), 0);
    assert_eq!(feature_metadata(&vec![0, 0], c0).unwrap().len(), 0);
}

#[test]
fn pool_allocation_is_idempotent() {
    let mut pool = BufferPool::new();
    let t = tile(2, 2, 2);
    assert!(pool.allocate_layer_geometry(t, "water".to_string(), 0, vec![9], vec![]));
    assert!(!pool.allocate_layer_geometry(t, "water".to_string(), 1, vec![8], vec![]));
    assert_eq!(pool.entries().len(), 1);
    assert_eq!(pool.entries()[0].buffer, vec![9]);
    assert_eq!(loaded(&pool, t), vec!["water".to_string()]);
    assert!(loaded(&pool, tile(0, 0, 2)).is_empty());
}

#[test]
fn pool_releases_tiles_out_of_region() {
    let mut pool = BufferPool::new();
    let (a, b) = (tile(0, 0, 1), tile(1, 1, 1));
    pool.allocate_layer_geometry(a, "water".to_string(), 0, vec![], vec![]);
    pool.allocate_layer_geometry(b, "water".to_string(), 0, vec![], vec![]);
    pool.allocate_layer_geometry(a, "roads".to_string(), 1, vec![], vec![]);
    pool.retain_in_region(&ViewRegion { tiles: vec![a], zoom: 1 });
    assert_eq!(pool.entries().len(), 2);
    assert!(loaded(&pool, b).is_empty());
    assert_eq!(loaded(&pool, a), vec!["water".to_string(), "roads".to_string()]);
}

#[test]
fn upload_end_to_end_and_second_run_allocates_nothing() {
    let (t1, t2) = (tile(0, 0, 1), tile(1, 0, 1));
    let mut cache = TileCache::new(8);
    cache.insert(tessellated(t1, "water", vec![2, 3]));
    cache.insert(unavailable(t2, "water"));
    let c0 = Color { r: 0, g: 0, b: 200, a: 255 };
    let style = water_style(Some(c0));
    let region = ViewRegion { tiles: vec![t1, t2], zoom: 1 };
    let mut state = fresh_state();
    let stage = UploadStage;
    stage.upload_tile_geometry(&mut state, &cache, &style, &region);
    let pool = pool_of(&state);
    assert_eq!(loaded(pool, t1), vec!["water".to_string()]);
    assert!(loaded(pool, t2).is_empty());
    assert_eq!(pool.entries().len(), 1);
    let e = &pool.entries()[0];
    assert_eq!(e.buffer, vec![1, 2, 3, 4]);
    assert_eq!(e.feature_metadata, vec![FeatureStyle { color: c0 }; 5]);
    stage.upload_tile_geometry(&mut state, &cache, &style, &region);
    assert_eq!(pool_of(&state).entries().len(), 1);
}

#[test]
fn upload_uses_default_color_without_paint() {
    let t1 = tile(0, 0, 1);
    let mut cache = TileCache::new(8);
    cache.insert(tessellated(t1, "water", vec![1]));
    let mut state = fresh_state();
    UploadStage.upload_tile_geometry(&mut state, &cache, &water_style(None), &ViewRegion { tiles: vec![t1], zoom: 1 });
    assert_eq!(pool_of(&state).entries()[0].feature_metadata, vec![FeatureStyle { color: default_color() }]);
}

#[test]
fn upload_skips_uninitialized_pool() {
    let t1 = tile(0, 0, 1);
    let mut cache = TileCache::new(8);
    cache.insert(tessellated(t1, "water", vec![1]));
    let mut state = RenderState { buffer_pool: Eventually::Initializing, tile_view_pattern: Eventually::Uninitialized };
    UploadStage.upload_tile_geometry(&mut state, &cache, &water_style(None), &ViewRegion { tiles: vec![t1], zoom: 1 });
    assert!(matches!(state.buffer_pool, Eventually::Initializing));
}

#[test]
fn late_tile_out_of_view_is_never_allocated() {
    let (t1, t3) = (tile(0, 0, 1), tile(1, 1, 1));
    let mut cache = TileCache::new(8);
    let style = water_style(None);
    let region = ViewRegion { tiles: vec![t1], zoom: 1 };
    let mut state = fresh_state();
    for _ in 0..3 {
        UploadStage.upload_tile_geometry(&mut state, &cache, &style, &region);
    }
    cache.insert(tessellated(t3, "water", vec![4]));
    assert!(cache.iter_tessellated_layers_at(&t3).is_some());
    for _ in 0..3 {
        UploadStage.upload_tile_geometry(&mut state, &cache, &style, &region);
    }
    assert!(loaded(pool_of(&state), t3).is_empty());
    assert_eq!(pool_of(&state).entries().len(), 0);
}

#[test]
fn stage_run_without_inverse_does_nothing() {
    let mut cache = TileCache::new(8);
    cache.insert(tessellated(tile(0, 0, 1), "water", vec![1]));
    let mut state = fresh_state();
    let camera = CameraView { bounding_box: None, zoom: 1, visible_level: 1 };
    assert!(UploadStage.run(&mut state, &cache, &water_style(None), &camera).is_none());
    assert_eq!(pool_of(&state).entries().len(), 0);
}

#[test]
fn stage_run_uploads_and_builds_pattern() {
    let (t1, t2) = (tile(0, 0, 1), tile(1, 0, 1));
    let mut cache = TileCache::new(8);
    cache.insert(tessellated(t1, "water", vec![1]));
    let mut state = fresh_state();
    let camera = CameraView {
        bounding_box: Some(BoundingBox { min_x: 0, min_y: 0, max_x: 2, max_y: 1 }),
        zoom: 1,
        visible_level: 1,
    };
    let region = UploadStage.run(&mut state, &cache, &water_style(None), &camera).unwrap();
    assert_eq!(region.tiles, vec![t1, t2]);
    assert_eq!(loaded(pool_of(&state), t1), vec!["water".to_string()]);
    match &state.tile_view_pattern {
        Eventually::Initialized(p) => {
            assert_eq!(p.tiles.len(), 2);
            assert!(p.tiles[0].has_geometry);
            assert!(!p.tiles[1].has_geometry);
            assert_eq!(p.zoom, 1);
        }
        _ => panic!("pattern not initialized"),
    }
}

#[test]
fn render_stages_registered_in_frame_order() {
    let mut schedule = Schedule::new();
    register_render_stages(&mut schedule);
    assert_eq!(
        schedule.stage_labels(),
        vec![
            RenderStageLabel::Prepare,
            RenderStageLabel::Queue,
            RenderStageLabel::PhaseSort,
            RenderStageLabel::Render,
            RenderStageLabel::Cleanup
        ]
    );
    assert!(!schedule.add_stage(RenderStageLabel::Queue, Stage::Queue(QueueStage)));
    assert!(!schedule.add_stage(RenderStageLabel::Cleanup, Stage::Queue(QueueStage)));
    assert_eq!(schedule.stage_labels().len(), 5);
}

#[test]
fn build_reports_each_missing_setting() {
    let b: MapBuilder<u8, u16, u32> = MapBuilder::new();
    assert_eq!(b.build().err(), Some(MapBuildError::MissingScheduleMethod));
    let b: MapBuilder<u8, u16, u32> = MapBuilder::new().with_schedule_method(1);
    assert_eq!(b.build().err(), Some(MapBuildError::MissingHttpClient));
    let b: MapBuilder<u8, u16, u32> = MapBuilder::new().with_existing_scheduler(Scheduler::new(1)).with_http_client(2);
    assert_eq!(b.build().err(), Some(MapBuildError::MissingMapWindowConfig));
}

#[test]
fn build_fills_defaults() {
    let m = MapBuilder::new()
        .with_schedule_method(7u16)
        .with_http_client(3u32)
        .with_map_window_config(5u8)
        .build()
        .unwrap();
    assert_eq!(m.scheduler.schedule_method, 7);
    assert_eq!(m.http_client, 3);
    assert_eq!(m.map_window_config, 5);
    assert!(m.style.layers.is_empty());
    assert_eq!(m.wgpu_settings, WgpuSettings { low_power: false, require_hardware: false });
    assert_eq!(m.renderer_settings, RendererSettings { msaa_samples: 4 });
}

#[test]
fn build_prefers_given_scheduler_and_settings() {
    let m = MapBuilder::new()
        .with_schedule_method(7u16)
        .with_existing_scheduler(Scheduler::new(9u16))
        .with_http_client(3u32)
        .with_map_window_config(5u8)
        .with_renderer_settings(RendererSettings { msaa_samples: 1 })
        .with_wgpu_settings(WgpuSettings { low_power: true, require_hardware: true })
        .with_style(water_style(None))
        .build()
        .unwrap();
    assert_eq!(m.scheduler.schedule_method, 9);
    assert_eq!(m.renderer_settings.msaa_samples, 1);
    assert!(m.wgpu_settings.low_power);
    assert_eq!(m.style.layers.len(), 1);
}

#[test]
fn only_first_style_layer_of_a_source_gets_geometry() {
    let t1 = tile(0, 0, 1);
    let mut cache = TileCache::new(8);
    cache.insert(tessellated(t1, "water", vec![2]));
    let red = Color { r: 255, g: 0, b: 0, a: 255 };
    let blue = Color { r: 0, g: 0, b: 255, a: 255 };
    let style = Style {
        layers: vec![
            StyleLayer { index: 0, id: "water-fill".to_string(), source_layer: Some("water".to_string()), color: Some(red) },
            StyleLayer { index: 1, id: "water-line".to_string(), source_layer: Some("water".to_string()), color: Some(blue) },
        ],
    };
    let mut state = fresh_state();
    UploadStage.upload_tile_geometry(&mut state, &cache, &style, &ViewRegion { tiles: vec![t1], zoom: 1 });
    let pool = pool_of(&state);
    assert_eq!(pool.entries().len(), 1);
    assert_eq!(pool.entries()[0].style_layer_index, 0);
    assert_eq!(pool.entries()[0].feature_metadata, vec![FeatureStyle { color: red }; 2]);
}

#[test]
fn upload_appends_in_region_then_paint_order() {
    let (t1, t2) = (tile(0, 0, 1), tile(1, 0, 1));
    let mut cache = TileCache::new(8);
    cache.insert(tessellated(t2, "roads", vec![1]));
    cache.insert(tessellated(t2, "water", vec![1]));
    cache.insert(tessellated(t1, "water", vec![1]));
    let style = Style {
        layers: vec![
            StyleLayer { index: 0, id: "water".to_string(), source_layer: Some("water".to_string()), color: None },
            StyleLayer { index: 1, id: "roads".to_string(), source_layer: Some("roads".to_string()), color: None },
        ],
    };
    let mut state = fresh_state();
    UploadStage.upload_tile_geometry(&mut state, &cache, &style, &ViewRegion { tiles: vec![t1, t2], zoom: 1 });
    let got: Vec<(TileCoordinate, String)> =
        pool_of(&state).entries().iter().map(|e| (e.coords, e.layer_name.clone())).collect();
    assert_eq!(
        got,
        vec![(t1, "water".to_string()), (t2, "water".to_string()), (t2, "roads".to_string())]
    );
}
