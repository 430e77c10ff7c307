use phone_sync_server::imaging::{
    best_image_stream, scale_chain, still_render_plans, tile_grid_filter, FilterPlan, GroupComponent,
    GroupDisposition, ProbeOutput, ProbeStream, StreamGroup, Subcomponent,
};
use phone_sync_server::orientation::{Mirror, Orientation};

fn probe_with_grid() -> ProbeOutput {
    ProbeOutput {
        stream_groups: vec![StreamGroup {
            disposition: GroupDisposition { default: 1 },
            components: vec![GroupComponent {
                width: 4032,
                height: 3024,
                subcomponents: vec![
                    Subcomponent { stream_index: 0, tile_horizontal_offset: 0, tile_vertical_offset: 0 },
                    Subcomponent { stream_index: 1, tile_horizontal_offset: 512, tile_vertical_offset: 0 },
                ],
            }],
        }],
        streams: vec![],
    }
}

fn stream(index: u32, codec_type: &str, width: u32, height: u32, pix_fmt: &str) -> ProbeStream {
    ProbeStream { index, codec_type: codec_type.into(), width, height, pix_fmt: pix_fmt.into() }
}

#[test]
fn tile_grid_graph_uses_the_reported_offsets_and_crops_off_the_padding() {
    let graph = tile_grid_filter(&probe_with_grid(), &Orientation::default(), 512).unwrap();
    assert!(graph.contains("[0:0][0:1]xstack=inputs=2:layout=0_0|512_0"));
    assert!(graph.contains("crop=4032:3024:0:0"));
    assert!(graph.ends_with("force_original_aspect_ratio=decrease[o]"));
}

#[test]
fn a_portrait_photo_is_rotated_before_it_is_scaled() {
    let portrait = Orientation { rotation_ccw: 270, mirror: None };
    let graph = tile_grid_filter(&probe_with_grid(), &portrait, 512).unwrap();
    let rotate = graph.find("transpose=1").unwrap();
    let scale = graph.find("scale=512").unwrap();
    assert!(rotate < scale, "rotation must precede scaling: {graph}");
}

#[test]
fn files_without_a_tile_grid_get_no_graph() {
    let probe = ProbeOutput { stream_groups: vec![], streams: vec![] };
    assert!(tile_grid_filter(&probe, &Orientation::default(), 512).is_none());
}

#[test]
fn the_fallback_stream_pick_skips_grayscale_gain_maps() {
    // The gain map is the largest stream here; the photo must still win.
    let probe = ProbeOutput {
        stream_groups: vec![],
        streams: vec![
            stream(0, "video", 4032, 3024, "gray"),
            stream(1, "video", 1024, 768, "yuvj420p"),
            stream(2, "audio", 0, 0, ""),
        ],
    };
    assert_eq!(best_image_stream(&probe), Some(1));
}

#[test]
fn the_whole_tile_grid_graph_is_exact() {
    let graph = tile_grid_filter(&probe_with_grid(), &Orientation::default(), 512).unwrap();
    assert_eq!(
        graph,
        "[0:0][0:1]xstack=inputs=2:layout=0_0|512_0:fill=black[stitched];[stitched]crop=4032:3024:0:0,\
         scale=512:512:force_original_aspect_ratio=decrease[o]"
    );
}

#[test]
fn the_default_group_is_preferred_over_the_first() {
    let mut probe = probe_with_grid();
    probe.stream_groups[0].disposition.default = 0;
    probe.stream_groups.push(StreamGroup {
        disposition: GroupDisposition { default: 1 },
        components: vec![GroupComponent {
            width: 100,
            height: 50,
            subcomponents: vec![Subcomponent { stream_index: 7, tile_horizontal_offset: 0, tile_vertical_offset: 0 }],
        }],
    });
    let graph = tile_grid_filter(&probe, &Orientation::default(), 64).unwrap();
    assert!(graph.starts_with("[0:7]xstack=inputs=1:layout=0_0"));
    assert!(graph.contains("crop=100:50:0:0"));
}

#[test]
fn the_scale_chain_follows_the_orientation() {
    assert_eq!(scale_chain(&Orientation::default(), 720), "scale=720:720:force_original_aspect_ratio=decrease");
    assert_eq!(
        scale_chain(&Orientation { rotation_ccw: 180, mirror: Some(Mirror::Vertical) }, 10),
        "vflip,hflip,vflip,scale=10:10:force_original_aspect_ratio=decrease"
    );
}

#[test]
fn the_last_of_equally_large_streams_wins_and_none_is_none() {
    let probe = ProbeOutput {
        stream_groups: vec![],
        streams: vec![stream(3, "video", 10, 10, "yuv420p"), stream(4, "video", 10, 10, "yuv420p")],
    };
    assert_eq!(best_image_stream(&probe), Some(4));
    let none = ProbeOutput { stream_groups: vec![], streams: vec![stream(0, "audio", 0, 0, "")] };
    assert_eq!(best_image_stream(&none), None);
}

#[test]
fn still_renders_try_the_grid_then_the_best_stream() {
    let mut probe = probe_with_grid();
    probe.streams = vec![stream(0, "video", 512, 512, "yuv420p"), stream(5, "video", 4032, 3024, "gray10le")];
    let plans = still_render_plans(Some(&probe), &Orientation::default(), 512);
    assert_eq!(plans.len(), 2);
    assert!(matches!(plans[0], FilterPlan::Complex(_)));
    match &plans[1] {
        FilterPlan::Mapped { index, chain } => {
            assert_eq!(*index, 0);
            assert_eq!(chain, "scale=512:512:force_original_aspect_ratio=decrease");
        }
        other => panic!("unexpected {other:?}"),
    }
    let plans = still_render_plans(None, &Orientation::default(), 512);
    assert_eq!(plans.len(), 1);
    assert!(matches!(plans[0], FilterPlan::Default { .. }));
}
