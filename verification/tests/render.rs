//! Bounds, glyphs and labels of what is drawn.

use gource::catalog::{Catalog, CatalogLimits};
use gource::glyphs::{glyph_bits, glyph_cell_count, glyph_cells};
use gource::label_selection::{number_place, select_label_indices, LabelBox, LabelCandidate};
use gource::labels::{
    fit_glyphs, label_color, label_glyph_count, label_text, label_vertex_count, LabelBudget,
};
use gource::model::PathId;
use gource::resources::{
    check_device, check_scene, checked_buffer_bytes, grown_capacity, reserve_geometry,
    reserve_items, upload_bytes, validate_required_limits, validate_target_metadata, DeviceLimits,
    RenderExtentError, RenderFault, RenderStats, ResourceLimits, SceneCounts, TargetFormat,
};

#[test]
fn growth_is_geometric_and_capped() {
    assert_eq!(grown_capacity(0, 1, 16).unwrap(), 1);
    assert_eq!(grown_capacity(1, 2, 16).unwrap(), 2);
    assert_eq!(grown_capacity(2, 3, 16).unwrap(), 4);
    assert_eq!(grown_capacity(8, 9, 16).unwrap(), 16);
    assert!(grown_capacity(16, 17, 16).is_err());
}

#[test]
fn bytes_are_checked_without_overflow() {
    assert_eq!(checked_buffer_bytes("x", 3, 4, 4, 16).unwrap(), 12);
    assert!(checked_buffer_bytes("x", 5, 4, 5, 16).is_err());
    assert!(checked_buffer_bytes("x", usize::MAX, 2, usize::MAX, u64::MAX).is_err());
}

#[test]
fn target_metadata_rejects_multisampling_before_encoding() {
    let error = validate_target_metadata(64, 32, TargetFormat::Rgba8Unorm, 4).unwrap_err();
    assert!(matches!(
        error,
        RenderFault::UnsupportedSampleCount {
            expected: 1,
            actual: 4
        }
    ));
}

#[test]
fn target_metadata_accepts_single_sample_rgba8() {
    assert!(validate_target_metadata(64, 32, TargetFormat::Rgba8Unorm, 1).is_ok());
}

#[test]
fn targets_without_extent_or_format_are_refused() {
    assert_eq!(
        validate_target_metadata(0, 32, TargetFormat::Rgba8Unorm, 1),
        Err(RenderFault::ZeroExtent { width: 0, height: 32 })
    );
    assert_eq!(
        validate_target_metadata(1, 1, TargetFormat::Other, 1),
        Err(RenderFault::UnsupportedTargetFormat)
    );
}

#[test]
fn errors_render_their_numbers() {
    let error = grown_capacity(16, 17, 16).unwrap_err();
    assert_eq!(
        error.render(),
        "resource limit exceeded for geometry items: requested 17, maximum 16"
    );
    let extent = RenderExtentError { width: 0, height: 7 };
    assert_eq!(
        extent.render(),
        "render target extent 0x7 is invalid; width and height must both be non-zero and zoom must be finite"
    );
}

#[test]
fn geometry_grows_within_items_and_bytes() {
    assert_eq!(reserve_geometry("g", 4, 4, 1, 8, 100, 1000).unwrap(), 8);
    assert_eq!(reserve_geometry("g", 4, 4, 1, 8, 100, 48).unwrap(), 6);
    assert_eq!(reserve_geometry("g", 4, 9, 1, 8, 100, 1000).unwrap(), 9);
    assert!(reserve_geometry("g", 4, 4, 1, 8, 4, 1000).is_err());
    assert!(reserve_geometry("g", usize::MAX, 4, 1, 8, 4, 1000).is_err());
    assert_eq!(reserve_items("labels", 2, 3, 10).unwrap(), 4);
    assert_eq!(reserve_items("labels", 32, 1, 16).unwrap(), 32);
    assert_eq!(reserve_geometry("g", 0, 32, 1, 8, 16, 1000).unwrap(), 32);
    assert_eq!(grown_capacity(32, 1, 16).unwrap(), 16);
    assert_eq!(grown_capacity(8, 1, 16).unwrap(), 8);
    assert_eq!(reserve_items("labels", 2, 11, 10).unwrap_err().requested, 11);
}

fn counts() -> SceneCounts {
    SceneCounts {
        branches: 1,
        actions: 1,
        directories: 1,
        files: 1,
        contributors: 1,
        labels: 1,
    }
}

#[test]
fn scenes_beyond_a_bound_are_refused_by_name() {
    let limits = ResourceLimits {
        max_buffer_bytes: 1 << 20,
        max_triangle_vertices: 6,
        max_node_instances: 2,
        max_label_vertices: 100,
        max_label_glyphs: 10,
        max_labels: 1,
    };
    assert!(check_scene(&counts(), &limits).is_ok());
    let refused = |counts: SceneCounts| check_scene(&counts, &limits).unwrap_err().resource;
    assert_eq!(refused(SceneCounts { branches: 2, ..counts() }), "branches");
    assert_eq!(refused(SceneCounts { actions: 3, ..counts() }), "actions");
    assert_eq!(refused(SceneCounts { files: 2, ..counts() }), "nodes");
    assert_eq!(refused(SceneCounts { contributors: 3, ..counts() }), "contributors");
    assert_eq!(refused(SceneCounts { labels: 2, ..counts() }), "labels");
    assert_eq!(ResourceLimits::default().max_labels, 100_000);
}

fn device() -> DeviceLimits {
    DeviceLimits {
        max_buffer_size: 1024,
        max_uniform_buffer_binding_size: 64,
        max_storage_buffer_binding_size: 64,
        max_vertex_buffers: 2,
        max_vertex_attributes: 6,
    }
}

#[test]
fn devices_must_reach_every_limit() {
    assert!(check_device(&device()).is_ok());
    assert_eq!(
        check_device(&DeviceLimits { max_vertex_buffers: 1, ..device() }),
        Err(RenderFault::UnsupportedCapabilities { required: 2, available: 1 })
    );
    assert_eq!(
        check_device(&DeviceLimits { max_vertex_attributes: 5, ..device() }),
        Err(RenderFault::UnsupportedVertexAttributes { required: 6, available: 5 })
    );
    assert_eq!(
        check_device(&DeviceLimits { max_uniform_buffer_binding_size: 63, ..device() }),
        Err(RenderFault::UnsupportedUniformLimit { required: 64, available: 63 })
    );
    assert!(validate_required_limits(&device(), &device()).is_ok());
    let more = DeviceLimits { max_storage_buffer_binding_size: 65, ..device() };
    let missing = validate_required_limits(&more, &device()).unwrap_err();
    assert_eq!(
        (missing.capability, missing.required, missing.available),
        ("max_storage_buffer_binding_size", 65, 64)
    );
}

#[test]
fn uploads_obey_scene_and_device() {
    assert_eq!(upload_bytes("u", 0, 8, 10, 100, 100), Ok(None));
    assert_eq!(upload_bytes("u", 2, 8, 10, 100, 100), Ok(Some(16)));
    assert_eq!(
        upload_bytes("u", 2, 8, 10, 100, 15),
        Err(RenderFault::DeviceBufferLimit { resource: "u", requested: 16, maximum: 15 })
    );
    assert!(matches!(
        upload_bytes("u", 11, 8, 10, 100, 100),
        Err(RenderFault::ResourceLimit(_))
    ));
}

#[test]
fn statistics_add_up() {
    let stats = RenderStats {
        branch_vertices: 6,
        action_vertices: 3,
        node_instances: 2,
        label_vertices: 12,
        ..RenderStats::default()
    };
    assert_eq!(stats.total_vertices(), 21);
    let encoded = stats.encoded();
    assert_eq!(encoded.bytes_uploaded, 9 * 24 + 2 * 48 + 12 * 24);
    assert_eq!(encoded.draw_calls, 4);
}

#[test]
fn glyphs_fill_their_cells() {
    assert_eq!(glyph_bits(' '), 0);
    assert_eq!(glyph_bits('é'), glyph_bits('\u{7f}'));
    assert!(glyph_bits('a') != glyph_bits('A'));
    // A bar of five cells in the middle row.
    assert_eq!(glyph_cells(glyph_bits('-')), (0..5).map(|column| (3, column)).collect::<Vec<_>>());
    assert_eq!(glyph_cells(glyph_bits('/'))[0], (0, 4));
    for character in ' '..='~' {
        let bits = glyph_bits(character);
        assert_eq!(glyph_cell_count(bits), bits.count_ones() as usize);
        assert_eq!(glyph_cells(bits).len(), glyph_cell_count(bits));
    }
}

#[test]
fn label_budgets_cut_glyphs() {
    assert_eq!(label_glyph_count("abc", 2), 2);
    assert_eq!(label_glyph_count(&"x".repeat(300), 400), 256);
    assert_eq!(label_vertex_count("--", 1), 30);
    assert_eq!(label_vertex_count("--", 5), 60);
    assert_eq!(fit_glyphs("---", 3, 60), 2);
    assert_eq!(fit_glyphs("---", 1, 60), 1);
    assert_eq!(fit_glyphs("---", 3, 29), 0);
}

#[test]
fn labels_share_their_budget() {
    let limits = ResourceLimits {
        max_label_glyphs: 3,
        max_label_vertices: 1000,
        ..ResourceLimits::default()
    };
    let mut budget = LabelBudget::new(limits);
    let room = budget.room("--", 0).unwrap().expect("room");
    assert_eq!((room.glyphs, room.vertices, room.capacity), (2, 60, 64));
    budget.drawn(room.glyphs, room.vertices);
    let rest = budget.room("--", 64).unwrap().expect("room");
    assert_eq!(rest.glyphs, 1);
    budget.drawn(rest.glyphs, rest.vertices);
    assert!(budget.room("--", 128).unwrap().is_none());
    assert_eq!((budget.label_glyphs, budget.visible_labels), (3, 2));
}

#[test]
fn unicode_uses_visible_fallback_and_budget_caps_work() {
    // Every character that is not known shows the hollow box.
    assert_eq!(label_glyph_count("é", 1), 1);
    assert!(label_vertex_count("é", 1) >= 6);
    let long = "ABCDEFGHIJKLMNOPQRSTUVWXYZ";
    assert_eq!(label_glyph_count(long, 3), 3);
    assert_eq!(
        label_vertex_count(long, 3),
        label_vertex_count("A", 1) + label_vertex_count("B", 1) + label_vertex_count("C", 1)
    );
}

fn label(priority: u32, stable_key: u64, text: &str) -> LabelCandidate {
    LabelCandidate {
        priority,
        score_bits: 1.0_f32.to_bits(),
        stable_key,
        text: text.to_owned(),
        on_screen: true,
        bounds: at(0.0),
    }
}

/// The rectangle of a label at some distance from the others.
fn at(x: f32) -> LabelBox {
    let place = |side: f32| number_place(side.to_bits());
    LabelBox {
        left: place(x - 0.05),
        bottom: place(-0.01),
        right: place(x + 0.05 + 0.004),
        top: place(0.06),
    }
}

#[test]
fn labels_are_order_independent_and_budgeted() {
    let mut candidates = vec![label(1, 4, "late"), label(2, 2, "high")];
    let first = select_label_indices(&candidates, 1);
    candidates.swap(0, 1);
    let second = select_label_indices(&candidates, 1);
    assert_eq!(candidates[second[0]].stable_key, 2);
    assert_eq!(first.len(), second.len());
    let overlap = select_label_indices(&candidates, 2);
    assert_eq!(overlap.len(), 1);
    assert_eq!(candidates[overlap[0]].stable_key, 2);
}

fn apart(labels: Vec<LabelCandidate>) -> Vec<LabelCandidate> {
    let spread = |(place, label): (usize, LabelCandidate)| LabelCandidate {
        bounds: at(place as f32 - 2.0),
        ..label
    };
    labels.into_iter().enumerate().map(spread).collect()
}

#[test]
fn equal_labels_are_ordered_by_text_and_place() {
    let labels = apart(vec![
        label(1, 1, "b"),
        label(1, 1, "a"),
        label(1, 1, "a"),
        label(1, 0, "z"),
    ]);
    assert_eq!(select_label_indices(&labels, 9), vec![3, 1, 2, 0]);
    assert_eq!(select_label_indices(&labels, 2), vec![3, 1]);
    assert!(select_label_indices(&labels, 0).is_empty());
    let brighter = LabelCandidate { score_bits: 0x3f80_0001, ..label(1, 9, "q") };
    let labels = apart(vec![label(1, 1, "a"), brighter]);
    assert_eq!(select_label_indices(&labels, 9), vec![1, 0]);
}

#[test]
fn labels_that_show_nothing_are_left_out() {
    let dark = LabelCandidate { score_bits: 0, ..label(9, 0, "dark") };
    let away = LabelCandidate { on_screen: false, ..label(8, 0, "away") };
    assert_eq!(select_label_indices(&vec![dark, away, label(1, 1, "a")], 3), vec![2]);
}

#[test]
fn places_of_numbers_are_ordered_as_the_numbers_are() {
    let numbers = [f32::NEG_INFINITY, -2.0, -1.5, -f32::MIN_POSITIVE, 0.0, 0.5, 3.0, f32::INFINITY];
    for pair in numbers.windows(2) {
        assert!(number_place(pair[0].to_bits()) < number_place(pair[1].to_bits()));
    }
    assert_eq!(number_place((-0.0_f32).to_bits()), number_place(0.0_f32.to_bits()));
}

#[test]
fn printable_characters_have_glyphs_of_their_own() {
    let glyphs: Vec<u64> = (' '..='~').map(glyph_bits).collect();
    let fallback = glyph_bits('\u{e9}');
    assert_ne!(fallback, 0);
    for (place, bits) in glyphs.iter().enumerate() {
        assert!(*bits < 1 << 35);
        assert_ne!(*bits, fallback);
        assert_eq!(*bits == 0, place == 0);
        assert!(!glyphs[..place].contains(bits));
    }
}

#[test]
fn label_texts_come_from_the_label_or_the_catalog() {
    let mut catalog = Catalog::with_limits(CatalogLimits {
        path_bytes: 100,
        contributor_bytes: 100,
        path_components: 10,
        max_paths: 10,
        max_contributors: 10,
    });
    let path = gource::model::RepositoryPath::parse_with_limits("src/a.rs", 100, 10).unwrap();
    let id = catalog.intern_path(&path).unwrap();
    assert_eq!(label_text(&catalog, id, ""), "src/a.rs");
    assert_eq!(label_text(&catalog, id, "own"), "own");
    assert_eq!(label_text(&catalog, PathId::new(7).unwrap(), ""), "");
    assert_eq!(label_text(&catalog, id, &"y".repeat(400)).len(), 256);
}

#[test]
fn label_colours_are_stable_per_key() {
    let palette = [
        [236, 243, 255],
        [255, 218, 145],
        [156, 224, 255],
        [205, 190, 255],
        [168, 239, 191],
        [255, 181, 204],
    ];
    for key in [0u64, 1, 7, u64::MAX] {
        let mixed = key.wrapping_mul(0x9E37_79B9_7F4A_7C15).rotate_left(17);
        assert_eq!(label_color(key), palette[(mixed % 6) as usize]);
    }
}
