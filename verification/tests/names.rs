use raytracer::colormap::{arrange, colormap, load_colormap, preset, Colormap, Preset};
use raytracer::scene::{is_supported_extension, same_text, surface_kind, SurfaceKind};
use raytracer::vop::VolumeMap;

#[test]
fn texts_are_compared_whole() {
    assert!(same_text("", ""));
    assert!(same_text("plane", "plane"));
    assert!(!same_text("plane", "planes"));
    assert!(!same_text("plane", "plan"));
    assert!(!same_text("plane", "plank"));
    assert!(same_text("grün", "grün"));
    assert!(!same_text("grün", "grun"));
}

#[test]
fn kinds_of_surfaces() {
    assert_eq!(surface_kind("checkerboard"), Some(SurfaceKind::Checkerboard));
    assert_eq!(surface_kind("rectangle"), Some(SurfaceKind::Rectangle));
    assert_eq!(surface_kind("texturedrectangle"), Some(SurfaceKind::TexturedRectangle));
    assert_eq!(surface_kind("plane"), Some(SurfaceKind::Plane));
    assert_eq!(surface_kind("mandelbrotplane"), Some(SurfaceKind::MandelbrotPlane));
    assert_eq!(surface_kind("sphere"), Some(SurfaceKind::Sphere));
    assert_eq!(surface_kind("paraboloid"), Some(SurfaceKind::Paraboloid));
    assert_eq!(surface_kind("cylinder"), Some(SurfaceKind::Cylinder));
}

#[test]
fn unknown_kinds_of_surfaces() {
    assert_eq!(surface_kind(""), None);
    assert_eq!(surface_kind("Sphere"), None);
    assert_eq!(surface_kind("sphere "), None);
    assert_eq!(surface_kind("torus"), None);
    assert_eq!(surface_kind("mandelbrotsphere"), None);
}

#[test]
fn output_formats() {
    for extension in ["jpg", "jpeg", "tif", "tiff"] {
        assert!(is_supported_extension(extension));
    }
    for extension in ["", "png", "JPG", "jpe", "tifff", ".jpg"] {
        assert!(!is_supported_extension(extension));
    }
}

const NAMES: [(&str, Preset); 38] = [
    ("blues", Preset::Blues),
    ("br_bg", Preset::BrBg),
    ("bu_gn", Preset::BuGn),
    ("bu_pu", Preset::BuPu),
    ("cividis", Preset::Cividis),
    ("cool", Preset::Cool),
    ("cubehelix_default", Preset::CubehelixDefault),
    ("gn_bu", Preset::GnBu),
    ("greens", Preset::Greens),
    ("greys", Preset::Greys),
    ("inferno", Preset::Inferno),
    ("magma", Preset::Magma),
    ("or_rd", Preset::OrRd),
    ("oranges", Preset::Oranges),
    ("pi_yg", Preset::PiYg),
    ("plasma", Preset::Plasma),
    ("pr_gn", Preset::PrGn),
    ("pu_bu", Preset::PuBu),
    ("pu_bu_gn", Preset::PuBuGn),
    ("pu_or", Preset::PuOr),
    ("pu_rd", Preset::PuRd),
    ("purples", Preset::Purples),
    ("rainbow", Preset::Rainbow),
    ("rd_bu", Preset::RdBu),
    ("rd_gy", Preset::RdGy),
    ("rd_pu", Preset::RdPu),
    ("rd_yl_bu", Preset::RdYlBu),
    ("rd_yl_gn", Preset::RdYlGn),
    ("reds", Preset::Reds),
    ("sinebow", Preset::Sinebow),
    ("spectral", Preset::Spectral),
    ("turbo", Preset::Turbo),
    ("viridis", Preset::Viridis),
    ("warm", Preset::Warm),
    ("yl_gn", Preset::YlGn),
    ("yl_gn_bu", Preset::YlGnBu),
    ("yl_or_br", Preset::YlOrBr),
    ("yl_or_rd", Preset::YlOrRd),
];

#[test]
fn every_gradient_has_its_name() {
    for (name, expected) in NAMES {
        assert_eq!(preset(name), Some(expected));
        assert_eq!(colormap(name), Some(Colormap { preset: expected, reversed: false }));
        let reversed = format!("{}_r", name);
        assert_eq!(preset(&reversed), None);
        assert_eq!(colormap(&reversed), Some(Colormap { preset: expected, reversed: true }));
    }
}

#[test]
fn unknown_gradients() {
    for name in ["", "_r", "r", "jet", "viridis_", "viridis_r_r", "Viridis", "pu", "viridisr"] {
        assert_eq!(colormap(name), None);
    }
    // "pu_r" asks for the reverse of "pu", which is not a gradient
    assert_eq!(colormap("pu_r"), None);
}

#[test]
fn colours_are_turned_on_request() {
    let colours = vec![[1, 1, 1], [2, 2, 2], [3, 3, 3]];
    assert_eq!(arrange(colours.clone(), false), colours);
    assert_eq!(arrange(colours, true), vec![[3, 3, 3], [2, 2, 2], [1, 1, 1]]);
    assert!(arrange(Vec::new(), true).is_empty());
    assert_eq!(arrange(vec![[9, 8, 7]], true), vec![[9, 8, 7]]);
}

fn ramp(preset: Preset, n: usize) -> Vec<[u8; 3]> {
    let base = if preset == Preset::Magma { 100 } else { 0 };
    (0..n).map(|k| [base + k as u8, 0, 0]).collect()
}

#[test]
fn colormaps_are_loaded_by_name() {
    assert_eq!(
        load_colormap("viridis", 3, ramp),
        Some(vec![[0, 0, 0], [1, 0, 0], [2, 0, 0]])
    );
    assert_eq!(
        load_colormap("magma_r", 3, ramp),
        Some(vec![[102, 0, 0], [101, 0, 0], [100, 0, 0]])
    );
    assert_eq!(load_colormap("magma", 0, ramp), Some(vec![]));
}

#[test]
fn unknown_colormaps_are_not_loaded() {
    let never = |_: Preset, _: usize| -> Vec<[u8; 3]> { panic!("asked for an unknown gradient") };
    assert_eq!(load_colormap("parula", 10, never), None);
    assert_eq!(load_colormap("parula_r", 10, never), None);
}

#[test]
fn media_keep_their_index() {
    let mut media = VolumeMap::new();
    assert_eq!(media.len(), 0);
    assert_eq!(media.get("air"), None);
    assert_eq!(media.insert("air"), 0);
    assert_eq!(media.insert("glass"), 1);
    assert_eq!(media.insert("colored_air"), 2);
    assert_eq!(media.len(), 3);
    assert_eq!(media.get("air"), Some(0));
    assert_eq!(media.get("glass"), Some(1));
    assert_eq!(media.get("colored_air"), Some(2));
    assert_eq!(media.get("water"), None);
    assert_eq!(media.get("Air"), None);
}

#[test]
fn a_medium_entered_twice_stands_once() {
    let mut media = VolumeMap::new();
    assert_eq!(media.insert("air"), 0);
    assert_eq!(media.insert("glass"), 1);
    assert_eq!(media.insert("air"), 0);
    assert_eq!(media.len(), 2);
    assert_eq!(media.insert(""), 2);
    assert_eq!(media.get(""), Some(2));
}
