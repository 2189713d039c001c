use osm::config::{Config, General, LogLevel, Renderer, Temperature};

#[test]
fn renderer_defaults() {
    let r = Renderer::default();
    assert_eq!(r.vertex_shader, "config/shader.vert");
    assert_eq!(r.fragment_shader, "config/shader.frag");
    assert_eq!(r.css, "config/style.css");
    assert_eq!(r.max_tiles, 200);
    assert_eq!(r.max_features, 1000);
    assert_eq!(r.tile_size, 384);
    assert_eq!(r.msaa_samples, 4);
    assert!(r.selection_tags.is_empty());
    assert_eq!(r.ui_font, "config/Ruda-Bold.ttf");
}

#[test]
fn temperature_defaults() {
    let t = Temperature::default();
    assert_eq!(t.vertex_shader, "config/temperature/shader.vert");
    assert_eq!(t.fragment_shader, "config/temperature/shader.frag");
}

#[test]
fn general_defaults() {
    let g = General::default();
    assert_eq!(g.log_level, LogLevel::Warn);
    assert!(!g.display_framerate);
    assert!(g.data_root.is_empty());
}

#[test]
fn config_new_is_the_default() {
    let c = Config::new();
    assert_eq!(c.renderer.max_tiles, 200);
    assert_eq!(c.general.log_level, LogLevel::Warn);
}

#[test]
fn config_defaults_compose() {
    let c = Config::default();
    assert_eq!(c.general.log_level, LogLevel::Warn);
    assert_eq!(c.renderer.max_tiles, 200);
}
