//! Configuration data: the settings the renderer and the pipeline read
//! at startup.  Loading a configuration file is the surrounding
//! application's business; the library only defines the typed settings
//! and their defaults.

use vstd::prelude::*;

verus! {

/// How verbose logging should be.
#[derive(Clone, Copy, Debug, PartialEq, Eq, Structural)]
pub enum LogLevel {
    Error,
    Warn,
    Info,
    Debug,
    Trace,
}

/// Settings for the temperature overlay's shaders.
#[derive(Clone, Debug)]
pub struct Temperature {
    pub vertex_shader: String,
    pub fragment_shader: String,
}

impl Default for Temperature {
    fn default() -> (d: Self)
        ensures
            d.vertex_shader@ == "config/temperature/shader.vert"@,
            d.fragment_shader@ == "config/temperature/shader.frag"@,
    {
        Self {
            vertex_shader: "config/temperature/shader.vert".to_owned(),
            fragment_shader: "config/temperature/shader.frag".to_owned(),
        }
    }
}

/// Renderer settings: shader and stylesheet paths, the cache and style
/// buffer bounds, and tile sizing.
#[derive(Clone, Debug)]
pub struct Renderer {
    pub vertex_shader: String,
    pub fragment_shader: String,
    pub css: String,
    pub max_tiles: usize,
    pub max_features: u64,
    pub tile_size: u32,
    pub msaa_samples: u32,
    pub selection_tags: Vec<String>,
    pub ui_font: String,
    pub temperature: Temperature,
}

impl Default for Renderer {
    fn default() -> (d: Self)
        ensures
            d.vertex_shader@ == "config/shader.vert"@,
            d.fragment_shader@ == "config/shader.frag"@,
            d.css@ == "config/style.css"@,
            d.max_tiles == 200,
            d.max_features == 1000,
            d.tile_size == 384,
            d.msaa_samples == 4,
            d.selection_tags@.len() == 0,
            d.ui_font@ == "config/Ruda-Bold.ttf"@,
    {
        Self {
            vertex_shader: "config/shader.vert".to_owned(),
            fragment_shader: "config/shader.frag".to_owned(),
            css: "config/style.css".to_owned(),
            max_tiles: 200,
            max_features: 1000,
            tile_size: 384,
            msaa_samples: 4,
            selection_tags: Vec::new(),
            ui_font: "config/Ruda-Bold.ttf".to_owned(),
            temperature: Temperature::default(),
        }
    }
}

/// General settings.
#[derive(Clone, Debug)]
pub struct General {
    pub log_level: LogLevel,
    pub display_framerate: bool,
    pub data_root: String,
}

impl Default for General {
    fn default() -> (d: Self)
        ensures
            d.log_level == LogLevel::Warn,
            !d.display_framerate,
            d.data_root@ == ""@,
    {
        Self { log_level: LogLevel::Warn, display_framerate: false, data_root: "".to_owned() }
    }
}

/// The whole configuration.
#[derive(Clone, Debug)]
pub struct Config {
    pub general: General,
    pub renderer: Renderer,
}

impl Config {
    /// The built-in configuration.  Reading and parsing a local
    /// configuration file is the surrounding application's business;
    /// it converts the parsed settings into this type.
    pub fn new() -> (c: Self)
        ensures
            c.general.log_level == LogLevel::Warn,
            c.renderer.max_tiles == 200,
            c.renderer.max_features == 1000,
            c.renderer.tile_size == 384,
    {
        Config::default()
    }
}

impl Default for Config {
    fn default() -> (d: Self)
        ensures
            d.general.log_level == LogLevel::Warn,
            d.renderer.max_tiles == 200,
            d.renderer.max_features == 1000,
            d.renderer.tile_size == 384,
    {
        Self { general: General::default(), renderer: Renderer::default() }
    }
}

} // verus!
