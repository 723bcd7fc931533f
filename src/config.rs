use vstd::prelude::*;

verus! {

/// The title a window gets when none is configured.
pub open spec fn default_title() -> Seq<char> {
    "Untitled"@
}

/// The window and canvas settings, fixed before the frame loop starts.
/// The logical size is the drawing canvas; the window size is the initial
/// physical size on screen.
pub struct Config {
    pub title: String,
    pub resizeable: bool,
    pub logical_width: u32,
    pub logical_height: u32,
    pub window_width: u32,
    pub window_height: u32,
    /// Ticks per second to aim for; `None` runs uncapped.
    pub target_fps: Option<u32>,
}

/// Collects optional settings; `build` fills in the defaults of the rest.
pub struct ConfigBuilder {
    pub title: Option<String>,
    pub resizeable: Option<bool>,
    pub logical_width: Option<u32>,
    pub logical_height: Option<u32>,
    pub window_width: Option<u32>,
    pub window_height: Option<u32>,
    /// `Some(None)` asks for an uncapped rate.
    pub target_fps: Option<Option<u32>>,
}

/// The defaults: resizeable, a 640×400 canvas in a 1280×800 window, 60
/// ticks per second.
pub open spec fn is_default_config(c: Config) -> bool {
    &&& c.title@ == default_title()
    &&& c.resizeable
    &&& c.logical_width == 640
    &&& c.logical_height == 400
    &&& c.window_width == 1280
    &&& c.window_height == 800
    &&& c.target_fps == Some(60u32)
}

/// Whether two builders hold the same settings, titles compared by their text.
pub open spec fn same_settings(a: ConfigBuilder, b: ConfigBuilder) -> bool {
    &&& a.title is Some <==> b.title is Some
    &&& a.title is Some ==> a.title->0@ == b.title->0@
    &&& a.resizeable == b.resizeable
    &&& a.logical_width == b.logical_width
    &&& a.logical_height == b.logical_height
    &&& a.window_width == b.window_width
    &&& a.window_height == b.window_height
    &&& a.target_fps == b.target_fps
}

impl ConfigBuilder {
    /// Sets the window title.
    pub fn with_title(self, title: &str) -> (r: ConfigBuilder)
        ensures
            r.title is Some && r.title->0@ == title@,
            same_settings(r, ConfigBuilder { title: r.title, ..self }),
    {
        ConfigBuilder { title: Some(title.to_owned()), ..self }
    }

    /// Sets the target tick rate.
    pub fn with_target_fps(self, fps: u32) -> (r: ConfigBuilder)
        ensures
            same_settings(r, ConfigBuilder { target_fps: Some(Some(fps)), ..self }),
    {
        ConfigBuilder { target_fps: Some(Some(fps)), ..self }
    }

    /// Asks for ticks as fast as presentation allows, with no target rate.
    pub fn with_uncapped_fps(self) -> (r: ConfigBuilder)
        ensures
            same_settings(r, ConfigBuilder { target_fps: Some(None), ..self }),
    {
        ConfigBuilder { target_fps: Some(None), ..self }
    }

    /// Sets the initial window (physical) size, width first.
    pub fn set_window_size(self, size: (u32, u32)) -> (r: ConfigBuilder)
        ensures
            same_settings(
                r,
                ConfigBuilder { window_width: Some(size.0), window_height: Some(size.1), ..self },
            ),
    {
        ConfigBuilder { window_width: Some(size.0), window_height: Some(size.1), ..self }
    }

    /// Sets the logical (canvas) size, width first.
    pub fn set_logical_size(self, size: (u32, u32)) -> (r: ConfigBuilder)
        ensures
            same_settings(
                r,
                ConfigBuilder { logical_width: Some(size.0), logical_height: Some(size.1), ..self },
            ),
    {
        ConfigBuilder { logical_width: Some(size.0), logical_height: Some(size.1), ..self }
    }

    /// Sets whether the window can be resized.
    pub fn set_resizeable(self, resizeable: bool) -> (r: ConfigBuilder)
        ensures
            same_settings(r, ConfigBuilder { resizeable: Some(resizeable), ..self }),
    {
        ConfigBuilder { resizeable: Some(resizeable), ..self }
    }

    /// The configuration: each setting that was given, the default for each
    /// that was not.
    pub fn build(self) -> (r: Config)
        ensures
            r.title@ == (match self.title {
                Some(t) => t@,
                None => default_title(),
            }),
            r.resizeable == (match self.resizeable {
                Some(v) => v,
                None => true,
            }),
            r.logical_width == (match self.logical_width {
                Some(v) => v,
                None => 640u32,
            }),
            r.logical_height == (match self.logical_height {
                Some(v) => v,
                None => 400u32,
            }),
            r.window_width == (match self.window_width {
                Some(v) => v,
                None => 1280u32,
            }),
            r.window_height == (match self.window_height {
                Some(v) => v,
                None => 800u32,
            }),
            r.target_fps == (match self.target_fps {
                Some(v) => v,
                None => Some(60u32),
            }),
    {
        let title = match self.title {
            Some(t) => t,
            None => "Untitled".to_owned(),
        };
        Config {
            title,
            resizeable: match self.resizeable {
                Some(v) => v,
                None => true,
            },
            logical_width: match self.logical_width {
                Some(v) => v,
                None => 640,
            },
            logical_height: match self.logical_height {
                Some(v) => v,
                None => 400,
            },
            window_width: match self.window_width {
                Some(v) => v,
                None => 1280,
            },
            window_height: match self.window_height {
                Some(v) => v,
                None => 800,
            },
            target_fps: match self.target_fps {
                Some(v) => v,
                None => Some(60),
            },
        }
    }
}

impl Config {
    /// A builder with no setting given.
    pub fn builder() -> (r: ConfigBuilder)
        ensures
            r.title is None,
            r.resizeable is None,
            r.logical_width is None,
            r.logical_height is None,
            r.window_width is None,
            r.window_height is None,
            r.target_fps is None,
    {
        ConfigBuilder {
            logical_height: None,
            logical_width: None,
            window_height: None,
            window_width: None,
            resizeable: None,
            title: None,
            target_fps: None,
        }
    }
}

impl Default for Config {
    /// The default configuration.
    fn default() -> (r: Config)
        ensures
            is_default_config(r),
    {
        Config {
            title: "Untitled".to_owned(),
            resizeable: true,
            logical_width: 640,
            logical_height: 400,
            window_width: 1280,
            window_height: 800,
            target_fps: Some(60),
        }
    }
}

} // verus!
