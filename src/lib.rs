//! A staged render pipeline for vector-tile maps and the view-driven cache
//! that decides which tessellated geometry is resident on the GPU.
use vstd::prelude::*;

pub mod coords;
pub mod tile_cache;
pub mod style;
pub mod buffer_pool;
pub mod upload_stage;
pub mod stages;

use crate::style::Style;

verus! {

/// Runs the work handed to it by the map, on a thread pool or a
/// cooperative scheduler of the embedder's choice.
#[derive(Debug)]
pub struct Scheduler<SM> {
    pub schedule_method: SM,
}

impl<SM> Scheduler<SM> {
    /// A scheduler that runs work with `schedule_method`.
    pub fn new(schedule_method: SM) -> (r: Scheduler<SM>)
        ensures
            r.schedule_method == schedule_method,
    {
        Scheduler { schedule_method }
    }
}

/// How the GPU adapter is chosen.
#[derive(Clone, Copy, Debug, PartialEq, Eq, Structural)]
pub struct WgpuSettings {
    /// Allow only low-power adapters.
    pub low_power: bool,
    /// Refuse software adapters.
    pub require_hardware: bool,
}

/// How frames are rendered.
#[derive(Clone, Copy, Debug, PartialEq, Eq, Structural)]
pub struct RendererSettings {
    /// Multisample count of the render target.
    pub msaa_samples: u32,
}

impl Default for WgpuSettings {
    fn default() -> (r: WgpuSettings)
        ensures
            r == (WgpuSettings { low_power: false, require_hardware: false }),
    {
        WgpuSettings { low_power: false, require_hardware: false }
    }
}

impl Default for RendererSettings {
    fn default() -> (r: RendererSettings)
        ensures
            r == (RendererSettings { msaa_samples: 4 }),
    {
        RendererSettings { msaa_samples: 4 }
    }
}

/// A setting the map cannot be built without.
#[derive(Clone, Copy, Debug, PartialEq, Eq, Structural)]
pub enum MapBuildError {
    /// Neither a scheduler nor a schedule method was given.
    MissingScheduleMethod,
    MissingHttpClient,
    MissingMapWindowConfig,
}

/// A window that drives a map's event loop.
pub trait Runnable<S> {
    /// Runs the event loop over `map_state`, rendering at most `max_frames`
    /// frames per second where given.
    fn run(self, map_state: S, max_frames: Option<u64>);
}

/// A map ready to run: its state and the window that drives it.
pub struct MapInstance<W, S> {
    pub map_state: S,
    pub window: W,
}

impl<W: Runnable<S>, S> MapInstance<W, S> {
    /// Starts the window's event loop, without a frame limit.
    pub fn run(self) {
        self.run_with_optionally_max_frames(None);
    }

    /// Starts the window's event loop, at most `max_frames` frames per second.
    pub fn run_with_max_frames(self, max_frames: u64) {
        self.run_with_optionally_max_frames(Some(max_frames));
    }

    /// Starts the window's event loop, limited where `max_frames` is given.
    pub fn run_with_optionally_max_frames(self, max_frames: Option<u64>) {
        self.window.run(self.map_state, max_frames);
    }
}

/// The map's configuration, complete, before the renderer is set up.
#[derive(Debug)]
pub struct UninitializedMap<MWC, SM, HC> {
    pub scheduler: Scheduler<SM>,
    pub http_client: HC,
    pub style: Style,
    pub wgpu_settings: WgpuSettings,
    pub renderer_settings: RendererSettings,
    pub map_window_config: MWC,
}

/// Collects the map's settings; `build` checks that none required is missing.
#[derive(Debug)]
pub struct MapBuilder<MWC, SM, HC> {
    pub schedule_method: Option<SM>,
    pub scheduler: Option<Scheduler<SM>>,
    pub http_client: Option<HC>,
    pub style: Option<Style>,
    pub map_window_config: Option<MWC>,
    pub wgpu_settings: Option<WgpuSettings>,
    pub renderer_settings: Option<RendererSettings>,
}

/// The error `build` gives for `b`, if any: a scheduler (or a method to make
/// one) is checked first, then the HTTP client, then the window config.
pub open spec fn build_error<MWC, SM, HC>(b: MapBuilder<MWC, SM, HC>) -> Option<MapBuildError> {
    if b.scheduler is None && b.schedule_method is None {
        Some(MapBuildError::MissingScheduleMethod)
    } else if b.http_client is None {
        Some(MapBuildError::MissingHttpClient)
    } else if b.map_window_config is None {
        Some(MapBuildError::MissingMapWindowConfig)
    } else {
        None
    }
}

impl<MWC, SM, HC> MapBuilder<MWC, SM, HC> {
    /// A builder with nothing set.
    pub fn new() -> (r: Self)
        ensures
            r.schedule_method is None,
            r.scheduler is None,
            r.http_client is None,
            r.style is None,
            r.map_window_config is None,
            r.wgpu_settings is None,
            r.renderer_settings is None,
    {
        MapBuilder {
            schedule_method: None,
            scheduler: None,
            http_client: None,
            style: None,
            map_window_config: None,
            wgpu_settings: None,
            renderer_settings: None,
        }
    }

    pub fn with_map_window_config(self, map_window_config: MWC) -> (r: Self)
        ensures
            r == (MapBuilder { map_window_config: Some(map_window_config), ..self }),
    {
        MapBuilder { map_window_config: Some(map_window_config), ..self }
    }

    pub fn with_renderer_settings(self, renderer_settings: RendererSettings) -> (r: Self)
        ensures
            r == (MapBuilder { renderer_settings: Some(renderer_settings), ..self }),
    {
        MapBuilder { renderer_settings: Some(renderer_settings), ..self }
    }

    pub fn with_wgpu_settings(self, wgpu_settings: WgpuSettings) -> (r: Self)
        ensures
            r == (MapBuilder { wgpu_settings: Some(wgpu_settings), ..self }),
    {
        MapBuilder { wgpu_settings: Some(wgpu_settings), ..self }
    }

    pub fn with_schedule_method(self, schedule_method: SM) -> (r: Self)
        ensures
            r == (MapBuilder { schedule_method: Some(schedule_method), ..self }),
    {
        MapBuilder { schedule_method: Some(schedule_method), ..self }
    }

    pub fn with_http_client(self, http_client: HC) -> (r: Self)
        ensures
            r == (MapBuilder { http_client: Some(http_client), ..self }),
    {
        MapBuilder { http_client: Some(http_client), ..self }
    }

    pub fn with_existing_scheduler(self, scheduler: Scheduler<SM>) -> (r: Self)
        ensures
            r == (MapBuilder { scheduler: Some(scheduler), ..self }),
    {
        MapBuilder { scheduler: Some(scheduler), ..self }
    }

    pub fn with_style(self, style: Style) -> (r: Self)
        ensures
            r == (MapBuilder { style: Some(style), ..self }),
    {
        MapBuilder { style: Some(style), ..self }
    }

    /// Assembles the configuration. A given scheduler wins over a schedule
    /// method; style and settings fall back to their defaults.
    pub fn build(self) -> (r: Result<UninitializedMap<MWC, SM, HC>, MapBuildError>)
        ensures
            build_error(self) matches Some(e) ==> r == Err::<UninitializedMap<MWC, SM, HC>, MapBuildError>(e),
            build_error(self) is None ==> (r matches Ok(m) && {
                &&& Some(m.http_client) == self.http_client
                &&& Some(m.map_window_config) == self.map_window_config
                &&& (self.scheduler matches Some(s) ==> m.scheduler == s)
                &&& (self.scheduler is None ==> Some(m.scheduler.schedule_method) == self.schedule_method)
                &&& (self.style matches Some(s) ==> m.style == s)
                &&& (self.style is None ==> m.style.layers@.len() == 0)
                &&& m.wgpu_settings == (match self.wgpu_settings {
                    Some(w) => w,
                    None => WgpuSettings { low_power: false, require_hardware: false },
                })
                &&& m.renderer_settings == (match self.renderer_settings {
                    Some(s) => s,
                    None => RendererSettings { msaa_samples: 4 },
                })
            }),
    {
        let MapBuilder {
            schedule_method, scheduler, http_client, style, map_window_config, wgpu_settings, renderer_settings,
        } = self;
        let scheduler = match scheduler {
            Some(s) => s,
            None => match schedule_method {
                Some(m) => Scheduler::new(m),
                None => return Err(MapBuildError::MissingScheduleMethod),
            },
        };
        let http_client = match http_client {
            Some(h) => h,
            None => return Err(MapBuildError::MissingHttpClient),
        };
        let map_window_config = match map_window_config {
            Some(c) => c,
            None => return Err(MapBuildError::MissingMapWindowConfig),
        };
        let style = match style {
            Some(s) => s,
            None => Style::default(),
        };
        let wgpu_settings = match wgpu_settings {
            Some(w) => w,
            None => WgpuSettings::default(),
        };
        let renderer_settings = match renderer_settings {
            Some(s) => s,
            None => RendererSettings::default(),
        };
        Ok(UninitializedMap { scheduler, http_client, style, wgpu_settings, renderer_settings, map_window_config })
    }
}

} // verus!
